use vstd::prelude::*;
use rand::Isaac64Rng;
use crate::climate::Climate;
use crate::material::Material;
use crate::points::CPoint2;
use crate::points::DPoint2;
use crate::rng::draw_one_in;
use crate::rng::shuffle;
use crate::grid::spec_cell_from_index;
use crate::scalar::Scalar;
use crate::zone_gen::Survey;
use crate::zones::Zone;
use crate::zones::ZoneSample;

verus! {

/// Rank of 0.17: no link is longer than this.
pub const MAX_LEN: i32 = 0x3e2e_147b;

/// One found link in this many is dropped at random.
pub const DISCARD_ODDS: u32 = 6;

/// A short path from a sample on the border of one zone to a sample on the
/// border of another.
#[derive(Copy, Clone, Debug, PartialEq, Eq, Structural)]
pub struct WorldLink {
    /// Cell of the sample in the first zone.
    pub zone_a_coord: DPoint2,
    /// Cell of the sample in the second zone.
    pub zone_b_coord: DPoint2,
    /// Where the first sample was taken.
    pub world_a_pt: CPoint2,
    /// Where the second sample was taken.
    pub world_b_pt: CPoint2,
    /// Material of the first sample.
    pub mat_a: Material,
    /// Material of the second sample.
    pub mat_b: Material,
    /// Whether the link runs over land.
    pub land_link: bool,
    /// Distance between the two points, with x counted double.
    pub length: Scalar,
}

impl WorldLink {
    /// What holds of every link that the search makes: it is not longer than
    /// [`MAX_LEN`], its two materials are both land or both water, and it is
    /// a land link exactly if they are land.
    pub open spec fn spec_sound(self) -> bool {
        &&& self.length@ <= MAX_LEN
        &&& self.mat_a.spec_is_land() == self.mat_b.spec_is_land()
        &&& self.land_link == self.mat_b.spec_is_land()
    }

    /// Distance between the two points, with x counted double.
    pub fn length(&self) -> (d: Scalar)
        ensures
            d == self.length,
    {
        self.length
    }

    /// Where the first sample was taken.
    pub fn get_world_a_pt(&self) -> (pt: CPoint2)
        ensures
            pt == self.world_a_pt,
    {
        self.world_a_pt
    }

    /// Where the second sample was taken.
    pub fn get_world_b_pt(&self) -> (pt: CPoint2)
        ensures
            pt == self.world_b_pt,
    {
        self.world_b_pt
    }

    /// Material of the first sample.
    pub fn get_mat_a(&self) -> (m: Material)
        ensures
            m == self.mat_a,
    {
        self.mat_a
    }

    /// Material of the second sample.
    pub fn get_mat_b(&self) -> (m: Material)
        ensures
            m == self.mat_b,
    {
        self.mat_b
    }

    /// The materials of a sound link may be linked.
    pub proof fn lemma_sound_link_is_allowed(self)
        requires
            self.spec_sound(),
        ensures
            self.mat_a.spec_allow_link_to(self.mat_b),
    {
    }
}

/// Whether `x` occurs in `slice`.
pub fn inside_slice(x: &DPoint2, slice: &[DPoint2]) -> (r: bool)
    ensures
        r == slice@.contains(*x),
{
    let mut i: usize = 0;
    while i < slice.len()
        invariant
            0 <= i <= slice@.len(),
            forall|k: int| 0 <= k < i ==> slice@[k] != *x,
        decreases slice@.len() - i,
    {
        if slice[i] == *x {
            return true;
        }
        i = i + 1;
    }
    false
}

/// Whether one of `zones` holds `pt`.
pub open spec fn spec_within_any(zones: Seq<Zone>, pt: CPoint2) -> bool {
    exists|i: int| 0 <= i < zones.len() && (#[trigger] zones[i]).spec_within(pt)
}

/// Whether one of `zones` holds `pt`.
pub fn within_any(zones: &Vec<Zone>, pt: CPoint2) -> (r: bool)
    ensures
        r == spec_within_any(zones@, pt),
{
    let mut i: usize = 0;
    while i < zones.len()
        invariant
            0 <= i <= zones.len(),
            forall|k: int| 0 <= k < i ==> !(#[trigger] zones@[k]).spec_within(pt),
        decreases zones.len() - i,
    {
        if zones[i].within(pt) {
            return true;
        }
        i = i + 1;
    }
    false
}

/// Whether a point probed on the way of a link leaves the way free: its
/// material is land exactly if the link goes by land, and no zone holds it.
pub open spec fn spec_probe_clear(
    zones: Seq<Zone>,
    w: Climate,
    by_land: bool,
    probe: Survey,
) -> bool {
    &&& w.spec_material_at(probe.data, probe.cues).spec_is_land() == by_land
    &&& !spec_within_any(zones, probe.pt)
}

/// Whether every probed point leaves the way free.
pub open spec fn spec_traversible(
    zones: Seq<Zone>,
    probes: Seq<Survey>,
    by_land: bool,
    w: Climate,
) -> bool {
    forall|k: int|
        0 <= k < probes.len() ==> spec_probe_clear(zones, w, by_land, #[trigger] probes[k])
}

/// Whether a link can be walked, given what was found at the points probed
/// between its ends: none of them has water in the way of a land link, or
/// land in the way of a water link, and none lies in a zone.
pub fn traversible_link(
    zones: &Vec<Zone>,
    probes: &Vec<Survey>,
    by_land: bool,
    w: &Climate,
) -> (r: bool)
    ensures
        r == spec_traversible(zones@, probes@, by_land, *w),
{
    let mut c: usize = 0;
    while c < probes.len()
        invariant
            0 <= c <= probes@.len(),
            forall|k: int|
                0 <= k < c ==> spec_probe_clear(zones@, *w, by_land, #[trigger] probes@[k]),
        decreases probes@.len() - c,
    {
        let probe = &probes[c];
        let mat = w.material_at(&probe.data, &probe.cues);
        if by_land != mat.is_land() {
            return false;
        }
        if within_any(zones, probe.pt) {
            return false;
        }
        c = c + 1;
    }
    true
}

/// Whether a link found before stays when a candidate of length `dist`
/// comes: only if it is strictly shorter.
pub open spec fn spec_keeps_previous(previous: Option<WorldLink>, dist: Scalar) -> bool {
    previous matches Some(link) && link.length@ < dist@
}

/// Whether a link found before stays when a candidate of length `dist`
/// comes.
pub fn keeps_previous(previous: &Option<WorldLink>, dist: Scalar) -> (r: bool)
    ensures
        r == spec_keeps_previous(*previous, dist),
{
    match previous {
        Some(link) => link.length.lt(&dist),
        None => false,
    }
}

/// Whether cell `c` of `zone` may host an end of a new link: it is a cell on
/// the border, not a corner, and hosts no link yet.
pub open spec fn spec_may_host(zone: Zone, taken: Seq<DPoint2>, c: DPoint2) -> bool {
    &&& zone.spec_samples().spec_has_cell(c.x as int, c.y as int)
    &&& zone.spec_coord_is_edge(c)
    &&& !zone.spec_coord_is_corner(c)
    &&& !taken.contains(c)
}

/// The sample in cell `c` of `zone`.
pub open spec fn spec_sample_at(zone: Zone, c: DPoint2) -> ZoneSample {
    zone.spec_samples().spec_get(c.x as int, c.y as int)
}

/// Whether `link` joins the sample in its first cell of `zone_a` to the
/// sample in its second cell of `zone_b`.
pub open spec fn spec_joins(link: WorldLink, zone_a: Zone, zone_b: Zone) -> bool {
    &&& link.world_a_pt == spec_sample_at(zone_a, link.zone_a_coord).pt
    &&& link.mat_a == spec_sample_at(zone_a, link.zone_a_coord).mat
    &&& link.world_b_pt == spec_sample_at(zone_b, link.zone_b_coord).pt
    &&& link.mat_b == spec_sample_at(zone_b, link.zone_b_coord).mat
}

/// Whether `f` takes what the search between two zones hands it: the point
/// of any sample of `zone_a` with the point of any sample of `zone_b`.
pub open spec fn spec_takes_samples<R, F: Fn(CPoint2, CPoint2) -> R>(
    f: &F,
    zone_a: Zone,
    zone_b: Zone,
) -> bool {
    forall|i: int, j: int|
        0 <= i < zone_a.spec_samples()@.len() && 0 <= j < zone_b.spec_samples()@.len()
            ==> #[trigger] f.requires(
            (zone_a.spec_samples()@[i].pt, zone_b.spec_samples()@[j].pt),
        )
}

/// Whether `f` takes what the linking of a map hands it: the points of two
/// samples, the first of a zone that comes before the zone of the second.
pub open spec fn spec_takes_all_samples<R, F: Fn(CPoint2, CPoint2) -> R>(
    f: &F,
    zones: Seq<Zone>,
) -> bool {
    forall|i: int, j: int|
        0 <= i < j < zones.len() ==> spec_takes_samples(f, #[trigger] zones[i], #[trigger] zones[j])
}

/// What the search for a link from one zone to another goes by: the two
/// functions that answer for distances and for the way between two points,
/// the zones and the climate of the map, and the two zones with the cells of
/// each that host a link already.
pub struct LinkQuest<M, P> {
    pub measure: M,
    pub path: P,
    pub zones: Seq<Zone>,
    pub w: Climate,
    pub zone_a: Zone,
    pub taken_a: Seq<DPoint2>,
    pub zone_b: Zone,
    pub taken_b: Seq<DPoint2>,
}

/// The quest with the given parts.
pub open spec fn spec_quest<M, P>(
    measure: &M,
    path: &P,
    zones: Seq<Zone>,
    w: Climate,
    zone_a: Zone,
    taken_a: Seq<DPoint2>,
    zone_b: Zone,
    taken_b: Seq<DPoint2>,
) -> LinkQuest<M, P> {
    LinkQuest { measure: *measure, path: *path, zones, w, zone_a, taken_a, zone_b, taken_b }
}

impl<M: Fn(CPoint2, CPoint2) -> Scalar, P: Fn(CPoint2, CPoint2) -> Vec<Survey>> LinkQuest<M, P> {
    /// Where cell `a` of the first zone comes in the order of the search.
    pub open spec fn index_a(self, a: DPoint2) -> int {
        self.zone_a.spec_samples().spec_index(a.x as int, a.y as int)
    }

    /// Where cell `b` of the second zone comes in the order of the search.
    pub open spec fn index_b(self, b: DPoint2) -> int {
        self.zone_b.spec_samples().spec_index(b.x as int, b.y as int)
    }

    /// Whether cell `a` of the first zone and cell `b` of the second may
    /// both host an end of a new link.
    pub open spec fn hosts(self, a: DPoint2, b: DPoint2) -> bool {
        spec_may_host(self.zone_a, self.taken_a, a) && spec_may_host(self.zone_b, self.taken_b, b)
    }

    /// Whether the search comes to the pair of cells `(a, b)` before it
    /// comes to the pair with the indices `(upto_a, upto_b)`.
    pub open spec fn before(self, a: DPoint2, b: DPoint2, upto_a: int, upto_b: int) -> bool {
        self.index_a(a) < upto_a || (self.index_a(a) == upto_a && self.index_b(b) < upto_b)
    }

    /// Whether the search comes to the pair of cells `(a, b)` after the pair
    /// that `link` joins.
    pub open spec fn after_link(self, a: DPoint2, b: DPoint2, link: WorldLink) -> bool {
        !self.before(a, b, self.index_a(link.zone_a_coord), self.index_b(link.zone_b_coord) + 1)
    }

    /// Whether `path` answered, for the points of the two samples, probes
    /// that block the way.
    pub open spec fn blocked(self, a: ZoneSample, b: ZoneSample) -> bool {
        exists|probes: Vec<Survey>| #[trigger]
            self.path.ensures((a.pt, b.pt), probes) && !spec_traversible(
                self.zones,
                probes@,
                a.mat.spec_is_land(),
                self.w,
            )
    }

    /// Whether the pair of samples `a` and `b` gives way to `best`: one is
    /// land and the other is not; or `measure` answered a distance for it
    /// that is over [`MAX_LEN`], or with which the way is blocked, or that
    /// is not below the length of `best`, or, if `strictly` is set, above
    /// it.
    pub open spec fn ruled_out(
        self,
        a: ZoneSample,
        b: ZoneSample,
        best: Option<WorldLink>,
        strictly: bool,
    ) -> bool {
        ||| a.mat.spec_is_land() != b.mat.spec_is_land()
        ||| exists|dist: Scalar| #[trigger]
            self.measure.ensures((a.pt, b.pt), dist) && {
                ||| dist@ > MAX_LEN
                ||| self.blocked(a, b)
                ||| best matches Some(link) && link.length@ < dist@
                ||| best matches Some(link) && link.length@ == dist@ && !strictly
            }
    }

    /// What holds of a link that the search found: each end sits in a cell
    /// that may host it, the link joins the samples of those cells, it is
    /// sound, its length is what `measure` answered for the two points, and
    /// `path` answered probes for them that leave the way free.
    pub open spec fn found(self, link: WorldLink) -> bool {
        &&& self.hosts(link.zone_a_coord, link.zone_b_coord)
        &&& spec_joins(link, self.zone_a, self.zone_b)
        &&& link.spec_sound()
        &&& self.measure.ensures((link.world_a_pt, link.world_b_pt), link.length)
        &&& exists|probes: Vec<Survey>| #[trigger]
            self.path.ensures((link.world_a_pt, link.world_b_pt), probes) && spec_traversible(
                self.zones,
                probes@,
                link.land_link,
                self.w,
            )
    }

    /// What holds once the search has dealt with every pair of cells before
    /// the one with the indices `(upto_a, upto_b)`, and `best` is what it
    /// has found: `best` is a found link that joins one of those pairs, and
    /// each of those pairs that may host a link gave way to `best`, strictly
    /// if the search came to it after the pair of `best`.
    pub open spec fn scanned(self, upto_a: int, upto_b: int, best: Option<WorldLink>) -> bool {
        &&& best matches Some(link) ==> self.found(link) && self.before(
            link.zone_a_coord,
            link.zone_b_coord,
            upto_a,
            upto_b,
        )
        &&& forall|a: DPoint2, b: DPoint2| #[trigger]
            self.hosts(a, b) && self.before(a, b, upto_a, upto_b) ==> self.ruled_out(
                spec_sample_at(self.zone_a, a),
                spec_sample_at(self.zone_b, b),
                best,
                best matches Some(link) && self.after_link(a, b, link),
            )
    }

    /// What holds of the result `best` of a search: it is a found link, if
    /// it is one at all, and every pair of cells that may host a link gave
    /// way to it, strictly if the search came to the pair after the pair of
    /// `best`. So `best` has the least distance that counted, and among
    /// the pairs with that distance it joins the one that came last.
    pub open spec fn settled(self, best: Option<WorldLink>) -> bool {
        &&& best matches Some(link) ==> self.found(link)
        &&& forall|a: DPoint2, b: DPoint2| #[trigger]
            self.hosts(a, b) ==> self.ruled_out(
                spec_sample_at(self.zone_a, a),
                spec_sample_at(self.zone_b, b),
                best,
                best matches Some(link) && self.after_link(a, b, link),
            )
    }

    /// What a search settles on is the shortest link that counts, and among
    /// equally short ones the last: if `measure` and `path` have one answer
    /// each for a pair of cells that may host a link, the samples are both
    /// land or both water, the distance is at most [`MAX_LEN`] and the way is
    /// free, then a link was found, it is not longer than that distance, and
    /// it is strictly shorter if the search came to the pair after it.
    pub proof fn lemma_settled_is_shortest(
        self,
        best: Option<WorldLink>,
        a: DPoint2,
        b: DPoint2,
        dist: Scalar,
        probes: Vec<Survey>,
    )
        requires
            self.settled(best),
            self.hosts(a, b),
            spec_sample_at(self.zone_a, a).mat.spec_is_land() == spec_sample_at(
                self.zone_b,
                b,
            ).mat.spec_is_land(),
            forall|d: Scalar| #[trigger]
                self.measure.ensures(
                    (spec_sample_at(self.zone_a, a).pt, spec_sample_at(self.zone_b, b).pt),
                    d,
                ) ==> d == dist,
            forall|p: Vec<Survey>| #[trigger]
                self.path.ensures(
                    (spec_sample_at(self.zone_a, a).pt, spec_sample_at(self.zone_b, b).pt),
                    p,
                ) ==> p@ == probes@,
            dist@ <= MAX_LEN,
            spec_traversible(
                self.zones,
                probes@,
                spec_sample_at(self.zone_a, a).mat.spec_is_land(),
                self.w,
            ),
        ensures
            best matches Some(link) && link.length@ <= dist@ && (self.after_link(a, b, link)
                ==> link.length@ < dist@),
    {
        let sample_a = spec_sample_at(self.zone_a, a);
        let sample_b = spec_sample_at(self.zone_b, b);
        let strictly = best matches Some(link) && self.after_link(a, b, link);
        assert(self.ruled_out(sample_a, sample_b, best, strictly));
        assert(!self.blocked(sample_a, sample_b));
    }

    /// The search starts with nothing found and no pair dealt with.
    pub proof fn lemma_scan_starts(self)
        requires
            self.zone_a.wf(),
        ensures
            self.scanned(0, 0, None),
    {
        assert forall|a: DPoint2, b: DPoint2| #[trigger]
            self.hosts(a, b) && self.before(a, b, 0, 0) implies self.ruled_out(
            spec_sample_at(self.zone_a, a),
            spec_sample_at(self.zone_b, b),
            None,
            false,
        ) by {
            self.zone_a.spec_samples().lemma_index_names_cell(a.x as int, a.y as int);
        }
    }

    /// The search goes on by one pair: the pair gave way strictly to what
    /// was found before, if it may host a link at all.
    pub proof fn lemma_scan_passes(self, at_a: int, at_b: int, best: Option<WorldLink>)
        requires
            self.zone_a.wf(),
            self.zone_b.wf(),
            0 <= at_a < self.zone_a.spec_samples()@.len(),
            0 <= at_b < self.zone_b.spec_samples()@.len(),
            self.scanned(at_a, at_b, best),
            ({
                let a = spec_cell_from_index(self.zone_a.spec_samples().spec_width(), at_a);
                let b = spec_cell_from_index(self.zone_b.spec_samples().spec_width(), at_b);
                self.hosts(a, b) ==> self.ruled_out(
                    self.zone_a.spec_samples()@[at_a],
                    self.zone_b.spec_samples()@[at_b],
                    best,
                    true,
                )
            }),
        ensures
            self.scanned(at_a, at_b + 1, best),
    {
        assert forall|a: DPoint2, b: DPoint2| #[trigger]
            self.hosts(a, b) && self.before(a, b, at_a, at_b + 1) implies self.ruled_out(
            spec_sample_at(self.zone_a, a),
            spec_sample_at(self.zone_b, b),
            best,
            best matches Some(link) && self.after_link(a, b, link),
        ) by {
            if !self.before(a, b, at_a, at_b) {
                self.zone_a.spec_samples().lemma_index_names_cell(a.x as int, a.y as int);
                self.zone_b.spec_samples().lemma_index_names_cell(b.x as int, b.y as int);
            }
        }
    }

    /// The search takes the pair that it has come to: the new link is a
    /// found link that joins this pair, and it is not longer than what was
    /// found before.
    pub proof fn lemma_scan_takes(
        self,
        at_a: int,
        at_b: int,
        previous: Option<WorldLink>,
        link: WorldLink,
    )
        requires
            self.zone_a.wf(),
            self.zone_b.wf(),
            0 <= at_a < self.zone_a.spec_samples()@.len(),
            0 <= at_b < self.zone_b.spec_samples()@.len(),
            self.scanned(at_a, at_b, previous),
            self.found(link),
            self.index_a(link.zone_a_coord) == at_a,
            self.index_b(link.zone_b_coord) == at_b,
            previous matches Some(old_link) ==> link.length@ <= old_link.length@,
        ensures
            self.scanned(at_a, at_b + 1, Some(link)),
    {
        assert forall|a: DPoint2, b: DPoint2| #[trigger]
            self.hosts(a, b) && self.before(a, b, at_a, at_b + 1) implies self.ruled_out(
            spec_sample_at(self.zone_a, a),
            spec_sample_at(self.zone_b, b),
            Some(link),
            self.after_link(a, b, link),
        ) by {
            let sample_a = spec_sample_at(self.zone_a, a);
            let sample_b = spec_sample_at(self.zone_b, b);
            if self.before(a, b, at_a, at_b) {
                let strictly = previous matches Some(old_link) && self.after_link(a, b, old_link);
                assert(self.ruled_out(sample_a, sample_b, previous, strictly));
                if sample_a.mat.spec_is_land() == sample_b.mat.spec_is_land() {
                    let dist = choose|dist: Scalar| #[trigger]
                        self.measure.ensures((sample_a.pt, sample_b.pt), dist) && {
                            ||| dist@ > MAX_LEN
                            ||| self.blocked(sample_a, sample_b)
                            ||| previous matches Some(l) && l.length@ < dist@
                            ||| previous matches Some(l) && l.length@ == dist@ && !strictly
                        };
                    assert(self.measure.ensures((sample_a.pt, sample_b.pt), dist));
                }
            } else {
                self.zone_a.spec_samples().lemma_index_names_cell(a.x as int, a.y as int);
                self.zone_b.spec_samples().lemma_index_names_cell(b.x as int, b.y as int);
                self.zone_a.spec_samples().lemma_index_names_cell(
                    link.zone_a_coord.x as int,
                    link.zone_a_coord.y as int,
                );
                self.zone_b.spec_samples().lemma_index_names_cell(
                    link.zone_b_coord.x as int,
                    link.zone_b_coord.y as int,
                );
                assert(a == link.zone_a_coord && b == link.zone_b_coord);
                assert(self.measure.ensures((sample_a.pt, sample_b.pt), link.length));
            }
        }
    }

    /// The search goes on to the next cell of the first zone, once it has
    /// dealt with every cell of the second zone for this one or this one may
    /// host no link.
    pub proof fn lemma_scan_turns(self, at_a: int, upto_b: int, best: Option<WorldLink>)
        requires
            self.zone_a.wf(),
            self.zone_b.wf(),
            0 <= at_a < self.zone_a.spec_samples()@.len(),
            self.scanned(at_a, upto_b, best),
            upto_b == self.zone_b.spec_samples()@.len() || !spec_may_host(
                self.zone_a,
                self.taken_a,
                spec_cell_from_index(self.zone_a.spec_samples().spec_width(), at_a),
            ),
        ensures
            self.scanned(at_a + 1, 0, best),
    {
        assert forall|a: DPoint2, b: DPoint2| #[trigger]
            self.hosts(a, b) && self.before(a, b, at_a + 1, 0) implies self.ruled_out(
            spec_sample_at(self.zone_a, a),
            spec_sample_at(self.zone_b, b),
            best,
            best matches Some(link) && self.after_link(a, b, link),
        ) by {
            self.zone_a.spec_samples().lemma_index_names_cell(a.x as int, a.y as int);
            self.zone_b.spec_samples().lemma_index_names_cell(b.x as int, b.y as int);
        }
    }

    /// The search is over once it has dealt with every cell of the first
    /// zone.
    pub proof fn lemma_scan_ends(self, best: Option<WorldLink>)
        requires
            self.zone_a.wf(),
            self.scanned(self.zone_a.spec_samples()@.len() as int, 0, best),
        ensures
            self.settled(best),
    {
        assert forall|a: DPoint2, b: DPoint2| #[trigger] self.hosts(a, b) implies self.ruled_out(
            spec_sample_at(self.zone_a, a),
            spec_sample_at(self.zone_b, b),
            best,
            best matches Some(link) && self.after_link(a, b, link),
        ) by {
            self.zone_a.spec_samples().lemma_index_names_cell(a.x as int, a.y as int);
        }
    }
}

impl Zone {
    /// Looks for the shortest link from a border sample of this zone to a
    /// border sample of `other`.
    ///
    /// Every pair of cells that may host a link is tried, this zone's cells
    /// row by row and for each of them the other's. A pair counts if both
    /// samples are land or both are water, the distance that `measure`
    /// answers is at most [`MAX_LEN`], and the probes that `path` answers
    /// leave the way free. Such a pair replaces the link found so far unless
    /// that one is strictly shorter.
    ///
    /// Whatever `measure` and `path` answer, the result is settled as
    /// [`LinkQuest::settled`] says.
    pub fn shortest_sample_link<M, P>(
        &self,
        self_taken: &[DPoint2],
        other: &Zone,
        other_taken: &[DPoint2],
        zones: &Vec<Zone>,
        w: &Climate,
        measure: &M,
        path: &P,
    ) -> (shortest: Option<WorldLink>) where
        M: Fn(CPoint2, CPoint2) -> Scalar,
        P: Fn(CPoint2, CPoint2) -> Vec<Survey>,

        requires
            self.wf(),
            other.wf(),
            spec_takes_samples(measure, *self, *other),
            spec_takes_samples(path, *self, *other),
        ensures
            spec_quest(
                measure,
                path,
                zones@,
                *w,
                *self,
                self_taken@,
                *other,
                other_taken@,
            ).settled(shortest),
    {
        let ghost quest = spec_quest(
            measure,
            path,
            zones@,
            *w,
            *self,
            self_taken@,
            *other,
            other_taken@,
        );
        let mut shortest: Option<WorldLink> = None;
        let mut my_walk = self.samples().iter();
        let mut m: usize = 0;
        proof {
            self.spec_samples().lemma_shape();
            quest.lemma_scan_starts();
        }
        loop
            invariant
                self.wf(),
                other.wf(),
                spec_takes_samples(measure, *self, *other),
                spec_takes_samples(path, *self, *other),
                quest == spec_quest(
                    measure,
                    path,
                    zones@,
                    *w,
                    *self,
                    self_taken@,
                    *other,
                    other_taken@,
                ),
                my_walk.wf(),
                my_walk.spec_grid() == self.spec_samples(),
                my_walk.spec_position() == m,
                m <= self.spec_samples()@.len() <= usize::MAX,
                quest.scanned(m as int, 0, shortest),
            ensures
                quest.scanned(self.spec_samples()@.len() as int, 0, shortest),
            decreases self.spec_samples()@.len() - m,
        {
            let (m_coord, my_sample) = match my_walk.next() {
                Some(item) => item,
                None => {
                    break ;
                },
            };
            proof {
                self.spec_samples().lemma_cell_at(m as int);
            }
            if self.coord_is_edge(m_coord) && !inside_slice(&m_coord, self_taken)
                && !self.coord_is_corner(m_coord) {
                shortest = self.shortest_from(
                    shortest,
                    m_coord,
                    my_sample,
                    self_taken,
                    other,
                    other_taken,
                    zones,
                    w,
                    measure,
                    path,
                );
                proof {
                    quest.lemma_scan_turns(
                        m as int,
                        other.spec_samples()@.len() as int,
                        shortest,
                    );
                }
            } else {
                proof {
                    quest.lemma_scan_turns(m as int, 0, shortest);
                }
            }
            m = m + 1;
        }
        proof {
            quest.lemma_scan_ends(shortest);
        }
        shortest
    }

    /// Carries the search on from the border sample `my_sample` of this
    /// zone, which sits in cell `m_coord`: tries it with every cell of
    /// `other`, and returns what is found after that.
    fn shortest_from<M, P>(
        &self,
        found: Option<WorldLink>,
        m_coord: DPoint2,
        my_sample: &ZoneSample,
        self_taken: &[DPoint2],
        other: &Zone,
        other_taken: &[DPoint2],
        zones: &Vec<Zone>,
        w: &Climate,
        measure: &M,
        path: &P,
    ) -> (shortest: Option<WorldLink>) where
        M: Fn(CPoint2, CPoint2) -> Scalar,
        P: Fn(CPoint2, CPoint2) -> Vec<Survey>,

        requires
            self.wf(),
            other.wf(),
            spec_takes_samples(measure, *self, *other),
            spec_takes_samples(path, *self, *other),
            spec_may_host(*self, self_taken@, m_coord),
            *my_sample == spec_sample_at(*self, m_coord),
            spec_quest(
                measure,
                path,
                zones@,
                *w,
                *self,
                self_taken@,
                *other,
                other_taken@,
            ).scanned(self.spec_samples().spec_index(m_coord.x as int, m_coord.y as int), 0, found),
        ensures
            spec_quest(
                measure,
                path,
                zones@,
                *w,
                *self,
                self_taken@,
                *other,
                other_taken@,
            ).scanned(
                self.spec_samples().spec_index(m_coord.x as int, m_coord.y as int),
                other.spec_samples()@.len() as int,
                shortest,
            ),
    {
        let ghost m = self.spec_samples().spec_index(m_coord.x as int, m_coord.y as int);
        proof {
            self.spec_samples().lemma_index_names_cell(m_coord.x as int, m_coord.y as int);
        }
        let ghost quest = spec_quest(
            measure,
            path,
            zones@,
            *w,
            *self,
            self_taken@,
            *other,
            other_taken@,
        );
        let mut shortest = found;
        let mut their_walk = other.samples().iter();
        let mut t: usize = 0;
        proof {
            other.spec_samples().lemma_shape();
            self.spec_samples().lemma_index_names_cell(m_coord.x as int, m_coord.y as int);
        }
        loop
            invariant
                self.wf(),
                other.wf(),
                spec_takes_samples(measure, *self, *other),
                spec_takes_samples(path, *self, *other),
                quest == spec_quest(
                    measure,
                    path,
                    zones@,
                    *w,
                    *self,
                    self_taken@,
                    *other,
                    other_taken@,
                ),
                their_walk.wf(),
                their_walk.spec_grid() == other.spec_samples(),
                their_walk.spec_position() == t,
                t <= other.spec_samples()@.len() <= usize::MAX,
                0 <= m < self.spec_samples()@.len(),
                m_coord == spec_cell_from_index(self.spec_samples().spec_width(), m),
                quest.index_a(m_coord) == m,
                spec_may_host(*self, self_taken@, m_coord),
                *my_sample == spec_sample_at(*self, m_coord),
                *my_sample == self.spec_samples()@[m],
                quest.scanned(m, t as int, shortest),
            ensures
                quest.scanned(m, other.spec_samples()@.len() as int, shortest),
            decreases other.spec_samples()@.len() - t,
        {
            let (t_coord, their_sample) = match their_walk.next() {
                Some(item) => item,
                None => {
                    break ;
                },
            };
            proof {
                other.spec_samples().lemma_cell_at(t as int);
            }
            let ghost previous = shortest;
            let ghost mut taken = false;
            if other.coord_is_edge(t_coord) && !inside_slice(&t_coord, other_taken)
                && !other.coord_is_corner(t_coord) && my_sample.mat.is_land()
                == their_sample.mat.is_land() {
                let dist = measure(my_sample.pt, their_sample.pt);
                if dist.rank() <= MAX_LEN {
                    let probes = path(my_sample.pt, their_sample.pt);
                    if traversible_link(zones, &probes, my_sample.mat.is_land(), w) {
                        if !keeps_previous(&shortest, dist) {
                            shortest = Some(
                                WorldLink {
                                    zone_a_coord: m_coord,
                                    zone_b_coord: t_coord,
                                    world_a_pt: my_sample.pt,
                                    world_b_pt: their_sample.pt,
                                    mat_a: my_sample.mat,
                                    mat_b: their_sample.mat,
                                    land_link: their_sample.mat.is_land(),
                                    length: dist,
                                },
                            );
                            proof {
                                taken = true;
                                let link = shortest->0;
                                assert(quest.path.ensures(
                                    (link.world_a_pt, link.world_b_pt),
                                    probes,
                                ));
                                assert(quest.found(link));
                            }
                        }
                    }
                    proof {
                        assert(quest.path.ensures((my_sample.pt, their_sample.pt), probes));
                    }
                }
                proof {
                    assert(quest.measure.ensures((my_sample.pt, their_sample.pt), dist));
                }
            }
            proof {
                if taken {
                    quest.lemma_scan_takes(m, t as int, previous, shortest->0);
                } else {
                    quest.lemma_scan_passes(m, t as int, shortest);
                }
            }
            t = t + 1;
        }
        shortest
    }
}

/// The numbers below `count`, in ascending order.
pub open spec fn spec_indices(count: nat) -> Seq<usize> {
    Seq::new(count, |i: int| i as usize)
}

/// A random order of the numbers below `count`: each of them occurs once.
pub fn visiting_order(rng: &mut Isaac64Rng, count: usize) -> (order: Vec<usize>)
    ensures
        order@.to_multiset() == spec_indices(count as nat).to_multiset(),
        order@.len() == count,
{
    let mut order: Vec<usize> = Vec::new();
    let mut i: usize = 0;
    while i < count
        invariant
            0 <= i <= count,
            order@ == spec_indices(i as nat),
        decreases count - i,
    {
        order.push(i);
        proof {
            assert(order@ =~= spec_indices((i + 1) as nat));
        }
        i = i + 1;
    }
    shuffle(rng, &mut order);
    proof {
        order@.to_multiset_ensures();
        spec_indices(count as nat).to_multiset_ensures();
    }
    order
}

/// Whether `owners` names, for each of `links`, the two zones that it joins,
/// the first before the second in `zones`: each end sits on the border of
/// its zone, not in a corner, and the link joins the samples found there.
pub open spec fn spec_owned(
    links: Seq<WorldLink>,
    zones: Seq<Zone>,
    owners: Seq<(int, int)>,
) -> bool {
    &&& owners.len() == links.len()
    &&& forall|k: int|
        0 <= k < links.len() ==> {
            let link = #[trigger] links[k];
            let (i, j) = owners[k];
            &&& 0 <= i < j < zones.len()
            &&& spec_may_host(zones[i], Seq::empty(), link.zone_a_coord)
            &&& spec_may_host(zones[j], Seq::empty(), link.zone_b_coord)
            &&& spec_joins(link, zones[i], zones[j])
        }
}

/// Whether no sample hosts two of `links`, given the zones that each joins:
/// two links that meet in a zone sit in different cells of it.
pub open spec fn spec_hosts_differ(links: Seq<WorldLink>, owners: Seq<(int, int)>) -> bool {
    forall|k: int, l: int|
        0 <= k < l < links.len() ==> {
            let first = #[trigger] links[k];
            let second = #[trigger] links[l];
            &&& owners[k].0 == owners[l].0 ==> first.zone_a_coord != second.zone_a_coord
            &&& owners[k].0 == owners[l].1 ==> first.zone_a_coord != second.zone_b_coord
            &&& owners[k].1 == owners[l].0 ==> first.zone_b_coord != second.zone_a_coord
            &&& owners[k].1 == owners[l].1 ==> first.zone_b_coord != second.zone_b_coord
        }
}

/// Whether no two of `links` join the same two zones, and the links stand
/// in the order of the pairs of zones that they join.
pub open spec fn spec_pairs_ascend(owners: Seq<(int, int)>) -> bool {
    forall|k: int, l: int|
        0 <= k < l < owners.len() ==> {
            let first = #[trigger] owners[k];
            let second = #[trigger] owners[l];
            first.0 < second.0 || (first.0 == second.0 && first.1 < second.1)
        }
}

/// Whether cell `c` of the zone with index `zone` hosts an end of the link
/// with index `k`.
pub open spec fn spec_hosts_end(
    links: Seq<WorldLink>,
    owners: Seq<(int, int)>,
    k: int,
    zone: int,
    c: DPoint2,
) -> bool {
    ||| owners[k].0 == zone && links[k].zone_a_coord == c
    ||| owners[k].1 == zone && links[k].zone_b_coord == c
}

/// Whether `taken` holds exactly the cells of the zone with index `zone`
/// that host an end of one of the first `count` links.
pub open spec fn spec_marks_of(
    links: Seq<WorldLink>,
    owners: Seq<(int, int)>,
    count: int,
    zone: int,
    taken: Seq<DPoint2>,
) -> bool {
    forall|c: DPoint2| #[trigger]
        taken.contains(c) <==> exists|k: int|
            0 <= k < count && #[trigger] spec_hosts_end(links, owners, k, zone, c)
}

/// What holds of the links of a map. `owners` names the two zones that each
/// link joins, the first before the second in `zones`, and `marks` names
/// for each link the cells of these two zones that hosted a link when it
/// was looked for. The links stand in the order of their pairs of zones,
/// one at most for a pair; the marks of a link are the cells that host the
/// links before it; and each link is what the search between its two zones
/// settles on, given these marks.
pub open spec fn spec_linked<M: Fn(CPoint2, CPoint2) -> Scalar, P: Fn(CPoint2, CPoint2) -> Vec<
    Survey,
>>(
    links: Seq<WorldLink>,
    zones: Seq<Zone>,
    w: Climate,
    measure: &M,
    path: &P,
    owners: Seq<(int, int)>,
    marks: Seq<(Seq<DPoint2>, Seq<DPoint2>)>,
) -> bool {
    &&& owners.len() == links.len()
    &&& marks.len() == links.len()
    &&& spec_pairs_ascend(owners)
    &&& forall|k: int|
        0 <= k < links.len() ==> {
            let link = #[trigger] links[k];
            let (i, j) = owners[k];
            &&& 0 <= i < j < zones.len()
            &&& spec_marks_of(links, owners, k, i, marks[k].0)
            &&& spec_marks_of(links, owners, k, j, marks[k].1)
            &&& spec_quest(
                measure,
                path,
                zones,
                w,
                zones[i],
                marks[k].0,
                zones[j],
                marks[k].1,
            ).settled(Some(link))
        }
}

/// Marks of the first links do not depend on the links behind them.
proof fn lemma_marks_of_first(
    links: Seq<WorldLink>,
    owners: Seq<(int, int)>,
    more_links: Seq<WorldLink>,
    more_owners: Seq<(int, int)>,
    count: int,
    zone: int,
    taken: Seq<DPoint2>,
)
    requires
        0 <= count <= links.len(),
        links.len() == owners.len(),
        links.is_prefix_of(more_links),
        owners.is_prefix_of(more_owners),
        spec_marks_of(links, owners, count, zone, taken),
    ensures
        spec_marks_of(more_links, more_owners, count, zone, taken),
{
    assert forall|c: DPoint2| #[trigger]
        taken.contains(c) <==> exists|k: int|
            0 <= k < count && #[trigger] spec_hosts_end(more_links, more_owners, k, zone, c) by {
        if taken.contains(c) {
            let k = choose|k: int|
                0 <= k < count && #[trigger] spec_hosts_end(links, owners, k, zone, c);
            assert(more_links[k] == links[k] && more_owners[k] == owners[k]);
            assert(spec_hosts_end(more_links, more_owners, k, zone, c));
        }
        if exists|k: int|
            0 <= k < count && #[trigger] spec_hosts_end(more_links, more_owners, k, zone, c) {
            let k = choose|k: int|
                0 <= k < count && #[trigger] spec_hosts_end(more_links, more_owners, k, zone, c);
            assert(more_links[k] == links[k] && more_owners[k] == owners[k]);
            assert(spec_hosts_end(links, owners, k, zone, c));
        }
    }
}

/// A new link adds its two cells to the marks of its two zones, and nothing
/// to the marks of any other zone.
proof fn lemma_marks_of_next(
    links: Seq<WorldLink>,
    owners: Seq<(int, int)>,
    link: WorldLink,
    owner: (int, int),
    zone: int,
    taken: Seq<DPoint2>,
    taken_after: Seq<DPoint2>,
)
    requires
        links.len() == owners.len(),
        owner.0 != owner.1,
        spec_marks_of(links, owners, links.len() as int, zone, taken),
        taken_after == if zone == owner.0 {
            taken.push(link.zone_a_coord)
        } else if zone == owner.1 {
            taken.push(link.zone_b_coord)
        } else {
            taken
        },
    ensures
        spec_marks_of(
            links.push(link),
            owners.push(owner),
            links.len() as int + 1,
            zone,
            taken_after,
        ),
{
    let more_links = links.push(link);
    let more_owners = owners.push(owner);
    let count = links.len() as int;
    assert forall|c: DPoint2| #[trigger]
        taken_after.contains(c) <==> exists|k: int|
            0 <= k < count + 1 && #[trigger] spec_hosts_end(more_links, more_owners, k, zone, c) by {
        if taken_after.contains(c) {
            let at = choose|at: int| 0 <= at < taken_after.len() && taken_after[at] == c;
            if at < taken.len() {
                assert(taken[at] == c);
                assert(taken.contains(c));
                let k = choose|k: int|
                    0 <= k < count && #[trigger] spec_hosts_end(links, owners, k, zone, c);
                assert(more_links[k] == links[k] && more_owners[k] == owners[k]);
                assert(spec_hosts_end(more_links, more_owners, k, zone, c));
            } else {
                assert(spec_hosts_end(more_links, more_owners, count, zone, c));
            }
        }
        if exists|k: int|
            0 <= k < count + 1 && #[trigger] spec_hosts_end(more_links, more_owners, k, zone, c) {
            let k = choose|k: int|
                0 <= k < count + 1 && #[trigger] spec_hosts_end(
                    more_links,
                    more_owners,
                    k,
                    zone,
                    c,
                );
            if k < count {
                assert(more_links[k] == links[k] && more_owners[k] == owners[k]);
                assert(spec_hosts_end(links, owners, k, zone, c));
                assert(taken.contains(c));
                let at = choose|at: int| 0 <= at < taken.len() && taken[at] == c;
                assert(taken_after[at] == c);
            } else {
                assert(taken_after.last() == c);
            }
        }
    }
}

/// Among linked links no sample hosts two, and each link sits on the
/// border of its two zones and joins the samples there.
pub proof fn lemma_linked_hosts_differ<M: Fn(CPoint2, CPoint2) -> Scalar, P: Fn(
    CPoint2,
    CPoint2,
) -> Vec<Survey>>(
    links: Seq<WorldLink>,
    zones: Seq<Zone>,
    w: Climate,
    measure: &M,
    path: &P,
    owners: Seq<(int, int)>,
    marks: Seq<(Seq<DPoint2>, Seq<DPoint2>)>,
)
    requires
        spec_linked(links, zones, w, measure, path, owners, marks),
    ensures
        spec_owned(links, zones, owners),
        spec_hosts_differ(links, owners),
        forall|k: int| 0 <= k < links.len() ==> (#[trigger] links[k]).spec_sound(),
        forall|k: int|
            0 <= k < links.len() ==> measure.ensures(
                ((#[trigger] links[k]).world_a_pt, links[k].world_b_pt),
                links[k].length,
            ),
{
    assert forall|k: int, l: int| 0 <= k < l < links.len() implies {
        let first = #[trigger] links[k];
        let second = #[trigger] links[l];
        &&& owners[k].0 == owners[l].0 ==> first.zone_a_coord != second.zone_a_coord
        &&& owners[k].0 == owners[l].1 ==> first.zone_a_coord != second.zone_b_coord
        &&& owners[k].1 == owners[l].0 ==> first.zone_b_coord != second.zone_a_coord
        &&& owners[k].1 == owners[l].1 ==> first.zone_b_coord != second.zone_b_coord
    } by {
        let first = links[k];
        let second = links[l];
        assert(!marks[l].0.contains(second.zone_a_coord));
        assert(!marks[l].1.contains(second.zone_b_coord));
        if owners[k].0 == owners[l].0 && first.zone_a_coord == second.zone_a_coord {
            assert(spec_hosts_end(links, owners, k, owners[l].0, second.zone_a_coord));
        }
        if owners[k].0 == owners[l].1 && first.zone_a_coord == second.zone_b_coord {
            assert(spec_hosts_end(links, owners, k, owners[l].1, second.zone_b_coord));
        }
        if owners[k].1 == owners[l].0 && first.zone_b_coord == second.zone_a_coord {
            assert(spec_hosts_end(links, owners, k, owners[l].0, second.zone_a_coord));
        }
        if owners[k].1 == owners[l].1 && first.zone_b_coord == second.zone_b_coord {
            assert(spec_hosts_end(links, owners, k, owners[l].1, second.zone_b_coord));
        }
    }
    assert forall|k: int| 0 <= k < links.len() implies {
        let link = #[trigger] links[k];
        let (i, j) = owners[k];
        &&& 0 <= i < j < zones.len()
        &&& spec_may_host(zones[i], Seq::empty(), link.zone_a_coord)
        &&& spec_may_host(zones[j], Seq::empty(), link.zone_b_coord)
        &&& spec_joins(link, zones[i], zones[j])
    } by {
        let link = links[k];
    }
}

/// Whether `taken` holds, for each of the first `zones` zones, exactly the
/// cells that host an end of one of `links`.
pub open spec fn spec_all_marked(
    links: Seq<WorldLink>,
    owners: Seq<(int, int)>,
    taken: Seq<Vec<DPoint2>>,
    zones: int,
) -> bool {
    &&& taken.len() == zones
    &&& forall|z: int|
        0 <= z < zones ==> spec_marks_of(
            links,
            owners,
            links.len() as int,
            z,
            (#[trigger] taken[z])@,
        )
}

/// Whether a found link is kept: the draw did not drop it and it is not
/// longer than [`MAX_LEN`].
pub open spec fn spec_link_is_kept(dropped: bool, link: WorldLink) -> bool {
    !dropped && link.length@ <= MAX_LEN
}

/// Whether a found link is kept, given whether the draw dropped it.
pub fn link_is_kept(dropped: bool, link: &WorldLink) -> (r: bool)
    ensures
        r == spec_link_is_kept(dropped, *link),
{
    !dropped && link.length.rank() <= MAX_LEN
}

/// One empty list for each of `count` zones.
fn unmarked(count: usize) -> (taken: Vec<Vec<DPoint2>>)
    ensures
        taken@.len() == count,
        forall|z: int| 0 <= z < count ==> (#[trigger] taken@[z])@ == Seq::<DPoint2>::empty(),
{
    let mut taken: Vec<Vec<DPoint2>> = Vec::new();
    let mut z: usize = 0;
    while z < count
        invariant
            0 <= z <= count,
            taken@.len() == z,
            forall|k: int| 0 <= k < z ==> (#[trigger] taken@[k])@ == Seq::<DPoint2>::empty(),
        decreases count - z,
    {
        taken.push(Vec::new());
        z = z + 1;
    }
    taken
}

/// The search between one pair of zones as it went: the two zones, the
/// cells of each that hosted a link when the search began, what the search
/// found, and whether the draw dropped it.
pub struct PairSearch {
    pub zone_a: int,
    pub zone_b: int,
    pub marks_a: Seq<DPoint2>,
    pub marks_b: Seq<DPoint2>,
    pub found: Option<WorldLink>,
    pub dropped: bool,
}

impl PairSearch {
    /// The link that the search adds to the map: the one it found, if it
    /// found one and that one is kept.
    pub open spec fn spec_kept(self) -> Option<WorldLink> {
        match self.found {
            Some(link) => if spec_link_is_kept(self.dropped, link) {
                Some(link)
            } else {
                None
            },
            None => None,
        }
    }
}

/// The links that the given searches add to the map, in their order.
#[verifier::opaque]
pub open spec fn spec_links_kept(pairs: Seq<PairSearch>) -> Seq<WorldLink>
    decreases pairs.len(),
{
    if pairs.len() == 0 {
        Seq::empty()
    } else {
        let before = spec_links_kept(pairs.drop_last());
        match pairs.last().spec_kept() {
            Some(link) => before.push(link),
            None => before,
        }
    }
}

/// Whether the search with index `k` added a link of which one end sits in
/// cell `c` of the zone with index `zone`.
pub open spec fn spec_pair_hosts(pairs: Seq<PairSearch>, k: int, zone: int, c: DPoint2) -> bool {
    pairs[k].spec_kept() matches Some(link) && {
        ||| pairs[k].zone_a == zone && link.zone_a_coord == c
        ||| pairs[k].zone_b == zone && link.zone_b_coord == c
    }
}

/// Whether `taken` holds exactly the cells of the zone with index `zone` in
/// which a link sits that one of `pairs` added.
pub open spec fn spec_marked_by(pairs: Seq<PairSearch>, zone: int, taken: Seq<DPoint2>) -> bool {
    forall|c: DPoint2| #[trigger]
        taken.contains(c) <==> exists|k: int|
            0 <= k < pairs.len() && #[trigger] spec_pair_hosts(pairs, k, zone, c)
}

/// Whether the search with index `k` went as it should, given the searches
/// before it: it is between two zones, the first before the second, its
/// marks are the cells in which the links added before it sit, and what it
/// found is what the search between the two zones settles on.
pub open spec fn spec_pair_ran<M: Fn(CPoint2, CPoint2) -> Scalar, P: Fn(CPoint2, CPoint2) -> Vec<
    Survey,
>>(
    pairs: Seq<PairSearch>,
    k: int,
    zones: Seq<Zone>,
    w: Climate,
    measure: &M,
    path: &P,
) -> bool {
    let pair = pairs[k];
    let before = pairs.take(k);
    &&& 0 <= pair.zone_a < pair.zone_b < zones.len()
    &&& spec_marked_by(before, pair.zone_a, pair.marks_a)
    &&& spec_marked_by(before, pair.zone_b, pair.marks_b)
    &&& spec_quest(
        measure,
        path,
        zones,
        w,
        zones[pair.zone_a],
        pair.marks_a,
        zones[pair.zone_b],
        pair.marks_b,
    ).settled(pair.found)
}

/// Whether the search with index `k` is the one between the zones with the
/// indices `zone_a` and `zone_b`.
pub open spec fn spec_pair_is(pairs: Seq<PairSearch>, k: int, zone_a: int, zone_b: int) -> bool {
    0 <= k < pairs.len() && pairs[k].zone_a == zone_a && pairs[k].zone_b == zone_b
}

/// Whether the zones with the indices `zone_a` and `zone_b` have their
/// search among `pairs`.
pub open spec fn spec_pair_done(pairs: Seq<PairSearch>, zone_a: int, zone_b: int) -> bool {
    exists|k: int| #[trigger] spec_pair_is(pairs, k, zone_a, zone_b)
}

/// Whether every pair of zones that comes before the pair `(upto_a,
/// upto_b)` has its search among `pairs`, and no other pair has one.
pub open spec fn spec_pairs_cover(
    pairs: Seq<PairSearch>,
    count: int,
    upto_a: int,
    upto_b: int,
) -> bool {
    &&& forall|a: int, b: int|
        0 <= a < b < count && (a < upto_a || (a == upto_a && b < upto_b))
            ==> #[trigger] spec_pair_done(pairs, a, b)
    &&& forall|k: int|
        0 <= k < pairs.len() ==> (#[trigger] pairs[k]).zone_a < upto_a || (pairs[k].zone_a
            == upto_a && pairs[k].zone_b < upto_b)
    &&& spec_searches_ascend(pairs)
}

/// Whether the searches stand in the order of their pairs of zones, one at
/// most for a pair.
pub open spec fn spec_searches_ascend(pairs: Seq<PairSearch>) -> bool {
    forall|k: int, l: int|
        0 <= k < l < pairs.len() ==> {
            let first = #[trigger] pairs[k];
            let second = #[trigger] pairs[l];
            first.zone_a < second.zone_a || (first.zone_a == second.zone_a && first.zone_b
                < second.zone_b)
        }
}

/// Whether `pairs` is the whole linking of a map: every search went as it
/// should, every pair of zones, the first before the second, has its
/// search, and the searches stand in the order of their pairs.
pub open spec fn spec_paired<M: Fn(CPoint2, CPoint2) -> Scalar, P: Fn(CPoint2, CPoint2) -> Vec<
    Survey,
>>(pairs: Seq<PairSearch>, zones: Seq<Zone>, w: Climate, measure: &M, path: &P) -> bool {
    &&& spec_pairs_ran(pairs, zones, w, measure, path)
    &&& forall|a: int, b: int| 0 <= a < b < zones.len() ==> #[trigger] spec_pair_done(pairs, a, b)
    &&& spec_searches_ascend(pairs)
}

/// Whether every one of `pairs` went as it should.
pub open spec fn spec_pairs_ran<M: Fn(CPoint2, CPoint2) -> Scalar, P: Fn(
    CPoint2,
    CPoint2,
) -> Vec<Survey>>(pairs: Seq<PairSearch>, zones: Seq<Zone>, w: Climate, measure: &M, path: &P) -> bool {
    forall|k: int|
        0 <= k < pairs.len() ==> #[trigger] spec_pair_ran(pairs, k, zones, w, measure, path)
}

/// No search adds no link.
pub proof fn lemma_links_kept_start()
    ensures
        spec_links_kept(Seq::empty()) == Seq::<WorldLink>::empty(),
{
    reveal(spec_links_kept);
}

/// One more search adds its link, if it keeps one.
pub proof fn lemma_links_kept_step(pairs: Seq<PairSearch>, pair: PairSearch)
    ensures
        spec_links_kept(pairs.push(pair)) == match pair.spec_kept() {
            Some(link) => spec_links_kept(pairs).push(link),
            None => spec_links_kept(pairs),
        },
{
    reveal(spec_links_kept);
    assert(pairs.push(pair).drop_last() =~= pairs);
}

/// Searches that went as they should go on by one that does.
proof fn lemma_pairs_run_on<M: Fn(CPoint2, CPoint2) -> Scalar, P: Fn(CPoint2, CPoint2) -> Vec<
    Survey,
>>(
    pairs: Seq<PairSearch>,
    pair: PairSearch,
    zones: Seq<Zone>,
    w: Climate,
    measure: &M,
    path: &P,
)
    requires
        spec_pairs_ran(pairs, zones, w, measure, path),
        0 <= pair.zone_a < pair.zone_b < zones.len(),
        spec_marked_by(pairs, pair.zone_a, pair.marks_a),
        spec_marked_by(pairs, pair.zone_b, pair.marks_b),
        spec_quest(
            measure,
            path,
            zones,
            w,
            zones[pair.zone_a],
            pair.marks_a,
            zones[pair.zone_b],
            pair.marks_b,
        ).settled(pair.found),
    ensures
        spec_pairs_ran(pairs.push(pair), zones, w, measure, path),
{
    let more = pairs.push(pair);
    assert forall|k: int| 0 <= k < more.len() implies #[trigger] spec_pair_ran(
        more,
        k,
        zones,
        w,
        measure,
        path,
    ) by {
        if k < pairs.len() {
            assert(more.take(k) =~= pairs.take(k));
            assert(more[k] == pairs[k]);
            assert(spec_pair_ran(pairs, k, zones, w, measure, path));
        } else {
            assert(more.take(k) =~= pairs);
            assert(more[k] == pair);
        }
    }
}

/// One more search adds the two cells of its link to the marks of its two
/// zones, if it keeps one, and nothing to the marks of any other zone.
proof fn lemma_marked_by_next(
    pairs: Seq<PairSearch>,
    pair: PairSearch,
    zone: int,
    taken: Seq<DPoint2>,
    taken_after: Seq<DPoint2>,
)
    requires
        pair.zone_a != pair.zone_b,
        spec_marked_by(pairs, zone, taken),
        taken_after == match pair.spec_kept() {
            Some(link) => if zone == pair.zone_a {
                taken.push(link.zone_a_coord)
            } else if zone == pair.zone_b {
                taken.push(link.zone_b_coord)
            } else {
                taken
            },
            None => taken,
        },
    ensures
        spec_marked_by(pairs.push(pair), zone, taken_after),
{
    let more = pairs.push(pair);
    let count = pairs.len() as int;
    assert forall|c: DPoint2| #[trigger]
        taken_after.contains(c) <==> exists|k: int|
            0 <= k < more.len() && #[trigger] spec_pair_hosts(more, k, zone, c) by {
        if taken_after.contains(c) {
            let at = choose|at: int| 0 <= at < taken_after.len() && taken_after[at] == c;
            if at < taken.len() {
                assert(taken[at] == c);
                assert(taken.contains(c));
                let k = choose|k: int| 0 <= k < count && #[trigger] spec_pair_hosts(pairs, k, zone, c);
                assert(more[k] == pairs[k]);
                assert(spec_pair_hosts(more, k, zone, c));
            } else {
                assert(more[count] == pair);
                assert(spec_pair_hosts(more, count, zone, c));
            }
        }
        if exists|k: int| 0 <= k < more.len() && #[trigger] spec_pair_hosts(more, k, zone, c) {
            let k = choose|k: int| 0 <= k < more.len() && #[trigger] spec_pair_hosts(more, k, zone, c);
            if k < count {
                assert(more[k] == pairs[k]);
                assert(spec_pair_hosts(pairs, k, zone, c));
                assert(taken.contains(c));
                let at = choose|at: int| 0 <= at < taken.len() && taken[at] == c;
                assert(taken_after[at] == c);
            } else {
                assert(more[k] == pair);
                assert(taken_after.last() == c);
            }
        }
    }
}

/// One more search, between the pair of zones that the searches so far
/// have come to, brings them to the next pair.
proof fn lemma_pairs_cover_next(pairs: Seq<PairSearch>, pair: PairSearch, count: int)
    requires
        0 <= pair.zone_a < pair.zone_b,
        spec_pairs_cover(pairs, count, pair.zone_a, pair.zone_b),
    ensures
        spec_pairs_cover(pairs.push(pair), count, pair.zone_a, pair.zone_b + 1),
{
    let more = pairs.push(pair);
    assert forall|k: int, l: int| 0 <= k < l < more.len() implies {
        let first = #[trigger] more[k];
        let second = #[trigger] more[l];
        first.zone_a < second.zone_a || (first.zone_a == second.zone_a && first.zone_b
            < second.zone_b)
    } by {
        assert(more[k] == pairs[k]);
        if l < pairs.len() {
            assert(more[l] == pairs[l]);
        }
    }
    assert forall|a: int, b: int|
        0 <= a < b < count && (a < pair.zone_a || (a == pair.zone_a && b < pair.zone_b
            + 1)) implies #[trigger] spec_pair_done(more, a, b) by {
        if a == pair.zone_a && b == pair.zone_b {
            assert(more[pairs.len() as int] == pair);
            assert(spec_pair_is(more, pairs.len() as int, a, b));
        } else {
            assert(spec_pair_done(pairs, a, b));
            let k = choose|k: int| #[trigger] spec_pair_is(pairs, k, a, b);
            assert(more[k] == pairs[k]);
            assert(spec_pair_is(more, k, a, b));
        }
    }
    assert forall|k: int| 0 <= k < more.len() implies (#[trigger] more[k]).zone_a < pair.zone_a
        || (more[k].zone_a == pair.zone_a && more[k].zone_b < pair.zone_b + 1) by {
        if k < pairs.len() {
            assert(more[k] == pairs[k]);
        }
    }
}

/// Whether `taken` holds, for each of the first `zones` zones, exactly the
/// cells in which a link sits that one of `pairs` added.
pub open spec fn spec_all_marked_by(
    pairs: Seq<PairSearch>,
    taken: Seq<Vec<DPoint2>>,
    zones: int,
) -> bool {
    &&& taken.len() == zones
    &&& forall|z: int| 0 <= z < zones ==> spec_marked_by(pairs, z, (#[trigger] taken[z])@)
}

/// Once every pair with the first zone `at` is searched, the searches have
/// come to the first pair of the next zone.
proof fn lemma_pairs_cover_turn(pairs: Seq<PairSearch>, at: int, upto: int, count: int)
    requires
        0 <= at < count,
        count <= upto,
        spec_pairs_cover(pairs, count, at, upto),
    ensures
        spec_pairs_cover(pairs, count, at + 1, at + 2),
{
    assert forall|a: int, b: int|
        0 <= a < b < count && (a < at + 1 || (a == at + 1 && b < at + 2))
            implies #[trigger] spec_pair_done(pairs, a, b) by {
    }
}

/// Links the zones of a map.
///
/// A visiting order is drawn first, for its effect on the generator alone.
/// Then, for every pair of zones, the first before the second, the shortest
/// link between them is looked for among the cells that host no link yet.
/// One found link in [`DISCARD_ODDS`] is dropped at random; any other is
/// kept and its two cells are marked.
///
/// Whatever the generator, `measure` and `path` give, the result is what a
/// whole linking leaves, as [`spec_paired`] and [`spec_links_kept`] say:
/// every pair of zones has its search, in order, each search found what the
/// search between its two zones settles on, given the cells that host the
/// links added before it, and the links are those that were found and
/// kept. So the links are linked as [`spec_linked`] says: every link is
/// sound, has the length that `measure` answered for its two points and a
/// way that `path` found free, and no sample hosts two links. Fewer than
/// two zones have no links.
pub fn generate_links_for<M, P>(
    zones: &Vec<Zone>,
    rng: &mut Isaac64Rng,
    w: &Climate,
    measure: &M,
    path: &P,
) -> (links: Vec<WorldLink>) where
    M: Fn(CPoint2, CPoint2) -> Scalar,
    P: Fn(CPoint2, CPoint2) -> Vec<Survey>,

    requires
        forall|i: int| 0 <= i < zones@.len() ==> (#[trigger] zones@[i]).wf(),
        spec_takes_all_samples(measure, zones@),
        spec_takes_all_samples(path, zones@),
    ensures
        exists|pairs: Seq<PairSearch>|
            {
                &&& #[trigger] spec_paired(pairs, zones@, *w, measure, path)
                &&& spec_links_kept(pairs) == links@
            },
        exists|owners: Seq<(int, int)>, marks: Seq<(Seq<DPoint2>, Seq<DPoint2>)>|
            {
                &&& #[trigger] spec_linked(links@, zones@, *w, measure, path, owners, marks)
                &&& spec_owned(links@, zones@, owners)
                &&& spec_hosts_differ(links@, owners)
            },
        forall|k: int| 0 <= k < links@.len() ==> (#[trigger] links@[k]).spec_sound(),
        forall|k: int|
            0 <= k < links@.len() ==> measure.ensures(
                ((#[trigger] links@[k]).world_a_pt, links@[k].world_b_pt),
                links@[k].length,
            ),
        zones@.len() < 2 ==> links@.len() == 0,
{
    let count = zones.len();
    let _order = visiting_order(rng, count);
    let mut links: Vec<WorldLink> = Vec::new();
    let mut taken_samples = unmarked(count);
    let ghost mut owners: Seq<(int, int)> = Seq::empty();
    let ghost mut marks: Seq<(Seq<DPoint2>, Seq<DPoint2>)> = Seq::empty();
    let ghost mut pairs: Seq<PairSearch> = Seq::empty();
    proof {
        lemma_links_kept_start();
    }
    let mut i: usize = 0;
    while i < count
        invariant
            count == zones@.len(),
            0 <= i <= count,
            forall|z: int| 0 <= z < zones@.len() ==> (#[trigger] zones@[z]).wf(),
            spec_takes_all_samples(measure, zones@),
            spec_takes_all_samples(path, zones@),
            spec_linked(links@, zones@, *w, measure, path, owners, marks),
            spec_all_marked(links@, owners, taken_samples@, count as int),
            forall|k: int| 0 <= k < owners.len() ==> (#[trigger] owners[k]).0 < i,
            spec_pairs_ran(pairs, zones@, *w, measure, path),
            spec_links_kept(pairs) == links@,
            spec_all_marked_by(pairs, taken_samples@, count as int),
            spec_pairs_cover(pairs, count as int, i as int, i as int + 1),
            count < 2 ==> links@.len() == 0,
        decreases count - i,
    {
        let mut j: usize = i + 1;
        while j < count
            invariant
                count == zones@.len(),
                0 <= i < j <= count,
                forall|z: int| 0 <= z < zones@.len() ==> (#[trigger] zones@[z]).wf(),
                spec_takes_all_samples(measure, zones@),
                spec_takes_all_samples(path, zones@),
                spec_linked(links@, zones@, *w, measure, path, owners, marks),
                spec_all_marked(links@, owners, taken_samples@, count as int),
                forall|k: int|
                    0 <= k < owners.len() ==> (#[trigger] owners[k]).0 < i || (owners[k].0 == i
                        && owners[k].1 < j),
                spec_pairs_ran(pairs, zones@, *w, measure, path),
                spec_links_kept(pairs) == links@,
                spec_all_marked_by(pairs, taken_samples@, count as int),
                spec_pairs_cover(pairs, count as int, i as int, j as int),
                count < 2 ==> links@.len() == 0,
            decreases count - j,
        {
            let found = zones[i].shortest_sample_link(
                taken_samples[i].as_slice(),
                &zones[j],
                taken_samples[j].as_slice(),
                zones,
                w,
                measure,
                path,
            );
            let ghost taken_at_start = taken_samples@;
            let ghost mut was_dropped = false;
            if let Some(shortest) = found {
                let dropped = draw_one_in(rng, DISCARD_ODDS);
                proof {
                    was_dropped = dropped;
                }
                if link_is_kept(dropped, &shortest) {
                    let ghost links_before = links@;
                    let ghost owners_before = owners;
                    let ghost marks_before = marks;
                    let ghost taken_before = taken_samples@;
                    taken_samples[i].push(shortest.zone_a_coord);
                    taken_samples[j].push(shortest.zone_b_coord);
                    links.push(shortest);
                    proof {
                        let owner = (i as int, j as int);
                        owners = owners.push(owner);
                        marks = marks.push((taken_before[i as int]@, taken_before[j as int]@));
                        assert forall|z: int| 0 <= z < count implies spec_marks_of(
                            links@,
                            owners,
                            links@.len() as int,
                            z,
                            (#[trigger] taken_samples@[z])@,
                        ) by {
                            lemma_marks_of_next(
                                links_before,
                                owners_before,
                                shortest,
                                owner,
                                z,
                                taken_before[z]@,
                                taken_samples@[z]@,
                            );
                        }
                        assert forall|k: int, l: int| 0 <= k < l < owners.len() implies {
                            let first = #[trigger] owners[k];
                            let second = #[trigger] owners[l];
                            first.0 < second.0 || (first.0 == second.0 && first.1 < second.1)
                        } by {
                            assert(owners[k] == owners_before[k]);
                            if l < owners_before.len() {
                                assert(owners[l] == owners_before[l]);
                            }
                        }
                        assert forall|k: int| 0 <= k < links@.len() implies {
                            let link = #[trigger] links@[k];
                            let (a, b) = owners[k];
                            &&& 0 <= a < b < zones@.len()
                            &&& spec_marks_of(links@, owners, k, a, marks[k].0)
                            &&& spec_marks_of(links@, owners, k, b, marks[k].1)
                            &&& spec_quest(
                                measure,
                                path,
                                zones@,
                                *w,
                                zones@[a],
                                marks[k].0,
                                zones@[b],
                                marks[k].1,
                            ).settled(Some(link))
                        } by {
                            if k < links_before.len() {
                                assert(links@[k] == links_before[k]);
                                assert(owners[k] == owners_before[k]);
                                assert(marks[k] == marks_before[k]);
                                lemma_marks_of_first(
                                    links_before,
                                    owners_before,
                                    links@,
                                    owners,
                                    k,
                                    owners[k].0,
                                    marks[k].0,
                                );
                                lemma_marks_of_first(
                                    links_before,
                                    owners_before,
                                    links@,
                                    owners,
                                    k,
                                    owners[k].1,
                                    marks[k].1,
                                );
                            } else {
                                lemma_marks_of_first(
                                    links_before,
                                    owners_before,
                                    links@,
                                    owners,
                                    k,
                                    i as int,
                                    marks[k].0,
                                );
                                lemma_marks_of_first(
                                    links_before,
                                    owners_before,
                                    links@,
                                    owners,
                                    k,
                                    j as int,
                                    marks[k].1,
                                );
                            }
                        }
                    }
                }
            }
            proof {
                let pair = PairSearch {
                    zone_a: i as int,
                    zone_b: j as int,
                    marks_a: taken_at_start[i as int]@,
                    marks_b: taken_at_start[j as int]@,
                    found,
                    dropped: was_dropped,
                };
                lemma_pairs_run_on(pairs, pair, zones@, *w, measure, path);
                lemma_links_kept_step(pairs, pair);
                lemma_pairs_cover_next(pairs, pair, count as int);
                assert forall|z: int| 0 <= z < count implies spec_marked_by(
                    pairs.push(pair),
                    z,
                    (#[trigger] taken_samples@[z])@,
                ) by {
                    lemma_marked_by_next(pairs, pair, z, taken_at_start[z]@, taken_samples@[z]@);
                }
                pairs = pairs.push(pair);
            }
            j = j + 1;
        }
        proof {
            lemma_pairs_cover_turn(pairs, i as int, j as int, count as int);
        }
        i = i + 1;
    }
    proof {
        lemma_linked_hosts_differ(links@, zones@, *w, measure, path, owners, marks);
        assert forall|a: int, b: int| 0 <= a < b < zones@.len() implies #[trigger] spec_pair_done(
            pairs,
            a,
            b,
        ) by {
        }
        assert(spec_paired(pairs, zones@, *w, measure, path));
    }
    links
}

} // verus!
