use vstd::prelude::*;
use rand::Isaac64Rng;
use crate::climate::Climate;
use crate::climate::MaterialCues;
use crate::climate::PointSampleData;
use crate::grid::spec_cell_from_index;
use crate::links::generate_links_for;
use crate::links::spec_takes_all_samples;
use crate::links::spec_takes_samples;
use crate::links::spec_hosts_differ;
use crate::links::spec_linked;
use crate::links::spec_links_kept;
use crate::links::spec_paired;
use crate::links::PairSearch;
use crate::links::spec_owned;
use crate::links::spec_pairs_ascend;
use crate::links::WorldLink;
use crate::material::Material;
use crate::points::CPoint2;
use crate::points::DPoint2;
use crate::scalar::Scalar;
use crate::zone_gen::generate_zones_for;
use crate::zone_gen::spec_frame_takes;
use crate::zone_gen::spec_sample_of;
use crate::zone_gen::spec_search;
use crate::zone_gen::spec_surveyed;
use crate::zone_gen::spec_searched;
use crate::zone_gen::spec_survey_takes;
use crate::zone_gen::spec_zone_settled;
use crate::zone_gen::spec_zone_surveyed;
use crate::zone_gen::spec_zones_apart;
use crate::zone_gen::Survey;
use crate::zone_gen::ZoneFrame;
use crate::zone_gen::ZoneRound;
use crate::zone_gen::MAX_ZONES;
use crate::zones::Zone;

verus! {

/// What a world is made from: a seed and two properties of its star.
#[derive(Copy, Clone, Debug, PartialEq, Eq, Structural)]
pub struct WorldPrimitive {
    pub super_seed: u64,
    pub distance_to_star: Scalar,
    pub star_energy: Scalar,
}

impl WorldPrimitive {
    /// The primitive with the given seed, distance and energy.
    pub fn new(
        super_seed: u64,
        distance_to_star: Scalar,
        star_energy: Scalar,
    ) -> (wp: WorldPrimitive)
        ensures
            wp.super_seed == super_seed,
            wp.distance_to_star == distance_to_star,
            wp.star_energy == star_energy,
    {
        WorldPrimitive { super_seed, distance_to_star, star_energy }
    }
}

/// Whether `f` takes the points of any two surveys: what `survey` answered
/// for one corner and cell with what it answered for another.
pub open spec fn spec_takes_surveyed<S: Fn(CPoint2, DPoint2) -> Survey, R, F: Fn(
    CPoint2,
    CPoint2,
) -> R>(survey: &S, f: &F) -> bool {
    forall|
        tl_a: CPoint2,
        cell_a: DPoint2,
        found_a: Survey,
        tl_b: CPoint2,
        cell_b: DPoint2,
        found_b: Survey,
    |
        #![trigger survey.ensures((tl_a, cell_a), found_a), survey.ensures((tl_b, cell_b), found_b)]
        survey.ensures((tl_a, cell_a), found_a) && survey.ensures((tl_b, cell_b), found_b)
            ==> f.requires((found_a.pt, found_b.pt))
}

/// A function that takes the points of any two surveys takes the points of
/// the samples of surveyed zones.
proof fn lemma_surveyed_zones_are_taken<
    C: Fn(&mut Isaac64Rng) -> CPoint2,
    F: Fn(CPoint2, DPoint2) -> ZoneFrame,
    S: Fn(CPoint2, DPoint2) -> Survey,
    R,
    G: Fn(CPoint2, CPoint2) -> R,
>(zones: Seq<Zone>, w: Climate, corner: &C, frame: &F, survey: &S, f: &G)
    requires
        forall|i: int| 0 <= i < zones.len() ==> spec_zone_settled(#[trigger] zones[i]),
        forall|i: int|
            0 <= i < zones.len() ==> spec_zone_surveyed(#[trigger] zones[i], w, corner, frame, survey),
        spec_takes_surveyed(survey, f),
    ensures
        spec_takes_all_samples(f, zones),
{
    assert forall|i: int, j: int| 0 <= i < j < zones.len() implies spec_takes_samples(
        f,
        #[trigger] zones[i],
        #[trigger] zones[j],
    ) by {
        let zone_a = zones[i];
        let zone_b = zones[j];
        assert(spec_zone_settled(zone_a) && spec_zone_settled(zone_b));
        assert(spec_zone_surveyed(zone_a, w, corner, frame, survey));
        assert(spec_zone_surveyed(zone_b, w, corner, frame, survey));
        let grid_a = zone_a.spec_samples();
        let grid_b = zone_b.spec_samples();
        assert forall|m: int, n: int| 0 <= m < grid_a@.len() && 0 <= n < grid_b@.len() implies #[trigger] f.requires(
            (grid_a@[m].pt, grid_b@[n].pt),
        ) by {
            grid_a.lemma_cell_at(m);
            grid_b.lemma_cell_at(n);
            let cell_a = spec_cell_from_index(grid_a.spec_width(), m);
            let cell_b = spec_cell_from_index(grid_b.spec_width(), n);
            assert(grid_a.spec_has_cell(cell_a.x as int, cell_a.y as int));
            assert(grid_b.spec_has_cell(cell_b.x as int, cell_b.y as int));
            assert(spec_surveyed(survey, w, zone_a.spec_tl(), cell_a, grid_a@[m]));
            assert(spec_surveyed(survey, w, zone_b.spec_tl(), cell_b, grid_b@[n]));
            let found_a = choose|found: Survey| #[trigger]
                survey.ensures((zone_a.spec_tl(), cell_a), found) && grid_a@[m] == spec_sample_of(
                    w,
                    found,
                );
            let found_b = choose|found: Survey| #[trigger]
                survey.ensures((zone_b.spec_tl(), cell_b), found) && grid_b@[n] == spec_sample_of(
                    w,
                    found,
                );
            assert(survey.ensures((zone_a.spec_tl(), cell_a), found_a));
            assert(survey.ensures((zone_b.spec_tl(), cell_b), found_b));
        }
    }
}

/// A generated world: its climate, its zones and the links between them.
pub struct World {
    climate: Climate,
    zones: Vec<Zone>,
    links: Vec<WorldLink>,
}

impl World {
    /// The climate.
    pub closed spec fn spec_climate(&self) -> Climate {
        self.climate
    }

    /// The zones, in the order in which they were found.
    pub closed spec fn spec_zones(&self) -> Seq<Zone> {
        self.zones@
    }

    /// The links, in the order in which they were found.
    pub closed spec fn spec_links(&self) -> Seq<WorldLink> {
        self.links@
    }

    /// What holds of every world: no two zones overlap, every zone is
    /// settled, there are at most [`MAX_ZONES`] of them, every link is
    /// sound, and the zones that the links join can be named so that each
    /// link joins border samples of two zones, no sample hosts two links and
    /// no two links join the same two zones.
    pub open spec fn wf(&self) -> bool {
        &&& spec_zones_apart(self.spec_zones())
        &&& forall|i: int|
            0 <= i < self.spec_zones().len() ==> spec_zone_settled(#[trigger] self.spec_zones()[i])
        &&& self.spec_zones().len() <= MAX_ZONES
        &&& forall|k: int|
            0 <= k < self.spec_links().len() ==> (#[trigger] self.spec_links()[k]).spec_sound()
        &&& exists|owners: Seq<(int, int)>|
            {
                &&& #[trigger] spec_owned(self.spec_links(), self.spec_zones(), owners)
                &&& spec_hosts_differ(self.spec_links(), owners)
                &&& spec_pairs_ascend(owners)
            }
        &&& self.spec_zones().len() < 2 ==> self.spec_links().len() == 0
    }

    /// Generates the zones and links of a world with the given climate.
    ///
    /// The zones are scattered first and linked afterwards, both with the
    /// same generator. Whatever the generator and the five answers give,
    /// the zones are what a whole search leaves, as [`spec_searched`] and
    /// [`spec_search`] say, the links are what a whole linking leaves, as
    /// [`spec_paired`] and [`spec_links_kept`] say, and the world is well
    /// formed.
    pub fn new<C, F, S, M, P>(
        climate: Climate,
        rng: &mut Isaac64Rng,
        corner: &C,
        frame: &F,
        survey: &S,
        measure: &M,
        path: &P,
    ) -> (w: World) where
        C: Fn(&mut Isaac64Rng) -> CPoint2,
        F: Fn(CPoint2, DPoint2) -> ZoneFrame,
        S: Fn(CPoint2, DPoint2) -> Survey,
        M: Fn(CPoint2, CPoint2) -> Scalar,
        P: Fn(CPoint2, CPoint2) -> Vec<Survey>,

        requires
            forall|g: &mut Isaac64Rng| corner.requires((g,)),
            spec_frame_takes(corner, frame),
            spec_survey_takes(corner, survey),
            spec_takes_surveyed(survey, measure),
            spec_takes_surveyed(survey, path),
        ensures
            w.wf(),
            w.spec_climate() == climate,
            exists|rounds: Seq<ZoneRound>|
                {
                    &&& #[trigger] spec_searched(rounds, climate, corner, frame, survey)
                    &&& spec_search(rounds).0 == w.spec_zones()
                },
            forall|i: int|
                0 <= i < w.spec_zones().len() ==> spec_zone_surveyed(
                    #[trigger] w.spec_zones()[i],
                    climate,
                    corner,
                    frame,
                    survey,
                ),
            exists|pairs: Seq<PairSearch>|
                {
                    &&& #[trigger] spec_paired(pairs, w.spec_zones(), climate, measure, path)
                    &&& spec_links_kept(pairs) == w.spec_links()
                },
            exists|owners: Seq<(int, int)>, marks: Seq<(Seq<DPoint2>, Seq<DPoint2>)>| #[trigger]
                spec_linked(
                    w.spec_links(),
                    w.spec_zones(),
                    climate,
                    measure,
                    path,
                    owners,
                    marks,
                ),
    {
        let zones = generate_zones_for(&climate, rng, corner, frame, survey);
        proof {
            lemma_surveyed_zones_are_taken(zones@, climate, corner, frame, survey, measure);
            lemma_surveyed_zones_are_taken(zones@, climate, corner, frame, survey, path);
        }
        let links = generate_links_for(&zones, rng, &climate, measure, path);
        let ghost found_zones = zones@;
        let ghost found_links = links@;
        let w = World { climate, zones, links };
        proof {
            let (owners, marks) = choose|
                owners: Seq<(int, int)>,
                marks: Seq<(Seq<DPoint2>, Seq<DPoint2>)>,
            |
                {
                    &&& #[trigger] spec_linked(
                        found_links,
                        found_zones,
                        climate,
                        measure,
                        path,
                        owners,
                        marks,
                    )
                    &&& spec_owned(found_links, found_zones, owners)
                    &&& spec_hosts_differ(found_links, owners)
                };
            let rounds = choose|rounds: Seq<ZoneRound>|
                {
                    &&& #[trigger] spec_searched(rounds, climate, corner, frame, survey)
                    &&& spec_search(rounds).0 == found_zones
                };
            assert(w.spec_links() == found_links);
            assert(w.spec_zones() == found_zones);
            assert(spec_search(rounds).0 == w.spec_zones());
            let pairs = choose|pairs: Seq<PairSearch>|
                {
                    &&& #[trigger] spec_paired(pairs, found_zones, climate, measure, path)
                    &&& spec_links_kept(pairs) == found_links
                };
            assert(spec_paired(pairs, w.spec_zones(), climate, measure, path));
            assert(spec_links_kept(pairs) == w.spec_links());
            assert(spec_pairs_ascend(owners));
            assert(spec_owned(w.spec_links(), w.spec_zones(), owners));
            assert(spec_linked(
                w.spec_links(),
                w.spec_zones(),
                climate,
                measure,
                path,
                owners,
                marks,
            ));
        }
        w
    }

    /// Relative size of the world.
    pub fn get_size(&self) -> (size: Scalar)
        ensures
            size == self.spec_climate().size,
    {
        self.climate.size
    }

    /// The climate.
    pub fn climate(&self) -> (climate: &Climate)
        ensures
            *climate == self.spec_climate(),
    {
        &self.climate
    }

    /// The zones, in the order in which they were found.
    pub fn zones(&self) -> (zones: &Vec<Zone>)
        ensures
            zones@ == self.spec_zones(),
    {
        &self.zones
    }

    /// The links, in the order in which they were found.
    pub fn links(&self) -> (links: &Vec<WorldLink>)
        ensures
            links@ == self.spec_links(),
    {
        &self.links
    }

    /// The material of a point with the given sample data and cues.
    pub fn material_at(&self, point_data: &PointSampleData, cues: &MaterialCues) -> (m: Material)
        ensures
            m == self.spec_climate().spec_material_at(*point_data, *cues),
    {
        self.climate.material_at(point_data, cues)
    }

    /// In a well-formed world a point lies on the rim of one zone at most,
    /// and in one zone at most.
    pub proof fn lemma_zones_share_no_point(&self, first: int, second: int, pt: CPoint2)
        requires
            self.wf(),
            0 <= first < self.spec_zones().len(),
            0 <= second < self.spec_zones().len(),
            first != second,
        ensures
            !self.spec_zones()[first].spec_overlaps_with(self.spec_zones()[second].spec_rect()),
            !(self.spec_zones()[first].spec_within(pt) && self.spec_zones()[second].spec_within(
                pt,
            )),
            !(self.spec_zones()[first].spec_barely_within(pt)
                && self.spec_zones()[second].spec_barely_within(pt)),
    {
        let a = self.spec_zones()[first];
        let b = self.spec_zones()[second];
        if first < second {
            assert(!a.spec_overlaps_with(b.spec_rect()));
        } else {
            assert(!b.spec_overlaps_with(a.spec_rect()));
            b.lemma_overlap_is_mutual(&a);
        }
        a.lemma_apart_zones_share_no_point(&b, pt);
    }

    /// In a well-formed world every link is at most [`crate::links::MAX_LEN`]
    /// long and joins two materials that are both land or both water.
    pub proof fn lemma_links_are_sound(&self, k: int)
        requires
            self.wf(),
            0 <= k < self.spec_links().len(),
        ensures
            self.spec_links()[k].length@ <= crate::links::MAX_LEN,
            self.spec_links()[k].mat_a.spec_is_land() == self.spec_links()[k].mat_b.spec_is_land(),
    {
    }
}

} // verus!
