use vstd::prelude::*;
use crate::climate::PointSampleData;
use crate::grid::TotalGrid;
use crate::material::Material;
use crate::points::CPoint2;
use crate::points::DPoint2;
use crate::scalar::Scalar;

verus! {

/// One sample of a zone: where it was taken, what was measured there, and
/// the material found.
#[derive(Copy, Clone, Debug, PartialEq, Eq, Structural)]
pub struct ZoneSample {
    pub pt: CPoint2,
    pub data: PointSampleData,
    pub mat: Material,
}

/// Whether `pt` lies in the rectangle with corners `tl` and `br`, borders
/// included.
pub open spec fn spec_rect_holds(tl: CPoint2, br: CPoint2, pt: CPoint2) -> bool {
    &&& tl.x@ <= pt.x@ <= br.x@
    &&& tl.y@ <= pt.y@ <= br.y@
}

/// Whether two rectangles, each given by its top-left and bottom-right
/// corner, overlap: neither lies wholly to one side of the other.
pub open spec fn spec_rects_overlap(a: (CPoint2, CPoint2), b: (CPoint2, CPoint2)) -> bool {
    !(a.0.x@ > b.1.x@ || a.1.x@ < b.0.x@ || a.0.y@ > b.1.y@ || a.1.y@ < b.0.y@)
}

/// Whether `pt` lies in the rectangle with corners `tl` and `br`.
fn rect_holds(tl: CPoint2, br: CPoint2, pt: CPoint2) -> (r: bool)
    ensures
        r == spec_rect_holds(tl, br, pt),
{
    tl.x.le(&pt.x) && pt.x.le(&br.x) && tl.y.le(&pt.y) && pt.y.le(&br.y)
}

/// Rank of 0.003: a point this near to a sample is close to its cell.
pub const CELL_REACH: i32 = 0x3b44_9ba6;

/// A rectangle of the map with a grid of samples taken in it. Points near
/// its border, outside its core rectangle, make up its rim.
pub struct Zone {
    tl: CPoint2,
    br: CPoint2,
    core_tl: CPoint2,
    core_br: CPoint2,
    samples: TotalGrid<ZoneSample>,
}

impl Zone {
    /// Top-left corner.
    pub closed spec fn spec_tl(&self) -> CPoint2 {
        self.tl
    }

    /// Bottom-right corner.
    pub closed spec fn spec_br(&self) -> CPoint2 {
        self.br
    }

    /// Top-left corner of the core.
    pub closed spec fn spec_core_tl(&self) -> CPoint2 {
        self.core_tl
    }

    /// Bottom-right corner of the core.
    pub closed spec fn spec_core_br(&self) -> CPoint2 {
        self.core_br
    }

    /// The grid of samples.
    pub closed spec fn spec_samples(&self) -> TotalGrid<ZoneSample> {
        self.samples
    }

    /// The two corners as a pair.
    pub open spec fn spec_rect(&self) -> (CPoint2, CPoint2) {
        (self.spec_tl(), self.spec_br())
    }

    /// Well-formedness: the grid of samples is well formed.
    pub open spec fn wf(&self) -> bool {
        self.spec_samples().wf()
    }

    /// Whether `pt` lies in the zone, borders included.
    pub open spec fn spec_within(&self, pt: CPoint2) -> bool {
        spec_rect_holds(self.spec_tl(), self.spec_br(), pt)
    }

    /// Whether `pt` lies on the rim: in the zone but not in its core.
    pub open spec fn spec_barely_within(&self, pt: CPoint2) -> bool {
        self.spec_within(pt) && !spec_rect_holds(self.spec_core_tl(), self.spec_core_br(), pt)
    }

    /// Whether the zone overlaps the rectangle `other`.
    pub open spec fn spec_overlaps_with(&self, other: (CPoint2, CPoint2)) -> bool {
        spec_rects_overlap(self.spec_rect(), other)
    }

    /// Whether `c` lies in the leftmost column of samples.
    pub open spec fn spec_coord_is_left(&self, c: DPoint2) -> bool {
        c.x == 0
    }

    /// Whether `c` lies in the rightmost column of samples.
    pub open spec fn spec_coord_is_right(&self, c: DPoint2) -> bool {
        c.x == self.spec_samples().spec_width() - 1
    }

    /// Whether `c` lies in the top row of samples.
    pub open spec fn spec_coord_is_top(&self, c: DPoint2) -> bool {
        c.y == 0
    }

    /// Whether `c` lies in the bottom row of samples.
    pub open spec fn spec_coord_is_bottom(&self, c: DPoint2) -> bool {
        c.y == self.spec_samples().spec_height() - 1
    }

    /// Whether `c` lies in an outermost row or column.
    pub open spec fn spec_coord_is_edge(&self, c: DPoint2) -> bool {
        ||| self.spec_coord_is_left(c)
        ||| self.spec_coord_is_right(c)
        ||| self.spec_coord_is_top(c)
        ||| self.spec_coord_is_bottom(c)
    }

    /// Whether `c` lies in an outermost row and in an outermost column.
    pub open spec fn spec_coord_is_corner(&self, c: DPoint2) -> bool {
        &&& self.spec_coord_is_left(c) || self.spec_coord_is_right(c)
        &&& self.spec_coord_is_top(c) || self.spec_coord_is_bottom(c)
    }

    /// The zone with the given corners, core and samples.
    pub closed spec fn spec_new(
        tl: CPoint2,
        br: CPoint2,
        core_tl: CPoint2,
        core_br: CPoint2,
        samples: TotalGrid<ZoneSample>,
    ) -> Zone {
        Zone { tl, br, core_tl, core_br, samples }
    }

    /// The zone with the given corners, core and samples.
    pub fn new(
        tl: CPoint2,
        br: CPoint2,
        core_tl: CPoint2,
        core_br: CPoint2,
        samples: TotalGrid<ZoneSample>,
    ) -> (zone: Zone)
        ensures
            zone == Self::spec_new(tl, br, core_tl, core_br, samples),
            zone.spec_tl() == tl,
            zone.spec_br() == br,
            zone.spec_core_tl() == core_tl,
            zone.spec_core_br() == core_br,
            zone.spec_samples() == samples,
    {
        Zone { tl, br, core_tl, core_br, samples }
    }

    /// Top-left corner.
    pub fn tl(&self) -> (pt: CPoint2)
        ensures
            pt == self.spec_tl(),
    {
        self.tl
    }

    /// Bottom-right corner.
    pub fn br(&self) -> (pt: CPoint2)
        ensures
            pt == self.spec_br(),
    {
        self.br
    }

    /// The grid of samples.
    pub fn samples(&self) -> (grid: &TotalGrid<ZoneSample>)
        ensures
            *grid == self.spec_samples(),
    {
        &self.samples
    }

    /// Number of samples in a row.
    pub fn get_samples_per_row(&self) -> (n: i32)
        requires
            self.wf(),
        ensures
            n == self.spec_samples().spec_width(),
            n >= 0,
    {
        self.samples.get_width()
    }

    /// Number of samples in a column.
    pub fn get_samples_per_col(&self) -> (n: i32)
        requires
            self.wf(),
        ensures
            n == self.spec_samples().spec_height(),
            n >= 0,
    {
        self.samples.get_height()
    }

    /// Whether `c` lies in the leftmost column of samples.
    pub fn coord_is_left(&self, c: DPoint2) -> (r: bool)
        ensures
            r == self.spec_coord_is_left(c),
    {
        c.x == 0
    }

    /// Whether `c` lies in the rightmost column of samples.
    pub fn coord_is_right(&self, c: DPoint2) -> (r: bool)
        requires
            self.wf(),
        ensures
            r == self.spec_coord_is_right(c),
    {
        c.x == self.samples.get_width() - 1
    }

    /// Whether `c` lies in the top row of samples.
    pub fn coord_is_top(&self, c: DPoint2) -> (r: bool)
        ensures
            r == self.spec_coord_is_top(c),
    {
        c.y == 0
    }

    /// Whether `c` lies in the bottom row of samples.
    pub fn coord_is_bottom(&self, c: DPoint2) -> (r: bool)
        requires
            self.wf(),
        ensures
            r == self.spec_coord_is_bottom(c),
    {
        c.y == self.samples.get_height() - 1
    }

    /// Whether `c` lies in an outermost row or column.
    pub fn coord_is_edge(&self, c: DPoint2) -> (r: bool)
        requires
            self.wf(),
        ensures
            r == self.spec_coord_is_edge(c),
    {
        self.coord_is_left(c) || self.coord_is_right(c) || self.coord_is_top(c)
            || self.coord_is_bottom(c)
    }

    /// Whether `c` lies in an outermost row and in an outermost column.
    pub fn coord_is_corner(&self, c: DPoint2) -> (r: bool)
        requires
            self.wf(),
        ensures
            r == self.spec_coord_is_corner(c),
    {
        (self.coord_is_left(c) || self.coord_is_right(c)) && (self.coord_is_top(c)
            || self.coord_is_bottom(c))
    }

    /// Whether `distance` answered, for the point of sample `index` and
    /// `pt`, a distance below [`CELL_REACH`].
    pub open spec fn spec_sample_near<D: Fn(CPoint2, CPoint2) -> Scalar>(
        &self,
        distance: &D,
        index: int,
        pt: CPoint2,
    ) -> bool {
        exists|d: Scalar| #[trigger]
            distance.ensures((self.spec_samples()@[index].pt, pt), d) && d@ < CELL_REACH
    }

    /// Whether `distance` answered, for the point of sample `index` and
    /// `pt`, a distance that is not below [`CELL_REACH`].
    pub open spec fn spec_sample_far<D: Fn(CPoint2, CPoint2) -> Scalar>(
        &self,
        distance: &D,
        index: int,
        pt: CPoint2,
    ) -> bool {
        exists|d: Scalar| #[trigger]
            distance.ensures((self.spec_samples()@[index].pt, pt), d) && d@ >= CELL_REACH
    }

    /// Whether `pt` is close to the point of a sample. The samples are asked
    /// row by row, `distance` gives how far each is from `pt`, and the first
    /// answer below [`CELL_REACH`] ends the search.
    ///
    /// Whatever `distance` answers: if the result is true, one sample was
    /// found near, and all before it far; if it is false, all were found
    /// far.
    pub fn close_to_cell<D: Fn(CPoint2, CPoint2) -> Scalar>(
        &self,
        pt: CPoint2,
        distance: &D,
    ) -> (r: bool)
        requires
            self.wf(),
            forall|index: int|
                0 <= index < self.spec_samples()@.len() ==> distance.requires(
                    ((#[trigger] self.spec_samples()@[index]).pt, pt),
                ),
        ensures
            r ==> exists|index: int|
                {
                    &&& 0 <= index < self.spec_samples()@.len()
                    &&& #[trigger] self.spec_sample_near(distance, index, pt)
                    &&& forall|k: int|
                        0 <= k < index ==> #[trigger] self.spec_sample_far(distance, k, pt)
                },
            !r ==> forall|k: int|
                0 <= k < self.spec_samples()@.len() ==> #[trigger] self.spec_sample_far(
                    distance,
                    k,
                    pt,
                ),
    {
        let mut walk = self.samples.iter();
        let mut passed: usize = 0;
        proof {
            self.samples.lemma_shape();
        }
        loop
            invariant
                self.wf(),
                forall|index: int|
                    0 <= index < self.spec_samples()@.len() ==> distance.requires(
                        ((#[trigger] self.spec_samples()@[index]).pt, pt),
                    ),
                walk.wf(),
                walk.spec_grid() == self.samples,
                walk.spec_position() == passed,
                passed <= self.samples@.len() <= usize::MAX,
                forall|k: int| 0 <= k < passed ==> #[trigger] self.spec_sample_far(distance, k, pt),
            decreases self.samples@.len() - passed,
        {
            match walk.next() {
                Some((_, sample)) => {
                    let d = distance(sample.pt, pt);
                    if d.rank() < CELL_REACH {
                        proof {
                            assert(distance.ensures((self.spec_samples()@[passed as int].pt, pt), d));
                            assert(self.spec_sample_near(distance, passed as int, pt));
                        }
                        return true;
                    }
                    proof {
                        assert(distance.ensures((self.spec_samples()@[passed as int].pt, pt), d));
                        assert(self.spec_sample_far(distance, passed as int, pt));
                    }
                    passed = passed + 1;
                },
                None => {
                    return false;
                },
            }
        }
    }

    /// Whether `pt` lies on the rim: in the zone but not in its core.
    pub fn barely_within(&self, pt: CPoint2) -> (r: bool)
        ensures
            r == self.spec_barely_within(pt),
    {
        self.within(pt) && !rect_holds(self.core_tl, self.core_br, pt)
    }

    /// Whether `other` lies in the zone, borders included.
    pub fn within(&self, other: CPoint2) -> (r: bool)
        ensures
            r == self.spec_within(other),
    {
        rect_holds(self.tl, self.br, other)
    }

    /// Whether the zone overlaps the rectangle whose top-left corner is the
    /// first point of `other` and whose bottom-right corner is the second.
    pub fn overlaps_with(&self, other: (CPoint2, CPoint2)) -> (r: bool)
        ensures
            r == self.spec_overlaps_with(other),
    {
        !(self.tl.x.gt(&other.1.x) || self.br.x.lt(&other.0.x) || self.tl.y.gt(&other.1.y)
            || self.br.y.lt(&other.0.y))
    }

    /// A point on the rim of a zone lies in the zone.
    pub proof fn lemma_rim_lies_within(&self, pt: CPoint2)
        ensures
            self.spec_barely_within(pt) ==> self.spec_within(pt),
    {
    }

    /// Two zones that do not overlap share no point, so no point lies on the
    /// rim of both.
    pub proof fn lemma_apart_zones_share_no_point(&self, other: &Zone, pt: CPoint2)
        requires
            !self.spec_overlaps_with(other.spec_rect()),
        ensures
            !(self.spec_within(pt) && other.spec_within(pt)),
            !(self.spec_barely_within(pt) && other.spec_barely_within(pt)),
    {
    }

    /// Overlap does not depend on which of two zones is asked.
    pub proof fn lemma_overlap_is_mutual(&self, other: &Zone)
        ensures
            self.spec_overlaps_with(other.spec_rect()) == other.spec_overlaps_with(
                self.spec_rect(),
            ),
    {
    }
}

} // verus!
