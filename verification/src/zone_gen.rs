use vstd::prelude::*;
use rand::Isaac64Rng;
use crate::climate::Climate;
use crate::climate::MaterialCues;
use crate::climate::PointSampleData;
use crate::grid::lemma_index_in_range;
use crate::grid::TotalGrid;
use crate::grid::TotalGridBuilder;
use crate::points::CPoint2;
use crate::points::DPoint2;
use crate::rng::draw_byte;
use crate::zones::Zone;
use crate::zones::ZoneSample;

verus! {

/// What the search for zones may spend before it stops.
pub const ZONE_BUDGET: i16 = 500;

/// Rank of 0.95: no zone reaches beyond this coordinate.
pub const MAP_LIMIT: i32 = 0x3f73_3333;

/// A zone needs this many walkable samples.
pub const MIN_WALKABLE: usize = 5;

/// More zones than this the budget does not pay for.
pub const MAX_ZONES: usize = 21;

/// What completes a zone once its top-left corner and the dimensions of its
/// grid are chosen: the far corner and the core.
#[derive(Copy, Clone, Debug, PartialEq, Eq, Structural)]
pub struct ZoneFrame {
    pub br: CPoint2,
    pub core_tl: CPoint2,
    pub core_br: CPoint2,
}

/// What was found at one point of the map: the point itself, the sample data
/// and the cues for the choice of a material.
#[derive(Copy, Clone, Debug, PartialEq, Eq, Structural)]
pub struct Survey {
    pub pt: CPoint2,
    pub data: PointSampleData,
    pub cues: MaterialCues,
}

/// How the proposal of a zone ended.
#[derive(Copy, Clone, Debug, PartialEq, Eq, Structural)]
pub enum ZoneVerdict {
    /// The zone would reach beyond the map limit.
    OutOfBounds,
    /// The zone would overlap one that is there already.
    Overlap,
    /// The zone was sampled and has too little walkable ground.
    Barren,
    /// The zone was sampled and taken.
    Accepted,
}

/// The number of samples along one axis that a drawn byte stands for: three
/// to five.
pub open spec fn spec_zone_extent(raw: u8) -> int {
    raw % 3 + 3
}

/// The number of samples along one axis that a drawn byte stands for.
pub fn zone_extent(raw: u8) -> (n: i32)
    ensures
        n == spec_zone_extent(raw),
        3 <= n <= 5,
{
    (raw % 3) as i32 + 3
}

/// Whether a zone with bottom-right corner `br` reaches beyond the map limit.
pub open spec fn spec_out_of_bounds(br: CPoint2) -> bool {
    br.x@ > MAP_LIMIT || br.y@ > MAP_LIMIT
}

/// Whether a zone with bottom-right corner `br` reaches beyond the map limit.
pub fn out_of_bounds(br: CPoint2) -> (r: bool)
    ensures
        r == spec_out_of_bounds(br),
{
    br.x.rank() > MAP_LIMIT || br.y.rank() > MAP_LIMIT
}

/// Whether one of `zones` overlaps the rectangle `rect`.
pub open spec fn spec_overlaps_any(zones: Seq<Zone>, rect: (CPoint2, CPoint2)) -> bool {
    exists|i: int| 0 <= i < zones.len() && (#[trigger] zones[i]).spec_overlaps_with(rect)
}

/// Whether one of `zones` overlaps the rectangle `rect`.
pub fn overlaps_any(zones: &Vec<Zone>, rect: (CPoint2, CPoint2)) -> (r: bool)
    ensures
        r == spec_overlaps_any(zones@, rect),
{
    let mut i: usize = 0;
    while i < zones.len()
        invariant
            0 <= i <= zones.len(),
            forall|k: int| 0 <= k < i ==> !(#[trigger] zones@[k]).spec_overlaps_with(rect),
        decreases zones.len() - i,
    {
        if zones[i].overlaps_with(rect) {
            return true;
        }
        i = i + 1;
    }
    false
}

/// No two of `zones` overlap.
pub open spec fn spec_zones_apart(zones: Seq<Zone>) -> bool {
    forall|i: int, j: int|
        0 <= i < j < zones.len() ==> !(#[trigger] zones[i]).spec_overlaps_with(
            (#[trigger] zones[j]).spec_rect(),
        )
}

/// How the proposal of a zone with corners `tl` and `br` ends before any
/// sample is taken: out of bounds if it reaches beyond the map limit, else
/// an overlap if one of `zones` overlaps it, else not yet.
pub open spec fn spec_early_verdict(zones: Seq<Zone>, tl: CPoint2, br: CPoint2) -> Option<
    ZoneVerdict,
> {
    if spec_out_of_bounds(br) {
        Some(ZoneVerdict::OutOfBounds)
    } else if spec_overlaps_any(zones, (tl, br)) {
        Some(ZoneVerdict::Overlap)
    } else {
        None
    }
}

/// How the proposal of a zone with corners `tl` and `br` ends before any
/// sample is taken, if it ends there.
pub fn early_verdict(zones: &Vec<Zone>, tl: CPoint2, br: CPoint2) -> (verdict: Option<ZoneVerdict>)
    ensures
        verdict == spec_early_verdict(zones@, tl, br),
{
    if out_of_bounds(br) {
        Some(ZoneVerdict::OutOfBounds)
    } else if overlaps_any(zones, (tl, br)) {
        Some(ZoneVerdict::Overlap)
    } else {
        None
    }
}

/// Number of walkable samples among `samples`.
pub open spec fn spec_walkable_count(samples: Seq<ZoneSample>) -> nat
    decreases samples.len(),
{
    if samples.len() == 0 {
        0
    } else {
        spec_walkable_count(samples.drop_last()) + if samples.last().mat.spec_is_walkable() {
            1nat
        } else {
            0nat
        }
    }
}

/// Number of walkable samples in a grid.
pub fn count_walkable(samples: &TotalGrid<ZoneSample>) -> (n: usize)
    requires
        samples.wf(),
    ensures
        n == spec_walkable_count(samples@),
{
    let mut n: usize = 0;
    let mut walk = samples.iter();
    let ghost all = samples@;
    let mut passed: usize = 0;
    proof {
        samples.lemma_shape();
    }
    loop
        invariant
            all.len() <= usize::MAX,
            walk.wf(),
            walk.spec_grid() == *samples,
            all == samples@,
            walk.spec_position() == passed,
            passed <= all.len(),
            n == spec_walkable_count(all.take(passed as int)),
            n <= passed,
        ensures
            n == spec_walkable_count(all),
        decreases all.len() - passed,
    {
        match walk.next() {
            Some((_, sample)) => {
                proof {
                    assert(all.take(passed + 1).drop_last() =~= all.take(passed as int));
                }
                if sample.mat.is_walkable() {
                    n = n + 1;
                }
                passed = passed + 1;
            },
            None => {
                proof {
                    assert(all.take(passed as int) =~= all);
                }
                break ;
            },
        }
    }
    n
}

/// How the proposal of a sampled zone ends: it is accepted with
/// [`MIN_WALKABLE`] walkable samples or more, and barren with fewer.
pub open spec fn spec_sampled_verdict(samples: Seq<ZoneSample>) -> ZoneVerdict {
    if spec_walkable_count(samples) >= MIN_WALKABLE {
        ZoneVerdict::Accepted
    } else {
        ZoneVerdict::Barren
    }
}

/// How the proposal of a sampled zone ends.
pub fn sampled_verdict(samples: &TotalGrid<ZoneSample>) -> (verdict: ZoneVerdict)
    requires
        samples.wf(),
    ensures
        verdict == spec_sampled_verdict(samples@),
{
    if count_walkable(samples) >= MIN_WALKABLE {
        ZoneVerdict::Accepted
    } else {
        ZoneVerdict::Barren
    }
}

/// What a crowded map adds to the charge for a sampled proposal: 2 from
/// three zones on, 4 more from five on, 10 more from seven on.
pub open spec fn spec_crowding_penalty(count: int) -> int {
    (if count >= 3 {
        2int
    } else {
        0int
    }) + (if count >= 5 {
        4int
    } else {
        0int
    }) + (if count >= 7 {
        10int
    } else {
        0int
    })
}

/// What a proposal takes from the budget, given its verdict and the number
/// of zones after it: 1 out of bounds, 7 for an overlap; once sampled, 2 if
/// barren and one more than the number of zones if accepted, plus the
/// crowding penalty.
pub open spec fn spec_charge(verdict: ZoneVerdict, count: int) -> int {
    match verdict {
        ZoneVerdict::OutOfBounds => 1,
        ZoneVerdict::Overlap => 7,
        ZoneVerdict::Barren => 2 + spec_crowding_penalty(count),
        ZoneVerdict::Accepted => count + 1 + spec_crowding_penalty(count),
    }
}

/// What a proposal takes from the budget, given its verdict and the number
/// of zones after it.
pub fn charge(verdict: ZoneVerdict, count: usize) -> (c: i16)
    requires
        count + 17 <= i16::MAX,
    ensures
        c == spec_charge(verdict, count as int),
        1 <= c <= count + 17,
{
    let mut crowding: i16 = 0;
    if count >= 3 {
        crowding = crowding + 2;
    }
    if count >= 5 {
        crowding = crowding + 4;
    }
    if count >= 7 {
        crowding = crowding + 10;
    }
    match verdict {
        ZoneVerdict::OutOfBounds => 1,
        ZoneVerdict::Overlap => 7,
        ZoneVerdict::Barren => 2 + crowding,
        ZoneVerdict::Accepted => count as i16 + 1 + crowding,
    }
}

/// The least that `count` zones have taken from the budget: the charges for
/// accepting them one after the other.
pub open spec fn spec_spent(count: nat) -> int
    decreases count,
{
    if count == 0 {
        0
    } else {
        spec_spent((count - 1) as nat) + spec_charge(ZoneVerdict::Accepted, count as int)
    }
}

/// From six zones on, twice what they have taken is the square of their
/// number, plus 35 times their number, less 160.
pub proof fn lemma_spent_closed_form(count: nat)
    requires
        count >= 6,
    ensures
        2 * spec_spent(count) == count * count + 35 * count - 160,
    decreases count,
{
    if count == 6 {
        lemma_spent_step(1);
        lemma_spent_step(2);
        lemma_spent_step(3);
        lemma_spent_step(4);
        lemma_spent_step(5);
        lemma_spent_step(6);
        assert(spec_spent(0) == 0) by {
            reveal_with_fuel(spec_spent, 1);
        }
        assert(spec_spent(1) == 2);
        assert(spec_spent(2) == 5);
        assert(spec_spent(3) == 11);
        assert(spec_spent(4) == 18);
        assert(spec_spent(5) == 30);
        assert(spec_spent(6) == 43);
    } else {
        let fewer = (count - 1) as nat;
        lemma_spent_closed_form(fewer);
        lemma_spent_step(count);
        assert(spec_crowding_penalty(count as int) == 16);
        assert(spec_spent(count) == spec_spent(fewer) + count + 17);
        assert(count * count + 35 * count - 160 == fewer * fewer + 35 * fewer - 160 + 2 * (count
            + 17)) by (nonlinear_arith)
            requires
                fewer == count - 1,
        ;
    }
}

/// One more zone takes the charge for accepting it.
pub proof fn lemma_spent_step(count: nat)
    requires
        count >= 1,
    ensures
        spec_spent(count) == spec_spent((count - 1) as nat) + count + 1 + spec_crowding_penalty(
            count as int,
        ),
{
    reveal_with_fuel(spec_spent, 2);
}

/// The budget does not pay for a twenty-second zone: whatever number of
/// zones has taken less than the whole budget is at most 20.
pub proof fn lemma_budget_caps_zones(count: nat)
    requires
        spec_spent(count) < ZONE_BUDGET,
    ensures
        count <= 20,
{
    if count >= 21 {
        lemma_spent_closed_form(count);
        assert(count * count + 35 * count - 160 >= 1016) by (nonlinear_arith)
            requires
                count >= 21,
        ;
    }
}

/// The sample that a survey makes under a climate.
pub open spec fn spec_sample_of(w: Climate, found: Survey) -> ZoneSample {
    ZoneSample { pt: found.pt, data: found.data, mat: w.spec_material_at(found.data, found.cues) }
}

/// The sample that a survey makes under a climate.
pub fn sample_of(w: &Climate, found: &Survey) -> (sample: ZoneSample)
    ensures
        sample == spec_sample_of(*w, *found),
{
    ZoneSample { pt: found.pt, data: found.data, mat: w.material_at(&found.data, &found.cues) }
}

/// Whether `sample` is what some answer of `survey` for cell `cell` of a
/// zone at `tl` makes under climate `w`.
pub open spec fn spec_surveyed<S: Fn(CPoint2, DPoint2) -> Survey>(
    survey: &S,
    w: Climate,
    tl: CPoint2,
    cell: DPoint2,
    sample: ZoneSample,
) -> bool {
    exists|found: Survey| #[trigger]
        survey.ensures((tl, cell), found) && sample == spec_sample_of(w, found)
}

/// Whether every sample of `grid` is what `survey` answered for its cell.
pub open spec fn spec_grid_surveyed<S: Fn(CPoint2, DPoint2) -> Survey>(
    survey: &S,
    w: Climate,
    tl: CPoint2,
    grid: TotalGrid<ZoneSample>,
) -> bool {
    forall|x: int, y: int| #[trigger]
        grid.spec_has_cell(x, y) ==> spec_surveyed(
            survey,
            w,
            tl,
            DPoint2 { x: x as i32, y: y as i32 },
            grid.spec_get(x, y),
        )
}

/// Samples a zone: asks `survey` for every cell of a grid of the given
/// dimensions, row by row, and keeps what each answer makes under `w`.
pub fn sample_zone<S: Fn(CPoint2, DPoint2) -> Survey>(
    w: &Climate,
    tl: CPoint2,
    dimensions: DPoint2,
    survey: &S,
) -> (grid: TotalGrid<ZoneSample>)
    requires
        0 <= dimensions.x,
        0 <= dimensions.y,
        forall|cell: DPoint2|
            0 <= cell.x < dimensions.x && 0 <= cell.y < dimensions.y ==> survey.requires(
                (tl, cell),
            ),
    ensures
        grid.wf(),
        grid.spec_width() == dimensions.x,
        grid.spec_height() == dimensions.y,
        spec_grid_surveyed(survey, *w, tl, grid),
{
    let mut samples: TotalGridBuilder<ZoneSample> = TotalGridBuilder::new();
    let width = dimensions.x;
    let height = dimensions.y;
    let mut y: i32 = 0;
    while y < height
        invariant
            0 <= y <= height,
            0 <= width,
            samples@.len() == y * width,
            width == dimensions.x,
            height == dimensions.y,
            forall|cell: DPoint2|
                0 <= cell.x < dimensions.x && 0 <= cell.y < dimensions.y ==> survey.requires(
                    (tl, cell),
                ),
            forall|i: int, j: int|
                0 <= i < width && 0 <= j < y ==> spec_surveyed(
                    survey,
                    *w,
                    tl,
                    DPoint2 { x: i as i32, y: j as i32 },
                    #[trigger] samples@[j * width + i],
                ),
        decreases height - y,
    {
        let mut x: i32 = 0;
        while x < width
            invariant
                0 <= y < height,
                0 <= x <= width,
                samples@.len() == y * width + x,
                width == dimensions.x,
                height == dimensions.y,
                forall|cell: DPoint2|
                    0 <= cell.x < dimensions.x && 0 <= cell.y < dimensions.y ==> survey.requires(
                        (tl, cell),
                    ),
                forall|i: int, j: int|
                    0 <= i < width && 0 <= j < y ==> spec_surveyed(
                        survey,
                        *w,
                        tl,
                        DPoint2 { x: i as i32, y: j as i32 },
                        #[trigger] samples@[j * width + i],
                    ),
                forall|i: int|
                    0 <= i < x ==> spec_surveyed(
                        survey,
                        *w,
                        tl,
                        DPoint2 { x: i as i32, y: y },
                        #[trigger] samples@[y * width + i],
                    ),
            decreases width - x,
        {
            let ghost before = samples@;
            let cell = DPoint2::new(x, y);
            let found = survey(tl, cell);
            let sample = sample_of(w, &found);
            samples.append(sample);
            proof {
                assert forall|i: int, j: int| 0 <= i < width && 0 <= j < y implies spec_surveyed(
                    survey,
                    *w,
                    tl,
                    DPoint2 { x: i as i32, y: j as i32 },
                    #[trigger] samples@[j * width + i],
                ) by {
                    lemma_index_in_range(i, j, width as int, y as int);
                    assert(samples@[j * width + i] == before[j * width + i]);
                }
                assert forall|i: int| 0 <= i < x + 1 implies spec_surveyed(
                    survey,
                    *w,
                    tl,
                    DPoint2 { x: i as i32, y: y },
                    #[trigger] samples@[y * width + i],
                ) by {
                    assert(0 <= y * width) by (nonlinear_arith)
                        requires
                            0 <= y,
                            0 <= width,
                    ;
                    if i < x {
                        assert(samples@[y * width + i] == before[y * width + i]);
                    } else {
                        assert(samples@[y * width + i] == sample);
                        assert(survey.ensures((tl, cell), found));
                    }
                }
            }
            x = x + 1;
        }
        proof {
            assert((y + 1) * width == y * width + width) by (nonlinear_arith);
        }
        y = y + 1;
    }
    let ghost collected = samples@;
    let grid = samples.finalize(dimensions).unwrap();
    proof {
        assert forall|x: int, y: int| #[trigger] grid.spec_has_cell(x, y) implies spec_surveyed(
            survey,
            *w,
            tl,
            DPoint2 { x: x as i32, y: y as i32 },
            grid.spec_get(x, y),
        ) by {
            assert(grid.spec_get(x, y) == collected[y * width + x]);
        }
    }
    grid
}

/// Whether a zone is as the search leaves its zones: well formed, with
/// three to five samples along each axis, of which enough are walkable,
/// and within the map limit.
pub open spec fn spec_zone_settled(zone: Zone) -> bool {
    &&& zone.wf()
    &&& 3 <= zone.spec_samples().spec_width() <= 5
    &&& 3 <= zone.spec_samples().spec_height() <= 5
    &&& !spec_out_of_bounds(zone.spec_br())
    &&& spec_walkable_count(zone.spec_samples()@) >= MIN_WALKABLE
}

/// Whether `tl` is a corner that `corner` answered, whatever the state of
/// the generator was.
pub open spec fn spec_corner_answered<C: Fn(&mut Isaac64Rng) -> CPoint2>(
    corner: &C,
    tl: CPoint2,
) -> bool {
    exists|g: &mut Isaac64Rng| #[trigger] corner.ensures((g,), tl)
}

/// Whether a zone is what the three functions answered: its top-left corner
/// is an answer of `corner`, and the rest is what `frame` and `survey`
/// answered for that corner and the dimensions of its grid.
pub open spec fn spec_zone_surveyed<
    C: Fn(&mut Isaac64Rng) -> CPoint2,
    F: Fn(CPoint2, DPoint2) -> ZoneFrame,
    S: Fn(CPoint2, DPoint2) -> Survey,
>(
    zone: Zone,
    w: Climate,
    corner: &C,
    frame: &F,
    survey: &S,
) -> bool {
    &&& spec_corner_answered(corner, zone.spec_tl())
    &&& frame.ensures(
        (
            zone.spec_tl(),
            DPoint2 {
                x: zone.spec_samples().spec_width() as i32,
                y: zone.spec_samples().spec_height() as i32,
            },
        ),
        ZoneFrame {
            br: zone.spec_br(),
            core_tl: zone.spec_core_tl(),
            core_br: zone.spec_core_br(),
        },
    )
    &&& spec_grid_surveyed(survey, w, zone.spec_tl(), zone.spec_samples())
}

/// Whether `frame` takes what the search hands it: any corner that `corner`
/// answered, with dimensions of three to five samples along each axis.
pub open spec fn spec_frame_takes<C: Fn(&mut Isaac64Rng) -> CPoint2, F: Fn(
    CPoint2,
    DPoint2,
) -> ZoneFrame>(corner: &C, frame: &F) -> bool {
    forall|tl: CPoint2, dimensions: DPoint2|
        spec_corner_answered(corner, tl) && 3 <= dimensions.x <= 5 && 3 <= dimensions.y <= 5
            ==> #[trigger] frame.requires((tl, dimensions))
}

/// Whether `survey` takes what the search hands it: any corner that `corner`
/// answered, with a cell of a grid of at most five samples along each axis.
pub open spec fn spec_survey_takes<C: Fn(&mut Isaac64Rng) -> CPoint2, S: Fn(
    CPoint2,
    DPoint2,
) -> Survey>(corner: &C, survey: &S) -> bool {
    forall|tl: CPoint2, cell: DPoint2|
        spec_corner_answered(corner, tl) && 0 <= cell.x < 5 && 0 <= cell.y < 5
            ==> #[trigger] survey.requires((tl, cell))
}

/// One round of the search as it went: the corner and the two bytes that
/// were drawn, what `frame` answered, and the samples, where the round got
/// as far as taking them.
pub struct ZoneRound {
    pub tl: CPoint2,
    pub across: u8,
    pub down: u8,
    pub rest: ZoneFrame,
    pub samples: Option<TotalGrid<ZoneSample>>,
}

impl ZoneRound {
    /// The dimensions of the grid that the two bytes stand for.
    pub open spec fn spec_dimensions(self) -> DPoint2 {
        DPoint2 {
            x: spec_zone_extent(self.across) as i32,
            y: spec_zone_extent(self.down) as i32,
        }
    }

    /// How the round ends, given the zones found before it: with its early
    /// verdict if it has one, else with the verdict on its samples.
    pub open spec fn spec_verdict(self, zones: Seq<Zone>) -> ZoneVerdict {
        match spec_early_verdict(zones, self.tl, self.rest.br) {
            Some(verdict) => verdict,
            None => spec_sampled_verdict(self.samples->0@),
        }
    }

    /// The zones after the round, given the zones found before it: one
    /// more, made of what the round holds, if the round is accepted.
    pub open spec fn spec_zones_after(self, zones: Seq<Zone>) -> Seq<Zone> {
        if self.spec_verdict(zones) == ZoneVerdict::Accepted {
            zones.push(
                Zone::spec_new(
                    self.tl,
                    self.rest.br,
                    self.rest.core_tl,
                    self.rest.core_br,
                    self.samples->0,
                ),
            )
        } else {
            zones
        }
    }

    /// Whether the round holds what the three functions answered, given the
    /// zones found before it: a corner that `corner` answered, the frame for
    /// that corner and the dimensions, and samples, surveyed cell by cell,
    /// exactly if it has no early verdict.
    pub open spec fn spec_answered<
        C: Fn(&mut Isaac64Rng) -> CPoint2,
        F: Fn(CPoint2, DPoint2) -> ZoneFrame,
        S: Fn(CPoint2, DPoint2) -> Survey,
    >(
        self,
        zones: Seq<Zone>,
        w: Climate,
        corner: &C,
        frame: &F,
        survey: &S,
    ) -> bool {
        &&& spec_corner_answered(corner, self.tl)
        &&& frame.ensures((self.tl, self.spec_dimensions()), self.rest)
        &&& spec_early_verdict(zones, self.tl, self.rest.br) is Some ==> self.samples is None
        &&& spec_early_verdict(zones, self.tl, self.rest.br) is None ==> {
            &&& self.samples matches Some(grid)
            &&& grid.wf()
            &&& grid.spec_width() == self.spec_dimensions().x
            &&& grid.spec_height() == self.spec_dimensions().y
            &&& spec_grid_surveyed(survey, w, self.tl, grid)
        }
    }
}

/// The zones and the budget after the given rounds: the search starts with
/// no zone and the whole budget, and every round adds its zone, if it is
/// accepted, and takes its charge.
#[verifier::opaque]
pub open spec fn spec_search(rounds: Seq<ZoneRound>) -> (Seq<Zone>, int)
    decreases rounds.len(),
{
    if rounds.len() == 0 {
        (Seq::empty(), ZONE_BUDGET as int)
    } else {
        let (zones, budget) = spec_search(rounds.drop_last());
        let after = rounds.last().spec_zones_after(zones);
        (after, budget - spec_charge(rounds.last().spec_verdict(zones), after.len() as int))
    }
}

/// Whether `rounds` is a whole search: every round began with budget left
/// and holds what `corner`, `frame` and `survey` answered, and the last
/// round used the budget up.
pub open spec fn spec_searched<
    C: Fn(&mut Isaac64Rng) -> CPoint2,
    F: Fn(CPoint2, DPoint2) -> ZoneFrame,
    S: Fn(CPoint2, DPoint2) -> Survey,
>(
    rounds: Seq<ZoneRound>,
    w: Climate,
    corner: &C,
    frame: &F,
    survey: &S,
) -> bool {
    &&& spec_rounds_ran(rounds, w, corner, frame, survey)
    &&& spec_search(rounds).1 <= 0
}

/// Whether every one of `rounds` began with budget left and holds what
/// `corner`, `frame` and `survey` answered.
pub open spec fn spec_rounds_ran<
    C: Fn(&mut Isaac64Rng) -> CPoint2,
    F: Fn(CPoint2, DPoint2) -> ZoneFrame,
    S: Fn(CPoint2, DPoint2) -> Survey,
>(
    rounds: Seq<ZoneRound>,
    w: Climate,
    corner: &C,
    frame: &F,
    survey: &S,
) -> bool {
    forall|k: int|
        0 <= k < rounds.len() ==> #[trigger] spec_round_ran(rounds, k, w, corner, frame, survey)
}

/// Whether the round with index `k` began with budget left and holds what
/// `corner`, `frame` and `survey` answered, given the rounds before it.
pub open spec fn spec_round_ran<
    C: Fn(&mut Isaac64Rng) -> CPoint2,
    F: Fn(CPoint2, DPoint2) -> ZoneFrame,
    S: Fn(CPoint2, DPoint2) -> Survey,
>(
    rounds: Seq<ZoneRound>,
    k: int,
    w: Climate,
    corner: &C,
    frame: &F,
    survey: &S,
) -> bool {
    let before = spec_search(rounds.take(k));
    &&& before.1 > 0
    &&& rounds[k].spec_answered(before.0, w, corner, frame, survey)
}

/// Before any round the search has no zone and the whole budget.
pub proof fn lemma_search_starts()
    ensures
        spec_search(Seq::empty()) == (Seq::<Zone>::empty(), ZONE_BUDGET as int),
{
    reveal(spec_search);
}

/// What one more round makes of a search: it adds its zone, if it is
/// accepted, and takes its charge.
pub proof fn lemma_search_step(rounds: Seq<ZoneRound>, round: ZoneRound)
    ensures
        spec_search(rounds.push(round)) == ({
            let before = spec_search(rounds);
            let after = round.spec_zones_after(before.0);
            (after, before.1 - spec_charge(round.spec_verdict(before.0), after.len() as int))
        }),
{
    reveal(spec_search);
    assert(rounds.push(round).drop_last() =~= rounds);
}

/// Rounds that have run go on by one round, if there is budget left and the
/// round holds what was answered.
proof fn lemma_rounds_run_on<
    C: Fn(&mut Isaac64Rng) -> CPoint2,
    F: Fn(CPoint2, DPoint2) -> ZoneFrame,
    S: Fn(CPoint2, DPoint2) -> Survey,
>(
    rounds: Seq<ZoneRound>,
    round: ZoneRound,
    w: Climate,
    corner: &C,
    frame: &F,
    survey: &S,
)
    requires
        spec_rounds_ran(rounds, w, corner, frame, survey),
        spec_search(rounds).1 > 0,
        round.spec_answered(spec_search(rounds).0, w, corner, frame, survey),
    ensures
        spec_rounds_ran(rounds.push(round), w, corner, frame, survey),
{
    let more = rounds.push(round);
    assert forall|k: int| 0 <= k < more.len() implies #[trigger] spec_round_ran(
        more,
        k,
        w,
        corner,
        frame,
        survey,
    ) by {
        if k < rounds.len() {
            assert(more.take(k) =~= rounds.take(k));
            assert(more[k] == rounds[k]);
            assert(spec_round_ran(rounds, k, w, corner, frame, survey));
        } else {
            assert(more.take(k) =~= rounds);
            assert(more[k] == round);
        }
    }
}

/// Scatters zones over the map until the budget is used up.
///
/// Each round draws a top-left corner with `corner`, then two bytes for the
/// dimensions of the grid, and asks `frame` for the rest of the rectangle.
/// A zone that would reach beyond the map limit, or overlap a zone found
/// before, is dropped; any other is sampled with `survey` and taken if it
/// has enough walkable samples. Every round takes its charge from the
/// budget.
///
/// `frame` and `survey` need only take what the search hands them: a corner
/// that `corner` answered, with dimensions or a cell of a grid of three to
/// five samples along each axis.
///
/// Whatever the generator and the three answers give, the result is what a
/// whole search leaves, as [`spec_searched`] and [`spec_search`] say: there
/// are rounds, each begun with budget left and holding a corner that
/// `corner` answered and what `frame` and `survey` answered for it, the
/// last of which used the budget up, and the zones are those that these
/// rounds accepted, in their order. So no two zones of the result overlap,
/// each is settled and is what the three functions answered for it, and
/// there are at most [`MAX_ZONES`] of them.
pub fn generate_zones_for<C, F, S>(
    w: &Climate,
    rng: &mut Isaac64Rng,
    corner: &C,
    frame: &F,
    survey: &S,
) -> (zones: Vec<Zone>) where
    C: Fn(&mut Isaac64Rng) -> CPoint2,
    F: Fn(CPoint2, DPoint2) -> ZoneFrame,
    S: Fn(CPoint2, DPoint2) -> Survey,

    requires
        forall|g: &mut Isaac64Rng| corner.requires((g,)),
        spec_frame_takes(corner, frame),
        spec_survey_takes(corner, survey),
    ensures
        exists|rounds: Seq<ZoneRound>|
            {
                &&& #[trigger] spec_searched(rounds, *w, corner, frame, survey)
                &&& spec_search(rounds).0 == zones@
            },
        spec_zones_apart(zones@),
        forall|i: int| 0 <= i < zones@.len() ==> spec_zone_settled(#[trigger] zones@[i]),
        forall|i: int|
            0 <= i < zones@.len() ==> spec_zone_surveyed(#[trigger] zones@[i], *w, corner, frame, survey),
        zones@.len() <= MAX_ZONES,
{
    let mut stop_when_zero: i16 = ZONE_BUDGET;
    let mut zones: Vec<Zone> = Vec::new();
    let ghost mut rounds: Seq<ZoneRound> = Seq::empty();
    proof {
        lemma_search_starts();
    }
    while stop_when_zero > 0
        invariant
            spec_rounds_ran(rounds, *w, corner, frame, survey),
            spec_search(rounds) == (zones@, stop_when_zero as int),
            forall|g: &mut Isaac64Rng| corner.requires((g,)),
            spec_frame_takes(corner, frame),
            spec_survey_takes(corner, survey),
            stop_when_zero + spec_spent(zones@.len()) <= ZONE_BUDGET,
            zones@.len() <= MAX_ZONES,
            spec_zones_apart(zones@),
            forall|i: int| 0 <= i < zones@.len() ==> spec_zone_settled(#[trigger] zones@[i]),
            forall|i: int|
                0 <= i < zones@.len() ==> spec_zone_surveyed(
                    #[trigger] zones@[i],
                    *w,
                    corner,
                    frame,
                    survey,
                ),
        decreases
                if stop_when_zero > 0 {
                    stop_when_zero as int
                } else {
                    0
                },
    {
        proof {
            lemma_budget_caps_zones(zones@.len());
        }
        let tl = corner(rng);
        proof {
            assert(spec_corner_answered(corner, tl));
        }
        let across = draw_byte(rng);
        let down = draw_byte(rng);
        let zone_sample_dim = DPoint2::new(zone_extent(across), zone_extent(down));
        let rest = frame(tl, zone_sample_dim);
        match early_verdict(&zones, tl, rest.br) {
            Some(verdict) => {
                proof {
                    let round = ZoneRound { tl, across, down, rest, samples: None };
                    lemma_rounds_run_on(rounds, round, *w, corner, frame, survey);
                    lemma_search_step(rounds, round);
                    rounds = rounds.push(round);
                }
                stop_when_zero = stop_when_zero - charge(verdict, zones.len());
            },
            None => {
                let samples = sample_zone(w, tl, zone_sample_dim, survey);
                let verdict = sampled_verdict(&samples);
                proof {
                    let round = ZoneRound { tl, across, down, rest, samples: Some(samples) };
                    lemma_rounds_run_on(rounds, round, *w, corner, frame, survey);
                    lemma_search_step(rounds, round);
                    rounds = rounds.push(round);
                }
                if verdict == ZoneVerdict::Accepted {
                    let ghost before = zones@;
                    let zone = Zone::new(tl, rest.br, rest.core_tl, rest.core_br, samples);
                    zones.push(zone);
                    proof {
                        assert forall|i: int, j: int| 0 <= i < j < zones@.len() implies !(
                        #[trigger] zones@[i]).spec_overlaps_with(
                            (#[trigger] zones@[j]).spec_rect(),
                        ) by {
                            if j < before.len() {
                                assert(zones@[i] == before[i]);
                                assert(zones@[j] == before[j]);
                            } else {
                                assert(zones@[i] == before[i]);
                            }
                        }
                    }
                }
                stop_when_zero = stop_when_zero - charge(verdict, zones.len());
            },
        }
    }
    proof {
        assert(spec_searched(rounds, *w, corner, frame, survey));
    }
    zones
}

} // verus!
