use vstd::prelude::*;
use crate::grid::TotalGrid;
use crate::material::Material;
use crate::points::DPoint2;
use crate::zones::Zone;

verus! {

/// Side of the square of cells that one zone sample covers in a location.
pub const METERS_PER_ZONE_SAMPLE: i32 = 50;

/// What a location is made from: a seed and the zone that it details.
pub struct LocationPrimitive {
    pub seed: u64,
    pub zone_in_world: Zone,
}

impl LocationPrimitive {
    /// The primitive with the given seed and zone.
    pub fn new(seed: u64, zone_in_world: Zone) -> (lp: LocationPrimitive)
        ensures
            lp.seed == seed,
            lp.zone_in_world == zone_in_world,
    {
        LocationPrimitive { seed, zone_in_world }
    }
}

/// A zone in detail: a grid of materials.
pub struct Location {
    materials: TotalGrid<Material>,
}

impl Location {
    /// The grid of materials.
    pub closed spec fn spec_materials(&self) -> TotalGrid<Material> {
        self.materials
    }

    /// The grid of materials.
    pub fn materials(&self) -> (grid: &TotalGrid<Material>)
        ensures
            *grid == self.spec_materials(),
    {
        &self.materials
    }

    /// The location of a zone: [`METERS_PER_ZONE_SAMPLE`] cells along each
    /// axis for every sample of the zone, all of them water.
    pub fn generate(loc_prim: LocationPrimitive) -> (location: Location)
        requires
            loc_prim.zone_in_world.wf(),
            METERS_PER_ZONE_SAMPLE * loc_prim.zone_in_world.spec_samples().spec_width()
                <= i32::MAX,
            METERS_PER_ZONE_SAMPLE * loc_prim.zone_in_world.spec_samples().spec_height()
                <= i32::MAX,
        ensures
            location.spec_materials().wf(),
            location.spec_materials().spec_width() == METERS_PER_ZONE_SAMPLE
                * loc_prim.zone_in_world.spec_samples().spec_width(),
            location.spec_materials().spec_height() == METERS_PER_ZONE_SAMPLE
                * loc_prim.zone_in_world.spec_samples().spec_height(),
            forall|x: int, y: int| #[trigger]
                location.spec_materials().spec_has_cell(x, y)
                    ==> location.spec_materials().spec_get(x, y) == Material::Water,
    {
        assert(METERS_PER_ZONE_SAMPLE == 50);
        let x_cells = METERS_PER_ZONE_SAMPLE * loc_prim.zone_in_world.get_samples_per_row();
        let y_cells = METERS_PER_ZONE_SAMPLE * loc_prim.zone_in_world.get_samples_per_col();
        let which_mat = |x: usize, y: usize| -> (m: Material)
            ensures
                m == Material::Water,
            { Material::Water };
        Location { materials: TotalGrid::new_from_func(DPoint2::new(x_cells, y_cells), &which_mat) }
    }
}

} // verus!
