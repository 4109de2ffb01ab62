use vstd::prelude::*;
use crate::material::Material;
use crate::scalar::Scalar;

verus! {

/// Rank of 0.12: above this slope bare ground is dark rock.
pub const DARK_ROCK_SLOPE: i32 = 0x3df5_c28f;

/// Rank of 0.3: trees grow below this temperature only.
pub const TREE_TEMP: i32 = 0x3e99_999a;

/// Rank of 0.01: trees grow above this slope only.
pub const TREE_SLOPE: i32 = 0x3c23_d70a;

/// What was measured at one point of a world.
#[derive(Copy, Clone, Debug, PartialEq, Eq, Structural)]
pub struct PointSampleData {
    pub temp: Scalar,
    pub height: Scalar,
    pub x_slope: Scalar,
    pub y_slope: Scalar,
    pub slope: Scalar,
}

/// The two derived quantities that the choice of a material reads besides
/// the sample data of a point.
#[derive(Copy, Clone, Debug, PartialEq, Eq, Structural)]
pub struct MaterialCues {
    /// The temperature with the margin that keeps water from freezing.
    pub frost_temp: Scalar,
    /// How far the point is from the conditions that vegetation likes.
    pub veg_dist: Scalar,
}

/// A band of values, given by its two ends.
#[derive(Copy, Clone, Debug, PartialEq, Eq, Structural)]
pub struct Band {
    pub low: Scalar,
    pub high: Scalar,
}

/// The levels of a world against which a point is judged.
#[derive(Copy, Clone, Debug, PartialEq, Eq, Structural)]
pub struct Climate {
    /// Relative size of the world.
    pub size: Scalar,
    /// Heights below this level are under water.
    pub water_level: Scalar,
    /// Temperatures below this level keep snow.
    pub snow_below_temp: Scalar,
    /// Vegetation distance below which trees grow.
    pub trees_reach: Scalar,
    /// Vegetation distance below which grass grows.
    pub grass_reach: Scalar,
    /// Band kept for grass; no choice reads it.
    pub grass_within: Band,
    /// Band kept for trees; no choice reads it.
    pub trees_within: Band,
}

impl Climate {
    /// The material of a point. The cases are tried in this order: under
    /// water, ice where even the frost margin leaves the point below the snow
    /// level, else water; snow on cold land; dark rock on steep land; trees
    /// close to their conditions on cool, slightly sloped land; grass a
    /// little further from them; rock everywhere else.
    pub open spec fn spec_material_at(self, data: PointSampleData, cues: MaterialCues) -> Material {
        if data.height@ < self.water_level@ {
            if cues.frost_temp@ < self.snow_below_temp@ {
                Material::Ice
            } else {
                Material::Water
            }
        } else if data.temp@ < self.snow_below_temp@ {
            Material::Snow
        } else if data.slope@ > DARK_ROCK_SLOPE {
            Material::DarkRock
        } else if cues.veg_dist@ < self.trees_reach@ && data.temp@ < TREE_TEMP && data.slope@
            > TREE_SLOPE {
            Material::Trees
        } else if cues.veg_dist@ < self.grass_reach@ {
            Material::Grass
        } else {
            Material::Rock
        }
    }

    /// The material of a point with the given sample data and cues.
    pub fn material_at(&self, point_data: &PointSampleData, cues: &MaterialCues) -> (m: Material)
        ensures
            m == self.spec_material_at(*point_data, *cues),
    {
        if point_data.height.lt(&self.water_level) {
            if cues.frost_temp.lt(&self.snow_below_temp) {
                Material::Ice
            } else {
                Material::Water
            }
        } else if point_data.temp.lt(&self.snow_below_temp) {
            Material::Snow
        } else if point_data.slope.rank() > DARK_ROCK_SLOPE {
            Material::DarkRock
        } else if cues.veg_dist.lt(&self.trees_reach) && point_data.temp.rank() < TREE_TEMP
            && point_data.slope.rank() > TREE_SLOPE {
            Material::Trees
        } else if cues.veg_dist.lt(&self.grass_reach) {
            Material::Grass
        } else {
            Material::Rock
        }
    }

    /// Whether the rough height of a point shows fine detail: only above the
    /// water level.
    pub open spec fn spec_shows_detail(self, rough: Scalar) -> bool {
        rough@ > self.water_level@
    }

    /// Whether the rough height of a point shows fine detail.
    pub fn shows_detail(&self, rough: Scalar) -> (r: bool)
        ensures
            r == self.spec_shows_detail(rough),
    {
        rough.gt(&self.water_level)
    }

    /// A point is water or ice exactly if it lies under the water level, and
    /// so it is walkable exactly if it does not.
    pub proof fn lemma_walkable_above_water(self, data: PointSampleData, cues: MaterialCues)
        ensures
            self.spec_material_at(data, cues).spec_is_walkable() <==> data.height@
                >= self.water_level@,
            !self.spec_material_at(data, cues).spec_is_land() <==> data.height@
                < self.water_level@ && cues.frost_temp@ >= self.snow_below_temp@,
    {
    }
}

} // verus!
