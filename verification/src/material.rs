use vstd::prelude::*;

verus! {

/// What the surface of a world is made of at a point.
#[derive(Copy, Clone, Debug, PartialEq, Eq, Hash, Structural)]
pub enum Material {
    Rock,
    Trees,
    Grass,
    Water,
    Ice,
    Snow,
    DarkRock,
}

/// What darkens a pixel of terrain.
#[derive(Copy, Clone, Debug, PartialEq, Eq, Hash, Structural)]
pub enum Shading {
    /// The depth below the highest ground: for water and ice.
    ByDepth,
    /// The slope: for everything else.
    BySlope,
}

impl Material {
    /// Everything but open water is land; ice counts as land.
    pub open spec fn spec_is_land(self) -> bool {
        self != Material::Water
    }

    /// Land that a zone can count on: neither water nor ice.
    pub open spec fn spec_is_walkable(self) -> bool {
        self != Material::Water && self != Material::Ice
    }

    /// Whether a link may join this material to `other`: water joins water
    /// only, and anything else joins anything but water.
    pub open spec fn spec_allow_link_to(self, other: Material) -> bool {
        if self == Material::Water {
            other == Material::Water
        } else {
            other != Material::Water
        }
    }

    /// What darkens a pixel of this material: depth for water and ice,
    /// slope for everything else.
    pub open spec fn spec_shading(self) -> Shading {
        if self == Material::Water || self == Material::Ice {
            Shading::ByDepth
        } else {
            Shading::BySlope
        }
    }

    /// What darkens a pixel of this material.
    pub fn shading(self) -> (r: Shading)
        ensures
            r == self.spec_shading(),
    {
        if self == Material::Water || self == Material::Ice {
            Shading::ByDepth
        } else {
            Shading::BySlope
        }
    }

    /// Whether this material is land.
    pub fn is_land(self) -> (r: bool)
        ensures
            r == self.spec_is_land(),
    {
        self != Material::Water
    }

    /// Whether this material is neither water nor ice.
    pub fn is_walkable(self) -> (r: bool)
        ensures
            r == self.spec_is_walkable(),
    {
        match self {
            Material::Water | Material::Ice => false,
            _ => true,
        }
    }

    /// Whether a link may join this material to `other`.
    pub fn allow_link_to(self, other: Material) -> (r: bool)
        ensures
            r == self.spec_allow_link_to(other),
    {
        if self == Material::Water {
            other == Material::Water
        } else {
            other != Material::Water
        }
    }

    /// Two materials may be linked exactly if both are land or neither is,
    /// whichever of the two is asked.
    pub proof fn lemma_link_joins_like_with_like(a: Material, b: Material)
        ensures
            a.spec_allow_link_to(b) <==> a.spec_is_land() == b.spec_is_land(),
            a.spec_allow_link_to(b) <==> b.spec_allow_link_to(a),
    {
    }

    /// Walkable material is land, and it is the material that slope
    /// darkens.
    pub proof fn lemma_walkable_is_land(m: Material)
        ensures
            m.spec_is_walkable() ==> m.spec_is_land(),
            m.spec_is_walkable() <==> m.spec_shading() == Shading::BySlope,
    {
    }
}

} // verus!
