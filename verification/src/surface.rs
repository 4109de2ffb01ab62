use vstd::prelude::*;
use crate::scalar::Scalar;

verus! {

/// Rank of 0.5: the latitude halfway between the poles.
pub const EQUATOR: i32 = 0x3f00_0000;

/// Rank of 1.0: the latitude of the bottom pole; the top pole has 0.
pub const BOTTOM: i32 = 0x3f80_0000;

/// Rank of 0.994, which is 1 less the shift of 0.006 over which a slope is
/// measured: from this latitude on there is no room to measure forward.
pub const AZIMUTH_MULT: i32 = 0x3f7e_76c9;

/// One of the two poles of the map.
#[derive(Copy, Clone, Debug, PartialEq, Eq, Hash, Structural)]
pub enum Pole {
    /// The pole at latitude 0.
    Top,
    /// The pole at latitude 1.
    Bottom,
}

/// The pole that is nearer to latitude `y`: the top pole above the equator,
/// the bottom pole from the equator on, and none for a latitude that is not
/// on the map.
pub open spec fn spec_nearer_pole(y: Scalar) -> Option<Pole> {
    if y@ < 0 || y@ > BOTTOM {
        None
    } else if y@ < EQUATOR {
        Some(Pole::Top)
    } else {
        Some(Pole::Bottom)
    }
}

/// The pole that is nearer to latitude `y`, if `y` is on the map. The
/// distance to the top pole is the latitude itself, the distance to the
/// bottom pole is what the latitude lacks to 1.
pub fn nearer_pole(y: Scalar) -> (pole: Option<Pole>)
    ensures
        pole == spec_nearer_pole(y),
{
    if y.rank() < 0 || y.rank() > BOTTOM {
        None
    } else if y.rank() < EQUATOR {
        Some(Pole::Top)
    } else {
        Some(Pole::Bottom)
    }
}

/// A latitude has a nearer pole exactly if it is on the map, from 0 to 1;
/// and where the top pole is the nearer one, the latitude, which is the
/// distance to that pole, lies below one half.
pub proof fn lemma_nearer_pole(y: Scalar)
    ensures
        spec_nearer_pole(y) is Some <==> 0 <= y@ <= BOTTOM,
        spec_nearer_pole(y) == Some(Pole::Top) ==> 0 <= y@ < EQUATOR,
        spec_nearer_pole(y) == Some(Pole::Bottom) ==> EQUATOR <= y@ <= BOTTOM,
{
}

/// Whether the slope along y is measured backward at latitude `y`: from
/// [`AZIMUTH_MULT`] on.
pub open spec fn spec_slope_looks_back(y: Scalar) -> bool {
    y@ >= AZIMUTH_MULT
}

/// Whether the slope along y is measured backward at latitude `y`.
pub fn slope_looks_back(y: Scalar) -> (r: bool)
    ensures
        r == spec_slope_looks_back(y),
{
    y.rank() >= AZIMUTH_MULT
}

} // verus!
