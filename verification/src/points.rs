use vstd::prelude::*;
use crate::scalar::Scalar;

verus! {

/// A continuous point of the plane.
#[derive(Copy, Clone, Debug, PartialEq, Eq, Hash, Structural)]
pub struct CPoint2 {
    pub x: Scalar,
    pub y: Scalar,
}

impl CPoint2 {
    /// The point with the given coordinates.
    pub fn new(x: Scalar, y: Scalar) -> (p: CPoint2)
        ensures
            p.x == x,
            p.y == y,
    {
        CPoint2 { x, y }
    }
}

/// A continuous point of space.
#[derive(Copy, Clone, Debug, PartialEq, Eq, Hash, Structural)]
pub struct CPoint3 {
    pub x: Scalar,
    pub y: Scalar,
    pub z: Scalar,
}

impl CPoint3 {
    /// The point with the given coordinates.
    pub fn new(x: Scalar, y: Scalar, z: Scalar) -> (p: CPoint3)
        ensures
            p.x == x,
            p.y == y,
            p.z == z,
    {
        CPoint3 { x, y, z }
    }
}

/// A discrete point of the plane: a cell of a grid.
#[derive(Copy, Clone, Debug, PartialEq, Eq, Hash, Structural)]
pub struct DPoint2 {
    pub x: i32,
    pub y: i32,
}

impl DPoint2 {
    /// The origin.
    pub fn null() -> (p: DPoint2)
        ensures
            p.x == 0,
            p.y == 0,
    {
        DPoint2 { x: 0, y: 0 }
    }

    /// The point with the given coordinates.
    pub fn new(x: i32, y: i32) -> (p: DPoint2)
        ensures
            p.x == x,
            p.y == y,
    {
        DPoint2 { x, y }
    }

    /// This point moved by `shift` along x.
    pub fn shift_x(self, shift: i32) -> (p: DPoint2)
        requires
            i32::MIN <= self.x + shift <= i32::MAX,
        ensures
            p.x == self.x + shift,
            p.y == self.y,
    {
        DPoint2 { x: self.x + shift, y: self.y }
    }

    /// This point moved by `shift` along y.
    pub fn shift_y(self, shift: i32) -> (p: DPoint2)
        requires
            i32::MIN <= self.y + shift <= i32::MAX,
        ensures
            p.x == self.x,
            p.y == self.y + shift,
    {
        DPoint2 { x: self.x, y: self.y + shift }
    }
}

} // verus!
