//! Two-dimensional vectors: an executable fixed-width form and its
//! mathematical image used by contracts.

use vstd::prelude::*;

verus! {

/// Mathematical image of a two-dimensional vector, with unbounded
/// components. All contracts speak of vectors in this form.
pub struct Vec2i {
    pub x: int,
    pub y: int,
}

impl Vec2i {
    pub open spec fn zero() -> Vec2i {
        Vec2i { x: 0, y: 0 }
    }

    pub open spec fn plus(self, o: Vec2i) -> Vec2i {
        Vec2i { x: self.x + o.x, y: self.y + o.y }
    }
}

/// Squared Euclidean length.
pub open spec fn len2(v: Vec2i) -> int {
    v.x * v.x + v.y * v.y
}

/// Executable two-dimensional vector in integer world units.
#[derive(Clone, Copy, PartialEq, Eq, Structural, Debug)]
pub struct Vec2 {
    pub x: i64,
    pub y: i64,
}

impl View for Vec2 {
    type V = Vec2i;

    open spec fn view(&self) -> Vec2i {
        Vec2i { x: self.x as int, y: self.y as int }
    }
}

impl Vec2 {
    pub fn new(x: i64, y: i64) -> (v: Vec2)
        ensures
            v.x == x,
            v.y == y,
    {
        Vec2 { x, y }
    }

    pub fn zero() -> (v: Vec2)
        ensures
            v@ == Vec2i::zero(),
    {
        Vec2 { x: 0, y: 0 }
    }
}

} // verus!
