use vstd::prelude::*;

verus! {

/// A two-dimensional vector of signed integers.
#[derive(Copy, Clone, Debug, PartialEq, Eq, Structural)]
pub struct Vec2i {
    pub x: i64,
    pub y: i64,
}

impl Vec2i {
    pub fn new(x: i64, y: i64) -> (r: Self)
        ensures
            r.x == x,
            r.y == y,
    {
        Vec2i { x, y }
    }

    /// The squared length `x² + y²`.
    pub open spec fn magnitude_squared_spec(&self) -> int {
        self.x * self.x + self.y * self.y
    }

    pub fn get_magnitude_squared(&self) -> (r: i64)
        requires
            self.magnitude_squared_spec() <= i64::MAX,
        ensures
            r == self.magnitude_squared_spec(),
    {
        proof {
            assert(0 <= self.x * self.x) by (nonlinear_arith);
            assert(0 <= self.y * self.y) by (nonlinear_arith);
        }
        self.x * self.x + self.y * self.y
    }
}

} // verus!
