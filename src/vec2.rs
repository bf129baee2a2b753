use vstd::prelude::*;

verus! {

/// A point or a displacement in world units.
#[derive(Clone, Copy, Debug, PartialEq, Eq, Structural)]
pub struct Vec2 {
    pub x: i64,
    pub y: i64,
}

/// The value of `v` clamped to the range of `i64`.
pub open spec fn saturate(v: int) -> int {
    if v > i64::MAX {
        i64::MAX as int
    } else if v < i64::MIN {
        i64::MIN as int
    } else {
        v
    }
}

/// Clamps a wide intermediate value to the range of `i64`.
pub fn saturate_i128(v: i128) -> (r: i64)
    ensures
        r == saturate(v as int),
{
    if v > i64::MAX as i128 {
        i64::MAX
    } else if v < i64::MIN as i128 {
        i64::MIN
    } else {
        v as i64
    }
}

impl Vec2 {
    pub fn new(x: i64, y: i64) -> (r: Vec2)
        ensures
            r.x == x,
            r.y == y,
    {
        Vec2 { x, y }
    }

    pub fn zero() -> (r: Vec2)
        ensures
            r.x == 0,
            r.y == 0,
    {
        Vec2 { x: 0, y: 0 }
    }

    /// Both coordinates lie within `[-limit, limit]`.
    pub open spec fn within(self, limit: int) -> bool {
        -limit <= self.x <= limit && -limit <= self.y <= limit
    }
}

/// `a + b` per coordinate, clamped to the range of `i64`.
pub open spec fn add_sat(a: Vec2, b: Vec2) -> Vec2 {
    Vec2 { x: saturate(a.x + b.x) as i64, y: saturate(a.y + b.y) as i64 }
}

pub fn add_saturating(a: Vec2, b: Vec2) -> (r: Vec2)
    ensures
        r == add_sat(a, b),
{
    Vec2 {
        x: saturate_i128(a.x as i128 + b.x as i128),
        y: saturate_i128(a.y as i128 + b.y as i128),
    }
}

/// `a + b * k`, clamped to the range of `i64`.
pub fn mul_add_saturating(a: i64, b: i64, k: u32) -> (r: i64)
    ensures
        r == saturate(a + b * k),
{
    proof {
        assert(-0x8000_0000_0000_0000_0000_0000 <= (b as int) * (k as int) <= 0x8000_0000_0000_0000_0000_0000) by (nonlinear_arith)
            requires
                -0x8000_0000_0000_0000 <= b < 0x8000_0000_0000_0000,
                0 <= k < 0x1_0000_0000,
        ;
    }
    saturate_i128(a as i128 + (b as i128) * (k as i128))
}

} // verus!
