use vstd::prelude::*;

verus! {

/// Fixed-point scale of normalized device coordinates: `NDC_ONE` stands for 1.0,
/// so an NDC value `v` is held as the integer `v * NDC_ONE`.
pub const NDC_ONE: i64 = 4294967296;

/// A point in 3D space. `x` and `y` are normalized device coordinates in
/// fixed point (see `NDC_ONE`); `z` is kept as a future depth-sort key and is
/// not read by rasterization.
#[derive(Clone, Copy, Debug, PartialEq, Eq, Structural)]
pub struct Point {
    pub x: i64,
    pub y: i64,
    pub z: i64,
}

impl Point {
    pub fn new(x: i64, y: i64, z: i64) -> (r: Point)
        ensures
            r.x == x,
            r.y == y,
            r.z == z,
    {
        Point { x, y, z }
    }
}

/// Three points in no particular winding order.
#[derive(Clone, Copy, Debug)]
pub struct Triangle {
    pub points: [Point; 3],
}

impl Triangle {
    pub fn new(p1: Point, p2: Point, p3: Point) -> (r: Triangle)
        ensures
            r.points@ == seq![p1, p2, p3],
    {
        let r = Triangle { points: [p1, p2, p3] };
        assert(r.points@ =~= seq![p1, p2, p3]);
        r
    }
}

/// Height of the centroid above the base of an equilateral triangle with
/// sides of 1, in fixed point: `sqrt(3) / 4`.
pub const HALF_HEIGHT: i64 = 1859775393;

impl Default for Triangle {
    /// An equilateral triangle with sides of 1, centred on the origin, apex
    /// up, at depth 1.
    fn default() -> (r: Triangle)
        ensures
            r.points@.len() == 3,
            r.points@[0].x == 0 && r.points@[0].y == HALF_HEIGHT,
            r.points@[1].x == -(NDC_ONE / 2) && r.points@[1].y == -HALF_HEIGHT,
            r.points@[2].x == NDC_ONE / 2 && r.points@[2].y == -HALF_HEIGHT,
            forall|i: int| 0 <= i < 3 ==> #[trigger] r.points@[i].z == NDC_ONE,
    {
        Triangle::new(
            Point::new(0, HALF_HEIGHT, NDC_ONE),
            Point::new(-(NDC_ONE / 2), -HALF_HEIGHT, NDC_ONE),
            Point::new(NDC_ONE / 2, -HALF_HEIGHT, NDC_ONE),
        )
    }
}

/// Pixel-space coordinates: column `x`, row `y`, origin top-left.
#[derive(Clone, Copy, Debug, PartialEq, Eq, Structural)]
pub struct ScreenCoords {
    pub x: u32,
    pub y: u32,
}

impl ScreenCoords {
    pub fn new(x: u32, y: u32) -> (r: ScreenCoords)
        ensures
            r.x == x,
            r.y == y,
    {
        ScreenCoords { x, y }
    }
}

/// Linear interpolation from `a` towards `b` at parameter `num / den`,
/// rounded towards `a`.
pub open spec fn lerp(a: int, b: int, num: int, den: int) -> int {
    if a <= b {
        a + (b - a) * num / den
    } else {
        a - (a - b) * num / den
    }
}

pub proof fn lemma_lerp_between(a: int, b: int, num: int, den: int)
    requires
        0 <= num <= den,
        0 < den,
    ensures
        a <= b ==> a <= lerp(a, b, num, den) <= b,
        b < a ==> b <= lerp(a, b, num, den) <= a,
        num == 0 ==> lerp(a, b, num, den) == a,
        num == den ==> lerp(a, b, num, den) == b,
{
    let d = if a <= b { b - a } else { a - b };
    assert(0 <= d * num <= d * den) by (nonlinear_arith)
        requires
            0 <= num <= den,
            0 <= d,
    ;
    assert(d * den == den * d) by (nonlinear_arith);
    vstd::arithmetic::div_mod::lemma_div_multiples_vanish(d, den);
    vstd::arithmetic::div_mod::lemma_div_is_ordered(d * num, d * den, den);
    vstd::arithmetic::div_mod::lemma_div_is_ordered(0, d * num, den);
    assert(0int / den == 0) by (nonlinear_arith)
        requires
            den > 0,
    ;
    assert(0 <= d * num / den <= d);
    if num == 0 {
        assert(d * num == 0);
    }
    if num == den {
        assert(d * num == d * den);
    }
}

/// Interpolates between `a` and `b` at the fraction `num / den` of the way,
/// rounding towards `a`.
pub fn lin_interp(a: i64, b: i64, num: u64, den: u64) -> (r: i64)
    requires
        0 < den,
        num <= den,
    ensures
        r == lerp(a as int, b as int, num as int, den as int),
{
    proof {
        lemma_lerp_between(a as int, b as int, num as int, den as int);
    }
    if a <= b {
        let d: u128 = (b as i128 - a as i128) as u128;
        assert(d * (num as int) <= d * 18446744073709551615) by (nonlinear_arith)
            requires num <= 18446744073709551615u64, 0 <= d;
        let q: u128 = d * (num as u128) / (den as u128);
        (a as i128 + q as i128) as i64
    } else {
        let d: u128 = (a as i128 - b as i128) as u128;
        assert(d * (num as int) <= d * 18446744073709551615) by (nonlinear_arith)
            requires num <= 18446744073709551615u64, 0 <= d;
        let q: u128 = d * (num as u128) / (den as u128);
        (a as i128 - q as i128) as i64
    }
}

} // verus!
