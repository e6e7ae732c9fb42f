use vstd::prelude::*;

verus! {

/// Fixed-point steps in one unit of the plane.
pub const UNITS: i64 = 1_000_000;

/// A position in the plane, in fixed-point steps.
#[derive(Clone, Copy, Debug, PartialEq, Eq, Structural)]
pub struct Point {
    pub x: i64,
    pub y: i64,
}

/// The arithmetic mean of two coordinates, rounded down.
pub open spec fn mid_coord(a: int, b: int) -> int {
    (a + b) / 2
}

/// `a * (1 - num/den) + b * (num/den)`, rounded down.
pub open spec fn jump_coord(a: int, b: int, num: int, den: int) -> int {
    (a * (den - num) + b * num) / den
}

pub open spec fn spec_midpoint(p: Point, q: Point) -> Point {
    Point { x: mid_coord(p.x as int, q.x as int) as i64, y: mid_coord(p.y as int, q.y as int) as i64 }
}

/// The interpolated point fits in the coordinate type.
pub open spec fn jump_fits(p: Point, q: Point, num: int, den: int) -> bool {
    &&& i64::MIN <= jump_coord(p.x as int, q.x as int, num, den) <= i64::MAX
    &&& i64::MIN <= jump_coord(p.y as int, q.y as int, num, den) <= i64::MAX
}

pub open spec fn spec_jump(p: Point, q: Point, num: int, den: int) -> Point {
    Point {
        x: jump_coord(p.x as int, q.x as int, num, den) as i64,
        y: jump_coord(p.y as int, q.y as int, num, den) as i64,
    }
}

/// Both coordinates are even, so the midpoint of two such points is exact.
pub open spec fn on_grid(p: Point) -> bool {
    p.x % 2 == 0 && p.y % 2 == 0
}

/// Lies in the square `[lo, hi] x [lo, hi]`.
pub open spec fn in_square(p: Point, lo: int, hi: int) -> bool {
    lo <= p.x <= hi && lo <= p.y <= hi
}

/// Rounding down a weighted mean of `a` and `b` lands between them.
proof fn lemma_jump_coord_between(a: int, b: int, num: int, den: int, lo: int, hi: int)
    requires
        0 <= num <= den,
        0 < den,
        lo <= a <= hi,
        lo <= b <= hi,
    ensures
        lo <= jump_coord(a, b, num, den) <= hi,
{
    let t = a * (den - num) + b * num;
    let q = t / den;
    assert(lo * den <= t <= hi * den) by (nonlinear_arith)
        requires
            t == a * (den - num) + b * num,
            0 <= num <= den,
            lo <= a <= hi,
            lo <= b <= hi,
    ;
    vstd::arithmetic::div_mod::lemma_fundamental_div_mod(t, den);
    assert(lo <= q <= hi) by (nonlinear_arith)
        requires
            t == den * q + t % den,
            0 <= t % den < den,
            lo * den <= t <= hi * den,
            0 < den,
    ;
}

/// A coordinate times a fraction's part stays far inside `i128`.
proof fn lemma_product_small(a: int, k: int)
    requires
        i64::MIN <= a <= i64::MAX,
        -0x2_0000_0000 <= k <= 0x2_0000_0000,
    ensures
        -0x4_0000_0000_0000_0000_0000_0000 <= a * k <= 0x4_0000_0000_0000_0000_0000_0000,
{
    assert(-0x4_0000_0000_0000_0000_0000_0000 <= a * k <= 0x4_0000_0000_0000_0000_0000_0000)
        by (nonlinear_arith)
        requires
            -0x8000_0000_0000_0000 <= a <= 0x8000_0000_0000_0000,
            -0x2_0000_0000 <= k <= 0x2_0000_0000,
    ;
}

impl Point {
    pub fn new(x: i64, y: i64) -> (r: Point)
        ensures
            r == (Point { x, y }),
    {
        Point { x, y }
    }

    /// The arithmetic mean of the two points, each coordinate rounded down.
    pub fn midpoint(&self, other: &Point) -> (r: Point)
        ensures
            r == spec_midpoint(*self, *other),
    {
        let x = (self.x as i128 + other.x as i128).checked_div_euclid(2).unwrap();
        let y = (self.y as i128 + other.y as i128).checked_div_euclid(2).unwrap();
        Point { x: x as i64, y: y as i64 }
    }

    /// Moves the fraction `num / den` of the way from `self` towards `other`:
    /// `self * (1 - num/den) + other * (num/den)`, each coordinate rounded down.
    /// A fraction outside `[0, 1]` extrapolates past one end.
    pub fn jump_towards(&self, other: &Point, num: i32, den: u32) -> (r: Point)
        requires
            den > 0,
            jump_fits(*self, *other, num as int, den as int),
        ensures
            r == spec_jump(*self, *other, num as int, den as int),
    {
        let keep = den as i128 - num as i128;
        proof {
            lemma_product_small(self.x as int, keep as int);
            lemma_product_small(self.y as int, keep as int);
            lemma_product_small(other.x as int, num as int);
            lemma_product_small(other.y as int, num as int);
        }
        let tx = self.x as i128 * keep + other.x as i128 * num as i128;
        let ty = self.y as i128 * keep + other.y as i128 * num as i128;
        let x = tx.checked_div_euclid(den as i128).unwrap();
        let y = ty.checked_div_euclid(den as i128).unwrap();
        Point { x: x as i64, y: y as i64 }
    }
}

/// The midpoint does not depend on the order of its two points, and the
/// midpoint of a point with itself is that point.
pub proof fn lemma_midpoint_symmetric(p: Point, q: Point)
    ensures
        spec_midpoint(p, q) == spec_midpoint(q, p),
        spec_midpoint(p, p) == p,
{
}

/// Jumping no distance stays at the start; jumping the whole distance lands
/// on the target. Both always fit.
pub proof fn lemma_jump_endpoints(p: Point, q: Point, den: int)
    requires
        den > 0,
    ensures
        jump_fits(p, q, 0, den),
        spec_jump(p, q, 0, den) == p,
        jump_fits(p, q, den, den),
        spec_jump(p, q, den, den) == q,
{
    vstd::arithmetic::div_mod::lemma_div_multiples_vanish(p.x as int, den);
    vstd::arithmetic::div_mod::lemma_div_multiples_vanish(p.y as int, den);
    vstd::arithmetic::div_mod::lemma_div_multiples_vanish(q.x as int, den);
    vstd::arithmetic::div_mod::lemma_div_multiples_vanish(q.y as int, den);
    assert(p.x * (den - 0) + q.x * 0 == den * p.x) by (nonlinear_arith);
    assert(p.y * (den - 0) + q.y * 0 == den * p.y) by (nonlinear_arith);
    assert(p.x * (den - den) + q.x * den == den * q.x) by (nonlinear_arith);
    assert(p.y * (den - den) + q.y * den == den * q.y) by (nonlinear_arith);
}

/// An interpolating jump between two points of a square stays in the square,
/// and so always fits.
pub proof fn lemma_jump_in_square(p: Point, q: Point, num: int, den: int, lo: int, hi: int)
    requires
        0 <= num <= den,
        0 < den,
        in_square(p, lo, hi),
        in_square(q, lo, hi),
    ensures
        jump_fits(p, q, num, den),
        in_square(spec_jump(p, q, num, den), lo, hi),
{
    lemma_jump_coord_between(p.x as int, q.x as int, num, den, lo, hi);
    lemma_jump_coord_between(p.y as int, q.y as int, num, den, lo, hi);
    lemma_jump_coord_between(p.x as int, q.x as int, num, den, i64::MIN as int, i64::MAX as int);
    lemma_jump_coord_between(p.y as int, q.y as int, num, den, i64::MIN as int, i64::MAX as int);
}

/// The midpoint of two points of a square stays in the square.
pub proof fn lemma_midpoint_in_square(p: Point, q: Point, lo: int, hi: int)
    requires
        in_square(p, lo, hi),
        in_square(q, lo, hi),
    ensures
        in_square(spec_midpoint(p, q), lo, hi),
{
}

} // verus!
