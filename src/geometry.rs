use vstd::prelude::*;

verus! {

/// Number of sub-pixel units in one pixel.
pub const UNITS_PER_PIXEL: i64 = 1000;

/// Largest magnitude any coordinate or velocity component may take.
pub const COORD_LIMIT: i64 = 1_099_511_627_776;

/// A point or vector in sub-pixel units.
#[derive(Clone, Copy, Debug, PartialEq, Eq, Structural)]
pub struct Vec2 {
    pub x: i64,
    pub y: i64,
}

/// An opaque display color.
#[derive(Clone, Copy, Debug, PartialEq, Eq, Structural)]
pub struct Color {
    pub r: u8,
    pub g: u8,
    pub b: u8,
}

/// `v` saturated into `[-COORD_LIMIT, COORD_LIMIT]`.
pub open spec fn limit(v: int) -> int {
    if v > COORD_LIMIT {
        COORD_LIMIT as int
    } else if v < -COORD_LIMIT {
        -COORD_LIMIT
    } else {
        v
    }
}

/// Division rounding toward zero, as Rust's `/` on signed integers.
pub open spec fn tdiv(a: int, b: int) -> int {
    if a >= 0 {
        a / b
    } else {
        -((-a) / b)
    }
}

/// Division rounding away from zero: the magnitude is rounded up.
pub open spec fn cdiv(a: int, b: int) -> int {
    if a >= 0 {
        (a + b - 1) / b
    } else {
        -((-a + b - 1) / b)
    }
}

/// Rounding `x / d` up never exceeds `m` where `x <= m * d`, and is at least
/// 1 where `x` is positive.
pub proof fn lemma_ceil_div_bound(x: int, m: int, d: int)
    requires
        d >= 1,
        0 <= x <= m * d,
    ensures
        0 <= (x + d - 1) / d <= m,
        x > 0 ==> (x + d - 1) / d >= 1,
{
    let q = (x + d - 1) / d;
    vstd::arithmetic::div_mod::lemma_fundamental_div_mod(x + d - 1, d);
    vstd::arithmetic::div_mod::lemma_mod_pos_bound(x + d - 1, d);
    let rem = (x + d - 1) % d;
    assert(0 <= q <= m && (x > 0 ==> q >= 1)) by (nonlinear_arith)
        requires
            d >= 1,
            0 <= x <= m * d,
            x + d - 1 == d * q + rem,
            0 <= rem < d,
    ;
}

/// Squares of values within twice the coordinate limit fit well inside `i128`.
pub proof fn lemma_square_bound(v: int)
    requires
        -0x200_0000_0000 <= v <= 0x200_0000_0000,
    ensures
        0 <= v * v <= 0x4_0000_0000_0000_0000_0000,
{
    assert(0 <= v * v <= 0x4_0000_0000_0000_0000_0000) by (nonlinear_arith)
        requires
            -0x200_0000_0000 <= v <= 0x200_0000_0000,
    ;
}

/// Integer square root: the largest `r` with `r * r <= n`.
pub open spec fn is_isqrt(n: int, r: int) -> bool {
    0 <= r && r * r <= n && n < (r + 1) * (r + 1)
}

pub open spec fn isqrt_spec(n: int) -> int {
    choose|r: int| is_isqrt(n, r)
}

proof fn lemma_isqrt_unique(n: int, a: int, b: int)
    requires
        is_isqrt(n, a),
        is_isqrt(n, b),
    ensures
        a == b,
{
    if a < b {
        assert((a + 1) * (a + 1) <= b * b) by (nonlinear_arith)
            requires
                0 <= a,
                a + 1 <= b,
        ;
    } else if b < a {
        assert((b + 1) * (b + 1) <= a * a) by (nonlinear_arith)
            requires
                0 <= b,
                b + 1 <= a,
        ;
    }
}

/// `saturate(v)` is `v` clamped into `[-COORD_LIMIT, COORD_LIMIT]`.
pub fn saturate(v: i128) -> (r: i64)
    ensures
        r == limit(v as int),
{
    if v > COORD_LIMIT as i128 {
        COORD_LIMIT
    } else if v < -(COORD_LIMIT as i128) {
        -COORD_LIMIT
    } else {
        v as i64
    }
}

/// Signed division rounding toward zero by a positive divisor.
pub fn div_toward_zero(a: i128, b: i128) -> (r: i128)
    requires
        b > 0,
        a > i128::MIN,
    ensures
        r == tdiv(a as int, b as int),
{
    if a >= 0 {
        a / b
    } else {
        -((-a) / b)
    }
}

/// Signed division by a positive divisor, rounding the magnitude up.
pub fn div_away_from_zero(a: i128, b: i128) -> (r: i128)
    requires
        b > 0,
        -0x1_0000_0000_0000_0000_0000_0000 <= a <= 0x1_0000_0000_0000_0000_0000_0000,
        b <= 0x1_0000_0000_0000_0000_0000_0000,
    ensures
        r == cdiv(a as int, b as int),
{
    if a >= 0 {
        (a + b - 1) / b
    } else {
        -((-a + b - 1) / b)
    }
}

/// Integer square root of `n`.
pub fn isqrt(n: u128) -> (r: u128)
    requires
        n <= 0x40_0000_0000_0000_0000_0000,
    ensures
        r as int == isqrt_spec(n as int),
        is_isqrt(n as int, r as int),
{
    let mut lo: u128 = 0;
    let mut hi: u128 = 0x8_0000_0000_0001;
    assert(n < hi * hi) by (nonlinear_arith)
        requires
            n <= 0x40_0000_0000_0000_0000_0000,
            hi == 0x8_0000_0000_0001,
    ;
    while hi - lo > 1
        invariant
            lo < hi <= 0x8_0000_0000_0001,
            lo * lo <= n,
            n < hi * hi,
        decreases hi - lo,
    {
        let mid: u128 = lo + (hi - lo) / 2;
        assert(mid * mid <= 0x8_0000_0000_0001 * 0x8_0000_0000_0001) by (nonlinear_arith)
            requires
                mid <= 0x8_0000_0000_0001,
        ;
        if mid * mid <= n {
            lo = mid;
        } else {
            hi = mid;
        }
    }
    assert(hi == lo + 1);
    proof {
        assert(is_isqrt(n as int, lo as int));
        lemma_isqrt_unique(n as int, lo as int, isqrt_spec(n as int));
    }
    lo
}

} // verus!
