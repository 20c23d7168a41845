//! Integer helpers shared by the layout passes: pixel values are `i32`,
//! intermediate results are computed exactly and brought back into range by
//! saturation.

use vstd::prelude::*;

verus! {

/// `x` brought into the range of `i32`.
pub open spec fn sat32(x: int) -> i32 {
    if x < i32::MIN {
        i32::MIN
    } else if x > i32::MAX {
        i32::MAX
    } else {
        x as i32
    }
}

/// The quotient of `a` by a positive `b`, rounded towards zero.
pub open spec fn trunc_div(a: int, b: int) -> int {
    if a >= 0 {
        a / b
    } else {
        -((-a) / b)
    }
}

/// The larger of two integers.
pub open spec fn max_int(a: int, b: int) -> int {
    if a >= b {
        a
    } else {
        b
    }
}

/// The smaller of two integers.
pub open spec fn min_int(a: int, b: int) -> int {
    if a <= b {
        a
    } else {
        b
    }
}

/// Saturates a wide intermediate value to a pixel value.
pub fn saturate(x: i128) -> (r: i32)
    ensures
        r == sat32(x as int),
{
    if x < -0x8000_0000 {
        i32::MIN
    } else if x > 0x7fff_ffff {
        i32::MAX
    } else {
        x as i32
    }
}

/// Division by a positive number that rounds towards zero, as pixel
/// percentages and centring offsets do.
pub fn div_toward_zero(a: i128, b: i128) -> (r: i128)
    requires
        b > 0,
        a > i128::MIN,
    ensures
        r == trunc_div(a as int, b as int),
        a >= 0 ==> 0 <= r <= a,
        a < 0 ==> a <= r <= 0,
{
    if a >= 0 {
        let q = a / b;
        assert(0 <= q <= a) by (nonlinear_arith)
            requires
                q == (a as int) / (b as int),
                a >= 0,
                b > 0,
        ;
        q
    } else {
        let m = -a;
        let q = m / b;
        assert(0 <= q <= m) by (nonlinear_arith)
            requires
                q == (m as int) / (b as int),
                m >= 0,
                b > 0,
        ;
        -q
    }
}

/// Division by a positive number that rounds towards negative infinity.
pub fn div_floor(a: i128, b: i128) -> (r: i128)
    requires
        b > 0,
        -0x4000_0000_0000_0000_0000_0000_0000_0000 < a < 0x4000_0000_0000_0000_0000_0000_0000_0000,
        b < 0x4000_0000_0000_0000_0000_0000_0000_0000,
    ensures
        r == (a as int) / (b as int),
{
    if a >= 0 {
        a / b
    } else {
        let m = -a;
        let q = (m + (b - 1)) / b;
        proof {
            lemma_floor_of_negative(m as int, b as int);
        }
        -q
    }
}

/// For positive `m` and `b`, the floor of `-m / b` is minus the ceiling of `m / b`.
pub proof fn lemma_floor_of_negative(m: int, b: int)
    requires
        m > 0,
        b > 0,
    ensures
        (-m) / b == -((m + (b - 1)) / b),
{
    let q = (m + (b - 1)) / b;
    let r = (m + (b - 1)) % b;
    assert(m + (b - 1) == q * b + r && 0 <= r < b) by (nonlinear_arith)
        requires
            q == (m + (b - 1)) / b,
            r == (m + (b - 1)) % b,
            b > 0,
    ;
    // -m == (-q) * b + (b - 1 - r), with 0 <= b - 1 - r < b
    let s = b - 1 - r;
    assert(-m == (-q) * b + s) by (nonlinear_arith)
        requires
            m + (b - 1) == q * b + r,
            s == b - 1 - r,
    ;
    vstd::arithmetic::div_mod::lemma_fundamental_div_mod_converse(-m, b, -q, s);
}

} // verus!
