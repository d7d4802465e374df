//! Integer helpers shared by the terrain and player modules.
use vstd::prelude::*;
use vstd::arithmetic::div_mod::{lemma_fundamental_div_mod, lemma_fundamental_div_mod_converse};

verus! {

/// `v` brought into `lo ..= hi`.
pub open spec fn clamp(v: int, lo: int, hi: int) -> int {
    if v < lo {
        lo
    } else if v > hi {
        hi
    } else {
        v
    }
}

/// A quotient lies between two bounds whenever the dividend lies between
/// their multiples of the divisor.
pub proof fn lemma_div_between(a: int, d: int, lo: int, hi: int)
    requires
        d > 0,
        lo * d <= a <= hi * d,
    ensures
        lo <= a / d <= hi,
{
    let q = a / d;
    let r = a % d;
    lemma_fundamental_div_mod(a, d);
    assert(q <= hi) by (nonlinear_arith)
        requires
            a == d * q + r,
            0 <= r,
            d > 0,
            a <= hi * d,
    ;
    assert(lo <= q) by (nonlinear_arith)
        requires
            a == d * q + r,
            r < d,
            d > 0,
            lo * d <= a,
    ;
}

/// A common positive factor of dividend and divisor cancels.
pub proof fn lemma_div_cancel(a: int, b: int, c: int)
    requires
        b > 0,
        c > 0,
    ensures
        b * c > 0,
        (a * c) / (b * c) == a / b,
{
    let q = a / b;
    let r = a % b;
    lemma_fundamental_div_mod(a, b);
    assert(b * c > 0) by (nonlinear_arith)
        requires
            b > 0,
            c > 0,
    ;
    assert(a * c == q * (b * c) + r * c && 0 <= r * c < b * c) by (nonlinear_arith)
        requires
            a == b * q + r,
            0 <= r < b,
            c > 0,
    ;
    lemma_fundamental_div_mod_converse(a * c, b * c, q, r * c);
}

/// Quotient and remainder of `q * d + r` by `d`, for a remainder in range.
pub proof fn lemma_div_mod_of_sum(q: int, d: int, r: int)
    requires
        0 <= r < d,
    ensures
        (q * d + r) / d == q,
        (q * d + r) % d == r,
{
    lemma_fundamental_div_mod_converse(q * d + r, d, q, r);
}

/// `n / d` rounded towards negative infinity.
pub fn floor_div(n: i128, d: i128) -> (q: i128)
    requires
        d > 0,
    ensures
        q == n / d,
{
    if n >= 0 {
        n / d
    } else {
        let m: i128 = -(n + 1);
        let k: i128 = m / d;
        proof {
            let r = m as int % d as int;
            lemma_fundamental_div_mod(m as int, d as int);
            assert(n == (-(k as int) - 1) * d + (d - 1 - r)) by (nonlinear_arith)
                requires
                    m == d * k + r,
                    n == -(m + 1),
            ;
            lemma_fundamental_div_mod_converse(
                n as int,
                d as int,
                -(k as int) - 1,
                d - 1 - r,
            );
        }
        -k - 1
    }
}

/// A point or direction in world space, in thousandths of a world unit.
#[derive(Clone, Copy, PartialEq, Eq, Structural, Debug)]
pub struct Vec3 {
    pub x: i64,
    pub y: i64,
    pub z: i64,
}

impl Vec3 {
    /// The origin, and the direction of nothing.
    pub open spec fn zero() -> Vec3 {
        Vec3 { x: 0, y: 0, z: 0 }
    }
}

} // verus!
