//! Fixed-point reals: the `i64` value `v` stands for the real number `v / ONE`.
use vstd::prelude::*;

verus! {

/// Number of fractional bits of a fixed-point coordinate.
pub const FRAC_BITS: u32 = 24;

/// The fixed-point representation of 1.
pub const ONE: i64 = 0x100_0000;

/// Floor division by a positive divisor.
pub fn floor_div(n: i128, d: i128) -> (r: i128)
    requires
        d > 0,
    ensures
        r == n / d,
{
    proof {
        let q = n / d;
        let m = n % d;
        vstd::arithmetic::div_mod::lemma_fundamental_div_mod(n as int, d as int);
        assert(i128::MIN <= q <= i128::MAX) by (nonlinear_arith)
            requires
                n == d * q + m,
                0 <= m < d,
                i128::MIN <= n <= i128::MAX,
        ;
    }
    match n.checked_div_euclid(d) {
        Some(q) => q,
        None => 0,
    }
}

/// The fixed-point number nearest below `num / den`.
pub fn fixed(num: i64, den: i64) -> (r: i64)
    requires
        den > 0,
        i64::MIN <= (num * ONE) / (den as int) <= i64::MAX,
    ensures
        r == (num * ONE) / (den as int),
{
    let q = floor_div(num as i128 * ONE as i128, den as i128);
    q as i64
}

} // verus!
