//! Complex arithmetic on wide integers, delegated to `num_complex`.
use vstd::prelude::*;
use num_complex::Complex;

verus! {

#[verifier::external_type_specification]
#[verifier::reject_recursive_types(T)]
pub struct ExComplex<T>(Complex<T>);

/// Bound on each component accepted by the products below.
pub const WIDE: i128 = 0x1000_0000_0000_0000;

/// Bound on each component accepted by the sum below.
pub const WIDE_SUM: i128 = 0x1_0000_0000_0000_0000;

/// Relies on num_complex's `Mul` for `Complex<i128>`:
/// `(a + bi)(c + di) = (ac - bd) + (ad + bc)i`.
#[verifier::external_body]
pub(crate) fn complex_mul(a: Complex<i128>, b: Complex<i128>) -> (r: Complex<i128>)
    requires
        -WIDE <= a.re <= WIDE,
        -WIDE <= a.im <= WIDE,
        -WIDE <= b.re <= WIDE,
        -WIDE <= b.im <= WIDE,
    ensures
        r.re == a.re * b.re - a.im * b.im,
        r.im == a.re * b.im + a.im * b.re,
{
    a * b
}

/// Relies on num_complex's `Add` for `Complex<i128>`: componentwise sum.
#[verifier::external_body]
pub(crate) fn complex_add(a: Complex<i128>, b: Complex<i128>) -> (r: Complex<i128>)
    requires
        -WIDE_SUM <= a.re <= WIDE_SUM,
        -WIDE_SUM <= a.im <= WIDE_SUM,
        -WIDE_SUM <= b.re <= WIDE_SUM,
        -WIDE_SUM <= b.im <= WIDE_SUM,
    ensures
        r.re == a.re + b.re,
        r.im == a.im + b.im,
{
    a + b
}

/// Relies on num_complex's `Complex::norm_sqr` for `Complex<i128>`: `re² + im²`.
#[verifier::external_body]
pub(crate) fn norm_sqr(z: &Complex<i128>) -> (r: i128)
    requires
        -WIDE <= z.re <= WIDE,
        -WIDE <= z.im <= WIDE,
    ensures
        r == z.re * z.re + z.im * z.im,
{
    z.norm_sqr()
}

/// Widens a point to the arithmetic type of the helpers above.
pub(crate) fn widen(z: Complex<i64>) -> (r: Complex<i128>)
    ensures
        r.re == z.re,
        r.im == z.im,
{
    Complex { re: z.re as i128, im: z.im as i128 }
}

} // verus!
