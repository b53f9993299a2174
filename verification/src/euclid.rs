//! Executable greatest common divisor and least common multiple.
use crate::divisors;
use vstd::prelude::*;

verus! {

/// Computes the greatest common divisor of `x` and `y` by repeated remainder.
pub fn gcd(x: u128, y: u128) -> (g: u128)
    ensures
        g == divisors::gcd(x as nat, y as nat),
{
    let mut a: u128 = x;
    let mut b: u128 = y;
    while b != 0
        invariant
            divisors::gcd(a as nat, b as nat) == divisors::gcd(x as nat, y as nat),
        decreases b,
    {
        let r: u128 = a % b;
        a = b;
        b = r;
    }
    a
}

/// The least common multiple of `a` and `b`, by `num::integer::lcm`.
///
/// That function returns zero when both arguments are zero and otherwise
/// multiplies `a` by `b / gcd(a, b)`; the product is formed in `u128`, so the
/// contract asks that the multiple fits.
#[verifier::external_body]
pub(crate) fn lcm(a: u128, b: u128) -> (m: u128)
    requires
        divisors::lcm(a as nat, b as nat) <= u128::MAX,
    ensures
        m == divisors::lcm(a as nat, b as nat),
{
    num::integer::lcm(a, b)
}

} // verus!
