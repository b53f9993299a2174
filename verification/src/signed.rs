//! Moving between a signed 128-bit integer and its sign and magnitude.
use vstd::math::abs;
use vstd::prelude::*;

verus! {

/// `n` is representable as an `i128`.
pub open spec fn fits_i128(n: int) -> bool {
    i128::MIN <= n <= i128::MAX
}

/// `n` is representable as a `u128`.
pub open spec fn fits_u128(n: int) -> bool {
    0 <= n <= u128::MAX
}

/// The absolute value of `n`, which always fits in a `u128`.
pub fn magnitude(n: i128) -> (m: u128)
    ensures
        m == abs(n as int),
{
    if n >= 0 {
        n as u128
    } else if n == i128::MIN {
        0x8000_0000_0000_0000_0000_0000_0000_0000u128
    } else {
        (-n) as u128
    }
}

/// The integer of magnitude `m` that is negative exactly when `negative` is
/// set and `m` is nonzero.
pub fn with_sign(negative: bool, m: u128) -> (n: i128)
    requires
        fits_i128(if negative { -(m as int) } else { m as int }),
    ensures
        n == (if negative { -(m as int) } else { m as int }),
{
    if !negative {
        m as i128
    } else if m == 0x8000_0000_0000_0000_0000_0000_0000_0000u128 {
        i128::MIN
    } else {
        -(m as i128)
    }
}

/// The product of a signed and an unsigned integer.
pub fn scale(n: i128, k: u128) -> (p: i128)
    requires
        fits_i128(n * k),
    ensures
        p == n * k,
{
    if n == 0 || k == 0 {
        assert(n * k == 0) by (nonlinear_arith)
            requires
                n == 0 || k == 0,
        ;
        0
    } else {
        let m: u128 = magnitude(n);
        assert(m * k <= 0x8000_0000_0000_0000_0000_0000_0000_0000 && (n < 0 ==> n * k == -(m * k))
            && (n > 0 ==> n * k == m * k)) by (nonlinear_arith)
            requires
                m == abs(n as int),
                -0x8000_0000_0000_0000_0000_0000_0000_0000 <= n * k
                    < 0x8000_0000_0000_0000_0000_0000_0000_0000,
                k > 0,
        ;
        with_sign(n < 0, m * k)
    }
}

} // verus!
