//! Greatest common divisors and least common multiples of natural numbers.
use vstd::arithmetic::div_mod::{
    lemma_fundamental_div_mod, lemma_mod_multiples_basic, lemma_small_mod, lemma_truncate_middle,
};
use vstd::prelude::*;

verus! {

/// `d` divides `n`: `n` is a whole multiple of the nonzero `d`.
pub open spec fn divides(d: nat, n: nat) -> bool {
    d > 0 && n % d == 0
}

/// The greatest common divisor of `a` and `b`, with `gcd(0, 0) == 0`.
///
/// Written as Euclid's recurrence; [`lemma_gcd_divides`] and
/// [`lemma_gcd_greatest`] show that it is a common divisor which every other
/// common divisor divides.
pub open spec fn gcd(a: nat, b: nat) -> nat
    decreases b,
{
    if b == 0 {
        a
    } else {
        gcd(b, a % b)
    }
}

/// The least common multiple of `a` and `b`: zero when either is zero.
///
/// [`lemma_lcm_least`] shows that it is a common multiple which divides
/// every other common multiple.
pub open spec fn lcm(a: nat, b: nat) -> nat {
    if a == 0 || b == 0 {
        0
    } else {
        a * (b / gcd(a, b))
    }
}

/// A multiple of `d`, times anything, plus another multiple of `d`, is a
/// multiple of `d`.
pub proof fn lemma_divides_combination(d: nat, x: nat, q: nat, y: nat)
    requires
        divides(d, x),
        divides(d, y),
    ensures
        divides(d, x * q + y),
{
    let xd = x / d;
    let yd = y / d;
    lemma_fundamental_div_mod(x as int, d as int);
    lemma_fundamental_div_mod(y as int, d as int);
    assert(x * q + y == (xd * q + yd) * d) by (nonlinear_arith)
        requires
            x == d * xd,
            y == d * yd,
    ;
    lemma_mod_multiples_basic((xd * q + yd) as int, d as int);
}

/// The difference between a multiple of `d` and a multiple of a multiple of
/// `d` is again a multiple of `d`.
pub proof fn lemma_divides_remainder(d: nat, a: nat, b: nat)
    requires
        divides(d, a),
        divides(d, b),
        b > 0,
    ensures
        divides(d, a % b),
{
    let ad = a / d;
    let bd = b / d;
    let q = a / b;
    lemma_fundamental_div_mod(a as int, d as int);
    lemma_fundamental_div_mod(b as int, d as int);
    lemma_fundamental_div_mod(a as int, b as int);
    let r = a % b;
    assert(r == (ad - bd * q) * d) by (nonlinear_arith)
        requires
            a == d * ad,
            b == d * bd,
            a == b * q + r,
    ;
    lemma_mod_multiples_basic(ad - bd * q, d as int);
}

/// The gcd is positive unless both arguments are zero.
pub proof fn lemma_gcd_positive(a: nat, b: nat)
    requires
        a > 0 || b > 0,
    ensures
        gcd(a, b) > 0,
    decreases b,
{
    if b > 0 {
        lemma_gcd_positive(b, a % b);
    }
}

/// The gcd divides both of its arguments.
pub proof fn lemma_gcd_divides(a: nat, b: nat)
    requires
        a > 0 || b > 0,
    ensures
        divides(gcd(a, b), a),
        divides(gcd(a, b), b),
    decreases b,
{
    let g = gcd(a, b);
    lemma_gcd_positive(a, b);
    if b == 0 {
        lemma_mod_multiples_basic(1, a as int);
        lemma_small_mod(0, a);
    } else {
        lemma_gcd_divides(b, a % b);
        lemma_fundamental_div_mod(a as int, b as int);
        if a % b == 0 {
            lemma_small_mod(0, g);
        }
        lemma_divides_combination(g, b, a / b, a % b);
        assert(b * (a / b) + a % b == a);
    }
}

/// Every common divisor of `a` and `b` divides their gcd.
pub proof fn lemma_gcd_greatest(a: nat, b: nat, d: nat)
    requires
        divides(d, a),
        divides(d, b),
    ensures
        divides(d, gcd(a, b)),
    decreases b,
{
    if b > 0 {
        lemma_divides_remainder(d, a, b);
        lemma_gcd_greatest(b, a % b, d);
    }
}

/// Scaling both arguments scales the gcd.
pub proof fn lemma_gcd_scale(k: nat, a: nat, b: nat)
    requires
        k > 0,
    ensures
        gcd(k * a, k * b) == k * gcd(a, b),
    decreases b,
{
    if b == 0 {
        assert(k * b == 0) by (nonlinear_arith)
            requires
                b == 0,
        ;
    } else {
        assert(k * b > 0) by (nonlinear_arith)
            requires
                k > 0,
                b > 0,
        ;
        lemma_truncate_middle(a as int, k as int, b as int);
        assert((k * a) % (k * b) == k * (a % b));
        lemma_gcd_scale(k, b, a % b);
    }
}

/// Dividing both arguments by their gcd leaves a coprime pair.
pub proof fn lemma_gcd_of_quotients(a: nat, b: nat)
    requires
        a > 0 || b > 0,
    ensures
        gcd(a / gcd(a, b), b / gcd(a, b)) == 1,
{
    let g = gcd(a, b);
    lemma_gcd_divides(a, b);
    lemma_fundamental_div_mod(a as int, g as int);
    lemma_fundamental_div_mod(b as int, g as int);
    lemma_gcd_scale(g, a / g, b / g);
    let h = gcd(a / g, b / g);
    assert(h == 1) by (nonlinear_arith)
        requires
            g > 0,
            g == g * h,
    ;
}

/// A divisor of a positive number is no larger than that number.
pub proof fn lemma_divisor_bound(d: nat, n: nat)
    requires
        divides(d, n),
        n > 0,
    ensures
        d <= n,
{
    if d > n {
        lemma_small_mod(n, d);
    }
}

/// Gauss's lemma: a divisor of a product that is coprime to one factor
/// divides the other factor.
pub proof fn lemma_coprime_divides_factor(d: nat, a: nat, c: nat)
    requires
        gcd(a, d) == 1,
        divides(d, a * c),
    ensures
        divides(d, c),
{
    if c == 0 {
        lemma_small_mod(0, d);
    } else {
        lemma_gcd_scale(c, a, d);
        assert(c * a == a * c && c * gcd(a, d) == c) by (nonlinear_arith)
            requires
                gcd(a, d) == 1,
        ;
        lemma_mod_multiples_basic(c as int, d as int);
        assert(c * d == d * c) by (nonlinear_arith);
        lemma_gcd_greatest(c * a, c * d, d);
    }
}

/// The least common multiple of two positive numbers is a multiple of both,
/// and every common multiple of the two is a multiple of it.
pub proof fn lemma_lcm_least(a: nat, b: nat, m: nat)
    requires
        a > 0,
        b > 0,
    ensures
        divides(a, lcm(a, b)),
        divides(b, lcm(a, b)),
        divides(a, m) && divides(b, m) ==> divides(lcm(a, b), m),
{
    let g = gcd(a, b);
    let s = a / g;
    let t = b / g;
    let l = lcm(a, b);
    lemma_gcd_divides(a, b);
    lemma_fundamental_div_mod(a as int, g as int);
    lemma_fundamental_div_mod(b as int, g as int);
    assert(l == t * a && l == s * b && l > 0 && s > 0 && t > 0) by (nonlinear_arith)
        requires
            l == a * t,
            a == g * s,
            b == g * t,
            a > 0,
            b > 0,
            g > 0,
    ;
    lemma_mod_multiples_basic(t as int, a as int);
    lemma_mod_multiples_basic(s as int, b as int);
    if divides(a, m) && divides(b, m) {
        let x = m / a;
        let y = m / b;
        lemma_fundamental_div_mod(m as int, a as int);
        lemma_fundamental_div_mod(m as int, b as int);
        assert(s * x == y * t) by (nonlinear_arith)
            requires
                m == a * x,
                m == b * y,
                a == g * s,
                b == g * t,
                g > 0,
        {
            assert(g * (s * x) == g * (y * t));
        }
        lemma_mod_multiples_basic(y as int, t as int);
        lemma_gcd_of_quotients(a, b);
        lemma_coprime_divides_factor(t, s, x);
        let k = x / t;
        lemma_fundamental_div_mod(x as int, t as int);
        assert(m == k * l) by (nonlinear_arith)
            requires
                m == a * x,
                x == t * k,
                l == a * t,
        ;
        lemma_mod_multiples_basic(k as int, l as int);
    }
}

} // verus!
