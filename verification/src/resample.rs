//! Rational resampling support: the greatest common divisor that reduces an
//! up/down rate ratio.
use vstd::prelude::*;

verus! {

/// Greatest common divisor by the Euclidean algorithm.
pub open spec fn spec_gcd(a: nat, b: nat) -> nat
    decreases b,
{
    if b == 0 {
        a
    } else {
        spec_gcd(b, a % b)
    }
}

/// The greatest common divisor of `a` and `b` (with `gcd(a, 0) == a`).
pub fn gcd(a: usize, b: usize) -> (r: usize)
    ensures
        r == spec_gcd(a as nat, b as nat),
{
    let ghost a0 = a;
    let ghost b0 = b;
    let mut a = a;
    let mut b = b;
    while b != 0
        invariant
            spec_gcd(a as nat, b as nat) == spec_gcd(a0 as nat, b0 as nat),
        decreases b,
    {
        let t = b;
        b = a % b;
        a = t;
    }
    a
}

/// The result divides both arguments (for `a` and `b` not both zero the
/// result is positive).
pub proof fn lemma_gcd_divides(a: nat, b: nat)
    ensures
        spec_gcd(a, b) == 0 ==> a == 0 && b == 0,
        spec_gcd(a, b) > 0 ==> a % spec_gcd(a, b) == 0 && b % spec_gcd(a, b) == 0,
    decreases b,
{
    if b > 0 {
        lemma_gcd_divides(b, a % b);
        let g = spec_gcd(b, a % b);
        if g > 0 {
            vstd::arithmetic::div_mod::lemma_fundamental_div_mod(a as int, b as int);
            let q = a / b;
            let r = a % b;
            vstd::arithmetic::div_mod::lemma_fundamental_div_mod(b as int, g as int);
            vstd::arithmetic::div_mod::lemma_fundamental_div_mod(r as int, g as int);
            let qb = b / g;
            let qr = r / g;
            assert(a == g * (q * qb + qr)) by (nonlinear_arith)
                requires
                    a == b * q + r,
                    b == g * qb,
                    r == g * qr,
            ;
            vstd::arithmetic::div_mod::lemma_mod_multiples_basic((q * qb + qr) as int, g as int);
            assert(g * (q * qb + qr) == (q * qb + qr) * g) by (nonlinear_arith);
        } else {
            assert(a % b == 0);
        }
    }
}

} // verus!
