//! The sampling interval of predicted frames, a ratio of two `u16`.
use vstd::prelude::*;
use num_rational::Ratio;

verus! {

/// The greatest common divisor of `a` and `b`; `spec_gcd(0, 0)` is 0.
pub open spec fn spec_gcd(a: nat, b: nat) -> nat
    decreases b,
{
    if b == 0 {
        a
    } else {
        spec_gcd(b, a % b)
    }
}

/// A ratio of two `u16` with a denominator other than zero.
#[derive(Clone, Copy, Debug, PartialEq, Eq, Structural)]
pub struct PInterval {
    pub numer: u16,
    pub denom: u16,
}

/// `num_rational::Ratio::new` on `u16`, which puts the fraction into lowest
/// terms: both parts are divided by their greatest common divisor, so that
/// zero becomes 0/1. It panics on a zero denominator, which `requires`
/// leaves out.
#[verifier::external_body]
fn lowest_terms(numer: u16, denom: u16) -> (r: PInterval)
    requires
        denom != 0,
    ensures
        r.numer == numer as nat / spec_gcd(numer as nat, denom as nat),
        r.denom == denom as nat / spec_gcd(numer as nat, denom as nat),
{
    let ratio = Ratio::new(numer, denom);
    PInterval { numer: *ratio.numer(), denom: *ratio.denom() }
}

/// `num_rational::Ratio::recip` on `u16`, which swaps numerator and
/// denominator. It panics on a ratio that is zero, which `requires` leaves
/// out.
#[verifier::external_body]
fn reciprocal(ratio: PInterval) -> (r: PInterval)
    requires
        ratio.numer != 0,
        ratio.denom != 0,
    ensures
        r.numer == ratio.denom,
        r.denom == ratio.numer,
{
    let flipped = Ratio::new_raw(ratio.numer, ratio.denom).recip();
    PInterval { numer: *flipped.numer(), denom: *flipped.denom() }
}

/// The greatest common divisor divides both numbers, and is positive unless
/// both are zero.
pub proof fn lemma_gcd_divides(a: nat, b: nat)
    ensures
        a > 0 || b > 0 ==> spec_gcd(a, b) > 0,
        spec_gcd(a, b) > 0 ==> a % spec_gcd(a, b) == 0 && b % spec_gcd(a, b) == 0,
    decreases b,
{
    if b != 0 {
        lemma_gcd_divides(b, a % b);
        let g = spec_gcd(a, b) as int;
        let q = a as int / b as int;
        let r = a as int % b as int;
        let m = b as int / g;
        let n = r / g;
        vstd::arithmetic::div_mod::lemma_fundamental_div_mod(a as int, b as int);
        vstd::arithmetic::div_mod::lemma_fundamental_div_mod(b as int, g);
        vstd::arithmetic::div_mod::lemma_fundamental_div_mod(r, g);
        assert(a as int == (m * q + n) * g) by (nonlinear_arith)
            requires
                a as int == b as int * q + r,
                b as int == g * m,
                r == g * n,
        ;
        vstd::arithmetic::div_mod::lemma_mod_multiples_basic(m * q + n, g);
    }
}

impl PInterval {
    /// The denominator is not zero.
    pub open spec fn wf(self) -> bool {
        self.denom != 0
    }

    /// The ratio of `numer` to `denom` in lowest terms; none for a zero
    /// denominator.
    pub open spec fn spec_new(numer: u16, denom: u16) -> Option<PInterval> {
        if denom == 0 {
            None
        } else {
            Some(
                PInterval {
                    numer: (numer as nat / spec_gcd(numer as nat, denom as nat)) as u16,
                    denom: (denom as nat / spec_gcd(numer as nat, denom as nat)) as u16,
                },
            )
        }
    }

    /// The ratio of `numer` to `denom` in lowest terms; none for a zero
    /// denominator.
    pub fn new(numer: u16, denom: u16) -> (r: Option<PInterval>)
        ensures
            r == PInterval::spec_new(numer, denom),
            r matches Some(p) ==> p.wf() && (p.numer == 0 <==> numer == 0),
    {
        if denom == 0 {
            None
        } else {
            let p = lowest_terms(numer, denom);
            proof {
                let g = spec_gcd(numer as nat, denom as nat);
                lemma_gcd_divides(numer as nat, denom as nat);
                vstd::arithmetic::div_mod::lemma_fundamental_div_mod(denom as int, g as int);
                vstd::arithmetic::div_mod::lemma_fundamental_div_mod(numer as int, g as int);
                assert(denom as int == g * (denom as int / g as int));
                assert(numer as int == g * (numer as int / g as int));
                if p.denom == 0 {
                    assert(g * 0 == 0);
                }
                if p.numer == 0 {
                    assert(g * 0 == 0);
                }
            }
            Some(p)
        }
    }

    /// The ratio turned upside down.
    pub fn recip(self) -> (r: PInterval)
        requires
            self.wf(),
            self.numer != 0,
        ensures
            r.wf(),
            r.numer == self.denom,
            r.denom == self.numer,
    {
        reciprocal(self)
    }
}

} // verus!
