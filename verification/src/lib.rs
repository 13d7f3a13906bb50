use vstd::prelude::*;

pub mod algorithms;
pub mod arith;
pub mod math;
pub mod number_theory;
pub mod sieve;

pub use algorithms::brents_rho::BrentsRho;
pub use algorithms::fermat::Fermat;
pub use algorithms::trial_division::TrialDivision;

verus! {

use crate::arith::{nat_eq, nat_rem, Natural};
use crate::number_theory::{is_pow2, is_prime, seq_product, spec_gcd};

/// Errors that can end a factorization attempt early.
///
/// `SplitExhausted` reports that a splitting procedure gave up on a
/// composite after its bounded number of attempts; the caller can move
/// on to its next input instead of aborting.
#[derive(Debug, PartialEq, Eq, Structural)]
pub enum FactorError {
    SplitExhausted,
}

/// The common contract of all factorization strategies: the product of
/// the returned factors equals the input, zero and one yield an empty
/// list, every returned factor is at least two, and a prime input can
/// only come back as the one-element list holding itself.  Success is
/// owed outright for zero, one and every power of two, where neither
/// the primality oracle nor a splitting procedure is ever consulted.
pub trait Factorize {
    fn factor(number: Natural) -> (r: Result<Vec<Natural>, FactorError>)
        ensures
            r matches Ok(f) ==> (number@ >= 1 ==> seq_product(f@) == number@),
            number@ == 0 ==> (r matches Ok(f) && f@.len() == 0),
            number@ == 1 ==> r is Ok,
            is_pow2(number@) ==> r is Ok,
            r matches Ok(f) ==> (number@ == 1 ==> f@.len() == 0),
            r matches Ok(f) ==> forall|i: int| 0 <= i < f@.len() ==> #[trigger] f@[i]@ >= 2,
            r matches Ok(f) ==> (is_prime(number@) ==> f@.len() == 1 && f@[0]@ == number@),
    ;
}

/// Euclid's algorithm over arbitrary-precision naturals.
pub(crate) fn gcd(a: Natural, b: Natural) -> (r: Natural)
    ensures
        r@ == spec_gcd(a@, b@),
{
    let zero = Natural::from_u64(0);
    let mut x = a;
    let mut y = b;
    while !nat_eq(&y, &zero)
        invariant
            zero@ == 0,
            spec_gcd(x@, y@) == spec_gcd(a@, b@),
        decreases y@,
    {
        let r = nat_rem(&x, &y);
        x = y;
        y = r;
    }
    x
}

} // verus!
