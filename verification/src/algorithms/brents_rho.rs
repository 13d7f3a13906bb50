//! Brent's cycle-detection factorization strategy.

use vstd::prelude::*;

verus! {

use crate::arith::{nat_add, nat_div, nat_eq, nat_le, nat_mul, nat_rem, nat_sub, Natural};
use crate::number_theory::{
    lemma_divisor_le, lemma_gcd_divides, lemma_nontrivial_divisor, spec_gcd,
};
use crate::algorithms::worklist::{decompose, Splitter};
use crate::{FactorError, Factorize};

pub struct BrentsRho;

/// The absolute difference of two naturals.
pub open spec fn dist(a: nat, b: nat) -> nat {
    if a <= b {
        (b - a) as nat
    } else {
        (a - b) as nat
    }
}

/// The cycle walk's cursor after `i` steps: it starts at two, and each
/// step applies `g(x) = (x*x + offset) mod m`.
pub open spec fn rho_cursor(m: nat, offset: nat, i: nat) -> nat
    decreases i,
{
    if i == 0 {
        2
    } else {
        (rho_cursor(m, offset, (i - 1) as nat) * rho_cursor(m, offset, (i - 1) as nat)
            + offset) % m
    }
}

/// The divisor candidate that the cycle detection examines at step
/// `i`: the gcd of the distance between the slow cursor (at `i`) and
/// the fast cursor (at `2 * i`) with the input.
pub open spec fn rho_candidate(m: nat, offset: nat, i: nat) -> nat {
    spec_gcd(dist(rho_cursor(m, offset, i), rho_cursor(m, offset, 2 * i)), m)
}

/// One step of the pseudo-random cycle function
/// `g(x) = (x*x + offset) mod modulus`.
fn rho_step(x: &Natural, offset: &Natural, modulus: &Natural) -> (r: Natural)
    requires
        modulus@ >= 1,
    ensures
        r@ == (x@ * x@ + offset@) % modulus@,
{
    let squared = nat_mul(x, x);
    let shifted = nat_add(&squared, offset);
    nat_rem(&shifted, modulus)
}

impl BrentsRho {
    /// One cycle-detection attempt: walk a slow and a doubly-fast
    /// cursor through the pseudo-random sequence and look for a
    /// nontrivial divisor as the gcd of their distance with the input.
    /// The outcome is an exact function of the input and the offset:
    /// a success returns the first nontrivial divisor candidate of the
    /// walk; the attempt is unresolved exactly when that first
    /// candidate is the input itself — the collapsed cycle — or when
    /// no candidate within the step bound is nontrivial.
    #[verifier::loop_isolation(false)]
    fn brents_rho_single(number: &Natural, offset: u16) -> (r: Result<Natural, ()>)
        requires
            number@ >= 2,
        ensures
            r matches Ok(d) ==> 1 < d@ < number@ && number@ % d@ == 0,
            r matches Ok(d) ==> exists|i: nat|
                1 <= i && #[trigger] rho_candidate(number@, offset as nat, i) == d@ && (
                forall|k: nat|
                    1 <= k < i ==> #[trigger] rho_candidate(number@, offset as nat, k) == 1),
            r is Err ==> (exists|i: nat|
                1 <= i && #[trigger] rho_candidate(number@, offset as nat, i) == number@ && (
                forall|k: nat|
                    1 <= k < i ==> #[trigger] rho_candidate(number@, offset as nat, k) == 1))
                || (forall|k: nat|
                1 <= k <= u64::MAX ==> #[trigger] rho_candidate(number@, offset as nat, k) == 1),
    {
        let one = Natural::from_u64(1);
        let off = Natural::from_u64(offset as u64);
        let mut x_cycle = Natural::from_u64(2);
        let mut y_cycle = Natural::from_u64(2);
        let mut possible_factor = Natural::from_u64(1);
        let mut steps: u64 = 0;
        while steps < u64::MAX && nat_eq(&possible_factor, &one)
            invariant
                possible_factor@ == 1 || (1 <= possible_factor@ <= number@
                    && number@ % possible_factor@ == 0),
                x_cycle@ == rho_cursor(number@, offset as nat, steps as nat),
                y_cycle@ == rho_cursor(number@, offset as nat, 2 * (steps as nat)),
                steps == 0 ==> possible_factor@ == 1,
                steps >= 1 ==> possible_factor@ == rho_candidate(
                    number@,
                    offset as nat,
                    steps as nat,
                ),
                forall|k: nat|
                    1 <= k < steps as nat ==> #[trigger] rho_candidate(
                        number@,
                        offset as nat,
                        k,
                    ) == 1,
            decreases u64::MAX - steps,
        {
            let ghost i0 = steps as nat;
            x_cycle = rho_step(&x_cycle, &off, number);
            let y_mid = rho_step(&y_cycle, &off, number);
            y_cycle = rho_step(&y_mid, &off, number);
            proof {
                let m = number@;
                let c = offset as nat;
                assert(rho_cursor(m, c, i0 + 1) == (rho_cursor(m, c, i0) * rho_cursor(m, c, i0)
                    + c) % m);
                assert(rho_cursor(m, c, 2 * i0 + 1) == (rho_cursor(m, c, 2 * i0) * rho_cursor(
                    m,
                    c,
                    2 * i0,
                ) + c) % m);
                assert(rho_cursor(m, c, 2 * i0 + 2) == (rho_cursor(m, c, 2 * i0 + 1)
                    * rho_cursor(m, c, 2 * i0 + 1) + c) % m);
                assert(2 * (i0 + 1) == 2 * i0 + 2);
            }
            let abs_diff = if nat_le(&x_cycle, &y_cycle) {
                nat_sub(&y_cycle, &x_cycle)
            } else {
                nat_sub(&x_cycle, &y_cycle)
            };
            let ghost diff_val = abs_diff@;
            proof {
                assert(diff_val == dist(x_cycle@, y_cycle@));
            }
            possible_factor = crate::gcd(abs_diff, number.clone());
            proof {
                lemma_gcd_divides(diff_val, number@);
                lemma_divisor_le(number@, possible_factor@);
                assert(possible_factor@ == rho_candidate(number@, offset as nat, i0 + 1));
                if i0 >= 1 {
                    assert(rho_candidate(number@, offset as nat, i0) == 1);
                }
            }
            steps = steps + 1;
        }
        if nat_eq(&possible_factor, &one) {
            proof {
                assert(steps == u64::MAX);
                assert forall|k: nat|
                    1 <= k <= u64::MAX implies #[trigger] rho_candidate(
                    number@,
                    offset as nat,
                    k,
                ) == 1 by {
                    if k == u64::MAX as nat {
                        assert(rho_candidate(number@, offset as nat, steps as nat) == 1);
                    }
                }
            }
            return Err(());
        }
        proof {
            assert(steps >= 1);
            assert(rho_candidate(number@, offset as nat, steps as nat) == possible_factor@);
        }
        if nat_eq(&possible_factor, number) {
            Err(())
        } else {
            Ok(possible_factor)
        }
    }
}

impl Splitter for BrentsRho {
    /// Retries single cycle-detection attempts with offsets 1 through
    /// 99, and reports exhaustion as an explicit error instead of a
    /// silent wrong answer.
    fn split(&self, m: &Natural) -> (r: Result<(Natural, Natural), FactorError>) {
        let mut offset: u16 = 1;
        while offset < 100
            invariant
                1 <= offset <= 100,
                m@ >= 3,
            decreases 100 - offset,
        {
            match Self::brents_rho_single(m, offset) {
                Ok(d) => {
                    proof {
                        lemma_nontrivial_divisor(m@, d@);
                    }
                    let twin = nat_div(m, &d);
                    return Ok((d, twin));
                },
                Err(_) => {},
            }
            offset = offset + 1;
        }
        Err(FactorError::SplitExhausted)
    }
}

impl Factorize for BrentsRho {
    fn factor(number: Natural) -> (r: Result<Vec<Natural>, FactorError>) {
        decompose(number, &BrentsRho)
    }
}

} // verus!
