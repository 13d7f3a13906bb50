//! The baseline strategy: exhaustive trial division.

use vstd::prelude::*;

verus! {

use crate::arith::{nat_add, nat_div, nat_eq, nat_le, nat_rem, Natural};
use crate::number_theory::{
    is_prime, lemma_div_exact, lemma_even_divisor, lemma_prime_product_singleton,
    lemma_product_push, seq_product,
};
use vstd::arithmetic::div_mod::lemma_mod_multiples_basic;
use vstd::arithmetic::mul::lemma_mul_is_commutative;
use crate::{FactorError, Factorize};

pub struct TrialDivision;

impl TrialDivision {
    /// Factors a machine word through the same strategy.
    pub fn factor_generic(num: u64) -> (r: Result<Vec<Natural>, FactorError>)
        ensures
            r is Ok,
            r matches Ok(f) ==> (num >= 1 ==> seq_product(f@) == num),
            num == 0 ==> (r matches Ok(f) && f@.len() == 0),
            r matches Ok(f) ==> (num == 1 ==> f@.len() == 0),
            r matches Ok(f) ==> forall|i: int| 0 <= i < f@.len() ==> is_prime(#[trigger] f@[i]@),
            r matches Ok(f) ==> forall|i: int, j: int|
                #![trigger f@[i], f@[j]]
                0 <= i < j < f@.len() ==> f@[i]@ <= f@[j]@,
    {
        <TrialDivision as Factorize>::factor(Natural::from_u64(num))
    }
}

impl Factorize for TrialDivision {
    /// Divides out candidates 2, 3, 5, 7, ... in turn until the
    /// quotient reaches one; linear in the largest prime factor by
    /// design, as the baseline for the other strategies.  Never fails.
    #[verifier::loop_isolation(false)]
    fn factor(number: Natural) -> (r: Result<Vec<Natural>, FactorError>)
        ensures
            r is Ok,
            r matches Ok(f) ==> forall|i: int| 0 <= i < f@.len() ==> is_prime(#[trigger] f@[i]@),
            r matches Ok(f) ==> forall|i: int, j: int|
                #![trigger f@[i], f@[j]]
                0 <= i < j < f@.len() ==> f@[i]@ <= f@[j]@,
    {
        let zero = Natural::from_u64(0);
        let one = Natural::from_u64(1);
        let two = Natural::from_u64(2);
        let mut factors: Vec<Natural> = Vec::new();
        if nat_eq(&number, &zero) {
            return Ok(factors);
        }
        let ghost n0: nat = number@;
        let mut m = number;
        let mut candidate = Natural::from_u64(2);
        proof {
            assert(factors@ =~= Seq::<Natural>::empty());
            assert(seq_product(factors@) == 1);
        }
        while !nat_le(&m, &one)
            invariant
                m@ >= 1,
                candidate@ >= 2,
                candidate@ == 2 || candidate@ % 2 == 1,
                seq_product(factors@) * m@ == n0,
                forall|i: int| 0 <= i < factors@.len() ==> #[trigger] factors@[i]@ >= 2,
                forall|i: int| 0 <= i < factors@.len() ==> is_prime(#[trigger] factors@[i]@),
                forall|i: int| 0 <= i < factors@.len() ==> #[trigger] factors@[i]@ <= candidate@,
                forall|i: int, j: int|
                    #![trigger factors@[i], factors@[j]]
                    0 <= i < j < factors@.len() ==> factors@[i]@ <= factors@[j]@,
                forall|d: nat| 2 <= d < candidate@ ==> #[trigger] (m@ % d) != 0,
                m@ == 1 || candidate@ <= m@,
            decreases (if m@ <= 1 { 0int } else { m@ + 2 - candidate@ }),
        {
            let ghost m_enter = m@;
            while nat_eq(&nat_rem(&m, &candidate), &zero)
                invariant
                    m@ >= 1,
                    m@ <= m_enter,
                    seq_product(factors@) * m@ == n0,
                    forall|i: int| 0 <= i < factors@.len() ==> #[trigger] factors@[i]@ >= 2,
                    forall|i: int| 0 <= i < factors@.len() ==> is_prime(#[trigger] factors@[i]@),
                    forall|i: int| 0 <= i < factors@.len() ==> #[trigger] factors@[i]@
                        <= candidate@,
                    forall|i: int, j: int|
                        #![trigger factors@[i], factors@[j]]
                        0 <= i < j < factors@.len() ==> factors@[i]@ <= factors@[j]@,
                    forall|d: nat| 2 <= d < candidate@ ==> #[trigger] (m@ % d) != 0,
                decreases m@,
            {
                let ghost f0 = factors@;
                let ghost m0 = m@;
                factors.push(candidate.clone());
                m = nat_div(&m, &candidate);
                proof {
                    lemma_div_exact(m0, candidate@);
                    vstd::arithmetic::div_mod::lemma_div_is_strictly_smaller(
                        m0 as int,
                        candidate@ as int,
                    );
                    if m@ == 0 {
                        assert(m0 == candidate@ * 0);
                        assert(false);
                    }
                    lemma_product_push(f0, factors@[factors@.len() - 1]);
                    assert(seq_product(factors@) * m@ == n0) by (nonlinear_arith)
                        requires
                            seq_product(f0) * m0 == n0,
                            seq_product(factors@) == seq_product(f0) * candidate@,
                            m0 == candidate@ * m@,
                    ;
                    assert forall|d: nat| 2 <= d < candidate@ implies #[trigger] (m@ % d)
                        != 0 by {
                        if m@ % d == 0 {
                            lemma_div_exact(m@, d);
                            assert(m0 == d * (candidate@ * (m@ / d))) by (nonlinear_arith)
                                requires
                                    m0 == candidate@ * m@,
                                    m@ == d * (m@ / d),
                            ;
                            lemma_mul_is_commutative(d as int, (candidate@ * (m@ / d)) as int);
                            lemma_mod_multiples_basic((candidate@ * (m@ / d)) as int, d as int);
                        }
                    }
                    // The pushed candidate is prime: a smaller divisor
                    // of it would also divide the quotient it was
                    // taken from.
                    assert(is_prime(candidate@)) by {
                        assert forall|d: nat| 2 <= d < candidate@ implies #[trigger] (candidate@
                            % d) != 0 by {
                            if candidate@ % d == 0 {
                                crate::number_theory::lemma_divides_trans(m0, candidate@, d);
                            }
                        }
                    }
                    assert forall|i: int, j: int|
                        #![trigger factors@[i], factors@[j]]
                        0 <= i < j < factors@.len() implies factors@[i]@ <= factors@[j]@ by {
                        if j == factors@.len() - 1 {
                            assert(factors@[i] == f0[i]);
                        }
                    }
                }
            }
            if !nat_le(&m, &one) {
                let ghost c0 = candidate@;
                candidate = if nat_eq(&candidate, &two) {
                    Natural::from_u64(3)
                } else {
                    nat_add(&candidate, &two)
                };
                proof {
                    assert forall|d: nat| 2 <= d < candidate@ implies #[trigger] (m@ % d)
                        != 0 by {
                        if d >= c0 && m@ % d == 0 {
                            assert(d == c0 || d == c0 + 1);
                            if d == c0 + 1 && c0 != 2 {
                                assert(d % 2 == 0);
                                lemma_even_divisor(m@, d);
                                assert(m@ % 2 == 0);
                            }
                        }
                    }
                    // The quotient is still above one, so it divides
                    // itself and every untried candidate stands at or
                    // below it.
                    if candidate@ > m@ {
                        lemma_mod_multiples_basic(1, m@ as int);
                        assert(m@ % m@ == 0);
                        assert(false);
                    }
                }
            }
        }
        proof {
            assert(m@ == 1);
            if is_prime(n0) {
                lemma_prime_product_singleton(factors@, n0);
            }
            if n0 == 1 {
                crate::number_theory::lemma_product_one_empty(factors@);
            }
        }
        Ok(factors)
    }
}

} // verus!
