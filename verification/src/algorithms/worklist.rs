//! The worklist decomposition driver.
//!
//! Both advanced strategies share one protocol: strip the factors of
//! two, then repeatedly take a pending value off a FIFO queue, keep it
//! as a factor when the primality oracle approves it, and otherwise
//! split it into two nontrivial factors that go back on the queue.
//! The driver is parameterized by the splitting procedure.

use vstd::prelude::*;

verus! {

use std::collections::VecDeque;
use crate::arith::{nat_div, nat_eq, nat_rem, Natural};
use crate::number_theory::{
    is_pow2, is_prime, lemma_odd_factors, lemma_pow2_even_halves, lemma_pow2_odd_is_one,
    lemma_pow2_one, lemma_prime_product_singleton, lemma_product_push, seq_product, seq_sum,
};
use crate::algorithms::primality::{miller_rabin, MillerRabinResult};
use crate::FactorError;

/// A strategy-specific procedure that splits an odd composite into two
/// nontrivial factors whose product is the input; a splitter may give
/// up, but it may not hand back a trivial or inexact split.
pub trait Splitter {
    fn split(&self, m: &Natural) -> (r: Result<(Natural, Natural), FactorError>)
        requires
            m@ >= 3,
            m@ % 2 == 1,
        ensures
            r matches Ok(p) ==> p.0@ * p.1@ == m@ && 1 < p.0@ < m@ && 1 < p.1@ < m@,
    ;
}

/// Fully factors `n` by stripping twos and then running the worklist
/// protocol with the given splitting procedure.  An error can only
/// arise out of a splitting attempt, so zero, one and the powers of
/// two — whose odd part is one — always succeed.
#[verifier::loop_isolation(false)]
pub fn decompose<S: Splitter>(n: Natural, splitter: &S) -> (r: Result<Vec<Natural>, FactorError>)
    ensures
        r matches Ok(f) ==> (n@ >= 1 ==> seq_product(f@) == n@),
        n@ == 0 ==> (r matches Ok(f) && f@.len() == 0),
        n@ == 1 ==> r is Ok,
        is_pow2(n@) ==> r is Ok,
        r matches Ok(f) ==> (n@ == 1 ==> f@.len() == 0),
        r matches Ok(f) ==> forall|i: int| 0 <= i < f@.len() ==> #[trigger] f@[i]@ >= 2,
        r matches Ok(f) ==> (is_prime(n@) ==> f@.len() == 1 && f@[0]@ == n@),
{
    let zero = Natural::from_u64(0);
    let one = Natural::from_u64(1);
    let two = Natural::from_u64(2);
    let mut factors: Vec<Natural> = Vec::new();
    if nat_eq(&n, &zero) {
        return Ok(factors);
    }
    let ghost n0: nat = n@;
    let mut m = n;
    proof {
        assert(factors@ =~= Seq::<Natural>::empty());
        assert(seq_product(factors@) == 1);
    }
    while nat_eq(&nat_rem(&m, &two), &zero)
        invariant
            m@ >= 1,
            seq_product(factors@) * m@ == n0,
            forall|i: int| 0 <= i < factors@.len() ==> #[trigger] factors@[i]@ >= 2,
            is_pow2(n0) ==> is_pow2(m@),
        decreases m@,
    {
        let ghost f0 = factors@;
        let ghost m0 = m@;
        factors.push(two.clone());
        m = nat_div(&m, &two);
        proof {
            crate::number_theory::lemma_div_exact(m0, 2);
            lemma_product_push(f0, factors@[factors@.len() - 1]);
            assert(seq_product(factors@) * m@ == n0) by (nonlinear_arith)
                requires
                    seq_product(f0) * m0 == n0,
                    seq_product(factors@) == seq_product(f0) * 2,
                    m0 == 2 * m@,
            ;
            if is_pow2(n0) {
                lemma_pow2_even_halves(m0);
            }
        }
    }
    // A power of two (one included) strips down to an odd part of
    // one, so the queue below then never offers anything to split.
    proof {
        if n0 == 1 {
            lemma_pow2_one();
        }
        if is_pow2(n0) {
            lemma_pow2_odd_is_one(m@);
        }
    }
    let mut queue: VecDeque<Natural> = VecDeque::new();
    let ghost mv: nat = m@;
    queue.push_back(m);
    proof {
        assert(queue@.drop_first() =~= Seq::<Natural>::empty());
        assert(seq_product(queue@.drop_first()) == 1);
        assert(seq_product(queue@) == queue@[0]@ * seq_product(queue@.drop_first()));
        assert(queue@[0]@ == mv);
    }
    while queue.len() > 0
        invariant
            seq_product(factors@) * seq_product(queue@) == n0,
            forall|i: int| 0 <= i < queue@.len()
                ==> #[trigger] queue@[i]@ >= 1 && queue@[i]@ % 2 == 1 && (mv == 1
                    ==> queue@[i]@ == 1),
            forall|i: int| 0 <= i < factors@.len() ==> #[trigger] factors@[i]@ >= 2,
        decreases seq_sum(queue@),
    {
        let ghost q0 = queue@;
        let head = queue.pop_front().unwrap();
        proof {
            assert(queue@ =~= q0.drop_first());
            assert(seq_product(q0) == head@ * seq_product(queue@));
            assert(seq_sum(q0) == head@ + seq_sum(queue@));
        }
        if nat_eq(&head, &one) {
            proof {
                assert(seq_product(factors@) * seq_product(queue@) == n0) by (nonlinear_arith)
                    requires
                        seq_product(factors@) * (head@ * seq_product(queue@)) == n0,
                        head@ == 1,
                ;
            }
            continue;
        }
        assert(head@ >= 3);
        match miller_rabin(&head, 40) {
            MillerRabinResult::ProbablyPrime => {
                let ghost f0 = factors@;
                let ghost h = head@;
                factors.push(head);
                proof {
                    lemma_product_push(f0, factors@[factors@.len() - 1]);
                    assert(seq_product(factors@) * seq_product(queue@) == n0) by (nonlinear_arith)
                        requires
                            seq_product(f0) * (h * seq_product(queue@)) == n0,
                            seq_product(factors@) == seq_product(f0) * h,
                    ;
                }
            },
            MillerRabinResult::Composite => {
                assert(head@ >= 5);
                assert(mv != 1);
                match splitter.split(&head) {
                    Ok(pair) => {
                        let (f1, f2) = pair;
                        proof {
                            lemma_odd_factors(head@, f1@, f2@);
                        }
                        let ghost qa = queue@;
                        queue.push_back(f1);
                        let ghost qb = queue@;
                        queue.push_back(f2);
                        proof {
                            lemma_product_push_sum(qa, f1);
                            lemma_product_push_sum(qb, f2);
                            assert(seq_product(factors@) * seq_product(queue@) == n0)
                                by (nonlinear_arith)
                                requires
                                    seq_product(factors@) * (head@ * seq_product(qa)) == n0,
                                    f1@ * f2@ == head@,
                                    seq_product(qb) == seq_product(qa) * f1@,
                                    seq_product(queue@) == seq_product(qb) * f2@,
                            ;
                            assert(f1@ >= 3 && f2@ >= 3);
                            assert(f1@ + f2@ < f1@ * f2@) by (nonlinear_arith)
                                requires
                                    f1@ >= 3,
                                    f2@ >= 3,
                            ;
                        }
                    },
                    Err(e) => {
                        // Unreachable for a power of two: its odd part
                        // is one, so nothing was ever split.
                        assert(n0 != 1);
                        assert(!is_pow2(n0));
                        return Err(e);
                    },
                }
            },
        }
    }
    proof {
        assert(seq_product(queue@) == 1);
        assert(seq_product(factors@) * seq_product(queue@) == n0);
        assert(seq_product(factors@) == n0) by (nonlinear_arith)
            requires
                seq_product(factors@) * seq_product(queue@) == n0,
                seq_product(queue@) == 1,
        ;
        if is_prime(n0) {
            lemma_prime_product_singleton(factors@, n0);
        }
        if n0 == 1 {
            crate::number_theory::lemma_product_one_empty(factors@);
        }
    }
    Ok(factors)
}

/// Pushing a value onto the queue multiplies its product and adds to
/// its sum accordingly.
proof fn lemma_product_push_sum(s: Seq<Natural>, x: Natural)
    ensures
        seq_product(s.push(x)) == seq_product(s) * x@,
        seq_sum(s.push(x)) == seq_sum(s) + x@,
{
    lemma_product_push(s, x);
    crate::number_theory::lemma_sum_push(s, x);
}

} // verus!
