//! Fermat's difference-of-squares factorization strategy.

use vstd::prelude::*;

verus! {

use vstd::arithmetic::div_mod::{
    lemma_add_mod_noop, lemma_div_is_ordered, lemma_div_is_ordered_by_denominator,
    lemma_div_multiples_vanish, lemma_mod_multiples_basic, lemma_sub_mod_noop,
};
use vstd::arithmetic::mul::{lemma_mul_inequality, lemma_mul_is_commutative};
use crate::arith::{nat_add, nat_div, nat_eq, nat_isqrt, nat_le, nat_mul, nat_sub, Natural};
use crate::number_theory::{
    is_prime, is_square, lemma_div_exact, lemma_isqrt_exact, lemma_odd_nonsquare_composite_split,
};
use crate::algorithms::worklist::{decompose, Splitter};
use crate::{FactorError, Factorize};

pub struct Fermat;

impl Fermat {
    /// The starting point of the difference-of-squares search: the
    /// integer square root of the input, bumped by one when the input
    /// is itself a perfect square so that the search starts above the
    /// trivial root.
    fn ceiling_root(number: &Natural) -> (r: Natural)
        ensures
            (r@ >= 1 && (r@ - 1) * (r@ - 1) == number@ && number@ < r@ * r@) || (r@ * r@
                < number@ < (r@ + 1) * (r@ + 1)),
    {
        let root = nat_isqrt(number);
        let squared = nat_mul(&root, &root);
        if nat_eq(&squared, number) {
            let one = Natural::from_u64(1);
            let bumped = nat_add(&root, &one);
            proof {
                assert(number@ < bumped@ * bumped@) by (nonlinear_arith)
                    requires
                        bumped@ == root@ + 1,
                        number@ < (root@ + 1) * (root@ + 1),
                ;
            }
            bumped
        } else {
            root
        }
    }
}

impl Splitter for Fermat {
    /// Searches for `a` with `a*a - m` a perfect square `b*b`; then
    /// `(a - b) * (a + b) == m`.  A perfect-square input is split
    /// upfront into its root twice, the one pair the search — made to
    /// start above the root — could never see; a trivial hit with
    /// `a - b == 1` is skipped; and the search ends once `a` passes
    /// `(m + 1) / 2`, the largest mean of any factor pair.  Every odd
    /// composite is thereby proved to split, so only a prime — which
    /// the driver hands over just on a mistaken oracle verdict — is
    /// reported as exhausted.
    #[verifier::loop_isolation(false)]
    fn split(&self, m: &Natural) -> (r: Result<(Natural, Natural), FactorError>)
        ensures
            !is_prime(m@) ==> r is Ok,
    {
        let one = Natural::from_u64(1);
        let two = Natural::from_u64(2);
        let root = nat_isqrt(m);
        let root_squared = nat_mul(&root, &root);
        if nat_eq(&root_squared, m) {
            proof {
                assert(root@ >= 2) by (nonlinear_arith)
                    requires
                        root@ * root@ == m@,
                        m@ >= 3,
                ;
                assert(2 * root@ <= root@ * root@) by (nonlinear_arith)
                    requires
                        root@ >= 2,
                ;
            }
            let twin = root.clone();
            return Ok((root, twin));
        }
        let mut a = Fermat::ceiling_root(m);
        let m_plus_one = nat_add(m, &one);
        let half = nat_div(&m_plus_one, &two);
        let ghost splittable: bool = !is_prime(m@);
        proof {
            assert(!is_square(m@)) by {
                if is_square(m@) {
                    let t = choose|t: nat| m@ == #[trigger] (t * t);
                    lemma_isqrt_exact(root@, m@, t);
                    assert(false);
                }
            }
            if splittable {
                lemma_odd_nonsquare_composite_split(m@);
            }
        }
        let ghost pair0: (nat, nat) = if splittable {
            choose|x: nat, y: nat|
                3 <= x < y && #[trigger] (x * y) == m@ && x % 2 == 1 && y % 2 == 1
        } else {
            (0, 0)
        };
        let ghost x: nat = pair0.0;
        let ghost y: nat = pair0.1;
        let ghost a0: nat = ((x + y) / 2) as nat;
        let ghost b0: nat = ((y - x) / 2) as nat;
        proof {
            if splittable {
                // The mean of the factor pair is the step where the
                // search must strike.
                lemma_add_mod_noop(x as int, y as int, 2);
                lemma_sub_mod_noop(y as int, x as int, 2);
                lemma_div_exact((x + y) as nat, 2);
                lemma_div_exact((y - x) as nat, 2);
                assert(x + y == 2 * a0);
                assert(y - x == 2 * b0);
                if y == x + 1 {
                    lemma_add_mod_noop(x as int, 1, 2);
                    assert(false);
                }
                assert(b0 >= 1);
                assert(4 * (a0 * a0) == (x + y) * (x + y)) by (nonlinear_arith)
                    requires
                        x + y == 2 * a0,
                ;
                assert(4 * (b0 * b0) == (y - x) * (y - x)) by (nonlinear_arith)
                    requires
                        y - x == 2 * b0,
                        x <= y,
                ;
                assert((x + y) * (x + y) == (y - x) * (y - x) + 4 * (x * y)) by (nonlinear_arith)
                    requires
                        x <= y,
                ;
                assert(a0 * a0 == m@ + b0 * b0);
                assert(a0 - b0 == x);
                assert(b0 * b0 >= 1) by (nonlinear_arith)
                    requires
                        b0 >= 1,
                ;
                assert(a0 * a0 >= m@ + 1);
                // The mean stays within the search range.
                assert(a0 <= y);
                assert(3 * y <= m@) by {
                    lemma_mul_inequality(3, x as int, y as int);
                }
                assert(y <= m@ / 3) by {
                    lemma_div_multiples_vanish(y as int, 3);
                    lemma_div_is_ordered(3 * (y as int), m@ as int, 3);
                }
                lemma_div_is_ordered_by_denominator(m@ as int, 2, 3);
                lemma_div_is_ordered(m@ as int, m@ as int + 1, 2);
                assert(a0 <= half@);
                // The search starts at or below the mean.
                if a@ >= 1 && (a@ - 1) * (a@ - 1) == m@ && m@ < a@ * a@ {
                    if a0 < a@ {
                        assert(a0 * a0 <= (a@ - 1) * (a@ - 1)) by (nonlinear_arith)
                            requires
                                a@ >= 1,
                                a0 <= a@ - 1,
                        ;
                        assert(false);
                    }
                } else {
                    if a0 <= a@ {
                        assert(a0 * a0 <= a@ * a@) by (nonlinear_arith)
                            requires
                                a0 <= a@,
                        ;
                        assert(false);
                    }
                }
                assert(a@ <= a0);
            }
        }
        while nat_le(&a, &half)
            invariant
                splittable ==> a@ <= a0,
            decreases half@ + 1 - a@,
        {
            let a_squared = nat_mul(&a, &a);
            if nat_le(m, &a_squared) {
                let b_squared = nat_sub(&a_squared, m);
                let b = nat_isqrt(&b_squared);
                let b_check = nat_mul(&b, &b);
                if nat_eq(&b_check, &b_squared) {
                    proof {
                        assert(b@ < a@) by (nonlinear_arith)
                            requires
                                b@ * b@ == a@ * a@ - m@,
                                m@ >= 3,
                        ;
                    }
                    let factor = nat_sub(&a, &b);
                    if !nat_eq(&factor, &one) {
                        proof {
                            assert(factor@ * (a@ + b@) == m@) by (nonlinear_arith)
                                requires
                                    factor@ == a@ - b@,
                                    b@ <= a@,
                                    b@ * b@ == a@ * a@ - m@,
                            ;
                            assert(a@ + b@ >= 2);
                            assert(m@ % factor@ == 0) by {
                                lemma_mul_is_commutative(factor@ as int, (a@ + b@) as int);
                                lemma_mod_multiples_basic((a@ + b@) as int, factor@ as int);
                            }
                            assert(m@ / factor@ == a@ + b@) by {
                                lemma_div_multiples_vanish((a@ + b@) as int, factor@ as int);
                            }
                            assert(2 * (a@ + b@) <= factor@ * (a@ + b@)) by {
                                lemma_mul_inequality(2, factor@ as int, (a@ + b@) as int);
                                lemma_mul_is_commutative(2, (a@ + b@) as int);
                                lemma_mul_is_commutative(factor@ as int, (a@ + b@) as int);
                            }
                            assert(2 * factor@ <= (a@ + b@) * factor@) by {
                                lemma_mul_inequality(2, (a@ + b@) as int, factor@ as int);
                                lemma_mul_is_commutative(2, factor@ as int);
                                lemma_mul_is_commutative((a@ + b@) as int, factor@ as int);
                            }
                            assert((a@ + b@) * factor@ == m@) by {
                                lemma_mul_is_commutative((a@ + b@) as int, factor@ as int);
                            }
                        }
                        let twin = nat_div(m, &factor);
                        return Ok((factor, twin));
                    } else {
                        proof {
                            // At the mean the hit is the genuine pair,
                            // never the trivial one.
                            if splittable && a@ == a0 {
                                lemma_isqrt_exact(b@, b_squared@, b0);
                                assert(false);
                            }
                        }
                    }
                } else {
                    proof {
                        // At the mean the difference of squares is a
                        // perfect square, so the check succeeds.
                        if splittable && a@ == a0 {
                            lemma_isqrt_exact(b@, b_squared@, b0);
                            assert(false);
                        }
                    }
                }
            } else {
                proof {
                    // At the mean the square dominates the input.
                    if splittable && a@ == a0 {
                        assert(false);
                    }
                }
            }
            a = nat_add(&a, &one);
        }
        proof {
            // The search never passes the mean of a genuine pair.
            if splittable {
                assert(false);
            }
        }
        Err(FactorError::SplitExhausted)
    }
}

impl Factorize for Fermat {
    fn factor(number: Natural) -> (r: Result<Vec<Natural>, FactorError>) {
        decompose(number, &Fermat)
    }
}

} // verus!
