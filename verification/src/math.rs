//! A self-contained trial division over machine-width integers.

use vstd::prelude::*;

verus! {

use vstd::arithmetic::div_mod::lemma_mod_multiples_basic;
use crate::number_theory::{is_prime, lemma_div_exact, lemma_divides_trans, lemma_even_divisor};

/// The product of a sequence of machine-width factors, as a natural.
pub open spec fn product_u128(s: Seq<u128>) -> nat
    decreases s.len(),
{
    if s.len() == 0 {
        1
    } else {
        (s[0] as nat) * product_u128(s.drop_first())
    }
}

#[verifier::spinoff_prover]
#[verifier::rlimit(50)]
proof fn lemma_product_u128_push(s: Seq<u128>, x: u128)
    ensures
        product_u128(s.push(x)) == product_u128(s) * x,
    decreases s.len(),
{
    let p = s.push(x);
    if s.len() == 0 {
        assert(p.drop_first() =~= Seq::<u128>::empty());
        assert(product_u128(p.drop_first()) == 1);
        assert(p[0] == x);
        assert(product_u128(p) == (p[0] as nat) * product_u128(p.drop_first()));
        assert(product_u128(s) == 1);
        assert(product_u128(s.push(x)) == product_u128(s) * x);
    } else {
        assert(p.drop_first() =~= s.drop_first().push(x));
        lemma_product_u128_push(s.drop_first(), x);
        assert(product_u128(p.drop_first()) == product_u128(s.drop_first()) * x);
        assert(p[0] == s[0]);
        assert(product_u128(p) == (p[0] as nat) * product_u128(p.drop_first()));
        assert(product_u128(s) == (s[0] as nat) * product_u128(s.drop_first()));
        assert(product_u128(p) == product_u128(s) * x) by (nonlinear_arith)
            requires
                product_u128(p) == (s[0] as nat) * product_u128(p.drop_first()),
                product_u128(p.drop_first()) == product_u128(s.drop_first()) * x,
                product_u128(s) == (s[0] as nat) * product_u128(s.drop_first()),
        ;
        assert(product_u128(s.push(x)) == product_u128(s) * x);
    }
}

/// Factors a machine-width integer by dividing out the candidates
/// 2, 3, 5, 7, ... in turn; zero yields no factors, and otherwise the
/// product of the ascending factors restores the input.
#[verifier::loop_isolation(false)]
pub fn trial_division(n: u128) -> (factors: Vec<u128>)
    ensures
        n == 0 ==> factors@.len() == 0,
        n >= 1 ==> product_u128(factors@) == n,
        forall|i: int| 0 <= i < factors@.len() ==> #[trigger] factors@[i] >= 2,
        forall|i: int| 0 <= i < factors@.len() ==> is_prime(#[trigger] factors@[i] as nat),
        forall|i: int, j: int|
            #![trigger factors@[i], factors@[j]]
            0 <= i < j < factors@.len() ==> factors@[i] <= factors@[j],
{
    let mut factors: Vec<u128> = Vec::new();
    if n == 0 {
        return factors;
    }
    let mut m = n;
    let mut candidate: u128 = 2;
    proof {
        assert(factors@ =~= Seq::<u128>::empty());
        assert(product_u128(factors@) == 1);
    }
    while m > 1
        invariant
            m >= 1,
            candidate >= 2,
            candidate == 2 || candidate % 2 == 1,
            product_u128(factors@) * m == n,
            forall|i: int| 0 <= i < factors@.len() ==> #[trigger] factors@[i] >= 2,
            forall|i: int| 0 <= i < factors@.len() ==> is_prime(#[trigger] factors@[i] as nat),
            forall|i: int| 0 <= i < factors@.len() ==> #[trigger] factors@[i] <= candidate,
            forall|i: int, j: int|
                #![trigger factors@[i], factors@[j]]
                0 <= i < j < factors@.len() ==> factors@[i] <= factors@[j],
            forall|d: nat| 2 <= d < candidate ==> #[trigger] ((m as nat) % d) != 0,
            m == 1 || candidate <= m,
        decreases (if m <= 1 { 0int } else { m + 2 - candidate }),
    {
        let ghost m_enter = m;
        while m % candidate == 0
            invariant
                m >= 1,
                m <= m_enter,
                product_u128(factors@) * m == n,
                forall|i: int| 0 <= i < factors@.len() ==> #[trigger] factors@[i] >= 2,
                forall|i: int| 0 <= i < factors@.len() ==> is_prime(#[trigger] factors@[i] as nat),
                forall|i: int| 0 <= i < factors@.len() ==> #[trigger] factors@[i] <= candidate,
                forall|i: int, j: int|
                    #![trigger factors@[i], factors@[j]]
                    0 <= i < j < factors@.len() ==> factors@[i] <= factors@[j],
                forall|d: nat| 2 <= d < candidate ==> #[trigger] ((m as nat) % d) != 0,
            decreases m,
        {
            let ghost f0 = factors@;
            let ghost m0 = m as nat;
            factors.push(candidate);
            m = m / candidate;
            proof {
                lemma_div_exact(m0, candidate as nat);
                vstd::arithmetic::div_mod::lemma_div_is_strictly_smaller(
                    m0 as int,
                    candidate as int,
                );
                if m == 0 {
                    assert(m0 == (candidate as nat) * 0);
                    assert(false);
                }
                lemma_product_u128_push(f0, candidate);
                assert(product_u128(factors@) * m == n) by (nonlinear_arith)
                    requires
                        product_u128(f0) * m0 == n,
                        product_u128(factors@) == product_u128(f0) * candidate,
                        m0 == (candidate as nat) * (m as nat),
                ;
                assert forall|d: nat| 2 <= d < candidate implies #[trigger] ((m as nat) % d)
                    != 0 by {
                    if (m as nat) % d == 0 {
                        lemma_div_exact(m as nat, d);
                        assert(m0 == d * ((candidate as nat) * ((m as nat) / d)))
                            by (nonlinear_arith)
                            requires
                                m0 == (candidate as nat) * (m as nat),
                                (m as nat) == d * ((m as nat) / d),
                        ;
                        vstd::arithmetic::mul::lemma_mul_is_commutative(
                            d as int,
                            ((candidate as nat) * ((m as nat) / d)) as int,
                        );
                        lemma_mod_multiples_basic(
                            ((candidate as nat) * ((m as nat) / d)) as int,
                            d as int,
                        );
                    }
                }
                // The pushed candidate is prime: a smaller divisor of
                // it would also divide the quotient it was taken from.
                assert(is_prime(candidate as nat)) by {
                    assert forall|d: nat| 2 <= d < candidate implies #[trigger] ((
                    candidate as nat) % d) != 0 by {
                        if (candidate as nat) % d == 0 {
                            lemma_divides_trans(m0, candidate as nat, d);
                        }
                    }
                }
                assert forall|i: int, j: int|
                    #![trigger factors@[i], factors@[j]]
                    0 <= i < j < factors@.len() implies factors@[i] <= factors@[j] by {
                    if j == factors@.len() - 1 {
                        assert(factors@[i] == f0[i]);
                    }
                }
            }
        }
        if m > 1 {
            let ghost c0 = candidate as nat;
            proof {
                // The quotient is above one, so it divides itself and
                // the candidate stands strictly below it; the next
                // candidate therefore stays in range.
                lemma_mod_multiples_basic(1, m as int);
                assert((m as nat) % (m as nat) == 0);
                assert(candidate < m);
            }
            candidate = if candidate == 2 {
                3
            } else {
                candidate + 2
            };
            proof {
                assert forall|d: nat| 2 <= d < candidate implies #[trigger] ((m as nat) % d)
                    != 0 by {
                    if d >= c0 && (m as nat) % d == 0 {
                        assert(d == c0 || d == c0 + 1);
                        if d == c0 + 1 && c0 != 2 {
                            assert(d % 2 == 0);
                            lemma_even_divisor(m as nat, d);
                            assert((m as nat) % 2 == 0);
                        }
                    }
                }
                if candidate > m {
                    lemma_mod_multiples_basic(1, m as int);
                    assert((m as nat) % (m as nat) == 0);
                    assert(false);
                }
            }
        }
    }
    factors
}

} // verus!
