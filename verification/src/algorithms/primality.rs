//! The probabilistic primality oracle: the Miller-Rabin test.

use vstd::prelude::*;

verus! {

use vstd::arithmetic::mul::lemma_mul_is_associative;
use vstd::arithmetic::power::{
    lemma_pow0, lemma_pow1, lemma_pow_adds, lemma_pow_mod_noop, lemma_pow_multiplies,
    lemma_pow_positive, pow,
};
use crate::arith::{
    fresh_rng, nat_add, nat_div, nat_eq, nat_le, nat_pow_mod, nat_random_below, nat_rem, nat_sub,
    Natural,
};
use crate::number_theory::lemma_div_exact;

/// The verdict of one Miller-Rabin run.
#[derive(Clone, Copy, Debug, PartialEq, Eq)]
pub enum MillerRabinResult {
    /// Definitely a composite number.
    Composite,
    /// Probably a prime number.
    ProbablyPrime,
}

/// Writes a positive `n` as `2^s * d` with `d` odd, returning `(s, d)`.
pub fn factor_out_twos(n: &Natural) -> (r: (Natural, Natural))
    requires
        n@ >= 1,
    ensures
        pow(2, r.0@) * r.1@ == n@,
        r.1@ % 2 == 1,
{
    let one = Natural::from_u64(1);
    let two = Natural::from_u64(2);
    let zero = Natural::from_u64(0);
    let mut s = Natural::from_u64(0);
    let mut d = n.clone();
    proof {
        lemma_pow0(2);
    }
    while nat_eq(&nat_rem(&d, &two), &zero)
        invariant
            one@ == 1,
            two@ == 2,
            zero@ == 0,
            d@ >= 1,
            pow(2, s@) * d@ == n@,
        decreases d@,
    {
        let ghost s0 = s@;
        let ghost d0 = d@;
        s = nat_add(&s, &one);
        d = nat_div(&d, &two);
        proof {
            lemma_div_exact(d0, 2);
            assert(pow(2, (s0 + 1) as nat) == 2 * pow(2, s0)) by {
                lemma_pow_adds(2, s0, 1);
                lemma_pow1(2);
            }
            assert(pow(2, (s0 + 1) as nat) * (d0 / 2) == pow(2, s0) * d0) by (nonlinear_arith)
                requires
                    pow(2, (s0 + 1) as nat) == 2 * pow(2, s0),
                    d0 == 2 * (d0 / 2),
            ;
        }
    }
    (s, d)
}

/// Whether one Miller-Rabin round passes for witness `w` on an odd
/// candidate `n` whose predecessor is `2^s * d` with `d` odd: either
/// `w^d` is one modulo `n`, or some `w^(d*2^j)` with `j < s` is
/// `n - 1` modulo `n`.
pub open spec fn round_passes(n: nat, d: nat, s: nat, w: nat) -> bool {
    pow(w as int, d) % (n as int) == 1 || exists|j: nat|
        j < s && #[trigger] (pow(w as int, (d * pow(2, j)) as nat) % (n as int)) == n - 1
}

/// Squaring modulo `n` doubles the power-of-two part of the exponent.
proof fn lemma_round_square_step(n: nat, d: nat, w: nat, j: nat, x: nat)
    requires
        n >= 2,
        x as int == pow(w as int, (d * pow(2, j)) as nat) % (n as int),
    ensures
        pow(x as int, 2) % (n as int) == pow(
            w as int,
            (d * pow(2, (j + 1) as nat)) as nat,
        ) % (n as int),
{
    lemma_pow_positive(2, j);
    let e: nat = (d * pow(2, j)) as nat;
    lemma_pow_mod_noop(pow(w as int, e), 2, n as int);
    lemma_pow_multiplies(w as int, e, 2);
    assert(pow(2, (j + 1) as nat) == pow(2, j) * 2) by {
        lemma_pow_adds(2, j, 1);
        lemma_pow1(2);
    }
    lemma_mul_is_associative(d as int, pow(2, j), 2);
    assert((d * pow(2, (j + 1) as nat)) as nat == e * 2);
}

/// One verified Miller-Rabin round: raises the witness to the odd
/// part, then squares up to `s - 1` times looking for `n - 1`.  The
/// verdict is an exact function of the arguments, so the randomness of
/// the drawn witness stays entirely outside this function.
#[verifier::loop_isolation(false)]
pub fn mr_round(number: &Natural, d: &Natural, s: &Natural, witness: &Natural) -> (passes: bool)
    requires
        number@ >= 3,
        s@ >= 1,
    ensures
        passes == round_passes(number@, d@, s@, witness@),
{
    let one = Natural::from_u64(1);
    let two = Natural::from_u64(2);
    let number_minus_one = nat_sub(number, &one);
    let x0 = nat_pow_mod(witness, d, number);
    proof {
        lemma_pow0(2);
        assert((d@ * pow(2, 0)) as nat == d@);
    }
    if nat_eq(&x0, &one) {
        return true;
    }
    if nat_eq(&x0, &number_minus_one) {
        proof {
            assert(pow(witness@ as int, (d@ * pow(2, 0)) as nat) % (number@ as int) == number@
                - 1);
        }
        return true;
    }
    let exp_minus_one = nat_sub(s, &one);
    let mut x = x0;
    let mut count = Natural::from_u64(0);
    loop
        invariant
            count@ <= exp_minus_one@,
            x@ as int == pow(witness@ as int, (d@ * pow(2, count@)) as nat) % (number@ as int),
            pow(witness@ as int, d@) % (number@ as int) != 1,
            forall|j: nat|
                j <= count@ ==> #[trigger] (pow(witness@ as int, (d@ * pow(2, j)) as nat) % (
                number@ as int)) != number@ - 1,
        decreases exp_minus_one@ - count@,
    {
        if nat_le(&exp_minus_one, &count) {
            proof {
                assert forall|j: nat|
                    j < s@ implies #[trigger] (pow(witness@ as int, (d@ * pow(2, j)) as nat) % (
                number@ as int)) != number@ - 1 by {
                    assert(j <= count@);
                }
            }
            return false;
        }
        let ghost c0 = count@;
        let ghost x_prev = x@;
        x = nat_pow_mod(&x, &two, number);
        count = nat_add(&count, &one);
        proof {
            lemma_round_square_step(number@, d@, witness@, c0, x_prev);
        }
        if nat_eq(&x, &number_minus_one) {
            proof {
                assert(count@ < s@);
                assert(pow(witness@ as int, (d@ * pow(2, count@)) as nat) % (number@ as int)
                    == number@ - 1);
            }
            return true;
        }
    }
}

/// The Miller-Rabin probabilistic primality test.
///
/// Two and three are probably prime; values below two and even values
/// other than two are composite; with no rounds to run, an odd
/// candidate of at least five is probably prime.  Otherwise the
/// verdict hangs on the randomly drawn witnesses, each judged by the
/// exact [`mr_round`]: a `Composite` answer owes, and the contract
/// exhibits, a decomposition `n - 1 == 2^s * d` and an admissible
/// witness whose round failed.  A prime in fact passes every round
/// whatever witness is drawn — so a `Composite` answer is definitive
/// and `ProbablyPrime` carries a false-positive chance of at most
/// `4^-iterations` — but that rests on Fermat's little theorem and
/// the absence of nontrivial square roots of one modulo a prime,
/// which this crate records in prose only.
#[verifier::loop_isolation(false)]
pub fn miller_rabin(number: &Natural, iterations: u32) -> (r: MillerRabinResult)
    ensures
        number@ == 2 || number@ == 3 ==> r == MillerRabinResult::ProbablyPrime,
        number@ < 2 ==> r == MillerRabinResult::Composite,
        number@ % 2 == 0 && number@ != 2 ==> r == MillerRabinResult::Composite,
        number@ % 2 == 1 && number@ >= 5 && iterations == 0 ==> r
            == MillerRabinResult::ProbablyPrime,
        number@ % 2 == 1 && number@ >= 5 && r == MillerRabinResult::Composite
            ==> exists|s: nat, d: nat, w: nat|
            pow(2, s) * d == number@ - 1 && d % 2 == 1 && 2 <= w <= number@ - 2 && !(
            #[trigger] round_passes(number@, d, s, w)),
{
    let two = Natural::from_u64(2);
    let three = Natural::from_u64(3);
    if nat_eq(number, &two) || nat_eq(number, &three) {
        return MillerRabinResult::ProbablyPrime;
    }
    let zero = Natural::from_u64(0);
    let remainder = nat_rem(number, &two);
    if nat_eq(&remainder, &zero) || !nat_le(&three, number) {
        return MillerRabinResult::Composite;
    }
    assert(number@ >= 5);
    let one = Natural::from_u64(1);
    let number_minus_one = nat_sub(number, &one);
    let number_minus_three = nat_sub(number, &three);
    let (exponent, scalar) = factor_out_twos(&number_minus_one);
    proof {
        if exponent@ == 0 {
            lemma_pow0(2);
            assert(scalar@ == number@ - 1);
            assert(false);
        }
    }
    let mut rng = fresh_rng();
    let mut round: u32 = 0;
    while round < iterations
        decreases iterations - round,
    {
        let w0 = nat_random_below(&number_minus_three, &mut rng);
        let witness = nat_add(&w0, &two);
        if !mr_round(number, &scalar, &exponent, &witness) {
            proof {
                assert(pow(2, exponent@) * scalar@ == number@ - 1 && scalar@ % 2 == 1 && 2
                    <= witness@ <= number@ - 2 && !round_passes(
                    number@,
                    scalar@,
                    exponent@,
                    witness@,
                ));
            }
            return MillerRabinResult::Composite;
        }
        round = round + 1;
    }
    MillerRabinResult::ProbablyPrime
}

} // verus!
