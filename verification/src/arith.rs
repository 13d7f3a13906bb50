//! Arbitrary-precision natural numbers.
//!
//! The algorithms in this crate reason about unbounded naturals.  A
//! [`Natural`] stores such a number as base-2^32 limbs, least
//! significant first, and its mathematical value is the spec function
//! [`nat_of`] over the limbs.  The arithmetic itself (addition through
//! modular exponentiation, square roots and random sampling) is
//! delegated to the `num-bigint` arbitrary-precision library through a
//! small set of trusted wrappers whose contracts state the exact value
//! of each result.

use vstd::prelude::*;

verus! {

/// The weight of one limb: 2^32.
pub open spec fn limb_base() -> nat {
    0x1_0000_0000
}

/// The value of a little-endian sequence of base-2^32 limbs.
pub open spec fn nat_of(s: Seq<u32>) -> nat
    decreases s.len(),
{
    if s.len() == 0 {
        0
    } else {
        (s[0] as nat) + nat_of(s.drop_first()) * limb_base()
    }
}

/// An unbounded natural number, stored as base-2^32 limbs, least
/// significant limb first.  Every operation of this crate stores the
/// limbs in canonical form, without a trailing zero limb, so between
/// such values the derived equality agrees with value equality.
#[derive(Debug, PartialEq, Eq)]
pub struct Natural {
    limbs: Vec<u32>,
}

impl View for Natural {
    type V = nat;

    closed spec fn view(&self) -> nat {
        nat_of(self.limbs@)
    }
}

/// A sequence of all-zero limbs denotes zero.
proof fn lemma_nat_of_all_zero(s: Seq<u32>)
    requires
        forall|i: int| 0 <= i < s.len() ==> s[i] == 0,
    ensures
        nat_of(s) == 0,
    decreases s.len(),
{
    if s.len() > 0 {
        lemma_nat_of_all_zero(s.drop_first());
    }
}

/// A sequence with a nonzero limb denotes a positive value.
proof fn lemma_nat_of_nonzero(s: Seq<u32>, i: int)
    requires
        0 <= i < s.len(),
        s[i] != 0,
    ensures
        nat_of(s) >= 1,
    decreases s.len(),
{
    if i > 0 {
        lemma_nat_of_nonzero(s.drop_first(), i - 1);
    }
}

/// A nonzero limb at the third position or beyond pushes the value
/// past one machine word.
proof fn lemma_nat_of_nonzero_high(s: Seq<u32>, i: int)
    requires
        2 <= i < s.len(),
        s[i] != 0,
    ensures
        nat_of(s) > u64::MAX,
{
    let rest = s.drop_first();
    let rest2 = rest.drop_first();
    lemma_nat_of_nonzero(rest2, i - 2);
    assert(nat_of(rest) == (rest[0] as nat) + nat_of(rest2) * limb_base());
    assert(nat_of(rest) >= limb_base());
}

/// Dropping a zero limb from the most significant end keeps the value.
proof fn lemma_nat_of_drop_last_zero(s: Seq<u32>)
    requires
        s.len() >= 1,
        s[s.len() - 1] == 0,
    ensures
        nat_of(s.drop_last()) == nat_of(s),
    decreases s.len(),
{
    if s.len() == 1 {
        assert(s.drop_last() =~= Seq::<u32>::empty());
        assert(s.drop_first() =~= Seq::<u32>::empty());
    } else {
        lemma_nat_of_drop_last_zero(s.drop_first());
        assert(s.drop_last().drop_first() =~= s.drop_first().drop_last());
        assert(nat_of(s) == (s[0] as nat) + nat_of(s.drop_first()) * limb_base());
        assert(nat_of(s.drop_last()) == (s[0] as nat) + nat_of(s.drop_last().drop_first())
            * limb_base());
    }
}

/// Only the first two limbs contribute when the rest are zero.
proof fn lemma_nat_of_low(s: Seq<u32>)
    requires
        forall|i: int| 2 <= i < s.len() ==> s[i] == 0,
        s.len() >= 2,
    ensures
        nat_of(s) == (s[0] as nat) + (s[1] as nat) * limb_base(),
{
    let rest = s.drop_first();
    let rest2 = rest.drop_first();
    lemma_nat_of_all_zero(rest2);
    assert(nat_of(rest) == (rest[0] as nat) + nat_of(rest2) * limb_base());
}

impl Natural {
    /// Embeds a machine word.
    pub fn from_u64(x: u64) -> (r: Natural)
        ensures
            r@ == x,
    {
        let low = (x % 0x1_0000_0000) as u32;
        let high = (x / 0x1_0000_0000) as u32;
        proof {
            vstd::arithmetic::div_mod::lemma_fundamental_div_mod(x as int, 0x1_0000_0000);
        }
        let mut limbs: Vec<u32> = Vec::new();
        if high > 0 {
            limbs.push(low);
            limbs.push(high);
            proof {
                reveal_with_fuel(nat_of, 3);
                assert(limbs@.drop_first() =~= seq![high]);
                assert(seq![high].drop_first() =~= Seq::<u32>::empty());
            }
        } else if low > 0 {
            limbs.push(low);
            proof {
                reveal_with_fuel(nat_of, 2);
                assert(limbs@.drop_first() =~= Seq::<u32>::empty());
            }
        }
        Natural { limbs }
    }

    /// Rebuilds a value from its little-endian base-2^32 limbs; zero
    /// limbs at the most significant end are dropped, so the stored
    /// form is canonical whatever is handed in.
    pub fn from_limbs(limbs: Vec<u32>) -> (r: Natural)
        ensures
            r@ == nat_of(limbs@),
    {
        let ghost given = limbs@;
        let mut limbs = limbs;
        while limbs.len() > 0 && limbs[limbs.len() - 1] == 0
            invariant
                nat_of(limbs@) == nat_of(given),
            decreases limbs@.len(),
        {
            let ghost before = limbs@;
            limbs.pop();
            proof {
                assert(limbs@ =~= before.drop_last());
                lemma_nat_of_drop_last_zero(before);
            }
        }
        Natural { limbs }
    }

    /// Surrenders the little-endian base-2^32 limbs of the value.
    pub fn into_limbs(self) -> (r: Vec<u32>)
        ensures
            nat_of(r@) == self@,
    {
        self.limbs
    }

    /// Extracts the value if it fits in one machine word.
    pub fn to_u64(&self) -> (r: Option<u64>)
        ensures
            r matches Some(x) ==> self@ == x,
            r is None ==> self@ > u64::MAX,
    {
        let mut i: usize = 2;
        while i < self.limbs.len()
            invariant
                2 <= i,
                forall|j: int| 2 <= j < i ==> self.limbs@[j] == 0,
            decreases self.limbs.len() - i,
        {
            if self.limbs[i] != 0 {
                proof {
                    lemma_nat_of_nonzero_high(self.limbs@, i as int);
                }
                return None;
            }
            i += 1;
        }
        if self.limbs.len() == 0 {
            Some(0)
        } else if self.limbs.len() == 1 {
            proof {
                lemma_nat_of_all_zero(self.limbs@.drop_first());
            }
            Some(self.limbs[0] as u64)
        } else {
            proof {
                lemma_nat_of_low(self.limbs@);
            }
            Some(self.limbs[0] as u64 + (self.limbs[1] as u64) * 0x1_0000_0000)
        }
    }
}

impl Clone for Natural {
    fn clone(&self) -> (r: Natural)
        ensures
            r@ == self@,
    {
        Natural { limbs: vstd::slice::slice_to_vec(self.limbs.as_slice()) }
    }
}

#[verifier::external_type_specification]
#[verifier::external_body]
pub struct ExThreadRng(rand::rngs::ThreadRng);

/// Relies on `num_bigint::BigUint`'s `+`: exact addition of
/// arbitrary-precision naturals.
#[verifier::external_body]
pub(crate) fn nat_add(a: &Natural, b: &Natural) -> (r: Natural)
    ensures
        r@ == a@ + b@,
{
    let x = num_bigint::BigUint::from_slice(&a.limbs);
    let y = num_bigint::BigUint::from_slice(&b.limbs);
    Natural { limbs: (x + y).to_u32_digits() }
}

/// Relies on `num_bigint::BigUint`'s `-`: exact subtraction; the
/// precondition keeps the difference a natural number.
#[verifier::external_body]
pub(crate) fn nat_sub(a: &Natural, b: &Natural) -> (r: Natural)
    requires
        b@ <= a@,
    ensures
        r@ == a@ - b@,
{
    let x = num_bigint::BigUint::from_slice(&a.limbs);
    let y = num_bigint::BigUint::from_slice(&b.limbs);
    Natural { limbs: (x - y).to_u32_digits() }
}

/// Relies on `num_bigint::BigUint`'s `*`: exact multiplication.
#[verifier::external_body]
pub(crate) fn nat_mul(a: &Natural, b: &Natural) -> (r: Natural)
    ensures
        r@ == a@ * b@,
{
    let x = num_bigint::BigUint::from_slice(&a.limbs);
    let y = num_bigint::BigUint::from_slice(&b.limbs);
    Natural { limbs: (x * y).to_u32_digits() }
}

/// Relies on `num_bigint::BigUint`'s `/`: floor division.
#[verifier::external_body]
pub(crate) fn nat_div(a: &Natural, b: &Natural) -> (r: Natural)
    requires
        b@ >= 1,
    ensures
        r@ == a@ / b@,
{
    let x = num_bigint::BigUint::from_slice(&a.limbs);
    let y = num_bigint::BigUint::from_slice(&b.limbs);
    Natural { limbs: (x / y).to_u32_digits() }
}

/// Relies on `num_bigint::BigUint`'s `%`: the Euclidean remainder.
#[verifier::external_body]
pub(crate) fn nat_rem(a: &Natural, b: &Natural) -> (r: Natural)
    requires
        b@ >= 1,
    ensures
        r@ == a@ % b@,
{
    let x = num_bigint::BigUint::from_slice(&a.limbs);
    let y = num_bigint::BigUint::from_slice(&b.limbs);
    Natural { limbs: (x % y).to_u32_digits() }
}

/// Relies on `num_bigint::BigUint`'s `==`: value equality.
#[verifier::external_body]
pub(crate) fn nat_eq(a: &Natural, b: &Natural) -> (r: bool)
    ensures
        r <==> a@ == b@,
{
    let x = num_bigint::BigUint::from_slice(&a.limbs);
    let y = num_bigint::BigUint::from_slice(&b.limbs);
    x == y
}

/// Relies on `num_bigint::BigUint`'s `<=`: value comparison.
#[verifier::external_body]
pub(crate) fn nat_le(a: &Natural, b: &Natural) -> (r: bool)
    ensures
        r <==> a@ <= b@,
{
    let x = num_bigint::BigUint::from_slice(&a.limbs);
    let y = num_bigint::BigUint::from_slice(&b.limbs);
    x <= y
}

/// Relies on `num_bigint::BigUint::modpow`: exact modular
/// exponentiation with a result in `[0, modulus)`; it panics only on a
/// zero modulus, which the precondition rules out.
#[verifier::external_body]
pub(crate) fn nat_pow_mod(base: &Natural, exponent: &Natural, modulus: &Natural) -> (r: Natural)
    requires
        modulus@ >= 1,
    ensures
        r@ == vstd::arithmetic::power::pow(base@ as int, exponent@) % (modulus@ as int),
{
    let b = num_bigint::BigUint::from_slice(&base.limbs);
    let e = num_bigint::BigUint::from_slice(&exponent.limbs);
    let m = num_bigint::BigUint::from_slice(&modulus.limbs);
    Natural { limbs: b.modpow(&e, &m).to_u32_digits() }
}

/// Relies on `num_integer::Roots::sqrt` for `BigUint`: the truncated
/// integer square root.
#[verifier::external_body]
pub(crate) fn nat_isqrt(a: &Natural) -> (r: Natural)
    ensures
        r@ * r@ <= a@ < (r@ + 1) * (r@ + 1),
{
    let x = num_bigint::BigUint::from_slice(&a.limbs);
    Natural { limbs: num_integer::Roots::sqrt(&x).to_u32_digits() }
}

/// Relies on `rand::thread_rng`: a handle to a seeded random-number
/// generator.
#[verifier::external_body]
pub(crate) fn fresh_rng() -> rand::rngs::ThreadRng {
    rand::thread_rng()
}

/// Relies on `num_bigint::RandBigInt::gen_biguint_below`: a uniformly
/// random value in `[0, bound)`; it panics on a zero bound, which the
/// precondition rules out.  Nothing beyond the range is promised, so
/// callers hold for every value the generator may produce.
#[verifier::external_body]
pub(crate) fn nat_random_below(bound: &Natural, rng: &mut rand::rngs::ThreadRng) -> (r: Natural)
    requires
        bound@ >= 1,
    ensures
        r@ < bound@,
{
    let b = num_bigint::BigUint::from_slice(&bound.limbs);
    Natural { limbs: num_bigint::RandBigInt::gen_biguint_below(rng, &b).to_u32_digits() }
}

} // verus!
