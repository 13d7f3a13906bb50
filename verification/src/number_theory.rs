//! The ghost model shared by the factorization strategies: primality,
//! the greatest common divisor, and products and sums over sequences of
//! factors, together with the lemmas the strategies' proofs rest on.

use vstd::prelude::*;

verus! {

use vstd::arithmetic::div_mod::lemma_fundamental_div_mod;
use vstd::arithmetic::div_mod::lemma_mod_multiples_basic;
use vstd::arithmetic::mul::lemma_mul_inequality;
use vstd::arithmetic::mul::lemma_mul_is_associative;
use vstd::arithmetic::mul::lemma_mul_is_commutative;
use vstd::arithmetic::power::{lemma_pow0, lemma_pow1, lemma_pow_adds, lemma_pow_positive, pow};
use crate::arith::Natural;

/// A prime has no divisor strictly between 1 and itself.
pub open spec fn is_prime(n: nat) -> bool {
    n >= 2 && forall|d: nat| 2 <= d < n ==> #[trigger] (n % d) != 0
}

/// Whether `n` is a power of two (one included).
pub open spec fn is_pow2(n: nat) -> bool {
    exists|k: nat| n == #[trigger] pow(2, k)
}

/// One is a power of two.
pub proof fn lemma_pow2_one()
    ensures
        is_pow2(1),
{
    lemma_pow0(2);
    assert(1nat == pow(2, 0));
}

/// An even power of two halves to a power of two.
pub proof fn lemma_pow2_even_halves(n: nat)
    requires
        is_pow2(n),
        n % 2 == 0,
    ensures
        n >= 2,
        is_pow2((n / 2) as nat),
{
    let k = choose|k: nat| n == pow(2, k);
    lemma_pow_positive(2, k);
    if k == 0 {
        lemma_pow0(2);
        assert(false);
    }
    assert(pow(2, k) == 2 * pow(2, (k - 1) as nat)) by {
        lemma_pow_adds(2, (k - 1) as nat, 1);
        lemma_pow1(2);
    }
    lemma_pow_positive(2, (k - 1) as nat);
    assert(n / 2 == pow(2, (k - 1) as nat)) by {
        vstd::arithmetic::div_mod::lemma_div_multiples_vanish(
            pow(2, (k - 1) as nat),
            2,
        );
    }
}

/// An odd power of two can only be one.
pub proof fn lemma_pow2_odd_is_one(n: nat)
    requires
        is_pow2(n),
        n % 2 == 1,
    ensures
        n == 1,
{
    let k = choose|k: nat| n == pow(2, k);
    if k == 0 {
        lemma_pow0(2);
    } else {
        assert(pow(2, k) == 2 * pow(2, (k - 1) as nat)) by {
            lemma_pow_adds(2, (k - 1) as nat, 1);
            lemma_pow1(2);
        }
        lemma_pow_positive(2, (k - 1) as nat);
        lemma_mul_is_commutative(2, pow(2, (k - 1) as nat));
        lemma_mod_multiples_basic(pow(2, (k - 1) as nat), 2);
        assert(false);
    }
}

/// The greatest common divisor, by Euclid's recurrence.
pub open spec fn spec_gcd(a: nat, b: nat) -> nat
    decreases b,
{
    if b == 0 {
        a
    } else {
        spec_gcd(b, a % b)
    }
}

/// The product of the values of a sequence of naturals; one, when the
/// sequence is empty.
pub open spec fn seq_product(s: Seq<Natural>) -> nat
    decreases s.len(),
{
    if s.len() == 0 {
        1
    } else {
        s[0]@ * seq_product(s.drop_first())
    }
}

/// The sum of the values of a sequence of naturals.
pub open spec fn seq_sum(s: Seq<Natural>) -> nat
    decreases s.len(),
{
    if s.len() == 0 {
        0
    } else {
        s[0]@ + seq_sum(s.drop_first())
    }
}

/// Appending a factor multiplies the product by it.
pub proof fn lemma_product_push(s: Seq<Natural>, x: Natural)
    ensures
        seq_product(s.push(x)) == seq_product(s) * x@,
    decreases s.len(),
{
    let p = s.push(x);
    assert(p.len() == s.len() + 1);
    if s.len() == 0 {
        assert(p.drop_first() =~= Seq::<Natural>::empty());
        assert(seq_product(p.drop_first()) == 1);
        assert(p[0] == x);
        assert(seq_product(p) == p[0]@ * seq_product(p.drop_first()));
        assert(seq_product(s) == 1);
    } else {
        assert(p.drop_first() =~= s.drop_first().push(x));
        lemma_product_push(s.drop_first(), x);
        assert(seq_product(p.drop_first()) == seq_product(s.drop_first()) * x@);
        assert(p[0] == s[0]);
        assert(seq_product(p) == p[0]@ * seq_product(p.drop_first()));
        assert(seq_product(s) == s[0]@ * seq_product(s.drop_first()));
        lemma_mul_is_associative(s[0]@ as int, seq_product(s.drop_first()) as int, x@ as int);
    }
}

/// Appending a value adds it to the sum.
pub proof fn lemma_sum_push(s: Seq<Natural>, x: Natural)
    ensures
        seq_sum(s.push(x)) == seq_sum(s) + x@,
    decreases s.len(),
{
    let p = s.push(x);
    if s.len() == 0 {
        assert(p.drop_first() =~= Seq::<Natural>::empty());
        assert(seq_sum(p.drop_first()) == 0);
        assert(seq_sum(p) == p[0]@ + seq_sum(p.drop_first()));
        assert(seq_sum(s) == 0);
    } else {
        assert(p.drop_first() =~= s.drop_first().push(x));
        lemma_sum_push(s.drop_first(), x);
        assert(seq_sum(p) == p[0]@ + seq_sum(p.drop_first()));
        assert(seq_sum(s) == s[0]@ + seq_sum(s.drop_first()));
    }
}

/// A product of positive values is positive.
pub proof fn lemma_product_positive(s: Seq<Natural>)
    requires
        forall|i: int| 0 <= i < s.len() ==> #[trigger] s[i]@ >= 1,
    ensures
        seq_product(s) >= 1,
    decreases s.len(),
{
    if s.len() > 0 {
        lemma_product_positive(s.drop_first());
        assert(seq_product(s) == s[0]@ * seq_product(s.drop_first()));
        assert(s[0]@ * seq_product(s.drop_first()) >= 1) by (nonlinear_arith)
            requires
                s[0]@ >= 1,
                seq_product(s.drop_first()) >= 1,
        ;
    }
}

/// An exact division: a vanishing remainder makes the quotient a true
/// cofactor.
pub proof fn lemma_div_exact(m: nat, d: nat)
    requires
        d >= 1,
        m % d == 0,
    ensures
        m == d * (m / d),
{
    lemma_fundamental_div_mod(m as int, d as int);
}

/// A divisor of a positive number is at most that number.
pub proof fn lemma_divisor_le(m: nat, d: nat)
    requires
        d >= 1,
        m >= 1,
        m % d == 0,
    ensures
        d <= m,
{
    lemma_div_exact(m, d);
    let k = m / d;
    if k == 0 {
        assert(m == d * 0);
        assert(false);
    }
    lemma_mul_inequality(1, k as int, d as int);
    lemma_mul_is_commutative(k as int, d as int);
}

/// A nontrivial divisor has a nontrivial cofactor.
pub proof fn lemma_nontrivial_divisor(m: nat, d: nat)
    requires
        2 <= d < m,
        m % d == 0,
    ensures
        m == d * (m / d),
        2 <= m / d < m,
{
    lemma_div_exact(m, d);
    let k = m / d;
    if k == 0 {
        assert(m == d * 0);
        assert(false);
    }
    assert(k != 1);
    assert(2 * k <= d * k) by {
        lemma_mul_inequality(2, d as int, k as int);
        lemma_mul_is_commutative(2, k as int);
        lemma_mul_is_commutative(d as int, k as int);
    }
}

/// Whether `n` is a perfect square.
pub open spec fn is_square(n: nat) -> bool {
    exists|t: nat| n == #[trigger] (t * t)
}

/// The truncated integer square root of a perfect square recovers the
/// root exactly.
pub proof fn lemma_isqrt_exact(r: nat, v: nat, t: nat)
    requires
        r * r <= v,
        v < (r + 1) * (r + 1),
        t * t == v,
    ensures
        r == t,
{
    if t < r {
        assert(t * t < r * r) by (nonlinear_arith)
            requires
                t < r,
        ;
    } else if t > r {
        assert(v < t * t) by (nonlinear_arith)
            requires
                v < (r + 1) * (r + 1),
                r + 1 <= t,
        ;
    }
}

/// An odd composite that is no perfect square splits into two distinct
/// odd factors, both at least three.
pub proof fn lemma_odd_nonsquare_composite_split(m: nat)
    requires
        m >= 3,
        m % 2 == 1,
        !is_prime(m),
        !is_square(m),
    ensures
        exists|x: nat, y: nat|
            3 <= x < y && #[trigger] (x * y) == m && x % 2 == 1 && y % 2 == 1,
{
    let d = choose|d: nat| 2 <= d < m && #[trigger] (m % d) == 0;
    lemma_nontrivial_divisor(m, d);
    let e = m / d;
    lemma_odd_factors(m, d, e);
    if d == e {
        assert(m == d * d);
        assert(is_square(m));
        assert(false);
    }
    if d < e {
        assert(3 <= d < e && d * e == m && d % 2 == 1 && e % 2 == 1);
    } else {
        lemma_mul_is_commutative(d as int, e as int);
        assert(3 <= e < d && e * d == m && e % 2 == 1 && d % 2 == 1);
    }
}

/// Divisibility is transitive: a divisor of a divisor divides.
pub proof fn lemma_divides_trans(m: nat, c: nat, d: nat)
    requires
        c >= 1,
        d >= 1,
        m % c == 0,
        c % d == 0,
    ensures
        m % d == 0,
{
    lemma_div_exact(m, c);
    lemma_div_exact(c, d);
    assert(m == d * ((c / d) * (m / c))) by (nonlinear_arith)
        requires
            m == c * (m / c),
            c == d * (c / d),
    ;
    lemma_mul_is_commutative(d as int, ((c / d) * (m / c)) as int);
    lemma_mod_multiples_basic(((c / d) * (m / c)) as int, d as int);
}

/// The gcd of two naturals, the second positive, is positive and
/// divides both.
pub proof fn lemma_gcd_divides(a: nat, b: nat)
    requires
        b >= 1,
    ensures
        spec_gcd(a, b) >= 1,
        a % spec_gcd(a, b) == 0,
        b % spec_gcd(a, b) == 0,
    decreases b,
{
    let g = spec_gcd(a, b);
    let r = a % b;
    lemma_fundamental_div_mod(a as int, b as int);
    assert(g == spec_gcd(b, r));
    if r == 0 {
        assert(spec_gcd(b, 0) == b);
        assert(b % b == 0) by {
            lemma_mod_multiples_basic(1, b as int);
        }
    } else {
        lemma_gcd_divides(b, r);
        lemma_div_exact(b, g);
        lemma_div_exact(r, g);
        let x = (b / g) * (a / b) + r / g;
        assert(a == g * x) by (nonlinear_arith)
            requires
                a == b * (a / b) + r,
                b == g * (b / g),
                r == g * (r / g),
                x == (b / g) * (a / b) + r / g,
        ;
        assert(a % g == 0) by {
            lemma_mul_is_commutative(g as int, x as int);
            lemma_mod_multiples_basic(x as int, g as int);
        }
    }
}

/// An odd number only has odd factorizations.
pub proof fn lemma_odd_factors(m: nat, a: nat, b: nat)
    requires
        m % 2 == 1,
        a * b == m,
    ensures
        a % 2 == 1,
        b % 2 == 1,
{
    lemma_mul_is_commutative(a as int, b as int);
    if a % 2 == 0 {
        lemma_div_exact(a, 2);
        assert(m == 2 * ((a / 2) * b)) by {
            lemma_mul_is_associative(2, (a / 2) as int, b as int);
        }
        lemma_mul_is_commutative(2, ((a / 2) * b) as int);
        lemma_mod_multiples_basic(((a / 2) * b) as int, 2);
    }
    if b % 2 == 0 {
        lemma_div_exact(b, 2);
        assert(m == 2 * ((b / 2) * a)) by {
            lemma_mul_is_associative(2, (b / 2) as int, a as int);
        }
        lemma_mul_is_commutative(2, ((b / 2) * a) as int);
        lemma_mod_multiples_basic(((b / 2) * a) as int, 2);
    }
}

/// Any number with an even divisor is even.
pub proof fn lemma_even_divisor(m: nat, d: nat)
    requires
        d >= 1,
        d % 2 == 0,
        m % d == 0,
    ensures
        m % 2 == 0,
{
    lemma_div_exact(m, d);
    lemma_div_exact(d, 2);
    assert(m == 2 * ((d / 2) * (m / d))) by {
        lemma_mul_is_associative(2, (d / 2) as int, (m / d) as int);
    }
    lemma_mul_is_commutative(2, ((d / 2) * (m / d)) as int);
    lemma_mod_multiples_basic(((d / 2) * (m / d)) as int, 2);
}

/// A multiset of factors, each at least two, whose product is prime
/// can only be that prime alone.
pub proof fn lemma_prime_product_singleton(s: Seq<Natural>, n: nat)
    requires
        is_prime(n),
        seq_product(s) == n,
        forall|i: int| 0 <= i < s.len() ==> #[trigger] s[i]@ >= 2,
    ensures
        s.len() == 1,
        s[0]@ == n,
{
    if s.len() == 0 {
        assert(seq_product(s) == 1);
        assert(false);
    } else if s.len() == 1 {
        assert(s.drop_first() =~= Seq::<Natural>::empty());
        assert(seq_product(s.drop_first()) == 1);
        assert(seq_product(s) == s[0]@ * seq_product(s.drop_first()));
        assert(s[0]@ * 1 == s[0]@);
        assert(s[0]@ == n);
    } else {
        let a = s[0]@;
        let rest = s.drop_first();
        let r = seq_product(rest);
        assert(seq_product(s) == s[0]@ * seq_product(s.drop_first()));
        assert(forall|i: int| 0 <= i < rest.len() ==> #[trigger] rest[i]@ >= 2);
        assert(r >= 2) by {
            lemma_product_first_at_least(rest);
        }
        assert(n == a * r);
        assert(n % a == 0) by {
            lemma_mod_multiples_basic(r as int, a as int);
            lemma_mul_is_commutative(a as int, r as int);
        }
        assert(a < n) by {
            assert(a * 2 <= a * r) by {
                lemma_mul_inequality(2, r as int, a as int);
                lemma_mul_is_commutative(2, a as int);
                lemma_mul_is_commutative(r as int, a as int);
            }
        }
        assert(2 <= a < n && n % a == 0);
        assert(false);
    }
}

/// Cross-strategy agreement on the restored value: two successful
/// factorizations of the same input multiply back to the same number,
/// whichever strategies produced them.
pub proof fn lemma_cross_strategy_product(f1: Seq<Natural>, f2: Seq<Natural>, n: nat)
    requires
        seq_product(f1) == n,
        seq_product(f2) == n,
    ensures
        seq_product(f1) == seq_product(f2),
{
}

/// Cross-strategy agreement on primes: for a prime input, any two
/// successful factorizations into factors of at least two are the same
/// one-element multiset, holding exactly the input.
pub proof fn lemma_cross_strategy_prime_agreement(f1: Seq<Natural>, f2: Seq<Natural>, n: nat)
    requires
        is_prime(n),
        seq_product(f1) == n,
        seq_product(f2) == n,
        forall|i: int| 0 <= i < f1.len() ==> #[trigger] f1[i]@ >= 2,
        forall|i: int| 0 <= i < f2.len() ==> #[trigger] f2[i]@ >= 2,
    ensures
        f1.len() == 1,
        f2.len() == 1,
        f1[0]@ == f2[0]@,
        f1[0]@ == n,
{
    lemma_prime_product_singleton(f1, n);
    lemma_prime_product_singleton(f2, n);
}

/// Factors of at least two cannot multiply to one: a factorization of
/// one is empty.
pub proof fn lemma_product_one_empty(s: Seq<Natural>)
    requires
        seq_product(s) == 1,
        forall|i: int| 0 <= i < s.len() ==> #[trigger] s[i]@ >= 2,
    ensures
        s.len() == 0,
{
    if s.len() >= 1 {
        lemma_product_first_at_least(s);
    }
}

/// A nonempty product of factors at least two is itself at least two.
proof fn lemma_product_first_at_least(s: Seq<Natural>)
    requires
        s.len() >= 1,
        forall|i: int| 0 <= i < s.len() ==> #[trigger] s[i]@ >= 2,
    ensures
        seq_product(s) >= 2,
{
    lemma_product_positive(s.drop_first());
    assert(seq_product(s) == s[0]@ * seq_product(s.drop_first()));
    assert(s[0]@ * seq_product(s.drop_first()) >= 2) by (nonlinear_arith)
        requires
            s[0]@ >= 2,
            seq_product(s.drop_first()) >= 1,
    ;
}

} // verus!
