//! A sieve of Eratosthenes: a precomputed primality table.

use vstd::prelude::*;

verus! {

use vstd::arithmetic::div_mod::lemma_mod_multiples_basic;
use vstd::arithmetic::mul::{lemma_mul_inequality, lemma_mul_is_commutative};
use crate::number_theory::is_prime;
use crate::number_theory::lemma_div_exact;

/// Whether `i` has a proper divisor that is at least two and below
/// `bound`.
spec fn has_small_divisor(i: nat, bound: nat) -> bool {
    exists|d: nat| 2 <= d < bound && d < i && #[trigger] (i % d) == 0
}

/// Once the bound reaches the number itself, having a small proper
/// divisor is exactly being composite.
proof fn lemma_small_divisor_prime(i: nat, bound: nat)
    requires
        2 <= i < bound,
    ensures
        is_prime(i) <==> !has_small_divisor(i, bound),
{
    if !has_small_divisor(i, bound) {
        assert forall|d: nat| 2 <= d < i implies #[trigger] (i % d) != 0 by {
            if i % d == 0 {
                assert(has_small_divisor(i, bound));
            }
        }
    }
}

/// Two distinct multiples of `b` are at least `b` apart.
proof fn lemma_next_multiple(i: nat, m: nat, b: nat)
    requires
        b >= 1,
        i % b == 0,
        m % b == 0,
        i > m,
    ensures
        i >= m + b,
{
    lemma_div_exact(i, b);
    lemma_div_exact(m, b);
    assert((m / b + 1) * b <= (i / b) * b) by {
        if i / b < m / b + 1 {
            assert((i / b) * b <= (m / b) * b) by {
                lemma_mul_inequality((i / b) as int, (m / b) as int, b as int);
            }
            lemma_mul_is_commutative((i / b) as int, b as int);
            lemma_mul_is_commutative((m / b) as int, b as int);
            assert(false);
        }
        lemma_mul_inequality((m / b + 1) as int, (i / b) as int, b as int);
    }
    assert((m / b + 1) * b == (m / b) * b + b) by (nonlinear_arith);
    lemma_mul_is_commutative((i / b) as int, b as int);
    lemma_mul_is_commutative((m / b) as int, b as int);
}

/// A primality table for the numbers `0 ..= limit`.
pub struct Sieve {
    nums: Vec<bool>,
}

impl Sieve {
    /// The largest number the table answers for.
    pub closed spec fn limit(&self) -> nat {
        (self.nums@.len() - 1) as nat
    }

    /// The table marks exactly the primes.
    pub closed spec fn wf(&self) -> bool {
        self.nums@.len() >= 2 && forall|i: int|
            0 <= i < self.nums@.len() ==> (self.nums@[i] <==> is_prime(i as nat))
    }

    /// Builds the table for `0 ..= len` by crossing out, for each
    /// number from two up, all its proper multiples.
    pub fn new(len: usize) -> (r: Sieve)
        requires
            1 <= len < usize::MAX,
        ensures
            r.wf(),
            r.limit() == len,
    {
        let mut nums: Vec<bool> = vec![true; len + 1];
        nums[0] = false;
        nums[1] = false;
        let mut b: usize = 2;
        while b <= len
            invariant
                1 <= len < usize::MAX,
                2 <= b <= len + 1,
                nums@.len() == len + 1,
                forall|i: int|
                    0 <= i < nums@.len() ==> (nums@[i] <==> (i >= 2 && !has_small_divisor(
                        i as nat,
                        b as nat,
                    ))),
            decreases len + 1 - b,
        {
            let ghost pre = nums@;
            if b <= len - b {
                let mut multiple: usize = b + b;
                proof {
                    lemma_mod_multiples_basic(2, b as int);
                    assert(multiple == 2 * b);
                    assert forall|i: int|
                        #![trigger pre[i]]
                        0 <= i < nums@.len() implies (nums@[i] <==> (pre[i] && !(i % (b as int)
                            == 0 && b < i && i < multiple))) by {
                        if i % (b as int) == 0 && b < i && i < multiple {
                            lemma_next_multiple(i as nat, b as nat, b as nat);
                        }
                    }
                }
                while multiple <= len
                    invariant_except_break
                        forall|i: int|
                            #![trigger pre[i]]
                            0 <= i < nums@.len() ==> (nums@[i] <==> (pre[i] && !(i % (b as int)
                                == 0 && b < i && i < multiple))),
                    invariant
                        2 <= b <= len,
                        nums@.len() == len + 1,
                        pre.len() == len + 1,
                        multiple >= b + b,
                        multiple % b == 0,
                    ensures
                        nums@.len() == len + 1,
                        forall|i: int|
                            #![trigger pre[i]]
                            0 <= i < nums@.len() ==> (nums@[i] <==> (pre[i] && !(i % (b as int)
                                == 0 && b < i && i <= len))),
                    decreases len - multiple,
                {
                    let ghost mult0 = multiple as int;
                    nums[multiple] = false;
                    proof {
                        assert forall|i: int|
                            #![trigger pre[i]]
                            0 <= i < nums@.len() implies (nums@[i] <==> (pre[i] && !(i % (
                        b as int) == 0 && b < i && i < mult0 + b))) by {
                            if i != mult0 && i % (b as int) == 0 && b < i && mult0 < i && i
                                < mult0 + b {
                                lemma_next_multiple(i as nat, mult0 as nat, b as nat);
                            }
                        }
                    }
                    if len - b < multiple {
                        proof {
                            assert forall|i: int|
                                #![trigger pre[i]]
                                0 <= i < nums@.len() implies (nums@[i] <==> (pre[i] && !(i % (
                            b as int) == 0 && b < i && i <= len))) by {
                                assert(nums@[i] <==> (pre[i] && !(i % (b as int) == 0 && b < i
                                    && i < mult0 + b)));
                                if i % (b as int) == 0 && b < i && i <= len && i > mult0 {
                                    lemma_next_multiple(i as nat, mult0 as nat, b as nat);
                                }
                            }
                        }
                        break;
                    }
                    multiple = multiple + b;
                    proof {
                        vstd::arithmetic::div_mod::lemma_mod_add_multiples_vanish(
                            (multiple - b) as int,
                            b as int,
                        );
                        assert(multiple == mult0 + b);
                        assert forall|i: int|
                            #![trigger pre[i]]
                            0 <= i < nums@.len() implies (nums@[i] <==> (pre[i] && !(i % (
                        b as int) == 0 && b < i && i < multiple))) by {
                            assert(nums@[i] <==> (pre[i] && !(i % (b as int) == 0 && b < i && i
                                < mult0 + b)));
                        }
                    }
                }
            } else {
                proof {
                    assert forall|i: int|
                        #![trigger pre[i]]
                        0 <= i < nums@.len() implies (nums@[i] <==> (pre[i] && !(i % (b as int)
                            == 0 && b < i && i <= len))) by {
                        if i % (b as int) == 0 && b < i && i <= len {
                            lemma_next_multiple(i as nat, b as nat, b as nat);
                        }
                    }
                }
            }
            proof {
                let bn = b as nat;
                assert forall|i: int|
                    0 <= i < nums@.len() implies (nums@[i] <==> (i >= 2 && !has_small_divisor(
                    i as nat,
                    (b + 1) as nat,
                ))) by {
                    assert(nums@[i] <==> (pre[i] && !(i % (b as int) == 0 && b < i && i
                        <= len)));
                    assert(pre[i] <==> (i >= 2 && !has_small_divisor(i as nat, bn)));
                    if i >= 2 {
                        if has_small_divisor(i as nat, (b + 1) as nat) {
                            let d = choose|d: nat|
                                2 <= d < (b + 1) as nat && d < i as nat && #[trigger] ((
                                i as nat) % d) == 0;
                            if d < bn {
                                assert(has_small_divisor(i as nat, bn));
                            } else {
                                assert(d == bn);
                                assert(i % (b as int) == 0);
                            }
                        } else {
                            assert(!has_small_divisor(i as nat, bn)) by {
                                if has_small_divisor(i as nat, bn) {
                                    let d = choose|d: nat|
                                        2 <= d < bn && d < i as nat && #[trigger] ((i as nat) % d)
                                            == 0;
                                    assert(2 <= d < (b + 1) as nat && d < i as nat && (i as nat)
                                        % d == 0);
                                }
                            }
                            if i % (b as int) == 0 && b < i {
                                assert(2 <= bn < (b + 1) as nat && bn < i as nat && (i as nat)
                                    % bn == 0);
                                assert(has_small_divisor(i as nat, (b + 1) as nat));
                            }
                        }
                    }
                }
            }
            b = b + 1;
        }
        let s = Sieve { nums };
        proof {
            assert forall|i: int| 0 <= i < s.nums@.len() implies (s.nums@[i] <==> is_prime(
                i as nat,
            )) by {
                if i >= 2 {
                    lemma_small_divisor_prime(i as nat, b as nat);
                } else {
                    assert(!is_prime(i as nat));
                }
            }
        }
        s
    }

    /// Lists the primes in the table, in ascending order.
    pub fn primes(&self) -> (r: Vec<usize>)
        requires
            self.wf(),
        ensures
            forall|j: int|
                0 <= j < r@.len() ==> is_prime(#[trigger] r@[j] as nat) && r@[j] <= self.limit(),
            forall|p: int|
                0 <= p <= self.limit() && is_prime(p as nat) ==> #[trigger] r@.contains(
                    p as usize,
                ),
            forall|j1: int, j2: int| 0 <= j1 < j2 < r@.len() ==> r@[j1] < r@[j2],
    {
        let mut out: Vec<usize> = Vec::new();
        let mut idx: usize = 0;
        while idx < self.nums.len()
            invariant
                self.wf(),
                idx <= self.nums@.len(),
                forall|j: int|
                    0 <= j < out@.len() ==> is_prime(#[trigger] out@[j] as nat) && out@[j] < idx,
                forall|p: int|
                    0 <= p < idx && is_prime(p as nat) ==> #[trigger] out@.contains(p as usize),
                forall|j1: int, j2: int| 0 <= j1 < j2 < out@.len() ==> out@[j1] < out@[j2],
            decreases self.nums@.len() - idx,
        {
            if self.nums[idx] {
                let ghost out0 = out@;
                out.push(idx);
                proof {
                    assert forall|p: int|
                        #![trigger out@.contains(p as usize)]
                        0 <= p < idx + 1 && is_prime(p as nat) implies out@.contains(
                        p as usize,
                    ) by {
                        if p < idx {
                            assert(out0.contains(p as usize));
                            let j = choose|j: int| 0 <= j < out0.len() && out0[j] == p as usize;
                            assert(out@[j] == p as usize);
                        } else {
                            assert(out@[out@.len() - 1] == p as usize);
                        }
                    }
                }
            }
            idx = idx + 1;
        }
        out
    }

    /// Answers whether `n` is prime, from the table.
    pub fn is_prime(&self, n: usize) -> (r: bool)
        requires
            self.wf(),
            n <= self.limit(),
        ensures
            r == is_prime(n as nat),
    {
        self.nums[n]
    }
}

} // verus!
