use vstd::prelude::*;
use vstd::arithmetic::power2::{pow2, lemma_pow2_pos, lemma_pow2_adds, lemma_pow2_strictly_increases, lemma_pow2_unfold, lemma2_to64};
use vstd::bits::{low_bits_mask, lemma_usize_low_bits_mask_is_mod};
use vstd::arithmetic::div_mod::{lemma_add_mod_noop, lemma_mod_multiples_basic, lemma_small_mod, lemma_mod_add_multiples_vanish};
use crate::model::wrap_usize;

verus! {

/// Whether `n` is a power of two (one bit set).
pub open spec fn power_of_two(n: nat) -> bool {
    exists|k: nat| pow2(k) == n
}

/// Whether `n` has exactly one bit set.
pub fn is_power_of_two(n: usize) -> (b: bool)
    ensures
        b == power_of_two(n as nat),
{
    if n == 0 {
        proof {
            assert forall|k: nat| pow2(k) != 0 by {
                lemma_pow2_pos(k);
            }
        }
        return false;
    }
    let mut p: usize = 1;
    let ghost mut k: nat = 0;
    proof {
        lemma2_to64();
    }
    while p < n && p <= usize::MAX / 2
        invariant
            0 < n,
            p == pow2(k),
            forall|j: nat| j < k ==> #[trigger] pow2(j) < n,
            forall|j: nat| j < k ==> #[trigger] pow2(j) < p,
        decreases usize::MAX - p,
    {
        proof {
            lemma_pow2_unfold(k + 1);
            assert forall|j: nat| j < k + 1 implies #[trigger] pow2(j) < 2 * p by {
                if j < k {
                } else {
                    lemma_pow2_pos(j);
                }
            }
        }
        p = p * 2;
        proof {
            k = k + 1;
        }
    }
    if p == n {
        true
    } else {
        proof {
            assert forall|j: nat| pow2(j) != n by {
                if j < k {
                } else if j == k {
                } else {
                    lemma_pow2_strictly_increases(k, j);
                    if p <= usize::MAX / 2 {
                        assert(p >= n);
                    } else {
                        lemma_pow2_unfold(k + 1);
                        if j > k + 1 {
                            lemma_pow2_strictly_increases(k + 1, j);
                        }
                    }
                }
            }
        }
        false
    }
}

/// A power of two that a word can hold has an exponent below the word size.
proof fn lemma_pow2_below_word(k: nat)
    requires
        pow2(k) <= usize::MAX,
    ensures
        k < usize::BITS,
{
    lemma2_to64();
    assert(usize::BITS == 32 || usize::BITS == 64);
    if k >= usize::BITS {
        if k > usize::BITS {
            lemma_pow2_strictly_increases(usize::BITS as nat, k);
        }
    }
}

/// The counter of a balancer wraps around the word size without breaking
/// the round: the position after position `c % len` is the next one,
/// cyclically, for every number of targets `len` that is a power of two.
pub proof fn lemma_round_robin(c: usize, len: nat)
    requires
        power_of_two(len),
        len <= usize::MAX,
    ensures
        (wrap_usize(c + 1) as int) % (len as int) == ((c as int) % (len as int) + 1) % (len as int),
{
    let k = choose|k: nat| pow2(k) == len;
    lemma_pow2_pos(k);
    lemma_pow2_below_word(k);
    lemma_add_mod_noop(c as int, 1, len as int);
    if len == 1 {
        assert((c as int) % 1 == 0);
        assert((wrap_usize(c + 1) as int) % 1 == 0);
    } else {
        lemma_small_mod(1, len);
    }
    if c == usize::MAX {
        lemma2_to64();
        assert(usize::BITS == 32 || usize::BITS == 64);
        assert(pow2(usize::BITS as nat) == usize::MAX + 1);
        lemma_pow2_adds(k, (usize::BITS - k) as nat);
        lemma_mod_multiples_basic(pow2((usize::BITS - k) as nat) as int, len as int);
        assert((usize::MAX + 1) as int == pow2((usize::BITS - k) as nat) * len) by (nonlinear_arith)
            requires
                pow2(usize::BITS as nat) == usize::MAX + 1,
                pow2(usize::BITS as nat) == pow2(k) * pow2((usize::BITS - k) as nat),
                pow2(k) == len,
        ;
        assert(((usize::MAX + 1) as int) % (len as int) == 0);
        assert(wrap_usize(c + 1) == 0);
        assert(((c as int) + 1) % (len as int) == 0);
    } else {
        assert(wrap_usize(c + 1) == c + 1);
    }
}

/// The counter after `k` more turns, each moving it on by one with
/// wrap-around.
pub open spec fn counter_after(c: usize, k: nat) -> usize
    decreases k,
{
    if k == 0 {
        c
    } else {
        wrap_usize(counter_after(c, (k - 1) as nat) + 1)
    }
}

/// While no wrap-around happens, `k` turns move the counter on by `k`.
proof fn lemma_counter_without_wrap(c: usize, k: nat)
    requires
        c + k <= usize::MAX,
    ensures
        counter_after(c, k) == c + k,
    decreases k,
{
    if k > 0 {
        lemma_counter_without_wrap(c, (k - 1) as nat);
    }
}

/// Moving on by one position, cyclically.
proof fn lemma_next_position(x: int, len: int)
    requires
        len > 0,
    ensures
        ((x % len) + 1) % len == (x + 1) % len,
{
    lemma_add_mod_noop(x, 1, len);
    if len > 1 {
        lemma_small_mod(1, len as nat);
    } else {
        assert(x % 1 == 0);
        assert((x + 1) % 1 == 0);
    }
}

/// Turns go round: `k` turns after the turn at position `c % len` comes
/// the position `k` further on, cyclically. This holds for every `k` when
/// the number of places `len` is a power of two, and otherwise as long as
/// the counter does not wrap around.
pub proof fn lemma_turns_after(c: usize, k: nat, len: nat)
    requires
        0 < len <= usize::MAX,
        c + k <= usize::MAX || power_of_two(len),
    ensures
        (counter_after(c, k) as int) % (len as int) == ((c as int) % (len as int) + k) % (len as int),
    decreases k,
{
    let l = len as int;
    if k == 0 {
        lemma_small_mod(((c as int) % l) as nat, len);
    } else {
        let k1 = (k - 1) as nat;
        lemma_turns_after(c, k1, len);
        let x = counter_after(c, k1);
        if power_of_two(len) {
            lemma_round_robin(x, len);
        } else {
            lemma_counter_without_wrap(c, k1);
            assert(wrap_usize(x + 1) == x + 1);
            lemma_next_position(x as int, l);
        }
        // ((x % l) + 1) % l, with x % l == ((c % l) + k - 1) % l
        lemma_next_position((c as int) % l + k1, l);
    }
}

/// A balancer just built hands out, on its `k`-th turn counted from zero,
/// the target at position `k % len`, for every `k`: the counter's
/// wrap-around does not break the round.
pub proof fn lemma_kth_turn_from_start(k: nat, len: nat)
    requires
        power_of_two(len),
        len <= usize::MAX,
    ensures
        (counter_after(0, k) as int) % (len as int) == (k as int) % (len as int),
{
    let k_ = choose|e: nat| pow2(e) == len;
    lemma_pow2_pos(k_);
    lemma_turns_after(0, k, len);
    assert((0usize as int) % (len as int) == 0);
}

/// A value below twice `len` taken modulo `len`.
proof fn lemma_mod_below_twice(x: int, len: int)
    requires
        0 <= x < 2 * len,
    ensures
        x % len == if x < len { x } else { x - len },
{
    if x < len {
        lemma_small_mod(x as nat, len as nat);
    } else {
        lemma_mod_add_multiples_vanish(x - len, len);
        lemma_small_mod((x - len) as nat, len as nat);
    }
}

/// The place of the turn `i` steps after place `start`, among `len`.
pub open spec fn turn_position(start: int, i: int, len: int) -> int {
    (start + i) % len
}

/// Whether one of the `len` turns from place `start` lands on place `j`.
pub open spec fn is_reached(start: int, len: int, j: int) -> bool {
    exists|i: int| 0 <= i < len && #[trigger] turn_position(start, i, len) == j
}

/// Any `len` turns in a row land on every one of `len` places exactly once.
pub proof fn lemma_turns_cover_all(start: int, len: int)
    requires
        0 <= start < len,
    ensures
        forall|j: int| 0 <= j < len ==> #[trigger] is_reached(start, len, j),
        forall|i1: int, i2: int|
            0 <= i1 < len && 0 <= i2 < len && i1 != i2 ==> #[trigger] turn_position(start, i1, len)
                != #[trigger] turn_position(start, i2, len),
{
    assert forall|j: int| 0 <= j < len implies #[trigger] is_reached(start, len, j) by {
        let i = if j >= start { j - start } else { j + len - start };
        lemma_mod_below_twice(start + i, len);
        assert(turn_position(start, i, len) == j);
    }
    assert forall|i1: int, i2: int|
        0 <= i1 < len && 0 <= i2 < len && i1 != i2 implies #[trigger] turn_position(start, i1, len)
            != #[trigger] turn_position(start, i2, len) by {
        lemma_mod_below_twice(start + i1, len);
        lemma_mod_below_twice(start + i2, len);
    }
}

/// Round-robin over a number of targets that is a power of two: each
/// call hands out the target after the one that the previous call handed
/// out, starting again from the first after the last.
pub struct LoadBalancer<T> {
    targets: Vec<T>,
    mask: usize,
    counter: usize,
    exponent: Ghost<nat>,
}

impl<T> LoadBalancer<T> {
    #[verifier::type_invariant]
    spec fn wf(self) -> bool {
        &&& pow2(self.exponent@) == self.targets@.len()
        &&& self.mask == self.targets@.len() - 1
    }

    /// The targets, in the order in which they are handed out.
    pub closed spec fn targets(&self) -> Seq<T> {
        self.targets@
    }

    /// How many targets were handed out so far, modulo the word size.
    pub closed spec fn counter(&self) -> usize {
        self.counter
    }

    /// A balancer over `targets` that starts with the first of them.
    #[must_use]
    pub fn new(targets: Vec<T>) -> (lb: Self)
        requires
            power_of_two(targets@.len()),
        ensures
            lb.targets() == targets@,
            lb.counter() == 0,
    {
        let len = targets.len();
        let ghost k = choose|k: nat| pow2(k) == targets@.len();
        proof {
            lemma_pow2_pos(k);
        }
        Self { targets, mask: len - 1, counter: 0, exponent: Ghost(k) }
    }

    /// The next target in turn.
    #[must_use]
    pub fn fetch_next_ref(&mut self) -> (t: &T)
        ensures
            t == old(self).targets()[(old(self).counter() as int) % (old(self).targets().len() as int)],
            final(self).targets() == old(self).targets(),
            final(self).counter() == wrap_usize(old(self).counter() + 1),
    {
        proof {
            use_type_invariant(&*self);
        }
        let n = self.counter;
        self.counter = self.counter.wrapping_add(1);
        proof {
            let k = self.exponent@;
            lemma_pow2_pos(k);
            assert(pow2(k) == self.targets.len());
            lemma_pow2_below_word(k);
            lemma_usize_low_bits_mask_is_mod(n, k);
            assert(low_bits_mask(k) == self.mask);
            assert(n & self.mask == n % (pow2(k) as usize));
        }
        &self.targets[n & self.mask]
    }
}

} // verus!
