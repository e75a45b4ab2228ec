//! Counter arithmetic.
//!
//! The head and the tail of a ring are `usize` counters that wrap at the
//! width of `usize`, and an element lives in the slot `counter % capacity`.
//! Because the capacity is a power of two, it divides the number of values a
//! counter has, so the slot of an element does not change when a counter
//! wraps. The lemmas here say so.

use vstd::arithmetic::div_mod::{
    lemma_add_mod_noop,
    lemma_fundamental_div_mod,
    lemma_mod_bound,
    lemma_mod_multiples_basic,
    lemma_mod_multiples_vanish,
    lemma_small_mod,
};
use vstd::arithmetic::power2::{
    is_pow2,
    is_pow2_equiv,
    lemma2_to64,
    lemma_pow2,
    lemma_pow2_adds,
    lemma_pow2_pos,
    lemma_pow2_strictly_increases,
    pow2,
};
use vstd::prelude::*;

verus! {

/// The number of values that a counter has.
pub open spec fn counter_range() -> int {
    usize::MAX + 1
}

/// Whether a ring can have `n` slots: `n` is a positive power of two.
pub open spec fn is_capacity(n: int) -> bool {
    0 < n <= usize::MAX && is_pow2(n)
}

/// The value of the counter that stands `i` steps after `c`.
pub open spec fn advance(c: usize, i: int) -> usize {
    ((c + i) % counter_range()) as usize
}

/// The number of steps from the counter `from` to the counter `to`.
pub open spec fn distance(from: usize, to: usize) -> int {
    (to - from) % counter_range()
}

/// The slot, of `n`, of the element that stands `i` steps after the counter
/// `head`.
pub open spec fn slot_of(head: usize, i: int, n: int) -> int {
    (head + i) % n
}

/// A capacity divides the number of values that a counter has.
pub proof fn lemma_capacity_divides_range(n: int)
    requires
        is_capacity(n),
    ensures
        counter_range() % n == 0,
{
    is_pow2_equiv(n);
    let k = choose|k: nat| vstd::arithmetic::power::pow(2, k) == n;
    lemma_pow2(k);
    lemma2_to64();
    let bits: nat = if usize::MAX == 0xffff_ffff {
        32
    } else {
        64
    };
    assert(counter_range() == pow2(bits));
    if k >= bits {
        if k > bits {
            lemma_pow2_strictly_increases(bits, k);
        }
        assert(false);
    }
    let rest = (bits - k) as nat;
    lemma_pow2_adds(k, rest);
    lemma_pow2_pos(rest);
    assert(counter_range() == pow2(rest) * n) by (nonlinear_arith)
        requires
            counter_range() == pow2(k) * pow2(rest),
            pow2(k) == n,
    ;
    lemma_mod_multiples_basic(pow2(rest) as int, n);
}

/// Wrapping a counter value does not change its slot.
pub proof fn lemma_wrap_keeps_slot(c: int, n: int)
    requires
        is_capacity(n),
    ensures
        (c % counter_range()) % n == c % n,
{
    let w = counter_range();
    lemma_capacity_divides_range(n);
    lemma_fundamental_div_mod(w, n);
    lemma_fundamental_div_mod(c, w);
    let q = c / w;
    let m = w / n;
    assert(c == n * (m * q) + c % w) by (nonlinear_arith)
        requires
            c == w * q + c % w,
            w == n * m,
    ;
    lemma_mod_multiples_vanish(m * q, c % w, n);
}

/// Within one capacity, different positions have different slots.
pub proof fn lemma_slots_differ(base: int, i: int, j: int, n: int)
    requires
        0 < n,
        0 <= i < j < i + n,
    ensures
        (base + i) % n != (base + j) % n,
{
    let a = base + i;
    let b = base + j;
    lemma_fundamental_div_mod(a, n);
    lemma_fundamental_div_mod(b, n);
    lemma_mod_bound(a, n);
    lemma_mod_bound(b, n);
    if a % n == b % n {
        let d = b / n - a / n;
        assert(j - i == n * d) by (nonlinear_arith)
            requires
                a == n * (a / n) + a % n,
                b == n * (b / n) + b % n,
                a % n == b % n,
                d == b / n - a / n,
                j - i == b - a,
        ;
        assert(false) by (nonlinear_arith)
            requires
                j - i == n * d,
                0 < j - i < n,
        ;
    }
}

/// The steps from one counter to another are what `wrapping_sub` computes.
pub proof fn lemma_distance(from: usize, to: usize)
    ensures
        distance(from, to) == vstd::wrapping::usize_specs::wrapping_sub(to, from),
        0 <= distance(from, to) < counter_range(),
{
    let w = counter_range();
    if to - from < 0 {
        lemma_mod_multiples_vanish(-1, to - from + w, w);
        lemma_small_mod((to - from + w) as nat, w as nat);
    } else {
        lemma_small_mod((to - from) as nat, w as nat);
    }
}

/// The slot of the position `i` of a window is the slot of the counter
/// `head.wrapping_add(i)`.
pub proof fn lemma_wrapping_slot(head: usize, i: usize, n: int)
    requires
        is_capacity(n),
    ensures
        vstd::wrapping::usize_specs::wrapping_add(head, i) as int % n == slot_of(head, i as int, n),
        0 <= slot_of(head, i as int, n) < n,
{
    let w = counter_range();
    if head + i >= w {
        lemma_mod_multiples_vanish(-1, head + i, w);
        lemma_small_mod((head + i - w) as nat, w as nat);
    } else {
        lemma_small_mod((head + i) as nat, w as nat);
    }
    lemma_wrap_keeps_slot(head + i, n);
    lemma_mod_bound(head + i, n);
}

/// The slot of the last position of a window of `len` elements is the slot
/// of the counter before its tail.
pub proof fn lemma_last_slot(head: usize, len: int, n: int)
    requires
        is_capacity(n),
        0 < len < counter_range(),
    ensures
        vstd::wrapping::usize_specs::wrapping_sub(advance(head, len), 1) as int % n == slot_of(
            head,
            len - 1,
            n,
        ),
        0 <= slot_of(head, len - 1, n) < n,
{
    let w = counter_range();
    let tail = advance(head, len);
    lemma_fundamental_div_mod(head + len, w);
    lemma_mod_bound(head + len, w);
    let q = (head + len) / w;
    let before = vstd::wrapping::usize_specs::wrapping_sub(tail, 1) as int;
    if tail == 0 {
        assert(before == w - 1);
        assert(before == w * (1 - q) + (head + len - 1)) by (nonlinear_arith)
            requires
                head + len == w * q,
                before == w - 1,
        ;
        lemma_mod_multiples_vanish(1 - q, head + len - 1, w);
    } else {
        assert(before == tail - 1);
        assert(before == w * (-q) + (head + len - 1)) by (nonlinear_arith)
            requires
                head + len == w * q + tail,
                before == tail - 1,
        ;
        lemma_mod_multiples_vanish(-q, head + len - 1, w);
    }
    lemma_small_mod(before as nat, w as nat);
    assert(before == (head + len - 1) % w);
    lemma_wrap_keeps_slot(head + len - 1, n);
    lemma_mod_bound(head + len - 1, n);
}

/// The slots of a window run up from the slot of its head to the last slot
/// and go on from the first slot.
pub proof fn lemma_slot_unwraps(head: usize, i: int, n: int)
    requires
        0 < n,
        0 <= i < n,
    ensures
        0 <= head as int % n < n,
        head as int % n + i < n ==> slot_of(head, i, n) == head as int % n + i,
        head as int % n + i >= n ==> slot_of(head, i, n) == head as int % n + i - n,
{
    let start = head as int % n;
    lemma_mod_bound(head as int, n);
    lemma_fundamental_div_mod(head as int, n);
    let q = head as int / n;
    if start + i < n {
        assert(head + i == n * q + (start + i)) by (nonlinear_arith)
            requires
                head as int == n * q + start,
        ;
        lemma_mod_multiples_vanish(q, start + i, n);
        lemma_small_mod((start + i) as nat, n as nat);
    } else {
        assert(head + i == n * (q + 1) + (start + i - n)) by (nonlinear_arith)
            requires
                head as int == n * q + start,
        ;
        lemma_mod_multiples_vanish(q + 1, start + i - n, n);
        lemma_small_mod((start + i - n) as nat, n as nat);
    }
}

/// The counter that stands after `c` is `c.wrapping_add(1)`, and the steps
/// from a counter to one that stands `len` steps after it are `len`.
pub proof fn lemma_advance(c: usize, len: int)
    requires
        0 <= len < counter_range(),
    ensures
        advance(c, 0) == c,
        advance(c, 1) == vstd::wrapping::usize_specs::wrapping_add(c, 1),
        distance(c, advance(c, len)) == len,
        advance(advance(c, 1), len) == advance(c, len + 1),
{
    let w = counter_range();
    lemma_small_mod(c as nat, w as nat);
    if c + 1 < w {
        lemma_small_mod((c + 1) as nat, w as nat);
    } else {
        lemma_mod_multiples_basic(1, w);
    }
    lemma_fundamental_div_mod(c + len, w);
    lemma_mod_bound(c + len, w);
    let q = (c + len) / w;
    let t = (c + len) % w;
    assert(t - c == w * (-q) + len) by (nonlinear_arith)
        requires
            c + len == w * q + t,
    ;
    lemma_mod_multiples_vanish(-q, len, w);
    lemma_small_mod(len as nat, w as nat);
    let c1 = (c + 1) % w;
    lemma_fundamental_div_mod(c + 1, w);
    let q1 = (c + 1) / w;
    assert(c1 + len == w * (-q1) + (c + len + 1)) by (nonlinear_arith)
        requires
            c + 1 == w * q1 + c1,
    ;
    lemma_mod_multiples_vanish(-q1, c + len + 1, w);
    lemma_mod_bound(c + 1, w);
}

/// The slot of the position `i` of a window whose head has moved on by one
/// is the slot of the position `i + 1` before.
pub proof fn lemma_shifted_slot(head: usize, i: int, n: int)
    requires
        is_capacity(n),
    ensures
        slot_of(advance(head, 1), i, n) == slot_of(head, i + 1, n),
{
    let w = counter_range();
    let next = advance(head, 1) as int;
    lemma_mod_bound(head + 1, w);
    assert(next == (head + 1) % w);
    lemma_wrap_keeps_slot(head + 1, n);
    lemma_add_mod_noop(next, i, n);
    lemma_add_mod_noop(head + 1, i, n);
}

/// The counter `len + 1` steps after `head` is the one after the counter
/// `len` steps after `head`.
pub proof fn lemma_step(head: usize, len: int)
    requires
        0 <= len < counter_range() - 1,
    ensures
        advance(advance(head, len), 1) == advance(head, len + 1),
{
    let w = counter_range();
    let t = (head + len) % w;
    lemma_fundamental_div_mod(head + len, w);
    lemma_mod_bound(head + len, w);
    let q = (head + len) / w;
    assert(t + 1 == w * (-q) + (head + len + 1)) by (nonlinear_arith)
        requires
            head + len == w * q + t,
    ;
    lemma_mod_multiples_vanish(-q, head + len + 1, w);
}

} // verus!
