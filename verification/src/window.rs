//! Bounded first-in, first-out buffers: each keeps the newest items up to its capacity.

use std::collections::VecDeque;
use vstd::prelude::*;

verus! {

/// The last `n` items of `s`, or all of them when there are fewer.
pub open spec fn last_of<T>(s: Seq<T>, n: int) -> Seq<T> {
    if s.len() <= n {
        s
    } else {
        s.skip(s.len() - n)
    }
}

/// Whatever fell out of a buffer before `more` arrived would have fallen out anyway.
pub proof fn lemma_last_of_concat<T>(s: Seq<T>, more: Seq<T>, n: int)
    requires
        n >= 0,
    ensures
        last_of(last_of(s, n) + more, n) == last_of(s + more, n),
{
    assert(last_of(last_of(s, n) + more, n) =~= last_of(s + more, n));
}

/// [`lemma_last_of_concat`] for one more item.
pub proof fn lemma_last_of_push<T>(s: Seq<T>, x: T, n: int)
    requires
        n >= 0,
    ensures
        last_of(last_of(s, n).push(x), n) == last_of(s.push(x), n),
{
    assert(last_of(last_of(s, n).push(x), n) =~= last_of(s.push(x), n));
}

/// Appends `x` and hands back the oldest item once the buffer holds more than `cap`.
pub fn push_bounded<T>(ring: &mut VecDeque<T>, x: T, cap: usize) -> (out: Option<T>)
    requires
        old(ring)@.len() <= cap,
    ensures
        final(ring)@ == last_of(old(ring)@.push(x), cap as int),
        final(ring)@.len() <= cap,
        out == (if old(ring)@.len() == cap {
            Some(old(ring)@.push(x)[0])
        } else {
            None
        }),
{
    ring.push_back(x);
    if ring.len() > cap {
        ring.pop_front()
    } else {
        None
    }
}

/// A clock that fires every `hop` samples, `n` samples after it stood at `since`, and one
/// sample later.
pub proof fn lemma_clock_step(since: int, n: int, hop: int)
    requires
        0 <= since < hop,
        0 <= n,
    ensures
        (since + n) % hop + 1 >= hop ==> (since + n + 1) % hop == 0 && (since + n + 1) / hop == (
        since + n) / hop + 1,
        (since + n) % hop + 1 < hop ==> (since + n + 1) % hop == (since + n) % hop + 1 && (since + n
            + 1) / hop == (since + n) / hop,
{
    let x = since + n;
    let q = x / hop;
    let r = x % hop;
    vstd::arithmetic::div_mod::lemma_fundamental_div_mod(x, hop);
    assert(hop * (q + 1) == hop * q + hop) by (nonlinear_arith);
    assert(q * hop == hop * q && (q + 1) * hop == hop * (q + 1)) by (nonlinear_arith);
    if r + 1 >= hop {
        vstd::arithmetic::div_mod::lemma_fundamental_div_mod_converse(x + 1, hop, q + 1, 0);
    } else {
        vstd::arithmetic::div_mod::lemma_fundamental_div_mod_converse(x + 1, hop, q, r + 1);
    }
}

} // verus!
