//! Laws of the bounded buffers.

use crate::laws::analysis::shifted;
use std::collections::VecDeque;
use vstd::prelude::*;

verus! {

/// A buffer takes in an item at its end and, once full, gives out its oldest one: the items that
/// stay keep their order.
pub proof fn a_full_buffer_gives_out_its_oldest<T>(
    ring: &mut VecDeque<T>,
    x: T,
    cap: usize,
    out: Option<T>,
)
    requires
        call_ensures(crate::window::push_bounded::<T>, (ring, x, cap), out),
        old(ring)@.len() <= cap,
        cap > 0,
    ensures
        final(ring)@ == shifted(old(ring)@, x, cap as int),
        old(ring)@.len() < cap ==> out is None,
        old(ring)@.len() == cap ==> out == Some(old(ring)@[0]),
{
    assert(final(ring)@ =~= shifted(old(ring)@, x, cap as int));
}

} // verus!
