//! One tick of the schedule: take the votes, update the counter, and decide
//! whether the new state is worth broadcasting.

use vstd::prelude::*;

use crate::counter::{counter_wf, has_room, in_range, tick_step, Counter};
use crate::registry::{clicks_cleared, counter_snapshot, poll_snapshot, Registry};
use crate::votes::{CounterState, PollState};

verus! {

/// Takes the votes of all open connections, then clears their action
/// clicks, so that each click counts in exactly one tick.
pub fn collect_votes(registry: &mut Registry) -> (r: (Vec<(CounterState, usize)>, Vec<PollState>))
    requires
        old(registry).wf(),
    ensures
        r.0@ == counter_snapshot(old(registry).entries()),
        r.1@ == poll_snapshot(old(registry).entries()),
        final(registry).entries() == clicks_cleared(old(registry).entries()),
        final(registry).next() == old(registry).next(),
        final(registry).wf(),
{
    let votes = registry.snapshot();
    registry.reset_action_clicks();
    votes
}

/// Runs the poll and then the count on the collected votes. Returns whether
/// the new state differs from `before`, the state last broadcast; if so,
/// `before` becomes the new state, else it is left alone.
pub fn tick(
    counter: &mut Counter,
    before: &mut Counter,
    counter_all: &[(CounterState, usize)],
    poll_states: &[PollState],
) -> (broadcast: bool)
    requires
        counter_wf(old(counter)@),
        has_room(old(counter)@),
        counter_all@.len() <= u32::MAX,
        poll_states@.len() <= u32::MAX,
    ensures
        final(counter)@ == tick_step(old(counter)@, counter_all@, poll_states@),
        counter_wf(final(counter)@),
        in_range(final(counter)@.value),
        final(counter)@.upgrade.level >= old(counter)@.upgrade.level,
        final(counter)@.upgrade.base >= old(counter)@.upgrade.base,
        final(counter)@.upgrade.exponent >= old(counter)@.upgrade.exponent,
        broadcast == (final(counter)@ != old(before)@),
        broadcast ==> final(before)@ == final(counter)@,
        !broadcast ==> *final(before) == *old(before),
{
    counter.update_poll(poll_states);
    counter.update_count(counter_all);
    if counter.same_state(before) {
        false
    } else {
        *before = counter.duplicate();
        true
    }
}

} // verus!
