//! What each connection votes for, and the per-tick tallies of those votes.

use vstd::prelude::*;

verus! {

/// A connection's vote on the counter itself.
#[derive(Debug, Default, Clone, Copy, PartialEq, Eq, Structural)]
pub enum CounterState {
    #[default]
    Pending,
    Increment,
    Decrement,
}

/// A connection's vote in the running poll.
#[derive(Debug, Default, Clone, Copy, PartialEq, Eq, Structural)]
pub enum PollState {
    #[default]
    Pending,
    Base,
    Exponent,
}

/// How many connections hold each counter vote.
#[derive(Debug, Default, Clone, Copy, PartialEq, Eq, Structural)]
pub struct CountMeter {
    pub increment: u32,
    pub decrement: u32,
    pub pending: u32,
}

/// How many connections hold each poll vote.
#[derive(Debug, Default, Clone, Copy, PartialEq, Eq, Structural)]
pub struct PollMeter {
    pub base: u32,
    pub exponent: u32,
    pub pending: u32,
}

/// How many times `x` occurs in `s`.
pub open spec fn tally<T>(s: Seq<T>, x: T) -> nat
    decreases s.len(),
{
    if s.len() == 0 {
        0
    } else {
        tally(s.drop_last(), x) + if s.last() == x {
            1nat
        } else {
            0nat
        }
    }
}

/// The meter of a sequence of counter votes.
pub open spec fn count_meter_of(s: Seq<CounterState>) -> CountMeter {
    CountMeter {
        increment: tally(s, CounterState::Increment) as u32,
        decrement: tally(s, CounterState::Decrement) as u32,
        pending: tally(s, CounterState::Pending) as u32,
    }
}

/// The meter of a sequence of poll votes.
pub open spec fn poll_meter_of(s: Seq<PollState>) -> PollMeter {
    PollMeter {
        base: tally(s, PollState::Base) as u32,
        exponent: tally(s, PollState::Exponent) as u32,
        pending: tally(s, PollState::Pending) as u32,
    }
}

/// The counter votes of a sequence of (vote, action clicks) pairs.
pub open spec fn votes_of(s: Seq<(CounterState, usize)>) -> Seq<CounterState> {
    s.map_values(|p: (CounterState, usize)| p.0)
}

/// The action clicks of the connections in `s` that vote `v`.
pub open spec fn clicks(s: Seq<(CounterState, usize)>, v: CounterState) -> nat
    decreases s.len(),
{
    if s.len() == 0 {
        0
    } else {
        clicks(s.drop_last(), v) + if s.last().0 == v {
            s.last().1 as nat
        } else {
            0nat
        }
    }
}

/// Clicks of incrementing connections minus clicks of decrementing ones.
pub open spec fn net_actions(s: Seq<(CounterState, usize)>) -> int {
    clicks(s, CounterState::Increment) - clicks(s, CounterState::Decrement)
}

impl CounterState {
    /// Counts how many of `counter_states` hold each counter vote.
    pub fn meter_counter(counter_states: &[Self]) -> (meter: CountMeter)
        requires
            counter_states@.len() <= u32::MAX,
        ensures
            meter == count_meter_of(counter_states@),
    {
        let ghost s = counter_states@;
        let mut meter = CountMeter { increment: 0, decrement: 0, pending: 0 };
        let n = counter_states.len();
        let mut i: usize = 0;
        while i < n
            invariant
                n == s.len(),
                s == counter_states@,
                n <= u32::MAX,
                0 <= i <= n,
                meter.increment + meter.decrement + meter.pending == i,
                meter.increment == tally(s.take(i as int), CounterState::Increment),
                meter.decrement == tally(s.take(i as int), CounterState::Decrement),
                meter.pending == tally(s.take(i as int), CounterState::Pending),
            decreases n - i,
        {
            assert(s.take(i + 1).drop_last() =~= s.take(i as int));
            match counter_states[i] {
                Self::Pending => meter.pending += 1,
                Self::Increment => meter.increment += 1,
                Self::Decrement => meter.decrement += 1,
            }
            i += 1;
        }
        assert(s.take(n as int) =~= s);
        meter
    }
}

impl PollState {
    /// Counts how many of `poll_states` hold each poll vote.
    pub fn meter_poll(poll_states: &[Self]) -> (meter: PollMeter)
        requires
            poll_states@.len() <= u32::MAX,
        ensures
            meter == poll_meter_of(poll_states@),
    {
        let ghost s = poll_states@;
        let mut meter = PollMeter { base: 0, exponent: 0, pending: 0 };
        let n = poll_states.len();
        let mut i: usize = 0;
        while i < n
            invariant
                n == s.len(),
                s == poll_states@,
                n <= u32::MAX,
                0 <= i <= n,
                meter.base + meter.exponent + meter.pending == i,
                meter.base == tally(s.take(i as int), PollState::Base),
                meter.exponent == tally(s.take(i as int), PollState::Exponent),
                meter.pending == tally(s.take(i as int), PollState::Pending),
            decreases n - i,
        {
            assert(s.take(i + 1).drop_last() =~= s.take(i as int));
            match poll_states[i] {
                Self::Pending => meter.pending += 1,
                Self::Base => meter.base += 1,
                Self::Exponent => meter.exponent += 1,
            }
            i += 1;
        }
        assert(s.take(n as int) =~= s);
        meter
    }
}

} // verus!
