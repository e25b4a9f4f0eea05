//! What holds of the counter over whole runs of ticks, and of the registry
//! over a connection's life.

use vstd::arithmetic::power::{lemma0_pow, lemma_pow_positive, pow};
use vstd::prelude::*;

use crate::counter::{
    count_step, counter_wf, floor_sqrt, has_room, in_range, lemma_max_value_digits,
    lemma_pow_nonneg, next_value, poll_step, step_of, threshold_level, tick_step,
    modifier_of, CounterView, Upgrade,
};
use crate::bigint::digit_len;
use crate::registry::{fresh_client, has_id, ids_below, without, Client};
use crate::votes::{
    count_meter_of, net_actions, poll_meter_of, votes_of, CountMeter, CounterState, PollMeter,
    PollState,
};

verus! {

/// The state after running the ticks `ticks` in order from `c`, each tick
/// given by its (vote, action clicks) pairs and its poll votes.
pub open spec fn run(
    c: CounterView,
    ticks: Seq<(Seq<(CounterState, usize)>, Seq<PollState>)>,
) -> CounterView
    decreases ticks.len(),
{
    if ticks.len() == 0 {
        c
    } else {
        let prev = run(c, ticks.drop_last());
        tick_step(prev, ticks.last().0, ticks.last().1)
    }
}

/// Every tick of the run starts with room in the growth parameters.
pub open spec fn room_throughout(
    c: CounterView,
    ticks: Seq<(Seq<(CounterState, usize)>, Seq<PollState>)>,
) -> bool {
    forall|i: int| 0 <= i < ticks.len() ==> has_room(#[trigger] run(c, ticks.take(i)))
}

/// The value after a tick is in range whenever it was before.
pub proof fn lemma_next_value_in_range(v: int, meter: CountMeter, net: int, u: Upgrade)
    requires
        in_range(v),
    ensures
        in_range(next_value(v, meter, net, u)),
{
    let e = (step_of(v) + u.exponent) as nat;
    lemma_pow_positive(10, 100);
    lemma_pow_nonneg(meter.increment * u.base, e);
    lemma_pow_nonneg(meter.decrement * u.base, e);
}

/// One tick keeps the invariant and raises no growth parameter less than
/// it was.
pub proof fn lemma_tick_step(
    c: CounterView,
    s: Seq<(CounterState, usize)>,
    polls: Seq<PollState>,
)
    requires
        counter_wf(c),
        has_room(c),
    ensures
        counter_wf(tick_step(c, s, polls)),
        tick_step(c, s, polls).upgrade.level >= c.upgrade.level,
        tick_step(c, s, polls).upgrade.base >= c.upgrade.base,
        tick_step(c, s, polls).upgrade.exponent >= c.upgrade.exponent,
{
    lemma_max_value_digits(c.value);
    let p = poll_step(c, poll_meter_of(polls));
    assert(p.value == c.value);
    lemma_next_value_in_range(p.value, count_meter_of(votes_of(s)), net_actions(s), p.upgrade);
}

/// Whatever the votes, the value stays between zero and the ceiling after
/// every tick.
pub proof fn lemma_run_in_range(
    c: CounterView,
    ticks: Seq<(Seq<(CounterState, usize)>, Seq<PollState>)>,
)
    requires
        in_range(c.value),
    ensures
        in_range(run(c, ticks).value),
    decreases ticks.len(),
{
    if ticks.len() > 0 {
        let prev = run(c, ticks.drop_last());
        lemma_run_in_range(c, ticks.drop_last());
        let p = poll_step(prev, poll_meter_of(ticks.last().1));
        assert(p.value == prev.value);
        lemma_next_value_in_range(
            p.value,
            count_meter_of(votes_of(ticks.last().0)),
            net_actions(ticks.last().0),
            p.upgrade,
        );
    }
}

/// Over a run of ticks, the level, the base and the exponent never fall,
/// and the invariant holds throughout.
pub proof fn lemma_run_monotonic(
    c: CounterView,
    ticks: Seq<(Seq<(CounterState, usize)>, Seq<PollState>)>,
)
    requires
        counter_wf(c),
        room_throughout(c, ticks),
    ensures
        counter_wf(run(c, ticks)),
        run(c, ticks).upgrade.level >= c.upgrade.level,
        run(c, ticks).upgrade.base >= c.upgrade.base,
        run(c, ticks).upgrade.exponent >= c.upgrade.exponent,
    decreases ticks.len(),
{
    if ticks.len() > 0 {
        let n = ticks.len() - 1;
        let first = ticks.drop_last();
        assert forall|i: int| 0 <= i < first.len() implies has_room(
            #[trigger] run(c, first.take(i)),
        ) by {
            assert(first.take(i) =~= ticks.take(i));
            assert(has_room(run(c, ticks.take(i))));
        }
        lemma_run_monotonic(c, first);
        assert(ticks.take(n) =~= first);
        assert(has_room(run(c, ticks.take(n))));
        lemma_tick_step(run(c, first), ticks.last().0, ticks.last().1);
    }
}

/// Every digit count of at least one has a square-root step of at least one.
pub proof fn lemma_floor_sqrt_positive(n: nat)
    requires
        n >= 1,
    ensures
        floor_sqrt(n) >= 1,
    decreases n,
{
    let r = floor_sqrt((n - 1) as nat);
    if n > 1 {
        lemma_floor_sqrt_positive((n - 1) as nat);
    } else {
        assert(r == 0);
        assert((r + 1) * (r + 1) == 1) by (nonlinear_arith)
            requires
                r == 0,
        ;
    }
    assert(floor_sqrt(n) == r || floor_sqrt(n) == r + 1);
}

/// With no votes and no actions, the value stays as it is: both steps are
/// zero raised to a positive power.
pub proof fn lemma_idle_value(v: int, u: Upgrade)
    requires
        in_range(v),
    ensures
        next_value(v, CountMeter { increment: 0, decrement: 0, pending: 0 }, 0, u) == v,
{
    lemma_floor_sqrt_positive(digit_len(v as nat));
    let e = (step_of(v) + u.exponent) as nat;
    lemma0_pow(e);
    let m = modifier_of(u, step_of(v));
    assert(0 * m == 0) by (nonlinear_arith);
    let b = u.base as int;
    assert(0 * b == 0) by (nonlinear_arith);
    lemma_pow_positive(10, 100);
}

/// A state at rest: the level matches the value and no poll is due to end.
pub open spec fn settled(c: CounterView) -> bool {
    &&& threshold_level(c.value) <= c.upgrade.level
    &&& (c.poll matches Some(p) ==> p.time_remaining > 0)
}

/// With no connections, a tick from a settled state leaves the value, the
/// growth parameters and the running poll's time and amplification as they
/// were, and every further such tick changes nothing at all.
pub proof fn lemma_empty_tick(c: CounterView)
    requires
        counter_wf(c),
        settled(c),
    ensures
        tick_step(c, Seq::empty(), Seq::empty()).value == c.value,
        tick_step(c, Seq::empty(), Seq::empty()).upgrade == c.upgrade,
        tick_step(c, Seq::empty(), Seq::empty()).poll is Some == c.poll is Some,
        c.poll matches Some(p) ==> tick_step(c, Seq::empty(), Seq::empty()).poll matches Some(q)
            && q.time_remaining == p.time_remaining && q.amplification == p.amplification,
        tick_step(tick_step(c, Seq::empty(), Seq::empty()), Seq::empty(), Seq::empty())
            == tick_step(c, Seq::empty(), Seq::empty()),
{
    let s = Seq::<(CounterState, usize)>::empty();
    let polls = Seq::<PollState>::empty();
    reveal(pow);
    assert(votes_of(s) =~= Seq::empty());
    let meter = count_meter_of(votes_of(s));
    assert(meter == CountMeter { increment: 0, decrement: 0, pending: 0 });
    assert(poll_meter_of(polls) == PollMeter { base: 0, exponent: 0, pending: 0 });
    assert(net_actions(s) == 0);
    let p = poll_step(c, poll_meter_of(polls));
    assert(p.value == c.value);
    lemma_idle_value(c.value, c.upgrade);
    let c1 = tick_step(c, s, polls);
    assert(c1 == count_step(p, s));
    lemma_idle_value(c1.value, c1.upgrade);
    assert(tick_step(c1, s, polls) == c1);
}

/// Without an entry for `id`, removing `id` keeps the entries as they are.
pub proof fn lemma_without_absent(s: Seq<(usize, Client)>, id: usize)
    requires
        !has_id(s, id),
    ensures
        without(s, id) == s,
    decreases s.len(),
{
    if s.len() > 0 {
        let t = s.drop_last();
        assert(!has_id(t, id)) by {
            if has_id(t, id) {
                let i = choose|i: int| 0 <= i < t.len() && t[i].0 == id;
                assert(s[i].0 == id);
            }
        }
        lemma_without_absent(t, id);
        assert(s.last().0 != id) by {
            assert(s[s.len() - 1].0 == s.last().0);
        }
        assert(t.push(s.last()) =~= s);
    }
}

/// Opening a connection and closing it again gives back the entries as
/// they were, so the closed id is gone.
pub proof fn lemma_register_then_unregister(s: Seq<(usize, Client)>, next: usize)
    requires
        ids_below(s, next),
    ensures
        without(s.push((next, fresh_client())), next) == s,
        !has_id(without(s.push((next, fresh_client())), next), next),
{
    let t = s.push((next, fresh_client()));
    assert(t.drop_last() =~= s);
    assert(!has_id(s, next));
    lemma_without_absent(s, next);
}

} // verus!
