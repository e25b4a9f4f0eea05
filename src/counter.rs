//! The counter's state and the two per-tick updates: the poll that raises the
//! growth parameters, and the growth or decay of the value itself.

use vstd::arithmetic::power::{lemma_pow_positive, pow};
use vstd::prelude::*;

use num_bigint::BigInt;
use std::cmp::Ordering;

use crate::bigint::{
    big_add, big_cmp, big_from, big_mul, big_pow, big_sub, big_to_decimal, big_val,
    decimal, digit_len, lemma_digit_len_bound, lemma_digits_len,
};
use crate::votes::{
    clicks, count_meter_of, net_actions, poll_meter_of, votes_of, CountMeter, CounterState,
    PollMeter, PollState,
};

verus! {

/// Ticks that a new poll runs for (five minutes of quarter-second ticks).
pub const POLL_TICKS: u32 = 1200;

/// The ceiling of the counter: ten to the hundredth power.
pub open spec fn max_value() -> int {
    pow(10, 100)
}

/// The counter's value with the meter and actions of its last tick.
#[derive(Debug, Default, Clone, PartialEq, Eq)]
pub struct Count {
    pub value: BigInt,
    pub meter: CountMeter,
    pub accumulated_actions: i128,
}

/// A running vote on which growth parameter rises next.
#[derive(Debug, Clone, Copy, PartialEq, Eq, Structural)]
pub struct Poll {
    pub time_remaining: u32,
    pub amplification: u32,
    pub meter: PollMeter,
}

/// The growth parameters.
#[derive(Debug, Clone, Copy, PartialEq, Eq, Structural)]
pub struct Upgrade {
    pub level: usize,
    pub last_upgrade: PollState,
    pub base: u32,
    pub exponent: u32,
}

/// The whole persistent state of the counter.
#[derive(Debug, Clone, PartialEq, Eq)]
pub struct Counter {
    pub count: Count,
    pub poll: Option<Poll>,
    pub upgrade: Upgrade,
}

/// A `Counter` with its value as a mathematical integer.
pub struct CounterView {
    pub value: int,
    pub meter: CountMeter,
    pub accumulated_actions: i128,
    pub poll: Option<Poll>,
    pub upgrade: Upgrade,
}

impl View for Counter {
    type V = CounterView;

    open spec fn view(&self) -> CounterView {
        CounterView {
            value: big_val(self.count.value),
            meter: self.count.meter,
            accumulated_actions: self.count.accumulated_actions,
            poll: self.poll,
            upgrade: self.upgrade,
        }
    }
}

/// A value within the counter's range.
pub open spec fn in_range(v: int) -> bool {
    0 <= v <= max_value()
}

/// The state invariant: the value in range, a base of at least one, and a
/// running poll worth at least one step.
pub open spec fn counter_wf(c: CounterView) -> bool {
    &&& in_range(c.value)
    &&& c.upgrade.base >= 1
    &&& (c.poll matches Some(p) ==> p.amplification >= 1)
}

/// The amplification that a running poll would add, zero without a poll.
pub open spec fn pending_amplification(c: CounterView) -> int {
    match c.poll {
        Some(p) => p.amplification as int,
        None => 0,
    }
}

/// Room in the 32-bit growth parameters for one more tick of the poll.
pub open spec fn has_room(c: CounterView) -> bool {
    &&& c.upgrade.base + pending_amplification(c) < u32::MAX
    &&& c.upgrade.exponent + pending_amplification(c) < u32::MAX
}

/// The largest `r` with `r * r <= n`.
pub open spec fn floor_sqrt(n: nat) -> nat
    decreases n,
{
    if n == 0 {
        0
    } else {
        let r = floor_sqrt((n - 1) as nat);
        if (r + 1) * (r + 1) <= n {
            r + 1
        } else {
            r
        }
    }
}

/// `floor_sqrt(n)` is the integer square root of `n`, rounded down.
pub proof fn lemma_floor_sqrt_bounds(n: nat)
    ensures
        floor_sqrt(n) * floor_sqrt(n) <= n,
        n < (floor_sqrt(n) + 1) * (floor_sqrt(n) + 1),
    decreases n,
{
    if n == 0 {
        assert(floor_sqrt(0) == 0);
        assert(0nat * 0nat == 0 && 0 < (0nat + 1) * (0nat + 1)) by (nonlinear_arith);
    } else {
        lemma_floor_sqrt_bounds((n - 1) as nat);
        let r = floor_sqrt((n - 1) as nat);
        if (r + 1) * (r + 1) <= n {
            assert(floor_sqrt(n) == r + 1);
            assert(n < (r + 2) * (r + 2)) by (nonlinear_arith)
                requires
                    n - 1 < (r + 1) * (r + 1),
            ;
        } else {
            assert(floor_sqrt(n) == r);
        }
    }
}

/// The step of a value: the floor of the square root of its digit count.
pub open spec fn step_of(v: int) -> nat {
    floor_sqrt(digit_len(v as nat))
}

/// The upgrade level that a value has reached: its digit count divided by
/// ten and rounded down, so the first level comes at ten digits.
pub open spec fn threshold_level(v: int) -> nat {
    digit_len(v as nat) / 10
}

/// The poll that a level crossing starts.
pub open spec fn fresh_poll() -> Poll {
    Poll {
        time_remaining: POLL_TICKS,
        amplification: 1,
        meter: PollMeter { base: 0, exponent: 0, pending: 0 },
    }
}

/// One tick of a poll: whether it is over, and the poll after the tick.
pub open spec fn poll_tick(p: Poll) -> (bool, Poll) {
    if p.time_remaining == 0 {
        (true, p)
    } else if p.meter.base == p.meter.exponent {
        (false, p)
    } else {
        let d: u32 = if p.meter.pending < p.meter.base + p.meter.exponent {
            4
        } else {
            1
        };
        let t: u32 = if p.time_remaining >= d {
            (p.time_remaining - d) as u32
        } else {
            0
        };
        (false, Poll { time_remaining: t, ..p })
    }
}

/// The state after a level check: a crossing raises the level and starts a
/// poll, or amplifies the running one.
pub open spec fn level_step(c: CounterView) -> CounterView {
    let lvl = threshold_level(c.value);
    if lvl > c.upgrade.level {
        CounterView {
            upgrade: Upgrade { level: lvl as usize, ..c.upgrade },
            poll: Some(
                match c.poll {
                    Some(p) => Poll { amplification: (p.amplification + 1) as u32, ..p },
                    None => fresh_poll(),
                },
            ),
            ..c
        }
    } else {
        c
    }
}

/// The state after the poll part of a tick, with poll meter `m`.
pub open spec fn poll_step(c: CounterView, m: PollMeter) -> CounterView {
    let c1 = level_step(c);
    match c1.poll {
        None => c1,
        Some(p) => {
            let (done, p2) = poll_tick(Poll { meter: m, ..p });
            if !done {
                CounterView { poll: Some(p2), ..c1 }
            } else if m.base > m.exponent {
                CounterView {
                    upgrade: Upgrade {
                        base: (c1.upgrade.base + p.amplification) as u32,
                        last_upgrade: PollState::Base,
                        ..c1.upgrade
                    },
                    poll: None,
                    ..c1
                }
            } else {
                CounterView {
                    upgrade: Upgrade {
                        exponent: (c1.upgrade.exponent + p.amplification) as u32,
                        last_upgrade: PollState::Exponent,
                        ..c1.upgrade
                    },
                    poll: None,
                    ..c1
                }
            }
        },
    }
}

/// The growth factor of the actions: `((level + 1) * base)` raised to the
/// step plus the exponent.
pub open spec fn modifier_of(u: Upgrade, step: nat) -> int {
    pow((u.level + 1) * u.base, (step + u.exponent) as nat)
}

/// The value after a tick: the increment is added and capped at the ceiling,
/// then, unless the value sits at the ceiling, the decrement is taken and the
/// value floored at zero.
pub open spec fn next_value(v: int, meter: CountMeter, net: int, u: Upgrade) -> int {
    let step = step_of(v);
    let e = (step + u.exponent) as nat;
    let actions = net * modifier_of(u, step);
    let positive = if actions > 0 {
        actions
    } else {
        0
    };
    let negative = if actions < 0 {
        -actions
    } else {
        0
    };
    let inc = pow(meter.increment * u.base, e) + positive;
    let v1 = if v + inc > max_value() {
        max_value()
    } else {
        v + inc
    };
    if v1 == max_value() {
        v1
    } else {
        let dec = pow(meter.decrement * u.base, e) + negative;
        if v1 - dec < 0 {
            0
        } else {
            v1 - dec
        }
    }
}

/// The state after the counting part of a tick, with the connections'
/// (vote, action clicks) pairs `s`.
pub open spec fn count_step(c: CounterView, s: Seq<(CounterState, usize)>) -> CounterView {
    let meter = count_meter_of(votes_of(s));
    CounterView {
        value: next_value(c.value, meter, net_actions(s), c.upgrade),
        meter: meter,
        accumulated_actions: net_actions(s) as i128,
        ..c
    }
}

/// A whole tick: the poll first, then the count.
pub open spec fn tick_step(
    c: CounterView,
    s: Seq<(CounterState, usize)>,
    polls: Seq<PollState>,
) -> CounterView {
    count_step(poll_step(c, poll_meter_of(polls)), s)
}

/// The state of a new counter.
pub open spec fn initial_view() -> CounterView {
    CounterView {
        value: 0,
        meter: CountMeter { increment: 0, decrement: 0, pending: 0 },
        accumulated_actions: 0,
        poll: None,
        upgrade: Upgrade { level: 0, last_upgrade: PollState::Pending, base: 1, exponent: 0 },
    }
}

pub proof fn lemma_max_value_digits(v: int)
    requires
        in_range(v),
    ensures
        digit_len(v as nat) <= 101,
{
    reveal(pow);
    lemma_pow_positive(10, 100);
    assert(pow(10, 101) == 10 * pow(10, 100));
    lemma_digit_len_bound(v as nat, 101);
}

/// The floor of the square root of `n`.
fn floor_sqrt_exec(n: usize) -> (r: u32)
    requires
        n <= 1000,
    ensures
        r == floor_sqrt(n as nat),
{
    let mut r: usize = 0;
    let mut i: usize = 0;
    while i < n
        invariant
            0 <= i <= n <= 1000,
            r <= i,
            r == floor_sqrt(i as nat),
        decreases n - i,
    {
        i += 1;
        assert((r + 1) * (r + 1) <= 1001 * 1001) by (nonlinear_arith)
            requires
                r <= 1000,
        ;
        if (r + 1) * (r + 1) <= i {
            r += 1;
        }
    }
    r as u32
}

impl Poll {
    /// A poll of full length, amplification one and an empty meter.
    pub fn new() -> (p: Self)
        ensures
            p == fresh_poll(),
    {
        Self {
            time_remaining: POLL_TICKS,
            amplification: 1,
            meter: PollMeter { base: 0, exponent: 0, pending: 0 },
        }
    }

    /// Ticks the poll once. Returns whether its time was already up; a tie
    /// holds the time, a sparse vote runs it down by four, a full one by one.
    pub fn tick(&mut self) -> (done: bool)
        ensures
            (done, *final(self)) == poll_tick(*old(self)),
    {
        if self.time_remaining == 0 {
            return true;
        } else if self.meter.base == self.meter.exponent {
            return false;
        }
        if (self.meter.pending as u64) < (self.meter.base as u64) + (self.meter.exponent as u64) {
            self.time_remaining = self.time_remaining.saturating_sub(4);
        } else {
            self.time_remaining = self.time_remaining.saturating_sub(1);
        }
        false
    }
}

impl Default for Poll {
    fn default() -> (p: Self)
        ensures
            p == fresh_poll(),
    {
        Self::new()
    }
}

impl Upgrade {
    /// Level zero, base one, exponent zero, no upgrade yet.
    pub fn new() -> (u: Self)
        ensures
            u == (Upgrade { level: 0, last_upgrade: PollState::Pending, base: 1, exponent: 0 }),
    {
        Self { level: 0, last_upgrade: PollState::Pending, base: 1, exponent: 0 }
    }

    /// `((level + 1) * base)` raised to `cmp_step + exponent`.
    pub fn modifier(&self, cmp_step: u32) -> (m: BigInt)
        ensures
            big_val(m) == modifier_of(*self, cmp_step as nat),
    {
        let factor = big_mul(&big_from(self.level as i128 + 1), &big_from(self.base as i128));
        let exp: u64 = cmp_step as u64 + self.exponent as u64;
        big_pow(&factor, exp)
    }
}

impl Default for Upgrade {
    fn default() -> (u: Self)
        ensures
            u == (Upgrade { level: 0, last_upgrade: PollState::Pending, base: 1, exponent: 0 }),
    {
        Self::new()
    }
}

/// A power of a non-negative base is non-negative.
pub proof fn lemma_pow_nonneg(b: int, e: nat)
    requires
        b >= 0,
    ensures
        pow(b, e) >= 0,
    decreases e,
{
    reveal(pow);
    if e > 0 {
        lemma_pow_nonneg(b, (e - 1) as nat);
        assert(b * pow(b, (e - 1) as nat) >= 0) by (nonlinear_arith)
            requires
                b >= 0,
                pow(b, (e - 1) as nat) >= 0,
        ;
    }
}

impl Default for Counter {
    fn default() -> (c: Self)
        ensures
            c@ == initial_view(),
    {
        Self::new()
    }
}

/// Clicks over a sequence are at most its length times the largest click count.
proof fn lemma_clicks_bound(s: Seq<(CounterState, usize)>, v: CounterState)
    ensures
        clicks(s, v) <= s.len() * (usize::MAX as nat),
    decreases s.len(),
{
    if s.len() > 0 {
        lemma_clicks_bound(s.drop_last(), v);
        let n = s.len();
        let m = usize::MAX as nat;
        assert((n - 1) * m + m == n * m) by (nonlinear_arith);
    }
}

impl Counter {
    /// A counter at zero, with default growth parameters and no poll.
    pub fn new() -> (c: Self)
        ensures
            c@ == initial_view(),
            counter_wf(c@),
    {
        proof {
            lemma_pow_positive(10, 100);
        }
        Self {
            count: Count {
                value: big_from(0),
                meter: CountMeter { increment: 0, decrement: 0, pending: 0 },
                accumulated_actions: 0,
            },
            poll: None,
            upgrade: Upgrade::new(),
        }
    }

    /// The value in decimal.
    pub fn count_string(&self) -> (s: String)
        ensures
            s@ == decimal(self@.value),
    {
        big_to_decimal(&self.count.value)
    }

    /// A copy of the whole state.
    pub fn duplicate(&self) -> (c: Self)
        ensures
            c@ == self@,
    {
        Self {
            count: Count {
                value: self.count.value.clone(),
                meter: self.count.meter,
                accumulated_actions: self.count.accumulated_actions,
            },
            poll: self.poll,
            upgrade: self.upgrade,
        }
    }

    /// Whether two states agree in every field.
    pub fn same_state(&self, other: &Self) -> (r: bool)
        ensures
            r == (self@ == other@),
    {
        let value_eq = match big_cmp(&self.count.value, &other.count.value) {
            Ordering::Equal => true,
            _ => false,
        };
        let poll_eq = match (self.poll, other.poll) {
            (Some(a), Some(b)) => a == b,
            (None, None) => true,
            _ => false,
        };
        value_eq && self.count.meter == other.count.meter
            && self.count.accumulated_actions == other.count.accumulated_actions && poll_eq
            && self.upgrade == other.upgrade
    }

    /// Whether the state keeps the invariant: the value between zero and the
    /// ceiling, a base of at least one, a running poll worth at least one.
    pub fn is_well_formed(&self) -> (r: bool)
        ensures
            r == counter_wf(self@),
    {
        let zero = big_from(0);
        let one_googol = big_pow(&big_from(10), 100);
        let above_zero = match big_cmp(&self.count.value, &zero) {
            Ordering::Less => false,
            _ => true,
        };
        let below_ceiling = match big_cmp(&self.count.value, &one_googol) {
            Ordering::Greater => false,
            _ => true,
        };
        let poll_ok = match self.poll {
            Some(p) => p.amplification >= 1,
            None => true,
        };
        above_zero && below_ceiling && self.upgrade.base >= 1 && poll_ok
    }

    /// Whether the growth parameters have room for one more tick.
    pub fn has_headroom(&self) -> (r: bool)
        ensures
            r == has_room(self@),
    {
        let amp: u64 = match self.poll {
            Some(p) => p.amplification as u64,
            None => 0,
        };
        (self.upgrade.base as u64) + amp < u32::MAX as u64 && (self.upgrade.exponent as u64) + amp
            < u32::MAX as u64
    }

    /// The floor of the square root of the digit count of `counter`.
    fn compute_step(counter: &BigInt) -> (r: u32)
        requires
            in_range(big_val(*counter)),
        ensures
            r == step_of(big_val(*counter)),
    {
        let s = big_to_decimal(counter);
        let len = s.as_str().unicode_len();
        proof {
            lemma_digits_len(big_val(*counter) as nat);
            lemma_max_value_digits(big_val(*counter));
        }
        floor_sqrt_exec(len)
    }

    /// Raises the level to the one the value has reached, if that is higher,
    /// and tells whether it did.
    fn is_at_upgrade(&mut self) -> (r: bool)
        requires
            in_range(old(self)@.value),
        ensures
            r == (threshold_level(old(self)@.value) > old(self)@.upgrade.level),
            final(self)@ == (if r {
                CounterView {
                    upgrade: Upgrade {
                        level: threshold_level(old(self)@.value) as usize,
                        ..old(self)@.upgrade
                    },
                    ..old(self)@
                }
            } else {
                old(self)@
            }),
            threshold_level(old(self)@.value) <= 11,
    {
        let length = self.count_string().as_str().unicode_len();
        proof {
            lemma_digits_len(self@.value as nat);
            lemma_max_value_digits(self@.value);
        }
        let level = length / 10;
        if level > self.upgrade.level {
            self.upgrade.level = level;
            true
        } else {
            false
        }
    }

    /// The poll part of a tick: a level crossing starts a poll (or amplifies
    /// the running one); the running poll takes the meter of `poll_states`
    /// and ticks; a finished poll adds its amplification to the winner, the
    /// exponent on a tie, and ends.
    pub fn update_poll(&mut self, poll_states: &[PollState])
        requires
            counter_wf(old(self)@),
            has_room(old(self)@),
            poll_states@.len() <= u32::MAX,
        ensures
            final(self)@ == poll_step(old(self)@, poll_meter_of(poll_states@)),
            counter_wf(final(self)@),
            final(self)@.upgrade.level >= old(self)@.upgrade.level,
            final(self)@.upgrade.base >= old(self)@.upgrade.base,
            final(self)@.upgrade.exponent >= old(self)@.upgrade.exponent,
    {
        if self.is_at_upgrade() {
            match self.poll {
                Some(p) => {
                    self.poll = Some(Poll { amplification: p.amplification + 1, ..p });
                },
                None => {
                    self.poll = Some(Poll::new());
                },
            }
        }
        match self.poll {
            Some(p) => {
                let mut poll = p;
                poll.meter = PollState::meter_poll(poll_states);
                if poll.tick() {
                    if poll.meter.base > poll.meter.exponent {
                        self.upgrade.base = self.upgrade.base + poll.amplification;
                        self.upgrade.last_upgrade = PollState::Base;
                    } else {
                        self.upgrade.exponent = self.upgrade.exponent + poll.amplification;
                        self.upgrade.last_upgrade = PollState::Exponent;
                    }
                    self.poll = None;
                } else {
                    self.poll = Some(poll);
                }
            },
            None => {},
        }
    }

    /// The counting part of a tick over the connections' (vote, action
    /// clicks) pairs: stores their meter and net actions, adds the increment
    /// capped at the ceiling and, unless the value sits at the ceiling, takes
    /// the decrement floored at zero.
    pub fn update_count(&mut self, counter_all: &[(CounterState, usize)])
        requires
            counter_wf(old(self)@),
            counter_all@.len() <= u32::MAX,
        ensures
            final(self)@ == count_step(old(self)@, counter_all@),
            counter_wf(final(self)@),
            0 <= final(self)@.value <= max_value(),
    {
        let ghost s = counter_all@;
        let n = counter_all.len();
        let mut counter_states: Vec<CounterState> = Vec::new();
        let mut accumulated: i128 = 0;
        let mut i: usize = 0;
        while i < n
            invariant
                n == s.len(),
                s == counter_all@,
                n <= u32::MAX,
                0 <= i <= n,
                counter_states@ == votes_of(s.take(i as int)),
                accumulated == clicks(s.take(i as int), CounterState::Increment) - clicks(
                    s.take(i as int),
                    CounterState::Decrement,
                ),
            decreases n - i,
        {
            let (counter_state, action_clicks) = counter_all[i];
            proof {
                let t = s.take(i + 1);
                assert(t.drop_last() =~= s.take(i as int));
                assert(votes_of(t) =~= votes_of(s.take(i as int)).push(counter_state));
                lemma_clicks_bound(t, CounterState::Increment);
                lemma_clicks_bound(t, CounterState::Decrement);
                let m = usize::MAX as nat;
                assert(t.len() * m <= 0x1_0000_0000 * 0x1_0000_0000_0000_0000) by (nonlinear_arith)
                    requires
                        t.len() <= 0x1_0000_0000,
                        m <= 0xffff_ffff_ffff_ffff,
                ;
            }
            counter_states.push(counter_state);
            match counter_state {
                CounterState::Increment => accumulated = accumulated + action_clicks as i128,
                CounterState::Decrement => accumulated = accumulated - action_clicks as i128,
                CounterState::Pending => {},
            }
            i += 1;
        }
        assert(s.take(n as int) =~= s);
        self.count.accumulated_actions = accumulated;
        self.count.meter = CounterState::meter_counter(counter_states.as_slice());

        let ghost v0 = big_val(self.count.value);
        let cmp_step = Self::compute_step(&self.count.value);

        let actions_modifier = big_mul(&big_from(accumulated), &self.upgrade.modifier(cmp_step));
        let zero = big_from(0);
        let positive_modifier = match big_cmp(&actions_modifier, &zero) {
            Ordering::Greater => actions_modifier.clone(),
            _ => big_from(0),
        };
        let negative_modifier = match big_cmp(&actions_modifier, &zero) {
            Ordering::Less => big_sub(&zero, &actions_modifier),
            _ => big_from(0),
        };

        let exp: u64 = cmp_step as u64 + self.upgrade.exponent as u64;
        let base = big_from(self.upgrade.base as i128);
        let step_increment = big_add(
            &big_pow(&big_mul(&big_from(self.count.meter.increment as i128), &base), exp),
            &positive_modifier,
        );
        self.count.value = big_add(&self.count.value, &step_increment);
        let one_googol = big_pow(&big_from(10), 100);
        if let Ordering::Greater = big_cmp(&self.count.value, &one_googol) {
            self.count.value = one_googol.clone();
        }
        let step_decrement = big_add(
            &big_pow(&big_mul(&big_from(self.count.meter.decrement as i128), &base), exp),
            &negative_modifier,
        );
        match big_cmp(&self.count.value, &one_googol) {
            Ordering::Equal => {},
            _ => {
                self.count.value = big_sub(&self.count.value, &step_decrement);
                if let Ordering::Less = big_cmp(&self.count.value, &zero) {
                    self.count.value = big_from(0);
                }
            },
        }
        proof {
            lemma_pow_positive(10, 100);
            let e = (step_of(v0) + self.upgrade.exponent) as nat;
            lemma_pow_nonneg(self.count.meter.increment * self.upgrade.base, e);
            lemma_pow_nonneg(self.count.meter.decrement * self.upgrade.base, e);
        }
    }
}

} // verus!
