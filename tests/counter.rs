use num_bigint::BigInt;
use one_googol::counter::{Count, Counter, Poll, Upgrade, POLL_TICKS};
use one_googol::scheduler::tick;
use one_googol::votes::{CountMeter, CounterState, PollMeter, PollState};

fn googol() -> BigInt {
    BigInt::parse_bytes(
        b"10000000000000000000000000000000000000000000000000000000000000000000000000000000000000000000000000000",
        10,
    )
    .unwrap()
}

fn counter_at(value: BigInt) -> Counter {
    let mut c = Counter::new();
    c.count.value = value;
    c
}

#[test]
fn new_counter_is_zero() {
    let c = Counter::new();
    assert_eq!(c.count.value, BigInt::from(0));
    assert_eq!(c.count_string(), "0");
    assert_eq!(c.poll, None);
    assert_eq!(c.upgrade, Upgrade { level: 0, last_upgrade: PollState::Pending, base: 1, exponent: 0 });
    assert_eq!(Counter::default(), c);
}

#[test]
fn single_increment_from_zero() {
    let mut c = Counter::new();
    let mut before = Counter::new();
    let changed = tick(&mut c, &mut before, &[(CounterState::Increment, 0)], &[PollState::Pending]);
    assert!(changed);
    assert_eq!(c.count.value, BigInt::from(1));
    assert_eq!(c.count.meter, CountMeter { increment: 1, decrement: 0, pending: 0 });
    assert_eq!(before, c);
}

#[test]
fn ten_digits_start_a_poll() {
    let mut c = counter_at(BigInt::from(1_000_000_000u64));
    c.update_poll(&[]);
    assert_eq!(c.upgrade.level, 1);
    let p = c.poll.unwrap();
    assert_eq!(p.time_remaining, 1200);
    assert_eq!(p.amplification, 1);
}

#[test]
fn nine_digits_start_no_poll() {
    let mut c = counter_at(BigInt::from(999_999_999u64));
    c.update_poll(&[]);
    assert_eq!(c.upgrade.level, 0);
    assert_eq!(c.poll, None);
}

#[test]
fn crossing_during_a_poll_amplifies_it() {
    let mut c = counter_at(BigInt::from(1_000_000_000u64));
    c.poll = Some(Poll { time_remaining: 500, amplification: 1, meter: PollMeter::default() });
    c.update_poll(&[]);
    let p = c.poll.unwrap();
    assert_eq!(p.amplification, 2);
    assert_eq!(p.time_remaining, 500);
}

#[test]
fn poll_resolves_to_base() {
    let mut c = Counter::new();
    c.poll = Some(Poll { time_remaining: 0, amplification: 2, meter: PollMeter::default() });
    c.update_poll(&[PollState::Base, PollState::Base, PollState::Base, PollState::Exponent]);
    assert_eq!(c.poll, None);
    assert_eq!(c.upgrade.base, 3);
    assert_eq!(c.upgrade.exponent, 0);
    assert_eq!(c.upgrade.last_upgrade, PollState::Base);
}

#[test]
fn tied_poll_resolves_to_exponent() {
    let mut c = Counter::new();
    c.poll = Some(Poll { time_remaining: 0, amplification: 1, meter: PollMeter::default() });
    c.update_poll(&[PollState::Base, PollState::Exponent]);
    assert_eq!(c.poll, None);
    assert_eq!(c.upgrade.base, 1);
    assert_eq!(c.upgrade.exponent, 1);
    assert_eq!(c.upgrade.last_upgrade, PollState::Exponent);
}

#[test]
fn ceiling_is_sticky() {
    let mut c = counter_at(googol());
    let mut before = Counter::new();
    let votes = [
        (CounterState::Increment, 0),
        (CounterState::Decrement, 7),
        (CounterState::Decrement, 0),
        (CounterState::Decrement, 0),
    ];
    tick(&mut c, &mut before, &votes, &[]);
    assert_eq!(c.count.value, googol());
    c.update_count(&[(CounterState::Decrement, 0), (CounterState::Increment, 3)]);
    assert_eq!(c.count.value, googol());
}

#[test]
fn increment_is_capped_at_ceiling() {
    let mut c = counter_at(googol() - BigInt::from(1));
    c.update_count(&[(CounterState::Increment, 5)]);
    assert_eq!(c.count.value, googol());
}

#[test]
fn decrement_is_floored_at_zero() {
    let mut c = counter_at(BigInt::from(5));
    c.update_count(&[(CounterState::Decrement, 0); 9]);
    assert_eq!(c.count.value, BigInt::from(0));
}

#[test]
fn actions_add_through_the_modifier() {
    // one digit: step 1; modifier (1 * 1)^1 = 1; increment 1^1 + 3
    let mut c = Counter::new();
    c.update_count(&[(CounterState::Increment, 3), (CounterState::Pending, 9)]);
    assert_eq!(c.count.accumulated_actions, 3);
    assert_eq!(c.count.value, BigInt::from(4));
    assert_eq!(c.count.meter, CountMeter { increment: 1, decrement: 0, pending: 1 });
}

#[test]
fn growth_with_raised_parameters() {
    // 5 digits: step 2; exponent 1 gives power 3; base 2
    let mut c = counter_at(BigInt::from(10_000));
    c.upgrade = Upgrade { level: 1, last_upgrade: PollState::Base, base: 2, exponent: 1 };
    c.update_count(&[
        (CounterState::Increment, 0),
        (CounterState::Increment, 0),
        (CounterState::Decrement, 1),
    ]);
    // increment (2*2)^3 = 64; actions -1 * ((1+1)*2)^3 = -64; decrement (1*2)^3 + 64 = 72
    assert_eq!(c.count.accumulated_actions, -1);
    assert_eq!(c.count.value, BigInt::from(10_000 + 64 - 72));
}

#[test]
fn modifier_value() {
    let u = Upgrade { level: 2, last_upgrade: PollState::Pending, base: 3, exponent: 1 };
    assert_eq!(u.modifier(1), BigInt::from(81));
    assert_eq!(Upgrade::new().modifier(0), BigInt::from(1));
}

#[test]
fn count_string_is_decimal() {
    let c = counter_at(BigInt::from(1_234_567_890_123u64));
    assert_eq!(c.count_string(), "1234567890123");
    assert_eq!(counter_at(googol()).count_string().len(), 101);
}

#[test]
fn poll_tick_rules() {
    let mut p = Poll::new();
    assert_eq!(p.time_remaining, POLL_TICKS);
    assert!(!p.tick());
    assert_eq!(p.time_remaining, 1200);
    p.meter = PollMeter { base: 1, exponent: 0, pending: 0 };
    assert!(!p.tick());
    assert_eq!(p.time_remaining, 1196);
    p.meter = PollMeter { base: 1, exponent: 0, pending: 5 };
    assert!(!p.tick());
    assert_eq!(p.time_remaining, 1195);
    p.time_remaining = 2;
    p.meter = PollMeter { base: 2, exponent: 1, pending: 0 };
    assert!(!p.tick());
    assert_eq!(p.time_remaining, 0);
    assert!(p.tick());
    assert_eq!(Poll::default(), Poll::new());
}

#[test]
fn empty_ticks_change_nothing() {
    let mut c = counter_at(BigInt::from(123_456));
    c.upgrade = Upgrade { level: 3, last_upgrade: PollState::Base, base: 4, exponent: 2 };
    c.poll = Some(Poll { time_remaining: 17, amplification: 2, meter: PollMeter::default() });
    let start = c.clone();
    let mut before = c.clone();
    let mut messages = 0;
    for _ in 0..5 {
        if tick(&mut c, &mut before, &[], &[]) {
            messages += 1;
        }
    }
    assert_eq!(c, start);
    assert_eq!(messages, 0);
}

#[test]
fn broadcast_only_on_change() {
    let mut c = Counter::new();
    let mut before = Counter::new();
    let mut messages = 0;
    for _ in 0..3 {
        if tick(&mut c, &mut before, &[], &[]) {
            messages += 1;
        }
    }
    assert_eq!(messages, 0);
    if tick(&mut c, &mut before, &[(CounterState::Increment, 0)], &[]) {
        messages += 1;
    }
    assert_eq!(messages, 1);
    assert_eq!(before, c);
    // the meter changes, though the value does not
    if tick(&mut c, &mut before, &[(CounterState::Pending, 0)], &[]) {
        messages += 1;
    }
    assert_eq!(messages, 2);
    if tick(&mut c, &mut before, &[(CounterState::Pending, 0)], &[]) {
        messages += 1;
    }
    assert_eq!(messages, 2);
}

#[test]
fn same_state_and_duplicate() {
    let c = counter_at(BigInt::from(42));
    let d = c.duplicate();
    assert!(c.same_state(&d));
    assert_eq!(c, d);
    let e = counter_at(BigInt::from(43));
    assert!(!c.same_state(&e));
}

#[test]
fn headroom_check() {
    let mut c = Counter::new();
    assert!(c.has_headroom());
    c.upgrade.base = u32::MAX;
    assert!(!c.has_headroom());
    c.upgrade.base = 1;
    c.upgrade.exponent = u32::MAX - 3;
    c.poll = Some(Poll { time_remaining: 1, amplification: 2, meter: PollMeter::default() });
    assert!(c.has_headroom());
    c.poll = Some(Poll { time_remaining: 1, amplification: 3, meter: PollMeter::default() });
    assert!(!c.has_headroom());
}

#[test]
fn count_default_is_zero() {
    let c = Count::default();
    assert_eq!(c.value, BigInt::from(0));
    assert_eq!(c.accumulated_actions, 0);
}

#[test]
fn well_formed_check() {
    assert!(Counter::new().is_well_formed());
    assert!(counter_at(googol()).is_well_formed());
    assert!(!counter_at(googol() + BigInt::from(1)).is_well_formed());
    assert!(!counter_at(BigInt::from(-1)).is_well_formed());
    let mut c = Counter::new();
    c.upgrade.base = 0;
    assert!(!c.is_well_formed());
    let mut c = Counter::new();
    c.poll = Some(Poll { time_remaining: 3, amplification: 0, meter: PollMeter::default() });
    assert!(!c.is_well_formed());
}

#[test]
fn many_ticks_stay_in_range_and_never_lower_upgrades() {
    let mut c = Counter::new();
    let mut before = Counter::new();
    let zero = BigInt::from(0);
    for t in 0..600usize {
        let counter_all: Vec<(CounterState, usize)> = (0..20usize)
            .map(|i| {
                if (i + t) % 4 == 0 {
                    (CounterState::Decrement, i % 3)
                } else {
                    (CounterState::Increment, (i + t) % 2)
                }
            })
            .collect();
        let polls: Vec<PollState> = (0..20usize)
            .map(|i| if (i * t) % 3 == 0 { PollState::Base } else { PollState::Exponent })
            .collect();
        let prev = c.upgrade;
        assert!(c.has_headroom());
        tick(&mut c, &mut before, &counter_all, &polls);
        assert!(c.count.value >= zero && c.count.value <= googol());
        assert!(c.upgrade.level >= prev.level);
        assert!(c.upgrade.base >= prev.base);
        assert!(c.upgrade.exponent >= prev.exponent);
        assert!(c.is_well_formed());
    }
    assert!(c.count.value > zero);
}
