use one_googol::registry::{Client, Command, Registry};
use one_googol::scheduler::collect_votes;
use one_googol::votes::{CountMeter, CounterState, PollMeter, PollState};

#[test]
fn register_adds_one_default_entry() {
    let mut r = Registry::new();
    let a = r.register();
    assert_eq!(a, 1);
    let (counts, polls) = r.snapshot();
    assert_eq!(counts, vec![(CounterState::Pending, 0)]);
    assert_eq!(polls, vec![PollState::Pending]);
    let b = r.register();
    assert_eq!(b, 2);
    assert_eq!(r.snapshot().0.len(), 2);
}

#[test]
fn register_then_unregister_restores() {
    let mut r = Registry::new();
    let a = r.register();
    r.apply(a, Command::Increment);
    let before = r.snapshot();
    let b = r.register();
    r.unregister(b);
    assert_eq!(r.snapshot(), before);
    // the id is gone: commands to it change nothing
    r.apply(b, Command::Decrement);
    assert_eq!(r.snapshot(), before);
    // ids are never reused
    assert_eq!(r.register(), 3);
}

#[test]
fn unknown_ids_are_ignored() {
    let mut r = Registry::new();
    r.register();
    r.unregister(99);
    r.apply(99, Command::Action);
    assert_eq!(r.snapshot().0, vec![(CounterState::Pending, 0)]);
}

#[test]
fn commands_set_votes() {
    let mut r = Registry::new();
    let a = r.register();
    let b = r.register();
    r.apply(a, Command::Decrement);
    r.apply(a, Command::Base);
    r.apply(b, Command::Increment);
    r.apply(b, Command::Exponent);
    r.apply(b, Command::Action);
    r.apply(b, Command::Action);
    let (counts, polls) = r.snapshot();
    assert_eq!(counts, vec![(CounterState::Decrement, 0), (CounterState::Increment, 2)]);
    assert_eq!(polls, vec![PollState::Base, PollState::Exponent]);
}

#[test]
fn collect_votes_clears_clicks() {
    let mut r = Registry::new();
    let a = r.register();
    r.apply(a, Command::Increment);
    r.apply(a, Command::Action);
    let (counts, _) = collect_votes(&mut r);
    assert_eq!(counts, vec![(CounterState::Increment, 1)]);
    let (counts, _) = collect_votes(&mut r);
    assert_eq!(counts, vec![(CounterState::Increment, 0)]);
}

#[test]
fn reset_action_clicks_keeps_votes() {
    let mut r = Registry::new();
    let a = r.register();
    r.apply(a, Command::Exponent);
    r.apply(a, Command::Action);
    r.reset_action_clicks();
    let (counts, polls) = r.snapshot();
    assert_eq!(counts, vec![(CounterState::Pending, 0)]);
    assert_eq!(polls, vec![PollState::Exponent]);
}

#[test]
fn parse_commands() {
    assert_eq!(Command::parse("increment"), Some(Command::Increment));
    assert_eq!(Command::parse("decrement"), Some(Command::Decrement));
    assert_eq!(Command::parse("base"), Some(Command::Base));
    assert_eq!(Command::parse("exponent"), Some(Command::Exponent));
    assert_eq!(Command::parse("action"), Some(Command::Action));
    assert_eq!(Command::parse("Increment"), None);
    assert_eq!(Command::parse("act"), None);
    assert_eq!(Command::parse(""), None);
}

#[test]
fn meters_count_votes() {
    let m = CounterState::meter_counter(&[
        CounterState::Increment,
        CounterState::Pending,
        CounterState::Increment,
        CounterState::Decrement,
    ]);
    assert_eq!(m, CountMeter { increment: 2, decrement: 1, pending: 1 });
    let p = PollState::meter_poll(&[PollState::Exponent, PollState::Exponent, PollState::Base]);
    assert_eq!(p, PollMeter { base: 1, exponent: 2, pending: 0 });
    assert_eq!(CounterState::meter_counter(&[]), CountMeter::default());
    assert_eq!(PollState::meter_poll(&[]), PollMeter::default());
}

#[test]
fn client_default_is_pending() {
    let c = Client::default();
    assert_eq!(c.counter_state, CounterState::Pending);
    assert_eq!(c.action_clicks, 0);
    assert_eq!(c.poll_state, PollState::Pending);
}

#[test]
fn snapshot_keeps_connection_order() {
    let mut r = Registry::new();
    let a = r.register();
    let b = r.register();
    let c = r.register();
    r.apply(a, Command::Increment);
    r.apply(c, Command::Decrement);
    r.unregister(b);
    let (counts, polls) = r.snapshot();
    assert_eq!(counts, vec![(CounterState::Increment, 0), (CounterState::Decrement, 0)]);
    assert_eq!(polls.len(), 2);
}
