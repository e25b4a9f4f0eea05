//! The open connections, each with its votes, under ids that are never
//! reused.

use vstd::prelude::*;

use crate::votes::{CounterState, PollState};

verus! {

/// The votes of one open connection.
#[derive(Debug, Default, Clone, Copy, PartialEq, Eq, Structural)]
pub struct Client {
    pub counter_state: CounterState,
    pub action_clicks: usize,
    pub poll_state: PollState,
}

/// A message that a connection sends.
#[derive(Debug, Clone, Copy, PartialEq, Eq, Structural)]
pub enum Command {
    Increment,
    Decrement,
    Base,
    Exponent,
    Action,
}

/// The votes of a connection that has just opened.
pub open spec fn fresh_client() -> Client {
    Client {
        counter_state: CounterState::Pending,
        action_clicks: 0,
        poll_state: PollState::Pending,
    }
}

/// The command that a message's text names, if any.
pub open spec fn command_of(text: Seq<char>) -> Option<Command> {
    if text == "increment"@ {
        Some(Command::Increment)
    } else if text == "decrement"@ {
        Some(Command::Decrement)
    } else if text == "base"@ {
        Some(Command::Base)
    } else if text == "exponent"@ {
        Some(Command::Exponent)
    } else if text == "action"@ {
        Some(Command::Action)
    } else {
        None
    }
}

/// A connection's votes after a command; action clicks stop at the
/// largest `usize`.
pub open spec fn client_after(c: Client, cmd: Command) -> Client {
    match cmd {
        Command::Increment => Client { counter_state: CounterState::Increment, ..c },
        Command::Decrement => Client { counter_state: CounterState::Decrement, ..c },
        Command::Base => Client { poll_state: PollState::Base, ..c },
        Command::Exponent => Client { poll_state: PollState::Exponent, ..c },
        Command::Action => Client {
            action_clicks: if c.action_clicks < usize::MAX {
                (c.action_clicks + 1) as usize
            } else {
                c.action_clicks
            },
            ..c
        },
    }
}

/// The entries after `cmd` from connection `id`; other entries are kept.
pub open spec fn entries_after(s: Seq<(usize, Client)>, id: usize, cmd: Command) -> Seq<
    (usize, Client),
> {
    s.map_values(
        |e: (usize, Client)|
            if e.0 == id {
                (e.0, client_after(e.1, cmd))
            } else {
                e
            },
    )
}

/// The entries without connection `id`.
pub open spec fn without(s: Seq<(usize, Client)>, id: usize) -> Seq<(usize, Client)>
    decreases s.len(),
{
    if s.len() == 0 {
        s
    } else if s.last().0 == id {
        without(s.drop_last(), id)
    } else {
        without(s.drop_last(), id).push(s.last())
    }
}

/// The entries with every connection's action clicks at zero.
pub open spec fn clicks_cleared(s: Seq<(usize, Client)>) -> Seq<(usize, Client)> {
    s.map_values(|e: (usize, Client)| (e.0, Client { action_clicks: 0, ..e.1 }))
}

/// The (vote, action clicks) pairs of the entries, in order.
pub open spec fn counter_snapshot(s: Seq<(usize, Client)>) -> Seq<(CounterState, usize)> {
    s.map_values(|e: (usize, Client)| (e.1.counter_state, e.1.action_clicks))
}

/// The poll votes of the entries, in order.
pub open spec fn poll_snapshot(s: Seq<(usize, Client)>) -> Seq<PollState> {
    s.map_values(|e: (usize, Client)| e.1.poll_state)
}

/// Whether `id` has an entry.
pub open spec fn has_id(s: Seq<(usize, Client)>, id: usize) -> bool {
    exists|i: int| 0 <= i < s.len() && s[i].0 == id
}

/// Ids strictly increase along the entries and stay below `next`.
pub open spec fn ids_below(s: Seq<(usize, Client)>, next: usize) -> bool {
    &&& forall|i: int, j: int| 0 <= i < j < s.len() ==> s[i].0 < s[j].0
    &&& forall|i: int| 0 <= i < s.len() ==> s[i].0 < next
}

/// The open connections and the id that the next one gets.
pub struct Registry {
    clients: Vec<(usize, Client)>,
    next_id: usize,
}

impl Registry {
    /// The entries, oldest connection first.
    pub closed spec fn entries(&self) -> Seq<(usize, Client)> {
        self.clients@
    }

    /// The id that the next connection gets.
    pub closed spec fn next(&self) -> usize {
        self.next_id
    }

    /// Ids increase from the oldest entry on, and the next id is above all.
    pub open spec fn wf(&self) -> bool {
        ids_below(self.entries(), self.next())
    }

    /// No connections; ids start at one.
    pub fn new() -> (r: Self)
        ensures
            r.entries() == Seq::<(usize, Client)>::empty(),
            r.next() == 1,
            r.wf(),
    {
        Self { clients: Vec::new(), next_id: 1 }
    }

    /// Whether another connection can still get an id.
    pub fn can_register(&self) -> (r: bool)
        ensures
            r == (self.next() < usize::MAX),
    {
        self.next_id < usize::MAX
    }

    /// Opens a connection with default votes under a new id.
    pub fn register(&mut self) -> (id: usize)
        requires
            old(self).wf(),
            old(self).next() < usize::MAX,
        ensures
            id == old(self).next(),
            final(self).next() == id + 1,
            final(self).entries() == old(self).entries().push((id, fresh_client())),
            !has_id(old(self).entries(), id),
            final(self).wf(),
    {
        let id = self.next_id;
        self.clients.push((id, Client { counter_state: CounterState::Pending, action_clicks: 0, poll_state: PollState::Pending }));
        self.next_id = id + 1;
        id
    }

    /// Closes connection `id`; an unknown id changes nothing.
    pub fn unregister(&mut self, id: usize)
        requires
            old(self).wf(),
        ensures
            final(self).entries() == without(old(self).entries(), id),
            final(self).next() == old(self).next(),
            final(self).wf(),
    {
        let ghost s = self.clients@;
        let mut kept: Vec<(usize, Client)> = Vec::new();
        let n = self.clients.len();
        let mut i: usize = 0;
        while i < n
            invariant
                n == s.len(),
                s == self.clients@,
                ids_below(s, self.next_id),
                0 <= i <= n,
                kept@ == without(s.take(i as int), id),
                forall|k: int| 0 <= k < kept@.len() ==> kept@[k].0 < self.next_id,
                i < n ==> forall|k: int| 0 <= k < kept@.len() ==> kept@[k].0 < s[i as int].0,
                forall|a: int, b: int| 0 <= a < b < kept@.len() ==> kept@[a].0 < kept@[b].0,
            decreases n - i,
        {
            let e = self.clients[i];
            assert(s.take(i + 1).drop_last() =~= s.take(i as int));
            if e.0 != id {
                kept.push(e);
            }
            assert(i + 1 < n ==> s[i as int].0 < s[i + 1].0);
            i += 1;
        }
        assert(s.take(n as int) =~= s);
        self.clients = kept;
    }

    /// Applies a command from connection `id`; an unknown id changes nothing.
    pub fn apply(&mut self, id: usize, cmd: Command)
        requires
            old(self).wf(),
        ensures
            final(self).entries() == entries_after(old(self).entries(), id, cmd),
            final(self).next() == old(self).next(),
            final(self).wf(),
    {
        let ghost s = self.clients@;
        let ghost next = self.next_id;
        let n = self.clients.len();
        let mut i: usize = 0;
        while i < n
            invariant
                n == s.len(),
                self.next_id == next,
                self.clients@.len() == n,
                ids_below(s, self.next_id),
                0 <= i <= n,
                forall|k: int| 0 <= k < i ==> self.clients@[k] == entries_after(s, id, cmd)[k],
                forall|k: int| i <= k < n ==> self.clients@[k] == s[k],
            decreases n - i,
        {
            let (eid, client) = self.clients[i];
            if eid == id {
                let mut c = client;
                match cmd {
                    Command::Increment => c.counter_state = CounterState::Increment,
                    Command::Decrement => c.counter_state = CounterState::Decrement,
                    Command::Base => c.poll_state = PollState::Base,
                    Command::Exponent => c.poll_state = PollState::Exponent,
                    Command::Action => c.action_clicks = c.action_clicks.saturating_add(1),
                }
                self.clients.set(i, (eid, c));
            }
            i += 1;
        }
        assert(self.clients@ =~= entries_after(s, id, cmd));
    }

    /// The (vote, action clicks) pairs and the poll votes of all open
    /// connections, oldest first.
    pub fn snapshot(&self) -> (r: (Vec<(CounterState, usize)>, Vec<PollState>))
        ensures
            r.0@ == counter_snapshot(self.entries()),
            r.1@ == poll_snapshot(self.entries()),
    {
        let mut counter_all: Vec<(CounterState, usize)> = Vec::new();
        let mut polls: Vec<PollState> = Vec::new();
        let n = self.clients.len();
        let mut i: usize = 0;
        while i < n
            invariant
                n == self.clients@.len(),
                0 <= i <= n,
                counter_all@ == counter_snapshot(self.clients@.take(i as int)),
                polls@ == poll_snapshot(self.clients@.take(i as int)),
            decreases n - i,
        {
            let (_, client) = self.clients[i];
            counter_all.push((client.counter_state, client.action_clicks));
            polls.push(client.poll_state);
            i += 1;
            assert(counter_all@ =~= counter_snapshot(self.clients@.take(i as int)));
            assert(polls@ =~= poll_snapshot(self.clients@.take(i as int)));
        }
        assert(self.clients@.take(n as int) =~= self.clients@);
        (counter_all, polls)
    }

    /// Sets every connection's action clicks to zero.
    pub fn reset_action_clicks(&mut self)
        requires
            old(self).wf(),
        ensures
            final(self).entries() == clicks_cleared(old(self).entries()),
            final(self).next() == old(self).next(),
            final(self).wf(),
    {
        let ghost s = self.clients@;
        let ghost next = self.next_id;
        let n = self.clients.len();
        let mut i: usize = 0;
        while i < n
            invariant
                n == s.len(),
                self.next_id == next,
                self.clients@.len() == n,
                ids_below(s, self.next_id),
                0 <= i <= n,
                forall|k: int| 0 <= k < i ==> self.clients@[k] == clicks_cleared(s)[k],
                forall|k: int| i <= k < n ==> self.clients@[k] == s[k],
            decreases n - i,
        {
            let (eid, client) = self.clients[i];
            self.clients.set(i, (eid, Client { action_clicks: 0, ..client }));
            i += 1;
        }
        assert(self.clients@ =~= clicks_cleared(s));
    }
}

/// Whether two strings hold the same characters.
fn same_text(a: &str, b: &str) -> (r: bool)
    ensures
        r == (a@ == b@),
{
    let n = a.unicode_len();
    if n != b.unicode_len() {
        return false;
    }
    let mut i: usize = 0;
    while i < n
        invariant
            n == a@.len(),
            n == b@.len(),
            0 <= i <= n,
            forall|k: int| 0 <= k < i ==> a@[k] == b@[k],
        decreases n - i,
    {
        if a.get_char(i) != b.get_char(i) {
            return false;
        }
        i += 1;
    }
    assert(a@ =~= b@);
    true
}

impl Command {
    /// The command that a message's text names; any other text names none.
    pub fn parse(text: &str) -> (r: Option<Command>)
        ensures
            r == command_of(text@),
    {
        if same_text(text, "increment") {
            Some(Command::Increment)
        } else if same_text(text, "decrement") {
            Some(Command::Decrement)
        } else if same_text(text, "base") {
            Some(Command::Base)
        } else if same_text(text, "exponent") {
            Some(Command::Exponent)
        } else if same_text(text, "action") {
            Some(Command::Action)
        } else {
            None
        }
    }
}

} // verus!
