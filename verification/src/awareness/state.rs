//! Presence: what each connected client last said about itself.
//!
//! A client's state is an opaque JSON value that is stored and handed on,
//! never looked into. Updates of one client are ordered by its clock; of
//! two updates the one with the larger clock stays. Time is the host's: a
//! count of milliseconds that the caller reads and passes in.

use super::clock::IncreasingClock;
use serde_json::Value;
use vstd::prelude::*;

verus! {

#[verifier::external_type_specification]
#[verifier::external_body]
pub struct ExValue(serde_json::Value);

/// A copy of a JSON value. Calls `Value::clone`; trusted: the copy is the
/// same value.
#[verifier::external_body]
fn clone_value(value: &Value) -> (copy: Value)
    ensures
        copy == *value,
{
    value.clone()
}

/// What one client last said, as plain values.
pub struct StateView {
    pub client: Seq<char>,
    pub state: Value,
    pub clock: u64,
    pub last_updated: Option<u64>,
}

/// The presence state of one client.
#[derive(Debug)]
pub struct AwarenessState {
    /// The client.
    pub client_id: String,
    /// Its state: user, cursor, selection, whatever the host stores.
    pub state: Value,
    /// The client's clock when it sent the state.
    pub clock: u64,
    /// When the state arrived here, in the host's milliseconds.
    pub last_updated: Option<u64>,
}

impl View for AwarenessState {
    type V = StateView;

    open spec fn view(&self) -> StateView {
        StateView {
            client: self.client_id@,
            state: self.state,
            clock: self.clock,
            last_updated: self.last_updated,
        }
    }
}

/// A change of one client's presence; no state means the client left.
#[derive(Debug)]
pub struct AwarenessUpdate {
    pub client_id: String,
    pub state: Option<Value>,
    pub clock: u64,
}

/// The states of a list as plain values.
pub open spec fn state_views(states: Seq<AwarenessState>) -> Seq<StateView> {
    Seq::new(states.len(), |i: int| states[i]@)
}

/// The index, from `i` on, of the first state of client `name`; the
/// number of states if there is none.
pub open spec fn state_from(s: Seq<StateView>, name: Seq<char>, i: int) -> int
    decreases s.len() - i,
{
    if i < 0 || i >= s.len() {
        s.len() as int
    } else if s[i].client == name {
        i
    } else {
        state_from(s, name, i + 1)
    }
}

/// Whether a state of client `name` is stored.
pub open spec fn knows(s: Seq<StateView>, name: Seq<char>) -> bool {
    0 <= state_from(s, name, 0) < s.len()
}

/// The states with `entry` stored for its client: in place of the
/// client's earlier state, or added at the end.
pub open spec fn with_state(s: Seq<StateView>, entry: StateView) -> Seq<StateView> {
    if knows(s, entry.client) {
        s.update(state_from(s, entry.client, 0), entry)
    } else {
        s.push(entry)
    }
}

/// The states without the first state of client `name`.
pub open spec fn without_state(s: Seq<StateView>, name: Seq<char>) -> Seq<StateView> {
    if knows(s, name) {
        s.remove(state_from(s, name, 0))
    } else {
        s
    }
}

/// Whether a state has not been heard of for longer than `timeout`.
pub open spec fn is_stale(entry: StateView, now: u64, timeout: u64) -> bool {
    match entry.last_updated {
        Some(at) => now > at && now - at > timeout,
        None => false,
    }
}

/// The states among the first `n` that are not stale, in order.
pub open spec fn fresh_upto(s: Seq<StateView>, now: u64, timeout: u64, n: nat) -> Seq<StateView>
    decreases n,
{
    if n == 0 {
        Seq::empty()
    } else if is_stale(s[n - 1], now, timeout) {
        fresh_upto(s, now, timeout, (n - 1) as nat)
    } else {
        fresh_upto(s, now, timeout, (n - 1) as nat).push(s[n - 1])
    }
}

/// The clients among the first `n` states whose state is stale, in order.
pub open spec fn stale_upto(s: Seq<StateView>, now: u64, timeout: u64, n: nat) -> Seq<Seq<char>>
    decreases n,
{
    if n == 0 {
        Seq::empty()
    } else if is_stale(s[n - 1], now, timeout) {
        stale_upto(s, now, timeout, (n - 1) as nat).push(s[n - 1].client)
    } else {
        stale_upto(s, now, timeout, (n - 1) as nat)
    }
}

/// The names of a list as plain values.
pub open spec fn name_views(names: Seq<String>) -> Seq<Seq<char>> {
    Seq::new(names.len(), |i: int| names[i]@)
}

/// The states after an update arrived at time `now`: a state with a
/// larger clock than the stored one, or for an unknown client, is stored;
/// a leave removes the client's state.
pub open spec fn applied(s: Seq<StateView>, client: Seq<char>, state: Option<Value>, clock: u64, now: u64) -> Seq<
    StateView,
> {
    match state {
        Some(value) => if !knows(s, client) || clock > s[state_from(s, client, 0)].clock {
            with_state(s, StateView { client, state: value, clock, last_updated: Some(now) })
        } else {
            s
        },
        None => without_state(s, client),
    }
}

/// What `state_from` returns lies between `i` and the number of states.
pub proof fn lemma_state_from(s: Seq<StateView>, name: Seq<char>, i: int)
    requires
        0 <= i <= s.len(),
    ensures
        i <= state_from(s, name, i) <= s.len(),
        state_from(s, name, i) < s.len() ==> s[state_from(s, name, i)].client == name,
    decreases s.len() - i,
{
    if i < s.len() && s[i].client != name {
        lemma_state_from(s, name, i + 1);
    }
}

/// The index of the first state of client `name`.
fn find_state(states: &Vec<AwarenessState>, name: &str) -> (k: usize)
    ensures
        k == state_from(state_views(states@), name@, 0),
        k <= states@.len(),
        k < states@.len() ==> states@[k as int].client_id@ == name@,
{
    let ghost s = state_views(states@);
    let mut k: usize = 0;
    while k < states.len()
        invariant
            k <= states@.len(),
            s == state_views(states@),
            state_from(s, name@, 0) == state_from(s, name@, k as int),
        decreases states@.len() - k,
    {
        assert(s[k as int].client == states@[k as int].client_id@);
        if str_same(states[k].client_id.as_str(), name) {
            return k;
        }
        k = k + 1;
    }
    k
}

/// Whether two names are the same.
fn str_same(a: &str, b: &str) -> (same: bool)
    ensures
        same == (a@ == b@),
{
    let x = a.to_owned();
    let y = b.to_owned();
    x == y
}

/// Stores `entry` for its client.
fn put_state(states: &mut Vec<AwarenessState>, entry: AwarenessState)
    ensures
        state_views(final(states)@) == with_state(state_views(old(states)@), entry@),
{
    let ghost s = state_views(states@);
    let k = find_state(states, entry.client_id.as_str());
    if k < states.len() {
        states.remove(k);
        states.insert(k, entry);
        assert(state_views(states@) =~= s.update(k as int, entry@));
    } else {
        states.push(entry);
        assert(state_views(states@) =~= s.push(entry@));
    }
}

/// All clients' presence as one client sees it.
#[derive(Debug)]
pub struct Awareness {
    client_id: String,
    states: Vec<AwarenessState>,
    clock: IncreasingClock,
}

impl Awareness {
    /// The name of the local client.
    pub closed spec fn client(&self) -> Seq<char> {
        self.client_id@
    }

    /// The stored states, in the order in which their clients appeared.
    pub closed spec fn states(&self) -> Seq<StateView> {
        state_views(self.states@)
    }

    /// The value of the local clock.
    pub closed spec fn clock_value(&self) -> u64 {
        self.clock@
    }

    /// Presence for client `client_id`, with no state known.
    pub fn new(client_id: String) -> (awareness: Self)
        ensures
            awareness.client() == client_id@,
            awareness.states() == Seq::<StateView>::empty(),
            awareness.clock_value() == 0,
    {
        let awareness = Awareness { client_id, states: Vec::new(), clock: IncreasingClock::new() };
        assert(state_views(awareness.states@) =~= Seq::<StateView>::empty());
        awareness
    }

    /// The name of the local client.
    pub fn client_id(&self) -> (name: &str)
        ensures
            name@ == self.client(),
    {
        self.client_id.as_str()
    }

    /// The value of the local clock.
    pub fn clock(&self) -> (value: u64)
        ensures
            value == self.clock_value(),
    {
        self.clock.get()
    }

    /// All stored states.
    pub fn get_states(&self) -> (states: &Vec<AwarenessState>)
        ensures
            state_views(states@) == self.states(),
    {
        &self.states
    }

    /// The state of client `client_id`, if one is stored.
    pub fn get_state(&self, client_id: &str) -> (found: Option<&AwarenessState>)
        ensures
            found is Some <==> knows(self.states(), client_id@),
            found is Some ==> found->0@ == self.states()[state_from(self.states(), client_id@, 0)],
    {
        let k = find_state(&self.states, client_id);
        if k < self.states.len() {
            assert(self.states@[k as int]@ == state_views(self.states@)[k as int]);
            Some(&self.states[k])
        } else {
            None
        }
    }

    /// The state of the local client, if one is stored.
    pub fn get_local_state(&self) -> (found: Option<&AwarenessState>)
        ensures
            found is Some <==> knows(self.states(), self.client()),
            found is Some ==> found->0@ == self.states()[state_from(self.states(), self.client(), 0)],
    {
        self.get_state(self.client_id.as_str())
    }

    /// Stores `state` as the local client's at time `now` and returns the
    /// update to send to the others. The local clock counts one up and
    /// stamps both.
    pub fn set_local_state(&mut self, state: Value, now: u64) -> (update: AwarenessUpdate)
        requires
            old(self).clock_value() < u64::MAX,
        ensures
            final(self).client() == old(self).client(),
            final(self).clock_value() == old(self).clock_value() + 1,
            update.client_id@ == old(self).client(),
            update.state == Some(state),
            update.clock == final(self).clock_value(),
            final(self).states() == with_state(
                old(self).states(),
                StateView {
                    client: old(self).client(),
                    state,
                    clock: update.clock,
                    last_updated: Some(now),
                },
            ),
    {
        let clock = self.clock.increment();
        let awareness_state = AwarenessState {
            client_id: self.client_id.clone(),
            state: clone_value(&state),
            clock,
            last_updated: Some(now),
        };
        put_state(&mut self.states, awareness_state);
        AwarenessUpdate { client_id: self.client_id.clone(), state: Some(state), clock }
    }

    /// Takes in an update that arrived at time `now`. The local clock
    /// moves forward to the update's clock if that is ahead.
    pub fn apply_update(&mut self, update: AwarenessUpdate, now: u64)
        ensures
            final(self).client() == old(self).client(),
            final(self).clock_value() == (if old(self).clock_value() >= update.clock {
                old(self).clock_value()
            } else {
                update.clock
            }),
            final(self).states() == applied(
                old(self).states(),
                update.client_id@,
                update.state,
                update.clock,
                now,
            ),
    {
        self.clock.update_to_max(update.clock);
        let ghost s = state_views(self.states@);
        let k = find_state(&self.states, update.client_id.as_str());
        match update.state {
            Some(state) => {
                let should_update = if k < self.states.len() {
                    assert(self.states@[k as int]@ == s[k as int]);
                    update.clock > self.states[k].clock
                } else {
                    true
                };
                if should_update {
                    put_state(
                        &mut self.states,
                        AwarenessState {
                            client_id: update.client_id,
                            state,
                            clock: update.clock,
                            last_updated: Some(now),
                        },
                    );
                }
            },
            None => {
                if k < self.states.len() {
                    self.states.remove(k);
                    assert(state_views(self.states@) =~= s.remove(k as int));
                }
            },
        }
    }

    /// Drops every state that has not been heard of for more than
    /// `timeout` milliseconds at time `now`, and returns their clients.
    pub fn remove_stale_clients(&mut self, now: u64, timeout: u64) -> (removed: Vec<String>)
        ensures
            final(self).client() == old(self).client(),
            final(self).clock_value() == old(self).clock_value(),
            final(self).states() == fresh_upto(old(self).states(), now, timeout, old(self).states().len()),
            name_views(removed@) == stale_upto(old(self).states(), now, timeout, old(self).states().len()),
    {
        let ghost s = state_views(self.states@);
        let mut kept: Vec<AwarenessState> = Vec::new();
        let mut removed: Vec<String> = Vec::new();
        let mut old_states: Vec<AwarenessState> = Vec::new();
        std::mem::swap(&mut self.states, &mut old_states);
        let mut i: usize = 0;
        assert(state_views(kept@) =~= fresh_upto(s, now, timeout, 0));
        assert(name_views(removed@) =~= stale_upto(s, now, timeout, 0));
        while i < old_states.len()
            invariant
                i <= old_states@.len(),
                s == state_views(old_states@),
                state_views(kept@) == fresh_upto(s, now, timeout, i as nat),
                name_views(removed@) == stale_upto(s, now, timeout, i as nat),
            decreases old_states@.len() - i,
        {
            let entry = &old_states[i];
            assert(entry@ == s[i as int]);
            let stale = match entry.last_updated {
                Some(at) => now > at && now - at > timeout,
                None => false,
            };
            let ghost kept_before = state_views(kept@);
            let ghost removed_before = name_views(removed@);
            if stale {
                removed.push(entry.client_id.clone());
                assert(name_views(removed@) =~= removed_before.push(entry@.client));
            } else {
                kept.push(
                    AwarenessState {
                        client_id: entry.client_id.clone(),
                        state: clone_value(&entry.state),
                        clock: entry.clock,
                        last_updated: entry.last_updated,
                    },
                );
                assert(state_views(kept@) =~= kept_before.push(entry@));
            }
            i = i + 1;
        }
        self.states = kept;
        removed
    }

    /// The update that tells the others that the local client left. The
    /// local clock counts one up and stamps it.
    pub fn create_leave_update(&mut self) -> (update: AwarenessUpdate)
        requires
            old(self).clock_value() < u64::MAX,
        ensures
            final(self).client() == old(self).client(),
            final(self).states() == old(self).states(),
            final(self).clock_value() == old(self).clock_value() + 1,
            update.client_id@ == old(self).client(),
            update.state is None,
            update.clock == final(self).clock_value(),
    {
        let clock = self.clock.increment();
        AwarenessUpdate { client_id: self.client_id.clone(), state: None, clock }
    }

    /// The number of clients with a stored state, the local one included.
    pub fn client_count(&self) -> (n: usize)
        ensures
            n == self.states().len(),
    {
        self.states.len()
    }

    /// The number of clients with a stored state, the local one not counted.
    pub fn other_client_count(&self) -> (n: usize)
        ensures
            n == (if knows(self.states(), self.client()) {
                self.states().len() - 1
            } else {
                self.states().len() as int
            }),
    {
        let k = find_state(&self.states, self.client_id.as_str());
        if k < self.states.len() {
            self.states.len() - 1
        } else {
            self.states.len()
        }
    }
}

} // verus!
