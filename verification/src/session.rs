//! The per-connection lifecycle: a handling unit walks one connection
//! through accept, registration, the active read loop, closing, and removal.
//! `session_step` is the full transition table; the proofs below show the
//! disconnect event fires at most once per connection, and exactly once as
//! soon as a read yields a close or a failure.

use vstd::prelude::*;

verus! {

use crate::io::ReadOutcome;

/// Where one connection's handling unit stands.
#[derive(Clone, Copy, PartialEq, Eq, Structural, Debug)]
pub enum SessionState {
    /// The transport was accepted; nothing is registered yet.
    Accepted,
    /// The connection is registered; the connect event is still owed.
    Registered,
    /// The read loop runs: each read is classified and acted on.
    Active,
    /// A close or failure was seen; the disconnect event is owed once.
    Closing,
    /// The registry entry is gone; the handling unit is done. Terminal.
    Removed,
}

/// What one step obliges the handling unit to do.
#[derive(Debug, PartialEq, Eq)]
pub enum SessionAction {
    /// Decode these bytes and fire the message event with the result.
    FireMessage(Vec<u8>),
    /// Fire the disconnect event, once.
    FireDisconnect,
    /// Delete this connection's registry entry and stop.
    RemoveEntry,
    /// Nothing is owed for a read in this state.
    Idle,
}

/// The transition table: reads only matter in the active state; a close or
/// a failure leaves it for good.
pub open spec fn spec_session_step(s: SessionState, o: ReadOutcome) -> (SessionState,
    SessionAction) {
    match s {
        SessionState::Accepted => (SessionState::Accepted, SessionAction::Idle),
        SessionState::Registered => (SessionState::Registered, SessionAction::Idle),
        SessionState::Active => match o {
            ReadOutcome::Data(buf) => (SessionState::Active, SessionAction::FireMessage(buf)),
            ReadOutcome::Closed => (SessionState::Closing, SessionAction::FireDisconnect),
            ReadOutcome::Failed(_) => (SessionState::Closing, SessionAction::FireDisconnect),
        },
        SessionState::Closing => (SessionState::Removed, SessionAction::RemoveEntry),
        SessionState::Removed => (SessionState::Removed, SessionAction::Idle),
    }
}

/// Take one step of the session lifecycle.
pub fn session_step(s: SessionState, o: ReadOutcome) -> (r: (SessionState, SessionAction))
    ensures
        r == spec_session_step(s, o),
{
    match s {
        SessionState::Accepted => (SessionState::Accepted, SessionAction::Idle),
        SessionState::Registered => (SessionState::Registered, SessionAction::Idle),
        SessionState::Active => match o {
            ReadOutcome::Data(buf) => (SessionState::Active, SessionAction::FireMessage(buf)),
            ReadOutcome::Closed => (SessionState::Closing, SessionAction::FireDisconnect),
            ReadOutcome::Failed(_) => (SessionState::Closing, SessionAction::FireDisconnect),
        },
        SessionState::Closing => (SessionState::Removed, SessionAction::RemoveEntry),
        SessionState::Removed => (SessionState::Removed, SessionAction::Idle),
    }
}

/// The actions owed over a whole sequence of reads, starting from `s`.
pub open spec fn spec_run(s: SessionState, outs: Seq<ReadOutcome>) -> Seq<SessionAction>
    decreases outs.len(),
{
    if outs.len() == 0 {
        Seq::empty()
    } else {
        let step = spec_session_step(s, outs[0]);
        seq![step.1] + spec_run(step.0, outs.skip(1))
    }
}

/// How many of these actions fire the disconnect event.
pub open spec fn count_disconnects(actions: Seq<SessionAction>) -> int
    decreases actions.len(),
{
    if actions.len() == 0 {
        0
    } else {
        (if actions[0] is FireDisconnect {
            1int
        } else {
            0int
        }) + count_disconnects(actions.skip(1))
    }
}

proof fn lemma_count_cons(a: SessionAction, rest: Seq<SessionAction>)
    ensures
        count_disconnects(seq![a] + rest) == (if a is FireDisconnect {
            1int
        } else {
            0int
        }) + count_disconnects(rest),
{
    let s = seq![a] + rest;
    assert(s[0] == a);
    assert(s.skip(1) =~= rest);
}

/// Once a session has left the active state, no further read — however many
/// follow — fires the disconnect event again.
pub proof fn lemma_closed_states_quiet(s: SessionState, outs: Seq<ReadOutcome>)
    requires
        s is Closing || s is Removed,
    ensures
        count_disconnects(spec_run(s, outs)) == 0,
    decreases outs.len(),
{
    if outs.len() > 0 {
        let step = spec_session_step(s, outs[0]);
        lemma_count_cons(step.1, spec_run(step.0, outs.skip(1)));
        lemma_closed_states_quiet(step.0, outs.skip(1));
    }
}

/// From the active state, a whole run of reads fires the disconnect event at
/// most once; and exactly once as soon as any read yields a close or a
/// failure rather than data.
pub proof fn lemma_disconnect_once(outs: Seq<ReadOutcome>)
    ensures
        count_disconnects(spec_run(SessionState::Active, outs)) <= 1,
        (exists|i: int| 0 <= i < outs.len() && !(outs[i] is Data)) ==> count_disconnects(
            spec_run(SessionState::Active, outs),
        ) == 1,
    decreases outs.len(),
{
    if outs.len() > 0 {
        let step = spec_session_step(SessionState::Active, outs[0]);
        lemma_count_cons(step.1, spec_run(step.0, outs.skip(1)));
        if outs[0] is Data {
            lemma_disconnect_once(outs.skip(1));
            if exists|i: int| 0 <= i < outs.len() && !(outs[i] is Data) {
                let i = choose|i: int| 0 <= i < outs.len() && !(outs[i] is Data);
                assert(i != 0);
                assert(!(outs.skip(1)[i - 1] is Data));
            }
        } else {
            lemma_closed_states_quiet(SessionState::Closing, outs.skip(1));
        }
    }
}

} // verus!
