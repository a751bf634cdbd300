//! The control loop as a state machine: when to run a synchronization pass
//! and when to announce the configuration.

use vstd::prelude::*;

verus! {

/// Where the loop stands.
#[derive(Clone, Copy, Debug, PartialEq, Eq, Structural)]
pub enum State {
    /// Not yet subscribed to the server's notifications.
    Starting,
    /// Waiting for the next notification.
    Idle,
    /// A pass is running.
    Synchronizing,
}

/// What happened.
#[derive(Clone, Copy, Debug, PartialEq, Eq, Structural)]
pub enum Event {
    /// The subscription to notifications succeeded.
    Subscribed,
    /// The server reported a screen change.
    ScreenChange,
    /// The server reported anything else, or the wait failed.
    Other,
    /// The running pass ended, however it went.
    PassDone,
}

/// What to do next.
#[derive(Clone, Copy, Debug, PartialEq, Eq, Structural)]
pub enum Action {
    /// Run one pass; `force_print` asks for the configuration to be
    /// announced even where nothing changed.
    Synchronize { force_print: bool },
    /// Block until the next notification.
    Wait,
}

/// The loop's transitions. The first pass runs right after subscribing and
/// is announced in any case. After that a pass runs for each screen change
/// that arrives while the loop is idle; every other notification is
/// dropped. A pass is never started while one runs.
pub open spec fn transition(state: State, event: Event) -> (State, Action) {
    match (state, event) {
        (State::Starting, Event::Subscribed) => (State::Synchronizing, Action::Synchronize { force_print: true }),
        (State::Idle, Event::ScreenChange) => (State::Synchronizing, Action::Synchronize { force_print: false }),
        (State::Synchronizing, Event::PassDone) => (State::Idle, Action::Wait),
        (s, _) => (s, Action::Wait),
    }
}

/// Takes the loop from one state to the next on an event.
pub fn next(state: State, event: Event) -> (r: (State, Action))
    ensures
        r == transition(state, event),
{
    match (state, event) {
        (State::Starting, Event::Subscribed) => (State::Synchronizing, Action::Synchronize { force_print: true }),
        (State::Idle, Event::ScreenChange) => (State::Synchronizing, Action::Synchronize { force_print: false }),
        (State::Synchronizing, Event::PassDone) => (State::Idle, Action::Wait),
        (s, _) => (s, Action::Wait),
    }
}

/// Whether a pass that went through is announced: where it changed
/// something, or where the announcement was asked for.
pub fn announces(changed: bool, force_print: bool) -> (r: bool)
    ensures
        r == (changed || force_print),
{
    changed || force_print
}

/// A pass starts only from a state in which none runs, and ends in the
/// idle state only: no two passes overlap.
pub proof fn lemma_passes_do_not_overlap(state: State, event: Event)
    ensures
        transition(state, event).1 is Synchronize ==> state != State::Synchronizing && transition(
            state,
            event,
        ).0 == State::Synchronizing,
        state == State::Synchronizing ==> transition(state, event).1 == Action::Wait,
{
}

} // verus!
