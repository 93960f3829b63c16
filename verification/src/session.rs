//! The lifecycle of one connection.
//!
//! A connection is greeted, registered, served by a reader and a writer
//! loop, and unregistered when the first of the two loops ends. The owner of
//! the transport reports what happened; the session says what to do with
//! the registry.

use vstd::prelude::*;

verus! {

/// Where a connection is in its life.
#[derive(Debug, Clone, Copy, PartialEq, Eq, Structural)]
pub enum State {
    /// The transport is up; the greeting is not sent yet.
    Connecting,
    /// The connection is registered, and both loops run.
    Active,
    /// One loop has ended and the record is removed; the other loop is left
    /// to end on its own.
    Draining,
    /// Both loops have ended, or the greeting could not be sent.
    Closed,
}

/// What the owner of the transport reports.
#[derive(Debug, Clone, Copy, PartialEq, Eq, Structural)]
pub enum Event {
    /// The greeting frame was sent.
    Greeted,
    /// The greeting frame could not be sent.
    GreetingFailed,
    /// The reader or the writer loop has ended: the stream closed or failed,
    /// the peer said goodbye, or a delivery to the transport failed.
    LoopEnded,
}

/// What the owner of the transport does with the registry next.
#[derive(Debug, Clone, Copy, PartialEq, Eq, Structural)]
pub enum Step {
    /// Register the connection and start both loops.
    Register,
    /// Remove the connection's record.
    Unregister,
    /// Leave the registry as it is.
    Nothing,
}

/// The state after an event, and the step that the event calls for. An
/// event that does not belong to a state changes nothing.
pub open spec fn next(state: State, event: Event) -> (State, Step) {
    match (state, event) {
        (State::Connecting, Event::Greeted) => (State::Active, Step::Register),
        (State::Connecting, Event::GreetingFailed) => (State::Closed, Step::Nothing),
        (State::Active, Event::LoopEnded) => (State::Draining, Step::Unregister),
        (State::Draining, Event::LoopEnded) => (State::Closed, Step::Nothing),
        _ => (state, Step::Nothing),
    }
}

/// The state after a run of events.
pub open spec fn state_after(state: State, events: Seq<Event>) -> State
    decreases events.len(),
{
    if events.len() == 0 {
        state
    } else {
        next(state_after(state, events.drop_last()), events.last()).0
    }
}

/// How often a run of events calls for `step`.
pub open spec fn count_of(state: State, events: Seq<Event>, step: Step) -> nat
    decreases events.len(),
{
    if events.len() == 0 {
        0
    } else {
        let before = count_of(state, events.drop_last(), step);
        if next(state_after(state, events.drop_last()), events.last()).1 == step {
            before + 1
        } else {
            before
        }
    }
}

/// The greeting that a connection receives first.
pub fn greeting() -> (text: String)
    ensures
        text@ == "connected(server)"@,
{
    "connected(server)".to_string()
}

/// Advances a connection by one event.
pub fn advance(state: State, event: Event) -> (r: (State, Step))
    ensures
        r == next(state, event),
{
    match state {
        State::Connecting => match event {
            Event::Greeted => (State::Active, Step::Register),
            Event::GreetingFailed => (State::Closed, Step::Nothing),
            Event::LoopEnded => (state, Step::Nothing),
        },
        State::Active => match event {
            Event::LoopEnded => (State::Draining, Step::Unregister),
            _ => (state, Step::Nothing),
        },
        State::Draining => match event {
            Event::LoopEnded => (State::Closed, Step::Nothing),
            _ => (state, Step::Nothing),
        },
        State::Closed => (state, Step::Nothing),
    }
}

/// A closed connection stays closed, and asks nothing of the registry.
pub proof fn lemma_closed_is_terminal(event: Event)
    ensures
        next(State::Closed, event) == (State::Closed, Step::Nothing),
{
}

/// Whatever is reported of a new connection, and in whatever order: it is
/// registered at most once, unregistered only after that and at most once,
/// and exactly once by the time it is closed after having been registered.
/// Until it is registered nothing is asked of the registry, and while it
/// is active its record is in place.
pub proof fn lemma_cleanup_exactly_once(events: Seq<Event>)
    ensures
        ({
            let state = state_after(State::Connecting, events);
            let registered = count_of(State::Connecting, events, Step::Register);
            let unregistered = count_of(State::Connecting, events, Step::Unregister);
            &&& registered <= 1
            &&& unregistered <= registered
            &&& state == State::Connecting ==> registered == 0
            &&& state == State::Active ==> registered == 1 && unregistered == 0
            &&& state == State::Draining ==> registered == 1 && unregistered == 1
            &&& state == State::Closed ==> unregistered == registered
        }),
    decreases events.len(),
{
    if events.len() > 0 {
        lemma_cleanup_exactly_once(events.drop_last());
    }
}

} // verus!
