//! The decisions of the server loop. Whoever owns the listening socket
//! performs each action and hands back what happened; the loop itself is this
//! transition function. Once the socket is bound the loop stays in
//! `Accepting`: a connection is handed to its handler and the loop accepts
//! again at once, and handlers report back whenever they end.

use vstd::prelude::*;
use crate::message::{CborSocketExampleError, ErrorView};

verus! {

/// Where the server loop stands.
#[derive(Clone, Copy, Debug, PartialEq, Eq, Structural)]
pub enum ServerState {
    /// Nothing is known yet of the socket path.
    Init,
    /// A stale entry at the socket path is being removed.
    Removing,
    /// The listening socket is being bound.
    Binding,
    /// The loop waits for the next connection, while handlers run on their own.
    Accepting,
    /// The loop has ended.
    Stopped,
}

/// What happened since the last action.
#[derive(Debug, PartialEq, Eq)]
pub enum ServerEvent {
    /// The socket path was looked at; `exists` says whether an entry is there.
    PathChecked { exists: bool },
    /// The stale entry is gone.
    Removed,
    /// The listening socket is bound.
    Bound,
    /// A connection arrived.
    Accepted,
    /// Waiting for a connection failed with `error`.
    AcceptFailed { error: CborSocketExampleError },
    /// The handler of a connection returned with `outcome`.
    Handled { outcome: Result<(), CborSocketExampleError> },
    /// Removing the stale entry or binding the socket failed with `error`.
    Failed { error: CborSocketExampleError },
}

/// What the owner of the socket does next.
#[derive(Debug, PartialEq, Eq)]
pub enum ServerAction {
    /// Look whether an entry exists at the socket path.
    Probe,
    /// Remove the entry at the socket path.
    RemoveStale,
    /// Bind the listening socket.
    Bind,
    /// Wait for the next connection.
    Accept,
    /// Hand the connection to a handler that runs on its own, and go on
    /// waiting for the next connection without waiting for the handler.
    Dispatch,
    /// Report how a handler ended, and go on waiting for the next connection.
    Report { outcome: Result<(), CborSocketExampleError> },
    /// Leave the loop with this outcome.
    Exit { outcome: Result<(), CborSocketExampleError> },
}

/// What a `ServerAction` is.
pub enum ActionView {
    Probe,
    RemoveStale,
    Bind,
    Accept,
    Dispatch,
    Report { outcome: Result<(), ErrorView> },
    Exit { outcome: Result<(), ErrorView> },
}

/// An outcome with its failure, if any, as what it is.
pub open spec fn outcome_view(outcome: Result<(), CborSocketExampleError>) -> Result<
    (),
    ErrorView,
> {
    match outcome {
        Ok(_) => Ok(()),
        Err(e) => Err(e@),
    }
}

impl View for ServerAction {
    type V = ActionView;

    open spec fn view(&self) -> ActionView {
        match self {
            ServerAction::Probe => ActionView::Probe,
            ServerAction::RemoveStale => ActionView::RemoveStale,
            ServerAction::Bind => ActionView::Bind,
            ServerAction::Accept => ActionView::Accept,
            ServerAction::Dispatch => ActionView::Dispatch,
            ServerAction::Report { outcome } => ActionView::Report {
                outcome: outcome_view(*outcome),
            },
            ServerAction::Exit { outcome } => ActionView::Exit { outcome: outcome_view(*outcome) },
        }
    }
}

/// The state that follows `state` on `event`.
pub open spec fn next_state(state: ServerState, event: ServerEvent) -> ServerState {
    match (state, event) {
        (ServerState::Init, ServerEvent::PathChecked { exists: true }) => ServerState::Removing,
        (ServerState::Init, ServerEvent::PathChecked { exists: false }) => ServerState::Binding,
        (ServerState::Removing, ServerEvent::Removed) => ServerState::Binding,
        (ServerState::Binding, ServerEvent::Bound) => ServerState::Accepting,
        (ServerState::Accepting, ServerEvent::Accepted) => ServerState::Accepting,
        (ServerState::Accepting, ServerEvent::Handled { .. }) => ServerState::Accepting,
        _ => ServerState::Stopped,
    }
}

/// The action that follows `state` on `event`. A failure while removing,
/// binding or accepting ends the loop with that failure; an event that cannot
/// follow the state ends it with the generic failure.
pub open spec fn next_action(state: ServerState, event: ServerEvent) -> ActionView {
    match (state, event) {
        (ServerState::Init, ServerEvent::PathChecked { exists: true }) => ActionView::RemoveStale,
        (ServerState::Init, ServerEvent::PathChecked { exists: false }) => ActionView::Bind,
        (ServerState::Removing, ServerEvent::Removed) => ActionView::Bind,
        (ServerState::Binding, ServerEvent::Bound) => ActionView::Accept,
        (ServerState::Accepting, ServerEvent::Accepted) => ActionView::Dispatch,
        (ServerState::Accepting, ServerEvent::Handled { outcome }) => ActionView::Report {
            outcome: outcome_view(outcome),
        },
        (ServerState::Removing, ServerEvent::Failed { error }) => ActionView::Exit {
            outcome: Err(error@),
        },
        (ServerState::Binding, ServerEvent::Failed { error }) => ActionView::Exit {
            outcome: Err(error@),
        },
        (ServerState::Accepting, ServerEvent::AcceptFailed { error }) => ActionView::Exit {
            outcome: Err(error@),
        },
        _ => ActionView::Exit { outcome: Err(ErrorView::StuffBroke) },
    }
}

/// The state and the action with which the server loop begins.
pub fn spawn_socket() -> (start: (ServerState, ServerAction))
    ensures
        start.0 == ServerState::Init,
        start.1@ == ActionView::Probe,
{
    (ServerState::Init, ServerAction::Probe)
}

/// One step of the server loop: the state and the action that follow `state`
/// on `event`.
pub fn server_step(state: ServerState, event: ServerEvent) -> (next: (ServerState, ServerAction))
    ensures
        next.0 == next_state(state, event),
        next.1@ == next_action(state, event),
{
    match (state, event) {
        (ServerState::Init, ServerEvent::PathChecked { exists }) => {
            if exists {
                (ServerState::Removing, ServerAction::RemoveStale)
            } else {
                (ServerState::Binding, ServerAction::Bind)
            }
        },
        (ServerState::Removing, ServerEvent::Removed) => (ServerState::Binding, ServerAction::Bind),
        (ServerState::Binding, ServerEvent::Bound) => (
            ServerState::Accepting,
            ServerAction::Accept,
        ),
        (ServerState::Accepting, ServerEvent::Accepted) => (
            ServerState::Accepting,
            ServerAction::Dispatch,
        ),
        (ServerState::Accepting, ServerEvent::Handled { outcome }) => (
            ServerState::Accepting,
            ServerAction::Report { outcome },
        ),
        (ServerState::Removing, ServerEvent::Failed { error }) => (
            ServerState::Stopped,
            ServerAction::Exit { outcome: Err(error) },
        ),
        (ServerState::Binding, ServerEvent::Failed { error }) => (
            ServerState::Stopped,
            ServerAction::Exit { outcome: Err(error) },
        ),
        (ServerState::Accepting, ServerEvent::AcceptFailed { error }) => (
            ServerState::Stopped,
            ServerAction::Exit { outcome: Err(error) },
        ),
        _ => (
            ServerState::Stopped,
            ServerAction::Exit { outcome: Err(CborSocketExampleError::StuffBroke) },
        ),
    }
}

/// A stale entry at the socket path is removed before the socket is bound:
/// from the start, the loop reaches `Accepting` by removing, then binding.
pub proof fn lemma_stale_socket_recovery()
    ensures
        next_state(ServerState::Init, ServerEvent::PathChecked { exists: true })
            == ServerState::Removing,
        next_action(ServerState::Init, ServerEvent::PathChecked { exists: true })
            == ActionView::RemoveStale,
        next_state(ServerState::Removing, ServerEvent::Removed) == ServerState::Binding,
        next_action(ServerState::Removing, ServerEvent::Removed) == ActionView::Bind,
        next_state(ServerState::Binding, ServerEvent::Bound) == ServerState::Accepting,
        next_action(ServerState::Binding, ServerEvent::Bound) == ActionView::Accept,
{
}

/// One connection's failure does not stop the server: however a handler
/// ends, the loop reports it and stays accepting.
pub proof fn lemma_fault_isolation(outcome: Result<(), CborSocketExampleError>)
    ensures
        next_state(ServerState::Accepting, ServerEvent::Handled { outcome })
            == ServerState::Accepting,
        next_action(ServerState::Accepting, ServerEvent::Handled { outcome })
            == (ActionView::Report { outcome: outcome_view(outcome) }),
{
}

/// The loop does not wait for a handler: a connection is dispatched and the
/// loop is accepting again at once, so that a second connection that arrives
/// while the first is still with its handler is dispatched too.
pub proof fn lemma_accepting_does_not_wait()
    ensures
        next_state(ServerState::Accepting, ServerEvent::Accepted) == ServerState::Accepting,
        next_action(ServerState::Accepting, ServerEvent::Accepted) == ActionView::Dispatch,
        next_state(
            next_state(ServerState::Accepting, ServerEvent::Accepted),
            ServerEvent::Accepted,
        ) == ServerState::Accepting,
        next_action(
            next_state(ServerState::Accepting, ServerEvent::Accepted),
            ServerEvent::Accepted,
        ) == ActionView::Dispatch,
{
}

/// A failure to accept is not retried and not suppressed: the loop stops and
/// hands that failure to its caller.
pub proof fn lemma_accept_failure_ends_the_loop(error: CborSocketExampleError)
    ensures
        next_state(ServerState::Accepting, ServerEvent::AcceptFailed { error })
            == ServerState::Stopped,
        next_action(ServerState::Accepting, ServerEvent::AcceptFailed { error })
            == (ActionView::Exit { outcome: Err(error@) }),
{
}

/// The loop ends only at `Stopped`, and never leaves it.
pub proof fn lemma_stopped_is_final(event: ServerEvent)
    ensures
        next_state(ServerState::Stopped, event) == ServerState::Stopped,
        next_action(ServerState::Stopped, event) is Exit,
{
}

/// The loop leaves through `Exit` exactly when it stops.
pub proof fn lemma_exit_iff_stopped(state: ServerState, event: ServerEvent)
    ensures
        next_action(state, event) is Exit <==> next_state(state, event) == ServerState::Stopped,
{
}

} // verus!
