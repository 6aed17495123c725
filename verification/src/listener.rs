//! Accepting connections: a failure costs a pause, never the service.

use vstd::prelude::*;

verus! {

/// What happened last.
#[derive(Debug, Clone, Copy, PartialEq, Eq, Structural)]
pub enum AcceptEvent {
    Start,
    AcceptFailed,
    Accepted,
    HandshakeFailed,
    HandshakeDone,
}

/// What is to be done next.
#[derive(Debug, Clone, Copy, PartialEq, Eq, Structural)]
pub enum AcceptAction {
    /// Wait for the next connection, after so many seconds.
    Accept { pause_seconds: u64 },
    /// Start TLS on the connection.
    Handshake,
    /// Hand the connection over.
    Serve,
}

/// What is to be done after `event`.
pub open spec fn action_after(event: AcceptEvent) -> AcceptAction {
    match event {
        AcceptEvent::Start => AcceptAction::Accept { pause_seconds: 0 },
        AcceptEvent::AcceptFailed => AcceptAction::Accept { pause_seconds: 1 },
        AcceptEvent::Accepted => AcceptAction::Handshake,
        AcceptEvent::HandshakeFailed => AcceptAction::Accept { pause_seconds: 1 },
        AcceptEvent::HandshakeDone => AcceptAction::Serve,
    }
}

/// What is to be done after `event`.
pub fn next_action(event: AcceptEvent) -> (action: AcceptAction)
    ensures
        action == action_after(event),
{
    match event {
        AcceptEvent::Start => AcceptAction::Accept { pause_seconds: 0 },
        AcceptEvent::AcceptFailed => AcceptAction::Accept { pause_seconds: 1 },
        AcceptEvent::Accepted => AcceptAction::Handshake,
        AcceptEvent::HandshakeFailed => AcceptAction::Accept { pause_seconds: 1 },
        AcceptEvent::HandshakeDone => AcceptAction::Serve,
    }
}

/// Only a connection that completed its handshake is handed over.
pub proof fn law_only_secured_connections_are_served(event: AcceptEvent)
    ensures
        action_after(event) == AcceptAction::Serve <==> event == AcceptEvent::HandshakeDone,
{
}

/// A connection that was accepted is secured, one that was secured is handed
/// over, and after a failure the next one is waited for, a second later.
pub proof fn law_failures_cost_a_second(event: AcceptEvent)
    ensures
        action_after(AcceptEvent::Start) == (AcceptAction::Accept { pause_seconds: 0 }),
        action_after(AcceptEvent::Accepted) == AcceptAction::Handshake,
        action_after(AcceptEvent::HandshakeDone) == AcceptAction::Serve,
        action_after(event) == (AcceptAction::Accept { pause_seconds: 1 }) <==> event
            == AcceptEvent::AcceptFailed || event == AcceptEvent::HandshakeFailed,
{
}

} // verus!
