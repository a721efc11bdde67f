use vstd::prelude::*;

use crate::message::ConnectionId;
use crate::server::ConnectionEvent;

verus! {

/// Where a socket stands: waiting for its id, connected under an id, or closed for good.
#[derive(Debug, Clone, Copy, PartialEq, Eq, Structural)]
pub enum ConnectionState {
    Idle,
    Connected(ConnectionId),
    Closed,
}

/// What the socket does with an event from the server.
#[derive(Debug, Clone, Copy, PartialEq, Eq, Structural)]
pub enum EgressStep {
    /// Encode the event and write it to the socket.
    Forward,
    /// Close the socket.
    Close,
    /// Nothing to write.
    Ignore,
}

impl ConnectionState {
    /// The next state and the step for an event from the server: `Connected` gives the
    /// socket its id, `Disconnected` closes it, and other events are written out while the
    /// socket is open.
    pub fn on_egress(self, event: &ConnectionEvent) -> (r: (ConnectionState, EgressStep))
        ensures
            self == ConnectionState::Closed ==> r == (ConnectionState::Closed, EgressStep::Ignore),
            self != ConnectionState::Closed ==> match *event {
                ConnectionEvent::Connected { connection_id } => r == (
                    ConnectionState::Connected(connection_id),
                    EgressStep::Ignore,
                ),
                ConnectionEvent::Disconnected { .. } => r == (ConnectionState::Closed, EgressStep::Close),
                ConnectionEvent::IdentifiableEvent(_) => r == (self, EgressStep::Forward),
            },
    {
        match self {
            ConnectionState::Closed => (ConnectionState::Closed, EgressStep::Ignore),
            _ => match event {
                ConnectionEvent::Connected { connection_id } => (
                    ConnectionState::Connected(*connection_id),
                    EgressStep::Ignore,
                ),
                ConnectionEvent::Disconnected { .. } => (ConnectionState::Closed, EgressStep::Close),
                ConnectionEvent::IdentifiableEvent(_) => (self, EgressStep::Forward),
            },
        }
    }

    /// The id under which frames from the socket are forwarded: only a connected socket's.
    pub fn sender(self) -> (r: Option<ConnectionId>)
        ensures
            r == (match self {
                ConnectionState::Connected(id) => Some(id),
                _ => None,
            }),
    {
        match self {
            ConnectionState::Connected(id) => Some(id),
            _ => None,
        }
    }

    /// The socket closes: the state becomes `Closed`, and a connected socket's id is
    /// returned so that the server can be told.
    pub fn on_close(self) -> (r: (ConnectionState, Option<ConnectionId>))
        ensures
            r.0 == ConnectionState::Closed,
            r.1 == (match self {
                ConnectionState::Connected(id) => Some(id),
                _ => None,
            }),
    {
        (ConnectionState::Closed, self.sender())
    }
}

} // verus!
