//! The connection of a proxy to its remote: how far it has got, and how it can fail.

use vstd::prelude::*;

verus! {

/// The kinds of I/O errors that a proxy tells apart.
#[derive(Clone, Copy, Debug, PartialEq, Eq, Structural)]
pub enum IoErrorKind {
    /// The other side has closed the connection.
    UnexpectedEof,
    /// There is nothing to read yet.
    WouldBlock,
    /// There is no connection.
    NotConnected,
    /// Any other kind.
    Other,
}

/// How far a proxy has got.
#[derive(Clone, Copy, Debug, PartialEq, Eq, Structural)]
pub enum ProxyPhase {
    /// It has not connected to the remote yet.
    Idle,
    /// It is connected to the remote.
    Connected,
    /// It has stopped, and has kept its connection.
    Stopped,
    /// It has stopped, and has no connection any more.
    Closed,
}

impl ProxyPhase {
    /// Whether there is a connection to the remote.
    pub open spec fn has_stream(self) -> bool {
        self == ProxyPhase::Connected || self == ProxyPhase::Stopped
    }

    /// Whether there is a connection to the remote.
    pub fn is_open(self) -> (open: bool)
        ensures
            open == self.has_stream(),
    {
        match self {
            ProxyPhase::Connected | ProxyPhase::Stopped => true,
            ProxyPhase::Idle | ProxyPhase::Closed => false,
        }
    }
}

/// There is a connection from connecting on until it is given up, also after the proxy has
/// stopped for another reason.
pub proof fn phases_with_a_connection(phase: ProxyPhase)
    ensures
        phase.has_stream() <==> !(phase == ProxyPhase::Idle || phase == ProxyPhase::Closed),
{
}

} // verus!
