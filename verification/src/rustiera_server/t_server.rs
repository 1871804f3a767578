//! The stream server with a fixed address and a fixed token.

use crate::rusteria_server::commandline::{socket_addr, socket_addr_text};
use crate::rusteria_server::server::{AuthRule, Connection, ConnectionState};
use vstd::prelude::*;

verus! {

/// The address to bind to.
pub const HOSTNAME: &'static str = "0.0.0.0";

/// The port to listen on.
pub const LISTEN_PORT: u16 = 8888;

/// The socket address to listen on.
pub fn listen_addr() -> (addr: String)
    ensures
        addr@ == socket_addr_text("0.0.0.0"@, 8888),
{
    socket_addr(HOSTNAME, LISTEN_PORT)
}

/// A fresh connection, whose client authenticates with the fixed token.
pub fn new_connection<T>() -> (connection: Connection<T>)
    ensures
        connection@ == ConnectionState::<T>::initial(),
        connection.auth_rule() is Fixed,
{
    Connection::new(AuthRule::Fixed)
}

} // verus!
