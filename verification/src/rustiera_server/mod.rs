//! The servers with a fixed set-up.

pub mod auth;
pub mod proxy;
pub mod read_loop;
pub mod route;
pub mod server;
pub mod structs;
pub mod t_server;
