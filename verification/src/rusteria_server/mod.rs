//! The proxy server that is set up on the command line.

pub mod auth;
pub mod commandline;
pub mod proxy;
pub mod server;
