//! The Hysteria protocol and the decisions of the proxy servers that speak it.

pub mod auth;
pub mod bytes_buf;
pub mod h3;
pub mod hysteria;
pub mod proto;
pub mod remote;
pub mod rusteria_server;
pub mod rustiera_server;
pub mod stream;
pub mod text;
