//! The options of the server.

use crate::text::{
    ascii_lower, decimal_digits, decimal_number, decimal_round_trip, decimal_string, decimal_up_to,
    lowercase, lowercase_text, parse_unsigned, str_eq,
};
use vstd::prelude::*;
use vstd::utf8::is_ascii_chars;

verus! {

/// The address to bind to.
pub const DEFAULT_HOSTNAME: &'static str = "0.0.0.0";

/// The port to listen on.
pub const DEFAULT_LISTEN_PORT: &'static str = "8888";

/// The token that clients have to send.
pub const DEFAULT_AUTH_TOKEN: &'static str = "password";

/// How much is logged.
pub const DEFAULT_LOG_LEVEL: &'static str = "info";

/// Where the TLS certificate is.
pub const DEFAULT_CERT_PATH: &'static str = "/tmp/cert/cert.pem";

/// Where the private key of the certificate is.
pub const DEFAULT_KEY_PATH: &'static str = "/tmp/cert/key.pem";

/// What the server is configured to do.
pub struct ServerConfig {
    pub host: String,
    pub port: u16,
    pub auth_token: String,
    pub addr: String,
    pub cert_path: String,
    pub key_path: String,
}

/// The text of a socket address.
pub open spec fn socket_addr_text(host: Seq<char>, port: nat) -> Seq<char> {
    host + ":"@ + decimal_digits(port)
}

/// Writes a socket address.
pub fn socket_addr(host: &str, port: u16) -> (addr: String)
    ensures
        addr@ == socket_addr_text(host@, port as nat),
{
    let mut addr = host.to_owned();
    addr.append(":");
    addr.append(decimal_string(port as u64).as_str());
    addr
}

/// Makes the configuration of the server from the values of its options. There is none where
/// the port is not a port number.
pub fn parse_args(
    host: &str,
    port: &str,
    auth_token: &str,
    cert_path: &str,
    key_path: &str,
) -> (config: Option<ServerConfig>)
    ensures
        match config {
            Some(c) => {
                &&& decimal_up_to(port@, u16::MAX as nat) == Some(c.port as nat)
                &&& c.host@ == host@
                &&& c.auth_token@ == auth_token@
                &&& c.addr@ == socket_addr_text(host@, c.port as nat)
                &&& c.cert_path@ == cert_path@
                &&& c.key_path@ == key_path@
            },
            None => decimal_up_to(port@, u16::MAX as nat) is None,
        },
{
    match parse_unsigned(port, u16::MAX as u64) {
        Some(number) => {
            let port = number as u16;
            Some(
                ServerConfig {
                    host: host.to_owned(),
                    port,
                    auth_token: auth_token.to_owned(),
                    addr: socket_addr(host, port),
                    cert_path: cert_path.to_owned(),
                    key_path: key_path.to_owned(),
                },
            )
        },
        None => None,
    }
}

/// How much is logged, from the most to the least.
#[derive(Clone, Copy, Debug, PartialEq, Eq, Structural)]
pub enum LogLevel {
    Trace,
    Debug,
    Info,
    Warn,
    Error,
}

/// The level that a lower-case name stands for. Any other name stands for `Info`.
pub open spec fn level_of(name: Seq<char>) -> LogLevel {
    if name == "trace"@ {
        LogLevel::Trace
    } else if name == "debug"@ {
        LogLevel::Debug
    } else if name == "info"@ {
        LogLevel::Info
    } else if name == "warn"@ {
        LogLevel::Warn
    } else if name == "error"@ {
        LogLevel::Error
    } else {
        LogLevel::Info
    }
}

/// The level that a lower-case name stands for.
pub fn named_level(name: &str) -> (level: LogLevel)
    ensures
        level == level_of(name@),
{
    if str_eq(name, "trace") {
        LogLevel::Trace
    } else if str_eq(name, "debug") {
        LogLevel::Debug
    } else if str_eq(name, "info") {
        LogLevel::Info
    } else if str_eq(name, "warn") {
        LogLevel::Warn
    } else if str_eq(name, "error") {
        LogLevel::Error
    } else {
        LogLevel::Info
    }
}

/// The level that a name stands for, however its letters are written.
pub fn log_level(name: &str) -> (level: LogLevel)
    ensures
        level == level_of(lowercase_text(name@)),
        is_ascii_chars(name@) ==> level == level_of(name@.map_values(|c: char| ascii_lower(c))),
{
    let lower = lowercase(name);
    named_level(lower.as_str())
}

/// Where the log goes: to a file, or to standard error where no file or an empty one is named.
pub fn log_file<'a>(option: Option<&'a str>) -> (file: Option<&'a str>)
    ensures
        file == match option {
            Some(name) if name@.len() > 0 => Some(name),
            _ => None,
        },
{
    match option {
        Some(name) => {
            if str_eq(name, "") {
                proof {
                    reveal_strlit("");
                }
                None
            } else {
                proof {
                    reveal_strlit("");
                    if name@.len() == 0 {
                        assert(name@ =~= ""@);
                    }
                }
                Some(name)
            }
        },
        None => None,
    }
}

/// A socket address starts with the host, and the port can be read off what follows the colon
/// behind it.
pub proof fn socket_addr_can_be_read(host: Seq<char>, port: nat)
    ensures
        ({
            let addr = socket_addr_text(host, port);
            let at: int = host.len() as int;
            &&& addr.subrange(0, at) == host
            &&& addr[at] == ':'
            &&& addr.subrange(at + 1, addr.len() as int) == decimal_digits(port)
            &&& decimal_number(addr.subrange(at + 1, addr.len() as int)) == Some(port)
        }),
{
    reveal_strlit(":");
    let addr = socket_addr_text(host, port);
    let at: int = host.len() as int;
    assert(":"@.len() == 1);
    assert(addr.subrange(0, at) =~= host);
    assert(addr.subrange(at + 1, addr.len() as int) =~= decimal_digits(port));
    decimal_round_trip(port);
}

/// Each level has its one name, but `Info`, which every other text stands for as well.
pub proof fn levels_have_one_name_each(name: Seq<char>)
    ensures
        level_of(name) == LogLevel::Trace <==> name == "trace"@,
        level_of(name) == LogLevel::Debug <==> name == "debug"@,
        level_of(name) == LogLevel::Warn <==> name == "warn"@,
        level_of(name) == LogLevel::Error <==> name == "error"@,
        level_of(name) == LogLevel::Info <==> !(name == "trace"@ || name == "debug"@ || name
            == "warn"@ || name == "error"@),
{
    reveal_strlit("trace");
    reveal_strlit("debug");
    reveal_strlit("info");
    reveal_strlit("warn");
    reveal_strlit("error");
    assert("trace"@[0] == 't' && "debug"@[0] == 'd' && "info"@[0] == 'i' && "warn"@[0] == 'w'
        && "error"@[0] == 'e');
}

} // verus!
