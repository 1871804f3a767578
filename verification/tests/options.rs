use rusteria::rusteria_server::commandline::{
    log_file, log_level, named_level, parse_args, socket_addr, LogLevel, DEFAULT_AUTH_TOKEN,
    DEFAULT_CERT_PATH, DEFAULT_HOSTNAME, DEFAULT_KEY_PATH, DEFAULT_LISTEN_PORT, DEFAULT_LOG_LEVEL,
};
use rusteria::rustiera_server::t_server::{listen_addr, new_connection, HOSTNAME, LISTEN_PORT};

#[test]
fn defaults_are_the_documented_ones() {
    let config = parse_args(
        DEFAULT_HOSTNAME,
        DEFAULT_LISTEN_PORT,
        DEFAULT_AUTH_TOKEN,
        DEFAULT_CERT_PATH,
        DEFAULT_KEY_PATH,
    )
    .unwrap();
    assert_eq!(config.host, "0.0.0.0");
    assert_eq!(config.port, 8888);
    assert_eq!(config.auth_token, "password");
    assert_eq!(config.addr, "0.0.0.0:8888");
    assert_eq!(config.cert_path, "/tmp/cert/cert.pem");
    assert_eq!(config.key_path, "/tmp/cert/key.pem");
    assert_eq!(log_level(DEFAULT_LOG_LEVEL), LogLevel::Info);
}

#[test]
fn given_options_are_taken() {
    let config = parse_args("::1", "+0443", "tok", "c", "k").unwrap();
    assert_eq!(config.host, "::1");
    assert_eq!(config.port, 443);
    assert_eq!(config.addr, "::1:443");
    assert_eq!(config.auth_token, "tok");
    assert_eq!(config.cert_path, "c");
    assert_eq!(config.key_path, "k");
}

#[test]
fn bad_ports_are_refused() {
    for port in ["", "65536", "-1", "http", "80 "] {
        assert!(parse_args("h", port, "t", "c", "k").is_none(), "{:?}", port);
    }
    assert_eq!(parse_args("h", "65535", "t", "c", "k").unwrap().port, 65535);
}

#[test]
fn levels_have_names() {
    assert_eq!(named_level("trace"), LogLevel::Trace);
    assert_eq!(named_level("debug"), LogLevel::Debug);
    assert_eq!(named_level("info"), LogLevel::Info);
    assert_eq!(named_level("warn"), LogLevel::Warn);
    assert_eq!(named_level("error"), LogLevel::Error);
    assert_eq!(named_level("WARN"), LogLevel::Info);
    assert_eq!(named_level("off"), LogLevel::Info);
}

#[test]
fn level_names_may_have_capitals() {
    assert_eq!(log_level("TRACE"), LogLevel::Trace);
    assert_eq!(log_level("Debug"), LogLevel::Debug);
    assert_eq!(log_level("iNFo"), LogLevel::Info);
    assert_eq!(log_level("WaRN"), LogLevel::Warn);
    assert_eq!(log_level("ERROR"), LogLevel::Error);
    assert_eq!(log_level("verbose"), LogLevel::Info);
    assert_eq!(log_level(""), LogLevel::Info);
    // The Kelvin sign is a capital letter, but not one of any level.
    assert_eq!(log_level("\u{212a}"), LogLevel::Info);
}

#[test]
fn empty_log_file_means_standard_error() {
    assert_eq!(log_file(None), None);
    assert_eq!(log_file(Some("")), None);
    assert_eq!(log_file(Some("server.log")), Some("server.log"));
}

#[test]
fn fixed_server_listens_where_it_should() {
    assert_eq!(HOSTNAME, "0.0.0.0");
    assert_eq!(LISTEN_PORT, 8888);
    assert_eq!(listen_addr(), "0.0.0.0:8888");
    assert_eq!(socket_addr("localhost", 0), "localhost:0");
    let connection = new_connection::<u8>();
    assert!(connection.proxy(0).is_none());
}
