# Rusteria

A proxy server that speaks the Hysteria protocol over QUIC and looks like an HTTP/3 web server to
anybody without the token. The protocol, the decisions of the servers and their state machines are
a verified library; sockets, channels, TLS and the QUIC stack are ordinary Rust around it.

- `src/text.rs`: UTF-8, decimal numbers, case.
- `src/h3.rs`, `src/proto.rs`, `src/auth.rs`: headers and frames, the messages of the protocol, and
  who is let in.
- `src/stream.rs`, `src/hysteria.rs`: streams that wait for answers, and the driver of a client
  connection.
- `src/bytes_buf.rs`, `src/remote.rs`: byte buffers, and the connection of a proxy to its remote.
- `src/rusteria_server/`: the configurable server: options, client connections, proxies.
- `src/rustiera_server/`: the servers with a fixed set-up: a stream server with buffering proxies,
  and a packet server with its retry tokens, connection IDs, partial answers and order of work.
- `app/`: the programs.

What the library takes from `std` and from other crates without proof is marked
`external_body` or `assume_specification`, with a comment that says what is claimed.

## Options

```
--host <ADDRESS>       Hostname or IP address to bind to (default: 0.0.0.0)
--port <PORT>          Port number to listen on (default: 8888)
--auth-token <TOKEN>   Authentication token for client connections (default: password)
--log-file <FILE>      File to write logs to (empty for stderr)
--log-level <LEVEL>    Log level: trace, debug, info, warn, error (default: info)
--cert-path <PATH>     Path to TLS certificate file (default: /tmp/cert/cert.pem)
--key-path <PATH>      Path to TLS private key file (default: /tmp/cert/key.pem)
```
