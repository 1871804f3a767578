use bytes::Bytes;
use rusteria::remote::IoErrorKind;
use rusteria::rusteria_server::proxy::{ProxyAction, ProxyInput, ProxyManager, WRITE_BUFFER_SIZE};
use rusteria::rustiera_server::proxy::{
    ProxyManager as TargetProxy, TargetAction, TargetInput, BUFFER_SIZE, READ_SIZE,
};

fn connected() -> ProxyManager {
    let mut proxy = ProxyManager::new("a:1".to_string());
    assert!(matches!(proxy.start(ProxyInput::Connect(true)), ProxyAction::Continue));
    proxy
}

fn payload_of(bytes: &[u8]) -> ProxyInput<'static> {
    ProxyInput::Payload(Bytes::copy_from_slice(bytes))
}

fn writing(bytes: &[u8]) -> ProxyManager {
    let mut proxy = connected();
    match proxy.start(payload_of(bytes)) {
        ProxyAction::Write(payload) => assert_eq!(&payload[..], bytes),
        _ => panic!("not written"),
    }
    proxy
}

fn assert_stops(action: ProxyAction, with_shutdown: bool) {
    match action {
        ProxyAction::Stop(shutdown, message) => {
            assert_eq!(shutdown, with_shutdown);
            assert!(message.bytes.is_empty());
            assert!(message.fin);
        }
        _ => panic!("does not stop"),
    }
}

#[test]
fn proxy_knows_where_to_connect() {
    assert_eq!(ProxyManager::new("example.com:80".to_string()).url(), "example.com:80");
    assert_eq!(TargetProxy::new("example.com:80".to_string()).url(), "example.com:80");
    assert_eq!(WRITE_BUFFER_SIZE, 327680);
    assert_eq!((BUFFER_SIZE, READ_SIZE), (65535, 8192));
}

#[test]
fn failed_connection_ends_the_stream() {
    let mut proxy = ProxyManager::new("a:1".to_string());
    assert_stops(proxy.start(ProxyInput::Connect(false)), false);
}

#[test]
fn failed_connection_may_be_tried_again() {
    let mut proxy = ProxyManager::new("a:1".to_string());
    assert_stops(proxy.start(ProxyInput::Connect(false)), false);
    assert_stops(proxy.start(ProxyInput::Connect(false)), false);
    assert_eq!(proxy.url(), "a:1");
    assert!(matches!(proxy.start(ProxyInput::Connect(true)), ProxyAction::Continue));
    assert_eq!(&proxy.recv(Ok(b"x")).unwrap()[..], b"x");
}

#[test]
fn failed_write_keeps_the_connection_and_the_end_gives_it_up() {
    let mut proxy = writing(b"x");
    assert_stops(proxy.start(ProxyInput::Written(Ok(0))), false);
    assert_eq!(&proxy.recv(Ok(b"x")).unwrap()[..], b"x");
    assert_eq!(proxy.send_to_server(Ok(1)), Ok(()));
    let mut proxy = connected();
    assert_stops(proxy.start(ProxyInput::Read(Ok(b""))), true);
    assert!(matches!(proxy.recv(Ok(b"x")), Err(IoErrorKind::NotConnected)));
}

#[test]
fn remote_bytes_are_forwarded_in_order() {
    let mut proxy = connected();
    let mut forwarded = Vec::new();
    for data in [&b"abc"[..], &b"d"[..], &[0u8; 5000][..]] {
        match proxy.start(ProxyInput::Read(Ok(data))) {
            ProxyAction::Forward(message) => {
                assert_eq!(&message.bytes[..], data);
                assert!(!message.fin);
                forwarded.extend_from_slice(&message.bytes);
            }
            _ => panic!("not forwarded"),
        }
    }
    assert_eq!(forwarded.len(), 5004);
    assert_eq!(&forwarded[..5], b"abcd\0");
}

#[test]
fn end_of_the_remote_ends_the_stream() {
    assert_stops(connected().start(ProxyInput::Read(Ok(b""))), true);
    assert_stops(connected().start(ProxyInput::Read(Err(IoErrorKind::UnexpectedEof))), true);
}

#[test]
fn other_read_errors_are_waited_out() {
    let mut proxy = connected();
    for kind in [IoErrorKind::WouldBlock, IoErrorKind::Other, IoErrorKind::NotConnected] {
        assert!(matches!(proxy.start(ProxyInput::Read(Err(kind))), ProxyAction::Continue));
    }
}

#[test]
fn failed_writes_end_the_stream() {
    assert!(matches!(writing(b"x").start(ProxyInput::Written(Ok(1))), ProxyAction::Continue));
    assert_stops(writing(b"x").start(ProxyInput::Written(Ok(0))), false);
    assert_stops(writing(b"x").start(ProxyInput::Written(Err(IoErrorKind::Other))), false);
    assert_stops(writing(b"").start(ProxyInput::Written(Ok(0))), false);
}

#[test]
fn client_payload_is_written_in_order() {
    let mut proxy = connected();
    let mut written = Vec::new();
    for bytes in [&b"abc"[..], &b"d"[..]] {
        match proxy.start(payload_of(bytes)) {
            ProxyAction::Write(payload) => written.extend_from_slice(&payload),
            _ => panic!("not written"),
        }
        let outcome = ProxyInput::Written(Ok(bytes.len()));
        assert!(matches!(proxy.start(outcome), ProxyAction::Continue));
    }
    assert_eq!(written, b"abcd");
    // What the remote does not take of a piece is not written again.
    assert!(matches!(proxy.start(payload_of(b"efg")), ProxyAction::Write(_)));
    assert!(matches!(proxy.start(ProxyInput::Written(Ok(1))), ProxyAction::Continue));
    match proxy.start(payload_of(b"h")) {
        ProxyAction::Write(payload) => assert_eq!(&payload[..], b"h"),
        _ => panic!("not written"),
    }
}

#[test]
fn reads_joined_are_what_was_read() {
    let mut proxy = connected();
    let reads: [Result<&[u8], IoErrorKind>; 5] =
        [Ok(b"ab"), Err(IoErrorKind::WouldBlock), Ok(b"c"), Err(IoErrorKind::Other), Ok(b"de")];
    let mut joined = Vec::new();
    for read in reads {
        if let Ok(bytes) = proxy.recv(read) {
            assert!(!bytes.is_empty());
            joined.extend_from_slice(&bytes);
        }
    }
    assert_eq!(joined, b"abcde");
}

#[test]
fn receiving_needs_a_connection() {
    let mut proxy = ProxyManager::new("a:1".to_string());
    assert!(matches!(proxy.recv(Ok(b"x")), Err(IoErrorKind::NotConnected)));
    let mut proxy = connected();
    assert_eq!(&proxy.recv(Ok(b"x")).unwrap()[..], b"x");
    assert!(matches!(proxy.recv(Ok(b"")), Err(IoErrorKind::UnexpectedEof)));
    assert!(matches!(proxy.recv(Err(IoErrorKind::WouldBlock)), Err(IoErrorKind::WouldBlock)));
}

#[test]
fn writes_of_nothing_mean_the_end() {
    let mut proxy = connected();
    assert_eq!(proxy.send_to_server(Ok(0)), Err(IoErrorKind::UnexpectedEof));
    assert_eq!(proxy.send_to_server(Ok(3)), Ok(()));
    assert_eq!(proxy.send_to_server(Err(IoErrorKind::Other)), Err(IoErrorKind::Other));
}

#[test]
fn message_without_bytes_is_the_last() {
    let proxy = connected();
    assert!(!proxy.send_to_channel(Bytes::copy_from_slice(b"x")).fin);
    assert!(proxy.send_to_channel(Bytes::new()).fin);
    assert!(proxy.send_fin().fin);
    assert!(proxy.send_fin().bytes.is_empty());
}

fn target() -> TargetProxy {
    let mut proxy = TargetProxy::new("a:1".to_string());
    assert!(matches!(proxy.start(TargetInput::Connect(true)), TargetAction::Continue));
    proxy
}

fn payload(bytes: &[u8]) -> TargetInput<'static> {
    TargetInput::Payload(Bytes::copy_from_slice(bytes))
}

#[test]
fn payload_goes_to_the_target_in_order() {
    let mut proxy = target();
    assert!(matches!(proxy.start(payload(b"")), TargetAction::Continue));
    assert!(matches!(proxy.start(payload(b"abcd")), TargetAction::Write));
    assert_eq!(proxy.pending(), b"abcd");
    assert!(matches!(proxy.start(TargetInput::Written(Ok(3))), TargetAction::Continue));
    assert_eq!(proxy.pending(), b"d");
    assert!(matches!(proxy.start(payload(b"ef")), TargetAction::Write));
    assert_eq!(proxy.pending(), b"def");
    assert!(matches!(proxy.start(TargetInput::Written(Ok(3))), TargetAction::Continue));
    assert_eq!(proxy.pending(), b"");
}

#[test]
fn messages_repeat_what_has_come() {
    let mut proxy = target();
    for (data, message) in [(&b"ab"[..], &b"ab"[..]), (&b"c"[..], &b"abc"[..])] {
        match proxy.start(TargetInput::Read(Ok(data))) {
            TargetAction::Forward(bytes) => assert_eq!(&bytes[..], message),
            _ => panic!("not forwarded"),
        }
    }
    assert_eq!(proxy.gathered_len(), 3);
    assert_eq!(&proxy.send_to_channel().unwrap()[..], b"abc");
}

#[test]
fn nothing_is_sent_without_a_connection_or_without_bytes() {
    let mut proxy = TargetProxy::new("a:1".to_string());
    assert!(proxy.send_to_channel().is_none());
    assert_eq!(proxy.send_to_target(Ok(0)), Ok(()));
    let mut proxy = target();
    assert!(proxy.send_to_channel().is_none());
    assert_eq!(proxy.send_to_target(Err(IoErrorKind::Other)), Ok(()));
    proxy.start(TargetInput::Read(Ok(b"x")));
    assert!(matches!(proxy.start(TargetInput::Read(Ok(b""))), TargetAction::Stop(true)));
    assert!(proxy.send_to_channel().is_none());
    assert!(matches!(proxy.recv(Ok(b"x")), Err(IoErrorKind::NotConnected)));
}

#[test]
fn target_proxy_stops_when_it_should() {
    let mut proxy = TargetProxy::new("a:1".to_string());
    assert!(matches!(proxy.recv(Ok(b"x")), Err(IoErrorKind::NotConnected)));
    assert!(matches!(proxy.start(TargetInput::Connect(false)), TargetAction::Stop(false)));
    assert!(matches!(target().start(TargetInput::Read(Ok(b""))), TargetAction::Stop(true)));
    let eof = TargetInput::Read(Err(IoErrorKind::UnexpectedEof));
    assert!(matches!(target().start(eof), TargetAction::Stop(true)));
    let failed = TargetInput::Read(Err(IoErrorKind::Other));
    assert!(matches!(target().start(failed), TargetAction::Continue));
    let mut proxy = target();
    proxy.start(payload(b"x"));
    assert!(matches!(proxy.start(TargetInput::Written(Ok(0))), TargetAction::Stop(false)));
    let mut proxy = target();
    proxy.start(payload(b"x"));
    let failed = TargetInput::Written(Err(IoErrorKind::Other));
    assert!(matches!(proxy.start(failed), TargetAction::Stop(false)));
    assert_eq!(proxy.pending(), b"x");
    assert_eq!(proxy.recv(Ok(b"y")), Ok(()));
    assert_eq!(&proxy.send_to_channel().unwrap()[..], b"y");
}
