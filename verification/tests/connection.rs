use bytes::Bytes;
use rusteria::h3::{H3Event, Header, OutboundFrame};
use rusteria::hysteria::{HysEvent, ProxyEvent};
use rusteria::rusteria_server::server::{AuthRule, Connection, ConnectionAction};

fn request(token: &str) -> H3Event {
    H3Event::Headers(vec![
        Header::new(b"hysteria-auth", token.as_bytes()),
        Header::new(b"hysteria-cc-rx", b"0"),
        Header::new(b"hysteria-padding", b""),
    ])
}

fn connection() -> Connection<u8> {
    Connection::new(AuthRule::Configured("password".to_string()))
}

fn h3(connection: &mut Connection<u8>, event: H3Event) -> ConnectionAction<char, char> {
    connection.handle_connection(HysEvent::H3Event(0, event, 'h'), None)
}

fn quic(
    connection: &mut Connection<u8>,
    stream_id: u64,
    event: ProxyEvent<char>,
    proxy: Option<u8>,
) -> ConnectionAction<char, char> {
    connection.handle_connection(HysEvent::QuicEvent(stream_id, event), proxy)
}

#[test]
fn refused_clients_may_try_again() {
    let mut connection = connection();
    for _ in 0..2 {
        match h3(&mut connection, request("wrong")) {
            ConnectionAction::Reply('h', response) => {
                assert!(!response.auth_res);
                assert_eq!(response.response.len(), 2);
            }
            _ => panic!("no reply"),
        }
    }
    match h3(&mut connection, request("password")) {
        ConnectionAction::Reply('h', response) => {
            assert!(response.auth_res);
            assert_eq!(response.response.len(), 1);
        }
        _ => panic!("no reply"),
    }
}

#[test]
fn clients_that_are_in_get_no_further_answer() {
    let mut connection = connection();
    h3(&mut connection, request("password"));
    assert!(matches!(h3(&mut connection, request("wrong")), ConnectionAction::Ignore));
    assert!(matches!(h3(&mut connection, request("password")), ConnectionAction::Ignore));
}

#[test]
fn other_h3_events_are_ignored() {
    let mut connection = connection();
    let events = [
        H3Event::Data,
        H3Event::Finished,
        H3Event::Reset,
        H3Event::PriorityUpdate,
        H3Event::GoAway,
    ];
    for event in events {
        assert!(matches!(h3(&mut connection, event), ConnectionAction::Ignore));
    }
}

#[test]
fn fixed_rule_takes_the_fixed_token() {
    let mut connection = Connection::<u8>::new(AuthRule::Fixed);
    match h3(&mut connection, request("8964")) {
        ConnectionAction::Reply(_, response) => {
            assert!(response.auth_res);
            match &response.response[0] {
                OutboundFrame::Headers(list) => assert_eq!(list[3].value, b"8964"),
                _ => panic!("no headers"),
            }
        }
        _ => panic!("no reply"),
    }
}

#[test]
fn requests_are_greeted_and_served() {
    let mut connection = connection();
    let action =
        quic(&mut connection, 4, ProxyEvent::Request("a:1".to_string(), 'q'), Some(7));
    match action {
        ConnectionAction::Connect(url, 'q', greeting) => {
            assert_eq!(url, "a:1");
            assert_eq!(&greeting.bytes[..], b"\x00\x0cHello World!\x07padding");
            assert!(!greeting.fin);
        }
        _ => panic!("no connection"),
    }
    assert_eq!(connection.proxy(4), Some(&7));
    assert_eq!(connection.proxy(8), None);
}

#[test]
fn payload_is_delivered_to_served_streams() {
    let mut connection = connection();
    let payload = || ProxyEvent::Payload(Bytes::copy_from_slice(b"GET"));
    assert!(matches!(
        quic(&mut connection, 4, payload(), None),
        ConnectionAction::Unregistered(4)
    ));
    quic(&mut connection, 4, ProxyEvent::Request("a:1".to_string(), 'q'), Some(7));
    match quic(&mut connection, 4, payload(), None) {
        ConnectionAction::Deliver(4, bytes) => assert_eq!(&bytes[..], b"GET"),
        _ => panic!("not delivered"),
    }
    assert!(matches!(
        quic(&mut connection, 8, payload(), None),
        ConnectionAction::Unregistered(8)
    ));
    connection.proxy_finished(4);
    assert!(matches!(
        quic(&mut connection, 4, payload(), None),
        ConnectionAction::Unregistered(4)
    ));
    assert_eq!(connection.proxy(4), None);
}

#[test]
fn broken_headers_are_answered_too() {
    let mut connection = connection();
    let broken = H3Event::Headers(vec![Header::new(b"hysteria-cc-rx", b"abc")]);
    match h3(&mut connection, broken) {
        ConnectionAction::Reply('h', response) => {
            assert!(!response.auth_res);
            assert_eq!(response.response.len(), 2);
        }
        _ => panic!("no reply"),
    }
}
