use rusteria::h3::{H3Error, H3Event, Header};
use rusteria::remote::IoErrorKind;
use rusteria::rustiera_server::read_loop::{
    flush_stage, next_stage, FlushEvent, FlushStage, ReadEvent, ReadStage,
};
use rusteria::rustiera_server::route::{
    is_routable, mint_token, route, route_packet, validate_token, ConnIdSeed, PacketHeader,
    PacketRoute, MAX_CONN_ID_LEN,
};
use rusteria::rustiera_server::server::{
    build_response, earliest_timeout, handle_request, handle_writable, hdrs_to_strings,
    poll_action, should_open_h3, writable_sent, PollAction, SendOutcome, WritableAction,
    BINDING_ADDR_STR, ROOT,
};
use rusteria::rustiera_server::structs::{Client, ClientMap};

const HOME: [u8; 4] = [192, 0, 2, 1];
const ELSEWHERE: [u8; 4] = [192, 0, 2, 2];

fn seed() -> ConnIdSeed {
    let mut key = [0u8; 32];
    for i in 0..32 {
        key[i] = i as u8;
    }
    ConnIdSeed { key }
}

#[test]
fn connection_ids_are_derived_from_the_secret() {
    let id = seed().conn_id(&[]);
    assert_eq!(
        id,
        [211, 139, 66, 9, 109, 128, 244, 95, 130, 107, 68, 169, 213, 96, 125, 231, 36, 150, 164, 21]
    );
    let id = seed().conn_id(&[1, 2, 3, 4, 5, 6, 7, 8]);
    assert_eq!(
        id,
        [94, 169, 99, 63, 180, 189, 23, 136, 25, 117, 32, 99, 138, 241, 247, 166, 243, 30, 190, 10]
    );
    assert_eq!(id.len(), MAX_CONN_ID_LEN);
}

#[test]
fn secrets_differ() {
    let first = ConnIdSeed::generate().unwrap();
    let second = ConnIdSeed::generate().unwrap();
    assert_ne!(first.key, second.key);
    assert_ne!(first.conn_id(b"id"), second.conn_id(b"id"));
}

#[test]
fn secret_is_made_of_the_random_bytes() {
    let seed = ConnIdSeed::from_random(Some([7; 32])).unwrap();
    assert_eq!(seed.key, [7; 32]);
    assert!(ConnIdSeed::from_random(None).is_none());
}

#[test]
fn token_names_address_and_connection() {
    let token = mint_token(&[9, 8, 7], &HOME);
    assert_eq!(token, b"quiche\xc0\x00\x02\x01\x09\x08\x07");
    assert_eq!(validate_token(&HOME, &token), Some(&[9u8, 8, 7][..]));
    assert_eq!(validate_token(&ELSEWHERE, &token), None);
}

#[test]
fn other_tokens_are_refused() {
    assert_eq!(validate_token(&HOME, b""), None);
    assert_eq!(validate_token(&HOME, b"quich"), None);
    assert_eq!(validate_token(&HOME, b"quiche"), None);
    assert_eq!(validate_token(&HOME, b"quiche\xc0\x00\x02"), None);
    assert_eq!(validate_token(&HOME, b"Quiche\xc0\x00\x02\x01id"), None);
    assert_eq!(validate_token(&HOME, b"quiche\xc0\x00\x02\x01"), Some(&b""[..]));
}

fn initial(dcid: &[u8], token: &[u8]) -> PacketHeader {
    PacketHeader {
        is_initial: true,
        version_supported: true,
        dcid: dcid.to_vec(),
        token: Some(token.to_vec()),
    }
}

fn route_from(clients: &ClientMap<char>, packet: &PacketHeader, src: &[u8; 4]) -> PacketRoute {
    route(clients, packet, &seed(), Some(*src)).unwrap()
}

#[test]
fn client_is_retried_then_accepted_then_known() {
    let mut clients = ClientMap::new();
    let first = initial(b"picked", b"");
    let (scid, token) = match route_from(&clients, &first, &HOME) {
        PacketRoute::Retry(scid, token) => (scid, token),
        _ => panic!("not retried"),
    };
    assert_eq!(scid, seed().conn_id(b"picked"));
    let second = initial(&scid, &token);
    assert!(matches!(route_from(&clients, &second, &ELSEWHERE), PacketRoute::InvalidToken));
    match route_from(&clients, &second, &HOME) {
        PacketRoute::Accept(id, odcid) => {
            assert_eq!(id, scid);
            assert_eq!(odcid, b"picked");
        }
        _ => panic!("not accepted"),
    }
    clients.insert(scid.clone(), 'c');
    assert!(
        matches!(route_from(&clients, &second, &ELSEWHERE), PacketRoute::Existing(id) if id == scid)
    );
    // The ID that the server derives from the one that the client picked leads there too.
    assert!(matches!(route_from(&clients, &first, &HOME), PacketRoute::Existing(id) if id == scid));
}

#[test]
fn route_follows_from_the_derived_id() {
    let clients: ClientMap<char> = ClientMap::new();
    let packet = initial(b"picked", b"");
    let id = seed().conn_id(b"picked");
    assert!(is_routable(&clients, &packet, &id, Some(HOME)));
    match route_packet(&clients, &packet, id.clone(), &HOME) {
        PacketRoute::Retry(scid, token) => {
            assert_eq!(scid, id);
            assert_eq!(token, mint_token(b"picked", &HOME));
        }
        _ => panic!("not retried"),
    }
}

#[test]
fn packets_that_cannot_be_routed_have_no_route() {
    let mut clients = ClientMap::new();
    // No address that tokens are made for.
    assert!(route(&clients, &initial(b"id", b""), &seed(), None).is_none());
    // No token.
    let mut packet = initial(b"id", b"");
    packet.token = None;
    assert!(route(&clients, &packet, &seed(), Some(HOME)).is_none());
    // A valid token at an ID that the server has not picked.
    let packet = initial(b"id", &mint_token(b"picked", &HOME));
    assert!(route(&clients, &packet, &seed(), Some(HOME)).is_none());
    // A known client needs none of these.
    clients.insert(b"id".to_vec(), 'c');
    assert!(matches!(route(&clients, &packet, &seed(), None), Some(PacketRoute::Existing(_))));
}

#[test]
fn packets_of_nobody_are_dropped() {
    let clients = ClientMap::new();
    let mut packet = initial(b"id", b"");
    packet.is_initial = false;
    packet.token = None;
    assert!(matches!(route_from(&clients, &packet, &HOME), PacketRoute::NotInitial));
}

#[test]
fn unknown_versions_are_negotiated() {
    let clients = ClientMap::new();
    let mut packet = initial(b"id", b"");
    packet.version_supported = false;
    assert!(matches!(route_from(&clients, &packet, &HOME), PacketRoute::Negotiate));
}

#[test]
fn clients_are_kept_by_id() {
    let mut clients = ClientMap::new();
    assert!(!clients.contains_key(b"a"));
    clients.insert(b"a".to_vec(), 1);
    clients.insert(b"ab".to_vec(), 2);
    assert!(clients.contains_key(b"a"));
    assert!(!clients.contains_key(b"b"));
    *clients.get_mut(b"a").unwrap() = 3;
    assert_eq!(clients.get_mut(b"a"), Some(&mut 3));
    assert_eq!(clients.get_mut(b"ab"), Some(&mut 2));
    assert_eq!(clients.get_mut(b""), None);
    clients.insert(b"ab".to_vec(), 4);
    assert_eq!(clients.get_mut(b"ab"), Some(&mut 4));
    assert_eq!(clients.ids(), vec![b"a".to_vec(), b"ab".to_vec()]);
}

fn request(token: &str) -> Vec<Header> {
    vec![
        Header::new(b"hysteria-auth", token.as_bytes()),
        Header::new(b"hysteria-cc-rx", b"0"),
        Header::new(b"hysteria-padding", b""),
    ]
}

#[test]
fn responses_follow_from_the_headers() {
    let (headers, body) = build_response(ROOT, request("8964"));
    assert_eq!(headers[0].value, b"233");
    assert_eq!(headers.len(), 4);
    assert!(body.is_empty());
    let (headers, body) = build_response(ROOT, request("wrong"));
    assert_eq!(headers[0].value, b"200");
    assert_eq!(headers.len(), 1);
    assert_eq!(body, b"Hello World!");
    let (headers, body) = build_response(ROOT, vec![Header::new(b"hysteria-cc-rx", b"abc")]);
    assert_eq!(headers[0].value, b"200");
    assert_eq!(body, b"Hello World!");
    assert_eq!(BINDING_ADDR_STR, "127.0.0.1:8888");
}

#[test]
fn only_request_headers_are_acted_upon() {
    match poll_action(Ok((4, H3Event::Headers(request("8964"))))) {
        PollAction::Answer(4, list) => assert_eq!(list.len(), 3),
        _ => panic!("no answer"),
    }
    assert!(matches!(poll_action(Ok((4, H3Event::Data))), PollAction::Continue));
    assert!(matches!(poll_action(Ok((4, H3Event::GoAway))), PollAction::Continue));
    assert!(matches!(poll_action(Err(H3Error::Done)), PollAction::Stop));
    assert!(matches!(poll_action(Err(H3Error::Other)), PollAction::Stop));
}

#[test]
fn h3_is_opened_once() {
    let mut client: Client<(), ()> = Client::new(());
    assert!(!should_open_h3(&client, false, false));
    assert!(should_open_h3(&client, true, false));
    assert!(should_open_h3(&client, false, true));
    client.http3_conn = Some(());
    assert!(!should_open_h3(&client, true, true));
}

#[test]
fn earliest_timeout_counts() {
    assert_eq!(earliest_timeout(&[]), None);
    assert_eq!(earliest_timeout(&[None, None]), None);
    assert_eq!(earliest_timeout(&[None, Some(7), Some(3), None, Some(5)]), Some(3));
}

#[test]
fn headers_are_shown_as_text() {
    let headers = vec![
        Header::new(b"name", "v\u{e4}lue".as_bytes()),
        Header::new(&[b'x', 0xff, b'y'], b""),
    ];
    let strings = hdrs_to_strings(&headers);
    assert_eq!(
        strings,
        vec![
            ("name".to_string(), "v\u{e4}lue".to_string()),
            ("x\u{fffd}y".to_string(), "".to_string()),
        ]
    );
}

fn client() -> Client<(), ()> {
    let mut client = Client::new(());
    client.http3_conn = Some(());
    client
}

fn status() -> Vec<Header> {
    vec![Header::new(b":status", b"200")]
}

fn rest_of(client: &Client<(), ()>, stream_id: u64) -> Option<(bool, Vec<u8>)> {
    match handle_writable(client, stream_id) {
        WritableAction::Send(headers, rest) => Some((headers.is_some(), rest.to_vec())),
        WritableAction::Nothing => None,
    }
}

#[test]
fn whole_answers_leave_nothing_behind() {
    let mut client = client();
    handle_request(&mut client, 0, status(), b"body".to_vec(), SendOutcome::Body(Ok(4)));
    assert_eq!(rest_of(&client, 0), None);
    handle_request(&mut client, 0, status(), Vec::new(), SendOutcome::Body(Err(H3Error::Done)));
    assert_eq!(rest_of(&client, 0), None);
}

#[test]
fn partial_answers_wait_for_room() {
    let mut client = client();
    handle_request(&mut client, 0, status(), b"abcdef".to_vec(), SendOutcome::Body(Ok(2)));
    handle_request(
        &mut client,
        4,
        status(),
        b"other".to_vec(),
        SendOutcome::Body(Err(H3Error::Done)),
    );
    assert_eq!(rest_of(&client, 0), Some((false, b"cdef".to_vec())));
    writable_sent(&mut client, 0, SendOutcome::Body(Ok(3)));
    assert_eq!(rest_of(&client, 0), Some((false, b"f".to_vec())));
    writable_sent(&mut client, 0, SendOutcome::Body(Err(H3Error::Done)));
    assert_eq!(rest_of(&client, 0), Some((false, b"f".to_vec())));
    writable_sent(&mut client, 0, SendOutcome::Body(Ok(1)));
    assert_eq!(rest_of(&client, 0), None);
    assert_eq!(rest_of(&client, 4), Some((false, b"other".to_vec())));
}

#[test]
fn blocked_headers_wait_for_room() {
    let mut client = client();
    handle_request(
        &mut client,
        0,
        status(),
        b"abc".to_vec(),
        SendOutcome::Headers(H3Error::StreamBlocked),
    );
    assert_eq!(rest_of(&client, 0), Some((true, b"abc".to_vec())));
    writable_sent(&mut client, 0, SendOutcome::Headers(H3Error::StreamBlocked));
    writable_sent(&mut client, 0, SendOutcome::Headers(H3Error::Other));
    assert_eq!(rest_of(&client, 0), Some((true, b"abc".to_vec())));
    writable_sent(&mut client, 0, SendOutcome::Body(Ok(1)));
    assert_eq!(rest_of(&client, 0), Some((false, b"bc".to_vec())));
    writable_sent(&mut client, 0, SendOutcome::Body(Err(H3Error::Other)));
    assert_eq!(rest_of(&client, 0), None);
}

#[test]
fn failed_answers_are_dropped() {
    let mut client = client();
    handle_request(&mut client, 0, status(), b"abc".to_vec(), SendOutcome::Headers(H3Error::Done));
    assert_eq!(rest_of(&client, 0), None);
    handle_request(
        &mut client,
        0,
        status(),
        b"abc".to_vec(),
        SendOutcome::Body(Err(H3Error::StreamBlocked)),
    );
    assert_eq!(rest_of(&client, 0), None);
}

#[test]
fn packet_goes_through_the_stages() {
    let existing = PacketRoute::Existing(vec![1]);
    let accept = PacketRoute::Accept(vec![1], vec![2]);
    let retry = PacketRoute::Retry(vec![1], vec![2]);
    assert_eq!(next_stage(ReadEvent::Polled(true)), ReadStage::Receive);
    assert_eq!(next_stage(ReadEvent::Received(Ok(()))), ReadStage::Parse);
    assert_eq!(next_stage(ReadEvent::Parsed(true)), ReadStage::Route);
    assert_eq!(next_stage(ReadEvent::Routed(&retry)), ReadStage::Reply);
    assert_eq!(next_stage(ReadEvent::Routed(&PacketRoute::Negotiate)), ReadStage::Reply);
    assert_eq!(next_stage(ReadEvent::Replied(Ok(()))), ReadStage::Receive);
    assert_eq!(next_stage(ReadEvent::Routed(&accept)), ReadStage::Accept);
    assert_eq!(next_stage(ReadEvent::Accepted), ReadStage::Deliver);
    assert_eq!(next_stage(ReadEvent::Routed(&existing)), ReadStage::Deliver);
    assert_eq!(next_stage(ReadEvent::Delivered(true, false)), ReadStage::OpenH3);
    assert_eq!(next_stage(ReadEvent::Delivered(false, true)), ReadStage::Serve);
    assert_eq!(next_stage(ReadEvent::Delivered(false, false)), ReadStage::Flush);
    assert_eq!(next_stage(ReadEvent::OpenedH3(true)), ReadStage::Serve);
    assert_eq!(next_stage(ReadEvent::Served), ReadStage::Flush);
    assert_eq!(next_stage(ReadEvent::Flushed), ReadStage::Receive);
}

#[test]
fn packets_that_lead_nowhere_are_dropped() {
    assert_eq!(next_stage(ReadEvent::Parsed(false)), ReadStage::Receive);
    assert_eq!(next_stage(ReadEvent::Routed(&PacketRoute::NotInitial)), ReadStage::Receive);
    assert_eq!(next_stage(ReadEvent::Routed(&PacketRoute::InvalidToken)), ReadStage::Receive);
    assert_eq!(next_stage(ReadEvent::Undelivered), ReadStage::Receive);
    assert_eq!(next_stage(ReadEvent::OpenedH3(false)), ReadStage::Receive);
}

#[test]
fn reading_ends_when_the_socket_would_block() {
    assert_eq!(next_stage(ReadEvent::Polled(false)), ReadStage::Expire);
    let blocked = || Err(IoErrorKind::WouldBlock);
    let broken = || Err(IoErrorKind::Other);
    assert_eq!(next_stage(ReadEvent::Received(blocked())), ReadStage::Wait);
    assert_eq!(next_stage(ReadEvent::Replied(blocked())), ReadStage::Wait);
    assert_eq!(next_stage(ReadEvent::Received(broken())), ReadStage::Fail);
    assert_eq!(next_stage(ReadEvent::Replied(broken())), ReadStage::Fail);
}

#[test]
fn connections_send_until_they_are_done() {
    assert_eq!(flush_stage(FlushEvent::Packet), FlushStage::Send);
    assert_eq!(flush_stage(FlushEvent::Sent(Ok(()))), FlushStage::Again);
    assert_eq!(flush_stage(FlushEvent::Done), FlushStage::Next);
    assert_eq!(flush_stage(FlushEvent::Failed), FlushStage::Close);
    assert_eq!(flush_stage(FlushEvent::Sent(Err(IoErrorKind::WouldBlock))), FlushStage::Next);
    assert_eq!(flush_stage(FlushEvent::Sent(Err(IoErrorKind::Other))), FlushStage::Fail);
}
