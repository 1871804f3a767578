use bytes::Bytes;
use rusteria::h3::{H3Error, H3Event, Header, OutboundFrame};
use rusteria::hysteria::{HysDriver, HysEvent, ProxyEvent, QuicRead, ReadMode, WriteStep};
use rusteria::stream::{
    H3Response, HysResponse, ReceivedH3Stream, ReceivedQuicStream, StreamReady, WaitForH3Stream,
    WaitForQuicStream, WaitForStream,
};

const REQUEST: &[u8] = b"\x44\x01\x03a:1\x00";

fn page() -> Vec<OutboundFrame> {
    vec![
        OutboundFrame::Headers(vec![Header::new(b":status", b"200")]),
        OutboundFrame::Body(b"Hello World!".to_vec(), true),
    ]
}

fn verified() -> HysDriver {
    let mut driver = HysDriver::new();
    assert_eq!(driver.on_conn_established(Ok(())), Ok(()));
    let answer = H3Response { auth_res: true, response: Vec::new() };
    assert!(driver.handle_h3_response(&answer, &[]).is_empty());
    driver
}

fn read(driver: &mut HysDriver, stream_id: u64, data: &[u8]) -> QuicRead<(), u8, u8> {
    driver.handle_quic_request(stream_id, data, 1, 2)
}

fn answer(driver: &mut HysDriver, stream_id: u64, bytes: &[u8]) {
    let ready = ReceivedQuicStream {
        stream_id,
        chan: 0u8,
        response: Some(Bytes::copy_from_slice(bytes)),
    };
    assert!(driver.quic_ready(ready, true).is_none());
}

fn waiting(driver: &mut HysDriver, stream_id: u64) -> Vec<u8> {
    match driver.process_writes(stream_id) {
        WriteStep::Quic(bytes) => bytes.to_vec(),
        WriteStep::Nothing | WriteStep::End => Vec::new(),
        WriteStep::H3(_) => panic!("not let in"),
    }
}

#[test]
fn driver_acts_once_there_is_a_connection() {
    let mut driver = HysDriver::new();
    assert!(!driver.should_act());
    assert_eq!(driver.on_conn_established(Err(H3Error::Other)), Err(H3Error::Other));
    assert!(!driver.should_act());
    assert_eq!(driver.on_conn_established(Ok(())), Ok(()));
    assert!(driver.should_act());
}

#[test]
fn nothing_is_proxied_before_the_client_is_let_in() {
    let mut driver = HysDriver::new();
    driver.on_conn_established(Ok(())).unwrap();
    assert_eq!(driver.process_reads(), ReadMode::H3);
    let refusal = H3Response { auth_res: false, response: Vec::new() };
    driver.handle_h3_response(&refusal, &[]);
    assert_eq!(driver.process_reads(), ReadMode::H3);
    let welcome = H3Response { auth_res: true, response: Vec::new() };
    driver.handle_h3_response(&welcome, &[]);
    assert_eq!(driver.process_reads(), ReadMode::Quic);
    driver.handle_h3_response(&refusal, &[]);
    assert_eq!(driver.process_reads(), ReadMode::Quic);
}

#[test]
fn h3_events_are_handed_on() {
    let mut driver = HysDriver::new();
    driver.on_conn_established(Ok(())).unwrap();
    let handed: Option<(HysEvent<u8, ()>, WaitForH3Stream<u8>)> =
        driver.handle_h3_request(Ok((4, H3Event::Finished)), 1, 2).unwrap();
    let (event, wait) = handed.unwrap();
    assert!(matches!(event, HysEvent::H3Event(4, H3Event::Finished, 1)));
    assert_eq!(wait.stream_id, 4);
    assert_eq!(wait.chan, Some(2));
}

#[test]
fn h3_errors_but_done_are_reported() {
    let mut driver = HysDriver::new();
    driver.on_conn_established(Ok(())).unwrap();
    let done = driver.handle_h3_request::<u8, u8, ()>(Err(H3Error::Done), 1, 2);
    assert!(matches!(done, Ok(None)));
    let failed = driver.handle_h3_request::<u8, u8, ()>(Err(H3Error::Other), 1, 2);
    assert!(matches!(failed, Err(H3Error::Other)));
    let blocked = driver.handle_h3_request::<u8, u8, ()>(Err(H3Error::StreamBlocked), 1, 2);
    assert!(matches!(blocked, Err(H3Error::StreamBlocked)));
}

#[test]
fn answers_of_an_h3_stream_are_written_newest_first() {
    let mut driver = HysDriver::new();
    driver.on_conn_established(Ok(())).unwrap();
    driver.handle_h3_request::<u8, u8, ()>(Ok((0, H3Event::Data)), 1, 2).unwrap();
    assert!(matches!(driver.process_writes(0), WriteStep::Nothing));
    for auth_res in [false, true] {
        let ready = ReceivedH3Stream {
            stream_id: 0,
            chan: (),
            response: Some(H3Response { auth_res, response: page() }),
        };
        let wait = driver.upstream_ready::<(), u8>(StreamReady::H3Stream(ready), false);
        assert!(wait.is_none());
    }
    driver.h3_ready(ReceivedH3Stream { stream_id: 0, chan: (), response: None });
    match driver.process_writes(0) {
        WriteStep::H3(responses) => {
            assert_eq!(responses.len(), 2);
            assert!(responses[0].auth_res);
            assert!(!responses[1].auth_res);
        }
        _ => panic!("no answers"),
    }
    assert!(matches!(driver.process_writes(0), WriteStep::Nothing));
}

#[test]
fn answers_for_unknown_streams_are_dropped() {
    let mut driver = HysDriver::new();
    driver.on_conn_established(Ok(())).unwrap();
    let response = Some(H3Response { auth_res: true, response: Vec::new() });
    driver.h3_ready(ReceivedH3Stream { stream_id: 8, chan: (), response });
    assert!(matches!(driver.process_writes(8), WriteStep::Nothing));
    let mut driver = verified();
    answer(&mut driver, 8, b"bytes");
    assert_eq!(driver.queued_len(8), 0);
    assert!(matches!(driver.process_writes(8), WriteStep::Nothing));
}

#[test]
fn stream_gets_one_target() {
    let mut driver = verified();
    match read(&mut driver, 4, REQUEST) {
        QuicRead::Event(HysEvent::QuicEvent(4, ProxyEvent::Request(url, 1)), wait) => {
            assert_eq!(url, "a:1");
            assert_eq!(wait.stream_id, 4);
            assert_eq!(wait.chan, Some(2));
        }
        _ => panic!("no request"),
    }
    assert!(matches!(read(&mut driver, 4, REQUEST), QuicRead::Ignore));
    assert!(matches!(read(&mut driver, 8, REQUEST), QuicRead::Event(_, _)));
    assert!(matches!(read(&mut driver, 4, REQUEST), QuicRead::Ignore));
}

#[test]
fn other_bytes_are_payload() {
    let mut driver = verified();
    read(&mut driver, 4, REQUEST);
    match read(&mut driver, 4, b"GET") {
        QuicRead::Event(HysEvent::QuicEvent(4, ProxyEvent::Payload(bytes)), wait) => {
            assert_eq!(&bytes[..], b"GET");
            assert_eq!(wait.chan, Some(2));
        }
        _ => panic!("no payload"),
    }
    assert!(matches!(read(&mut driver, 4, b""), QuicRead::Shutdown));
}

#[test]
fn proxied_bytes_go_out_in_order() {
    let mut driver = verified();
    read(&mut driver, 4, REQUEST);
    read(&mut driver, 8, REQUEST);
    assert_eq!(waiting(&mut driver, 4), b"");
    answer(&mut driver, 4, b"abc");
    answer(&mut driver, 8, b"other");
    answer(&mut driver, 4, b"def");
    assert_eq!(driver.queued_len(4), 6);
    assert_eq!(waiting(&mut driver, 4), b"abcdef");
    driver.quic_sent(4, 2);
    assert_eq!(waiting(&mut driver, 4), b"cdef");
    driver.quic_sent(4, 0);
    answer(&mut driver, 4, b"g");
    assert_eq!(waiting(&mut driver, 4), b"cdefg");
    driver.quic_sent(4, 5);
    assert_eq!(waiting(&mut driver, 4), b"");
    assert_eq!(waiting(&mut driver, 8), b"other");
}

#[test]
fn proxied_stream_waits_until_its_channel_closes() {
    let mut driver = verified();
    let ready = ReceivedQuicStream { stream_id: 4, chan: 9u8, response: None };
    match driver.upstream_ready::<(), u8>(StreamReady::QuicStream(ready), false) {
        Some(WaitForStream::QuicStream(wait)) => {
            assert_eq!(wait.stream_id, 4);
            assert_eq!(wait.chan, Some(9));
        }
        _ => panic!("does not wait"),
    }
    let ready = ReceivedQuicStream { stream_id: 4, chan: 9u8, response: None };
    assert!(driver.upstream_ready::<(), u8>(StreamReady::QuicStream(ready), true).is_none());
}

#[test]
fn frames_that_failed_are_left() {
    let mut driver = HysDriver::new();
    let response = H3Response { auth_res: false, response: page() };
    let left = driver.handle_h3_response(&response, &[Err(H3Error::StreamBlocked), Ok(12)]);
    assert_eq!(left.len(), 1);
    assert!(matches!(&left[0], OutboundFrame::Headers(list) if list[0].value == b"200"));
    let left = driver.handle_h3_response(&response, &[Ok(0), Ok(5)]);
    assert_eq!(left.len(), 1);
    assert!(matches!(&left[0], OutboundFrame::Body(rest, true) if rest == b" World!"));
    let left = driver.handle_h3_response(&response, &[Ok(0), Err(H3Error::Done)]);
    assert!(matches!(&left[0], OutboundFrame::Body(rest, true) if rest == b"Hello World!"));
    assert!(driver.handle_h3_response(&response, &[Ok(0), Ok(12)]).is_empty());
    let other = H3Response { auth_res: false, response: vec![OutboundFrame::Other] };
    assert!(driver.handle_h3_response(&other, &[Err(H3Error::Other)]).is_empty());
}

#[test]
fn waiting_streams_give_up_their_channel_with_the_answer() {
    let mut h3 = WaitForH3Stream { stream_id: 3, chan: Some('h') };
    assert!(h3.poll(None).is_none());
    assert_eq!(h3.chan, Some('h'));
    let ready = h3.poll(Some(None)).unwrap();
    assert_eq!((ready.stream_id, ready.chan), (3, 'h'));
    assert!(ready.response.is_none());
    assert_eq!(h3.chan, None);

    let mut quic = WaitForQuicStream { stream_id: 5, chan: Some('q') };
    assert!(quic.poll::<Bytes>(None).is_none());
    let message = HysResponse { bytes: Bytes::copy_from_slice(b"x"), fin: true };
    let ready = quic.poll(Some(Some(message))).unwrap();
    assert_eq!((ready.stream_id, ready.chan), (5, 'q'));
    let response = ready.response.unwrap();
    assert_eq!(&response.bytes[..], b"x");
    assert!(response.fin);
    assert_eq!(quic.chan, None);
}

fn waiting_frames(driver: &mut HysDriver, stream_id: u64) -> Vec<OutboundFrame> {
    match driver.process_writes(stream_id) {
        WriteStep::H3(mut responses) => {
            assert_eq!(responses.len(), 1);
            assert!(!responses[0].auth_res);
            responses.pop().unwrap().response
        }
        _ => panic!("nothing waits"),
    }
}

#[test]
fn frames_that_failed_wait_again() {
    let mut driver = HysDriver::new();
    driver.on_conn_established(Ok(())).unwrap();
    driver.handle_h3_request::<u8, u8, ()>(Ok((0, H3Event::Data)), 1, 2).unwrap();
    let response = H3Response { auth_res: false, response: page() };
    let left = driver.handle_h3_response(&response, &[Ok(0), Ok(5)]);
    driver.requeue(0, left);
    driver.requeue(0, Vec::new());
    let later = H3Response { auth_res: false, response: page() };
    driver.h3_ready(ReceivedH3Stream { stream_id: 0, chan: (), response: Some(later) });
    let frames = waiting_frames(&mut driver, 0);
    assert!(matches!(&frames[..], [OutboundFrame::Body(rest, true)] if rest == b" World!"));
    assert_eq!(waiting_frames(&mut driver, 0).len(), 2);
    assert!(matches!(driver.process_writes(0), WriteStep::Nothing));
}

#[test]
fn welcome_that_failed_goes_out_after_all() {
    let mut driver = HysDriver::new();
    driver.on_conn_established(Ok(())).unwrap();
    let welcome = OutboundFrame::Headers(vec![Header::new(b":status", b"233")]);
    let response = H3Response { auth_res: true, response: vec![welcome] };
    let left = driver.handle_h3_response(&response, &[Err(H3Error::StreamBlocked)]);
    driver.requeue(0, left);
    assert_eq!(driver.process_reads(), ReadMode::Quic);
    let frames = waiting_frames(&mut driver, 0);
    assert!(matches!(&frames[..], [OutboundFrame::Headers(list)] if list[0].value == b"233"));
    assert!(matches!(driver.process_writes(0), WriteStep::Nothing));
}

#[test]
fn frames_that_failed_wait_in_order() {
    let mut driver = HysDriver::new();
    driver.requeue(0, vec![OutboundFrame::Body(b"a".to_vec(), false)]);
    driver.requeue(0, vec![OutboundFrame::Body(b"b".to_vec(), true)]);
    driver.requeue(4, vec![OutboundFrame::Body(b"c".to_vec(), true)]);
    let frames = waiting_frames(&mut driver, 0);
    assert!(matches!(
        &frames[..],
        [OutboundFrame::Body(a, false), OutboundFrame::Body(b, true)] if a == b"a" && b == b"b"
    ));
    assert_eq!(waiting_frames(&mut driver, 4).len(), 1);
}

#[test]
fn last_message_ends_the_stream() {
    let mut driver = verified();
    read(&mut driver, 4, REQUEST);
    for (bytes, fin) in [(&b"ab"[..], false), (&b""[..], true)] {
        let response = Some(HysResponse { bytes: Bytes::copy_from_slice(bytes), fin });
        let ready = ReceivedQuicStream { stream_id: 4, chan: 9u8, response };
        let wait = driver.message_ready::<(), u8>(StreamReady::QuicStream(ready), false);
        assert!(matches!(wait, Some(WaitForStream::QuicStream(w)) if w.chan == Some(9)));
    }
    assert_eq!(waiting(&mut driver, 4), b"ab");
    driver.quic_sent(4, 2);
    assert!(matches!(driver.process_writes(4), WriteStep::End));
    driver.end_sent(4);
    let ready = ReceivedQuicStream { stream_id: 4, chan: 9u8, response: None };
    assert!(driver.message_ready::<(), u8>(StreamReady::QuicStream(ready), true).is_none());
    assert!(matches!(driver.process_writes(4), WriteStep::Nothing));
}

#[test]
fn stream_ends_once_its_bytes_are_out() {
    let mut driver = verified();
    driver.end_stream(4);
    assert!(matches!(driver.process_writes(4), WriteStep::Nothing));
    read(&mut driver, 4, REQUEST);
    assert!(matches!(driver.process_writes(4), WriteStep::Nothing));
    answer(&mut driver, 4, b"ab");
    driver.end_stream(4);
    assert!(matches!(driver.process_writes(4), WriteStep::Quic(_)));
    driver.quic_sent(4, 1);
    assert!(matches!(driver.process_writes(4), WriteStep::Quic(_)));
    driver.quic_sent(4, 1);
    assert!(matches!(driver.process_writes(4), WriteStep::End));
    assert!(matches!(driver.process_writes(4), WriteStep::End));
    driver.end_sent(4);
    assert!(matches!(driver.process_writes(4), WriteStep::Nothing));
}
