//! The packet server: whom a packet belongs to, and how answers get out in pieces.

use crate::auth::{admitted, masquerade_frames, welcome_frames};
use crate::h3::{
    frame_views, header_views, FrameView, H3Error, H3Event, Header, HeaderView, OutboundFrame,
};
use crate::rustiera_server::auth::auth;
use crate::rustiera_server::structs::{Client, PartialResponse, PartialView};
use crate::text::{utf8_lossy, utf8_lossy_string, utf8_text};
use vstd::prelude::*;
use vstd::slice::slice_subrange;

verus! {

/// The address that the packet server listens on.
pub const BINDING_ADDR_STR: &'static str = "127.0.0.1:8888";

/// Where the packet server looks for files.
pub const ROOT: &'static str = "examples/root";

/// Builds the answer to a request from its headers alone: the welcome, without a body, for a
/// client that is let in, and the web page for anybody else. No file below `_root` is read.
pub fn build_response(_root: &str, request_headers: Vec<Header>) -> (response: (
    Vec<Header>,
    Vec<u8>,
))
    ensures
        if admitted(header_views(request_headers@), "8964"@) {
            &&& seq![FrameView::Headers(header_views(response.0@))] == welcome_frames("8964"@)
            &&& response.1@ == Seq::<u8>::empty()
        } else {
            seq![
                FrameView::Headers(header_views(response.0@)),
                FrameView::Body(response.1@, true),
            ] == masquerade_frames()
        },
{
    let ghost request = header_views(request_headers@);
    let (_, mut frames) = auth(request_headers);
    let ghost views = frame_views(frames@);
    assert(views.len() == frames@.len());
    assert(forall|i: int| 0 <= i < views.len() ==> #[trigger] views[i] == frames@[i]@);
    let mut body: Vec<u8> = Vec::new();
    if frames.len() > 1 {
        match frames.pop() {
            Some(OutboundFrame::Body(bytes, _)) => {
                body = bytes;
            },
            _ => {},
        }
    }
    let headers = match frames.pop() {
        Some(OutboundFrame::Headers(list)) => list,
        _ => Vec::new(),
    };
    proof {
        assert(views[0] == FrameView::Headers(header_views(headers@)));
        if admitted(request, "8964"@) {
            assert(seq![FrameView::Headers(header_views(headers@))] =~= views);
        } else {
            assert(views[1] == FrameView::Body(body@, true));
            assert(seq![
                FrameView::Headers(header_views(headers@)),
                FrameView::Body(body@, true),
            ] =~= views);
        }
    }
    (headers, body)
}

/// What to do about what polling an HTTP/3 connection gave.
pub enum PollAction {
    /// Answer a request with these headers on this stream.
    Answer(u64, Vec<Header>),
    /// Poll again.
    Continue,
    /// Stop polling.
    Stop,
}

/// Decides what to do about what polling an HTTP/3 connection gave: only the headers of a
/// request are acted upon, and any error ends the polling.
pub fn poll_action(polled: Result<(u64, H3Event), H3Error>) -> (action: PollAction)
    ensures
        action == match polled {
            Ok((stream_id, H3Event::Headers(list))) => PollAction::Answer(stream_id, list),
            Ok(_) => PollAction::Continue,
            Err(_) => PollAction::Stop,
        },
{
    match polled {
        Ok((stream_id, event)) => match event {
            H3Event::Headers(list) => PollAction::Answer(stream_id, list),
            _ => PollAction::Continue,
        },
        Err(_) => PollAction::Stop,
    }
}

/// Whether to put an HTTP/3 connection on top of a QUIC connection: as soon as the QUIC
/// connection can carry data, and once.
pub fn should_open_h3<Q, H>(
    client: &Client<Q, H>,
    is_in_early_data: bool,
    is_established: bool,
) -> (open: bool)
    ensures
        open == ((is_in_early_data || is_established) && client.http3_conn is None),
{
    (is_in_early_data || is_established) && client.http3_conn.is_none()
}

/// The first of the timeouts of some connections, where any has one.
pub fn earliest_timeout(timeouts: &[Option<u128>]) -> (earliest: Option<u128>)
    ensures
        match earliest {
            Some(t) => {
                &&& timeouts@.contains(Some(t))
                &&& forall|i: int|
                    0 <= i < timeouts@.len() ==> ((#[trigger] timeouts@[i]) matches Some(other)
                        ==> t <= other)
            },
            None => forall|i: int| 0 <= i < timeouts@.len() ==> (#[trigger] timeouts@[i]) is None,
        },
{
    let mut earliest: Option<u128> = None;
    let mut i: usize = 0;
    while i < timeouts.len()
        invariant
            i <= timeouts@.len(),
            match earliest {
                Some(t) => {
                    &&& timeouts@.contains(Some(t))
                    &&& forall|j: int|
                        0 <= j < i ==> ((#[trigger] timeouts@[j]) matches Some(other) ==> t
                            <= other)
                },
                None => forall|j: int| 0 <= j < i ==> (#[trigger] timeouts@[j]) is None,
            },
        decreases timeouts@.len() - i,
    {
        if let Some(t) = timeouts[i] {
            assert(timeouts@[i as int] == Some(t));
            match earliest {
                Some(first) => {
                    if t < first {
                        earliest = Some(t);
                    }
                },
                None => {
                    earliest = Some(t);
                },
            }
        }
        i = i + 1;
    }
    earliest
}

/// Header fields as text, for the log.
pub fn hdrs_to_strings(hdrs: &[Header]) -> (strings: Vec<(String, String)>)
    ensures
        strings@.len() == hdrs@.len(),
        forall|i: int|
            0 <= i < hdrs@.len() ==> {
                &&& (#[trigger] strings@[i]).0@ == utf8_lossy(hdrs@[i]@.name)
                &&& strings@[i].1@ == utf8_lossy(hdrs@[i]@.value)
            },
        forall|i: int|
            0 <= i < hdrs@.len() && utf8_text(hdrs@[i]@.name) is Some ==> Some(
                (#[trigger] strings@[i]).0@,
            ) == utf8_text(hdrs@[i]@.name),
        forall|i: int|
            0 <= i < hdrs@.len() && utf8_text(hdrs@[i]@.value) is Some ==> Some(
                (#[trigger] strings@[i]).1@,
            ) == utf8_text(hdrs@[i]@.value),
{
    let mut strings: Vec<(String, String)> = Vec::new();
    let mut i: usize = 0;
    while i < hdrs.len()
        invariant
            i <= hdrs@.len(),
            strings@.len() == i,
            forall|j: int|
                0 <= j < i ==> {
                    &&& (#[trigger] strings@[j]).0@ == utf8_lossy(hdrs@[j]@.name)
                    &&& strings@[j].1@ == utf8_lossy(hdrs@[j]@.value)
                },
            forall|j: int|
                0 <= j < i && utf8_text(hdrs@[j]@.name) is Some ==> Some(
                    (#[trigger] strings@[j]).0@,
                ) == utf8_text(hdrs@[j]@.name),
            forall|j: int|
                0 <= j < i && utf8_text(hdrs@[j]@.value) is Some ==> Some(
                    (#[trigger] strings@[j]).1@,
                ) == utf8_text(hdrs@[j]@.value),
        decreases hdrs@.len() - i,
    {
        let name = utf8_lossy_string(hdrs[i].name.as_slice());
        let value = utf8_lossy_string(hdrs[i].value.as_slice());
        strings.push((name, value));
        i = i + 1;
    }
    strings
}

/// What came of sending an answer, or what is left of one.
pub enum SendOutcome {
    /// The headers did not go out, for this reason.
    Headers(H3Error),
    /// The headers are out. This came of sending the body, as the last of the stream.
    Body(Result<usize, H3Error>),
}

/// How many bytes went out in an attempt to send some. Being done counts as none.
pub open spec fn accepted(outcome: Result<usize, H3Error>) -> Option<int> {
    match outcome {
        Ok(n) => Some(n as int),
        Err(H3Error::Done) => Some(0),
        Err(_) => None,
    }
}

/// What is left to send of `body` after an attempt to send what follows the first `written`
/// bytes: nothing where the attempt failed, or where all has gone out.
pub open spec fn after_body(
    body: Seq<u8>,
    written: int,
    outcome: Result<usize, H3Error>,
) -> Option<PartialView> {
    match accepted(outcome) {
        Some(n) if written + n < body.len() => Some(
            PartialView { headers: None, body, written: written + n },
        ),
        _ => None,
    }
}

/// What is left to send of an answer after the first attempt to send it. Headers that found no
/// room are tried again; after any other error of theirs the answer is dropped.
pub open spec fn after_request(
    headers: Seq<HeaderView>,
    body: Seq<u8>,
    outcome: SendOutcome,
) -> Option<PartialView> {
    match outcome {
        SendOutcome::Headers(H3Error::StreamBlocked) => Some(
            PartialView { headers: Some(headers), body, written: 0 },
        ),
        SendOutcome::Headers(_) => None,
        SendOutcome::Body(sent) => after_body(body, 0, sent),
    }
}

/// What is left to send of an answer after a later attempt. As long as the headers do not go
/// out, the answer stays as it is.
pub open spec fn after_writable(waiting: PartialView, outcome: SendOutcome) -> Option<PartialView> {
    match outcome {
        SendOutcome::Headers(_) => Some(waiting),
        SendOutcome::Body(sent) => after_body(waiting.body, waiting.written, sent),
    }
}

/// Whether an outcome can come of sending `body`: no more goes out than there is.
pub open spec fn possible(body: Seq<u8>, outcome: SendOutcome) -> bool {
    outcome matches SendOutcome::Body(Ok(n)) ==> n <= body.len()
}

/// Takes what came of the first attempt to send an answer.
pub fn handle_request<Q, H>(
    client: &mut Client<Q, H>,
    stream_id: u64,
    headers: Vec<Header>,
    body: Vec<u8>,
    outcome: SendOutcome,
)
    requires
        old(client).well_formed(),
        possible(body@, outcome),
    ensures
        final(client).well_formed(),
        final(client).q_conn == old(client).q_conn,
        final(client).http3_conn == old(client).http3_conn,
        final(client).waiting() == match after_request(header_views(headers@), body@, outcome) {
            Some(waiting) => old(client).waiting().insert(stream_id, waiting),
            None => old(client).waiting(),
        },
{
    match outcome {
        SendOutcome::Headers(error) => {
            if error == H3Error::StreamBlocked {
                client.keep(
                    stream_id,
                    PartialResponse { headers: Some(headers), body, written: 0 },
                );
            }
        },
        SendOutcome::Body(sent) => {
            let written: usize = match sent {
                Ok(n) => n,
                Err(H3Error::Done) => 0,
                Err(_) => {
                    return ;
                },
            };
            if written < body.len() {
                client.keep(stream_id, PartialResponse { headers: None, body, written });
            }
        },
    }
}

/// What to send on a stream that has room again.
pub enum WritableAction<'a> {
    /// Nothing waits.
    Nothing,
    /// The headers, unless they are out, and after them the rest of the body.
    Send(Option<&'a Vec<Header>>, &'a [u8]),
}

/// Finds what to send on a stream that has room again.
pub fn handle_writable<'a, Q, H>(client: &'a Client<Q, H>, stream_id: u64) -> (action:
    WritableAction<'a>)
    requires
        client.well_formed(),
    ensures
        match action {
            WritableAction::Nothing => !client.waiting().contains_key(stream_id),
            WritableAction::Send(headers, rest) => {
                &&& client.waiting().contains_key(stream_id)
                &&& client.waiting()[stream_id].headers == match headers {
                    Some(h) => Some(header_views(h@)),
                    None => None,
                }
                &&& rest@ == client.waiting()[stream_id].rest()
            },
        },
{
    match client.partial_responses.get(&stream_id) {
        Some(response) => {
            assert(client.waiting().contains_key(stream_id));
            let headers = match &response.headers {
                Some(h) => Some(h),
                None => None,
            };
            let rest = slice_subrange(
                response.body.as_slice(),
                response.written,
                response.body.len(),
            );
            WritableAction::Send(headers, rest)
        },
        None => WritableAction::Nothing,
    }
}

/// Takes what came of another attempt to send the answer that waits on a stream.
pub fn writable_sent<Q, H>(client: &mut Client<Q, H>, stream_id: u64, outcome: SendOutcome)
    requires
        old(client).well_formed(),
        old(client).waiting().contains_key(stream_id),
        possible(old(client).waiting()[stream_id].rest(), outcome),
    ensures
        final(client).well_formed(),
        final(client).q_conn == old(client).q_conn,
        final(client).http3_conn == old(client).http3_conn,
        final(client).waiting() == match after_writable(
            old(client).waiting()[stream_id],
            outcome,
        ) {
            Some(waiting) => old(client).waiting().insert(stream_id, waiting),
            None => old(client).waiting().remove(stream_id),
        },
{
    let ghost before = client.waiting();
    match outcome {
        SendOutcome::Headers(_) => {
            assert(before =~= before.insert(stream_id, before[stream_id]));
        },
        SendOutcome::Body(sent) => {
            let mut response = client.forget(stream_id).unwrap();
            let written: usize = match sent {
                Ok(n) => n,
                Err(H3Error::Done) => 0,
                Err(_) => {
                    return ;
                },
            };
            let total: usize = response.body.len();
            assert(before[stream_id].well_formed());
            response.headers = None;
            response.written = response.written + written;
            if response.written != total {
                client.keep(stream_id, response);
                assert(client.waiting() =~= before.insert(stream_id, response@));
            }
        },
    }
}

/// How far an answer has got: what of its body has gone out, and what waits to be sent.
pub struct AnswerProgress {
    pub sent: Seq<u8>,
    pub waiting: Option<PartialView>,
}

/// The bytes that went out in an attempt to send `rest`.
pub open spec fn gone_out(rest: Seq<u8>, outcome: SendOutcome) -> Seq<u8> {
    match outcome {
        SendOutcome::Body(Ok(n)) => rest.subrange(0, n as int),
        _ => Seq::empty(),
    }
}

/// How far an answer has got after the first attempt to send it and some later ones.
pub open spec fn answer_progress(
    headers: Seq<HeaderView>,
    body: Seq<u8>,
    first: SendOutcome,
    later: Seq<SendOutcome>,
) -> AnswerProgress
    decreases later.len(),
{
    if later.len() == 0 {
        AnswerProgress {
            sent: gone_out(body, first),
            waiting: after_request(headers, body, first),
        }
    } else {
        let before = answer_progress(headers, body, first, later.drop_last());
        match before.waiting {
            Some(waiting) => AnswerProgress {
                sent: before.sent + gone_out(waiting.rest(), later.last()),
                waiting: after_writable(waiting, later.last()),
            },
            None => before,
        }
    }
}

/// Whether every attempt had an outcome that is possible for what it tried to send.
pub open spec fn possible_attempts(
    headers: Seq<HeaderView>,
    body: Seq<u8>,
    first: SendOutcome,
    later: Seq<SendOutcome>,
) -> bool
    decreases later.len(),
{
    if later.len() == 0 {
        possible(body, first)
    } else {
        &&& possible_attempts(headers, body, first, later.drop_last())
        &&& answer_progress(headers, body, first, later.drop_last()).waiting matches Some(waiting)
            ==> possible(waiting.rest(), later.last())
    }
}

/// Whether sending the body failed in an attempt.
pub open spec fn body_failed(outcome: SendOutcome) -> bool {
    outcome matches SendOutcome::Body(Err(error)) && error != H3Error::Done
}

/// Whether the answer is given up after the first attempt.
pub open spec fn gives_up(first: SendOutcome) -> bool {
    body_failed(first) || (first matches SendOutcome::Headers(error) && error
        != H3Error::StreamBlocked)
}

/// An answer goes out in order and without a gap: what has gone out and what waits make up the
/// body, and where nothing waits the whole body is out, unless an attempt failed for good.
pub proof fn answers_go_out_in_order(
    headers: Seq<HeaderView>,
    body: Seq<u8>,
    first: SendOutcome,
    later: Seq<SendOutcome>,
)
    requires
        possible_attempts(headers, body, first, later),
    ensures
        ({
            let progress = answer_progress(headers, body, first, later);
            match progress.waiting {
                Some(waiting) => {
                    &&& waiting.well_formed()
                    &&& waiting.body == body
                    &&& progress.sent + waiting.rest() == body
                },
                None => {
                    ||| progress.sent == body
                    ||| gives_up(first)
                    ||| exists|i: int| 0 <= i < later.len() && body_failed(#[trigger] later[i])
                },
            }
        }),
    decreases later.len(),
{
    let progress = answer_progress(headers, body, first, later);
    if later.len() == 0 {
        if let Some(waiting) = progress.waiting {
            assert(progress.sent + waiting.rest() =~= body);
        } else if !gives_up(first) {
            assert(progress.sent =~= body);
        }
    } else {
        let earlier = later.drop_last();
        let before = answer_progress(headers, body, first, earlier);
        answers_go_out_in_order(headers, body, first, earlier);
        match before.waiting {
            Some(waiting) => {
                assert(before.sent.len() == waiting.written);
                if let Some(now) = progress.waiting {
                    assert(progress.sent + now.rest() =~= before.sent + waiting.rest());
                } else if body_failed(later.last()) {
                    assert(body_failed(later[later.len() - 1]));
                } else {
                    assert(progress.sent =~= before.sent + waiting.rest());
                }
            },
            None => {
                if exists|i: int| 0 <= i < earlier.len() && body_failed(#[trigger] earlier[i]) {
                    let i = choose|i: int|
                        0 <= i < earlier.len() && body_failed(#[trigger] earlier[i]);
                    assert(body_failed(later[i]));
                }
            },
        }
    }
}

/// The headers of an answer wait, with the whole body, exactly as long as they have not gone out.
/// An attempt that finds no room for them changes nothing.
pub proof fn headers_wait_until_they_are_out(
    headers: Seq<HeaderView>,
    body: Seq<u8>,
    first: SendOutcome,
    later: Seq<SendOutcome>,
)
    requires
        possible_attempts(headers, body, first, later),
        first == SendOutcome::Headers(H3Error::StreamBlocked),
    ensures
        ({
            let progress = answer_progress(headers, body, first, later);
            let out = exists|i: int| 0 <= i < later.len() && #[trigger] later[i] is Body;
            &&& !out ==> progress.waiting == Some(
                PartialView { headers: Some(headers), body, written: 0 },
            ) && progress.sent.len() == 0
            &&& out ==> (progress.waiting matches Some(waiting) ==> waiting.headers is None)
        }),
    decreases later.len(),
{
    if later.len() > 0 {
        let earlier = later.drop_last();
        headers_wait_until_they_are_out(headers, body, first, earlier);
        if exists|i: int| 0 <= i < earlier.len() && #[trigger] earlier[i] is Body {
            let i = choose|i: int| 0 <= i < earlier.len() && #[trigger] earlier[i] is Body;
            assert(later[i] is Body);
        }
        if later.last() is Body {
            assert(later[later.len() - 1] is Body);
        }
        if exists|i: int| 0 <= i < later.len() && #[trigger] later[i] is Body {
            let i = choose|i: int| 0 <= i < later.len() && #[trigger] later[i] is Body;
            if i < earlier.len() {
                assert(earlier[i] is Body);
            }
        }
    }
}

/// An answer is given up only where its headers or its body cannot be sent at all; an attempt that
/// fails leaves nothing behind.
pub proof fn failed_answers_are_given_up(
    headers: Seq<HeaderView>,
    body: Seq<u8>,
    outcome: SendOutcome,
    waiting: PartialView,
)
    ensures
        gives_up(outcome) ==> after_request(headers, body, outcome) is None,
        body_failed(outcome) ==> after_writable(waiting, outcome) is None,
        outcome is Headers ==> after_writable(waiting, outcome) == Some(waiting),
{
}

} // verus!
