//! Who is let in, and what the others see.

use crate::h3::{frame_views, header_views, FrameView, Header, HeaderView, OutboundFrame};
use crate::proto::{
    auth_fields, distinct_names, has_readable_rx, is_named, last_rx, last_text, rx_readable,
    rx_value, text_header, AuthRequest, AuthResponse,
};
use crate::text::{decimal_digits, decimal_round_trip, decimal_up_to, str_eq};
use vstd::prelude::*;
use vstd::slice::slice_to_vec;
use vstd::utf8::*;

verus! {

/// Whether the headers make a complete authentication request with the right token, and every
/// receive rate among them can be read.
pub open spec fn admitted(headers: Seq<HeaderView>, auth_token: Seq<char>) -> bool {
    rx_readable(headers) && match auth_fields(headers) {
        Some(fields) => fields.auth_token == auth_token,
        None => false,
    }
}

/// The frames that welcome a client: status 233, no UDP, no receive rate.
pub open spec fn welcome_frames(padding: Seq<char>) -> Seq<FrameView> {
    seq![
        FrameView::Headers(
            seq![
                text_header(":status"@, "233"@),
                text_header("Hysteria-UDP"@, "false"@),
                text_header("Hysteria-CC-RX"@, "auto"@),
                text_header("Hysteria-Padding"@, padding),
            ],
        ),
    ]
}

/// The frames of the web page that everybody else is shown.
pub open spec fn masquerade_frames() -> Seq<FrameView> {
    seq![
        FrameView::Headers(seq![text_header(":status"@, "200"@)]),
        FrameView::Body(encode_utf8("Hello World!"@), true),
    ]
}

/// Whether a request is let in, and the frames that answer it.
pub open spec fn auth_answer(
    headers: Seq<HeaderView>,
    auth_token: Seq<char>,
    padding: Seq<char>,
) -> (bool, Seq<FrameView>) {
    if admitted(headers, auth_token) {
        (true, welcome_frames(padding))
    } else {
        (false, masquerade_frames())
    }
}

/// Whether the token that a client sent is the one it should have.
pub fn verify(token: &str, auth_token: &str) -> (verified: bool)
    ensures
        verified == (token@ == auth_token@),
{
    str_eq(token, auth_token)
}

/// The web page that everybody is shown who is not let in.
pub fn masquerade() -> (frames: Vec<OutboundFrame>)
    ensures
        frame_views(frames@) == masquerade_frames(),
{
    let mut headers: Vec<Header> = Vec::new();
    headers.push(Header::new(":status".as_bytes(), "200".as_bytes()));
    assert(header_views(headers@) =~= seq![text_header(":status"@, "200"@)]);
    let mut frames: Vec<OutboundFrame> = Vec::new();
    frames.push(OutboundFrame::Headers(headers));
    frames.push(OutboundFrame::Body(slice_to_vec("Hello World!".as_bytes()), true));
    assert(frame_views(frames@) =~= masquerade_frames());
    frames
}

/// Decides on a request by its headers: a complete authentication request with the right token
/// is welcomed, anything else, however broken, is answered with the web page.
pub fn authenticate(headers: &[Header], auth_token: &str, padding: &str) -> (answer: (
    bool,
    Vec<OutboundFrame>,
))
    ensures
        (answer.0, frame_views(answer.1@)) == auth_answer(
            header_views(headers@),
            auth_token@,
            padding@,
        ),
{
    if !has_readable_rx(headers) {
        return (false, masquerade());
    }
    match AuthRequest::from_event_header(headers) {
        Ok(request) => {
            if verify(request.auth_token, auth_token) {
                let response = AuthResponse {
                    status: 233,
                    udp_supported: false,
                    server_rx: 0,
                    rx_auto: true,
                    padding,
                };
                let mut frames: Vec<OutboundFrame> = Vec::new();
                frames.push(OutboundFrame::Headers(response.to_headers()));
                assert(frame_views(frames@) =~= welcome_frames(padding@));
                (true, frames)
            } else {
                (false, masquerade())
            }
        },
        Err(_) => (false, masquerade()),
    }
}

/// A client that is not let in cannot tell from the answer why: whatever it sent and whatever
/// the token is, the answer is the same, and it is not the one of a client that is let in.
pub proof fn refusals_look_alike(
    headers: Seq<HeaderView>,
    auth_token: Seq<char>,
    other_headers: Seq<HeaderView>,
    other_token: Seq<char>,
    padding: Seq<char>,
)
    requires
        !admitted(headers, auth_token),
        !admitted(other_headers, other_token),
    ensures
        auth_answer(headers, auth_token, padding) == auth_answer(
            other_headers,
            other_token,
            padding,
        ),
        auth_answer(headers, auth_token, padding).1 != welcome_frames(padding),
{
    assert(masquerade_frames().len() != welcome_frames(padding).len());
}

/// Whether the headers hold, each once and wherever they stand, a token, a receive rate in
/// decimal digits, and padding.
pub open spec fn holds_request(
    headers: Seq<HeaderView>,
    token: Seq<char>,
    rate: nat,
    padding: Seq<char>,
) -> bool {
    &&& holds_once(headers, "hysteria-auth"@, encode_utf8(token))
    &&& holds_once(headers, "hysteria-cc-rx"@, encode_utf8(decimal_digits(rate)))
    &&& holds_once(headers, "hysteria-padding"@, encode_utf8(padding))
}

/// Whether exactly one of the headers has this name, and that one this value.
pub open spec fn holds_once(headers: Seq<HeaderView>, name: Seq<char>, value: Seq<u8>) -> bool {
    exists|i: int| holds_only_at(headers, name, value, i)
}

/// Whether the header at `i` has this name and this value, and no other header has this name.
pub open spec fn holds_only_at(
    headers: Seq<HeaderView>,
    name: Seq<char>,
    value: Seq<u8>,
    i: int,
) -> bool {
    &&& 0 <= i < headers.len()
    &&& headers[i] == (HeaderView { name: encode_utf8(name), value })
    &&& forall|j: int| 0 <= j < headers.len() && j != i ==> (#[trigger] headers[j]).name
        != encode_utf8(name)
}

/// The answer that lets a client in, written out.
pub open spec fn written_welcome(padding: Seq<char>) -> (bool, Seq<FrameView>) {
    (
        true,
        seq![
            FrameView::Headers(
                seq![
                    HeaderView { name: encode_utf8(":status"@), value: encode_utf8("233"@) },
                    HeaderView { name: encode_utf8("Hysteria-UDP"@), value: encode_utf8("false"@) },
                    HeaderView {
                        name: encode_utf8("Hysteria-CC-RX"@),
                        value: encode_utf8("auto"@),
                    },
                    HeaderView {
                        name: encode_utf8("Hysteria-Padding"@),
                        value: encode_utf8(padding),
                    },
                ],
            ),
        ],
    )
}

/// The answer that does not, written out.
pub open spec fn written_page() -> (bool, Seq<FrameView>) {
    (
        false,
        seq![
            FrameView::Headers(
                seq![HeaderView { name: encode_utf8(":status"@), value: encode_utf8("200"@) }],
            ),
            FrameView::Body(encode_utf8("Hello World!"@), true),
        ],
    )
}

proof fn lemma_last_text_of_one(headers: Seq<HeaderView>, name: Seq<char>, value: Seq<u8>, i: int)
    requires
        holds_only_at(headers, name, value, i),
        valid_utf8(value),
    ensures
        last_text(headers, name) == Some(decode_utf8(value)),
    decreases headers.len(),
{
    if i < headers.len() - 1 {
        let before = headers.drop_last();
        assert(headers[headers.len() - 1].name != encode_utf8(name));
        assert forall|j: int| 0 <= j < before.len() && j != i implies (#[trigger] before[j]).name
            != encode_utf8(name) by {
            assert(headers[j].name != encode_utf8(name));
        }
        lemma_last_text_of_one(before, name, value, i);
    }
}

proof fn lemma_last_rx_of_one(headers: Seq<HeaderView>, value: Seq<u8>, i: int)
    requires
        holds_only_at(headers, "hysteria-cc-rx"@, value, i),
    ensures
        last_rx(headers) == rx_value(value),
    decreases headers.len(),
{
    if i < headers.len() - 1 {
        let before = headers.drop_last();
        assert(headers[headers.len() - 1].name != encode_utf8("hysteria-cc-rx"@));
        assert forall|j: int| 0 <= j < before.len() && j != i implies (#[trigger] before[j]).name
            != encode_utf8("hysteria-cc-rx"@) by {
            assert(headers[j].name != encode_utf8("hysteria-cc-rx"@));
        }
        lemma_last_rx_of_one(before, value, i);
    }
}

/// A client that sends the token of the server, any receive rate and any padding, among whatever
/// other headers, is let in and welcomed; by a server with another token it is shown the page.
pub proof fn right_token_is_welcomed(
    headers: Seq<HeaderView>,
    token: Seq<char>,
    rate: nat,
    sent_padding: Seq<char>,
    auth_token: Seq<char>,
    padding: Seq<char>,
)
    requires
        rate <= u64::MAX,
        holds_request(headers, token, rate, sent_padding),
    ensures
        auth_answer(headers, auth_token, padding) == if token == auth_token {
            written_welcome(padding)
        } else {
            written_page()
        },
{
    let digits = encode_utf8(decimal_digits(rate));
    let i = choose|i: int| holds_only_at(headers, "hysteria-auth"@, encode_utf8(token), i);
    let j = choose|j: int| holds_only_at(headers, "hysteria-cc-rx"@, digits, j);
    let k = choose|k: int|
        holds_only_at(headers, "hysteria-padding"@, encode_utf8(sent_padding), k);
    encode_utf8_valid_utf8(token);
    encode_utf8_decode_utf8(token);
    encode_utf8_valid_utf8(sent_padding);
    encode_utf8_decode_utf8(sent_padding);
    encode_utf8_valid_utf8(decimal_digits(rate));
    encode_utf8_decode_utf8(decimal_digits(rate));
    decimal_round_trip(rate);
    lemma_last_text_of_one(headers, "hysteria-auth"@, encode_utf8(token), i);
    lemma_last_text_of_one(headers, "hysteria-padding"@, encode_utf8(sent_padding), k);
    lemma_last_rx_of_one(headers, digits, j);
    assert(rx_value(digits) == Some(rate));
    assert forall|x: int|
        0 <= x < headers.len() && is_named(#[trigger] headers[x], "hysteria-cc-rx"@) implies rx_value(
        headers[x].value,
    ) is Some by {
        assert(x == j);
    }
    every_answer_is_one_of_two(headers, auth_token, padding);
}

/// Whatever is asked, the answer is the welcome or the page.
pub proof fn every_answer_is_one_of_two(
    headers: Seq<HeaderView>,
    auth_token: Seq<char>,
    padding: Seq<char>,
)
    ensures
        auth_answer(headers, auth_token, padding) == if auth_answer(
            headers,
            auth_token,
            padding,
        ).0 {
            written_welcome(padding)
        } else {
            written_page()
        },
        auth_answer(headers, auth_token, padding).0 == admitted(headers, auth_token),
{
    assert(welcome_frames(padding)[0]->Headers_0 =~= written_welcome(padding).1[0]->Headers_0);
    assert(welcome_frames(padding) =~= written_welcome(padding).1);
    assert(masquerade_frames()[0]->Headers_0 =~= written_page().1[0]->Headers_0);
    assert(masquerade_frames() =~= written_page().1);
}

proof fn lemma_last_text_is_there(headers: Seq<HeaderView>, name: Seq<char>)
    requires
        last_text(headers, name) is Some,
    ensures
        exists|i: int|
            0 <= i < headers.len() && #[trigger] headers[i] == (HeaderView {
                name: encode_utf8(name),
                value: encode_utf8(last_text(headers, name)->0),
            }),
    decreases headers.len(),
{
    if headers.last().name == encode_utf8(name) && valid_utf8(headers.last().value) {
        decode_utf8_encode_utf8(headers.last().value);
        assert(headers[headers.len() - 1] == (HeaderView {
            name: encode_utf8(name),
            value: encode_utf8(last_text(headers, name)->0),
        }));
    } else {
        let before = headers.drop_last();
        lemma_last_text_is_there(before, name);
        let i = choose|i: int|
            0 <= i < before.len() && #[trigger] before[i] == (HeaderView {
                name: encode_utf8(name),
                value: encode_utf8(last_text(before, name)->0),
            });
        assert(headers[i] == before[i]);
    }
}

proof fn lemma_last_rx_is_there(headers: Seq<HeaderView>)
    requires
        last_rx(headers) is Some,
    ensures
        exists|i: int|
            0 <= i < headers.len() && (#[trigger] headers[i]).name == encode_utf8(
                "hysteria-cc-rx"@,
            ),
    decreases headers.len(),
{
    if headers.last().name == encode_utf8("hysteria-cc-rx"@) {
        assert(headers[headers.len() - 1].name == encode_utf8("hysteria-cc-rx"@));
    } else {
        let before = headers.drop_last();
        lemma_last_rx_is_there(before);
        let i = choose|i: int|
            0 <= i < before.len() && (#[trigger] before[i]).name == encode_utf8(
                "hysteria-cc-rx"@,
            );
        assert(headers[i] == before[i]);
    }
}

/// Nobody gets in who does not send the token, a receive rate and padding, or who sends a receive
/// rate that is not a number of 64 bits.
pub proof fn nobody_gets_in_without_the_token(
    headers: Seq<HeaderView>,
    auth_token: Seq<char>,
    padding: Seq<char>,
)
    requires
        auth_answer(headers, auth_token, padding).0,
    ensures
        exists|i: int|
            0 <= i < headers.len() && #[trigger] headers[i] == (HeaderView {
                name: encode_utf8("hysteria-auth"@),
                value: encode_utf8(auth_token),
            }),
        exists|i: int|
            0 <= i < headers.len() && (#[trigger] headers[i]).name == encode_utf8(
                "hysteria-cc-rx"@,
            ),
        exists|i: int|
            0 <= i < headers.len() && (#[trigger] headers[i]).name == encode_utf8(
                "hysteria-padding"@,
            ),
        forall|i: int|
            0 <= i < headers.len() && (#[trigger] headers[i]).name == encode_utf8(
                "hysteria-cc-rx"@,
            ) ==> exists|text: Seq<char>, rate: nat|
                headers[i].value == encode_utf8(text) && rate <= u64::MAX
                    && #[trigger] decimal_up_to(text, rate) == Some(rate),
{
    lemma_last_text_is_there(headers, "hysteria-auth"@);
    lemma_last_text_is_there(headers, "hysteria-padding"@);
    lemma_last_rx_is_there(headers);
    let p = choose|i: int|
        0 <= i < headers.len() && #[trigger] headers[i] == (HeaderView {
            name: encode_utf8("hysteria-padding"@),
            value: encode_utf8(last_text(headers, "hysteria-padding"@)->0),
        });
    assert(headers[p].name == encode_utf8("hysteria-padding"@));
    assert forall|i: int|
        0 <= i < headers.len() && (#[trigger] headers[i]).name == encode_utf8(
            "hysteria-cc-rx"@,
        ) implies exists|text: Seq<char>, rate: nat|
        headers[i].value == encode_utf8(text) && rate <= u64::MAX && #[trigger] decimal_up_to(
            text,
            rate,
        ) == Some(rate) by {
        assert(is_named(headers[i], "hysteria-cc-rx"@));
        let text = decode_utf8(headers[i].value);
        let rate = rx_value(headers[i].value)->0;
        decode_utf8_encode_utf8(headers[i].value);
        assert(decimal_up_to(text, rate) == Some(rate));
    }
}

/// A receive rate that cannot be read shuts out whoever sends it, wherever it stands.
pub proof fn unreadable_rate_sees_the_page(
    headers: Seq<HeaderView>,
    i: int,
    auth_token: Seq<char>,
    padding: Seq<char>,
)
    requires
        0 <= i < headers.len(),
        headers[i].name == encode_utf8("hysteria-cc-rx"@),
        forall|text: Seq<char>| #[trigger]
            encode_utf8(text) == headers[i].value ==> decimal_up_to(text, u64::MAX as nat) is None,
    ensures
        auth_answer(headers, auth_token, padding) == written_page(),
{
    assert(is_named(headers[i], "hysteria-cc-rx"@));
    let value = headers[i].value;
    if valid_utf8(value) {
        decode_utf8_encode_utf8(value);
        assert(encode_utf8(decode_utf8(value)) == value);
    }
    assert(rx_value(value) is None);
    every_answer_is_one_of_two(headers, auth_token, padding);
}

/// A header with a name of its own changes nothing, and neither does a token or padding that is
/// not text. Another token in the place of the last one decides instead of it.
pub proof fn later_headers_count(
    headers: Seq<HeaderView>,
    header: HeaderView,
    token: Seq<char>,
    auth_token: Seq<char>,
    padding: Seq<char>,
)
    ensures
        header.name != encode_utf8("hysteria-auth"@) && header.name != encode_utf8(
            "hysteria-cc-rx"@,
        ) && header.name != encode_utf8("hysteria-padding"@) ==> auth_answer(
            headers.push(header),
            auth_token,
            padding,
        ) == auth_answer(headers, auth_token, padding),
        (header.name == encode_utf8("hysteria-auth"@) || header.name == encode_utf8(
            "hysteria-padding"@,
        )) && !valid_utf8(header.value) ==> auth_answer(headers.push(header), auth_token, padding)
            == auth_answer(headers, auth_token, padding),
        auth_answer(headers, auth_token, padding).0 && header == (HeaderView {
            name: encode_utf8("hysteria-auth"@),
            value: encode_utf8(token),
        }) ==> auth_answer(headers.push(header), token, padding) == written_welcome(padding),
        token != auth_token && header == (HeaderView {
            name: encode_utf8("hysteria-auth"@),
            value: encode_utf8(token),
        }) ==> auth_answer(headers.push(header), auth_token, padding) == written_page(),
{
    let more = headers.push(header);
    distinct_names();
    assert(more.drop_last() =~= headers);
    encode_utf8_valid_utf8(token);
    encode_utf8_decode_utf8(token);
    every_answer_is_one_of_two(more, token, padding);
    every_answer_is_one_of_two(more, auth_token, padding);
    if header.name != encode_utf8("hysteria-cc-rx"@) {
        assert(rx_readable(more) == rx_readable(headers)) by {
            assert(forall|x: int| 0 <= x < headers.len() ==> #[trigger] more[x] == headers[x]);
            assert(!is_named(more[headers.len() as int], "hysteria-cc-rx"@));
            if rx_readable(more) {
                assert forall|x: int|
                    0 <= x < headers.len() && is_named(
                        #[trigger] headers[x],
                        "hysteria-cc-rx"@,
                    ) implies rx_value(headers[x].value) is Some by {
                    assert(is_named(more[x], "hysteria-cc-rx"@));
                }
            }
        }
    }
}

} // verus!
