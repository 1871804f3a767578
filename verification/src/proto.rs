//! The messages of the Hysteria protocol.

use crate::h3::{header_views, Header, HeaderView};
use crate::text::{
    bytes_eq, decimal_digits, decimal_round_trip, decimal_string, decimal_up_to, parse_unsigned,
    utf8_str, utf8_text,
};
use byteorder::ReadBytesExt;
use std::io::Cursor;
use vstd::prelude::*;
use vstd::slice::{slice_subrange, slice_to_vec};
use vstd::string::*;
use vstd::utf8::*;

verus! {

/// A client's request to be let in, as read from the headers of its HTTP/3 request.
pub struct AuthRequest<'a> {
    /// Authentication credentials.
    pub auth_token: &'a str,
    /// The client's maximum receive rate in bytes per second; 0 means unknown.
    pub client_rx: u64,
    /// A random padding string of variable length.
    pub padding: &'a str,
}

/// What an authentication request holds.
pub struct AuthFields {
    pub auth_token: Seq<char>,
    pub client_rx: nat,
    pub padding: Seq<char>,
}

impl<'a> View for AuthRequest<'a> {
    type V = AuthFields;

    open spec fn view(&self) -> AuthFields {
        AuthFields {
            auth_token: self.auth_token@,
            client_rx: self.client_rx as nat,
            padding: self.padding@,
        }
    }
}

/// Whether `header` has the name `name`.
pub open spec fn is_named(header: HeaderView, name: Seq<char>) -> bool {
    header.name == encode_utf8(name)
}

/// The text of the last header named `name` whose value is UTF-8.
pub open spec fn last_text(headers: Seq<HeaderView>, name: Seq<char>) -> Option<Seq<char>>
    decreases headers.len(),
{
    if headers.len() == 0 {
        None
    } else if is_named(headers.last(), name) && valid_utf8(headers.last().value) {
        Some(decode_utf8(headers.last().value))
    } else {
        last_text(headers.drop_last(), name)
    }
}

/// The receive rate that a header value writes.
pub open spec fn rx_value(value: Seq<u8>) -> Option<nat> {
    match utf8_text(value) {
        Some(text) => decimal_up_to(text, u64::MAX as nat),
        None => None,
    }
}

/// The receive rate in the last header that gives one.
pub open spec fn last_rx(headers: Seq<HeaderView>) -> Option<nat>
    decreases headers.len(),
{
    if headers.len() == 0 {
        None
    } else if is_named(headers.last(), "hysteria-cc-rx"@) {
        rx_value(headers.last().value)
    } else {
        last_rx(headers.drop_last())
    }
}

/// Whether every header that is to give a receive rate does so.
pub open spec fn rx_readable(headers: Seq<HeaderView>) -> bool {
    forall|i: int|
        0 <= i < headers.len() && is_named(#[trigger] headers[i], "hysteria-cc-rx"@)
            ==> rx_value(headers[i].value) is Some
}

/// The authentication request that a list of headers makes, if it is complete.
pub open spec fn auth_fields(headers: Seq<HeaderView>) -> Option<AuthFields> {
    match (
        last_text(headers, "hysteria-auth"@),
        last_rx(headers),
        last_text(headers, "hysteria-padding"@),
    ) {
        (Some(auth_token), Some(client_rx), Some(padding)) => Some(
            AuthFields { auth_token, client_rx, padding },
        ),
        _ => None,
    }
}

/// Reads a receive rate from a header value.
fn parse_rx(value: &[u8]) -> (rx: Option<u64>)
    ensures
        match rx {
            Some(n) => rx_value(value@) == Some(n as nat),
            None => rx_value(value@) is None,
        },
{
    match utf8_str(value) {
        Some(text) => parse_unsigned(text, u64::MAX),
        None => None,
    }
}

/// Whether every header that is to give a receive rate does so.
pub fn has_readable_rx(headers: &[Header]) -> (readable: bool)
    ensures
        readable == rx_readable(header_views(headers@)),
{
    let ghost views = header_views(headers@);
    let mut i: usize = 0;
    while i < headers.len()
        invariant
            i <= headers@.len(),
            views == header_views(headers@),
            forall|j: int|
                0 <= j < i && is_named(#[trigger] views[j], "hysteria-cc-rx"@) ==> rx_value(
                    views[j].value,
                ) is Some,
        decreases headers@.len() - i,
    {
        let header = &headers[i];
        assert(views[i as int] == header@);
        if bytes_eq(header.name.as_slice(), "hysteria-cc-rx".as_bytes()) {
            if parse_rx(header.value.as_slice()).is_none() {
                return false;
            }
        }
        i = i + 1;
    }
    true
}

impl<'a> AuthRequest<'a> {
    /// Reads the request out of the headers. Of several headers with one name the last counts;
    /// a token or padding that is not UTF-8 is passed over.
    pub fn from_event_header(headers: &'a [Header]) -> (request: Result<Self, &'static str>)
        requires
            rx_readable(header_views(headers@)),
        ensures
            match request {
                Ok(r) => auth_fields(header_views(headers@)) == Some(r@),
                Err(message) => auth_fields(header_views(headers@)) is None && message@
                    == "Incomplete auth headers"@,
            },
    {
        let ghost views = header_views(headers@);
        let mut auth_token: Option<&'a str> = None;
        let mut client_rx: Option<u64> = None;
        let mut padding: Option<&'a str> = None;
        proof {
            distinct_names();
            assert(views.subrange(0, 0) =~= Seq::<HeaderView>::empty());
        }
        let mut i: usize = 0;
        while i < headers.len()
            invariant
                i <= headers@.len(),
                views == header_views(headers@),
                rx_readable(views),
                encode_utf8("hysteria-auth"@) != encode_utf8("hysteria-cc-rx"@),
                encode_utf8("hysteria-auth"@) != encode_utf8("hysteria-padding"@),
                encode_utf8("hysteria-cc-rx"@) != encode_utf8("hysteria-padding"@),
                last_text(views.subrange(0, i as int), "hysteria-auth"@) == (match auth_token {
                    Some(s) => Some(s@),
                    None => None,
                }),
                last_rx(views.subrange(0, i as int)) == (match client_rx {
                    Some(n) => Some(n as nat),
                    None => None,
                }),
                last_text(views.subrange(0, i as int), "hysteria-padding"@) == (match padding {
                    Some(s) => Some(s@),
                    None => None,
                }),
            decreases headers@.len() - i,
        {
            let header = &headers[i];
            proof {
                let upto = views.subrange(0, i + 1);
                assert(upto.drop_last() =~= views.subrange(0, i as int));
                assert(upto.last() == header@);
                assert(views[i as int] == header@);
            }
            if bytes_eq(header.name.as_slice(), "hysteria-auth".as_bytes()) {
                match utf8_str(header.value.as_slice()) {
                    Some(s) => {
                        auth_token = Some(s);
                    },
                    None => {},
                }
            } else if bytes_eq(header.name.as_slice(), "hysteria-cc-rx".as_bytes()) {
                client_rx = parse_rx(header.value.as_slice());
            } else if bytes_eq(header.name.as_slice(), "hysteria-padding".as_bytes()) {
                match utf8_str(header.value.as_slice()) {
                    Some(s) => {
                        padding = Some(s);
                    },
                    None => {},
                }
            }
            i = i + 1;
        }
        assert(views.subrange(0, i as int) =~= views);
        match (auth_token, client_rx, padding) {
            (Some(auth_token), Some(client_rx), Some(padding)) => Ok(
                AuthRequest { auth_token, client_rx, padding },
            ),
            _ => Err("Incomplete auth headers"),
        }
    }
}

/// The three headers of an authentication request have three names.
pub proof fn distinct_names()
    ensures
        encode_utf8("hysteria-auth"@) != encode_utf8("hysteria-cc-rx"@),
        encode_utf8("hysteria-auth"@) != encode_utf8("hysteria-padding"@),
        encode_utf8("hysteria-cc-rx"@) != encode_utf8("hysteria-padding"@),
{
    reveal_strlit("hysteria-auth");
    reveal_strlit("hysteria-cc-rx");
    reveal_strlit("hysteria-padding");
    encode_utf8_decode_utf8("hysteria-auth"@);
    encode_utf8_decode_utf8("hysteria-cc-rx"@);
    encode_utf8_decode_utf8("hysteria-padding"@);
}

/// The answer to a client that is let in.
pub struct AuthResponse<'a> {
    /// 233 for ok.
    pub status: u8,
    /// Whether UDP relay is supported on this server.
    pub udp_supported: bool,
    /// The server's maximum receive rate in bytes per second; 0 means unlimited.
    pub server_rx: u64,
    /// Whether the server gives no rate and asks the client to find it by congestion control.
    pub rx_auto: bool,
    pub padding: &'a str,
}

/// A header field with textual name and value.
pub open spec fn text_header(name: Seq<char>, value: Seq<char>) -> HeaderView {
    HeaderView { name: encode_utf8(name), value: encode_utf8(value) }
}

impl<'a> AuthResponse<'a> {
    /// The text that announces the receive rate.
    pub open spec fn rx_text(&self) -> Seq<char> {
        if self.rx_auto {
            "auto"@
        } else {
            decimal_digits(self.server_rx as nat)
        }
    }

    /// The header fields that carry the answer. The status of this answer is always 233.
    pub open spec fn header_list(&self) -> Seq<HeaderView> {
        seq![
            text_header(":status"@, "233"@),
            text_header(
                "Hysteria-UDP"@,
                if self.udp_supported {
                    "true"@
                } else {
                    "false"@
                },
            ),
            text_header("Hysteria-CC-RX"@, self.rx_text()),
            text_header("Hysteria-Padding"@, self.padding@),
        ]
    }

    /// Writes the answer as header fields.
    pub fn to_headers(&self) -> (headers: Vec<Header>)
        ensures
            header_views(headers@) == self.header_list(),
    {
        let mut headers: Vec<Header> = Vec::new();
        headers.push(Header::new(":status".as_bytes(), "233".as_bytes()));
        let udp = if self.udp_supported {
            "true"
        } else {
            "false"
        };
        headers.push(Header::new("Hysteria-UDP".as_bytes(), udp.as_bytes()));
        if self.rx_auto {
            headers.push(Header::new("Hysteria-CC-RX".as_bytes(), "auto".as_bytes()));
        } else {
            let server_rx = decimal_string(self.server_rx);
            headers.push(Header::new("Hysteria-CC-RX".as_bytes(), server_rx.as_str().as_bytes()));
        }
        headers.push(Header::new("Hysteria-Padding".as_bytes(), self.padding.as_bytes()));
        assert(header_views(headers@) =~= self.header_list());
        headers
    }
}

/// The number that some bytes write, the most significant byte first.
pub open spec fn be_value(bytes: Seq<u8>) -> nat
    decreases bytes.len(),
{
    if bytes.len() == 0 {
        0
    } else {
        be_value(bytes.drop_last()) * 256 + bytes.last() as nat
    }
}

/// The last `width` bytes of `n`, the most significant byte first.
pub open spec fn be_bytes(n: nat, width: nat) -> Seq<u8>
    decreases width,
{
    if width == 0 {
        Seq::empty()
    } else {
        be_bytes(n / 256, (width - 1) as nat).push((n % 256) as u8)
    }
}

/// The width of a variable-length integer, which the two upper bits of its first byte give.
pub open spec fn varint_width(first: u8) -> nat {
    if first < 64 {
        1
    } else if first < 128 {
        2
    } else if first < 192 {
        4
    } else {
        8
    }
}

/// The variable-length integer at `at`, and where it ends. It is the number that its bytes write
/// when the two upper bits of the first byte are left out.
pub open spec fn varint_at(bytes: Seq<u8>, at: int) -> Option<(nat, int)> {
    let end = at + varint_width(bytes[at]);
    if 0 <= at < bytes.len() && end <= bytes.len() {
        let written = bytes.subrange(at, end);
        Some((be_value(written.update(0, (written[0] % 64) as u8)), end))
    } else {
        None
    }
}

/// The first number that no variable-length integer writes.
pub const VARINT_LIMIT: u64 = 0x4000_0000_0000_0000;

/// The shortest width in which a variable-length integer writes `n`.
pub open spec fn shortest_width(n: nat) -> nat {
    if n < 0x40 {
        1
    } else if n < 0x4000 {
        2
    } else if n < 0x4000_0000 {
        4
    } else {
        8
    }
}

/// What the two upper bits of the first byte add to it in a variable-length integer.
pub open spec fn width_mark(width: nat) -> int {
    if width == 1 {
        0
    } else if width == 2 {
        64
    } else if width == 4 {
        128
    } else {
        192
    }
}

/// The shortest variable-length integer that writes `n`.
pub open spec fn varint_bytes(n: nat) -> Seq<u8> {
    let width = shortest_width(n);
    let plain = be_bytes(n, width);
    plain.update(0, (plain[0] + width_mark(width)) as u8)
}

/// 256 to the power of `k`.
spec fn pow256(k: nat) -> nat
    decreases k,
{
    if k == 0 {
        1
    } else {
        256 * pow256((k - 1) as nat)
    }
}

/// The bytes of a number that fits are as many as asked for, and write it. Where it is below a
/// bound times the weight of the first byte, the first byte is below that bound.
proof fn lemma_be_bytes(n: nat, width: nat, bound: nat)
    requires
        width > 0,
        bound <= 256,
        n < bound * pow256((width - 1) as nat),
    ensures
        be_bytes(n, width).len() == width,
        be_value(be_bytes(n, width)) == n,
        be_bytes(n, width)[0] < bound,
    decreases width,
{
    reveal_with_fuel(be_bytes, 2);
    reveal_with_fuel(be_value, 2);
    let bytes = be_bytes(n, width);
    if width == 1 {
        assert(bound * pow256(0) == bound) by (nonlinear_arith)
            requires
                pow256(0) == 1,
        ;
        assert(bytes.drop_last() =~= Seq::<u8>::empty());
    } else {
        let weight = pow256((width - 2) as nat);
        assert(n / 256 < bound * weight) by (nonlinear_arith)
            requires
                n < bound * (256 * weight),
        ;
        lemma_be_bytes(n / 256, (width - 1) as nat, bound);
        assert(bytes.drop_last() =~= be_bytes(n / 256, (width - 1) as nat));
    }
}

/// A variable-length integer is read back, whatever stands before and behind it.
pub proof fn varint_round_trip(before: Seq<u8>, n: nat, rest: Seq<u8>)
    requires
        n < VARINT_LIMIT,
    ensures
        varint_bytes(n).len() == shortest_width(n),
        varint_at(before + varint_bytes(n) + rest, before.len() as int) == Some(
            (n, (before.len() + varint_bytes(n).len()) as int),
        ),
{
    let width = shortest_width(n);
    let plain = be_bytes(n, width);
    let written = varint_bytes(n);
    let bytes = before + written + rest;
    let at: int = before.len() as int;
    reveal_with_fuel(pow256, 8);
    lemma_be_bytes(n, width, 64);
    assert(bytes[at] == written[0]);
    assert(written[0] == plain[0] + width_mark(width));
    assert(varint_width(bytes[at]) == width);
    assert(bytes.subrange(at, at + width) =~= written);
    assert(written.update(0, (written[0] % 64) as u8) =~= plain);
}

/// What follows a variable-length integer does not change it.
proof fn lemma_varint_ignores_rest(bytes: Seq<u8>, at: int, rest: Seq<u8>)
    requires
        varint_at(bytes, at) is Some,
    ensures
        varint_at(bytes + rest, at) == varint_at(bytes, at),
{
    let end = at + varint_width(bytes[at]);
    assert((bytes + rest).subrange(at, end) =~= bytes.subrange(at, end));
}

/// Calls `ReadBytesExt::read_u8` of `byteorder` on a cursor over `rest`. Claimed of it: it reads
/// the first byte, and fails where there is none.
#[verifier::external_body]
fn read_u8(rest: &[u8]) -> (number: Option<u8>)
    ensures
        number == (if rest@.len() >= 1 {
            Some(rest@[0])
        } else {
            None
        }),
{
    Cursor::new(rest).read_u8().ok()
}

/// Reads the variable-length integer at `at`, and finds where it ends.
pub fn read_varint(bytes: &[u8], at: usize) -> (number: Option<(u64, usize)>)
    requires
        at <= bytes@.len(),
    ensures
        match number {
            Some((n, end)) => {
                &&& varint_at(bytes@, at as int) == Some((n as nat, end as int))
                &&& n < VARINT_LIMIT
                &&& at < end <= bytes@.len()
            },
            None => varint_at(bytes@, at as int) is None,
        },
{
    let first = match read_u8(slice_subrange(bytes, at, bytes.len())) {
        Some(byte) => byte,
        None => return None,
    };
    let width: usize = if first < 64 {
        1
    } else if first < 128 {
        2
    } else if first < 192 {
        4
    } else {
        8
    };
    let total: usize = bytes.len();
    if total - at < width {
        return None;
    }
    let ghost written = bytes@.subrange(at as int, at + width);
    let ghost plain = written.update(0, (written[0] % 64) as u8);
    let mut value: u64 = (first % 64) as u64;
    let mut i: usize = 1;
    proof {
        reveal_with_fuel(be_value, 2);
        assert(plain.subrange(0, 1).drop_last() =~= Seq::<u8>::empty());
        assert(pow256(0) == 1);
    }
    while i < width
        invariant
            1 <= i <= width <= 8,
            total == bytes@.len(),
            at + width <= total,
            written == bytes@.subrange(at as int, at + width),
            plain == written.update(0, (written[0] % 64) as u8),
            value == be_value(plain.subrange(0, i as int)),
            value < 64 * pow256((i - 1) as nat),
        decreases width - i,
    {
        proof {
            reveal_with_fuel(pow256, 8);
            assert(plain.subrange(0, i + 1).drop_last() =~= plain.subrange(0, i as int));
            assert(plain[i as int] == bytes@[at + i]);
        }
        match read_u8(slice_subrange(bytes, at + i, total)) {
            Some(byte) => {
                value = value * 256 + byte as u64;
            },
            None => return None,
        }
        i = i + 1;
    }
    proof {
        reveal_with_fuel(pow256, 8);
        assert(plain.subrange(0, i as int) =~= plain);
    }
    Some((value, at + width))
}

/// Appends the shortest variable-length integer that writes `n`.
pub fn write_varint(bytes: &mut Vec<u8>, n: u64)
    requires
        n < VARINT_LIMIT,
    ensures
        final(bytes)@ == old(bytes)@ + varint_bytes(n as nat),
{
    let ghost before = bytes@;
    let width: usize = if n < 0x40 {
        1
    } else if n < 0x4000 {
        2
    } else if n < 0x4000_0000 {
        4
    } else {
        8
    };
    let mark: u8 = match width {
        1 => 0,
        2 => 64,
        4 => 128,
        _ => 192,
    };
    let ghost plain = be_bytes(n as nat, width as nat);
    proof {
        reveal_with_fuel(pow256, 8);
        lemma_be_bytes(n as nat, width as nat, 64);
    }
    let mut written: Vec<u8> = be_vec(n, width);
    let first: u8 = written[0];
    written.set(0, first + mark);
    bytes.append(&mut written);
    assert(bytes@ =~= before + varint_bytes(n as nat));
}

/// The last `width` bytes of `n`, the most significant byte first.
fn be_vec(n: u64, width: usize) -> (bytes: Vec<u8>)
    ensures
        bytes@ == be_bytes(n as nat, width as nat),
    decreases width,
{
    if width == 0 {
        return Vec::new();
    }
    let mut bytes = be_vec(n / 256, width - 1);
    bytes.push((n % 256) as u8);
    bytes
}

/// The number that a TCP request starts with.
pub const TCP_REQUEST_ID: u16 = 0x401;

/// The longest address that a TCP request can hold, in bytes.
pub const MAX_URL_LEN: u8 = 253;

/// A client's request to be connected to a target over TCP.
///
/// On the wire: the request id, which is 0x401, as a variable-length integer; the length of the
/// address, likewise; the address (host:port); the length of the padding, likewise; the padding.
pub struct HysteriaTcpRequest {
    pub reqest_id: u16,
    /// The length of the address in bytes, 253 at most.
    pub url_len: u8,
    /// The address of the target, possibly not resolved yet.
    pub url: String,
    /// The length of the padding.
    pub padding_len: u64,
    pub padding: Vec<u8>,
}

/// What a TCP request holds.
pub struct TcpRequestView {
    pub reqest_id: u16,
    pub url: Seq<char>,
    pub padding: Seq<u8>,
}

impl View for HysteriaTcpRequest {
    type V = TcpRequestView;

    open spec fn view(&self) -> TcpRequestView {
        TcpRequestView { reqest_id: self.reqest_id, url: self.url@, padding: self.padding@ }
    }
}

/// The bytes at `at` that a variable-length integer gives the length of, and where they end.
pub open spec fn counted_at(bytes: Seq<u8>, at: int) -> Option<(Seq<u8>, int)> {
    match varint_at(bytes, at) {
        Some((n, start)) if start + n <= bytes.len() => Some(
            (bytes.subrange(start, start + n), start + n),
        ),
        _ => None,
    }
}

/// Some bytes behind their length.
pub open spec fn counted(data: Seq<u8>) -> Seq<u8> {
    varint_bytes(data.len()) + data
}

/// The TCP request at the start of `bytes`.
pub open spec fn tcp_request(bytes: Seq<u8>) -> Option<TcpRequestView> {
    match varint_at(bytes, 0) {
        Some((id, id_end)) if id == TCP_REQUEST_ID => match counted_at(bytes, id_end) {
            Some((url, url_end)) if url.len() <= MAX_URL_LEN && valid_utf8(url) => {
                match counted_at(bytes, url_end) {
                    Some((padding, _)) => Some(
                        TcpRequestView {
                            reqest_id: TCP_REQUEST_ID,
                            url: decode_utf8(url),
                            padding,
                        },
                    ),
                    None => None,
                }
            },
            _ => None,
        },
        _ => None,
    }
}

/// The bytes of a TCP request.
pub open spec fn tcp_request_bytes(request: TcpRequestView) -> Seq<u8> {
    varint_bytes(request.reqest_id as nat) + counted(encode_utf8(request.url)) + counted(
        request.padding,
    )
}

/// Reads the bytes at `at` that a variable-length integer gives the length of, and finds where
/// they end.
fn read_counted(bytes: &[u8], at: usize) -> (data: Option<(&[u8], usize)>)
    requires
        at <= bytes@.len(),
    ensures
        match data {
            Some((d, end)) => counted_at(bytes@, at as int) == Some((d@, end as int)) && end
                <= bytes@.len(),
            None => counted_at(bytes@, at as int) is None,
        },
{
    match read_varint(bytes, at) {
        Some((n, start)) => {
            if n > (bytes.len() - start) as u64 {
                return None;
            }
            let end: usize = start + n as usize;
            Some((slice_subrange(bytes, start, end), end))
        },
        None => None,
    }
}

impl HysteriaTcpRequest {
    /// Whether the recorded lengths are those of the address and of the padding.
    pub open spec fn well_formed(&self) -> bool {
        &&& self.url_len == encode_utf8(self.url@).len()
        &&& self.padding_len == self.padding@.len()
    }

    /// Reads the request at the start of `bytes`; what follows it is passed over.
    pub fn from_bytes(bytes: &[u8]) -> (request: Option<Self>)
        ensures
            match request {
                Some(r) => {
                    &&& tcp_request(bytes@) == Some(r@)
                    &&& r.well_formed()
                    &&& r.url_len <= MAX_URL_LEN
                },
                None => tcp_request(bytes@) is None,
            },
            forall|url: Seq<char>, padding: Seq<u8>, rest: Seq<u8>|
                encode_utf8(url).len() <= 253 && padding.len() < 0x4000_0000_0000_0000 && bytes@
                    == #[trigger] (tcp_request_bytes(
                    TcpRequestView { reqest_id: 0x401, url, padding },
                ) + rest) ==> {
                    &&& request matches Some(r)
                    &&& r.reqest_id == 0x401
                    &&& r.url@ == url
                    &&& r.padding@ == padding
                },
    {
        proof {
            lemma_requests_are_read(bytes@);
        }
        let id_end: usize = match read_varint(bytes, 0) {
            Some((id, end)) => {
                if id != TCP_REQUEST_ID as u64 {
                    return None;
                }
                end
            },
            None => return None,
        };
        let (addr_bytes, url_end) = match read_counted(bytes, id_end) {
            Some(read) => read,
            None => return None,
        };
        if addr_bytes.len() > MAX_URL_LEN as usize {
            return None;
        }
        let url = match utf8_str(addr_bytes) {
            Some(s) => s.to_owned(),
            None => return None,
        };
        let padding = match read_counted(bytes, url_end) {
            Some((data, _)) => slice_to_vec(data),
            None => return None,
        };
        proof {
            decode_utf8_encode_utf8(addr_bytes@);
        }
        Some(
            HysteriaTcpRequest {
                reqest_id: TCP_REQUEST_ID,
                url_len: addr_bytes.len() as u8,
                url,
                padding_len: padding.len() as u64,
                padding,
            },
        )
    }
}

/// Bytes behind their length are read back, whatever stands before and behind them.
pub proof fn counted_round_trip(before: Seq<u8>, data: Seq<u8>, rest: Seq<u8>)
    requires
        data.len() < VARINT_LIMIT,
    ensures
        counted_at(before + counted(data) + rest, before.len() as int) == Some(
            (data, (before.len() + counted(data).len()) as int),
        ),
{
    let bytes = before + counted(data) + rest;
    let start: int = (before.len() + varint_bytes(data.len()).len()) as int;
    varint_round_trip(before, data.len(), data + rest);
    assert(bytes =~= before + varint_bytes(data.len()) + (data + rest));
    assert(bytes.subrange(start, start + data.len()) =~= data);
}

/// Reading the bytes of a TCP request gives the request back, whatever follows them: an id of
/// 0x401, an address of at most 253 bytes, and padding whose length a variable-length integer
/// can write.
pub proof fn tcp_request_round_trip(request: TcpRequestView, rest: Seq<u8>)
    requires
        request.reqest_id == TCP_REQUEST_ID,
        encode_utf8(request.url).len() <= MAX_URL_LEN,
        request.padding.len() < VARINT_LIMIT,
    ensures
        tcp_request(tcp_request_bytes(request) + rest) == Some(request),
{
    let id = varint_bytes(request.reqest_id as nat);
    let url = counted(encode_utf8(request.url));
    let padding = counted(request.padding);
    let bytes = tcp_request_bytes(request) + rest;
    varint_round_trip(Seq::empty(), request.reqest_id as nat, url + padding + rest);
    assert(bytes =~= Seq::<u8>::empty() + id + (url + padding + rest));
    counted_round_trip(id, encode_utf8(request.url), padding + rest);
    assert(bytes =~= id + url + (padding + rest));
    counted_round_trip(id + url, request.padding, rest);
    assert(bytes =~= (id + url) + padding + rest);
    encode_utf8_valid_utf8(request.url);
    encode_utf8_decode_utf8(request.url);
}

/// Reading the bytes of any TCP request gives that request back.
pub proof fn lemma_requests_are_read(bytes: Seq<u8>)
    ensures
        forall|url: Seq<char>, padding: Seq<u8>, rest: Seq<u8>|
            encode_utf8(url).len() <= 253 && padding.len() < 0x4000_0000_0000_0000 && bytes
                == #[trigger] (tcp_request_bytes(
                TcpRequestView { reqest_id: 0x401, url, padding },
            ) + rest) ==> tcp_request(bytes) == Some(
                TcpRequestView { reqest_id: 0x401, url, padding },
            ),
{
    assert forall|url: Seq<char>, padding: Seq<u8>, rest: Seq<u8>|
        encode_utf8(url).len() <= 253 && padding.len() < 0x4000_0000_0000_0000 && bytes
            == #[trigger] (tcp_request_bytes(TcpRequestView { reqest_id: 0x401, url, padding })
            + rest) implies tcp_request(bytes) == Some(
        TcpRequestView { reqest_id: 0x401, url, padding },
    ) by {
        tcp_request_round_trip(TcpRequestView { reqest_id: 0x401, url, padding }, rest);
    }
}

/// What follows some bytes behind their length does not change them.
proof fn lemma_counted_ignores_rest(bytes: Seq<u8>, at: int, rest: Seq<u8>)
    requires
        counted_at(bytes, at) is Some,
    ensures
        counted_at(bytes + rest, at) == counted_at(bytes, at),
{
    lemma_varint_ignores_rest(bytes, at, rest);
    let (n, start) = varint_at(bytes, at)->0;
    assert((bytes + rest).subrange(start, start + n) =~= bytes.subrange(start, start + n));
}

/// Whether a TCP request can be read, and which one, does not depend on what follows it.
pub proof fn tcp_request_ignores_rest(bytes: Seq<u8>, rest: Seq<u8>)
    requires
        tcp_request(bytes) is Some,
    ensures
        tcp_request(bytes + rest) == tcp_request(bytes),
{
    lemma_varint_ignores_rest(bytes, 0, rest);
    let (_, id_end) = varint_at(bytes, 0)->0;
    lemma_counted_ignores_rest(bytes, id_end, rest);
    let (_, url_end) = counted_at(bytes, id_end)->0;
    lemma_counted_ignores_rest(bytes, url_end, rest);
}

/// Whether the connection to the target was made.
#[derive(Clone, Copy, Debug, PartialEq, Eq, Structural)]
pub enum HysteriaTCPResponseStatus {
    Success,
    Error,
}

impl HysteriaTCPResponseStatus {
    /// The byte that stands for the status.
    pub open spec fn spec_code(self) -> u8 {
        match self {
            HysteriaTCPResponseStatus::Success => 0x00,
            HysteriaTCPResponseStatus::Error => 0x01,
        }
    }

    /// The byte that stands for the status.
    pub fn code(self) -> (code: u8)
        ensures
            code == self.spec_code(),
    {
        match self {
            HysteriaTCPResponseStatus::Success => 0x00,
            HysteriaTCPResponseStatus::Error => 0x01,
        }
    }
}

/// The answer to a TCP request.
///
/// On the wire: the status in one byte; the length of the message as a variable-length integer;
/// the message; the length of the padding, likewise; the padding.
pub struct HysteriaTCPResponse {
    pub status: HysteriaTCPResponseStatus,
    /// The length of the message.
    pub msg_len: u64,
    pub msg: Vec<u8>,
    /// The length of the padding.
    pub padding_len: u64,
    pub padding: Vec<u8>,
}

/// The bytes of the answer to a TCP request.
pub open spec fn tcp_response_bytes(
    status: HysteriaTCPResponseStatus,
    msg: Seq<u8>,
    padding: Seq<u8>,
) -> Seq<u8> {
    seq![status.spec_code()] + varint_bytes(msg.len()) + msg + varint_bytes(padding.len())
        + padding
}

impl HysteriaTCPResponse {
    /// Whether the recorded lengths are those of the message and of the padding.
    pub open spec fn well_formed(&self) -> bool {
        &&& self.msg_len == self.msg@.len()
        &&& self.padding_len == self.padding@.len()
    }

    /// An answer with the given status, message and padding.
    pub fn new(status: HysteriaTCPResponseStatus, msg: &str, padding: &str) -> (response: Self)
        ensures
            response.status == status,
            response.msg@ == encode_utf8(msg@),
            response.padding@ == encode_utf8(padding@),
            response.well_formed(),
    {
        let msg = slice_to_vec(msg.as_bytes());
        let padding = slice_to_vec(padding.as_bytes());
        HysteriaTCPResponse {
            status,
            msg_len: msg.len() as u64,
            msg,
            padding_len: padding.len() as u64,
            padding,
        }
    }

    /// Writes the answer. A variable-length integer has to be able to write the two lengths.
    pub fn into_bytes(self) -> (bytes: Vec<u8>)
        requires
            self.well_formed(),
            self.msg_len < VARINT_LIMIT,
            self.padding_len < VARINT_LIMIT,
        ensures
            bytes@ == tcp_response_bytes(self.status, self.msg@, self.padding@),
    {
        let mut bytes: Vec<u8> = Vec::new();
        bytes.push(self.status.code());
        write_varint(&mut bytes, self.msg_len);
        bytes.extend_from_slice(self.msg.as_slice());
        write_varint(&mut bytes, self.padding_len);
        bytes.extend_from_slice(self.padding.as_slice());
        assert(bytes@ =~= tcp_response_bytes(self.status, self.msg@, self.padding@));
        bytes
    }
}

/// The status byte, the message and the padding that a client reads off the start of `bytes`,
/// and where they end.
pub open spec fn tcp_response_fields(bytes: Seq<u8>) -> Option<(u8, Seq<u8>, Seq<u8>, int)> {
    match counted_at(bytes, 1) {
        Some((msg, msg_end)) => match counted_at(bytes, msg_end) {
            Some((padding, end)) => Some((bytes[0], msg, padding, end)),
            None => None,
        },
        None => None,
    }
}

/// The status, the message and the padding can be read back from the bytes of an answer,
/// whatever follows them, and end where those bytes end.
pub proof fn tcp_response_round_trip(
    status: HysteriaTCPResponseStatus,
    msg: Seq<u8>,
    padding: Seq<u8>,
    rest: Seq<u8>,
)
    requires
        msg.len() < VARINT_LIMIT,
        padding.len() < VARINT_LIMIT,
    ensures
        tcp_response_fields(tcp_response_bytes(status, msg, padding) + rest) == Some(
            (
                status.spec_code(),
                msg,
                padding,
                tcp_response_bytes(status, msg, padding).len() as int,
            ),
        ),
{
    let bytes = tcp_response_bytes(status, msg, padding) + rest;
    let code = seq![status.spec_code()];
    counted_round_trip(code, msg, counted(padding) + rest);
    assert(bytes =~= code + counted(msg) + (counted(padding) + rest));
    counted_round_trip(code + counted(msg), padding, rest);
    assert(bytes =~= (code + counted(msg)) + counted(padding) + rest);
}

/// One fragment of a relayed UDP packet.
///
/// On the wire: the session id in four bytes, the packet id in two, the fragment id and the
/// fragment count in one each, the length of the address, the address (host:port), the payload.
#[allow(dead_code)]
pub struct UDPPacket {
    session_id: u32,
    packet_id: u16,
    frag_id: u8,
    frag_count: u8,
    addr_len: u16,
    ipv4addr: Vec<u8>,
    payload: Vec<u8>,
}

/// The welcome can be read back from its headers: the status, whether UDP is relayed, the receive
/// rate or that there is none, and the padding.
pub proof fn response_headers_can_be_read(response: AuthResponse)
    ensures
        ({
            let list = response.header_list();
            &&& list.len() == 4
            &&& list[0].name == encode_utf8(":status"@) && list[0].value == encode_utf8("233"@)
            &&& list[1].name == encode_utf8("Hysteria-UDP"@)
            &&& list[1].value == encode_utf8("true"@) <==> response.udp_supported
            &&& list[1].value == encode_utf8("false"@) <==> !response.udp_supported
            &&& list[2].name == encode_utf8("Hysteria-CC-RX"@)
            &&& response.rx_auto ==> list[2].value == encode_utf8("auto"@)
            &&& !response.rx_auto ==> list[2].value == encode_utf8(
                decimal_digits(response.server_rx as nat),
            ) && rx_value(list[2].value) == Some(response.server_rx as nat)
            &&& list[3].name == encode_utf8("Hysteria-Padding"@)
            &&& list[3].value == encode_utf8(response.padding@)
        }),
{
    reveal_strlit("true");
    reveal_strlit("false");
    encode_utf8_decode_utf8("true"@);
    encode_utf8_decode_utf8("false"@);
    let digits = decimal_digits(response.server_rx as nat);
    encode_utf8_valid_utf8(digits);
    encode_utf8_decode_utf8(digits);
    decimal_round_trip(response.server_rx as nat);
}

proof fn lemma_be_push(bytes: Seq<u8>, byte: u8)
    ensures
        be_value(bytes.push(byte)) == be_value(bytes) * 256 + byte as nat,
{
    assert(bytes.push(byte).drop_last() =~= bytes);
}

/// What a variable-length integer is worth, byte by byte, and that it is there exactly where its
/// bytes are.
pub proof fn varint_values(bytes: Seq<u8>, at: int)
    requires
        0 <= at < bytes.len(),
    ensures
        ({
            let b = |i: int| bytes[at + i] as int;
            let left = bytes.len() - at;
            &&& b(0) < 64 ==> varint_at(bytes, at) == Some((b(0) as nat, at + 1))
            &&& 64 <= b(0) < 128 ==> varint_at(bytes, at) == if left < 2 {
                None
            } else {
                Some((((b(0) - 64) * 0x100 + b(1)) as nat, at + 2))
            }
            &&& 128 <= b(0) < 192 ==> varint_at(bytes, at) == if left < 4 {
                None
            } else {
                Some(
                    (
                        ((b(0) - 128) * 0x100_0000 + b(1) * 0x1_0000 + b(2) * 0x100 + b(3)) as nat,
                        at + 4,
                    ),
                )
            }
            &&& 192 <= b(0) ==> varint_at(bytes, at) == if left < 8 {
                None
            } else {
                Some(
                    (
                        ((b(0) - 192) * 0x100_0000_0000_0000 + b(1) * 0x1_0000_0000_0000 + b(2)
                            * 0x100_0000_0000 + b(3) * 0x1_0000_0000 + b(4) * 0x100_0000 + b(5)
                            * 0x1_0000 + b(6) * 0x100 + b(7)) as nat,
                        at + 8,
                    ),
                )
            }
        }),
{
    let width = varint_width(bytes[at]);
    if at + width <= bytes.len() {
        let written = bytes.subrange(at, at + width);
        let plain = written.update(0, (written[0] % 64) as u8);
        let s0 = Seq::<u8>::empty();
        let s1 = s0.push(plain[0]);
        lemma_be_push(s0, plain[0]);
        assert(be_value(s0) == 0);
        if width == 1 {
            assert(plain =~= s1);
        } else {
            let s2 = s1.push(bytes[at + 1]);
            lemma_be_push(s1, bytes[at + 1]);
            if width == 2 {
                assert(plain =~= s2);
            } else {
                let s3 = s2.push(bytes[at + 2]);
                let s4 = s3.push(bytes[at + 3]);
                lemma_be_push(s2, bytes[at + 2]);
                lemma_be_push(s3, bytes[at + 3]);
                if width == 4 {
                    assert(plain =~= s4);
                } else {
                    let s5 = s4.push(bytes[at + 4]);
                    let s6 = s5.push(bytes[at + 5]);
                    let s7 = s6.push(bytes[at + 6]);
                    let s8 = s7.push(bytes[at + 7]);
                    lemma_be_push(s4, bytes[at + 4]);
                    lemma_be_push(s5, bytes[at + 5]);
                    lemma_be_push(s6, bytes[at + 6]);
                    lemma_be_push(s7, bytes[at + 7]);
                    assert(plain =~= s8);
                }
            }
        }
    }
}

/// No variable-length integer writes a number in fewer bytes than the one that is written for it.
pub proof fn varint_bytes_are_shortest(bytes: Seq<u8>, at: int)
    requires
        varint_at(bytes, at) is Some,
    ensures
        ({
            let (n, end) = varint_at(bytes, at)->0;
            n < 0x4000_0000_0000_0000 && varint_bytes(n).len() <= end - at
        }),
{
    varint_values(bytes, at);
    let (n, end) = varint_at(bytes, at)->0;
    varint_round_trip(Seq::empty(), n, Seq::empty());
}

/// Whether `bytes` start with a TCP request: the number 0x401 up to `id_end`, the length of the
/// address up to `url_start`, the address, the length of the padding up to `padding_start`, and
/// the padding.
pub open spec fn starts_with_request(
    bytes: Seq<u8>,
    request: TcpRequestView,
    id_end: int,
    url_start: int,
    padding_start: int,
) -> bool {
    let url = encode_utf8(request.url);
    let url_end = url_start + url.len();
    let end = padding_start + request.padding.len();
    &&& request.reqest_id == 0x401
    &&& varint_at(bytes, 0) == Some((0x401nat, id_end))
    &&& url.len() <= 253
    &&& varint_at(bytes, id_end) == Some((url.len(), url_start))
    &&& url_end <= bytes.len()
    &&& bytes.subrange(url_start, url_end) == url
    &&& varint_at(bytes, url_end) == Some((request.padding.len(), padding_start))
    &&& end <= bytes.len()
    &&& bytes.subrange(padding_start, end) == request.padding
}

/// A TCP request is read exactly where one stands, and it is the one that stands there.
pub proof fn requests_are_read_where_they_stand(bytes: Seq<u8>, request: TcpRequestView)
    ensures
        tcp_request(bytes) == Some(request) <==> exists|a: int, b: int, c: int|
            starts_with_request(bytes, request, a, b, c),
{
    if tcp_request(bytes) == Some(request) {
        let (_, a) = varint_at(bytes, 0)->0;
        let (n, b) = varint_at(bytes, a)->0;
        let (url, url_end) = counted_at(bytes, a)->0;
        let (_, c) = varint_at(bytes, url_end)->0;
        decode_utf8_encode_utf8(url);
        varint_values(bytes, 0);
        assert(bytes.subrange(b, url_end).len() == n);
        assert(starts_with_request(bytes, request, a, b, c));
    }
    if exists|a: int, b: int, c: int| starts_with_request(bytes, request, a, b, c) {
        let (a, b, c) = choose|a: int, b: int, c: int|
            starts_with_request(bytes, request, a, b, c);
        encode_utf8_valid_utf8(request.url);
        encode_utf8_decode_utf8(request.url);
        assert(starts_with_request(bytes, request, a, b, c));
    }
}

} // verus!
