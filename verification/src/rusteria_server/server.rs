//! What becomes of the events of one client connection.

use crate::auth::{
    auth_answer, every_answer_is_one_of_two, holds_request, nobody_gets_in_without_the_token,
    right_token_is_welcomed, written_page, written_welcome,
};
use crate::bytes_buf::bytes_from_vec;
use crate::h3::{frame_views, header_views, FrameView, H3Event, HeaderView};
use crate::hysteria::{HysEvent, ProxyEvent};
use crate::proto::{
    tcp_response_bytes, tcp_response_fields, tcp_response_round_trip, HysteriaTCPResponse,
    HysteriaTCPResponseStatus,
};
use crate::rusteria_server;
use crate::rustiera_server;
use crate::stream::{H3Response, HysResponse, Message};
use bytes::Bytes;
use std::collections::BTreeMap;
use vstd::prelude::*;
use vstd::utf8::{encode_utf8, is_ascii_chars_encode_utf8};

verus! {

/// How clients authenticate.
pub enum AuthRule {
    /// With the token of the configuration.
    Configured(String),
    /// With a fixed token.
    Fixed,
}

impl AuthRule {
    /// Whether a request is let in under the rule, and the frames that answer it.
    pub open spec fn answer(self, headers: Seq<HeaderView>) -> (bool, Seq<FrameView>) {
        match self {
            AuthRule::Configured(auth_token) => auth_answer(headers, auth_token@, "padding"@),
            AuthRule::Fixed => auth_answer(headers, "8964"@, "8964"@),
        }
    }
}

/// The bytes that tell a client that its request was taken up.
pub open spec fn greeting_bytes() -> Seq<u8> {
    tcp_response_bytes(
        HysteriaTCPResponseStatus::Success,
        encode_utf8("Hello World!"@),
        encode_utf8("padding"@),
    )
}

/// What is known of a connection: whether its client has been let in, and the sending ends of
/// the channels to the proxies of its streams.
#[verifier::ext_equal]
pub struct ConnectionState<T> {
    pub verified: bool,
    pub proxies: Map<u64, T>,
}

/// One thing that happens to a connection.
pub enum ConnectionStep<T> {
    /// The headers of an HTTP/3 request come.
    Headers(Seq<HeaderView>),
    /// Anything else comes on an HTTP/3 stream, or payload on a proxied one.
    Other,
    /// A request comes on a stream, and this is the channel to its proxy.
    Request(u64, T),
    /// The proxy of a stream stops.
    Finished(u64),
}

impl<T> ConnectionState<T> {
    /// A fresh connection.
    pub open spec fn initial() -> Self {
        ConnectionState { verified: false, proxies: Map::empty() }
    }

    /// The answer that a step gets: whether it lets the client in, and the frames. Only headers
    /// get one, and only as long as the client is not in.
    pub open spec fn reply(self, rule: AuthRule, step: ConnectionStep<T>) -> Option<
        (bool, Seq<FrameView>),
    > {
        match step {
            ConnectionStep::Headers(headers) if !self.verified => Some(rule.answer(headers)),
            _ => None,
        }
    }

    /// The state after a step.
    pub open spec fn next(self, rule: AuthRule, step: ConnectionStep<T>) -> Self {
        match step {
            ConnectionStep::Headers(headers) if !self.verified => ConnectionState {
                verified: rule.answer(headers).0,
                ..self
            },
            ConnectionStep::Request(stream_id, proxy) => ConnectionState {
                proxies: self.proxies.insert(stream_id, proxy),
                ..self
            },
            ConnectionStep::Finished(stream_id) => ConnectionState {
                proxies: self.proxies.remove(stream_id),
                ..self
            },
            _ => self,
        }
    }

    /// The state after some steps.
    pub open spec fn run(self, rule: AuthRule, steps: Seq<ConnectionStep<T>>) -> Self
        decreases steps.len(),
    {
        if steps.len() == 0 {
            self
        } else {
            self.run(rule, steps.drop_last()).next(rule, steps.last())
        }
    }
}

/// What an event means for the state of a connection.
pub open spec fn connection_step<T, H, Q>(
    event: HysEvent<H, Q>,
    proxy: Option<T>,
) -> ConnectionStep<T> {
    match event {
        HysEvent::H3Event(_, H3Event::Headers(list), _) => ConnectionStep::Headers(
            header_views(list@),
        ),
        HysEvent::QuicEvent(stream_id, ProxyEvent::Request(_, _)) => ConnectionStep::Request(
            stream_id,
            proxy->0,
        ),
        _ => ConnectionStep::Other,
    }
}

/// One client connection.
pub struct Connection<T> {
    rule: AuthRule,
    is_verified: bool,
    proxy_map: BTreeMap<u64, T>,
}

/// What to do about an event. `H` and `Q` are the channels that came with it.
pub enum ConnectionAction<H, Q> {
    /// Send this answer.
    Reply(H, H3Response),
    /// Send this greeting, then start a proxy for this address that answers through the same
    /// channel.
    Connect(String, Q, HysResponse),
    /// Hand these bytes to the proxy of this stream.
    Deliver(u64, Bytes),
    /// There is no proxy for this stream: drop the bytes.
    Unregistered(u64),
    /// Nothing.
    Ignore,
}

impl<T> View for Connection<T> {
    type V = ConnectionState<T>;

    closed spec fn view(&self) -> ConnectionState<T> {
        ConnectionState { verified: self.is_verified, proxies: self.proxy_map@ }
    }
}

impl<T> Connection<T> {
    /// How clients of this connection authenticate.
    pub closed spec fn auth_rule(&self) -> AuthRule {
        self.rule
    }

    /// A fresh connection.
    pub fn new(rule: AuthRule) -> (connection: Self)
        ensures
            connection@ == ConnectionState::<T>::initial(),
            connection.auth_rule() == rule,
    {
        Connection { rule, is_verified: false, proxy_map: BTreeMap::new() }
    }

    /// Takes an event of the connection. With a request comes the sending end of the channel to
    /// the proxy that is going to serve it.
    pub fn handle_connection<H, Q>(&mut self, event: HysEvent<H, Q>, proxy: Option<T>) -> (action:
        ConnectionAction<H, Q>)
        requires
            event matches HysEvent::QuicEvent(_, ProxyEvent::Request(_, _)) ==> proxy is Some,
        ensures
            final(self).auth_rule() == old(self).auth_rule(),
            final(self)@ == old(self)@.next(old(self).auth_rule(), connection_step(event, proxy)),
            event matches HysEvent::H3Event(_, H3Event::Headers(list), sender) ==> !old(
                self,
            )@.verified ==> {
                let (auth_res, frames) = old(self).auth_rule().answer(header_views(list@));
                &&& action matches ConnectionAction::Reply(reply_to, response)
                &&& reply_to == sender
                &&& response.auth_res == auth_res
                &&& frame_views(response.response@) == frames
                &&& final(self)@.verified == auth_res
            },
            event matches HysEvent::QuicEvent(stream_id, ProxyEvent::Request(_, _))
                ==> final(self)@.proxies == old(self)@.proxies.insert(stream_id, proxy->0),
            match event {
                HysEvent::H3Event(_, _, sender) => match old(self)@.reply(
                    old(self).auth_rule(),
                    connection_step(event, proxy),
                ) {
                    Some((auth_res, frames)) => {
                        &&& action matches ConnectionAction::Reply(reply_to, response)
                        &&& reply_to == sender
                        &&& response.auth_res == auth_res
                        &&& frame_views(response.response@) == frames
                    },
                    None => action is Ignore,
                },
                HysEvent::QuicEvent(stream_id, ProxyEvent::Request(url, sender)) => {
                    &&& action matches ConnectionAction::Connect(address, reply_to, greeting)
                    &&& address == url
                    &&& reply_to == sender
                    &&& greeting@ == (Message { bytes: greeting_bytes(), fin: false })
                },
                HysEvent::QuicEvent(stream_id, ProxyEvent::Payload(payload)) => action == if old(
                    self,
                )@.proxies.contains_key(stream_id) {
                    ConnectionAction::<H, Q>::Deliver(stream_id, payload)
                } else {
                    ConnectionAction::<H, Q>::Unregistered(stream_id)
                },
            },
    {
        match event {
            HysEvent::H3Event(_, h3_event, sender) => {
                if self.is_verified {
                    ConnectionAction::Ignore
                } else {
                    match h3_event {
                        H3Event::Headers(list) => {
                            let (auth_res, response) = match &self.rule {
                                AuthRule::Configured(auth_token) => {
                                    rusteria_server::auth::auth(list, auth_token.as_str())
                                },
                                AuthRule::Fixed => rustiera_server::auth::auth(list),
                            };
                            self.is_verified = auth_res;
                            ConnectionAction::Reply(sender, H3Response { auth_res, response })
                        },
                        _ => ConnectionAction::Ignore,
                    }
                }
            },
            HysEvent::QuicEvent(stream_id, proxy_event) => match proxy_event {
                ProxyEvent::Request(url, sender) => {
                    self.proxy_map.insert(stream_id, proxy.unwrap());
                    proof {
                        reveal_strlit("Hello World!");
                        reveal_strlit("padding");
                        is_ascii_chars_encode_utf8("Hello World!"@);
                        is_ascii_chars_encode_utf8("padding"@);
                    }
                    let greeting = HysteriaTCPResponse::new(
                        HysteriaTCPResponseStatus::Success,
                        "Hello World!",
                        "padding",
                    ).into_bytes();
                    ConnectionAction::Connect(
                        url,
                        sender,
                        HysResponse { bytes: bytes_from_vec(greeting), fin: false },
                    )
                },
                ProxyEvent::Payload(payload) => {
                    if self.proxy_map.contains_key(&stream_id) {
                        ConnectionAction::Deliver(stream_id, payload)
                    } else {
                        ConnectionAction::Unregistered(stream_id)
                    }
                },
            },
        }
    }

    /// The sending end of the channel to the proxy of a stream.
    pub fn proxy(&self, stream_id: u64) -> (proxy: Option<&T>)
        ensures
            match proxy {
                Some(p) => self@.proxies.contains_key(stream_id) && self@.proxies[stream_id] == *p,
                None => !self@.proxies.contains_key(stream_id),
            },
    {
        self.proxy_map.get(&stream_id)
    }

    /// Takes note that the proxy of a stream has stopped.
    pub fn proxy_finished(&mut self, stream_id: u64)
        ensures
            final(self).auth_rule() == old(self).auth_rule(),
            final(self)@ == old(self)@.next(
                old(self).auth_rule(),
                ConnectionStep::Finished(stream_id),
            ),
    {
        self.proxy_map.remove(&stream_id);
    }
}

/// Whether the last thing that was said of a stream is a request, not that its proxy stopped.
pub open spec fn is_served<T>(steps: Seq<ConnectionStep<T>>, stream_id: u64) -> bool
    decreases steps.len(),
{
    steps.len() > 0 && match steps.last() {
        ConnectionStep::Request(id, _) if id == stream_id => true,
        ConnectionStep::Finished(id) if id == stream_id => false,
        _ => is_served(steps.drop_last(), stream_id),
    }
}

/// Whether some headers among the steps are let in.
pub open spec fn is_let_in<T>(rule: AuthRule, steps: Seq<ConnectionStep<T>>) -> bool
    decreases steps.len(),
{
    steps.len() > 0 && (is_let_in(rule, steps.drop_last()) || match steps.last() {
        ConnectionStep::Headers(headers) => rule.answer(headers).0,
        _ => false,
    })
}

/// The proxies of a connection are those of the streams with a request since which the proxy
/// has not stopped, so payload is handed on exactly there.
pub proof fn payload_goes_to_served_streams<T>(
    rule: AuthRule,
    steps: Seq<ConnectionStep<T>>,
    stream_id: u64,
)
    ensures
        ConnectionState::<T>::initial().run(
            rule,
            steps,
        ).proxies.contains_key(stream_id) == is_served(steps, stream_id),
    decreases steps.len(),
{
    if steps.len() > 0 {
        payload_goes_to_served_streams(rule, steps.drop_last(), stream_id);
    }
}

/// A client is let in exactly when one of its requests so far deserved it, and it stays in.
pub proof fn let_in_once_let_in_for_good<T>(rule: AuthRule, steps: Seq<ConnectionStep<T>>)
    ensures
        ConnectionState::<T>::initial().run(rule, steps).verified
            == is_let_in(rule, steps),
    decreases steps.len(),
{
    if steps.len() > 0 {
        let_in_once_let_in_for_good(rule, steps.drop_last());
    }
}

/// After whatever has come, headers are answered by the rule, whatever they hold, until some
/// have let the client in. Nothing else is answered, and nothing later.
pub proof fn headers_are_answered_until_let_in<T>(
    rule: AuthRule,
    steps: Seq<ConnectionStep<T>>,
    step: ConnectionStep<T>,
)
    ensures
        ConnectionState::<T>::initial().run(rule, steps).reply(rule, step) == match step {
            ConnectionStep::Headers(headers) if !is_let_in(rule, steps) => Some(
                rule.answer(headers),
            ),
            _ => None,
        },
{
    let_in_once_let_in_for_good(rule, steps);
}

/// What an event means for a connection: headers are headers, whatever they hold, a request brings
/// a proxy for its stream, and nothing else matters.
pub proof fn events_are_taken_for_what_they_are<T, H, Q>(event: HysEvent<H, Q>, proxy: Option<T>)
    ensures
        event matches HysEvent::H3Event(_, H3Event::Headers(list), _) ==> connection_step(
            event,
            proxy,
        ) == ConnectionStep::<T>::Headers(header_views(list@)),
        event matches HysEvent::H3Event(_, other, _) ==> !(other is Headers) ==> connection_step(
            event,
            proxy,
        ) is Other,
        event matches HysEvent::QuicEvent(stream_id, ProxyEvent::Request(_, _))
            ==> connection_step(event, proxy) == ConnectionStep::Request(stream_id, proxy->0),
        event matches HysEvent::QuicEvent(_, ProxyEvent::Payload(_)) ==> connection_step(
            event,
            proxy,
        ) is Other,
{
}

/// Under each rule, a client that sends the token of the rule, with any receive rate and padding
/// and among whatever other headers, is let in and welcomed, and one that sends another token is
/// shown the page.
pub proof fn rules_let_the_right_token_in(
    rule: AuthRule,
    headers: Seq<HeaderView>,
    token: Seq<char>,
    rate: nat,
    padding: Seq<char>,
)
    requires
        rate <= u64::MAX,
        holds_request(headers, token, rate, padding),
    ensures
        rule matches AuthRule::Configured(own) ==> rule.answer(headers) == if token == own@ {
            written_welcome("padding"@)
        } else {
            written_page()
        },
        rule is Fixed ==> rule.answer(headers) == if token == "8964"@ {
            written_welcome("8964"@)
        } else {
            written_page()
        },
{
    match rule {
        AuthRule::Configured(own) => right_token_is_welcomed(
            headers,
            token,
            rate,
            padding,
            own@,
            "padding"@,
        ),
        AuthRule::Fixed => right_token_is_welcomed(
            headers,
            token,
            rate,
            padding,
            "8964"@,
            "8964"@,
        ),
    }
}

/// Under each rule, nobody is let in who does not send its token, and whoever is not let in is
/// shown the page.
pub proof fn rules_let_nobody_else_in(rule: AuthRule, headers: Seq<HeaderView>)
    ensures
        rule.answer(headers).0 ==> exists|i: int|
            0 <= i < headers.len() && #[trigger] headers[i] == (HeaderView {
                name: encode_utf8("hysteria-auth"@),
                value: encode_utf8(
                    match rule {
                        AuthRule::Configured(own) => own@,
                        AuthRule::Fixed => "8964"@,
                    },
                ),
            }),
        !rule.answer(headers).0 ==> rule.answer(headers) == written_page(),
{
    let (own, padding) = match rule {
        AuthRule::Configured(own) => (own@, "padding"@),
        AuthRule::Fixed => ("8964"@, "8964"@),
    };
    every_answer_is_one_of_two(headers, own, padding);
    if rule.answer(headers).0 {
        nobody_gets_in_without_the_token(headers, own, padding);
    }
}

/// The proxy that the last request on a stream brought.
pub open spec fn last_proxy<T>(steps: Seq<ConnectionStep<T>>, stream_id: u64) -> T
    recommends
        is_served(steps, stream_id),
    decreases steps.len(),
{
    match steps.last() {
        ConnectionStep::Request(id, proxy) if id == stream_id => proxy,
        _ => if steps.len() == 0 {
            arbitrary()
        } else {
            last_proxy(steps.drop_last(), stream_id)
        },
    }
}

/// Payload goes to the proxy that the last request on its stream brought.
pub proof fn payload_goes_to_the_last_proxy<T>(
    rule: AuthRule,
    steps: Seq<ConnectionStep<T>>,
    stream_id: u64,
)
    requires
        is_served(steps, stream_id),
    ensures
        ConnectionState::<T>::initial().run(rule, steps).proxies[stream_id] == last_proxy(
            steps,
            stream_id,
        ),
    decreases steps.len(),
{
    match steps.last() {
        ConnectionStep::Request(id, _) if id == stream_id => {},
        _ => {
            payload_goes_to_served_streams(rule, steps.drop_last(), stream_id);
            payload_goes_to_the_last_proxy(rule, steps.drop_last(), stream_id);
        },
    }
}

/// A client reads off the greeting that its request was taken up, with a message and padding.
pub proof fn greeting_can_be_read(rest: Seq<u8>)
    ensures
        tcp_response_fields(greeting_bytes() + rest) == Some(
            (
                0u8,
                encode_utf8("Hello World!"@),
                encode_utf8("padding"@),
                greeting_bytes().len() as int,
            ),
        ),
{
    reveal_strlit("Hello World!");
    reveal_strlit("padding");
    is_ascii_chars_encode_utf8("Hello World!"@);
    is_ascii_chars_encode_utf8("padding"@);
    tcp_response_round_trip(
        HysteriaTCPResponseStatus::Success,
        encode_utf8("Hello World!"@),
        encode_utf8("padding"@),
        rest,
    );
}

} // verus!
