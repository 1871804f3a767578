//! The driver of one client connection: it reads authentication requests until the client is
//! let in, and proxied streams from then on.

use crate::bytes_buf::{
    bytes_as_slice, bytes_mut_advance, bytes_mut_clone, bytes_mut_seq, bytes_seq,
};
use crate::h3::{clone_headers, frame_views, FrameView, H3Error, H3Event, OutboundFrame};
use crate::proto::{
    lemma_requests_are_read, tcp_request, tcp_request_bytes, HysteriaTcpRequest, TcpRequestView,
};
use crate::stream::{
    H3Response, HysResponse, Message, ReceivedH3Stream, ReceivedQuicStream, StreamReady,
    WaitForH3Stream, WaitForQuicStream, WaitForStream,
};
use bytes::{Bytes, BytesMut};
use std::collections::{BTreeMap, BTreeSet};
use vstd::prelude::*;
use vstd::slice::{slice_subrange, slice_to_vec};
use vstd::utf8::encode_utf8;

verus! {

/// Something that happened on a connection. `H` and `Q` are the sending ends of the channels
/// that the answers are expected through.
pub enum HysEvent<H, Q> {
    /// An HTTP/3 event on a stream.
    H3Event(u64, H3Event, H),
    /// Something on a proxied stream.
    QuicEvent(u64, ProxyEvent<Q>),
}

/// Something that happened on a proxied stream.
pub enum ProxyEvent<Q> {
    /// The client asks to be connected to this address.
    Request(String, Q),
    /// The client sent bytes for its target.
    Payload(Bytes),
}

/// What the driver knows of a connection.
#[verifier::ext_equal]
pub struct DriverState {
    /// Whether the client has been let in.
    pub verified: bool,
    /// Whether there is an HTTP/3 connection.
    pub established: bool,
    /// The answers that each HTTP/3 stream has waiting, oldest first.
    pub h3: Map<u64, Seq<H3Response>>,
    /// The frames of earlier answers that each HTTP/3 stream has had no room for, oldest first.
    pub unsent: Map<u64, Seq<FrameView>>,
    /// The bytes that each proxied stream has waiting for the client.
    pub quic: Map<u64, Seq<u8>>,
    /// The proxied streams that end once nothing waits on them.
    pub ending: Set<u64>,
}

/// What the bytes read from a proxied stream amount to.
pub enum QuicMeaning {
    /// A request for this address, on a stream without a target.
    Request(Seq<char>),
    /// A request on a stream that has a target already.
    Repeated,
    /// Bytes for the target.
    Payload,
    /// The end of the stream.
    End,
}

impl DriverState {
    /// A fresh connection.
    pub open spec fn initial() -> Self {
        DriverState {
            verified: false,
            established: false,
            h3: Map::empty(),
            unsent: Map::empty(),
            quic: Map::empty(),
            ending: Set::empty(),
        }
    }

    /// After the HTTP/3 connection was made.
    pub open spec fn after_established(self) -> Self {
        DriverState { established: true, ..self }
    }

    /// After an event on an HTTP/3 stream: its waiting answers are forgotten.
    pub open spec fn after_h3_event(self, stream_id: u64) -> Self {
        DriverState { h3: self.h3.insert(stream_id, Seq::empty()), ..self }
    }

    /// After an answer for an HTTP/3 stream came; one for an unknown stream is dropped.
    pub open spec fn after_h3_answer(self, stream_id: u64, response: Option<H3Response>) -> Self {
        match response {
            Some(r) if self.h3.contains_key(stream_id) => DriverState {
                h3: self.h3.insert(stream_id, self.h3[stream_id].push(r)),
                ..self
            },
            _ => self,
        }
    }

    /// After bytes for the client of a proxied stream came; those for an unknown stream are
    /// dropped.
    pub open spec fn after_quic_answer(self, stream_id: u64, bytes: Seq<u8>) -> Self {
        if self.quic.contains_key(stream_id) {
            DriverState { quic: self.quic.insert(stream_id, self.quic[stream_id] + bytes), ..self }
        } else {
            self
        }
    }

    /// What the bytes read from a proxied stream amount to.
    pub open spec fn meaning(self, stream_id: u64, data: Seq<u8>) -> QuicMeaning {
        match tcp_request(data) {
            Some(request) => if self.quic.contains_key(stream_id) {
                QuicMeaning::Repeated
            } else {
                QuicMeaning::Request(request.url)
            },
            None => if data.len() == 0 {
                QuicMeaning::End
            } else {
                QuicMeaning::Payload
            },
        }
    }

    /// After bytes were read from a proxied stream: a first request gives it a queue.
    pub open spec fn after_quic_read(self, stream_id: u64, data: Seq<u8>) -> Self {
        if self.meaning(stream_id, data) is Request {
            DriverState { quic: self.quic.insert(stream_id, Seq::empty()), ..self }
        } else {
            self
        }
    }

    /// The frames of earlier answers that an HTTP/3 stream has had no room for.
    pub open spec fn unsent_on(self, stream_id: u64) -> Seq<FrameView> {
        if self.unsent.contains_key(stream_id) {
            self.unsent[stream_id]
        } else {
            Seq::empty()
        }
    }

    /// What to write to a stream that can be written to. What is left of earlier answers comes
    /// first, as an answer that lets nobody in. Then, before the client is let in, the answers
    /// that wait, newest first; afterwards, the bytes that wait, and the end once none do.
    pub open spec fn next_write(self, stream_id: u64) -> WriteView {
        if self.unsent_on(stream_id).len() > 0 {
            WriteView::H3(seq![(false, self.unsent_on(stream_id))])
        } else if !self.verified {
            if self.h3.contains_key(stream_id) && self.h3[stream_id].len() > 0 {
                WriteView::H3(response_views(self.h3[stream_id].reverse()))
            } else {
                WriteView::Nothing
            }
        } else if !self.quic.contains_key(stream_id) {
            WriteView::Nothing
        } else if self.quic[stream_id].len() > 0 {
            WriteView::Quic(self.quic[stream_id])
        } else if self.ending.contains(stream_id) {
            WriteView::End
        } else {
            WriteView::Nothing
        }
    }

    /// After what there is to write to a stream was taken to be sent. Bytes stay until they have
    /// gone out, and so does the end.
    pub open spec fn after_write(self, stream_id: u64) -> Self {
        if self.unsent_on(stream_id).len() > 0 {
            DriverState { unsent: self.unsent.remove(stream_id), ..self }
        } else if !self.verified && self.h3.contains_key(stream_id) {
            DriverState { h3: self.h3.insert(stream_id, Seq::empty()), ..self }
        } else {
            self
        }
    }

    /// After an answer was sent that lets the client in, or does not.
    pub open spec fn after_h3_sent(self, auth_res: bool) -> Self {
        DriverState { verified: self.verified || auth_res, ..self }
    }

    /// After what is left of an answer was put back on its HTTP/3 stream, behind what is left of
    /// earlier ones.
    pub open spec fn after_requeue(self, stream_id: u64, left: Seq<FrameView>) -> Self {
        if left.len() == 0 {
            self
        } else {
            DriverState {
                unsent: self.unsent.insert(stream_id, self.unsent_on(stream_id) + left),
                ..self
            }
        }
    }

    /// After the last bytes of a proxied stream came; the end of an unknown stream is passed
    /// over.
    pub open spec fn after_end(self, stream_id: u64) -> Self {
        if self.quic.contains_key(stream_id) {
            DriverState { ending: self.ending.insert(stream_id), ..self }
        } else {
            self
        }
    }

    /// After a message for the client of a proxied stream came.
    pub open spec fn after_message(self, stream_id: u64, message: Message) -> Self {
        let taken = self.after_quic_answer(stream_id, message.bytes);
        if message.fin {
            taken.after_end(stream_id)
        } else {
            taken
        }
    }

    /// After the end of a proxied stream was sent.
    pub open spec fn after_end_sent(self, stream_id: u64) -> Self {
        DriverState { ending: self.ending.remove(stream_id), ..self }
    }

    /// After the first `sent` waiting bytes of a proxied stream were sent.
    pub open spec fn after_quic_sent(self, stream_id: u64, sent: nat) -> Self {
        DriverState {
            quic: self.quic.insert(
                stream_id,
                self.quic[stream_id].subrange(sent as int, self.quic[stream_id].len() as int),
            ),
            ..self
        }
    }
}

/// Which kind of stream to read.
#[derive(Clone, Copy, Debug, PartialEq, Eq, Structural)]
pub enum ReadMode {
    /// HTTP/3 requests.
    H3,
    /// Proxied streams.
    Quic,
}

/// What to do with the bytes read from a proxied stream.
pub enum QuicRead<H, T, R> {
    /// Hand the event on, and wait for answers.
    Event(HysEvent<H, T>, WaitForQuicStream<R>),
    /// The client has ended the stream: stop reading it.
    Shutdown,
    /// Nothing: the stream has a target already.
    Ignore,
}

/// What to write to a stream that can be written to.
pub enum WriteStep {
    /// Nothing.
    Nothing,
    /// These answers, one after the other.
    H3(Vec<H3Response>),
    /// These bytes, or as many of them as the stream takes.
    Quic(BytesMut),
    /// The end of the stream.
    End,
}

/// What an answer says: whether it lets the client in, and its frames.
pub open spec fn response_view(response: H3Response) -> (bool, Seq<FrameView>) {
    (response.auth_res, frame_views(response.response@))
}

/// What some answers say.
pub open spec fn response_views(responses: Seq<H3Response>) -> Seq<(bool, Seq<FrameView>)> {
    responses.map_values(|r: H3Response| response_view(r))
}

/// What a step says.
pub enum WriteView {
    Nothing,
    H3(Seq<(bool, Seq<FrameView>)>),
    Quic(Seq<u8>),
    End,
}

impl View for WriteStep {
    type V = WriteView;

    open spec fn view(&self) -> WriteView {
        match self {
            WriteStep::Nothing => WriteView::Nothing,
            WriteStep::H3(responses) => WriteView::H3(response_views(responses@)),
            WriteStep::Quic(bytes) => WriteView::Quic(bytes_mut_seq(*bytes)),
            WriteStep::End => WriteView::End,
        }
    }
}

struct H3Context {
    queued_frames: Vec<H3Response>,
}

struct QuicContext {
    queued_bytes: BytesMut,
}

/// The driver of one client connection.
pub struct HysDriver {
    is_verified: bool,
    h3_open: bool,
    h3_context_map: BTreeMap<u64, H3Context>,
    unsent_frames: BTreeMap<u64, Vec<OutboundFrame>>,
    quic_context_map: BTreeMap<u64, QuicContext>,
    ending_streams: BTreeSet<u64>,
}

impl View for HysDriver {
    type V = DriverState;

    closed spec fn view(&self) -> DriverState {
        DriverState {
            verified: self.is_verified,
            established: self.h3_open,
            h3: self.h3_context_map@.map_values(|c: H3Context| c.queued_frames@),
            unsent: self.unsent_frames@.map_values(|f: Vec<OutboundFrame>| frame_views(f@)),
            quic: self.quic_context_map@.map_values(|c: QuicContext| bytes_mut_seq(c.queued_bytes)),
            ending: self.ending_streams@,
        }
    }
}

impl HysDriver {
    /// A driver for a fresh connection.
    pub fn new() -> (driver: Self)
        ensures
            driver@ == DriverState::initial(),
    {
        let driver = HysDriver {
            is_verified: false,
            h3_open: false,
            h3_context_map: BTreeMap::new(),
            unsent_frames: BTreeMap::new(),
            quic_context_map: BTreeMap::new(),
            ending_streams: BTreeSet::new(),
        };
        assert(driver@ =~= DriverState::initial());
        driver
    }

    /// Takes the outcome of making the HTTP/3 connection, once the QUIC connection is there.
    pub fn on_conn_established(&mut self, created: Result<(), H3Error>) -> (result: Result<
        (),
        H3Error,
    >)
        ensures
            result == created,
            final(self)@ == if created is Ok {
                old(self)@.after_established()
            } else {
                old(self)@
            },
    {
        if created.is_ok() {
            self.h3_open = true;
        }
        created
    }

    /// Whether there is anything for the driver to do.
    pub fn should_act(&self) -> (act: bool)
        ensures
            act == (self@.established || self@.verified),
    {
        self.h3_open || self.is_verified
    }

    /// Which kind of stream to read: nothing is proxied before the client is let in.
    pub fn process_reads(&self) -> (mode: ReadMode)
        ensures
            mode == if self@.verified {
                ReadMode::Quic
            } else {
                ReadMode::H3
            },
    {
        if self.is_verified {
            ReadMode::Quic
        } else {
            ReadMode::H3
        }
    }

    /// Takes the outcome of polling the HTTP/3 connection. An event is handed on with `tx`, and
    /// its stream waits on `rx` for the answer.
    pub fn handle_h3_request<T, R, Q>(
        &mut self,
        polled: Result<(u64, H3Event), H3Error>,
        tx: T,
        rx: R,
    ) -> (result: Result<Option<(HysEvent<T, Q>, WaitForH3Stream<R>)>, H3Error>)
        requires
            old(self)@.established,
        ensures
            match polled {
                Ok((stream_id, event)) => {
                    &&& result == Ok::<_, H3Error>(
                        Some(
                            (
                                HysEvent::<T, Q>::H3Event(stream_id, event, tx),
                                WaitForH3Stream { stream_id, chan: Some(rx) },
                            ),
                        ),
                    )
                    &&& final(self)@ == old(self)@.after_h3_event(stream_id)
                },
                Err(H3Error::Done) => {
                    &&& result == Ok::<Option<(HysEvent<T, Q>, WaitForH3Stream<R>)>, H3Error>(None)
                    &&& final(self)@ == old(self)@
                },
                Err(e) => {
                    &&& result == Err::<Option<(HysEvent<T, Q>, WaitForH3Stream<R>)>, H3Error>(e)
                    &&& final(self)@ == old(self)@
                },
            },
    {
        match polled {
            Ok((stream_id, event)) => {
                self.h3_context_map.insert(stream_id, H3Context { queued_frames: Vec::new() });
                assert(self@ =~= old(self)@.after_h3_event(stream_id));
                Ok(
                    Some(
                        (
                            HysEvent::H3Event(stream_id, event, tx),
                            WaitForH3Stream { stream_id, chan: Some(rx) },
                        ),
                    ),
                )
            },
            Err(H3Error::Done) => Ok(None),
            Err(e) => Err(e),
        }
    }

    /// Takes the bytes that were read from a proxied stream. A request on a stream without a
    /// target is handed on with `tx`; other bytes are payload; no bytes are the end of the
    /// stream. Where an event is handed on, the stream waits on `rx` for answers.
    pub fn handle_quic_request<H, T, R>(
        &mut self,
        stream_id: u64,
        data: &[u8],
        tx: T,
        rx: R,
    ) -> (read: QuicRead<H, T, R>)
        ensures
            final(self)@ == old(self)@.after_quic_read(stream_id, data@),
            match old(self)@.meaning(stream_id, data@) {
                QuicMeaning::Request(url) => {
                    &&& read matches QuicRead::Event(
                        HysEvent::QuicEvent(id, ProxyEvent::Request(address, sender)),
                        wait,
                    )
                    &&& id == stream_id
                    &&& address@ == url
                    &&& sender == tx
                    &&& wait == (WaitForQuicStream { stream_id, chan: Some(rx) })
                },
                QuicMeaning::Payload => {
                    &&& read matches QuicRead::Event(
                        HysEvent::QuicEvent(id, ProxyEvent::Payload(payload)),
                        wait,
                    )
                    &&& id == stream_id
                    &&& bytes_seq(payload) == data@
                    &&& wait == (WaitForQuicStream { stream_id, chan: Some(rx) })
                },
                QuicMeaning::End => read is Shutdown,
                QuicMeaning::Repeated => read is Ignore,
            },
            forall|url: Seq<char>, padding: Seq<u8>, rest: Seq<u8>|
                encode_utf8(url).len() <= 253 && padding.len() < 0x4000_0000_0000_0000 && data@
                    == #[trigger] (tcp_request_bytes(
                    TcpRequestView { reqest_id: 0x401, url, padding },
                ) + rest) ==> if old(self)@.quic.contains_key(stream_id) {
                    read is Ignore
                } else {
                    &&& read matches QuicRead::Event(
                        HysEvent::QuicEvent(id, ProxyEvent::Request(address, sender)),
                        wait,
                    )
                    &&& id == stream_id
                    &&& address@ == url
                    &&& sender == tx
                    &&& wait == (WaitForQuicStream { stream_id, chan: Some(rx) })
                },
            data@.len() == 0 ==> read is Shutdown,
            data@.len() > 0 && tcp_request(data@) is None ==> {
                &&& read matches QuicRead::Event(
                    HysEvent::QuicEvent(id, ProxyEvent::Payload(payload)),
                    wait,
                )
                &&& id == stream_id
                &&& bytes_seq(payload) == data@
                &&& wait == (WaitForQuicStream { stream_id, chan: Some(rx) })
            },
    {
        proof {
            lemma_requests_are_read(data@);
        }
        match HysteriaTcpRequest::from_bytes(data) {
            Some(request) => {
                if self.quic_context_map.contains_key(&stream_id) {
                    QuicRead::Ignore
                } else {
                    self.quic_context_map.insert(
                        stream_id,
                        QuicContext { queued_bytes: BytesMut::with_capacity(65535) },
                    );
                    assert(self@ =~= old(self)@.after_quic_read(stream_id, data@));
                    QuicRead::Event(
                        HysEvent::QuicEvent(stream_id, ProxyEvent::Request(request.url, tx)),
                        WaitForQuicStream { stream_id, chan: Some(rx) },
                    )
                }
            },
            None => {
                if data.len() == 0 {
                    QuicRead::Shutdown
                } else {
                    QuicRead::Event(
                        HysEvent::QuicEvent(
                            stream_id,
                            ProxyEvent::Payload(Bytes::copy_from_slice(data)),
                        ),
                        WaitForQuicStream { stream_id, chan: Some(rx) },
                    )
                }
            },
        }
    }

    /// How many bytes a proxied stream has waiting for the client.
    pub fn queued_len(&self, stream_id: u64) -> (n: usize)
        ensures
            n == if self@.quic.contains_key(stream_id) {
                self@.quic[stream_id].len()
            } else {
                0
            },
    {
        match self.quic_context_map.get(&stream_id) {
            Some(context) => context.queued_bytes.len(),
            None => 0,
        }
    }

    /// Takes the answer that came for an HTTP/3 stream.
    pub fn h3_ready<R>(&mut self, h3_ready: ReceivedH3Stream<R>)
        ensures
            final(self)@ == old(self)@.after_h3_answer(h3_ready.stream_id, h3_ready.response),
    {
        let stream_id = h3_ready.stream_id;
        match self.h3_context_map.remove(&stream_id) {
            None => {
                assert(self@ =~= old(self)@);
            },
            Some(context) => {
                let mut context = context;
                match h3_ready.response {
                    Some(response) => {
                        context.queued_frames.push(response);
                    },
                    None => {},
                }
                self.h3_context_map.insert(stream_id, context);
                assert(self@ =~= old(self)@.after_h3_answer(stream_id, h3_ready.response));
            },
        }
    }

    /// The bytes that came for a proxied stream.
    pub open spec fn received<R>(quic_ready: ReceivedQuicStream<R, Bytes>) -> Seq<u8> {
        match quic_ready.response {
            Some(bytes) => bytes_seq(bytes),
            None => Seq::empty(),
        }
    }

    /// Takes the bytes that came for a proxied stream. Unless its channel is closed, the stream
    /// waits for more.
    pub fn quic_ready<R>(
        &mut self,
        quic_ready: ReceivedQuicStream<R, Bytes>,
        chan_closed: bool,
    ) -> (wait: Option<WaitForQuicStream<R>>)
        requires
            old(self)@.quic.contains_key(quic_ready.stream_id)
                ==> old(self)@.quic[quic_ready.stream_id].len() + Self::received(quic_ready).len()
                <= isize::MAX,
        ensures
            final(self)@ == old(self)@.after_quic_answer(
                quic_ready.stream_id,
                Self::received(quic_ready),
            ),
            old(self)@.quic.contains_key(quic_ready.stream_id) ==> {
                &&& final(self)@.quic.contains_key(quic_ready.stream_id)
                &&& final(self)@.quic[quic_ready.stream_id] == match quic_ready.response {
                    Some(bytes) => old(self)@.quic[quic_ready.stream_id] + bytes_seq(bytes),
                    None => old(self)@.quic[quic_ready.stream_id],
                }
            },
            wait == if chan_closed {
                None
            } else {
                Some(
                    WaitForQuicStream {
                        stream_id: quic_ready.stream_id,
                        chan: Some(quic_ready.chan),
                    },
                )
            },
    {
        let ReceivedQuicStream { stream_id, chan, response } = quic_ready;
        let wait = if chan_closed {
            None
        } else {
            Some(WaitForQuicStream { stream_id, chan: Some(chan) })
        };
        match self.quic_context_map.remove(&stream_id) {
            None => {
                assert(self@ =~= old(self)@);
            },
            Some(context) => {
                let mut context = context;
                match response {
                    Some(bytes) => {
                        context.queued_bytes.extend_from_slice(bytes_as_slice(&bytes));
                    },
                    None => {},
                }
                self.quic_context_map.insert(stream_id, context);
                assert(self@ =~= old(self)@.after_quic_answer(
                    stream_id,
                    Self::received(quic_ready),
                ));
            },
        }
        wait
    }

    /// Takes the answer that came for a stream. `chan_closed` tells whether the channel it came
    /// through has been closed. Only a proxied stream waits for more.
    pub fn upstream_ready<H, Q>(
        &mut self,
        ready: StreamReady<H, Q, Bytes>,
        chan_closed: bool,
    ) -> (wait: Option<WaitForStream<H, Q>>)
        requires
            ready matches StreamReady::QuicStream(r) ==> old(self)@.quic.contains_key(r.stream_id)
                ==> old(self)@.quic[r.stream_id].len() + Self::received(r).len() <= isize::MAX,
        ensures
            match ready {
                StreamReady::H3Stream(r) => {
                    &&& final(self)@ == old(self)@.after_h3_answer(r.stream_id, r.response)
                    &&& wait is None
                },
                StreamReady::QuicStream(r) => {
                    &&& final(self)@ == old(self)@.after_quic_answer(
                        r.stream_id,
                        Self::received(r),
                    )
                    &&& wait == if chan_closed {
                        None
                    } else {
                        Some(
                            WaitForStream::<H, Q>::QuicStream(
                                WaitForQuicStream { stream_id: r.stream_id, chan: Some(r.chan) },
                            ),
                        )
                    }
                },
            },
    {
        match ready {
            StreamReady::H3Stream(r) => {
                self.h3_ready(r);
                None
            },
            StreamReady::QuicStream(r) => match self.quic_ready(r, chan_closed) {
                Some(wait) => Some(WaitForStream::QuicStream(wait)),
                None => None,
            },
        }
    }

    /// Takes note that no more bytes come for a proxied stream.
    pub fn end_stream(&mut self, stream_id: u64)
        ensures
            final(self)@ == old(self)@.after_end(stream_id),
    {
        if self.quic_context_map.contains_key(&stream_id) {
            self.ending_streams.insert(stream_id);
        }
        assert(self@ =~= old(self)@.after_end(stream_id));
    }

    /// Takes note that the end of a proxied stream was sent.
    pub fn end_sent(&mut self, stream_id: u64)
        ensures
            final(self)@ == old(self)@.after_end_sent(stream_id),
    {
        self.ending_streams.remove(&stream_id);
        assert(self@ =~= old(self)@.after_end_sent(stream_id));
    }

    /// Takes the message that came for a stream. A message that is the last for a proxied stream
    /// ends it once its bytes have gone out.
    pub fn message_ready<H, Q>(
        &mut self,
        ready: StreamReady<H, Q, HysResponse>,
        chan_closed: bool,
    ) -> (wait: Option<WaitForStream<H, Q>>)
        requires
            ready matches StreamReady::QuicStream(r) ==> old(self)@.quic.contains_key(r.stream_id)
                ==> old(self)@.quic[r.stream_id].len() + message_of(r).bytes.len() <= isize::MAX,
        ensures
            match ready {
                StreamReady::H3Stream(r) => {
                    &&& final(self)@ == old(self)@.after_h3_answer(r.stream_id, r.response)
                    &&& wait is None
                },
                StreamReady::QuicStream(r) => {
                    &&& final(self)@ == old(self)@.after_message(r.stream_id, message_of(r))
                    &&& old(self)@.quic.contains_key(r.stream_id) ==> {
                        &&& final(self)@.quic.contains_key(r.stream_id)
                        &&& final(self)@.quic[r.stream_id] == match r.response {
                            Some(message) => old(self)@.quic[r.stream_id] + bytes_seq(
                                message.bytes,
                            ),
                            None => old(self)@.quic[r.stream_id],
                        }
                        &&& final(self)@.ending.contains(r.stream_id) == (old(
                            self,
                        )@.ending.contains(r.stream_id) || (r.response matches Some(message)
                            && message.fin))
                    }
                    &&& wait == if chan_closed {
                        None
                    } else {
                        Some(
                            WaitForStream::<H, Q>::QuicStream(
                                WaitForQuicStream { stream_id: r.stream_id, chan: Some(r.chan) },
                            ),
                        )
                    }
                },
            },
    {
        match ready {
            StreamReady::H3Stream(r) => self.upstream_ready(StreamReady::H3Stream(r), chan_closed),
            StreamReady::QuicStream(r) => {
                let ReceivedQuicStream { stream_id, chan, response } = r;
                let (response, fin) = match response {
                    Some(message) => (Some(message.bytes), message.fin),
                    None => (None, false),
                };
                let wait = self.upstream_ready(
                    StreamReady::QuicStream(ReceivedQuicStream { stream_id, chan, response }),
                    chan_closed,
                );
                if fin {
                    self.end_stream(stream_id);
                }
                wait
            },
        }
    }

    /// Finds what to write to a stream that can be written to: what is left of earlier answers;
    /// then, before the client is let in, the answers that wait on it, newest first; afterwards,
    /// the bytes that wait on it, and its end once none do.
    pub fn process_writes(&mut self, stream_id: u64) -> (step: WriteStep)
        ensures
            final(self)@ == old(self)@.after_write(stream_id),
            step@ == old(self)@.next_write(stream_id),
            old(self)@.unsent_on(stream_id).len() > 0 ==> {
                &&& step matches WriteStep::H3(responses)
                &&& responses@.len() == 1
                &&& !responses@[0].auth_res
                &&& frame_views(responses@[0].response@) == old(self)@.unsent_on(stream_id)
            },
            old(self)@.unsent_on(stream_id).len() == 0 && !old(self)@.verified && old(
                self,
            )@.h3.contains_key(stream_id) && old(self)@.h3[stream_id].len() > 0 ==> {
                &&& step matches WriteStep::H3(responses)
                &&& responses@ == old(self)@.h3[stream_id].reverse()
            },
            old(self)@.unsent_on(stream_id).len() == 0 && old(self)@.verified && old(
                self,
            )@.quic.contains_key(stream_id) && old(self)@.quic[stream_id].len() > 0 ==> {
                &&& step matches WriteStep::Quic(bytes)
                &&& bytes_mut_seq(bytes) == old(self)@.quic[stream_id]
            },
    {
        match self.unsent_frames.remove(&stream_id) {
            Some(frames) => {
                assert(frame_views(frames@) == old(self)@.unsent[stream_id]);
                if frames.len() > 0 {
                    let rest = H3Response { auth_res: false, response: frames };
                    let mut responses: Vec<H3Response> = Vec::new();
                    responses.push(rest);
                    assert(self@ =~= old(self)@.after_write(stream_id));
                    assert(response_views(responses@) =~= seq![response_view(rest)]);
                    return WriteStep::H3(responses);
                }
                self.unsent_frames.insert(stream_id, frames);
            },
            None => {},
        }
        assert(self@ =~= old(self)@);
        assert(old(self)@.unsent_on(stream_id).len() == 0);
        if !self.is_verified {
            match self.h3_context_map.remove(&stream_id) {
                Some(context) => {
                    let mut queued_frames = context.queued_frames;
                    self.h3_context_map.insert(stream_id, H3Context { queued_frames: Vec::new() });
                    assert(self@ =~= old(self)@.after_write(stream_id));
                    let ghost queue = queued_frames@;
                    let mut responses: Vec<H3Response> = Vec::new();
                    let mut left: usize = queued_frames.len();
                    while left > 0
                        invariant
                            left == queued_frames@.len(),
                            left <= queue.len(),
                            queued_frames@ == queue.subrange(0, left as int),
                            responses@ == queue.subrange(
                                left as int,
                                queue.len() as int,
                            ).reverse(),
                        decreases left,
                    {
                        match queued_frames.pop() {
                            Some(response) => {
                                responses.push(response);
                            },
                            None => {},
                        }
                        left = left - 1;
                        assert(queued_frames@ =~= queue.subrange(0, left as int));
                        assert(responses@ =~= queue.subrange(
                            left as int,
                            queue.len() as int,
                        ).reverse());
                    }
                    assert(queue.subrange(0, queue.len() as int) =~= queue);
                    if responses.len() > 0 {
                        WriteStep::H3(responses)
                    } else {
                        WriteStep::Nothing
                    }
                },
                None => {
                    assert(self@ =~= old(self)@);
                    WriteStep::Nothing
                },
            }
        } else {
            match self.quic_context_map.get(&stream_id) {
                Some(context) => {
                    if !context.queued_bytes.is_empty() {
                        WriteStep::Quic(bytes_mut_clone(&context.queued_bytes))
                    } else if self.ending_streams.contains(&stream_id) {
                        WriteStep::End
                    } else {
                        WriteStep::Nothing
                    }
                },
                None => WriteStep::Nothing,
            }
        }
    }

    /// Takes the number of bytes that a proxied stream took of those that waited on it.
    pub fn quic_sent(&mut self, stream_id: u64, sent: usize)
        requires
            old(self)@.quic.contains_key(stream_id),
            sent <= old(self)@.quic[stream_id].len(),
        ensures
            final(self)@ == old(self)@.after_quic_sent(stream_id, sent as nat),
    {
        match self.quic_context_map.remove(&stream_id) {
            Some(context) => {
                let mut context = context;
                if sent == context.queued_bytes.len() {
                    context.queued_bytes.clear();
                } else {
                    bytes_mut_advance(&mut context.queued_bytes, sent);
                }
                assert(bytes_mut_seq(context.queued_bytes) =~= old(
                    self,
                )@.after_quic_sent(stream_id, sent as nat).quic[stream_id]);
                self.quic_context_map.insert(stream_id, context);
                assert(self@ =~= old(self)@.after_quic_sent(stream_id, sent as nat));
            },
            None => {},
        }
    }

    /// Takes the outcomes of sending the frames of an answer, and gives back what is left to
    /// send. An answer that lets the client in makes the connection a verified one.
    pub fn handle_h3_response(
        &mut self,
        response: &H3Response,
        outcomes: &[Result<usize, H3Error>],
    ) -> (left: Vec<OutboundFrame>)
        requires
            sendable(frame_views(response.response@), outcomes@),
        ensures
            final(self)@ == old(self)@.after_h3_sent(response.auth_res),
            frame_views(left@) == unsent_frames(frame_views(response.response@), outcomes@),
    {
        self.is_verified = self.is_verified || response.auth_res;
        let ghost frames = frame_views(response.response@);
        let mut left: Vec<OutboundFrame> = Vec::new();
        let mut i: usize = 0;
        assert(frames.subrange(0, 0) =~= Seq::<FrameView>::empty());
        assert(frame_views(left@) =~= Seq::<FrameView>::empty());
        while i < response.response.len()
            invariant
                i <= frames.len(),
                frames == frame_views(response.response@),
                sendable(frames, outcomes@),
                frame_views(left@) == unsent_frames(
                    frames.subrange(0, i as int),
                    outcomes@.subrange(0, i as int),
                ),
            decreases frames.len() - i,
        {
            let ghost before = left@;
            proof {
                assert(frames.subrange(0, i + 1).drop_last() =~= frames.subrange(0, i as int));
                assert(outcomes@.subrange(0, i + 1).drop_last() =~= outcomes@.subrange(
                    0,
                    i as int,
                ));
                assert(frames[i as int] == response.response@[i as int]@);
            }
            match unsent_part(&response.response[i], outcomes[i]) {
                Some(frame) => {
                    left.push(frame);
                    assert(frame_views(left@) =~= frame_views(before).push(frame@));
                },
                None => {},
            }
            i = i + 1;
        }
        assert(frames.subrange(0, i as int) =~= frames);
        assert(outcomes@.subrange(0, i as int) =~= outcomes@);
        left
    }

    /// Puts what is left of an answer back on its HTTP/3 stream, to be sent again.
    pub fn requeue(&mut self, stream_id: u64, left: Vec<OutboundFrame>)
        ensures
            final(self)@ == old(self)@.after_requeue(stream_id, frame_views(left@)),
    {
        if left.len() == 0 {
            return ;
        }
        let mut left = left;
        let ghost added = left@;
        let mut frames: Vec<OutboundFrame> = match self.unsent_frames.remove(&stream_id) {
            Some(frames) => frames,
            None => Vec::new(),
        };
        let ghost earlier = frames@;
        frames.append(&mut left);
        proof {
            assert(frame_views(earlier) =~= old(self)@.unsent_on(stream_id));
            assert(frame_views(earlier + added) =~= frame_views(earlier) + frame_views(added));
        }
        self.unsent_frames.insert(stream_id, frames);
        assert(self@ =~= old(self)@.after_requeue(stream_id, frame_views(added)));
    }
}

/// The message that came for a proxied stream; an empty one where the channel has ended.
pub open spec fn message_of<Q>(received: ReceivedQuicStream<Q, HysResponse>) -> Message {
    match received.response {
        Some(message) => message@,
        None => Message { bytes: Seq::empty(), fin: false },
    }
}

/// Whether `outcomes` can be those of sending `frames`: there is one for each, and no body took
/// more bytes than it has.
pub open spec fn sendable(frames: Seq<FrameView>, outcomes: Seq<Result<usize, H3Error>>) -> bool {
    &&& frames.len() == outcomes.len()
    &&& forall|i: int|
        0 <= i < frames.len() ==> (#[trigger] frames[i] matches FrameView::Body(body, _) ==> (
        outcomes[i] matches Ok(sent) ==> sent <= body.len()))
}

/// What is left of a frame after an attempt to send it: all of it where the attempt failed, the
/// rest of a body that was sent in part.
pub open spec fn unsent_frame(frame: FrameView, outcome: Result<usize, H3Error>) -> Option<
    FrameView,
> {
    match (frame, outcome) {
        (FrameView::Other, _) => None,
        (FrameView::Headers(_), Ok(_)) => None,
        (FrameView::Body(body, fin), Ok(sent)) => if sent == body.len() {
            None
        } else {
            Some(FrameView::Body(body.subrange(sent as int, body.len() as int), fin))
        },
        (_, Err(_)) => Some(frame),
    }
}

/// What is left of some frames after an attempt to send each.
pub open spec fn unsent_frames(
    frames: Seq<FrameView>,
    outcomes: Seq<Result<usize, H3Error>>,
) -> Seq<FrameView>
    decreases frames.len(),
{
    if frames.len() == 0 {
        Seq::empty()
    } else {
        let before = unsent_frames(frames.drop_last(), outcomes.drop_last());
        match unsent_frame(frames.last(), outcomes.last()) {
            Some(frame) => before.push(frame),
            None => before,
        }
    }
}

/// What is left of a frame after an attempt to send it.
fn unsent_part(frame: &OutboundFrame, outcome: Result<usize, H3Error>) -> (left: Option<
    OutboundFrame,
>)
    requires
        frame@ matches FrameView::Body(body, _) ==> (outcome matches Ok(sent) ==> sent
            <= body.len()),
    ensures
        match left {
            Some(f) => unsent_frame(frame@, outcome) == Some(f@),
            None => unsent_frame(frame@, outcome) is None,
        },
{
    match frame {
        OutboundFrame::Headers(headers) => match outcome {
            Ok(_) => None,
            Err(_) => Some(OutboundFrame::Headers(clone_headers(headers))),
        },
        OutboundFrame::Body(body, fin) => match outcome {
            Ok(sent) => if sent == body.len() {
                None
            } else {
                Some(
                    OutboundFrame::Body(
                        slice_to_vec(slice_subrange(body.as_slice(), sent, body.len())),
                        *fin,
                    ),
                )
            },
            Err(_) => Some(OutboundFrame::Body(slice_to_vec(body.as_slice()), *fin)),
        },
        OutboundFrame::Other => None,
    }
}

/// One thing that the driver takes in.
pub enum DriverStep {
    Established,
    H3Event(u64),
    H3Answer(u64, Option<H3Response>),
    QuicAnswer(u64, Seq<u8>),
    QuicRead(u64, Seq<u8>),
    Write(u64),
    H3Sent(bool),
    Requeue(u64, Seq<FrameView>),
    QuicSent(u64, nat),
    End(u64),
    EndSent(u64),
}

impl DriverState {
    /// Whether the step can come: no more can be sent than waits.
    pub open spec fn allows(self, step: DriverStep) -> bool {
        step matches DriverStep::QuicSent(stream_id, sent) ==> self.quic.contains_key(stream_id)
            && sent <= self.quic[stream_id].len()
    }

    /// The state after a step.
    pub open spec fn next(self, step: DriverStep) -> Self {
        match step {
            DriverStep::Established => self.after_established(),
            DriverStep::H3Event(stream_id) => self.after_h3_event(stream_id),
            DriverStep::H3Answer(stream_id, response) => self.after_h3_answer(stream_id, response),
            DriverStep::QuicAnswer(stream_id, bytes) => self.after_quic_answer(stream_id, bytes),
            DriverStep::QuicRead(stream_id, data) => self.after_quic_read(stream_id, data),
            DriverStep::Write(stream_id) => self.after_write(stream_id),
            DriverStep::H3Sent(auth_res) => self.after_h3_sent(auth_res),
            DriverStep::Requeue(stream_id, left) => self.after_requeue(stream_id, left),
            DriverStep::QuicSent(stream_id, sent) => self.after_quic_sent(stream_id, sent),
            DriverStep::End(stream_id) => self.after_end(stream_id),
            DriverStep::EndSent(stream_id) => self.after_end_sent(stream_id),
        }
    }

    /// The state after some steps.
    pub open spec fn run(self, steps: Seq<DriverStep>) -> Self
        decreases steps.len(),
    {
        if steps.len() == 0 {
            self
        } else {
            self.run(steps.drop_last()).next(steps.last())
        }
    }

    /// Whether the steps can come one after the other.
    pub open spec fn allows_all(self, steps: Seq<DriverStep>) -> bool
        decreases steps.len(),
    {
        steps.len() > 0 ==> self.allows_all(steps.drop_last()) && self.run(
            steps.drop_last(),
        ).allows(steps.last())
    }

    /// What goes out on a proxied stream during some steps.
    pub open spec fn sent_on(self, steps: Seq<DriverStep>, stream_id: u64) -> Seq<u8>
        decreases steps.len(),
    {
        if steps.len() == 0 {
            Seq::empty()
        } else {
            let before = self.sent_on(steps.drop_last(), stream_id);
            match steps.last() {
                DriverStep::QuicSent(id, sent) if id == stream_id => before + self.run(
                    steps.drop_last(),
                ).quic[stream_id].subrange(0, sent as int),
                _ => before,
            }
        }
    }
}

/// What comes for the client of a proxied stream during some steps.
pub open spec fn answers_for(steps: Seq<DriverStep>, stream_id: u64) -> Seq<u8>
    decreases steps.len(),
{
    if steps.len() == 0 {
        Seq::empty()
    } else {
        let before = answers_for(steps.drop_last(), stream_id);
        match steps.last() {
            DriverStep::QuicAnswer(id, bytes) if id == stream_id => before + bytes,
            _ => before,
        }
    }
}

/// A client that has been let in stays in, and a stream that has a target keeps it, whatever
/// comes.
pub proof fn driver_never_goes_back(state: DriverState, steps: Seq<DriverStep>, stream_id: u64)
    ensures
        state.verified ==> state.run(steps).verified,
        state.established ==> state.run(steps).established,
        state.quic.contains_key(stream_id) ==> state.run(steps).quic.contains_key(stream_id),
    decreases steps.len(),
{
    if steps.len() > 0 {
        driver_never_goes_back(state, steps.drop_last(), stream_id);
    }
}

/// A client gets in by an answer that lets it in, and by nothing else.
pub proof fn only_an_answer_lets_in(steps: Seq<DriverStep>)
    ensures
        DriverState::initial().run(steps).verified == exists|i: int|
            0 <= i < steps.len() && #[trigger] steps[i] == DriverStep::H3Sent(true),
    decreases steps.len(),
{
    if steps.len() > 0 {
        let prior = steps.drop_last();
        only_an_answer_lets_in(prior);
        if DriverState::initial().run(prior).verified {
            let i = choose|i: int|
                0 <= i < prior.len() && #[trigger] prior[i] == DriverStep::H3Sent(true);
            assert(steps[i] == DriverStep::H3Sent(true));
        }
        if steps.last() == DriverStep::H3Sent(true) {
            assert(steps[steps.len() - 1] == DriverStep::H3Sent(true));
        }
        if exists|i: int| 0 <= i < steps.len() && #[trigger] steps[i] == DriverStep::H3Sent(true) {
            let i = choose|i: int|
                0 <= i < steps.len() && #[trigger] steps[i] == DriverStep::H3Sent(true);
            if i < prior.len() {
                assert(prior[i] == DriverStep::H3Sent(true));
            }
        }
    }
}

/// A stream is given a target at most once: after the request that did so, whatever comes, no
/// bytes on that stream are taken for a request again.
pub proof fn one_target_per_stream(
    state: DriverState,
    stream_id: u64,
    request: Seq<u8>,
    steps: Seq<DriverStep>,
    data: Seq<u8>,
)
    requires
        state.meaning(stream_id, request) is Request,
    ensures
        state.after_quic_read(stream_id, request).run(steps).meaning(stream_id, data) !is Request,
{
    driver_never_goes_back(state.after_quic_read(stream_id, request), steps, stream_id);
}

/// What goes out on a proxied stream is what came for it, in order, with nothing lost, repeated
/// or mixed in from another stream; what has not gone out yet is waiting.
pub proof fn proxied_bytes_keep_their_order(
    state: DriverState,
    steps: Seq<DriverStep>,
    stream_id: u64,
)
    requires
        state.quic.contains_key(stream_id),
        state.allows_all(steps),
    ensures
        state.run(steps).quic.contains_key(stream_id),
        state.quic[stream_id] + answers_for(steps, stream_id) == state.sent_on(steps, stream_id)
            + state.run(steps).quic[stream_id],
    decreases steps.len(),
{
    driver_never_goes_back(state, steps, stream_id);
    if steps.len() == 0 {
        assert(state.quic[stream_id] + answers_for(steps, stream_id) =~= state.sent_on(
            steps,
            stream_id,
        ) + state.run(steps).quic[stream_id]);
    } else {
        let prior = steps.drop_last();
        proxied_bytes_keep_their_order(state, prior, stream_id);
        driver_never_goes_back(state, prior, stream_id);
        let queue = state.run(prior).quic[stream_id];
        let total = state.quic[stream_id] + answers_for(prior, stream_id);
        match steps.last() {
            DriverStep::QuicAnswer(id, bytes) if id == stream_id => {
                assert(state.quic[stream_id] + answers_for(steps, stream_id) =~= total + bytes);
                assert(state.sent_on(steps, stream_id) + state.run(steps).quic[stream_id]
                    =~= state.sent_on(prior, stream_id) + queue + bytes);
            },
            DriverStep::QuicSent(id, sent) if id == stream_id => {
                assert(queue =~= queue.subrange(0, sent as int) + queue.subrange(
                    sent as int,
                    queue.len() as int,
                ));
                assert(state.sent_on(steps, stream_id) + state.run(steps).quic[stream_id]
                    =~= state.sent_on(prior, stream_id) + queue);
            },
            _ => {},
        }
    }
}

/// What a body sent and what is left of it make up the body, and what is left ends the stream
/// if the body was to end it.
pub proof fn unsent_body_is_the_rest(body: Seq<u8>, fin: bool, sent: usize)
    requires
        sent <= body.len(),
    ensures
        match unsent_frame(FrameView::Body(body, fin), Ok(sent)) {
            Some(FrameView::Body(rest, end)) => {
                &&& body.subrange(0, sent as int) + rest == body
                &&& rest.len() > 0
                &&& end == fin
            },
            Some(_) => false,
            None => body.subrange(0, sent as int) == body,
        },
{
    assert(body.subrange(0, sent as int) + body.subrange(sent as int, body.len() as int) =~= body);
}

/// What is left of an answer after an attempt to send it is what the next attempt starts with,
/// whether the client has been let in meanwhile or not; only what is left of earlier answers on
/// the same stream comes before it.
pub proof fn unsent_frames_are_next(state: DriverState, stream_id: u64, left: Seq<FrameView>)
    requires
        left.len() > 0,
    ensures
        state.after_requeue(stream_id, left).next_write(stream_id) == WriteView::H3(
            seq![(false, state.unsent_on(stream_id) + left)],
        ),
{
}

/// What is left of earlier answers stays due until it is taken to be sent, whatever else comes.
pub proof fn unsent_frames_are_not_forgotten(
    state: DriverState,
    steps: Seq<DriverStep>,
    stream_id: u64,
)
    requires
        forall|i: int| 0 <= i < steps.len() ==> #[trigger] steps[i] != DriverStep::Write(stream_id),
    ensures
        state.unsent_on(stream_id).is_prefix_of(state.run(steps).unsent_on(stream_id)),
    decreases steps.len(),
{
    if steps.len() > 0 {
        let prior = steps.drop_last();
        assert forall|i: int| 0 <= i < prior.len() implies #[trigger] prior[i]
            != DriverStep::Write(stream_id) by {
            assert(prior[i] == steps[i]);
        }
        assert(steps[steps.len() - 1] != DriverStep::Write(stream_id));
        unsent_frames_are_not_forgotten(state, prior, stream_id);
        let before = state.run(prior).unsent_on(stream_id);
        let after = state.run(steps).unsent_on(stream_id);
        assert(before =~= after.subrange(0, before.len() as int));
        assert(state.unsent_on(stream_id) =~= after.subrange(
            0,
            state.unsent_on(stream_id).len() as int,
        ));
    } else {
        let unsent = state.unsent_on(stream_id);
        assert(unsent =~= unsent.subrange(0, unsent.len() as int));
    }
}

/// Once no more comes for a proxied stream, its end stays due until it is sent, whatever else
/// comes.
pub proof fn end_is_not_forgotten(state: DriverState, steps: Seq<DriverStep>, stream_id: u64)
    requires
        state.ending.contains(stream_id),
        forall|i: int| 0 <= i < steps.len() ==> #[trigger] steps[i] != DriverStep::EndSent(
            stream_id,
        ),
    ensures
        state.run(steps).ending.contains(stream_id),
    decreases steps.len(),
{
    if steps.len() > 0 {
        assert forall|i: int| 0 <= i < steps.drop_last().len() implies #[trigger] steps.drop_last()[
            i
        ] != DriverStep::EndSent(stream_id) by {
            assert(steps.drop_last()[i] == steps[i]);
        }
        assert(steps[steps.len() - 1] != DriverStep::EndSent(stream_id));
        end_is_not_forgotten(state, steps.drop_last(), stream_id);
    }
}

/// Whatever address a client asks for, with whatever padding and whatever behind it, on a stream
/// without a target that address is what is asked for; the stream then has a target with nothing
/// waiting. On a stream with a target nothing changes.
pub proof fn requested_address_is_handed_on(
    state: DriverState,
    stream_id: u64,
    url: Seq<char>,
    padding: Seq<u8>,
    rest: Seq<u8>,
)
    requires
        encode_utf8(url).len() <= 253,
        padding.len() < 0x4000_0000_0000_0000,
    ensures
        ({
            let data = tcp_request_bytes(TcpRequestView { reqest_id: 0x401, url, padding }) + rest;
            let after = state.after_quic_read(stream_id, data);
            if state.quic.contains_key(stream_id) {
                state.meaning(stream_id, data) is Repeated && after == state
            } else {
                &&& state.meaning(stream_id, data) == QuicMeaning::Request(url)
                &&& after.quic == state.quic.insert(stream_id, Seq::empty())
                &&& after.verified == state.verified && after.h3 == state.h3 && after.unsent
                    == state.unsent
            }
        }),
{
    let data = tcp_request_bytes(TcpRequestView { reqest_id: 0x401, url, padding }) + rest;
    lemma_requests_are_read(data);
}

/// Bytes that are no request are payload, and no bytes are the end. Neither changes the driver.
pub proof fn other_bytes_are_payload(state: DriverState, stream_id: u64, data: Seq<u8>)
    requires
        tcp_request(data) is None,
    ensures
        data.len() > 0 ==> state.meaning(stream_id, data) is Payload,
        data.len() == 0 ==> state.meaning(stream_id, data) is End,
        state.after_quic_read(stream_id, data) == state,
{
}

/// The relay goes on: once the client is in, the bytes that came for a stream since it got its
/// target and have not gone out are what is written next, all of them and from the first one on.
pub proof fn waiting_bytes_are_written_next(
    state: DriverState,
    steps: Seq<DriverStep>,
    stream_id: u64,
    waiting: Seq<u8>,
)
    requires
        state.quic.contains_key(stream_id),
        state.quic[stream_id].len() == 0,
        state.allows_all(steps),
        state.run(steps).verified,
        !state.run(steps).unsent.contains_key(stream_id),
        answers_for(steps, stream_id) == state.sent_on(steps, stream_id) + waiting,
        waiting.len() > 0,
    ensures
        state.run(steps).next_write(stream_id) == WriteView::Quic(waiting),
{
    proxied_bytes_keep_their_order(state, steps, stream_id);
    let sent = state.sent_on(steps, stream_id);
    let queue = state.run(steps).quic[stream_id];
    assert(state.quic[stream_id] + answers_for(steps, stream_id) =~= answers_for(steps, stream_id));
    assert(sent + waiting == sent + queue);
    assert(queue.len() == waiting.len());
    assert forall|i: int| 0 <= i < queue.len() implies queue[i] == waiting[i] by {
        assert((sent + waiting)[sent.len() + i] == (sent + queue)[sent.len() + i]);
    }
    assert(queue =~= waiting);
}

impl DriverState {
    /// The bytes that are there to be written to a stream.
    pub open spec fn offered(self, stream_id: u64) -> Seq<u8> {
        match self.next_write(stream_id) {
            WriteView::Quic(bytes) => bytes,
            _ => Seq::empty(),
        }
    }

    /// Whether no more goes out on the stream than is there to be written each time.
    pub open spec fn sends_what_is_offered(self, steps: Seq<DriverStep>, stream_id: u64) -> bool
        decreases steps.len(),
    {
        steps.len() > 0 ==> {
            let prior = steps.drop_last();
            &&& self.sends_what_is_offered(prior, stream_id)
            &&& steps.last() matches DriverStep::QuicSent(id, sent) ==> id == stream_id ==> sent
                <= self.run(prior).offered(stream_id).len()
        }
    }

    /// What is handed to a stream during some steps: of what is there to be written each time, as
    /// much as the stream takes.
    pub open spec fn handed_over(self, steps: Seq<DriverStep>, stream_id: u64) -> Seq<u8>
        decreases steps.len(),
    {
        if steps.len() == 0 {
            Seq::empty()
        } else {
            let prior = steps.drop_last();
            let before = self.handed_over(prior, stream_id);
            match steps.last() {
                DriverStep::QuicSent(id, sent) if id == stream_id => before + self.run(
                    prior,
                ).offered(stream_id).subrange(0, sent as int),
                _ => before,
            }
        }
    }
}

/// What goes out on a proxied stream is what was there to be written.
pub proof fn what_goes_out_was_offered(state: DriverState, steps: Seq<DriverStep>, stream_id: u64)
    requires
        state.sends_what_is_offered(steps, stream_id),
    ensures
        state.handed_over(steps, stream_id) == state.sent_on(steps, stream_id),
    decreases steps.len(),
{
    if steps.len() > 0 {
        let prior = steps.drop_last();
        what_goes_out_was_offered(state, prior, stream_id);
        match steps.last() {
            DriverStep::QuicSent(id, sent) if id == stream_id => {
                let now = state.run(prior);
                if now.next_write(stream_id) is Quic {
                    assert(now.offered(stream_id) == now.quic[stream_id]);
                } else {
                    assert(now.offered(stream_id).subrange(0, 0) =~= now.quic[stream_id].subrange(
                        0,
                        0,
                    ));
                }
            },
            _ => {},
        }
    }
}

/// What is handed to a proxied stream is what came for it, in order, with nothing lost, repeated
/// or mixed in; once the client is in, the rest is what is written next.
pub proof fn relay_is_faithful(state: DriverState, steps: Seq<DriverStep>, stream_id: u64)
    requires
        state.quic.contains_key(stream_id),
        state.quic[stream_id].len() == 0,
        state.allows_all(steps),
        state.sends_what_is_offered(steps, stream_id),
        state.run(steps).verified,
        !state.run(steps).unsent.contains_key(stream_id),
    ensures
        state.handed_over(steps, stream_id) + state.run(steps).offered(stream_id) == answers_for(
            steps,
            stream_id,
        ),
{
    what_goes_out_was_offered(state, steps, stream_id);
    proxied_bytes_keep_their_order(state, steps, stream_id);
    let queue = state.run(steps).quic[stream_id];
    assert(state.quic[stream_id] + answers_for(steps, stream_id) =~= answers_for(steps, stream_id));
    if queue.len() > 0 {
        waiting_bytes_are_written_next(state, steps, stream_id, queue);
    } else {
        assert(state.run(steps).offered(stream_id) =~= queue);
    }
}

/// A proxied stream ends with its last message: what waits and what the message brings go out
/// first, and then the end, once.
pub proof fn last_message_ends_the_stream(
    state: DriverState,
    stream_id: u64,
    bytes: Seq<u8>,
    fin: bool,
)
    requires
        state.verified,
        state.quic.contains_key(stream_id),
        !state.unsent.contains_key(stream_id),
        !state.ending.contains(stream_id),
    ensures
        ({
            let after = state.after_message(stream_id, Message { bytes, fin });
            let waiting = state.quic[stream_id] + bytes;
            let drained = after.after_quic_sent(stream_id, waiting.len());
            &&& waiting.len() > 0 ==> after.next_write(stream_id) == WriteView::Quic(waiting)
            &&& drained.next_write(stream_id) == if fin {
                WriteView::End
            } else {
                WriteView::Nothing
            }
            &&& drained.after_write(stream_id) == drained
            &&& drained.after_end_sent(stream_id).next_write(stream_id) is Nothing
            &&& after.verified && after.h3 == state.h3 && after.unsent == state.unsent
        }),
{
    let waiting = state.quic[stream_id] + bytes;
    assert(waiting.subrange(waiting.len() as int, waiting.len() as int).len() == 0);
}

/// What is known after some answers came for an HTTP/3 stream.
pub open spec fn after_answers(
    state: DriverState,
    stream_id: u64,
    answers: Seq<H3Response>,
) -> DriverState
    decreases answers.len(),
{
    if answers.len() == 0 {
        state
    } else {
        after_answers(state, stream_id, answers.drop_last()).after_h3_answer(
            stream_id,
            Some(answers.last()),
        )
    }
}

proof fn lemma_answers_queue_up(state: DriverState, stream_id: u64, answers: Seq<H3Response>)
    requires
        state.h3.contains_key(stream_id),
        state.h3[stream_id].len() == 0,
    ensures
        ({
            let after = after_answers(state, stream_id, answers);
            &&& after.h3.contains_key(stream_id)
            &&& after.h3[stream_id] == answers
            &&& after.verified == state.verified
            &&& after.unsent == state.unsent
            &&& after.quic == state.quic
        }),
    decreases answers.len(),
{
    if answers.len() == 0 {
        assert(state.h3[stream_id] =~= answers);
    } else {
        lemma_answers_queue_up(state, stream_id, answers.drop_last());
        assert(answers.drop_last().push(answers.last()) =~= answers);
    }
}

/// As long as the client is not in, every answer that came for a request since it was read is
/// written, each once, the newest first, with what it says about letting the client in.
pub proof fn waiting_answers_are_written(
    state: DriverState,
    stream_id: u64,
    answers: Seq<H3Response>,
)
    requires
        !state.verified,
        !state.unsent.contains_key(stream_id),
        answers.len() > 0,
    ensures
        ({
            let after = after_answers(state.after_h3_event(stream_id), stream_id, answers);
            &&& after.next_write(stream_id) matches WriteView::H3(written)
            &&& written.len() == answers.len()
            &&& forall|i: int|
                0 <= i < answers.len() ==> #[trigger] written[i] == (
                    answers[answers.len() - 1 - i].auth_res,
                    frame_views(answers[answers.len() - 1 - i].response@),
                )
            &&& after.after_write(stream_id).next_write(stream_id) is Nothing
        }),
{
    lemma_answers_queue_up(state.after_h3_event(stream_id), stream_id, answers);
}

/// An answer to a request that was never read is dropped, and so are bytes for a stream without a
/// target and its end.
pub proof fn answers_for_unknown_streams_are_dropped(
    state: DriverState,
    stream_id: u64,
    response: Option<H3Response>,
    message: Message,
)
    ensures
        !state.h3.contains_key(stream_id) ==> state.after_h3_answer(stream_id, response) == state,
        !state.quic.contains_key(stream_id) ==> state.after_message(stream_id, message) == state,
{
}

/// The stream that a step is about.
pub open spec fn stream_of(step: DriverStep) -> Option<u64> {
    match step {
        DriverStep::Established | DriverStep::H3Sent(_) => None,
        DriverStep::H3Event(id) => Some(id),
        DriverStep::H3Answer(id, _) => Some(id),
        DriverStep::QuicAnswer(id, _) => Some(id),
        DriverStep::QuicRead(id, _) => Some(id),
        DriverStep::Write(id) => Some(id),
        DriverStep::Requeue(id, _) => Some(id),
        DriverStep::QuicSent(id, _) => Some(id),
        DriverStep::End(id) => Some(id),
        DriverStep::EndSent(id) => Some(id),
    }
}

/// Streams do not get in each other's way: what happens on one changes nothing on another,
/// neither what is written there nor what bytes mean there.
pub proof fn streams_are_apart(state: DriverState, step: DriverStep, other: u64, data: Seq<u8>)
    requires
        stream_of(step) matches Some(id) && id != other,
    ensures
        state.next(step).next_write(other) == state.next_write(other),
        state.next(step).meaning(other, data) == state.meaning(other, data),
        state.next(step).verified == state.verified,
        state.next(step).established == state.established,
{
}

/// Bytes and the end of a stream are there to be written until they have gone out; an answer is
/// handed out once.
pub proof fn writing_takes_answers_only(state: DriverState, stream_id: u64)
    ensures
        ({
            let after = state.after_write(stream_id);
            &&& !(state.next_write(stream_id) is H3) ==> after.next_write(stream_id)
                == state.next_write(stream_id)
            &&& after.verified == state.verified && after.established == state.established
            &&& after.quic == state.quic && after.ending == state.ending
            &&& after.unsent_on(stream_id).len() == 0
            &&& state.unsent.contains_key(stream_id) && state.unsent[stream_id].len() > 0
                ==> state.next_write(stream_id) == WriteView::H3(
                seq![(false, state.unsent[stream_id])],
            ) && after.h3 == state.h3
        }),
{
}

/// What is left of one frame: nothing of one that went out or that is not sent at all, all of one
/// that failed, and of a body that went out in part what follows that part.
pub proof fn what_is_left_of_one_frame(frame: FrameView, outcome: Result<usize, H3Error>)
    requires
        frame matches FrameView::Body(body, _) ==> (outcome matches Ok(sent) ==> sent
            <= body.len()),
    ensures
        ({
            let left = unsent_frames(seq![frame], seq![outcome]);
            &&& frame is Other ==> left.len() == 0
            &&& !(frame is Other) && outcome is Err ==> left == seq![frame]
            &&& frame is Headers && outcome is Ok ==> left.len() == 0
            &&& frame matches FrameView::Body(body, fin) ==> (outcome matches Ok(sent) ==> {
                let gone = body.subrange(0, sent as int);
                if left.len() == 0 {
                    gone == body
                } else {
                    &&& left.len() == 1
                    &&& left[0] matches FrameView::Body(rest, end)
                    &&& end == fin && rest.len() > 0 && gone + rest == body
                }
            })
        }),
{
    reveal_with_fuel(unsent_frames, 2);
    assert(seq![frame].drop_last() =~= Seq::<FrameView>::empty());
    assert(seq![outcome].drop_last() =~= Seq::<Result<usize, H3Error>>::empty());
    let left = unsent_frames(seq![frame], seq![outcome]);
    match unsent_frame(frame, outcome) {
        Some(f) => {
            assert(left =~= seq![f]);
        },
        None => {
            assert(left =~= Seq::<FrameView>::empty());
        },
    }
    if let FrameView::Body(body, fin) = frame {
        if let Ok(sent) = outcome {
            unsent_body_is_the_rest(body, fin, sent);
        }
    }
}

/// What is left of two runs of frames is what is left of the first and then what is left of the
/// second.
pub proof fn what_is_left_adds_up(
    frames: Seq<FrameView>,
    outcomes: Seq<Result<usize, H3Error>>,
    more: Seq<FrameView>,
    more_outcomes: Seq<Result<usize, H3Error>>,
)
    requires
        frames.len() == outcomes.len(),
        more.len() == more_outcomes.len(),
    ensures
        unsent_frames(frames + more, outcomes + more_outcomes) == unsent_frames(frames, outcomes)
            + unsent_frames(more, more_outcomes),
        frames.len() == 0 ==> unsent_frames(frames, outcomes).len() == 0,
    decreases more.len(),
{
    if more.len() == 0 {
        assert(frames + more =~= frames);
        assert(outcomes + more_outcomes =~= outcomes);
        assert(unsent_frames(frames, outcomes) + Seq::<FrameView>::empty() =~= unsent_frames(
            frames,
            outcomes,
        ));
    } else {
        what_is_left_adds_up(frames, outcomes, more.drop_last(), more_outcomes.drop_last());
        assert((frames + more).drop_last() =~= frames + more.drop_last());
        assert((outcomes + more_outcomes).drop_last() =~= outcomes + more_outcomes.drop_last());
        assert((frames + more).last() == more.last());
        assert((outcomes + more_outcomes).last() == more_outcomes.last());
        assert(unsent_frames(frames + more, outcomes + more_outcomes) =~= unsent_frames(
            frames,
            outcomes,
        ) + unsent_frames(more, more_outcomes));
    }
}

/// There is an HTTP/3 connection exactly where one was made.
pub proof fn only_a_connection_establishes(steps: Seq<DriverStep>)
    ensures
        DriverState::initial().run(steps).established == exists|i: int|
            0 <= i < steps.len() && #[trigger] steps[i] == DriverStep::Established,
    decreases steps.len(),
{
    if steps.len() > 0 {
        let prior = steps.drop_last();
        only_a_connection_establishes(prior);
        if DriverState::initial().run(prior).established {
            let i = choose|i: int|
                0 <= i < prior.len() && #[trigger] prior[i] == DriverStep::Established;
            assert(steps[i] == DriverStep::Established);
        }
        if steps.last() == DriverStep::Established {
            assert(steps[steps.len() - 1] == DriverStep::Established);
        }
        if exists|i: int| 0 <= i < steps.len() && #[trigger] steps[i] == DriverStep::Established {
            let i = choose|i: int|
                0 <= i < steps.len() && #[trigger] steps[i] == DriverStep::Established;
            if i < prior.len() {
                assert(prior[i] == DriverStep::Established);
            }
        }
    }
}

} // verus!
