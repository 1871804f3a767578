//! Streams that wait for an answer, and the answers that reach them.
//!
//! The type parameters stand for the receiving ends of the channels that the answers come
//! through, `H` for those of HTTP/3 streams and `Q` for those of proxied streams, and `R` for what
//! comes through the latter.

use crate::bytes_buf::bytes_seq;
use crate::h3::OutboundFrame;
use bytes::Bytes;
use vstd::prelude::*;

verus! {

/// The answer to an HTTP/3 request, and whether it lets the client in.
pub struct H3Response {
    pub auth_res: bool,
    pub response: Vec<OutboundFrame>,
}

/// Bytes for the client, and whether they are the last ones.
pub struct HysResponse {
    pub bytes: Bytes,
    pub fin: bool,
}

/// What an answer for the client holds: its bytes, and whether they are the last ones.
pub struct Message {
    pub bytes: Seq<u8>,
    pub fin: bool,
}

impl View for HysResponse {
    type V = Message;

    open spec fn view(&self) -> Message {
        Message { bytes: bytes_seq(self.bytes), fin: self.fin }
    }
}

/// A stream that waits for an answer.
pub enum WaitForStream<H, Q> {
    H3Stream(WaitForH3Stream<H>),
    QuicStream(WaitForQuicStream<Q>),
}

/// A stream whose answer has come.
pub enum StreamReady<H, Q, R> {
    H3Stream(ReceivedH3Stream<H>),
    QuicStream(ReceivedQuicStream<Q, R>),
}

/// An HTTP/3 stream that waits for an answer. The channel is gone once the answer has come.
pub struct WaitForH3Stream<H> {
    pub stream_id: u64,
    pub chan: Option<H>,
}

/// A proxied stream that waits for an answer. The channel is gone once the answer has come.
pub struct WaitForQuicStream<Q> {
    pub stream_id: u64,
    pub chan: Option<Q>,
}

/// What came through the channel of an HTTP/3 stream; nothing where the channel has ended.
pub struct ReceivedH3Stream<H> {
    pub stream_id: u64,
    pub chan: H,
    pub response: Option<H3Response>,
}

/// What came through the channel of a proxied stream; nothing where the channel has ended.
pub struct ReceivedQuicStream<Q, R> {
    pub stream_id: u64,
    pub chan: Q,
    pub response: Option<R>,
}

impl<H> WaitForH3Stream<H> {
    /// Takes what polling the channel gave: nothing yet, or what came through it.
    pub fn poll(&mut self, polled: Option<Option<H3Response>>) -> (ready: Option<
        ReceivedH3Stream<H>,
    >)
        requires
            old(self).chan is Some,
        ensures
            final(self).stream_id == old(self).stream_id,
            match polled {
                Some(response) => ready == Some(
                    ReceivedH3Stream {
                        stream_id: old(self).stream_id,
                        chan: old(self).chan->0,
                        response,
                    },
                ) && final(self).chan is None,
                None => ready is None && final(self).chan == old(self).chan,
            },
    {
        match polled {
            Some(response) => {
                let stream_id = self.stream_id;
                let chan = self.chan.take().unwrap();
                Some(ReceivedH3Stream { stream_id, chan, response })
            },
            None => None,
        }
    }
}

impl<Q> WaitForQuicStream<Q> {
    /// Takes what polling the channel gave: nothing yet, or what came through it.
    pub fn poll<R>(&mut self, polled: Option<Option<R>>) -> (ready: Option<
        ReceivedQuicStream<Q, R>,
    >)
        requires
            old(self).chan is Some,
        ensures
            final(self).stream_id == old(self).stream_id,
            match polled {
                Some(response) => ready == Some(
                    ReceivedQuicStream {
                        stream_id: old(self).stream_id,
                        chan: old(self).chan->0,
                        response,
                    },
                ) && final(self).chan is None,
                None => ready is None && final(self).chan == old(self).chan,
            },
    {
        match polled {
            Some(response) => {
                let stream_id = self.stream_id;
                let chan = self.chan.take().unwrap();
                Some(ReceivedQuicStream { stream_id, chan, response })
            },
            None => None,
        }
    }
}

} // verus!
