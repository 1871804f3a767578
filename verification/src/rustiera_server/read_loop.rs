//! The order of work of the packet server, from one packet to the next.

use crate::remote::IoErrorKind;
use crate::rustiera_server::route::PacketRoute;
use vstd::prelude::*;

verus! {

/// What the server does next.
#[derive(Clone, Copy, Debug, PartialEq, Eq, Structural)]
pub enum ReadStage {
    /// Tell every connection that time is up, and wait for something to happen.
    Expire,
    /// Take the next packet off the socket.
    Receive,
    /// Parse the header of the packet.
    Parse,
    /// Find out whom the packet belongs to.
    Route,
    /// Send the answer that the route asks for.
    Reply,
    /// Accept a connection.
    Accept,
    /// Hand the packet to the connection that it belongs to.
    Deliver,
    /// Put HTTP/3 on top of the connection.
    OpenH3,
    /// Send what waits on the streams of the connection, and answer its requests.
    Serve,
    /// Send what the connections have to send.
    Flush,
    /// Wait for something to happen.
    Wait,
    /// Give up.
    Fail,
}

/// What came of the last thing that the server did.
pub enum ReadEvent<'a> {
    /// Something happened on the socket, or nothing did until time was up.
    Polled(bool),
    /// What came of taking a packet off the socket.
    Received(Result<(), IoErrorKind>),
    /// Whether the header of the packet could be parsed.
    Parsed(bool),
    /// Whom the packet belongs to.
    Routed(&'a PacketRoute),
    /// What came of sending the answer that the route asked for.
    Replied(Result<(), IoErrorKind>),
    /// The connection was accepted.
    Accepted,
    /// The connection took the packet. Whether HTTP/3 is to be put on top of it, and whether it
    /// is there already.
    Delivered(bool, bool),
    /// The connection did not take the packet.
    Undelivered,
    /// Whether HTTP/3 could be put on top of the connection.
    OpenedH3(bool),
    /// The connection has been served.
    Served,
    /// The connections have been given a chance to send.
    Flushed,
}

/// The stage that follows an event. A packet that leads nowhere is dropped for the next one;
/// reading ends when the socket has no packet to give or no room for an answer; any other error
/// of the socket is the end.
pub open spec fn stage_after(event: ReadEvent) -> ReadStage {
    match event {
        ReadEvent::Polled(true) => ReadStage::Receive,
        ReadEvent::Polled(false) => ReadStage::Expire,
        ReadEvent::Received(Ok(_)) => ReadStage::Parse,
        ReadEvent::Received(Err(IoErrorKind::WouldBlock)) => ReadStage::Wait,
        ReadEvent::Received(Err(_)) => ReadStage::Fail,
        ReadEvent::Parsed(true) => ReadStage::Route,
        ReadEvent::Parsed(false) => ReadStage::Receive,
        ReadEvent::Routed(route) => match *route {
            PacketRoute::Existing(_) => ReadStage::Deliver,
            PacketRoute::NotInitial => ReadStage::Receive,
            PacketRoute::InvalidToken => ReadStage::Receive,
            PacketRoute::Negotiate => ReadStage::Reply,
            PacketRoute::Retry(_, _) => ReadStage::Reply,
            PacketRoute::Accept(_, _) => ReadStage::Accept,
        },
        ReadEvent::Replied(Ok(_)) => ReadStage::Receive,
        ReadEvent::Replied(Err(IoErrorKind::WouldBlock)) => ReadStage::Wait,
        ReadEvent::Replied(Err(_)) => ReadStage::Fail,
        ReadEvent::Accepted => ReadStage::Deliver,
        ReadEvent::Delivered(true, _) => ReadStage::OpenH3,
        ReadEvent::Delivered(false, true) => ReadStage::Serve,
        ReadEvent::Delivered(false, false) => ReadStage::Flush,
        ReadEvent::Undelivered => ReadStage::Receive,
        ReadEvent::OpenedH3(true) => ReadStage::Serve,
        ReadEvent::OpenedH3(false) => ReadStage::Receive,
        ReadEvent::Served => ReadStage::Flush,
        ReadEvent::Flushed => ReadStage::Receive,
    }
}

/// Finds the stage that follows an event.
pub fn next_stage(event: ReadEvent) -> (stage: ReadStage)
    ensures
        stage == stage_after(event),
{
    match event {
        ReadEvent::Polled(happened) => {
            if happened {
                ReadStage::Receive
            } else {
                ReadStage::Expire
            }
        },
        ReadEvent::Received(outcome) => match outcome {
            Ok(_) => ReadStage::Parse,
            Err(IoErrorKind::WouldBlock) => ReadStage::Wait,
            Err(_) => ReadStage::Fail,
        },
        ReadEvent::Parsed(parsed) => {
            if parsed {
                ReadStage::Route
            } else {
                ReadStage::Receive
            }
        },
        ReadEvent::Routed(route) => match route {
            PacketRoute::Existing(_) => ReadStage::Deliver,
            PacketRoute::Accept(_, _) => ReadStage::Accept,
            PacketRoute::Negotiate | PacketRoute::Retry(_, _) => ReadStage::Reply,
            PacketRoute::NotInitial | PacketRoute::InvalidToken => ReadStage::Receive,
        },
        ReadEvent::Replied(outcome) => match outcome {
            Ok(_) => ReadStage::Receive,
            Err(IoErrorKind::WouldBlock) => ReadStage::Wait,
            Err(_) => ReadStage::Fail,
        },
        ReadEvent::Accepted => ReadStage::Deliver,
        ReadEvent::Delivered(open_h3, has_h3) => {
            if open_h3 {
                ReadStage::OpenH3
            } else if has_h3 {
                ReadStage::Serve
            } else {
                ReadStage::Flush
            }
        },
        ReadEvent::Undelivered => ReadStage::Receive,
        ReadEvent::OpenedH3(opened) => {
            if opened {
                ReadStage::Serve
            } else {
                ReadStage::Receive
            }
        },
        ReadEvent::Served => ReadStage::Flush,
        ReadEvent::Flushed => ReadStage::Receive,
    }
}

/// What to do about what a connection gave when it was asked for a packet to send.
#[derive(Clone, Copy, Debug, PartialEq, Eq, Structural)]
pub enum FlushStage {
    /// Send the packet on the socket.
    Send,
    /// Ask the same connection again.
    Again,
    /// Go on to the next connection.
    Next,
    /// Close the connection, and go on to the next one.
    Close,
    /// Give up.
    Fail,
}

/// What a connection gave when it was asked for a packet to send, or what came of sending it.
pub enum FlushEvent {
    /// A packet.
    Packet,
    /// It has no packet to send.
    Done,
    /// It failed.
    Failed,
    /// What came of sending the packet on the socket.
    Sent(Result<(), IoErrorKind>),
}

/// Decides what to do next for a connection that may have packets to send.
pub fn flush_stage(event: FlushEvent) -> (stage: FlushStage)
    ensures
        stage == match event {
            FlushEvent::Packet => FlushStage::Send,
            FlushEvent::Done => FlushStage::Next,
            FlushEvent::Failed => FlushStage::Close,
            FlushEvent::Sent(Ok(_)) => FlushStage::Again,
            FlushEvent::Sent(Err(IoErrorKind::WouldBlock)) => FlushStage::Next,
            FlushEvent::Sent(Err(_)) => FlushStage::Fail,
        },
{
    match event {
        FlushEvent::Packet => FlushStage::Send,
        FlushEvent::Done => FlushStage::Next,
        FlushEvent::Failed => FlushStage::Close,
        FlushEvent::Sent(outcome) => match outcome {
            Ok(_) => FlushStage::Again,
            Err(IoErrorKind::WouldBlock) => FlushStage::Next,
            Err(_) => FlushStage::Fail,
        },
    }
}

/// The stages lead to giving up only over an error of the socket, and not over one that says
/// that it would block.
pub proof fn only_socket_errors_end_the_work(event: ReadEvent)
    requires
        stage_after(event) == ReadStage::Fail,
    ensures
        match event {
            ReadEvent::Received(Err(kind)) => kind != IoErrorKind::WouldBlock,
            ReadEvent::Replied(Err(kind)) => kind != IoErrorKind::WouldBlock,
            _ => false,
        },
{
}

/// Whatever a packet is routed to, the work goes on accordingly: to its client, to a new
/// connection, to an answer, or to the next packet.
pub proof fn routes_are_followed(route: &PacketRoute)
    ensures
        (route is Existing) <==> stage_after(ReadEvent::Routed(route)) == ReadStage::Deliver,
        (route is Accept) <==> stage_after(ReadEvent::Routed(route)) == ReadStage::Accept,
        (route is Retry || route is Negotiate) <==> stage_after(ReadEvent::Routed(route))
            == ReadStage::Reply,
        (route is NotInitial || route is InvalidToken) <==> stage_after(ReadEvent::Routed(route))
            == ReadStage::Receive,
{
}

/// A packet that its connection takes is followed by serving the connection where HTTP/3 is or
/// can be put on top of it, and in any case by sending what there is to send.
pub proof fn delivered_packets_are_served(open_h3: bool, has_h3: bool)
    ensures
        ({
            let delivered = stage_after(ReadEvent::Delivered(open_h3, has_h3));
            &&& open_h3 ==> delivered == ReadStage::OpenH3 && stage_after(
                ReadEvent::OpenedH3(true),
            ) == ReadStage::Serve
            &&& !open_h3 && has_h3 ==> delivered == ReadStage::Serve
            &&& !open_h3 && !has_h3 ==> delivered == ReadStage::Flush
            &&& stage_after(ReadEvent::Served) == ReadStage::Flush
            &&& stage_after(ReadEvent::Flushed) == ReadStage::Receive
        }),
{
}

/// Reading goes on until the socket would block, and a packet that was read is parsed and routed.
pub proof fn reading_goes_on(outcome: Result<(), IoErrorKind>)
    ensures
        outcome is Ok ==> stage_after(ReadEvent::Received(outcome)) == ReadStage::Parse
            && stage_after(ReadEvent::Parsed(true)) == ReadStage::Route && stage_after(
            ReadEvent::Replied(outcome),
        ) == ReadStage::Receive,
        outcome == Err::<(), _>(IoErrorKind::WouldBlock) <==> stage_after(
            ReadEvent::Received(outcome),
        ) == ReadStage::Wait,
        outcome == Err::<(), _>(IoErrorKind::WouldBlock) <==> stage_after(
            ReadEvent::Replied(outcome),
        ) == ReadStage::Wait,
        stage_after(ReadEvent::Polled(true)) == ReadStage::Receive,
        stage_after(ReadEvent::Polled(false)) == ReadStage::Expire,
        stage_after(ReadEvent::Parsed(false)) == ReadStage::Receive,
        stage_after(ReadEvent::Undelivered) == ReadStage::Receive,
        stage_after(ReadEvent::Accepted) == ReadStage::Deliver,
{
}

} // verus!
