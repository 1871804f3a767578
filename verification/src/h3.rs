//! HTTP/3 as the servers see it: headers, events, errors and the frames they answer with.

use vstd::prelude::*;
use vstd::slice::slice_to_vec;

verus! {

/// One HTTP/3 header field.
pub struct Header {
    pub name: Vec<u8>,
    pub value: Vec<u8>,
}

/// What a header field holds.
pub struct HeaderView {
    pub name: Seq<u8>,
    pub value: Seq<u8>,
}

impl View for Header {
    type V = HeaderView;

    open spec fn view(&self) -> HeaderView {
        HeaderView { name: self.name@, value: self.value@ }
    }
}

/// What the header fields of a list hold.
pub open spec fn header_views(headers: Seq<Header>) -> Seq<HeaderView> {
    headers.map_values(|h: Header| h@)
}

impl Header {
    /// A header field with the given name and value.
    pub fn new(name: &[u8], value: &[u8]) -> (header: Self)
        ensures
            header@ == (HeaderView { name: name@, value: value@ }),
    {
        Header { name: slice_to_vec(name), value: slice_to_vec(value) }
    }
}

/// A frame to send on a request stream.
pub enum OutboundFrame {
    /// Response headers.
    Headers(Vec<Header>),
    /// A piece of the body, and whether it is the last one.
    Body(Vec<u8>, bool),
    /// Any other kind of frame, which the servers do not send.
    Other,
}

/// What a frame holds.
pub enum FrameView {
    Headers(Seq<HeaderView>),
    Body(Seq<u8>, bool),
    Other,
}

impl View for OutboundFrame {
    type V = FrameView;

    open spec fn view(&self) -> FrameView {
        match self {
            OutboundFrame::Headers(headers) => FrameView::Headers(header_views(headers@)),
            OutboundFrame::Body(body, fin) => FrameView::Body(body@, *fin),
            OutboundFrame::Other => FrameView::Other,
        }
    }
}

/// What the frames of a list hold.
pub open spec fn frame_views(frames: Seq<OutboundFrame>) -> Seq<FrameView> {
    frames.map_values(|f: OutboundFrame| f@)
}

/// An event on an HTTP/3 connection.
pub enum H3Event {
    Headers(Vec<Header>),
    Data,
    Finished,
    Reset,
    PriorityUpdate,
    GoAway,
}

/// An error of an HTTP/3 connection, as far as the servers tell them apart.
#[derive(Clone, Copy, Debug, PartialEq, Eq, Structural)]
pub enum H3Error {
    /// There is nothing more to do for now.
    Done,
    /// The stream has no room for the frame yet.
    StreamBlocked,
    /// Any other error.
    Other,
}

/// Copies a list of header fields.
pub fn clone_headers(headers: &Vec<Header>) -> (copy: Vec<Header>)
    ensures
        header_views(copy@) == header_views(headers@),
{
    let mut copy: Vec<Header> = Vec::new();
    let mut i: usize = 0;
    while i < headers.len()
        invariant
            i <= headers@.len(),
            copy@.len() == i,
            forall|j: int| 0 <= j < i ==> (#[trigger] copy@[j])@ == headers@[j]@,
        decreases headers@.len() - i,
    {
        copy.push(Header::new(headers[i].name.as_slice(), headers[i].value.as_slice()));
        i = i + 1;
    }
    assert(header_views(copy@) =~= header_views(headers@));
    copy
}

/// What a list holds is what each of its parts holds, in order.
pub proof fn views_are_pointwise(headers: Seq<Header>, frames: Seq<OutboundFrame>)
    ensures
        header_views(headers).len() == headers.len(),
        forall|i: int|
            0 <= i < headers.len() ==> (#[trigger] header_views(headers)[i]).name
                == headers[i].name@ && header_views(headers)[i].value == headers[i].value@,
        frame_views(frames).len() == frames.len(),
        forall|i: int|
            0 <= i < frames.len() ==> #[trigger] frame_views(frames)[i] == match frames[i] {
                OutboundFrame::Headers(list) => FrameView::Headers(header_views(list@)),
                OutboundFrame::Body(body, fin) => FrameView::Body(body@, fin),
                OutboundFrame::Other => FrameView::Other,
            },
{
}

} // verus!
