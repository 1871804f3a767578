//! The proxy of one stream that gathers what it carries in buffers.

use crate::bytes_buf::{
    bytes_as_slice, bytes_mut_advance, bytes_mut_as_slice, bytes_mut_seq, bytes_seq,
};
use crate::remote::{IoErrorKind, ProxyPhase};
use bytes::{Bytes, BytesMut};
use vstd::prelude::*;

verus! {

/// How much the buffers have room for at first.
pub const BUFFER_SIZE: usize = 65535;

/// How much is read from the target at a time.
pub const READ_SIZE: usize = 8192;

/// Something that happens to a proxy.
pub enum TargetInput<'a> {
    /// Whether connecting to the target worked.
    Connect(bool),
    /// Payload that the client sends.
    Payload(Bytes),
    /// What came of writing to the target.
    Written(Result<usize, IoErrorKind>),
    /// What reading from the target gave.
    Read(Result<&'a [u8], IoErrorKind>),
}

/// What an input says.
pub enum TargetView {
    Connect(bool),
    Payload(Seq<u8>),
    Written(Result<usize, IoErrorKind>),
    Read(Result<Seq<u8>, IoErrorKind>),
}

impl<'a> View for TargetInput<'a> {
    type V = TargetView;

    open spec fn view(&self) -> TargetView {
        match self {
            TargetInput::Connect(connected) => TargetView::Connect(*connected),
            TargetInput::Payload(payload) => TargetView::Payload(bytes_seq(*payload)),
            TargetInput::Written(written) => TargetView::Written(*written),
            TargetInput::Read(Ok(data)) => TargetView::Read(Ok(data@)),
            TargetInput::Read(Err(kind)) => TargetView::Read(Err(*kind)),
        }
    }
}

/// What the proxy does next.
pub enum TargetAction {
    /// Wait for what happens next.
    Continue,
    /// Write what is pending to the target.
    Write,
    /// Send this to the client.
    Forward(Bytes),
    /// Shut the connection to the target down if the flag says so, and stop.
    Stop(bool),
}

/// What an action says.
pub enum TargetActionView {
    Continue,
    Write,
    Forward(Seq<u8>),
    Stop(bool),
}

impl View for TargetAction {
    type V = TargetActionView;

    open spec fn view(&self) -> TargetActionView {
        match self {
            TargetAction::Continue => TargetActionView::Continue,
            TargetAction::Write => TargetActionView::Write,
            TargetAction::Forward(bytes) => TargetActionView::Forward(bytes_seq(*bytes)),
            TargetAction::Stop(shutdown) => TargetActionView::Stop(*shutdown),
        }
    }
}

/// What is known of a proxy: how far it has got, what is pending for the target, and what has
/// come for the client.
#[verifier::ext_equal]
pub struct TargetState {
    pub phase: ProxyPhase,
    pub pending: Seq<u8>,
    pub gathered: Seq<u8>,
}

impl TargetState {
    /// A proxy that has not connected yet.
    pub open spec fn initial() -> Self {
        TargetState { phase: ProxyPhase::Idle, pending: Seq::empty(), gathered: Seq::empty() }
    }

    /// Whether an input can come now: something is written only where something is pending, and
    /// no more than that.
    pub open spec fn fits(self, input: TargetView) -> bool {
        match self.phase {
            ProxyPhase::Idle => input is Connect,
            ProxyPhase::Connected => match input {
                TargetView::Connect(_) => false,
                TargetView::Written(written) => self.pending.len() > 0 && (written matches Ok(n)
                    ==> n <= self.pending.len()),
                _ => true,
            },
            ProxyPhase::Stopped | ProxyPhase::Closed => false,
        }
    }

    /// What the proxy does about an input. What it forwards is all that has come so far.
    pub open spec fn action(self, input: TargetView) -> TargetActionView {
        match input {
            TargetView::Connect(true) => TargetActionView::Continue,
            TargetView::Connect(false) => TargetActionView::Stop(false),
            TargetView::Payload(payload) if self.pending.len() + payload.len() > 0 => {
                TargetActionView::Write
            },
            TargetView::Payload(_) => TargetActionView::Continue,
            TargetView::Written(Ok(n)) if n > 0 => TargetActionView::Continue,
            TargetView::Written(_) => TargetActionView::Stop(false),
            TargetView::Read(Ok(data)) if data.len() > 0 => TargetActionView::Forward(
                self.gathered + data,
            ),
            TargetView::Read(Ok(_)) => TargetActionView::Stop(true),
            TargetView::Read(Err(IoErrorKind::UnexpectedEof)) => TargetActionView::Stop(true),
            TargetView::Read(Err(_)) => TargetActionView::Continue,
        }
    }

    /// The state after an input. A proxy that could not write keeps its connection; one that
    /// could not connect has none, and one whose target is done gives it up.
    pub open spec fn next(self, input: TargetView) -> Self {
        TargetState {
            phase: match self.action(input) {
                TargetActionView::Stop(_) => if input is Written {
                    ProxyPhase::Stopped
                } else {
                    ProxyPhase::Closed
                },
                _ => ProxyPhase::Connected,
            },
            pending: match input {
                TargetView::Payload(payload) => self.pending + payload,
                TargetView::Written(Ok(n)) => self.pending.subrange(
                    n as int,
                    self.pending.len() as int,
                ),
                _ => self.pending,
            },
            gathered: match input {
                TargetView::Read(Ok(data)) => self.gathered + data,
                _ => self.gathered,
            },
        }
    }
}

/// The proxy of one stream.
pub struct ProxyManager {
    url: String,
    phase: ProxyPhase,
    read_buffer: BytesMut,
    write_buffer: BytesMut,
}

impl View for ProxyManager {
    type V = TargetState;

    closed spec fn view(&self) -> TargetState {
        TargetState {
            phase: self.phase,
            pending: bytes_mut_seq(self.read_buffer),
            gathered: bytes_mut_seq(self.write_buffer),
        }
    }
}

impl ProxyManager {
    /// The address of the target.
    pub closed spec fn target(&self) -> Seq<char> {
        self.url@
    }

    /// A proxy to the target at this address.
    pub fn new(server_addr: String) -> (proxy: Self)
        ensures
            proxy@ == TargetState::initial(),
            proxy.target() == server_addr@,
    {
        ProxyManager {
            url: server_addr,
            phase: ProxyPhase::Idle,
            read_buffer: BytesMut::with_capacity(BUFFER_SIZE),
            write_buffer: BytesMut::with_capacity(BUFFER_SIZE),
        }
    }

    /// The address to connect to.
    pub fn url(&self) -> (url: &str)
        ensures
            url@ == self.target(),
    {
        self.url.as_str()
    }

    /// What is to be written to the target.
    pub fn pending(&self) -> (data: &[u8])
        ensures
            data@ == self@.pending,
    {
        bytes_mut_as_slice(&self.read_buffer)
    }

    /// How much has come for the client.
    pub fn gathered_len(&self) -> (n: usize)
        ensures
            n == self@.gathered.len(),
    {
        self.write_buffer.len()
    }

    /// Takes the next input, and says what to do about it.
    pub fn start(&mut self, input: TargetInput) -> (action: TargetAction)
        requires
            old(self)@.fits(input@),
            old(self)@.next(input@).pending.len() <= isize::MAX,
            old(self)@.next(input@).gathered.len() <= isize::MAX,
        ensures
            final(self)@ == old(self)@.next(input@),
            final(self).target() == old(self).target(),
            action@ == old(self)@.action(input@),
            input matches TargetInput::Payload(payload) ==> {
                &&& final(self)@.pending == old(self)@.pending + bytes_seq(payload)
                &&& bytes_seq(payload).len() > 0 ==> action is Write
            },
            input matches TargetInput::Read(Ok(data)) ==> data@.len() > 0 ==> {
                &&& action matches TargetAction::Forward(bytes)
                &&& bytes_seq(bytes) == old(self)@.gathered + data@
            },
            input matches TargetInput::Written(Ok(n)) ==> {
                &&& n > 0 <==> action is Continue
                &&& final(self)@.pending == old(self)@.pending.subrange(
                    n as int,
                    old(self)@.pending.len() as int,
                )
            },
            input matches TargetInput::Written(Err(_)) ==> action is Stop,
            input matches TargetInput::Read(Err(kind)) ==> (kind != IoErrorKind::UnexpectedEof
                <==> action is Continue),
            input matches TargetInput::Connect(connected) ==> (connected <==> action is Continue),
    {
        match input {
            TargetInput::Connect(connected) => {
                if !connected {
                    self.phase = ProxyPhase::Closed;
                    return TargetAction::Stop(false);
                }
                self.phase = ProxyPhase::Connected;
                TargetAction::Continue
            },
            TargetInput::Payload(payload) => {
                self.read_buffer.extend_from_slice(bytes_as_slice(&payload));
                if self.read_buffer.is_empty() {
                    TargetAction::Continue
                } else {
                    TargetAction::Write
                }
            },
            TargetInput::Written(written) => match self.send_to_target(written) {
                Ok(_) => TargetAction::Continue,
                Err(_) => {
                    self.phase = ProxyPhase::Stopped;
                    assert(self@ =~= old(self)@.next(input@));
                    TargetAction::Stop(false)
                },
            },
            TargetInput::Read(read) => match self.recv(read) {
                Ok(_) => match self.send_to_channel() {
                    Some(bytes) => TargetAction::Forward(bytes),
                    None => TargetAction::Continue,
                },
                Err(IoErrorKind::UnexpectedEof) => {
                    self.phase = ProxyPhase::Closed;
                    assert(self@ =~= old(self)@.next(input@));
                    TargetAction::Stop(true)
                },
                Err(_) => TargetAction::Continue,
            },
        }
    }

    /// Takes what reading from the target gave, and adds it to what has come for the client.
    /// Reading nothing means that the target has closed the connection.
    pub fn recv(&mut self, read: Result<&[u8], IoErrorKind>) -> (received: Result<(), IoErrorKind>)
        requires
            read matches Ok(data) ==> old(self)@.gathered.len() + data@.len() <= isize::MAX,
        ensures
            final(self).target() == old(self).target(),
            if !old(self)@.phase.has_stream() {
                &&& received == Err::<(), _>(IoErrorKind::NotConnected)
                &&& final(self)@ == old(self)@
            } else {
                match read {
                    Ok(data) if data@.len() > 0 => {
                        &&& received is Ok
                        &&& final(self)@ == (TargetState {
                            gathered: old(self)@.gathered + data@,
                            ..old(self)@
                        })
                    },
                    Ok(_) => {
                        &&& received == Err::<(), _>(IoErrorKind::UnexpectedEof)
                        &&& final(self)@ == old(self)@
                    },
                    Err(kind) => {
                        &&& received == Err::<(), _>(kind)
                        &&& final(self)@ == old(self)@
                    },
                }
            },
    {
        if !self.phase.is_open() {
            return Err(IoErrorKind::NotConnected);
        }
        match read {
            Ok(data) => {
                if data.len() > 0 {
                    self.write_buffer.extend_from_slice(data);
                    Ok(())
                } else {
                    Err(IoErrorKind::UnexpectedEof)
                }
            },
            Err(kind) => Err(kind),
        }
    }

    /// Takes what came of writing what is pending to the target, and drops what went out.
    /// Writing nothing means that the target has closed the connection. Without a connection, or
    /// with nothing pending, there is nothing to write and nothing to take.
    pub fn send_to_target(&mut self, written: Result<usize, IoErrorKind>) -> (sent: Result<
        (),
        IoErrorKind,
    >)
        requires
            written matches Ok(n) ==> n <= old(self)@.pending.len(),
        ensures
            final(self).target() == old(self).target(),
            if !old(self)@.phase.has_stream() || old(self)@.pending.len() == 0 {
                &&& sent is Ok
                &&& final(self)@ == old(self)@
            } else {
                match written {
                    Ok(n) if n > 0 => {
                        &&& sent is Ok
                        &&& final(self)@ == (TargetState {
                            pending: old(self)@.pending.subrange(
                                n as int,
                                old(self)@.pending.len() as int,
                            ),
                            ..old(self)@
                        })
                    },
                    Ok(_) => {
                        &&& sent == Err::<(), _>(IoErrorKind::UnexpectedEof)
                        &&& final(self)@ == old(self)@
                    },
                    Err(kind) => {
                        &&& sent == Err::<(), _>(kind)
                        &&& final(self)@ == old(self)@
                    },
                }
            },
    {
        if !self.phase.is_open() || self.read_buffer.is_empty() {
            return Ok(());
        }
        match written {
            Ok(0) => Err(IoErrorKind::UnexpectedEof),
            Ok(n) => {
                bytes_mut_advance(&mut self.read_buffer, n);
                Ok(())
            },
            Err(kind) => Err(kind),
        }
    }

    /// A copy of all that has come for the client, where there is a connection and something has
    /// come.
    pub fn send_to_channel(&self) -> (bytes: Option<Bytes>)
        ensures
            match bytes {
                Some(b) => {
                    &&& self@.phase.has_stream()
                    &&& self@.gathered.len() > 0
                    &&& bytes_seq(b) == self@.gathered
                },
                None => !self@.phase.has_stream() || self@.gathered.len() == 0,
            },
    {
        if self.phase.is_open() && !self.write_buffer.is_empty() {
            Some(Bytes::copy_from_slice(bytes_mut_as_slice(&self.write_buffer)))
        } else {
            None
        }
    }
}

/// What has become of a proxy: its state, the payload that it has taken, what of it has been
/// written, what it has read, and the messages that it has sent to the client.
pub struct TargetHistory {
    pub state: TargetState,
    pub payload: Seq<u8>,
    pub written: Seq<u8>,
    pub received: Seq<u8>,
    pub messages: Seq<Seq<u8>>,
}

/// What becomes of a proxy through some inputs. An input that the state has no room for does not
/// come about.
pub open spec fn target_history(inputs: Seq<TargetView>) -> TargetHistory
    decreases inputs.len(),
{
    if inputs.len() == 0 {
        TargetHistory {
            state: TargetState::initial(),
            payload: Seq::empty(),
            written: Seq::empty(),
            received: Seq::empty(),
            messages: Seq::empty(),
        }
    } else {
        let before = target_history(inputs.drop_last());
        let input = inputs.last();
        if before.state.fits(input) {
            TargetHistory {
                state: before.state.next(input),
                payload: match input {
                    TargetView::Payload(payload) => before.payload + payload,
                    _ => before.payload,
                },
                written: match input {
                    TargetView::Written(Ok(n)) => before.written + before.state.pending.subrange(
                        0,
                        n as int,
                    ),
                    _ => before.written,
                },
                received: match input {
                    TargetView::Read(Ok(data)) => before.received + data,
                    _ => before.received,
                },
                messages: match before.state.action(input) {
                    TargetActionView::Forward(bytes) => before.messages.push(bytes),
                    _ => before.messages,
                },
            }
        } else {
            before
        }
    }
}

/// The payload of a client reaches the target in order and without a gap: what is written and
/// what is pending make up what the client has sent.
pub proof fn payload_reaches_the_target_in_order(inputs: Seq<TargetView>)
    ensures
        ({
            let history = target_history(inputs);
            history.written + history.state.pending == history.payload
        }),
    decreases inputs.len(),
{
    if inputs.len() > 0 {
        payload_reaches_the_target_in_order(inputs.drop_last());
        let before = target_history(inputs.drop_last());
        let after = target_history(inputs);
        match inputs.last() {
            TargetView::Written(Ok(n)) if before.state.fits(inputs.last()) => {
                assert(after.written + after.state.pending =~= before.written
                    + before.state.pending);
            },
            TargetView::Payload(payload) => {
                assert(after.written + after.state.pending =~= after.payload);
            },
            _ => {},
        }
    }
}

/// Every message to the client holds all that the target has sent until then: each is a prefix
/// of what has come, and the last one is all of it.
pub proof fn messages_hold_all_that_has_come(inputs: Seq<TargetView>)
    ensures
        ({
            let history = target_history(inputs);
            &&& history.state.gathered == history.received
            &&& forall|i: int|
                0 <= i < history.messages.len() ==> (
                #[trigger] history.messages[i]).is_prefix_of(history.received)
            &&& history.messages.len() > 0 ==> history.messages.last() == history.received
            &&& history.messages.len() == 0 ==> history.received.len() == 0
        }),
    decreases inputs.len(),
{
    if inputs.len() > 0 {
        messages_hold_all_that_has_come(inputs.drop_last());
        let before = target_history(inputs.drop_last());
        let after = target_history(inputs);
        match inputs.last() {
            TargetView::Read(Ok(data)) if before.state.fits(inputs.last()) => {
                assert forall|i: int| 0 <= i < after.messages.len() implies (
                #[trigger] after.messages[i]).is_prefix_of(after.received) by {
                    if i < before.messages.len() {
                        let message = before.messages[i];
                        assert(message.is_prefix_of(before.received));
                        assert(message =~= after.received.subrange(0, message.len() as int));
                    } else {
                        assert(after.messages[i] =~= after.received.subrange(
                            0,
                            after.received.len() as int,
                        ));
                    }
                }
                if data.len() == 0 {
                    assert(after.received =~= before.received);
                }
            },
            _ => {},
        }
    }
}

/// A proxy goes on until it cannot connect, cannot write, or the target is done; nothing else
/// stops it, and it shuts the connection down only where the target is done. Whenever payload
/// comes and something is pending, it asks to have it written; whenever bytes come, it forwards.
pub proof fn target_proxy_stops_only_with_a_reason(state: TargetState, input: TargetView)
    requires
        state.fits(input),
    ensures
        ({
            let action = state.action(input);
            let next = state.next(input);
            let goes_on = match input {
                TargetView::Connect(connected) => connected,
                TargetView::Payload(_) => true,
                TargetView::Written(Ok(n)) => n > 0,
                TargetView::Written(Err(_)) => false,
                TargetView::Read(Ok(data)) => data.len() > 0,
                TargetView::Read(Err(kind)) => kind != IoErrorKind::UnexpectedEof,
            };
            &&& goes_on <==> !(action is Stop)
            &&& goes_on <==> next.phase == ProxyPhase::Connected
            &&& action matches TargetActionView::Stop(shutdown) ==> {
                &&& shutdown == (input is Read)
                &&& input is Written ==> next.phase == ProxyPhase::Stopped
                &&& !(input is Written) ==> next.phase == ProxyPhase::Closed
            }
            &&& action is Write <==> (input is Payload && next.pending.len() > 0)
            &&& action is Forward <==> (input is Read && goes_on && input->Read_0 is Ok)
            &&& action matches TargetActionView::Forward(bytes) ==> bytes == next.gathered
        }),
{
}

} // verus!
