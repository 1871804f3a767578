//! The proxy of one stream: what goes to the remote, and what comes back from it.

use crate::bytes_buf::{bytes_mut_seq, bytes_seq};
use crate::remote::{IoErrorKind, ProxyPhase};
use crate::stream::{HysResponse, Message};
use bytes::{Bytes, BytesMut};
use vstd::prelude::*;

verus! {

/// How much the buffer for what the remote sends has room for.
pub const WRITE_BUFFER_SIZE: usize = 5 * 65536;

/// Something that happens to a proxy.
pub enum ProxyInput<'a> {
    /// Whether connecting to the remote worked.
    Connect(bool),
    /// Payload that the client sends.
    Payload(Bytes),
    /// What came of writing that payload to the remote.
    Written(Result<usize, IoErrorKind>),
    /// What reading from the remote gave.
    Read(Result<&'a [u8], IoErrorKind>),
}

/// What an input says.
pub enum InputView {
    Connect(bool),
    Payload(Seq<u8>),
    Written(Result<usize, IoErrorKind>),
    Read(Result<Seq<u8>, IoErrorKind>),
}

impl<'a> View for ProxyInput<'a> {
    type V = InputView;

    open spec fn view(&self) -> InputView {
        match self {
            ProxyInput::Connect(connected) => InputView::Connect(*connected),
            ProxyInput::Payload(payload) => InputView::Payload(bytes_seq(*payload)),
            ProxyInput::Written(written) => InputView::Written(*written),
            ProxyInput::Read(Ok(data)) => InputView::Read(Ok(data@)),
            ProxyInput::Read(Err(kind)) => InputView::Read(Err(*kind)),
        }
    }
}

/// What the proxy does next.
pub enum ProxyAction {
    /// Wait for what happens next.
    Continue,
    /// Write this to the remote.
    Write(Bytes),
    /// Send this to the client.
    Forward(HysResponse),
    /// Shut the connection to the remote down if the flag says so, send this to the client, and
    /// stop.
    Stop(bool, HysResponse),
}

/// The message that ends a stream.
pub open spec fn fin_message() -> Message {
    Message { bytes: Seq::empty(), fin: true }
}

/// What an action says.
pub enum ActionView {
    Continue,
    Write(Seq<u8>),
    Forward(Message),
    Stop(bool, Message),
}

impl View for ProxyAction {
    type V = ActionView;

    open spec fn view(&self) -> ActionView {
        match self {
            ProxyAction::Continue => ActionView::Continue,
            ProxyAction::Write(payload) => ActionView::Write(bytes_seq(*payload)),
            ProxyAction::Forward(message) => ActionView::Forward(message@),
            ProxyAction::Stop(shutdown, message) => ActionView::Stop(*shutdown, message@),
        }
    }
}

/// What a proxy does about an input in the phase that the input belongs to.
pub open spec fn proxy_action(input: InputView) -> ActionView {
    match input {
        InputView::Connect(true) => ActionView::Continue,
        InputView::Connect(false) => ActionView::Stop(false, fin_message()),
        InputView::Payload(payload) => ActionView::Write(payload),
        InputView::Written(Ok(n)) if n > 0 => ActionView::Continue,
        InputView::Written(_) => ActionView::Stop(false, fin_message()),
        InputView::Read(Ok(data)) if data.len() > 0 => ActionView::Forward(
            Message { bytes: data, fin: false },
        ),
        InputView::Read(Ok(_)) => ActionView::Stop(true, fin_message()),
        InputView::Read(Err(IoErrorKind::UnexpectedEof)) => ActionView::Stop(true, fin_message()),
        InputView::Read(Err(_)) => ActionView::Continue,
    }
}

/// The phase after an input. A proxy that could not connect is where it was, and may try again;
/// one that could not write keeps its connection; one whose remote is done gives it up.
pub open spec fn next_phase(phase: ProxyPhase, input: InputView) -> ProxyPhase {
    match proxy_action(input) {
        ActionView::Stop(shutdown, _) => if input is Connect {
            phase
        } else if shutdown {
            ProxyPhase::Closed
        } else {
            ProxyPhase::Stopped
        },
        _ => ProxyPhase::Connected,
    }
}

/// What is known of a proxy: how far it has got, and the length of the payload that is being
/// written, while one is.
pub struct ProxyState {
    pub phase: ProxyPhase,
    pub writing: Option<nat>,
}

impl ProxyState {
    /// A proxy that has not connected yet.
    pub open spec fn initial() -> Self {
        ProxyState { phase: ProxyPhase::Idle, writing: None }
    }

    /// Whether an input can come now. While payload is written, nothing comes but what becomes of
    /// that, and no more is written than there is. A proxy that has stopped can at most fail to
    /// connect again.
    pub open spec fn fits(self, input: InputView) -> bool {
        match self.phase {
            ProxyPhase::Idle => input is Connect,
            ProxyPhase::Connected => match self.writing {
                Some(len) => input matches InputView::Written(written) && (written matches Ok(n)
                    ==> n <= len),
                None => input is Payload || input is Read,
            },
            ProxyPhase::Stopped | ProxyPhase::Closed => input == InputView::Connect(false),
        }
    }

    /// The state after an input.
    pub open spec fn next(self, input: InputView) -> Self {
        ProxyState {
            phase: next_phase(self.phase, input),
            writing: match input {
                InputView::Payload(payload) => Some(payload.len()),
                InputView::Written(_) => None,
                _ => self.writing,
            },
        }
    }
}

/// What comes of taking what reading from the remote gave: the bytes, where there is a
/// connection and there are any.
pub open spec fn recv_result(phase: ProxyPhase, read: Result<Seq<u8>, IoErrorKind>) -> Result<
    Seq<u8>,
    IoErrorKind,
> {
    if !phase.has_stream() {
        Err(IoErrorKind::NotConnected)
    } else {
        match read {
            Ok(data) if data.len() > 0 => Ok(data),
            Ok(_) => Err(IoErrorKind::UnexpectedEof),
            Err(kind) => Err(kind),
        }
    }
}

/// What a read gave.
pub open spec fn read_view(read: Result<&[u8], IoErrorKind>) -> Result<Seq<u8>, IoErrorKind> {
    match read {
        Ok(data) => Ok(data@),
        Err(kind) => Err(kind),
    }
}

/// The proxy of one stream.
pub struct ProxyManager {
    url: String,
    phase: ProxyPhase,
    writing: Option<usize>,
    write_buffer: BytesMut,
}

impl View for ProxyManager {
    type V = ProxyState;

    closed spec fn view(&self) -> ProxyState {
        ProxyState {
            phase: self.phase,
            writing: match self.writing {
                Some(len) => Some(len as nat),
                None => None,
            },
        }
    }
}

impl ProxyManager {
    /// The address of the remote.
    pub closed spec fn remote(&self) -> Seq<char> {
        self.url@
    }

    /// Nothing stays in the buffer.
    pub closed spec fn well_formed(&self) -> bool {
        bytes_mut_seq(self.write_buffer).len() == 0
    }

    /// A proxy to the remote at this address.
    pub fn new(server_addr: String) -> (proxy: Self)
        ensures
            proxy.well_formed(),
            proxy.remote() == server_addr@,
            proxy@ == ProxyState::initial(),
    {
        ProxyManager {
            url: server_addr,
            phase: ProxyPhase::Idle,
            writing: None,
            write_buffer: BytesMut::with_capacity(WRITE_BUFFER_SIZE),
        }
    }

    /// The address to connect to.
    pub fn url(&self) -> (url: &str)
        ensures
            url@ == self.remote(),
    {
        self.url.as_str()
    }

    /// Takes the next input, and says what to do about it.
    pub fn start(&mut self, input: ProxyInput) -> (action: ProxyAction)
        requires
            old(self).well_formed(),
            old(self)@.fits(input@),
            input@ matches InputView::Read(Ok(data)) ==> data.len() + 10 < WRITE_BUFFER_SIZE,
        ensures
            final(self).well_formed(),
            final(self).remote() == old(self).remote(),
            final(self)@ == old(self)@.next(input@),
            action@ == proxy_action(input@),
            input matches ProxyInput::Payload(payload) ==> {
                &&& action matches ProxyAction::Write(bytes)
                &&& bytes_seq(bytes) == bytes_seq(payload)
            },
            input matches ProxyInput::Read(Ok(data)) ==> data@.len() > 0 ==> {
                &&& action matches ProxyAction::Forward(message)
                &&& bytes_seq(message.bytes) == data@
                &&& !message.fin
            },
            input matches ProxyInput::Written(Ok(n)) ==> (n > 0 <==> action is Continue),
            input matches ProxyInput::Written(Err(_)) ==> action is Stop,
            input matches ProxyInput::Read(Err(kind)) ==> (kind != IoErrorKind::UnexpectedEof
                <==> action is Continue),
            input matches ProxyInput::Connect(connected) ==> (connected <==> action is Continue),
            action matches ProxyAction::Stop(shutdown, message) ==> {
                &&& bytes_seq(message.bytes).len() == 0
                &&& message.fin
                &&& shutdown == (input is Read)
            },
    {
        match input {
            ProxyInput::Connect(connected) => {
                if !connected {
                    return ProxyAction::Stop(false, self.send_fin());
                }
                self.phase = ProxyPhase::Connected;
                ProxyAction::Continue
            },
            ProxyInput::Payload(payload) => {
                self.writing = Some(payload.len());
                ProxyAction::Write(payload)
            },
            ProxyInput::Written(written) => match self.send_to_server(written) {
                Ok(_) => ProxyAction::Continue,
                Err(_) => {
                    self.phase = ProxyPhase::Stopped;
                    ProxyAction::Stop(false, self.send_fin())
                },
            },
            ProxyInput::Read(read) => match self.recv(read) {
                Ok(bytes) => ProxyAction::Forward(self.send_to_channel(bytes)),
                Err(IoErrorKind::UnexpectedEof) => {
                    self.phase = ProxyPhase::Closed;
                    ProxyAction::Stop(true, self.send_fin())
                },
                Err(_) => ProxyAction::Continue,
            },
        }
    }

    /// Takes what reading from the remote gave, and hands out the bytes. Reading nothing means
    /// that the remote has closed the connection.
    pub fn recv(&mut self, read: Result<&[u8], IoErrorKind>) -> (received: Result<
        Bytes,
        IoErrorKind,
    >)
        requires
            old(self).well_formed(),
            read matches Ok(data) ==> data@.len() + 10 < WRITE_BUFFER_SIZE,
        ensures
            final(self).well_formed(),
            final(self).remote() == old(self).remote(),
            final(self)@ == old(self)@,
            match received {
                Ok(bytes) => recv_result(old(self)@.phase, read_view(read)) == Ok::<_, IoErrorKind>(
                    bytes_seq(bytes),
                ),
                Err(kind) => recv_result(old(self)@.phase, read_view(read)) == Err::<Seq<u8>, _>(
                    kind,
                ),
            },
    {
        if !self.phase.is_open() {
            return Err(IoErrorKind::NotConnected);
        }
        match read {
            Ok(data) => {
                if data.len() > 0 {
                    self.write_buffer.extend_from_slice(data);
                    let mut received = BytesMut::with_capacity(WRITE_BUFFER_SIZE);
                    core::mem::swap(&mut self.write_buffer, &mut received);
                    received.truncate(data.len());
                    let bytes = received.freeze();
                    assert(bytes_seq(bytes) =~= data@);
                    Ok(bytes)
                } else {
                    Err(IoErrorKind::UnexpectedEof)
                }
            },
            Err(kind) => Err(kind),
        }
    }

    /// Takes what came of writing payload to the remote, which ends the writing. Writing nothing
    /// means that the remote has closed the connection; anything else counts as written, and what
    /// the remote did not take of the payload is not written again.
    pub fn send_to_server(&mut self, written: Result<usize, IoErrorKind>) -> (sent: Result<
        (),
        IoErrorKind,
    >)
        requires
            old(self)@.phase.has_stream(),
        ensures
            final(self).well_formed() == old(self).well_formed(),
            final(self).remote() == old(self).remote(),
            final(self)@ == (ProxyState { writing: None, ..old(self)@ }),
            match written {
                Ok(n) if n > 0 => sent is Ok,
                Ok(_) => sent == Err::<(), _>(IoErrorKind::UnexpectedEof),
                Err(kind) => sent == Err::<(), _>(kind),
            },
    {
        self.writing = None;
        match written {
            Ok(0) => Err(IoErrorKind::UnexpectedEof),
            Ok(_) => Ok(()),
            Err(kind) => Err(kind),
        }
    }

    /// The message that carries some bytes to the client. No bytes means that it is the last.
    pub fn send_to_channel(&self, bytes: Bytes) -> (message: HysResponse)
        ensures
            message.bytes == bytes,
            message@ == (Message { bytes: bytes_seq(bytes), fin: bytes_seq(bytes).len() == 0 }),
    {
        let len: usize = bytes.len();
        HysResponse { bytes, fin: len == 0 }
    }

    /// The message that tells the client that no more comes.
    pub fn send_fin(&self) -> (message: HysResponse)
        ensures
            message@ == fin_message(),
    {
        self.send_to_channel(Bytes::new())
    }
}

/// What has become of a proxy: its state; the payload that it has taken; what it has asked to be
/// written, what the remote has taken of that, and the last piece that it has asked for as long as
/// the remote has taken nothing of it; the bytes that it has read from the remote; and the messages
/// that it has sent to the client, those of each attempt to serve it on their own.
pub struct ProxyHistory {
    pub state: ProxyState,
    pub payload: Seq<u8>,
    pub asked: Seq<u8>,
    pub written: Seq<u8>,
    pub current: Seq<u8>,
    pub received: Seq<u8>,
    pub attempts: Seq<Seq<Message>>,
}

/// What becomes of a proxy through some inputs. Each attempt starts with connecting. An input
/// that the state has no room for does not come about.
pub open spec fn proxy_history(inputs: Seq<InputView>) -> ProxyHistory
    decreases inputs.len(),
{
    if inputs.len() == 0 {
        ProxyHistory {
            state: ProxyState::initial(),
            payload: Seq::empty(),
            asked: Seq::empty(),
            written: Seq::empty(),
            current: Seq::empty(),
            received: Seq::empty(),
            attempts: Seq::empty(),
        }
    } else {
        let before = proxy_history(inputs.drop_last());
        let input = inputs.last();
        if before.state.fits(input) {
            let attempts = if input is Connect {
                before.attempts.push(Seq::empty())
            } else {
                before.attempts
            };
            let messages = attempts.last();
            ProxyHistory {
                state: before.state.next(input),
                payload: match input {
                    InputView::Payload(payload) => before.payload + payload,
                    _ => before.payload,
                },
                asked: match proxy_action(input) {
                    ActionView::Write(bytes) => before.asked + bytes,
                    _ => before.asked,
                },
                written: match input {
                    InputView::Written(Ok(n)) => before.written + before.current.subrange(
                        0,
                        n as int,
                    ),
                    _ => before.written,
                },
                current: match proxy_action(input) {
                    ActionView::Write(bytes) => bytes,
                    _ => match input {
                        InputView::Written(Ok(n)) if n > 0 => Seq::empty(),
                        _ => before.current,
                    },
                },
                received: match input {
                    InputView::Read(Ok(data)) => before.received + data,
                    _ => before.received,
                },
                attempts: match proxy_action(input) {
                    ActionView::Continue => attempts,
                    ActionView::Write(_) => attempts,
                    ActionView::Forward(message) => attempts.drop_last().push(
                        messages.push(message),
                    ),
                    ActionView::Stop(_, message) => attempts.drop_last().push(
                        messages.push(message),
                    ),
                },
            }
        } else {
            before
        }
    }
}

/// The bytes of some messages, one after the other.
pub open spec fn message_bytes(messages: Seq<Message>) -> Seq<u8>
    decreases messages.len(),
{
    if messages.len() == 0 {
        Seq::empty()
    } else {
        message_bytes(messages.drop_last()) + messages.last().bytes
    }
}

/// The bytes of the messages of some attempts, one after the other.
pub open spec fn attempt_bytes(attempts: Seq<Seq<Message>>) -> Seq<u8>
    decreases attempts.len(),
{
    if attempts.len() == 0 {
        Seq::empty()
    } else {
        attempt_bytes(attempts.drop_last()) + message_bytes(attempts.last())
    }
}

/// Whether the last of some messages says that no more comes, and no other does.
pub open spec fn ends_with_fin(messages: Seq<Message>) -> bool {
    &&& messages.len() > 0
    &&& forall|i: int|
        0 <= i < messages.len() ==> (#[trigger] messages[i]).fin == (i == messages.len() - 1)
}

/// In each attempt to serve it the client is told exactly once that no more comes: when the
/// attempt ends, with its last message. As long as the attempt goes on, it is not told.
pub proof fn fin_comes_once_and_last(inputs: Seq<InputView>)
    ensures
        ({
            let history = proxy_history(inputs);
            let attempts = history.attempts;
            let last = attempts.len() - 1;
            let going_on = history.state.phase == ProxyPhase::Connected;
            &&& going_on ==> attempts.len() > 0
            &&& forall|k: int|
                0 <= k < attempts.len() && !(going_on && k == last) ==> ends_with_fin(
                    #[trigger] attempts[k],
                )
            &&& going_on ==> forall|i: int|
                0 <= i < attempts[last].len() ==> !(#[trigger] attempts[last][i]).fin
            &&& attempts.len() == 0 ==> history.state.phase == ProxyPhase::Idle
        }),
    decreases inputs.len(),
{
    if inputs.len() > 0 {
        fin_comes_once_and_last(inputs.drop_last());
        let before = proxy_history(inputs.drop_last());
        let after = proxy_history(inputs);
        let input = inputs.last();
        if before.state.fits(input) {
            let last = after.attempts.len() - 1;
            assert forall|k: int| 0 <= k < last implies after.attempts[k] == before.attempts[k] by {
            }
            assert forall|k: int|
                0 <= k < after.attempts.len() && !(after.state.phase == ProxyPhase::Connected && k
                    == last) implies ends_with_fin(#[trigger] after.attempts[k]) by {
                if k < last {
                    assert(after.attempts[k] == before.attempts[k]);
                }
            }
        }
    }
}

/// What the remote sends reaches the client, in order and with nothing added or left out.
pub proof fn remote_bytes_reach_the_client(inputs: Seq<InputView>)
    ensures
        attempt_bytes(proxy_history(inputs).attempts) == proxy_history(inputs).received,
    decreases inputs.len(),
{
    if inputs.len() > 0 {
        let before = proxy_history(inputs.drop_last());
        let after = proxy_history(inputs);
        let input = inputs.last();
        remote_bytes_reach_the_client(inputs.drop_last());
        fin_comes_once_and_last(inputs.drop_last());
        if before.state.fits(input) {
            let attempts = if input is Connect {
                before.attempts.push(Seq::empty())
            } else {
                before.attempts
            };
            if input is Connect {
                assert(attempts.drop_last() =~= before.attempts);
                assert(attempts.last() =~= Seq::<Message>::empty());
            }
            assert(attempt_bytes(attempts) =~= before.received);
            if proxy_action(input) is Forward || proxy_action(input) is Stop {
                assert(after.attempts.drop_last() =~= attempts.drop_last());
                assert(after.attempts.last().drop_last() =~= attempts.last());
            }
            assert(attempt_bytes(after.attempts) =~= after.received);
        }
    }
}

/// Whether each write that succeeded took all of the payload.
pub open spec fn writes_are_whole(inputs: Seq<InputView>) -> bool
    decreases inputs.len(),
{
    inputs.len() > 0 ==> {
        let before = proxy_history(inputs.drop_last());
        &&& writes_are_whole(inputs.drop_last())
        &&& before.state.fits(inputs.last()) ==> (inputs.last() matches InputView::Written(Ok(n))
            ==> n == 0 || n == before.current.len())
    }
}

/// What is being written is the last piece of payload.
proof fn lemma_writing_is_current(inputs: Seq<InputView>)
    ensures
        ({
            let history = proxy_history(inputs);
            match history.state.writing {
                Some(len) => len == history.current.len(),
                None => history.state.phase == ProxyPhase::Stopped || history.current.len() == 0,
            }
        }),
        proxy_history(inputs).state.phase == ProxyPhase::Idle ==> proxy_history(
            inputs,
        ).state.writing is None,
    decreases inputs.len(),
{
    if inputs.len() > 0 {
        lemma_writing_is_current(inputs.drop_last());
    }
}

/// What is written is payload of the client, whatever becomes of the writes: the piece that is
/// being written is the end of what the client has sent, and no more of it can be taken than
/// there is.
pub proof fn only_payload_is_written(inputs: Seq<InputView>)
    ensures
        ({
            let history = proxy_history(inputs);
            let start = history.payload.len() - history.current.len();
            &&& start >= 0
            &&& history.payload.subrange(start, history.payload.len() as int) == history.current
            &&& forall|n: usize| #[trigger]
                history.state.fits(InputView::Written(Ok(n))) ==> n <= history.current.len()
        }),
    decreases inputs.len(),
{
    lemma_writing_is_current(inputs);
    let history = proxy_history(inputs);
    let start = history.payload.len() - history.current.len();
    if inputs.len() > 0 {
        only_payload_is_written(inputs.drop_last());
    }
    assert(history.payload.subrange(start, history.payload.len() as int) =~= history.current);
}

/// As long as each write that succeeds takes all that it is given, the payload of the client
/// reaches the remote in order and without a gap: what is written, and the last piece where the
/// remote has taken nothing of it, make up what the client has sent.
pub proof fn payload_reaches_the_remote_in_order(inputs: Seq<InputView>)
    requires
        writes_are_whole(inputs),
    ensures
        ({
            let history = proxy_history(inputs);
            history.written + history.current == history.payload
        }),
    decreases inputs.len(),
{
    if inputs.len() > 0 {
        payload_reaches_the_remote_in_order(inputs.drop_last());
        lemma_writing_is_current(inputs.drop_last());
        let before = proxy_history(inputs.drop_last());
        let after = proxy_history(inputs);
        if before.state.fits(inputs.last()) {
            match inputs.last() {
                InputView::Payload(payload) => {
                    assert(before.current =~= Seq::<u8>::empty());
                    assert(after.written + after.current =~= after.payload);
                },
                InputView::Written(Ok(n)) => {
                    assert(after.written + after.current =~= before.written + before.current);
                },
                _ => {},
            }
        }
    }
}

/// The bytes of the results that are bytes, one after the other.
pub open spec fn bytes_of(results: Seq<Result<Seq<u8>, IoErrorKind>>) -> Seq<u8>
    decreases results.len(),
{
    if results.len() == 0 {
        Seq::empty()
    } else {
        match results.last() {
            Ok(data) => bytes_of(results.drop_last()) + data,
            Err(_) => bytes_of(results.drop_last()),
        }
    }
}

/// What some reads give, taken one after the other on a connection.
pub open spec fn recv_results(
    phase: ProxyPhase,
    reads: Seq<Result<Seq<u8>, IoErrorKind>>,
) -> Seq<Result<Seq<u8>, IoErrorKind>> {
    reads.map_values(|read: Result<Seq<u8>, IoErrorKind>| recv_result(phase, read))
}

/// Whatever is read over a connection is handed out, in order and with nothing lost or repeated:
/// no result is empty, an error takes no byte with it, and the results joined are the reads
/// joined.
pub proof fn reads_are_handed_out_in_order(
    phase: ProxyPhase,
    reads: Seq<Result<Seq<u8>, IoErrorKind>>,
)
    requires
        phase.has_stream(),
    ensures
        bytes_of(recv_results(phase, reads)) == bytes_of(reads),
        forall|i: int|
            0 <= i < reads.len() ==> ((#[trigger] recv_results(phase, reads)[i]) matches Ok(data)
                ==> data.len() > 0),
    decreases reads.len(),
{
    if reads.len() > 0 {
        reads_are_handed_out_in_order(phase, reads.drop_last());
        assert(recv_results(phase, reads).drop_last() =~= recv_results(phase, reads.drop_last()));
        assert(bytes_of(recv_results(phase, reads)) =~= bytes_of(reads));
    }
}

/// What the proxy asks to have written, all pieces joined, is the payload that the client has
/// sent, in order and complete, whatever becomes of the writes.
pub proof fn all_payload_is_asked_to_be_written(inputs: Seq<InputView>)
    ensures
        proxy_history(inputs).asked == proxy_history(inputs).payload,
    decreases inputs.len(),
{
    if inputs.len() > 0 {
        all_payload_is_asked_to_be_written(inputs.drop_last());
        assert(proxy_history(inputs).asked =~= proxy_history(inputs).payload);
    }
}

/// A proxy goes on until it cannot connect, cannot write, or the remote is done; nothing else
/// stops it. It then tells the client, and shuts the connection down only where the remote is
/// done. It writes exactly when there is payload, and forwards exactly when there is something to
/// forward.
pub proof fn proxy_stops_only_with_a_reason(state: ProxyState, input: InputView)
    requires
        state.fits(input),
    ensures
        ({
            let action = proxy_action(input);
            let goes_on = match input {
                InputView::Connect(connected) => connected,
                InputView::Payload(_) => true,
                InputView::Written(Ok(n)) => n > 0,
                InputView::Written(Err(_)) => false,
                InputView::Read(Ok(data)) => data.len() > 0,
                InputView::Read(Err(kind)) => kind != IoErrorKind::UnexpectedEof,
            };
            &&& goes_on <==> !(action is Stop)
            &&& goes_on <==> state.next(input).phase == ProxyPhase::Connected
            &&& action matches ActionView::Stop(shutdown, message) ==> {
                &&& message.bytes.len() == 0 && message.fin
                &&& shutdown == (input is Read)
                &&& input is Connect ==> state.next(input).phase == state.phase
                &&& input is Written ==> state.next(input).phase == ProxyPhase::Stopped
                &&& input is Read ==> state.next(input).phase == ProxyPhase::Closed
            }
            &&& action is Write <==> input is Payload
            &&& action is Forward <==> input is Read && goes_on && input->Read_0 is Ok
            &&& input matches InputView::Payload(payload) ==> state.next(input).writing == Some(
                payload.len(),
            )
            &&& input is Written ==> state.next(input).writing is None
        }),
{
}

/// Without a connection nothing is received; an error of a read is handed on as it is, and
/// reading nothing means that the remote is done.
pub proof fn read_errors_are_handed_on(phase: ProxyPhase, read: Result<Seq<u8>, IoErrorKind>)
    ensures
        phase == ProxyPhase::Idle || phase == ProxyPhase::Closed ==> recv_result(phase, read)
            == Err::<Seq<u8>, _>(IoErrorKind::NotConnected),
        phase == ProxyPhase::Connected || phase == ProxyPhase::Stopped ==> match read {
            Err(kind) => recv_result(phase, read) == Err::<Seq<u8>, _>(kind),
            Ok(data) => data.len() == 0 ==> recv_result(phase, read) == Err::<Seq<u8>, _>(
                IoErrorKind::UnexpectedEof,
            ),
        },
{
}

} // verus!
