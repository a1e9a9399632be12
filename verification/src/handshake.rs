//! The handshake: the exchange of identification lines and the first packet.
//!
//! The decisions are a state machine. A driver owns the transport: it asks
//! the machine what to do, does it, and tells the machine what came of it.
//! The machine holds the bytes that arrived and were not yet used, so a read
//! may give less than was asked for.

use crate::error::{ConnectError, FramingError, HandshakeError};
use crate::kexinit::{kexinit_at, KexInitFields};
use crate::message::{dispatch, dispatched};
use crate::packet::{framed, Packet, PacketView};
use crate::text::{find_byte, lemma_run_len, lemma_run_len_concat, run_len, CR, LF};
use crate::wire::{be_u32, read_be_u32};
use vstd::prelude::*;
use vstd::slice::{slice_subrange, slice_to_vec};
use vstd::string::StringSliceAdditionalSpecFns;

verus! {

/// The identification string that this side sends.
pub const VERSION: &'static str = "SSH-2.0-russh_0.1";

/// The most bytes that the peer's identification line may have, its line
/// feed counted: the ceiling that bounds a packet bounds the line too.
pub const MAX_LINE_LENGTH: usize = 35000;

/// The stages of a handshake, in the order in which they are passed.
#[derive(Debug, Clone, Copy, PartialEq, Eq, Structural)]
pub enum Stage {
    /// The transport is being opened.
    Connecting,
    /// The peer's identification line is being read.
    AwaitingPeerVersion,
    /// This side's identification line is being written.
    SendingOwnVersion,
    /// The first packet is being read.
    AwaitingFirstPacket,
    /// The message type of the first packet is looked at.
    Dispatching,
    /// The algorithm negotiation is decoded; a handshake that succeeds rests
    /// here.
    DecodingKexInit,
    /// The handshake has failed.
    Failed,
}

impl Stage {
    /// The place of a stage in the order of the handshake.
    pub open spec fn rank(self) -> nat {
        match self {
            Stage::Connecting => 1,
            Stage::AwaitingPeerVersion => 2,
            Stage::SendingOwnVersion => 3,
            Stage::AwaitingFirstPacket => 4,
            Stage::Dispatching => 5,
            Stage::DecodingKexInit => 6,
            Stage::Failed => 7,
        }
    }
}

/// Why a handshake failed, and the stage at which it did.
#[derive(Debug, Clone, Copy, PartialEq, Eq, Structural)]
pub struct Failure {
    /// The stage that could not be passed.
    pub stage: Stage,
    /// What went wrong at it.
    pub cause: HandshakeError,
}

/// How much a diagnostic matters to the one who watches.
#[derive(Debug, Clone, Copy, PartialEq, Eq, Structural)]
pub enum Level {
    /// The handshake moved on.
    Debug,
    /// The handshake failed.
    Error,
}

/// What a handshake tells the one who watches it when it leaves a stage: the
/// stage it left, the stage at which it rests now, and, if it failed, why and
/// where. It is data; what is done with it is the watcher's matter.
#[derive(Debug, Clone, Copy, PartialEq, Eq, Structural)]
pub struct Diagnostic {
    /// How much it matters.
    pub level: Level,
    /// The stage that was left.
    pub from: Stage,
    /// The stage at which the handshake rests now.
    pub to: Stage,
    /// Why and where the handshake failed, if it did.
    pub failure: Option<Failure>,
}

/// What the driver is to do next.
#[derive(Debug, Clone, PartialEq, Eq)]
pub enum Action {
    /// Open the transport.
    Open,
    /// Read from the transport: at least one byte, unless it has closed, and
    /// at most this many. A read within this bound takes nothing from the
    /// stream that stands behind the first packet; bytes beyond the first
    /// packet that a larger read brings are not kept.
    Read(usize),
    /// Write these bytes to the transport, all of them, and flush.
    Write(Vec<u8>),
    /// Nothing: the handshake has ended.
    Stop,
}

/// What an action is, as contracts speak of it.
pub enum ActionView {
    /// Open the transport.
    Open,
    /// Read at most this many bytes.
    Read(nat),
    /// Write these bytes and flush.
    Write(Seq<u8>),
    /// Nothing more.
    Stop,
}

impl View for Action {
    type V = ActionView;

    open spec fn view(&self) -> ActionView {
        match self {
            Action::Open => ActionView::Open,
            Action::Read(n) => ActionView::Read(*n as nat),
            Action::Write(bytes) => ActionView::Write(bytes@),
            Action::Stop => ActionView::Stop,
        }
    }
}

/// What came of the action that the driver was asked for.
#[derive(Debug, Clone, PartialEq, Eq)]
pub enum Event {
    /// The transport opened, or the bytes were written and flushed.
    Done,
    /// The transport could not do what was asked.
    Failed,
    /// A read gave these bytes.
    Received(Vec<u8>),
    /// A read found the stream closed.
    Closed,
}

/// A failure of the first packet or of its payload, at the given stage.
pub open spec fn protocol_failure(stage: Stage, e: FramingError) -> Failure {
    Failure { stage, cause: HandshakeError::Connect(ConnectError::Protocol(e)) }
}

/// A failure of the connection, at the given stage.
pub open spec fn connect_failure(stage: Stage, e: ConnectError) -> Failure {
    Failure { stage, cause: HandshakeError::Connect(e) }
}

/// What the first packet comes to: a packet without a message type is
/// malformed, a message other than the algorithm negotiation is not acted on,
/// and the algorithm negotiation is decoded.
pub open spec fn first_message(packet: PacketView) -> Result<Seq<Seq<Seq<char>>>, Failure> {
    if packet.payload.len() == 0 {
        Err(protocol_failure(Stage::Dispatching, FramingError::EmptyPayload))
    } else {
        match dispatched(packet.payload[0]) {
            Err(e) => Err(Failure { stage: Stage::Dispatching, cause: HandshakeError::Dispatch(e) }),
            Ok(_) => match kexinit_at(packet).0 {
                Err(e) => Err(protocol_failure(Stage::DecodingKexInit, e)),
                Ok(lists) => Ok(lists),
            },
        }
    }
}

/// An identification line without the carriage return that may end it.
pub open spec fn without_cr(line: Seq<u8>) -> Seq<u8> {
    if line.len() > 0 && line.last() == CR {
        line.drop_last()
    } else {
        line
    }
}

/// The line that this side sends: its identification string and CR LF.
pub open spec fn own_version_line() -> Seq<u8> {
    VERSION.spec_bytes() + seq![CR, LF]
}

/// The number of bytes that an unfinished record still lacks: what is left
/// of its length field, or, once that is there, of its body.
pub open spec fn missing(record: Seq<u8>) -> nat {
    if record.len() < 4 {
        (4 - record.len()) as nat
    } else {
        (4 + be_u32(record) - record.len()) as nat
    }
}

/// What a handshake is, as contracts speak of it: the stage at which it
/// rests, with the bytes that arrived and were not used yet (`inbound`), the
/// identification string of the peer once its line is there, and at its end
/// the ten name-lists or the failure.
pub enum HandshakeView {
    /// The transport is to be opened.
    Connecting,
    /// The peer's line is being read; `inbound` is what there is of it.
    AwaitingPeerVersion { inbound: Seq<u8> },
    /// The peer's line is there, this side's is to be written; `inbound` is
    /// what arrived behind the peer's line.
    SendingOwnVersion { peer_version: Seq<u8>, inbound: Seq<u8> },
    /// The first packet is being read; `inbound` is what there is of it.
    AwaitingFirstPacket { peer_version: Seq<u8>, inbound: Seq<u8> },
    /// The algorithm negotiation is decoded: the handshake has succeeded.
    DecodingKexInit { peer_version: Seq<u8>, fields: Seq<Seq<Seq<char>>> },
    /// The handshake has failed.
    Failed { failure: Failure },
}

impl HandshakeView {
    /// The stage at which the handshake rests.
    pub open spec fn stage(self) -> Stage {
        match self {
            HandshakeView::Connecting => Stage::Connecting,
            HandshakeView::AwaitingPeerVersion { .. } => Stage::AwaitingPeerVersion,
            HandshakeView::SendingOwnVersion { .. } => Stage::SendingOwnVersion,
            HandshakeView::AwaitingFirstPacket { .. } => Stage::AwaitingFirstPacket,
            HandshakeView::DecodingKexInit { .. } => Stage::DecodingKexInit,
            HandshakeView::Failed { .. } => Stage::Failed,
        }
    }

    /// The identification string of the peer, once its line has arrived.
    pub open spec fn peer_version(self) -> Option<Seq<u8>> {
        match self {
            HandshakeView::SendingOwnVersion { peer_version, .. } => Some(peer_version),
            HandshakeView::AwaitingFirstPacket { peer_version, .. } => Some(peer_version),
            HandshakeView::DecodingKexInit { peer_version, .. } => Some(peer_version),
            _ => None,
        }
    }

    /// Why the handshake failed, if it did.
    pub open spec fn failure(self) -> Option<Failure> {
        match self {
            HandshakeView::Failed { failure } => Some(failure),
            _ => None,
        }
    }

    /// What a handshake that rested at `before` and rests here now has to
    /// tell: nothing if it has not left the stage, else the two stages, and
    /// the failure if it failed.
    pub open spec fn diagnostic(self, before: Stage) -> Option<Diagnostic> {
        if self.stage() == before {
            None
        } else {
            Some(
                Diagnostic {
                    level: if self is Failed {
                        Level::Error
                    } else {
                        Level::Debug
                    },
                    from: before,
                    to: self.stage(),
                    failure: self.failure(),
                },
            )
        }
    }

    /// Whether the handshake has ended, well or badly.
    pub open spec fn ended(self) -> bool {
        self is DecodingKexInit || self is Failed
    }

    /// The bytes at hand decide nothing yet: the line has no end and is
    /// within its bound, the record is unfinished.
    pub open spec fn wf(self) -> bool {
        match self {
            HandshakeView::AwaitingPeerVersion { inbound } => run_len(inbound, LF) == inbound.len()
                && inbound.len() < MAX_LINE_LENGTH,
            HandshakeView::AwaitingFirstPacket { inbound, .. } => framed(inbound) == Err::<
                PacketView,
                FramingError,
            >(FramingError::Truncated),
            _ => true,
        }
    }

    /// The handshake moved on as far as the bytes at hand allow.
    pub open spec fn settled(self) -> HandshakeView {
        match self {
            HandshakeView::AwaitingPeerVersion { inbound } => {
                let n = run_len(inbound, LF) as int;
                if n >= MAX_LINE_LENGTH {
                    HandshakeView::Failed {
                        failure: protocol_failure(
                            Stage::AwaitingPeerVersion,
                            FramingError::InvalidLength,
                        ),
                    }
                } else if n < inbound.len() {
                    HandshakeView::SendingOwnVersion {
                        peer_version: without_cr(inbound.take(n)),
                        inbound: inbound.skip(n + 1),
                    }
                } else {
                    self
                }
            },
            HandshakeView::AwaitingFirstPacket { peer_version, inbound } => match framed(inbound) {
                Err(FramingError::Truncated) => self,
                Err(e) => HandshakeView::Failed {
                    failure: protocol_failure(Stage::AwaitingFirstPacket, e),
                },
                Ok(packet) => match first_message(packet) {
                    Ok(fields) => HandshakeView::DecodingKexInit { peer_version, fields },
                    Err(failure) => HandshakeView::Failed { failure },
                },
            },
            _ => self,
        }
    }

    /// The handshake after a read gave `bytes`.
    pub open spec fn received(self, bytes: Seq<u8>) -> HandshakeView {
        match self {
            HandshakeView::AwaitingPeerVersion { inbound } => HandshakeView::AwaitingPeerVersion {
                inbound: inbound + bytes,
            }.settled(),
            HandshakeView::SendingOwnVersion {
                peer_version,
                inbound,
            } => HandshakeView::SendingOwnVersion { peer_version, inbound: inbound + bytes },
            HandshakeView::AwaitingFirstPacket {
                peer_version,
                inbound,
            } => HandshakeView::AwaitingFirstPacket {
                peer_version,
                inbound: inbound + bytes,
            }.settled(),
            _ => self,
        }
    }

    /// The handshake after a read found the stream closed: a line or a
    /// packet that has not begun finds it closed, a packet that has begun is
    /// truncated.
    pub open spec fn closed(self) -> HandshakeView {
        match self {
            HandshakeView::AwaitingPeerVersion { .. } => HandshakeView::Failed {
                failure: connect_failure(Stage::AwaitingPeerVersion, ConnectError::Closed),
            },
            HandshakeView::AwaitingFirstPacket { inbound, .. } => HandshakeView::Failed {
                failure: if inbound.len() == 0 {
                    connect_failure(Stage::AwaitingFirstPacket, ConnectError::Closed)
                } else {
                    protocol_failure(Stage::AwaitingFirstPacket, FramingError::Truncated)
                },
            },
            _ => self,
        }
    }

    /// The handshake after the transport opened, or wrote and flushed.
    pub open spec fn done(self) -> HandshakeView {
        match self {
            HandshakeView::Connecting => HandshakeView::AwaitingPeerVersion {
                inbound: Seq::empty(),
            },
            HandshakeView::SendingOwnVersion {
                peer_version,
                inbound,
            } => HandshakeView::AwaitingFirstPacket { peer_version, inbound }.settled(),
            _ => self,
        }
    }

    /// The handshake after the transport failed: it is unreachable where it
    /// was to open or to write, and as good as closed where it was to read.
    pub open spec fn failed(self) -> HandshakeView {
        match self {
            HandshakeView::Connecting => HandshakeView::Failed {
                failure: connect_failure(Stage::Connecting, ConnectError::Unreachable),
            },
            HandshakeView::SendingOwnVersion { .. } => HandshakeView::Failed {
                failure: connect_failure(Stage::SendingOwnVersion, ConnectError::Unreachable),
            },
            _ => self.closed(),
        }
    }

    /// The handshake after `event`. An event that answers nothing the
    /// handshake asked for leaves it as it is.
    pub open spec fn after(self, event: Event) -> HandshakeView {
        match event {
            Event::Done => self.done(),
            Event::Failed => self.failed(),
            Event::Received(bytes) => self.received(bytes@),
            Event::Closed => self.closed(),
        }
    }

    /// What the handshake asks of the driver.
    pub open spec fn action(self) -> ActionView {
        match self {
            HandshakeView::Connecting => ActionView::Open,
            HandshakeView::AwaitingPeerVersion { .. } => ActionView::Read(1),
            HandshakeView::SendingOwnVersion { .. } => ActionView::Write(own_version_line()),
            HandshakeView::AwaitingFirstPacket { inbound, .. } => ActionView::Read(missing(inbound)),
            _ => ActionView::Stop,
        }
    }
}

/// Looks at the message type of the first packet and decodes its payload if
/// it is the algorithm negotiation. No name-list is read of any other
/// message. The packet is used up: nothing of it is kept.
pub fn interpret(packet: Packet) -> (r: Result<KexInitFields, Failure>)
    ensures
        match first_message(packet@) {
            Ok(lists) => r is Ok && r->Ok_0@ == lists,
            Err(f) => r == Err::<KexInitFields, Failure>(f),
        },
{
    let mut packet = packet;
    let tag = match packet.msg_type() {
        Ok(tag) => tag,
        Err(e) => {
            return Err(
                Failure {
                    stage: Stage::Dispatching,
                    cause: HandshakeError::Connect(ConnectError::Protocol(e)),
                },
            );
        },
    };
    match dispatch(tag) {
        Ok(_) => {},
        Err(e) => {
            return Err(Failure { stage: Stage::Dispatching, cause: HandshakeError::Dispatch(e) });
        },
    }
    match KexInitFields::decode(&mut packet) {
        Ok(fields) => Ok(fields),
        Err(e) => Err(
            Failure {
                stage: Stage::DecodingKexInit,
                cause: HandshakeError::Connect(ConnectError::Protocol(e)),
            },
        ),
    }
}

#[derive(Debug, PartialEq, Eq)]
enum State {
    Connecting,
    AwaitingPeerVersion { inbound: Vec<u8> },
    SendingOwnVersion { peer_version: Vec<u8>, inbound: Vec<u8> },
    AwaitingFirstPacket { peer_version: Vec<u8>, inbound: Vec<u8> },
    DecodingKexInit { peer_version: Vec<u8>, fields: KexInitFields },
    Failed { failure: Failure },
}

/// One attempt at a handshake. It passes the stages in their order, each at
/// most once, and ends decoded or failed; to try again is to begin anew.
#[derive(Debug, PartialEq, Eq)]
pub struct Handshake {
    state: State,
}

impl View for Handshake {
    type V = HandshakeView;

    closed spec fn view(&self) -> HandshakeView {
        match self.state {
            State::Connecting => HandshakeView::Connecting,
            State::AwaitingPeerVersion { inbound } => HandshakeView::AwaitingPeerVersion {
                inbound: inbound@,
            },
            State::SendingOwnVersion { peer_version, inbound } => HandshakeView::SendingOwnVersion {
                peer_version: peer_version@,
                inbound: inbound@,
            },
            State::AwaitingFirstPacket {
                peer_version,
                inbound,
            } => HandshakeView::AwaitingFirstPacket {
                peer_version: peer_version@,
                inbound: inbound@,
            },
            State::DecodingKexInit { peer_version, fields } => HandshakeView::DecodingKexInit {
                peer_version: peer_version@,
                fields: fields@,
            },
            State::Failed { failure } => HandshakeView::Failed { failure },
        }
    }
}

impl Handshake {
    #[verifier::type_invariant]
    pub open spec fn inv(self) -> bool {
        self@.wf()
    }

    /// A handshake that has not begun.
    pub fn new() -> (h: Handshake)
        ensures
            h@ == HandshakeView::Connecting,
    {
        Handshake { state: State::Connecting }
    }

    /// The stage at which the handshake rests.
    pub fn stage(&self) -> (stage: Stage)
        ensures
            stage == self@.stage(),
    {
        match &self.state {
            State::Connecting => Stage::Connecting,
            State::AwaitingPeerVersion { .. } => Stage::AwaitingPeerVersion,
            State::SendingOwnVersion { .. } => Stage::SendingOwnVersion,
            State::AwaitingFirstPacket { .. } => Stage::AwaitingFirstPacket,
            State::DecodingKexInit { .. } => Stage::DecodingKexInit,
            State::Failed { .. } => Stage::Failed,
        }
    }

    /// The identification string of the peer, as it arrived, without the end
    /// of its line. There is none before the line has arrived, and none is
    /// kept of a handshake that failed.
    pub fn peer_version(&self) -> (r: Option<Vec<u8>>)
        ensures
            match self@.peer_version() {
                Some(version) => r is Some && r->0@ == version,
                None => r is None,
            },
    {
        match &self.state {
            State::SendingOwnVersion { peer_version, .. } => Some(
                slice_to_vec(peer_version.as_slice()),
            ),
            State::AwaitingFirstPacket { peer_version, .. } => Some(
                slice_to_vec(peer_version.as_slice()),
            ),
            State::DecodingKexInit { peer_version, .. } => Some(
                slice_to_vec(peer_version.as_slice()),
            ),
            _ => None,
        }
    }

    /// Why the handshake failed, and at which stage, if it did.
    pub fn failure(&self) -> (r: Option<Failure>)
        ensures
            r == self@.failure(),
    {
        match &self.state {
            State::Failed { failure } => Some(*failure),
            _ => None,
        }
    }

    /// What there is to tell of the step that took the handshake from the
    /// stage `before` to where it rests now.
    pub fn diagnostic(&self, before: Stage) -> (r: Option<Diagnostic>)
        ensures
            r == self@.diagnostic(before),
    {
        let to = self.stage();
        if to == before {
            return None;
        }
        let failure = self.failure();
        let level = if failure.is_some() {
            Level::Error
        } else {
            Level::Debug
        };
        Some(Diagnostic { level, from: before, to, failure })
    }

    /// What the driver is to do next.
    pub fn action(&self) -> (action: Action)
        ensures
            action@ == self@.action(),
    {
        proof {
            use_type_invariant(self);
        }
        match &self.state {
            State::Connecting => Action::Open,
            State::AwaitingPeerVersion { .. } => Action::Read(1),
            State::SendingOwnVersion { .. } => {
                let mut line = slice_to_vec(VERSION.as_bytes());
                line.push(CR);
                line.push(LF);
                assert(line@ == own_version_line());
                Action::Write(line)
            },
            State::AwaitingFirstPacket { inbound, .. } => {
                if inbound.len() < 4 {
                    Action::Read(4 - inbound.len())
                } else {
                    let n = read_be_u32(inbound.as_slice()) as usize;
                    Action::Read(4 + n - inbound.len())
                }
            },
            _ => Action::Stop,
        }
    }

    /// Takes in what came of the last action and moves on as far as the
    /// bytes at hand allow.
    pub fn step(self, event: Event) -> (next: Handshake)
        ensures
            next@ == self@.after(event),
            next@.wf(),
    {
        proof {
            use_type_invariant(&self);
        }
        match event {
            Event::Done => match self.state {
                State::Connecting => Handshake {
                    state: State::AwaitingPeerVersion { inbound: Vec::new() },
                },
                State::SendingOwnVersion { peer_version, inbound } => Handshake::settle_record(
                    peer_version,
                    inbound,
                ),
                state => Handshake { state },
            },
            Event::Failed => match self.state {
                State::Connecting => Handshake::fail(
                    Stage::Connecting,
                    HandshakeError::Connect(ConnectError::Unreachable),
                ),
                State::SendingOwnVersion { .. } => Handshake::fail(
                    Stage::SendingOwnVersion,
                    HandshakeError::Connect(ConnectError::Unreachable),
                ),
                state => Handshake { state }.close(),
            },
            Event::Received(bytes) => match self.state {
                State::AwaitingPeerVersion { inbound } => Handshake::settle_line(inbound, bytes),
                State::SendingOwnVersion { peer_version, inbound } => {
                    let mut inbound = inbound;
                    let mut bytes = bytes;
                    inbound.append(&mut bytes);
                    Handshake { state: State::SendingOwnVersion { peer_version, inbound } }
                },
                State::AwaitingFirstPacket { peer_version, inbound } => {
                    let mut inbound = inbound;
                    let mut bytes = bytes;
                    inbound.append(&mut bytes);
                    Handshake::settle_record(peer_version, inbound)
                },
                state => Handshake { state },
            },
            Event::Closed => self.close(),
        }
    }

    /// The end of the handshake: the name-lists that it decoded, or why it
    /// failed. A handshake that has not ended gives nothing, and none gives
    /// a part of the name-lists.
    pub fn finish(self) -> (r: Option<Result<KexInitFields, Failure>>)
        ensures
            match self@ {
                HandshakeView::DecodingKexInit { fields, .. } => r is Some && r->0 is Ok
                    && r->0->Ok_0@ == fields,
                HandshakeView::Failed { failure } => r == Some(
                    Err::<KexInitFields, Failure>(failure),
                ),
                _ => r is None,
            },
    {
        match self.state {
            State::DecodingKexInit { fields, .. } => Some(Ok(fields)),
            State::Failed { failure } => Some(Err(failure)),
            _ => None,
        }
    }

    fn fail(stage: Stage, cause: HandshakeError) -> (h: Handshake)
        ensures
            h@ == (HandshakeView::Failed { failure: Failure { stage, cause } }),
    {
        Handshake { state: State::Failed { failure: Failure { stage, cause } } }
    }

    fn close(self) -> (next: Handshake)
        ensures
            next@ == self@.closed(),
            next@.wf(),
    {
        proof {
            use_type_invariant(&self);
        }
        match self.state {
            State::AwaitingPeerVersion { .. } => Handshake::fail(
                Stage::AwaitingPeerVersion,
                HandshakeError::Connect(ConnectError::Closed),
            ),
            State::AwaitingFirstPacket { inbound, .. } => {
                if inbound.len() == 0 {
                    Handshake::fail(
                        Stage::AwaitingFirstPacket,
                        HandshakeError::Connect(ConnectError::Closed),
                    )
                } else {
                    Handshake::fail(
                        Stage::AwaitingFirstPacket,
                        HandshakeError::Connect(ConnectError::Protocol(FramingError::Truncated)),
                    )
                }
            },
            state => Handshake { state },
        }
    }

    /// Adds `bytes` to a line that has no end yet and looks for its end in
    /// them.
    fn settle_line(inbound: Vec<u8>, bytes: Vec<u8>) -> (next: Handshake)
        requires
            run_len(inbound@, LF) == inbound@.len(),
            inbound@.len() < MAX_LINE_LENGTH,
        ensures
            next@ == (HandshakeView::AwaitingPeerVersion { inbound: inbound@ + bytes@ }).settled(),
            next@.wf(),
    {
        let mut line = inbound;
        let k = find_byte(bytes.as_slice(), LF);
        proof {
            lemma_run_len_concat(inbound@, bytes@, LF);
            lemma_run_len(bytes@, LF);
        }
        if k >= MAX_LINE_LENGTH - line.len() {
            return Handshake::fail(
                Stage::AwaitingPeerVersion,
                HandshakeError::Connect(ConnectError::Protocol(FramingError::InvalidLength)),
            );
        }
        if k == bytes.len() {
            let mut bytes = bytes;
            line.append(&mut bytes);
            return Handshake { state: State::AwaitingPeerVersion { inbound: line } };
        }
        let mut head = slice_to_vec(slice_subrange(bytes.as_slice(), 0, k));
        let rest = slice_to_vec(slice_subrange(bytes.as_slice(), k + 1, bytes.len()));
        line.append(&mut head);
        if line.len() > 0 && line[line.len() - 1] == CR {
            line.pop();
        }
        proof {
            let all = inbound@ + bytes@;
            let n = inbound@.len() + k;
            assert(all.take(n as int) == inbound@ + bytes@.subrange(0, k as int));
            assert(all.skip(n + 1) == bytes@.subrange(k + 1, bytes@.len() as int));
        }
        Handshake { state: State::SendingOwnVersion { peer_version: line, inbound: rest } }
    }

    /// Frames the first packet if the bytes at hand hold all of it, and
    /// looks at its message.
    fn settle_record(peer_version: Vec<u8>, inbound: Vec<u8>) -> (next: Handshake)
        ensures
            next@ == (HandshakeView::AwaitingFirstPacket {
                peer_version: peer_version@,
                inbound: inbound@,
            }).settled(),
            next@.wf(),
    {
        match Packet::read_from(inbound.as_slice()) {
            Err(FramingError::Truncated) => Handshake {
                state: State::AwaitingFirstPacket { peer_version, inbound },
            },
            Err(e) => Handshake::fail(
                Stage::AwaitingFirstPacket,
                HandshakeError::Connect(ConnectError::Protocol(e)),
            ),
            Ok(packet) => match interpret(packet) {
                Ok(fields) => Handshake { state: State::DecodingKexInit { peer_version, fields } },
                Err(failure) => Handshake { state: State::Failed { failure } },
            },
        }
    }
}

/// The stages are passed in their order: no event takes a handshake back to
/// a stage that it has left, and none takes it out of its end.
pub proof fn lemma_stages_in_order(h: HandshakeView, event: Event)
    ensures
        h.after(event).stage().rank() >= h.stage().rank(),
        h.ended() ==> h.after(event) == h,
{
}

/// What a handshake asks for goes with the stage at which it rests: it opens
/// only before anything else, writes only once the peer's line is there,
/// reads only where a line or a packet is due, and then at least one byte,
/// and stops only at its end. Each answer takes it on, or leaves it where it
/// is waiting for more.
pub proof fn lemma_action(h: HandshakeView)
    requires
        h.wf(),
    ensures
        match h.action() {
            ActionView::Open => h is Connecting && h.done().stage() == Stage::AwaitingPeerVersion,
            ActionView::Read(limit) => limit >= 1 && (h is AwaitingPeerVersion
                || h is AwaitingFirstPacket) && h.closed() is Failed,
            ActionView::Write(bytes) => bytes == own_version_line() && h is SendingOwnVersion
                && h.done().stage().rank() > h.stage().rank(),
            ActionView::Stop => h.ended(),
        },
{
}

} // verus!
