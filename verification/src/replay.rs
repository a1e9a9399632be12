//! The handshake over a recorded stream: what a stream comes to as a whole,
//! and that the state machine comes to the same however the reads cut the
//! stream.

use crate::error::{ConnectError, FramingError};
use crate::handshake::{
    connect_failure, first_message, lemma_action, lemma_stages_in_order, protocol_failure,
    without_cr, Action, Event, Failure, Handshake, HandshakeView, Stage, MAX_LINE_LENGTH,
};
use crate::kexinit::KexInitFields;
use crate::packet::{framed, lemma_framed_prefix, PacketView};
use crate::text::{lemma_run_len, lemma_run_len_concat, lemma_run_len_is, run_len, LF};
use vstd::prelude::*;
use vstd::slice::{slice_subrange, slice_to_vec};

verus! {

/// What a handshake comes to over a transport that opens, takes what is
/// written to it, and yields `inbound` before it closes: the peer's line
/// ends at the first line feed, and the first packet begins behind it.
pub open spec fn outcome(inbound: Seq<u8>) -> Result<Seq<Seq<Seq<char>>>, Failure> {
    let n = run_len(inbound, LF) as int;
    if n >= MAX_LINE_LENGTH {
        Err(protocol_failure(Stage::AwaitingPeerVersion, FramingError::InvalidLength))
    } else if n >= inbound.len() {
        Err(connect_failure(Stage::AwaitingPeerVersion, ConnectError::Closed))
    } else if inbound.skip(n + 1).len() == 0 {
        Err(connect_failure(Stage::AwaitingFirstPacket, ConnectError::Closed))
    } else {
        match framed(inbound.skip(n + 1)) {
            Err(e) => Err(protocol_failure(Stage::AwaitingFirstPacket, e)),
            Ok(packet) => first_message(packet),
        }
    }
}

/// The identification string of the peer in `inbound`: its first line,
/// without the line feed and the carriage return that may stand before it.
pub open spec fn peer_version_in(inbound: Seq<u8>) -> Seq<u8> {
    without_cr(inbound.take(run_len(inbound, LF) as int))
}

/// The bytes of reads that came one after the other, as one stream.
pub open spec fn joined_reads(reads: Seq<Seq<u8>>) -> Seq<u8>
    decreases reads.len(),
{
    if reads.len() == 0 {
        Seq::empty()
    } else {
        joined_reads(reads.drop_last()) + reads.last()
    }
}

impl HandshakeView {
    /// Whether this is a handshake whose transport has opened, where it was
    /// asked to, has taken what was written to it, and has so far yielded
    /// the first `count` bytes of `inbound`, in reads of any sizes.
    #[verifier::opaque]
    pub open spec fn tracks(self, inbound: Seq<u8>, count: int) -> bool {
        let n = run_len(inbound, LF) as int;
        &&& 0 <= count <= inbound.len()
        &&& self.wf()
        &&& match self {
            HandshakeView::Connecting => count == 0,
            HandshakeView::AwaitingPeerVersion { inbound: held } => held == inbound.take(count),
            HandshakeView::SendingOwnVersion { peer_version, inbound: held } => {
                &&& n < MAX_LINE_LENGTH
                &&& n < count
                &&& peer_version == peer_version_in(inbound)
                &&& held == inbound.subrange(n + 1, count)
            },
            HandshakeView::AwaitingFirstPacket { peer_version, inbound: held } => {
                &&& n < MAX_LINE_LENGTH
                &&& n < count
                &&& peer_version == peer_version_in(inbound)
                &&& held == inbound.subrange(n + 1, count)
            },
            HandshakeView::DecodingKexInit { peer_version, fields } => {
                &&& peer_version == peer_version_in(inbound)
                &&& outcome(inbound) == Ok::<Seq<Seq<Seq<char>>>, Failure>(fields)
            },
            HandshakeView::Failed { failure } => outcome(inbound) == Err::<
                Seq<Seq<Seq<char>>>,
                Failure,
            >(failure),
        }
    }

    /// The handshake once its line is written, if it was about to write it.
    pub open spec fn written(self) -> HandshakeView {
        if self is SendingOwnVersion {
            self.done()
        } else {
            self
        }
    }

    /// The handshake after these reads in turn, over a transport that takes
    /// the handshake's line as soon as the handshake asks to write it.
    pub open spec fn after_reads(self, reads: Seq<Seq<u8>>) -> HandshakeView
        decreases reads.len(),
    {
        if reads.len() == 0 {
            self
        } else {
            self.after_reads(reads.drop_last()).written().received(reads.last())
        }
    }
}

impl Handshake {
    /// Runs a handshake over a recorded stream: a transport that opens,
    /// takes what is written to it, and yields `inbound` before it closes.
    pub fn replay(inbound: &[u8]) -> (r: Result<KexInitFields, Failure>)
        ensures
            match outcome(inbound@) {
                Ok(fields) => r is Ok && r->Ok_0@ == fields,
                Err(failure) => r == Err::<KexInitFields, Failure>(failure),
            },
    {
        let mut h = Handshake::new();
        let mut count: usize = 0;
        proof {
            lemma_tracks_from_the_start(inbound@);
        }
        loop
            invariant
                h@.tracks(inbound@, count as int),
                h@.wf(),
                count <= inbound.len(),
            decreases 7 - h@.stage().rank(), inbound.len() - count,
        {
            let ghost before = h@;
            proof {
                lemma_action(before);
            }
            match h.action() {
                Action::Read(limit) => {
                    let left = inbound.len() - count;
                    if left == 0 {
                        proof {
                            lemma_closed_tracks(before, inbound@);
                        }
                        h = h.step(Event::Closed);
                    } else {
                        let more = if limit < left {
                            limit
                        } else {
                            left
                        };
                        let bytes = slice_to_vec(slice_subrange(inbound, count, count + more));
                        let event = Event::Received(bytes);
                        proof {
                            lemma_received_tracks(before, inbound@, count as int, more as int);
                            lemma_stages_in_order(before, event);
                        }
                        h = h.step(event);
                        count = count + more;
                    }
                },
                Action::Stop => {
                    proof {
                        lemma_tracks_to_the_end(before, inbound@, count as int);
                    }
                    return h.finish().unwrap();
                },
                _ => {
                    proof {
                        lemma_done_tracks(before, inbound@, count as int);
                    }
                    h = h.step(Event::Done);
                },
            }
        }
    }
}

/// However the reads cut the stream, the handshake ends the same: over a
/// transport that opens, takes what is written to it, yields a stream in reads
/// of any sizes and then closes, the handshake comes to what the stream as a
/// whole comes to.
pub proof fn lemma_reads_cut_anywhere(reads: Seq<Seq<u8>>)
    ensures
        ({
            let end = HandshakeView::Connecting.done().after_reads(reads).written().closed();
            match outcome(joined_reads(reads)) {
                Ok(fields) => end is DecodingKexInit && end->fields == fields,
                Err(failure) => end == HandshakeView::Failed { failure },
            }
        }),
{
    let inbound = joined_reads(reads);
    assert(inbound.take(inbound.len() as int) == inbound);
    lemma_after_reads_tracks(reads, inbound);
    let read = HandshakeView::Connecting.done().after_reads(reads);
    lemma_done_tracks(read, inbound, inbound.len() as int);
    lemma_begun(read, Seq::empty());
    lemma_closed_tracks(read.written(), inbound);
    lemma_tracks_to_the_end(read.written().closed(), inbound, inbound.len() as int);
}

/// A handshake that has not begun keeps track of every stream, of which
/// nothing has arrived yet.
pub proof fn lemma_tracks_from_the_start(inbound: Seq<u8>)
    ensures
        HandshakeView::Connecting.tracks(inbound, 0),
{
    reveal(HandshakeView::tracks);
}

/// A handshake keeps track of the stream through a read: whatever part of
/// the stream a read gives next, and however the reads before it cut the
/// stream, the handshake is then what the longer part of the stream makes of
/// it.
pub proof fn lemma_received_tracks(h: HandshakeView, inbound: Seq<u8>, count: int, more: int)
    requires
        h.tracks(inbound, count),
        0 <= more,
        count + more <= inbound.len(),
        !(h is Connecting),
    ensures
        h.received(inbound.subrange(count, count + more)).tracks(inbound, count + more),
{
    let n = run_len(inbound, LF) as int;
    let bytes = inbound.subrange(count, count + more);
    match h {
        HandshakeView::AwaitingPeerVersion { inbound: held } => {
            assert(0 <= count && held == inbound.take(count)) by {
                reveal(HandshakeView::tracks);
            }
            assert(held + bytes == inbound.take(count + more));
            lemma_settled_line_tracks(inbound, count + more);
        },
        HandshakeView::SendingOwnVersion { peer_version, inbound: held } => {
            reveal(HandshakeView::tracks);
            assert(held + bytes == inbound.subrange(n + 1, count + more));
        },
        HandshakeView::AwaitingFirstPacket { peer_version, inbound: held } => {
            assert(n < MAX_LINE_LENGTH && n < count && peer_version == peer_version_in(inbound)
                && held == inbound.subrange(n + 1, count)) by {
                reveal(HandshakeView::tracks);
            }
            assert(held + bytes == inbound.subrange(n + 1, count + more));
            lemma_settled_record_tracks(peer_version, inbound, count + more);
        },
        _ => {
            reveal(HandshakeView::tracks);
        },
    }
}

/// A handshake keeps track of the stream when the transport has opened, or
/// has taken what was written to it.
pub proof fn lemma_done_tracks(h: HandshakeView, inbound: Seq<u8>, count: int)
    requires
        h.tracks(inbound, count),
    ensures
        h.done().tracks(inbound, count),
{
    reveal(HandshakeView::tracks);
    match h {
        HandshakeView::Connecting => {
            assert(inbound.take(0) == Seq::<u8>::empty());
        },
        HandshakeView::SendingOwnVersion { peer_version, inbound: held } => {
            lemma_settled_record_tracks(peer_version, inbound, count);
        },
        _ => {},
    }
}

/// A handshake that has taken in all of the stream and then finds it closed
/// ends as the stream has it.
pub proof fn lemma_closed_tracks(h: HandshakeView, inbound: Seq<u8>)
    requires
        h.tracks(inbound, inbound.len() as int),
        h is AwaitingPeerVersion || h is AwaitingFirstPacket || h.ended(),
    ensures
        h.closed().tracks(inbound, inbound.len() as int),
        h.closed().ended(),
{
    reveal(HandshakeView::tracks);
    let n = run_len(inbound, LF) as int;
    match h {
        HandshakeView::AwaitingPeerVersion { inbound: held } => {
            assert(inbound.take(inbound.len() as int) == inbound);
        },
        HandshakeView::AwaitingFirstPacket { peer_version, inbound: held } => {
            assert(held == inbound.skip(n + 1));
        },
        _ => {},
    }
}

/// A handshake that kept track of a stream and has ended has come to what
/// the stream comes to, whether or not it has taken in all of it.
pub proof fn lemma_tracks_to_the_end(h: HandshakeView, inbound: Seq<u8>, count: int)
    requires
        h.tracks(inbound, count),
        h.ended(),
    ensures
        match h {
            HandshakeView::DecodingKexInit { peer_version, fields } => outcome(inbound) == Ok::<
                Seq<Seq<Seq<char>>>,
                Failure,
            >(fields) && peer_version == peer_version_in(inbound),
            HandshakeView::Failed { failure } => outcome(inbound) == Err::<
                Seq<Seq<Seq<char>>>,
                Failure,
            >(failure),
            _ => false,
        },
{
    reveal(HandshakeView::tracks);
}

/// A handshake that has begun does not come back to its beginning, and once
/// its line is written it is not about to write it.
proof fn lemma_begun(h: HandshakeView, bytes: Seq<u8>)
    requires
        !(h is Connecting),
    ensures
        !(h.written() is Connecting),
        !(h.written() is SendingOwnVersion),
        !(h.received(bytes) is Connecting),
{
}

/// A handshake keeps track of a stream through any reads that give a part of
/// it from its start.
proof fn lemma_after_reads_tracks(reads: Seq<Seq<u8>>, inbound: Seq<u8>)
    requires
        joined_reads(reads).len() <= inbound.len(),
        inbound.take(joined_reads(reads).len() as int) == joined_reads(reads),
    ensures
        HandshakeView::Connecting.done().after_reads(reads).tracks(
            inbound,
            joined_reads(reads).len() as int,
        ),
        !(HandshakeView::Connecting.done().after_reads(reads) is Connecting),
    decreases reads.len(),
{
    let start = HandshakeView::Connecting.done();
    if reads.len() == 0 {
        lemma_tracks_from_the_start(inbound);
        lemma_done_tracks(HandshakeView::Connecting, inbound, 0);
    } else {
        let earlier = reads.drop_last();
        let last = reads.last();
        let count = joined_reads(earlier).len() as int;
        let more = last.len() as int;
        assert(joined_reads(reads) == joined_reads(earlier) + last);
        assert(inbound.take(count) == inbound.take(count + more).take(count));
        assert(inbound.take(count) == joined_reads(earlier));
        lemma_after_reads_tracks(earlier, inbound);
        let h = start.after_reads(earlier);
        lemma_done_tracks(h, inbound, count);
        lemma_begun(h, last);
        let written = h.written();
        assert(written.tracks(inbound, count));
        assert(inbound.subrange(count, count + more) == last) by {
            assert(inbound.take(count + more).skip(count) == last);
        }
        lemma_received_tracks(written, inbound, count, more);
        lemma_begun(written, last);
        assert(start.after_reads(reads) == written.received(last));
    }
}

/// Settling a first packet whose bytes so far are a part of what the
/// transport yields behind the peer's line.
proof fn lemma_settled_record_tracks(peer_version: Seq<u8>, inbound: Seq<u8>, count: int)
    requires
        run_len(inbound, LF) < MAX_LINE_LENGTH,
        run_len(inbound, LF) < count <= inbound.len(),
        peer_version == peer_version_in(inbound),
    ensures
        (HandshakeView::AwaitingFirstPacket {
            peer_version,
            inbound: inbound.subrange(run_len(inbound, LF) as int + 1, count),
        }).settled().tracks(inbound, count),
{
    reveal(HandshakeView::tracks);
    let n = run_len(inbound, LF) as int;
    let held = inbound.subrange(n + 1, count);
    let rest = inbound.skip(n + 1);
    assert(rest.take(count - n - 1) == held);
    if framed(held) != Err::<PacketView, FramingError>(FramingError::Truncated) {
        lemma_framed_prefix(rest, count - n - 1);
    }
}

/// Settling a line whose bytes so far are the first `count` bytes that the
/// transport yields.
proof fn lemma_settled_line_tracks(inbound: Seq<u8>, count: int)
    requires
        0 <= count <= inbound.len(),
    ensures
        (HandshakeView::AwaitingPeerVersion { inbound: inbound.take(count) }).settled().tracks(
            inbound,
            count,
        ),
{
    reveal(HandshakeView::tracks);
    let held = inbound.take(count);
    let m = run_len(held, LF) as int;
    let next = (HandshakeView::AwaitingPeerVersion { inbound: held }).settled();
    lemma_run_len(held, LF);
    assert(inbound == held + inbound.skip(count));
    if m < held.len() {
        assert(inbound.take(m) == held.take(m));
        lemma_run_len_is(inbound, LF, m);
        assert(run_len(inbound, LF) == m);
        if m < MAX_LINE_LENGTH {
            assert(held.skip(m + 1) == inbound.subrange(m + 1, count));
            assert(next == HandshakeView::SendingOwnVersion {
                peer_version: without_cr(held.take(m)),
                inbound: held.skip(m + 1),
            });
            assert(next.tracks(inbound, count));
        } else {
            assert(next.tracks(inbound, count));
        }
    } else {
        lemma_run_len_concat(held, inbound.skip(count), LF);
        assert(run_len(inbound, LF) >= m);
        if m < MAX_LINE_LENGTH {
            assert(next == HandshakeView::AwaitingPeerVersion { inbound: held });
            assert(next.tracks(inbound, count));
        } else {
            assert(next.tracks(inbound, count));
        }
    }
}

} // verus!
