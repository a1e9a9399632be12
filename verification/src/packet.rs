//! One packet of the binary packet protocol, as it travels before any cipher
//! or MAC is active, and a cursor over its payload.
//!
//! On the wire a record is
//! `uint32 packet_length || byte padding_length || payload || padding`;
//! `packet_length` counts everything after itself.

use crate::error::FramingError;
use crate::text::{all_utf8, decode_text, names_of, parse_name_list, NameList};
use crate::wire::{
    be_bytes, be_u32, lemma_be_bytes_of_be_u32, lemma_be_u32_of_be_bytes, read_be_u32,
    write_be_u32,
};
use vstd::prelude::*;
use vstd::slice::{slice_subrange, slice_to_vec};
use vstd::utf8::{decode_utf8, valid_utf8};

verus! {

/// The smallest length field accepted.
pub const MIN_PACKET_LENGTH: u32 = 2;

/// The largest length field accepted; it bounds what is allocated for a
/// record whose length nothing has authenticated yet.
pub const MAX_PACKET_LENGTH: u32 = 35000;

/// What a packet is, as contracts speak of it.
pub struct PacketView {
    /// The length field of the record.
    pub packet_length: u32,
    /// The padding-length byte of the record.
    pub padding_length: u8,
    /// The payload; its first byte is the message type.
    pub payload: Seq<u8>,
    /// The padding that followed the payload.
    pub padding: Seq<u8>,
    /// The MAC; empty as long as no MAC algorithm is active.
    pub mac: Seq<u8>,
    /// The read position in the payload.
    pub cursor: nat,
}

impl PacketView {
    /// The lengths agree with each other and the cursor is within the payload.
    pub open spec fn wf(self) -> bool {
        &&& MIN_PACKET_LENGTH <= self.packet_length <= MAX_PACKET_LENGTH
        &&& self.packet_length == 1 + self.payload.len() + self.padding.len()
        &&& self.padding.len() == self.padding_length
        &&& self.mac.len() == 0
        &&& self.cursor <= self.payload.len()
    }

    /// The payload bytes that no read has consumed yet.
    pub open spec fn unread(self) -> Seq<u8> {
        self.payload.subrange(self.cursor as int, self.payload.len() as int)
    }

    /// Whether `n` more bytes can be read without passing the end.
    pub open spec fn has(self, n: nat) -> bool {
        self.cursor + n <= self.payload.len()
    }

    /// The same packet with its cursor moved forward by `n`.
    pub open spec fn advanced(self, n: nat) -> PacketView {
        PacketView { cursor: self.cursor + n, ..self }
    }

    /// The body of the length-prefixed string at the cursor: a four-byte
    /// big-endian length and as many bytes. A string whose prefix or body
    /// would pass the end of the payload is out of bounds.
    pub open spec fn string_at_cursor(self) -> Result<Seq<u8>, FramingError> {
        if !self.has(4) {
            Err(FramingError::OutOfBounds)
        } else if !self.has(4 + be_u32(self.unread()) as nat) {
            Err(FramingError::OutOfBounds)
        } else {
            Ok(self.unread().subrange(4, 4 + be_u32(self.unread())))
        }
    }

    /// The packet after a read of the string at the cursor: past the prefix
    /// and the body, or unmoved if the string is out of bounds.
    pub open spec fn after_string(self) -> PacketView {
        match self.string_at_cursor() {
            Ok(body) => self.advanced(4 + body.len()),
            Err(_) => self,
        }
    }

    /// The text of the string at the cursor.
    pub open spec fn text_at_cursor(self) -> Result<Seq<char>, FramingError> {
        match self.string_at_cursor() {
            Ok(body) => if valid_utf8(body) {
                Ok(decode_utf8(body))
            } else {
                Err(FramingError::Encoding)
            },
            Err(e) => Err(e),
        }
    }

    /// The names of the name-list at the cursor.
    pub open spec fn names_at_cursor(self) -> Result<Seq<Seq<char>>, FramingError> {
        match self.string_at_cursor() {
            Ok(body) => if valid_utf8(body) {
                Ok(names_of(body))
            } else {
                Err(FramingError::Encoding)
            },
            Err(e) => Err(e),
        }
    }
}

/// Where the cursor of a freshly framed packet stands: past the message type.
pub open spec fn initial_cursor(payload: Seq<u8>) -> nat {
    if payload.len() == 0 {
        0
    } else {
        1
    }
}

/// The packet with the given payload and padding, cursor at its start.
pub open spec fn packet_of(payload: Seq<u8>, padding: Seq<u8>) -> PacketView {
    PacketView {
        packet_length: (1 + payload.len() + padding.len()) as u32,
        padding_length: padding.len() as u8,
        payload,
        padding,
        mac: Seq::empty(),
        cursor: initial_cursor(payload),
    }
}

/// The wire record of a packet with the given payload and padding.
pub open spec fn wire_record(payload: Seq<u8>, padding: Seq<u8>) -> Seq<u8> {
    be_bytes((1 + payload.len() + padding.len()) as u32) + seq![padding.len() as u8] + payload
        + padding
}

/// Whether a payload and a padding of these lengths make a record that a
/// reader accepts.
pub open spec fn frameable(payload_len: nat, padding_len: nat) -> bool {
    &&& padding_len <= u8::MAX
    &&& MIN_PACKET_LENGTH <= 1 + payload_len + padding_len <= MAX_PACKET_LENGTH
}

/// What the length prefix at the head of `stream` announces, or why the
/// record is refused before its body is looked at.
pub open spec fn announced_length(stream: Seq<u8>) -> Result<u32, FramingError> {
    if stream.len() < 4 {
        Err(FramingError::Truncated)
    } else if be_u32(stream) < MIN_PACKET_LENGTH || be_u32(stream) > MAX_PACKET_LENGTH {
        Err(FramingError::InvalidLength)
    } else {
        Ok(be_u32(stream))
    }
}

/// The first packet of a stream that yields `stream` and then closes.
pub open spec fn framed(stream: Seq<u8>) -> Result<PacketView, FramingError> {
    match announced_length(stream) {
        Err(e) => Err(e),
        Ok(n) => {
            if stream.len() - 4 < n {
                Err(FramingError::Truncated)
            } else if stream[4] + 1 > n {
                Err(FramingError::InvalidPadding)
            } else {
                Ok(
                    packet_of(
                        stream.subrange(5, 4 + n - stream[4]),
                        stream.subrange(4 + n - stream[4], 4 + n),
                    ),
                )
            }
        },
    }
}

/// Strings as they stand in a payload, one after the other: each a four-byte
/// big-endian length and its body.
pub open spec fn strings_on_wire(bodies: Seq<Seq<u8>>) -> Seq<u8>
    decreases bodies.len(),
{
    if bodies.len() == 0 {
        Seq::empty()
    } else {
        be_bytes(bodies[0].len() as u32) + bodies[0] + strings_on_wire(bodies.drop_first())
    }
}

/// What reading `count` more name-lists gives once the lists in `read` have
/// been read, from the cursor of `packet`: all the lists in the order of the
/// reads, or the error of the first read that fails; and the packet as the
/// last read left it.
pub open spec fn name_lists_after(
    packet: PacketView,
    count: nat,
    read: Seq<Seq<Seq<char>>>,
) -> (Result<Seq<Seq<Seq<char>>>, FramingError>, PacketView)
    decreases count,
{
    if count == 0 {
        (Ok(read), packet)
    } else {
        match packet.names_at_cursor() {
            Err(e) => (Err(e), packet.after_string()),
            Ok(names) => name_lists_after(
                packet.after_string(),
                (count - 1) as nat,
                read.push(names),
            ),
        }
    }
}

/// What reading `count` name-lists one after the other gives, from the
/// cursor of `packet`.
pub open spec fn name_lists_at(packet: PacketView, count: nat) -> (
    Result<Seq<Seq<Seq<char>>>, FramingError>,
    PacketView,
) {
    name_lists_after(packet, count, Seq::empty())
}

/// A framed packet and the read position in its payload.
#[derive(Debug, PartialEq, Eq)]
pub struct Packet {
    packet_length: u32,
    padding_length: u8,
    payload: Vec<u8>,
    padding: Vec<u8>,
    mac: Vec<u8>,
    pos: usize,
}

impl View for Packet {
    type V = PacketView;

    closed spec fn view(&self) -> PacketView {
        PacketView {
            packet_length: self.packet_length,
            padding_length: self.padding_length,
            payload: self.payload@,
            padding: self.padding@,
            mac: self.mac@,
            cursor: self.pos as nat,
        }
    }
}

impl Packet {
    #[verifier::type_invariant]
    pub open spec fn inv(self) -> bool {
        self@.wf()
    }

    /// Reads the length prefix of a record: the first four bytes of `stream`,
    /// big-endian, checked against the two bounds.
    pub fn announced_length(stream: &[u8]) -> (r: Result<u32, FramingError>)
        ensures
            r == announced_length(stream@),
    {
        if stream.len() < 4 {
            return Err(FramingError::Truncated);
        }
        let n = read_be_u32(stream);
        if n < MIN_PACKET_LENGTH || n > MAX_PACKET_LENGTH {
            return Err(FramingError::InvalidLength);
        }
        Ok(n)
    }

    /// Frames the first packet of `stream`, the bytes that the transport
    /// yields before it closes. Bytes after the record are left alone.
    pub fn read_from(stream: &[u8]) -> (r: Result<Packet, FramingError>)
        ensures
            match framed(stream@) {
                Ok(v) => r is Ok && r->Ok_0@ == v,
                Err(e) => r == Err::<Packet, FramingError>(e),
            },
            r matches Ok(p) ==> p@.wf(),
            stream@.len() >= 4 && be_u32(stream@) > MAX_PACKET_LENGTH ==> r == Err::<
                Packet,
                FramingError,
            >(FramingError::InvalidLength),
            stream@.len() >= 4 && MIN_PACKET_LENGTH <= be_u32(stream@) <= MAX_PACKET_LENGTH
                && stream@.len() >= 4 + be_u32(stream@) && stream@[4] + 1 > be_u32(stream@) ==> r
                == Err::<Packet, FramingError>(FramingError::InvalidPadding),
    {
        let n = match Packet::announced_length(stream) {
            Ok(n) => n as usize,
            Err(e) => { return Err(e); },
        };
        if stream.len() - 4 < n {
            return Err(FramingError::Truncated);
        }
        let padding_length = stream[4];
        if padding_length as usize + 1 > n {
            return Err(FramingError::InvalidPadding);
        }
        let split = 4 + n - padding_length as usize;
        let payload = slice_to_vec(slice_subrange(stream, 5, split));
        let padding = slice_to_vec(slice_subrange(stream, split, 4 + n));
        let pos: usize = if payload.len() == 0 { 0 } else { 1 };
        Ok(Packet { packet_length: n as u32, padding_length, payload, padding, mac: Vec::new(), pos })
    }

    /// A packet of one's own making, with the cursor where a framed packet
    /// has it. A padding over 255 bytes has no length byte; a payload and
    /// padding whose record falls outside the two bounds has no length field.
    pub fn new(payload: Vec<u8>, padding: Vec<u8>) -> (r: Result<Packet, FramingError>)
        ensures
            frameable(payload@.len(), padding@.len()) ==> r is Ok && r->Ok_0@ == packet_of(
                payload@,
                padding@,
            ),
            padding@.len() > u8::MAX ==> r == Err::<Packet, FramingError>(
                FramingError::InvalidPadding,
            ),
            padding@.len() <= u8::MAX && !frameable(payload@.len(), padding@.len()) ==> r == Err::<
                Packet,
                FramingError,
            >(FramingError::InvalidLength),
            r matches Ok(p) ==> p@.wf(),
    {
        if padding.len() > 255 {
            return Err(FramingError::InvalidPadding);
        }
        if payload.len() > MAX_PACKET_LENGTH as usize || 1 + payload.len() + padding.len()
            > MAX_PACKET_LENGTH as usize || 1 + payload.len() + padding.len()
            < MIN_PACKET_LENGTH as usize {
            return Err(FramingError::InvalidLength);
        }
        let packet_length = (1 + payload.len() + padding.len()) as u32;
        let padding_length = padding.len() as u8;
        let pos: usize = if payload.len() == 0 { 0 } else { 1 };
        Ok(Packet { packet_length, padding_length, payload, padding, mac: Vec::new(), pos })
    }

    /// The wire record of this packet: length field, padding-length byte,
    /// payload, padding. Framing the record gives the packet back, with its
    /// payload and padding byte for byte and its cursor at the start.
    pub fn to_bytes(&self) -> (out: Vec<u8>)
        ensures
            out@ == wire_record(self@.payload, self@.padding),
            framed(out@) == Ok::<PacketView, FramingError>(
                packet_of(self@.payload, self@.padding),
            ),
    {
        proof {
            use_type_invariant(self);
            let record = wire_record(self@.payload, self@.padding);
            lemma_framed_wire_record(self@.payload, self@.padding, Seq::empty());
            assert(record + Seq::<u8>::empty() == record);
        }
        let mut out = write_be_u32(self.packet_length);
        out.push(self.padding_length);
        let mut payload = slice_to_vec(self.payload.as_slice());
        out.append(&mut payload);
        let mut padding = slice_to_vec(self.padding.as_slice());
        out.append(&mut padding);
        out
    }

    /// The length field of the record.
    pub fn packet_length(&self) -> (n: u32)
        ensures
            n == self@.packet_length,
    {
        self.packet_length
    }

    /// The padding-length byte of the record.
    pub fn padding_length(&self) -> (n: u8)
        ensures
            n == self@.padding_length,
    {
        self.padding_length
    }

    /// The payload, message type first.
    pub fn payload(&self) -> (bytes: &Vec<u8>)
        ensures
            bytes@ == self@.payload,
    {
        &self.payload
    }

    /// The padding, which this layer does not interpret.
    pub fn padding(&self) -> (bytes: &Vec<u8>)
        ensures
            bytes@ == self@.padding,
    {
        &self.padding
    }

    /// The MAC: empty, as no MAC algorithm is active.
    pub fn mac(&self) -> (bytes: &Vec<u8>)
        ensures
            bytes@ == self@.mac,
            bytes@.len() == 0,
    {
        proof {
            use_type_invariant(self);
        }
        &self.mac
    }

    /// The read position in the payload.
    pub fn position(&self) -> (n: usize)
        ensures
            n == self@.cursor,
            n <= self@.payload.len(),
    {
        proof {
            use_type_invariant(self);
        }
        self.pos
    }

    /// The number of payload bytes that no read has consumed yet.
    pub fn remaining(&self) -> (n: usize)
        ensures
            n == self@.unread().len(),
            n == self@.payload.len() - self@.cursor,
    {
        proof {
            use_type_invariant(self);
        }
        self.payload.len() - self.pos
    }

    /// The message type: the first byte of the payload. The cursor does not
    /// move; it stands past this byte from the start.
    pub fn msg_type(&self) -> (r: Result<u8, FramingError>)
        ensures
            self@.payload.len() == 0 ==> r == Err::<u8, FramingError>(FramingError::EmptyPayload),
            self@.payload.len() > 0 ==> r == Ok::<u8, FramingError>(self@.payload[0]),
    {
        if self.payload.len() == 0 {
            Err(FramingError::EmptyPayload)
        } else {
            Ok(self.payload[0])
        }
    }

    /// Moves the cursor forward by exactly `len` bytes, or leaves it where it
    /// is if fewer are left.
    pub fn discard(&mut self, len: usize) -> (r: Result<(), FramingError>)
        ensures
            old(self)@.has(len as nat) ==> r is Ok && final(self)@ == old(self)@.advanced(
                len as nat,
            ),
            !old(self)@.has(len as nat) ==> r == Err::<(), FramingError>(
                FramingError::OutOfBounds,
            ) && final(self)@ == old(self)@,
            final(self)@.wf(),
    {
        proof {
            use_type_invariant(&*self);
        }
        if len > self.payload.len() - self.pos {
            return Err(FramingError::OutOfBounds);
        }
        self.pos = self.pos + len;
        Ok(())
    }

    /// Reads exactly `len` bytes at the cursor and moves past them, or reads
    /// nothing if fewer are left.
    pub fn take(&mut self, len: usize) -> (r: Result<Vec<u8>, FramingError>)
        ensures
            old(self)@.has(len as nat) ==> r is Ok && r->Ok_0@ == old(self)@.unread().subrange(
                0,
                len as int,
            ) && final(self)@ == old(self)@.advanced(len as nat),
            !old(self)@.has(len as nat) ==> r == Err::<Vec<u8>, FramingError>(
                FramingError::OutOfBounds,
            ) && final(self)@ == old(self)@,
            final(self)@.wf(),
    {
        proof {
            use_type_invariant(&*self);
        }
        if len > self.payload.len() - self.pos {
            return Err(FramingError::OutOfBounds);
        }
        let out = slice_to_vec(slice_subrange(self.payload.as_slice(), self.pos, self.pos + len));
        self.pos = self.pos + len;
        Ok(out)
    }

    /// Reads the byte at the cursor and moves past it.
    pub fn read_byte(&mut self) -> (r: Result<u8, FramingError>)
        ensures
            old(self)@.has(1) ==> r == Ok::<u8, FramingError>(old(self)@.unread()[0])
                && final(self)@ == old(self)@.advanced(1),
            !old(self)@.has(1) ==> r == Err::<u8, FramingError>(FramingError::OutOfBounds)
                && final(self)@ == old(self)@,
            final(self)@.wf(),
    {
        proof {
            use_type_invariant(&*self);
        }
        if self.pos >= self.payload.len() {
            return Err(FramingError::OutOfBounds);
        }
        let b = self.payload[self.pos];
        self.pos = self.pos + 1;
        Ok(b)
    }

    /// Reads the four bytes at the cursor as a big-endian integer and moves
    /// past them.
    pub fn read_u32(&mut self) -> (r: Result<u32, FramingError>)
        ensures
            old(self)@.has(4) ==> r == Ok::<u32, FramingError>(be_u32(old(self)@.unread()))
                && final(self)@ == old(self)@.advanced(4),
            !old(self)@.has(4) ==> r == Err::<u32, FramingError>(FramingError::OutOfBounds)
                && final(self)@ == old(self)@,
            final(self)@.wf(),
    {
        proof {
            use_type_invariant(&*self);
        }
        if 4 > self.payload.len() - self.pos {
            return Err(FramingError::OutOfBounds);
        }
        let n = read_be_u32(
            slice_subrange(self.payload.as_slice(), self.pos, self.payload.len()),
        );
        self.pos = self.pos + 4;
        Ok(n)
    }

    /// Reads the length-prefixed string at the cursor and moves past its
    /// prefix and body, or reads nothing if either would pass the end.
    pub fn read_bytes(&mut self) -> (r: Result<Vec<u8>, FramingError>)
        ensures
            match old(self)@.string_at_cursor() {
                Ok(body) => r is Ok && r->Ok_0@ == body && final(self)@ == old(self)@.advanced(
                    4 + body.len(),
                ),
                Err(e) => r == Err::<Vec<u8>, FramingError>(e) && final(self)@ == old(self)@,
            },
            final(self)@.wf(),
    {
        proof {
            use_type_invariant(&*self);
        }
        let left = self.payload.len() - self.pos;
        if 4 > left {
            return Err(FramingError::OutOfBounds);
        }
        let unread = slice_subrange(self.payload.as_slice(), self.pos, self.payload.len());
        let n = read_be_u32(unread) as usize;
        if n > left - 4 {
            return Err(FramingError::OutOfBounds);
        }
        let out = slice_to_vec(slice_subrange(unread, 4, 4 + n));
        self.pos = self.pos + 4 + n;
        Ok(out)
    }

    /// Reads the length-prefixed string at the cursor as UTF-8 text. The
    /// cursor moves past the string whether or not its body is text; it stays
    /// only if the string is out of bounds.
    pub fn read_str(&mut self) -> (r: Result<String, FramingError>)
        ensures
            match old(self)@.text_at_cursor() {
                Ok(text) => r is Ok && r->Ok_0@ == text,
                Err(e) => r == Err::<String, FramingError>(e),
            },
            final(self)@ == old(self)@.after_string(),
            final(self)@.wf(),
    {
        let body = self.read_bytes()?;
        decode_text(body)
    }

    /// Reads the name-list at the cursor: a length-prefixed string whose text
    /// is parted at its commas. The cursor moves as for `read_str`.
    pub fn read_name_list(&mut self) -> (r: Result<NameList, FramingError>)
        ensures
            match old(self)@.names_at_cursor() {
                Ok(names) => r is Ok && r->Ok_0@ == names,
                Err(e) => r == Err::<NameList, FramingError>(e),
            },
            final(self)@ == old(self)@.after_string(),
            final(self)@.wf(),
    {
        let body = self.read_bytes()?;
        parse_name_list(body.as_slice())
    }

    /// Reads `count` name-lists one after the other and stops at the first
    /// that fails, with the cursor where that read left it.
    pub fn read_name_lists(&mut self, count: usize) -> (r: Result<Vec<NameList>, FramingError>)
        ensures
            match name_lists_at(old(self)@, count as nat).0 {
                Ok(lists) => r is Ok && r->Ok_0@.map_values(|l: NameList| l@) == lists,
                Err(e) => r == Err::<Vec<NameList>, FramingError>(e),
            },
            final(self)@ == name_lists_at(old(self)@, count as nat).1,
            final(self)@.wf(),
            r matches Ok(lists) ==> lists@.len() == count,
    {
        proof {
            use_type_invariant(&*self);
            lemma_name_lists_after(self@, count as nat, Seq::empty());
        }
        let mut lists: Vec<NameList> = Vec::new();
        let mut i: usize = 0;
        assert(lists@.map_values(|l: NameList| l@) == Seq::<Seq<Seq<char>>>::empty());
        while i < count
            invariant
                i <= count,
                self@.wf(),
                name_lists_at(old(self)@, count as nat) == name_lists_after(
                    self@,
                    (count - i) as nat,
                    lists@.map_values(|l: NameList| l@),
                ),
            decreases count - i,
        {
            let ghost before = lists@.map_values(|l: NameList| l@);
            let names = self.read_name_list()?;
            lists.push(names);
            assert(lists@.map_values(|l: NameList| l@) == before.push(names@));
            i = i + 1;
        }
        Ok(lists)
    }
}

/// Framing undoes what writing the record did: a stream that begins with the
/// record of a payload and a padding, whatever follows it, frames to the
/// packet with that payload and that padding, byte for byte.
pub proof fn lemma_framed_wire_record(payload: Seq<u8>, padding: Seq<u8>, rest: Seq<u8>)
    requires
        frameable(payload.len(), padding.len()),
    ensures
        framed(wire_record(payload, padding) + rest) == Ok::<PacketView, FramingError>(
            packet_of(payload, padding),
        ),
        packet_of(payload, padding).wf(),
{
    let n = (1 + payload.len() + padding.len()) as u32;
    let stream = wire_record(payload, padding) + rest;
    assert(stream == be_bytes(n) + (seq![padding.len() as u8] + payload + padding + rest));
    lemma_be_u32_of_be_bytes(n, seq![padding.len() as u8] + payload + padding + rest);
    assert(stream[4] == padding.len() as u8);
    assert(stream.subrange(5, 4 + n - stream[4]) == payload);
    assert(stream.subrange(4 + n - stream[4], 4 + n) == padding);
}

/// What framing accepts is a record: a stream frames to a packet only if it
/// begins with the record of that packet's payload and padding.
pub proof fn lemma_framed_is_record(stream: Seq<u8>)
    requires
        framed(stream) is Ok,
    ensures
        ({
            let packet = framed(stream)->Ok_0;
            &&& packet.wf()
            &&& frameable(packet.payload.len(), packet.padding.len())
            &&& stream.len() >= 4 + packet.packet_length
            &&& stream.take(4 + packet.packet_length) == wire_record(
                packet.payload,
                packet.padding,
            )
        }),
{
    let packet = framed(stream)->Ok_0;
    let n = be_u32(stream);
    lemma_be_bytes_of_be_u32(stream);
    assert(stream.take(4 + n) == stream.subrange(0, 4) + seq![stream[4]] + packet.payload
        + packet.padding);
}

/// Framing reads nothing behind the record: once a part of a stream is
/// enough to accept or to refuse its first record, the bytes that follow
/// change nothing.
pub proof fn lemma_framed_prefix(stream: Seq<u8>, k: int)
    requires
        0 <= k <= stream.len(),
        framed(stream.take(k)) != Err::<PacketView, FramingError>(FramingError::Truncated),
    ensures
        framed(stream) == framed(stream.take(k)),
{
    let part = stream.take(k);
    assert(part.len() >= 4);
    assert(part[0] == stream[0] && part[1] == stream[1] && part[2] == stream[2] && part[3]
        == stream[3]);
    let n = be_u32(stream);
    if MIN_PACKET_LENGTH <= n <= MAX_PACKET_LENGTH {
        assert(part.len() - 4 >= n);
        assert(part[4] == stream[4]);
        if stream[4] + 1 <= n {
            assert(part.subrange(5, 4 + n - stream[4]) == stream.subrange(5, 4 + n - stream[4]));
            assert(part.subrange(4 + n - stream[4], 4 + n) == stream.subrange(
                4 + n - stream[4],
                4 + n,
            ));
        }
    }
}

/// A read of a string moves the cursor by four and the length of the body,
/// no more and no less: where the unread bytes begin with the prefix and the
/// body, the read gives the body, and what followed the body is then unread.
pub proof fn lemma_string_at_cursor(packet: PacketView, body: Seq<u8>, rest: Seq<u8>)
    requires
        packet.wf(),
        packet.unread() == be_bytes(body.len() as u32) + body + rest,
    ensures
        packet.string_at_cursor() == Ok::<Seq<u8>, FramingError>(body),
        packet.after_string().cursor == packet.cursor + 4 + body.len(),
        packet.after_string().unread() == rest,
        packet.after_string().wf(),
{
    let n = body.len() as u32;
    assert(packet.unread() == be_bytes(n) + (body + rest));
    lemma_be_u32_of_be_bytes(n, body + rest);
    assert(packet.unread().subrange(4, 4 + n) == body);
    assert(packet.after_string().unread() == packet.unread().skip(4 + n));
    assert(packet.unread().skip(4 + n) == rest);
}

/// No read moves the cursor back or past the end, and none touches the
/// record: after any number of reads of name-lists the packet is the same
/// packet with its cursor further on. Reads that all succeed give as many
/// lists as were asked for, behind the lists that were read before.
pub proof fn lemma_name_lists_after(packet: PacketView, count: nat, read: Seq<Seq<Seq<char>>>)
    requires
        packet.wf(),
    ensures
        ({
            let (lists, end) = name_lists_after(packet, count, read);
            &&& end.wf()
            &&& end.cursor >= packet.cursor
            &&& end == packet.advanced((end.cursor - packet.cursor) as nat)
            &&& lists matches Ok(lists) ==> lists.len() == read.len() + count && lists.take(
                read.len() as int,
            ) == read
        }),
    decreases count,
{
    if count > 0 {
        let next = packet.after_string();
        assert(next == packet.advanced((next.cursor - packet.cursor) as nat));
        match packet.names_at_cursor() {
            Err(_) => {},
            Ok(names) => {
                lemma_name_lists_after(next, (count - 1) as nat, read.push(names));
                match name_lists_after(packet, count, read).0 {
                    Ok(lists) => {
                        assert(lists.take(read.len() as int) == lists.take(
                            read.len() as int + 1,
                        ).take(read.len() as int));
                    },
                    Err(_) => {},
                }
            },
        }
    } else {
        assert(read.take(read.len() as int) == read);
        assert(packet == packet.advanced(0));
    }
}

/// Reading name-lists that stand one after the other gives each in turn:
/// where the unread bytes begin with `bodies` as strings and every body is
/// valid UTF-8, reading that many name-lists gives the names of each body in
/// order and leaves the cursor behind the last of them.
pub proof fn lemma_name_lists_read(packet: PacketView, bodies: Seq<Seq<u8>>, rest: Seq<u8>)
    requires
        packet.wf(),
        packet.unread() == strings_on_wire(bodies) + rest,
        all_utf8(bodies),
    ensures
        name_lists_at(packet, bodies.len()).0 == Ok::<Seq<Seq<Seq<char>>>, FramingError>(
            bodies.map_values(|body: Seq<u8>| names_of(body)),
        ),
        name_lists_at(packet, bodies.len()).1 == packet.advanced(strings_on_wire(bodies).len()),
        name_lists_at(packet, bodies.len()).1.unread() == rest,
        name_lists_at(packet, bodies.len()).1.wf(),
{
    lemma_name_lists_read_after(packet, bodies, rest, Seq::empty());
    assert(Seq::<Seq<Seq<char>>>::empty() + bodies.map_values(|body: Seq<u8>| names_of(body))
        == bodies.map_values(|body: Seq<u8>| names_of(body)));
    let end = packet.advanced(strings_on_wire(bodies).len());
    assert(end.unread() == packet.unread().skip(strings_on_wire(bodies).len() as int));
    assert(packet.unread().skip(strings_on_wire(bodies).len() as int) == rest);
}

/// As many reads as the payload holds name-lists consume it exactly: where
/// the unread bytes are `bodies` as strings, one after the other, and every
/// body is valid UTF-8, reading that many name-lists gives the names of each
/// body in order and leaves the cursor at the end of the payload.
pub proof fn lemma_name_lists_consume(packet: PacketView, bodies: Seq<Seq<u8>>)
    requires
        packet.wf(),
        packet.unread() == strings_on_wire(bodies),
        all_utf8(bodies),
    ensures
        name_lists_at(packet, bodies.len()).0 == Ok::<Seq<Seq<Seq<char>>>, FramingError>(
            bodies.map_values(|body: Seq<u8>| names_of(body)),
        ),
        name_lists_at(packet, bodies.len()).1.cursor == packet.payload.len(),
{
    assert(strings_on_wire(bodies) + Seq::<u8>::empty() == strings_on_wire(bodies));
    lemma_name_lists_read(packet, bodies, Seq::empty());
}

proof fn lemma_name_lists_read_after(
    packet: PacketView,
    bodies: Seq<Seq<u8>>,
    rest: Seq<u8>,
    read: Seq<Seq<Seq<char>>>,
)
    requires
        packet.wf(),
        packet.unread() == strings_on_wire(bodies) + rest,
        all_utf8(bodies),
    ensures
        name_lists_after(packet, bodies.len(), read) == (
            Ok::<Seq<Seq<Seq<char>>>, FramingError>(
                read + bodies.map_values(|body: Seq<u8>| names_of(body)),
            ),
            packet.advanced(strings_on_wire(bodies).len()),
        ),
    decreases bodies.len(),
{
    let named = bodies.map_values(|body: Seq<u8>| names_of(body));
    if bodies.len() == 0 {
        assert(read + named == read);
        assert(packet.advanced(0) == packet);
    } else {
        let first = bodies[0];
        let others = bodies.drop_first();
        assert(packet.unread() == be_bytes(first.len() as u32) + first + (strings_on_wire(others)
            + rest));
        lemma_string_at_cursor(packet, first, strings_on_wire(others) + rest);
        assert(valid_utf8(first));
        let next = packet.after_string();
        assert(all_utf8(others)) by {
            assert forall|k: int| 0 <= k < others.len() implies valid_utf8(#[trigger] others[k]) by {
                assert(others[k] == bodies[k + 1]);
            }
        }
        lemma_name_lists_read_after(next, others, rest, read.push(names_of(first)));
        assert(read.push(names_of(first)) + others.map_values(|body: Seq<u8>| names_of(body))
            == read + named);
        assert(next.advanced(strings_on_wire(others).len()) == packet.advanced(
            strings_on_wire(bodies).len(),
        ));
    }
}

} // verus!
