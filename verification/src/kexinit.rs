//! The algorithm-negotiation message. After its message type the payload is
//! `byte[16] cookie || name-list x 10 || boolean first_kex_packet_follows ||
//! uint32 reserved`.

use crate::error::FramingError;
use crate::packet::{
    lemma_name_lists_after, lemma_name_lists_read, name_lists_at, strings_on_wire, Packet,
    PacketView,
};
use crate::text::{all_utf8, names_of, NameList};
use vstd::prelude::*;

verus! {

/// The length of the random cookie that opens the message.
pub const COOKIE_LENGTH: usize = 16;

/// The number of name-lists in the message.
pub const NAME_LISTS: usize = 10;

/// The length of what follows the name-lists: a boolean and a reserved
/// 32-bit integer.
pub const TRAILER_LENGTH: usize = 5;

/// The ten name-lists of the message, in the order of the wire.
#[derive(Debug, Clone, PartialEq, Eq)]
pub struct KexInitFields {
    /// Key exchange algorithms.
    pub kex_algorithms: NameList,
    /// Algorithms of the server's host key.
    pub server_host_key_algorithms: NameList,
    /// Ciphers from client to server.
    pub encryption_client_to_server: NameList,
    /// Ciphers from server to client.
    pub encryption_server_to_client: NameList,
    /// MAC algorithms from client to server.
    pub mac_client_to_server: NameList,
    /// MAC algorithms from server to client.
    pub mac_server_to_client: NameList,
    /// Compression from client to server.
    pub compression_client_to_server: NameList,
    /// Compression from server to client.
    pub compression_server_to_client: NameList,
    /// Language tags from client to server.
    pub languages_client_to_server: NameList,
    /// Language tags from server to client.
    pub languages_server_to_client: NameList,
}

impl View for KexInitFields {
    type V = Seq<Seq<Seq<char>>>;

    /// The ten lists in the order of the wire, each a sequence of names.
    open spec fn view(&self) -> Seq<Seq<Seq<char>>> {
        seq![
            self.kex_algorithms@,
            self.server_host_key_algorithms@,
            self.encryption_client_to_server@,
            self.encryption_server_to_client@,
            self.mac_client_to_server@,
            self.mac_server_to_client@,
            self.compression_client_to_server@,
            self.compression_server_to_client@,
            self.languages_client_to_server@,
            self.languages_server_to_client@,
        ]
    }
}

/// What decoding the message gives, from the cursor of `packet`: the cookie
/// is passed over, ten name-lists are read, and the trailer is passed over if
/// it is there. The packet is as the last read or skip left it.
pub open spec fn kexinit_at(packet: PacketView) -> (
    Result<Seq<Seq<Seq<char>>>, FramingError>,
    PacketView,
) {
    if !packet.has(COOKIE_LENGTH as nat) {
        (Err(FramingError::OutOfBounds), packet)
    } else {
        let (lists, end) = name_lists_at(packet.advanced(COOKIE_LENGTH as nat), NAME_LISTS as nat);
        match lists {
            Err(e) => (Err(e), end),
            Ok(lists) => (
                Ok(lists),
                if end.has(TRAILER_LENGTH as nat) {
                    end.advanced(TRAILER_LENGTH as nat)
                } else {
                    end
                },
            ),
        }
    }
}

impl KexInitFields {
    /// Decodes the message from a packet whose cursor stands past the message
    /// type. A payload that ends with the tenth name-list is accepted.
    pub fn decode(packet: &mut Packet) -> (r: Result<KexInitFields, FramingError>)
        ensures
            match kexinit_at(old(packet)@).0 {
                Ok(lists) => r is Ok && r->Ok_0@ == lists,
                Err(e) => r == Err::<KexInitFields, FramingError>(e),
            },
            final(packet)@ == kexinit_at(old(packet)@).1,
            final(packet)@.wf(),
    {
        packet.discard(COOKIE_LENGTH)?;
        let mut lists = packet.read_name_lists(NAME_LISTS)?;
        let _ = packet.discard(TRAILER_LENGTH);
        let ghost all = lists@;
        let languages_server_to_client = lists.pop().unwrap();
        let languages_client_to_server = lists.pop().unwrap();
        let compression_server_to_client = lists.pop().unwrap();
        let compression_client_to_server = lists.pop().unwrap();
        let mac_server_to_client = lists.pop().unwrap();
        let mac_client_to_server = lists.pop().unwrap();
        let encryption_server_to_client = lists.pop().unwrap();
        let encryption_client_to_server = lists.pop().unwrap();
        let server_host_key_algorithms = lists.pop().unwrap();
        let kex_algorithms = lists.pop().unwrap();
        let fields = KexInitFields {
            kex_algorithms,
            server_host_key_algorithms,
            encryption_client_to_server,
            encryption_server_to_client,
            mac_client_to_server,
            mac_server_to_client,
            compression_client_to_server,
            compression_server_to_client,
            languages_client_to_server,
            languages_server_to_client,
        };
        assert(fields@ == all.map_values(|l: NameList| l@));
        Ok(fields)
    }
}

/// Decoding moves the cursor on, never back and never past the end, and
/// touches nothing else of the packet.
pub proof fn lemma_kexinit_at_cursor(packet: PacketView)
    requires
        packet.wf(),
    ensures
        ({
            let end = kexinit_at(packet).1;
            &&& end.wf()
            &&& end.cursor >= packet.cursor
            &&& end == packet.advanced((end.cursor - packet.cursor) as nat)
        }),
{
    if packet.has(COOKIE_LENGTH as nat) {
        let start = packet.advanced(COOKIE_LENGTH as nat);
        lemma_name_lists_after(start, NAME_LISTS as nat, Seq::empty());
    } else {
        assert(packet == packet.advanced(0));
    }
}

/// Decoding finds what the layout holds: where the unread bytes are a
/// cookie, ten name-lists of valid UTF-8 and what follows them, decoding
/// gives the names of the ten lists in order, and leaves the cursor behind
/// the trailer if a whole one follows the lists, else behind the lists.
pub proof fn lemma_kexinit_at(
    packet: PacketView,
    cookie: Seq<u8>,
    bodies: Seq<Seq<u8>>,
    rest: Seq<u8>,
)
    requires
        packet.wf(),
        cookie.len() == COOKIE_LENGTH,
        bodies.len() == NAME_LISTS,
        all_utf8(bodies),
        packet.unread() == cookie + strings_on_wire(bodies) + rest,
    ensures
        kexinit_at(packet).0 == Ok::<Seq<Seq<Seq<char>>>, FramingError>(
            bodies.map_values(|body: Seq<u8>| names_of(body)),
        ),
        kexinit_at(packet).1.unread() == if rest.len() >= TRAILER_LENGTH {
            rest.skip(TRAILER_LENGTH as int)
        } else {
            rest
        },
{
    let start = packet.advanced(COOKIE_LENGTH as nat);
    assert(start.unread() == packet.unread().skip(COOKIE_LENGTH as int));
    assert(packet.unread().skip(COOKIE_LENGTH as int) == strings_on_wire(bodies) + rest);
    lemma_name_lists_read(start, bodies, rest);
    let end = name_lists_at(start, NAME_LISTS as nat).1;
    if rest.len() >= TRAILER_LENGTH {
        assert(end.advanced(TRAILER_LENGTH as nat).unread() == end.unread().skip(
            TRAILER_LENGTH as int,
        ));
    }
}

} // verus!
