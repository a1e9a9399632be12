//! Transport-layer front end of an SSH client.
//!
//! The crate frames SSH binary packets that arrive before any cipher or MAC
//! is active, offers bounds-checked reads over a packet's payload, decodes the
//! algorithm-negotiation message into its ten name-lists, and holds the
//! decisions of the version exchange as a state machine that a driver feeds
//! with the bytes it reads from the transport.
//!
//! - [`wire`]: big-endian integers, read and written with `byteorder`.
//! - [`text`]: UTF-8 text and name-lists.
//! - [`packet`]: the wire record, the framed packet and the cursor over its
//!   payload.
//! - [`message`]: message types and the dispatch on the first message.
//! - [`kexinit`]: the algorithm-negotiation message.
//! - [`handshake`]: the state machine of the handshake.
//! - [`replay`]: the handshake over a recorded stream, and the laws that tie
//!   the state machine to it.
//! - [`error`]: the errors of all of them.
//!
//! The library does no I/O. Every function is verified against its contract;
//! the contracts of the few functions that call outside code are stated and
//! believed, and each says so.

pub mod error;
pub mod handshake;
pub mod kexinit;
pub mod message;
pub mod packet;
pub mod replay;
pub mod text;
pub mod wire;

pub use error::{ConnectError, DispatchError, FramingError, HandshakeError};
pub use handshake::{Action, Diagnostic, Event, Failure, Handshake, Level, Stage, VERSION};
pub use kexinit::KexInitFields;
pub use message::MSG_TYPE;
pub use packet::Packet;
pub use text::NameList;
