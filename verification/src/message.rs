//! Message types, and what the handshake does with the first message.

use crate::error::DispatchError;
use vstd::prelude::*;

verus! {

/// The message types that this layer knows by name.
#[allow(non_camel_case_types)]
#[derive(Debug, Clone, Copy, PartialEq, Eq, Structural)]
pub enum MSG_TYPE {
    SSH_MSG_DISCONNECT,
    SSH_MSG_IGNORE,
    SSH_MSG_UNIMPLEMENTED,
    SSH_MSG_DEBUG,
    SSH_MSG_SERVICE_REQUEST,
    SSH_MSG_SERVICE_ACCEPT,
    SSH_MSG_KEXINIT,
    SSH_MSG_NEWKEYS,
}

impl MSG_TYPE {
    /// The tag that stands for this message type on the wire.
    pub open spec fn tag(self) -> u8 {
        match self {
            MSG_TYPE::SSH_MSG_DISCONNECT => 1,
            MSG_TYPE::SSH_MSG_IGNORE => 2,
            MSG_TYPE::SSH_MSG_UNIMPLEMENTED => 3,
            MSG_TYPE::SSH_MSG_DEBUG => 4,
            MSG_TYPE::SSH_MSG_SERVICE_REQUEST => 5,
            MSG_TYPE::SSH_MSG_SERVICE_ACCEPT => 6,
            MSG_TYPE::SSH_MSG_KEXINIT => 20,
            MSG_TYPE::SSH_MSG_NEWKEYS => 21,
        }
    }

    /// The message type for which `n` stands, if it stands for one.
    pub open spec fn of_tag(n: u8) -> Option<MSG_TYPE> {
        if n == 1 {
            Some(MSG_TYPE::SSH_MSG_DISCONNECT)
        } else if n == 2 {
            Some(MSG_TYPE::SSH_MSG_IGNORE)
        } else if n == 3 {
            Some(MSG_TYPE::SSH_MSG_UNIMPLEMENTED)
        } else if n == 4 {
            Some(MSG_TYPE::SSH_MSG_DEBUG)
        } else if n == 5 {
            Some(MSG_TYPE::SSH_MSG_SERVICE_REQUEST)
        } else if n == 6 {
            Some(MSG_TYPE::SSH_MSG_SERVICE_ACCEPT)
        } else if n == 20 {
            Some(MSG_TYPE::SSH_MSG_KEXINIT)
        } else if n == 21 {
            Some(MSG_TYPE::SSH_MSG_NEWKEYS)
        } else {
            None
        }
    }

    /// A tag names the one message type whose tag it is, and no other.
    pub proof fn lemma_tag_names(n: u8, m: MSG_TYPE)
        ensures
            MSG_TYPE::of_tag(n) == Some(m) <==> m.tag() == n,
    {
    }

    /// The tag of this message type.
    pub fn code(&self) -> (n: u8)
        ensures
            n == self.tag(),
    {
        match self {
            MSG_TYPE::SSH_MSG_DISCONNECT => 1,
            MSG_TYPE::SSH_MSG_IGNORE => 2,
            MSG_TYPE::SSH_MSG_UNIMPLEMENTED => 3,
            MSG_TYPE::SSH_MSG_DEBUG => 4,
            MSG_TYPE::SSH_MSG_SERVICE_REQUEST => 5,
            MSG_TYPE::SSH_MSG_SERVICE_ACCEPT => 6,
            MSG_TYPE::SSH_MSG_KEXINIT => 20,
            MSG_TYPE::SSH_MSG_NEWKEYS => 21,
        }
    }

    /// The message type for which `n` stands. A tag that stands for none is
    /// an unknown message, and the error carries the tag.
    pub fn from_u8(n: u8) -> (r: Result<MSG_TYPE, DispatchError>)
        ensures
            r == match MSG_TYPE::of_tag(n) {
                Some(m) => Ok::<MSG_TYPE, DispatchError>(m),
                None => Err::<MSG_TYPE, DispatchError>(DispatchError::UnknownMessage(n)),
            },
    {
        match n {
            1 => Ok(MSG_TYPE::SSH_MSG_DISCONNECT),
            2 => Ok(MSG_TYPE::SSH_MSG_IGNORE),
            3 => Ok(MSG_TYPE::SSH_MSG_UNIMPLEMENTED),
            4 => Ok(MSG_TYPE::SSH_MSG_DEBUG),
            5 => Ok(MSG_TYPE::SSH_MSG_SERVICE_REQUEST),
            6 => Ok(MSG_TYPE::SSH_MSG_SERVICE_ACCEPT),
            20 => Ok(MSG_TYPE::SSH_MSG_KEXINIT),
            21 => Ok(MSG_TYPE::SSH_MSG_NEWKEYS),
            _ => Err(DispatchError::UnknownMessage(n)),
        }
    }
}

/// What becomes of a first message with this tag: the algorithm negotiation
/// goes on to be decoded, every other message type is left unhandled, and a
/// tag that names none is unknown.
pub open spec fn dispatched(tag: u8) -> Result<(), DispatchError> {
    match MSG_TYPE::of_tag(tag) {
        Some(MSG_TYPE::SSH_MSG_KEXINIT) => Ok(()),
        Some(_) => Err(DispatchError::UnhandledMessage(tag)),
        None => Err(DispatchError::UnknownMessage(tag)),
    }
}

/// Decides on the tag of the first message whether its payload is decoded.
pub fn dispatch(tag: u8) -> (r: Result<(), DispatchError>)
    ensures
        r == dispatched(tag),
{
    match MSG_TYPE::from_u8(tag) {
        Ok(MSG_TYPE::SSH_MSG_KEXINIT) => Ok(()),
        Ok(_) => Err(DispatchError::UnhandledMessage(tag)),
        Err(e) => Err(e),
    }
}

} // verus!
