//! Session identifiers.

use vstd::prelude::*;
use crate::varint::MAX_VARINT_VALUE;
use crate::varint::VarInt;

verus! {

/// The decoded integer is not a valid session identifier.
#[derive(Debug)]
pub struct InvalidSessionId;

/// Whether `v` is a valid session identifier. A session is identified by
/// the stream identifier of the client-initiated bidirectional stream that
/// opened it, and such identifiers have their two low bits zero.
pub open spec fn valid_session_id(v: int) -> bool {
    v % 4 == 0
}

/// Identifier of the WebTransport session a stream belongs to.
#[derive(Clone, Copy, Debug, PartialEq, Eq, Structural)]
pub struct SessionId {
    id: VarInt,
}

impl View for SessionId {
    type V = u64;

    closed spec fn view(&self) -> u64 {
        self.id@
    }
}

impl SessionId {
    #[verifier::type_invariant]
    pub open spec fn type_inv(self) -> bool {
        self@ <= MAX_VARINT_VALUE
    }

    /// Converts a decoded varint into a session identifier, rejecting a
    /// value that is not a valid one.
    pub fn try_from_varint(varint: VarInt) -> (r: Result<SessionId, InvalidSessionId>)
        ensures
            valid_session_id(varint@ as int) ==> (r matches Ok(s) && s@ == varint@),
            !valid_session_id(varint@ as int) ==> r is Err,
    {
        proof {
            use_type_invariant(varint);
        }
        if varint.into_inner() % 4 == 0 {
            Ok(SessionId { id: varint })
        } else {
            Err(InvalidSessionId)
        }
    }

    /// Wraps a varint without checking validity. A header written with an
    /// invalid identifier is rejected when read back.
    pub fn maybe_invalid(varint: VarInt) -> (r: SessionId)
        ensures
            r@ == varint@,
    {
        proof {
            use_type_invariant(varint);
        }
        SessionId { id: varint }
    }

    /// The identifier as a varint.
    pub fn into_varint(self) -> (r: VarInt)
        ensures
            r@ == self@,
    {
        self.id
    }
}

} // verus!
