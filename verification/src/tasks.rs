//! Resumable state machines for incremental reads and writes.
//!
//! A non-blocking source or sink moves bytes a few at a time. Each machine
//! here carries one operation across such partial transfers: the caller asks
//! which bytes the machine still wants (or still offers), performs one
//! transfer, reports it, and repeats until the machine is done. A transfer
//! of zero bytes when more were wanted means the other end is closed; that
//! holds for sinks too, where such a transfer would otherwise loop forever.
//!
//! What a machine yields depends only on the bytes moved, never on how they
//! were split into transfers.

use vstd::prelude::*;
use crate::varint::VarInt;
use crate::varint::varint_bytes;
use crate::varint::varint_len;
use crate::varint::varint_size_of;
use crate::varint::varint_value;

verus! {

/// Error of an incremental I/O operation.
#[derive(Debug)]
pub enum IoError {
    /// The operation failed because the transport was not connected yet.
    NotConnected,
    /// The operation did not complete because the transport was closed.
    Closed,
}

/// Reads one varint from an incrementally-arriving byte source.
///
/// First it wants one byte, which announces the total length; then it wants
/// the rest, in as many transfers as the source takes.
pub struct GetVarint {
    scratch: Vec<u8>,
    varint_size: usize,
}

impl GetVarint {
    /// The bytes taken from the source so far.
    pub closed spec fn consumed(&self) -> Seq<u8> {
        self.scratch@
    }

    /// Whether the whole varint has arrived.
    pub open spec fn done(&self) -> bool {
        self.consumed().len() >= 1 && self.consumed().len() == varint_len(self.consumed()[0])
    }

    /// How many bytes the machine wants next.
    pub open spec fn needed(&self) -> int {
        if self.consumed().len() == 0 {
            1
        } else {
            varint_len(self.consumed()[0]) - self.consumed().len()
        }
    }

    #[verifier::type_invariant]
    spec fn type_inv(self) -> bool {
        &&& self.scratch@.len() <= 8
        &&& self.scratch@.len() >= 1 ==> {
            &&& self.varint_size == varint_len(self.scratch@[0])
            &&& self.scratch@.len() <= self.varint_size
        }
    }

    /// Creates a machine that has read nothing yet.
    pub fn new() -> (r: Self)
        ensures
            r.consumed().len() == 0,
    {
        GetVarint { scratch: Vec::new(), varint_size: 0 }
    }

    /// Whether the whole varint has arrived.
    pub fn is_done(&self) -> (r: bool)
        ensures
            r == self.done(),
    {
        proof {
            use_type_invariant(self);
        }
        self.scratch.len() >= 1 && self.scratch.len() == self.varint_size
    }

    /// How many bytes the machine wants next: zero exactly when it is done.
    pub fn request_len(&self) -> (r: usize)
        ensures
            r == self.needed(),
    {
        proof {
            use_type_invariant(self);
        }
        if self.scratch.len() == 0 {
            1
        } else {
            self.varint_size - self.scratch.len()
        }
    }

    /// Takes the bytes of one transfer, at most the requested count. An
    /// empty transfer means the source is closed and fails the operation,
    /// changing nothing.
    pub fn accept(&mut self, data: &[u8]) -> (r: Result<(), IoError>)
        requires
            !old(self).done(),
            data@.len() <= old(self).needed(),
        ensures
            data@.len() == 0 ==> {
                &&& (r matches Err(e) && e is Closed)
                &&& final(self).consumed() == old(self).consumed()
            },
            data@.len() > 0 ==> {
                &&& r is Ok
                &&& final(self).consumed() == old(self).consumed() + data@
            },
    {
        proof {
            use_type_invariant(&*self);
        }
        if data.len() == 0 {
            return Err(IoError::Closed);
        }
        if self.scratch.len() == 0 {
            let first = data[0];
            let n = VarInt::parse_size(first);
            self.varint_size = n;
            let mut v: Vec<u8> = Vec::new();
            std::mem::swap(&mut v, &mut self.scratch);
            v.push(first);
            std::mem::swap(&mut v, &mut self.scratch);
            proof {
                assert(self.consumed() =~= old(self).consumed() + data@);
            }
        } else {
            let mut v: Vec<u8> = Vec::new();
            std::mem::swap(&mut v, &mut self.scratch);
            let mut tmp = vstd::slice::slice_to_vec(data);
            v.append(&mut tmp);
            std::mem::swap(&mut v, &mut self.scratch);
        }
        Ok(())
    }

    /// The varint, once all its bytes have arrived.
    pub fn result(&self) -> (r: VarInt)
        requires
            self.done(),
        ensures
            r@ == varint_value(self.consumed()),
    {
        proof {
            use_type_invariant(self);
        }
        VarInt::decode(self.scratch.as_slice())
    }
}

/// Reads a byte string of a requested length from an incrementally-arriving
/// byte source.
pub struct GetBuffer {
    data: Vec<u8>,
    target: usize,
}

impl GetBuffer {
    /// The bytes taken from the source so far.
    pub closed spec fn consumed(&self) -> Seq<u8> {
        self.data@
    }

    /// The total length asked for.
    pub closed spec fn requested(&self) -> int {
        self.target as int
    }

    /// Whether all requested bytes have arrived.
    pub open spec fn done(&self) -> bool {
        self.consumed().len() == self.requested()
    }

    /// How many bytes the machine wants next.
    pub open spec fn needed(&self) -> int {
        self.requested() - self.consumed().len()
    }

    #[verifier::type_invariant]
    spec fn type_inv(self) -> bool {
        self.data@.len() <= self.target
    }

    /// Creates a machine that wants `len` bytes.
    pub fn new(len: usize) -> (r: Self)
        ensures
            r.requested() == len,
            r.consumed().len() == 0,
    {
        GetBuffer { data: Vec::new(), target: len }
    }

    /// Whether all requested bytes have arrived.
    pub fn is_done(&self) -> (r: bool)
        ensures
            r == self.done(),
    {
        proof {
            use_type_invariant(self);
        }
        self.data.len() == self.target
    }

    /// How many bytes the machine wants next: zero exactly when it is done.
    pub fn request_len(&self) -> (r: usize)
        ensures
            r == self.needed(),
    {
        proof {
            use_type_invariant(self);
        }
        self.target - self.data.len()
    }

    /// Takes the bytes of one transfer, at most the requested count. An
    /// empty transfer means the source is closed and fails the operation,
    /// changing nothing.
    pub fn accept(&mut self, data: &[u8]) -> (r: Result<(), IoError>)
        requires
            !old(self).done(),
            data@.len() <= old(self).needed(),
        ensures
            data@.len() == 0 ==> {
                &&& (r matches Err(e) && e is Closed)
                &&& final(self).consumed() == old(self).consumed()
            },
            data@.len() > 0 ==> {
                &&& r is Ok
                &&& final(self).consumed() == old(self).consumed() + data@
            },
    {
        proof {
            use_type_invariant(&*self);
        }
        if data.len() == 0 {
            return Err(IoError::Closed);
        }
        let mut v: Vec<u8> = Vec::new();
        std::mem::swap(&mut v, &mut self.data);
        let mut tmp = vstd::slice::slice_to_vec(data);
        v.append(&mut tmp);
        std::mem::swap(&mut v, &mut self.data);
        Ok(())
    }

    /// The requested bytes, once they have all arrived.
    pub fn into_buffer(self) -> (r: Vec<u8>)
        requires
            self.done(),
        ensures
            r@ == self.consumed(),
    {
        self.data
    }
}

/// Writes one varint to a sink that takes bytes a few at a time.
///
/// The value is encoded once, at creation; the machine then offers the not
/// yet written tail of the encoding until all of it is out.
pub struct PutVarint {
    scratch: Vec<u8>,
    offset: usize,
}

impl PutVarint {
    /// The full byte string to write.
    pub closed spec fn payload(&self) -> Seq<u8> {
        self.scratch@
    }

    /// How many bytes have been written.
    pub closed spec fn pos(&self) -> int {
        self.offset as int
    }

    /// Whether the whole encoding has been written.
    pub open spec fn done(&self) -> bool {
        self.pos() == self.payload().len()
    }

    #[verifier::type_invariant]
    spec fn type_inv(self) -> bool {
        self.offset <= self.scratch@.len()
    }

    /// Creates a machine that writes the canonical encoding of `varint`.
    pub fn new(varint: VarInt) -> (r: Self)
        ensures
            r.payload() == varint_bytes(varint@),
            r.payload().len() == varint_size_of(varint@),
            r.pos() == 0,
    {
        let scratch = varint.encode();
        PutVarint { scratch, offset: 0 }
    }

    /// Whether the whole encoding has been written.
    pub fn is_done(&self) -> (r: bool)
        ensures
            r == self.done(),
    {
        proof {
            use_type_invariant(self);
        }
        self.offset == self.scratch.len()
    }

    /// The bytes still to write.
    pub fn pending(&self) -> (r: &[u8])
        ensures
            r@ == self.payload().skip(self.pos()),
    {
        proof {
            use_type_invariant(self);
        }
        vstd::slice::slice_subrange(self.scratch.as_slice(), self.offset, self.scratch.len())
    }

    /// Records that the sink took `written` bytes of the pending tail. A
    /// sink that takes zero bytes of a non-empty offer is treated as
    /// closed; the machine is unchanged and the operation fails.
    pub fn advance(&mut self, written: usize) -> (r: Result<(), IoError>)
        requires
            !old(self).done(),
            written <= old(self).payload().len() - old(self).pos(),
        ensures
            written == 0 ==> {
                &&& (r matches Err(e) && e is Closed)
                &&& final(self).payload() == old(self).payload()
                &&& final(self).pos() == old(self).pos()
            },
            written > 0 ==> {
                &&& r is Ok
                &&& final(self).payload() == old(self).payload()
                &&& final(self).pos() == old(self).pos() + written
            },
    {
        proof {
            use_type_invariant(&*self);
        }
        if written == 0 {
            return Err(IoError::Closed);
        }
        let total = self.scratch.len();
        proof {
            assert(old(self).pos() + written <= total);
        }
        self.offset = self.offset + written;
        Ok(())
    }

    /// The number of bytes the whole operation writes: the encoded size.
    pub fn size(&self) -> (r: usize)
        ensures
            r == self.payload().len(),
    {
        self.scratch.len()
    }
}

/// Writes a caller-supplied byte string to a sink that takes bytes a few at
/// a time.
pub struct PutBuffer<'a> {
    buffer: &'a [u8],
    offset: usize,
}

impl<'a> PutBuffer<'a> {
    /// The full byte string to write.
    pub closed spec fn payload(&self) -> Seq<u8> {
        self.buffer@
    }

    /// How many bytes have been written.
    pub closed spec fn pos(&self) -> int {
        self.offset as int
    }

    /// Whether the whole byte string has been written.
    pub open spec fn done(&self) -> bool {
        self.pos() == self.payload().len()
    }

    #[verifier::type_invariant]
    spec fn type_inv(self) -> bool {
        self.offset <= self.buffer@.len()
    }

    /// Creates a machine that writes `buffer`, without copying it.
    pub fn new(buffer: &'a [u8]) -> (r: Self)
        ensures
            r.payload() == buffer@,
            r.pos() == 0,
    {
        PutBuffer { buffer, offset: 0 }
    }

    /// Whether the whole byte string has been written.
    pub fn is_done(&self) -> (r: bool)
        ensures
            r == self.done(),
    {
        proof {
            use_type_invariant(self);
        }
        self.offset == self.buffer.len()
    }

    /// The bytes still to write.
    pub fn pending(&self) -> (r: &'a [u8])
        ensures
            r@ == self.payload().skip(self.pos()),
    {
        proof {
            use_type_invariant(self);
        }
        vstd::slice::slice_subrange(self.buffer, self.offset, self.buffer.len())
    }

    /// Records that the sink took `written` bytes of the pending tail. A
    /// sink that takes zero bytes of a non-empty offer is treated as
    /// closed; the machine is unchanged and the operation fails.
    pub fn advance(&mut self, written: usize) -> (r: Result<(), IoError>)
        requires
            !old(self).done(),
            written <= old(self).payload().len() - old(self).pos(),
        ensures
            written == 0 ==> {
                &&& (r matches Err(e) && e is Closed)
                &&& final(self).payload() == old(self).payload()
                &&& final(self).pos() == old(self).pos()
            },
            written > 0 ==> {
                &&& r is Ok
                &&& final(self).payload() == old(self).payload()
                &&& final(self).pos() == old(self).pos() + written
            },
    {
        proof {
            use_type_invariant(&*self);
        }
        if written == 0 {
            return Err(IoError::Closed);
        }
        let total = self.buffer.len();
        proof {
            assert(old(self).pos() + written <= total);
        }
        self.offset = self.offset + written;
        Ok(())
    }
}

} // verus!
