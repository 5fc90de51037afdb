//! Buffer cursors and the reader/writer operations over them.
//!
//! A read cursor is a zero-copy view over an immutable byte slice with an
//! offset that only ever advances, and only on success: a failed operation
//! leaves it exactly where it was. A child cursor makes a run of reads
//! speculative; a write cursor is the symmetric view over an owned buffer.

use vstd::prelude::*;
use vstd::slice::slice_subrange;
use vstd::slice::slice_to_vec;
use vstd::std_specs::vec::vec_index_mut;
use crate::varint::VarInt;
use crate::varint::varint_bytes;
use crate::varint::varint_len;
use crate::varint::varint_size_of;
use crate::varint::varint_value;

verus! {

/// A write did not complete because the end of the buffer was reached, or a
/// read because too few bytes remain. The cursor is unchanged.
#[derive(Debug)]
pub struct EndOfBuffer;

/// Reads varints or borrowed byte ranges from a source, consuming them.
///
/// Both operations are all-or-nothing: when they return [`None`] the
/// remaining bytes are exactly what they were.
pub trait BytesReader<'a>: Sized {
    /// The bytes not yet consumed.
    spec fn remaining(&self) -> Seq<u8>;

    /// Reads one varint and consumes exactly its encoding.
    ///
    /// Returns [`None`], consuming nothing, when the remaining bytes are
    /// empty or shorter than the length the first byte announces.
    fn get_varint(&mut self) -> (r: Option<VarInt>)
        ensures
            ({
                let rem = old(self).remaining();
                match r {
                    Some(v) => {
                        &&& rem.len() >= 1
                        &&& rem.len() >= varint_len(rem[0])
                        &&& v@ == varint_value(rem.take(varint_len(rem[0]) as int))
                        &&& final(self).remaining() == rem.skip(varint_len(rem[0]) as int)
                    },
                    None => {
                        &&& final(self).remaining() == rem
                        &&& (rem.len() == 0 || rem.len() < varint_len(rem[0]))
                    },
                }
            }),
    ;

    /// Reads `len` bytes without copying and consumes them.
    ///
    /// Returns [`None`], consuming nothing, when fewer than `len` bytes
    /// remain.
    fn get_bytes(&mut self, len: usize) -> (r: Option<&'a [u8]>)
        ensures
            ({
                let rem = old(self).remaining();
                match r {
                    Some(b) => {
                        &&& rem.len() >= len
                        &&& b@ == rem.take(len as int)
                        &&& final(self).remaining() == rem.skip(len as int)
                    },
                    None => {
                        &&& final(self).remaining() == rem
                        &&& rem.len() < len
                    },
                }
            }),
    ;
}

/// Writes varints or copied bytes into a sink.
///
/// A sink either has fixed capacity, in which case an operation that does
/// not fit fails and changes nothing, or grows, in which case `can_fit` is
/// always true and no operation fails.
pub trait BytesWriter: Sized {
    /// The bytes written so far.
    spec fn written(&self) -> Seq<u8>;

    /// Whether `extra` more bytes fit.
    spec fn can_fit(&self, extra: nat) -> bool;

    /// Law: whatever fits still fits after shrinking.
    proof fn can_fit_shrink(&self, a: nat, b: nat)
        requires
            a <= b,
            self.can_fit(b),
        ensures
            self.can_fit(a),
    ;

    /// Appends the canonical encoding of `varint`.
    fn put_varint(&mut self, varint: VarInt) -> (r: Result<(), EndOfBuffer>)
        ensures
            old(self).can_fit(varint_size_of(varint@)) ==> r is Ok,
            r is Ok ==> final(self).written() == old(self).written() + varint_bytes(varint@),
            r is Ok ==> forall|k: nat|
                #[trigger] final(self).can_fit(k) == old(self).can_fit(
                    (k + varint_size_of(varint@)) as nat,
                ),
            r is Err ==> {
                &&& !old(self).can_fit(varint_size_of(varint@))
                &&& final(self).written() == old(self).written()
                &&& forall|k: nat| #[trigger] final(self).can_fit(k) == old(self).can_fit(k)
            },
    ;

    /// Appends a copy of `bytes`.
    fn put_bytes(&mut self, bytes: &[u8]) -> (r: Result<(), EndOfBuffer>)
        ensures
            old(self).can_fit(bytes@.len()) ==> r is Ok,
            r is Ok ==> final(self).written() == old(self).written() + bytes@,
            r is Ok ==> forall|k: nat|
                #[trigger] final(self).can_fit(k) == old(self).can_fit((k + bytes@.len()) as nat),
            r is Err ==> {
                &&& !old(self).can_fit(bytes@.len())
                &&& final(self).written() == old(self).written()
                &&& forall|k: nat| #[trigger] final(self).can_fit(k) == old(self).can_fit(k)
            },
    ;
}

/// A zero-copy read cursor over an immutable byte slice.
///
/// The offset starts at zero and advances only on a successful operation or
/// an explicit [`BufferReader::skip`]. Byte ranges handed out borrow from
/// the underlying slice, not from the cursor.
pub struct BufferReader<'a> {
    buffer: &'a [u8],
    offset: usize,
}

impl<'a> BufferReader<'a> {
    /// The whole underlying byte string, offset regardless.
    pub closed spec fn all_bytes(&self) -> Seq<u8> {
        self.buffer@
    }

    /// The current offset.
    pub closed spec fn pos(&self) -> int {
        self.offset as int
    }

    /// The bytes from the current offset on.
    pub open spec fn remaining_bytes(&self) -> Seq<u8> {
        self.all_bytes().skip(self.pos())
    }

    /// The offset stays within the buffer; this holds of every cursor.
    #[verifier::type_invariant]
    pub open spec fn type_inv(self) -> bool {
        0 <= self.pos() <= self.all_bytes().len()
    }

    /// Creates a cursor over `buffer`, without copying, with offset zero.
    pub fn new(buffer: &'a [u8]) -> (r: Self)
        ensures
            r.all_bytes() == buffer@,
            r.pos() == 0,
    {
        Self { buffer, offset: 0 }
    }

    /// Returns the remaining capacity: the number of bytes not yet consumed.
    pub fn capacity(&self) -> (r: usize)
        ensures
            r == self.remaining_bytes().len(),
    {
        proof {
            use_type_invariant(self);
        }
        self.buffer.len() - self.offset
    }

    /// Returns the current offset.
    pub fn offset(&self) -> (r: usize)
        ensures
            r == self.pos(),
    {
        self.offset
    }

    /// Advances the offset by `len`. On [`Err`] the offset is unchanged.
    pub fn skip(&mut self, len: usize) -> (r: Result<(), EndOfBuffer>)
        ensures
            final(self).all_bytes() == old(self).all_bytes(),
            len <= old(self).remaining_bytes().len() ==> {
                &&& r is Ok
                &&& final(self).pos() == old(self).pos() + len
            },
            len > old(self).remaining_bytes().len() ==> {
                &&& r is Err
                &&& final(self).pos() == old(self).pos()
            },
    {
        proof {
            use_type_invariant(&*self);
        }
        if len <= self.buffer.len() - self.offset {
            self.offset = self.offset + len;
            Ok(())
        } else {
            Err(EndOfBuffer)
        }
    }

    /// Returns the entire underlying buffer, offset regardless.
    pub fn buffer(&self) -> (r: &'a [u8])
        ensures
            r@ == self.all_bytes(),
    {
        self.buffer
    }

    /// Returns the underlying buffer from the current offset on.
    pub fn buffer_remaining(&self) -> (r: &'a [u8])
        ensures
            r@ == self.remaining_bytes(),
    {
        proof {
            use_type_invariant(self);
        }
        slice_subrange(self.buffer, self.offset, self.buffer.len())
    }

    /// Creates a speculative child cursor over the remaining bytes.
    ///
    /// Reads against the child never touch this cursor; only
    /// [`BufferReaderChild::commit`] does.
    pub fn child(&self) -> (r: BufferReaderChild<'a>)
        ensures
            r.all_bytes() == self.remaining_bytes(),
            r.pos() == 0,
    {
        BufferReaderChild { reader: BufferReader::new(self.buffer_remaining()) }
    }
}

impl<'a> BytesReader<'a> for BufferReader<'a> {
    open spec fn remaining(&self) -> Seq<u8> {
        self.remaining_bytes()
    }

    fn get_varint(&mut self) -> (r: Option<VarInt>)
        ensures
            final(self).all_bytes() == old(self).all_bytes(),
            r is Some ==> final(self).pos() == old(self).pos() + varint_len(
                old(self).remaining_bytes()[0],
            ),
            r is None ==> final(self).pos() == old(self).pos(),
    {
        proof {
            use_type_invariant(&*self);
        }
        let cap = self.buffer.len() - self.offset;
        if cap == 0 {
            return None;
        }
        let first = self.buffer[self.offset];
        let n = VarInt::parse_size(first);
        if cap < n {
            return None;
        }
        let head = slice_subrange(self.buffer, self.offset, self.offset + n);
        proof {
            assert(head@ =~= self.remaining_bytes().take(n as int));
        }
        let v = VarInt::decode(head);
        let ghost pre = *self;
        self.offset = self.offset + n;
        proof {
            assert(self.remaining_bytes() =~= pre.remaining_bytes().skip(n as int));
        }
        Some(v)
    }

    fn get_bytes(&mut self, len: usize) -> (r: Option<&'a [u8]>)
        ensures
            final(self).all_bytes() == old(self).all_bytes(),
            r is Some ==> final(self).pos() == old(self).pos() + len,
            r is None ==> final(self).pos() == old(self).pos(),
    {
        proof {
            use_type_invariant(&*self);
        }
        let cap = self.buffer.len() - self.offset;
        if cap < len {
            return None;
        }
        let b = slice_subrange(self.buffer, self.offset, self.offset + len);
        proof {
            assert(b@ =~= self.remaining_bytes().take(len as int));
        }
        let ghost pre = *self;
        self.offset = self.offset + len;
        proof {
            assert(self.remaining_bytes() =~= pre.remaining_bytes().skip(len as int));
        }
        Some(b)
    }
}

impl<'a> BytesReader<'a> for &'a [u8] {
    open spec fn remaining(&self) -> Seq<u8> {
        (*self)@
    }

    fn get_varint(&mut self) -> (r: Option<VarInt>) {
        let s: &'a [u8] = *self;
        if s.len() == 0 {
            return None;
        }
        let n = VarInt::parse_size(s[0]);
        if s.len() < n {
            return None;
        }
        let head = slice_subrange(s, 0, n);
        proof {
            assert(head@ =~= s@.take(n as int));
        }
        let v = VarInt::decode(head);
        *self = slice_subrange(s, n, s.len());
        proof {
            assert((*self)@ =~= s@.skip(n as int));
        }
        Some(v)
    }

    fn get_bytes(&mut self, len: usize) -> (r: Option<&'a [u8]>) {
        let s: &'a [u8] = *self;
        if s.len() < len {
            return None;
        }
        let b = slice_subrange(s, 0, len);
        proof {
            assert(b@ =~= s@.take(len as int));
        }
        *self = slice_subrange(s, len, s.len());
        proof {
            assert((*self)@ =~= s@.skip(len as int));
        }
        Some(b)
    }
}

/// A speculative copy of a [`BufferReader`]'s remaining bytes.
///
/// Reads against the child leave the parent untouched; discarding the child
/// has no effect on it. [`BufferReaderChild::commit`] makes the reads
/// permanent by advancing the parent by exactly the bytes the child
/// consumed.
pub struct BufferReaderChild<'a> {
    reader: BufferReader<'a>,
}

impl<'a> BufferReaderChild<'a> {
    /// The byte string the child was created over: the parent's remaining
    /// bytes at creation time.
    pub closed spec fn all_bytes(&self) -> Seq<u8> {
        self.reader.all_bytes()
    }

    /// How many bytes the child has consumed.
    pub closed spec fn pos(&self) -> int {
        self.reader.pos()
    }

    /// The bytes the child has not yet consumed.
    pub open spec fn remaining_bytes(&self) -> Seq<u8> {
        self.all_bytes().skip(self.pos())
    }

    /// Returns the child's remaining capacity.
    pub fn capacity(&self) -> (r: usize)
        ensures
            r == self.remaining_bytes().len(),
    {
        self.reader.capacity()
    }

    /// Returns how many bytes the child has consumed.
    pub fn offset(&self) -> (r: usize)
        ensures
            r == self.pos(),
    {
        self.reader.offset()
    }

    /// Advances `parent`, the cursor this child was created from, by exactly
    /// the bytes the child consumed.
    pub fn commit(self, parent: &mut BufferReader<'a>)
        requires
            self.all_bytes() == old(parent).remaining_bytes(),
        ensures
            final(parent).all_bytes() == old(parent).all_bytes(),
            final(parent).pos() == old(parent).pos() + self.pos(),
    {
        proof {
            use_type_invariant(&self.reader);
            use_type_invariant(&*parent);
        }
        let n = self.reader.offset();
        let _ = parent.skip(n);
    }
}

impl<'a> BytesReader<'a> for BufferReaderChild<'a> {
    open spec fn remaining(&self) -> Seq<u8> {
        self.remaining_bytes()
    }

    fn get_varint(&mut self) -> (r: Option<VarInt>)
        ensures
            final(self).all_bytes() == old(self).all_bytes(),
            r is Some ==> final(self).pos() == old(self).pos() + varint_len(
                old(self).remaining_bytes()[0],
            ),
            r is None ==> final(self).pos() == old(self).pos(),
    {
        self.reader.get_varint()
    }

    fn get_bytes(&mut self, len: usize) -> (r: Option<&'a [u8]>)
        ensures
            final(self).all_bytes() == old(self).all_bytes(),
            r is Some ==> final(self).pos() == old(self).pos() + len,
            r is None ==> final(self).pos() == old(self).pos(),
    {
        self.reader.get_bytes(len)
    }
}

/// A write cursor over an owned, fixed-length byte buffer.
///
/// The offset starts at zero; each successful write advances it by exactly
/// the bytes written, and a write that does not fit fails without touching
/// the buffer.
pub struct BufferWriter {
    buffer: Vec<u8>,
    offset: usize,
}

impl BufferWriter {
    /// The whole underlying byte string, offset regardless.
    pub closed spec fn all_bytes(&self) -> Seq<u8> {
        self.buffer@
    }

    /// The current offset.
    pub closed spec fn pos(&self) -> int {
        self.offset as int
    }

    /// The offset stays within the buffer; this holds of every writer.
    #[verifier::type_invariant]
    pub open spec fn type_inv(self) -> bool {
        0 <= self.pos() <= self.all_bytes().len()
    }

    /// Creates a writer over `buffer`, whose length is the writer's total
    /// capacity, with offset zero.
    pub fn new(buffer: Vec<u8>) -> (r: Self)
        ensures
            r.all_bytes() == buffer@,
            r.pos() == 0,
    {
        Self { buffer, offset: 0 }
    }

    /// Returns the remaining capacity in the buffer.
    pub fn capacity(&self) -> (r: usize)
        ensures
            r == self.all_bytes().len() - self.pos(),
    {
        proof {
            use_type_invariant(self);
        }
        self.buffer.len() - self.offset
    }

    /// Returns the current offset.
    pub fn offset(&self) -> (r: usize)
        ensures
            r == self.pos(),
    {
        self.offset
    }

    /// Returns the portion of the buffer written so far.
    pub fn buffer_written(&self) -> (r: &[u8])
        ensures
            r@ == self.written(),
    {
        proof {
            use_type_invariant(self);
        }
        slice_subrange(self.buffer.as_slice(), 0, self.offset)
    }

    /// Copies `bytes` into the buffer at `at`, leaving the rest as it was.
    fn overwrite(&mut self, at: usize, bytes: &[u8])
        requires
            at + bytes@.len() <= old(self).all_bytes().len(),
        ensures
            final(self).all_bytes().len() == old(self).all_bytes().len(),
            final(self).pos() == old(self).pos(),
            forall|j: int|
                0 <= j < final(self).all_bytes().len() ==> final(self).all_bytes()[j] == (if at <= j
                    < at + bytes@.len() {
                    bytes@[j - at]
                } else {
                    old(self).all_bytes()[j]
                }),
    {
        proof {
            use_type_invariant(&*self);
        }
        let off = self.offset;
        self.offset = 0;
        let mut buf: Vec<u8> = Vec::new();
        std::mem::swap(&mut buf, &mut self.buffer);
        let ghost orig = buf@;
        let total = buf.len();
        let mut i: usize = 0;
        while i < bytes.len()
            invariant
                i <= bytes@.len(),
                at + bytes@.len() <= total,
                total == orig.len(),
                at + bytes@.len() <= orig.len(),
                buf@.len() == orig.len(),
                forall|j: int|
                    0 <= j < orig.len() ==> buf@[j] == (if at <= j < at + i {
                        bytes@[j - at]
                    } else {
                        orig[j]
                    }),
            decreases bytes@.len() - i,
        {
            let r = vec_index_mut(&mut buf, at + i);
            *r = bytes[i];
            i = i + 1;
        }
        std::mem::swap(&mut buf, &mut self.buffer);
        self.offset = off;
    }
}

impl BytesWriter for BufferWriter {
    /// The bytes before the offset.
    open spec fn written(&self) -> Seq<u8> {
        self.all_bytes().take(self.pos())
    }

    /// A write fits while the offset leaves room for it.
    open spec fn can_fit(&self, extra: nat) -> bool {
        self.pos() + extra <= self.all_bytes().len()
    }

    proof fn can_fit_shrink(&self, a: nat, b: nat) {
    }

    fn put_varint(&mut self, varint: VarInt) -> (r: Result<(), EndOfBuffer>)
        ensures
            final(self).all_bytes().len() == old(self).all_bytes().len(),
            r is Ok ==> final(self).pos() == old(self).pos() + varint_size_of(varint@),
            r is Err ==> {
                &&& final(self).all_bytes() == old(self).all_bytes()
                &&& final(self).pos() == old(self).pos()
            },
    {
        let enc = varint.encode();
        self.put_bytes(enc.as_slice())
    }

    fn put_bytes(&mut self, bytes: &[u8]) -> (r: Result<(), EndOfBuffer>)
        ensures
            final(self).all_bytes().len() == old(self).all_bytes().len(),
            r is Ok ==> final(self).pos() == old(self).pos() + bytes@.len(),
            r is Err ==> {
                &&& final(self).all_bytes() == old(self).all_bytes()
                &&& final(self).pos() == old(self).pos()
            },
    {
        proof {
            use_type_invariant(&*self);
        }
        if self.buffer.len() - self.offset < bytes.len() {
            return Err(EndOfBuffer);
        }
        let ghost pre = *self;
        let off = self.offset;
        self.overwrite(off, bytes);
        self.offset = off + bytes.len();
        proof {
            assert(self.written() =~= pre.written() + bytes@);
        }
        Ok(())
    }
}

impl BytesWriter for Vec<u8> {
    /// Everything in the vector counts as written.
    open spec fn written(&self) -> Seq<u8> {
        self@
    }

    /// A growable sink: everything fits.
    open spec fn can_fit(&self, extra: nat) -> bool {
        true
    }

    proof fn can_fit_shrink(&self, a: nat, b: nat) {
    }

    fn put_varint(&mut self, varint: VarInt) -> (r: Result<(), EndOfBuffer>) {
        let mut enc = varint.encode();
        self.append(&mut enc);
        Ok(())
    }

    fn put_bytes(&mut self, bytes: &[u8]) -> (r: Result<(), EndOfBuffer>) {
        let mut tmp = slice_to_vec(bytes);
        self.append(&mut tmp);
        Ok(())
    }
}

} // verus!
