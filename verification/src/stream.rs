//! Stream header framing.
//!
//! Every unidirectional stream opens with a header: a varint discriminant
//! naming the stream type, followed, exactly when the type is WebTransport,
//! by a varint session identifier.

use vstd::prelude::*;
use crate::bytes::BufferReader;
use crate::bytes::BufferWriter;
use crate::bytes::BytesReader;
use crate::bytes::BytesWriter;
use crate::bytes::EndOfBuffer;
use crate::ids::InvalidSessionId;
use crate::ids::SessionId;
use crate::ids::valid_session_id;
use crate::tasks::GetVarint;
use crate::tasks::IoError;
use crate::varint::VarInt;
use crate::varint::MAX_VARINT_VALUE;
use crate::varint::lemma_varint_bytes_props;
use crate::varint::varint_bytes;
use crate::varint::varint_len;
use crate::varint::varint_value;

verus! {

/// The bytes of a stream header were read but name no valid header.
#[derive(Debug)]
pub enum StreamHeaderReadError {
    /// The discriminant names no known stream type.
    UnknownStream,
    /// The session identifier is invalid.
    InvalidSessionId,
}

/// Error of an incremental stream header read: either the bytes name no
/// valid header, or the transport failed first.
#[derive(Debug)]
pub enum StreamHeaderReadAsyncError {
    /// The bytes name no valid header.
    StreamHeader(StreamHeaderReadError),
    /// The transport closed or was not connected.
    IO(IoError),
}

/// Whether `v` is a valid discriminant for an exercise stream: one of the
/// reserved values `0x21 + 0x1f * k` that exist only to exercise a peer's
/// tolerance of unknown stream types.
pub open spec fn is_exercise_id(v: int) -> bool {
    v >= 0x21 && (v - 0x21) % 0x1f == 0
}

/// Whether a discriminant names a stream type this layer knows.
pub open spec fn known_stream_id(v: int) -> bool {
    v == 0x0 || v == 0x02 || v == 0x03 || v == 0x54 || is_exercise_id(v)
}

/// The kind of a unidirectional stream, as named by its discriminant.
#[derive(Copy, Clone, Debug)]
pub enum StreamKind {
    /// CONTROL stream.
    Control,
    /// QPACK encoder stream.
    QPackEncoder,
    /// QPACK decoder stream.
    QPackDecoder,
    /// WebTransport stream.
    WebTransport,
    /// Exercise stream: a reserved discriminant carried through verbatim.
    Exercise(VarInt),
}

/// The discriminant value a kind is written as.
pub open spec fn spec_kind_id(k: StreamKind) -> int {
    match k {
        StreamKind::Control => 0x0,
        StreamKind::QPackEncoder => 0x02,
        StreamKind::QPackDecoder => 0x03,
        StreamKind::WebTransport => 0x54,
        StreamKind::Exercise(v) => v@ as int,
    }
}

/// A well-formed kind: an exercise discriminant passes the exercise rule
/// and is in varint range.
pub open spec fn wf_kind(k: StreamKind) -> bool {
    k matches StreamKind::Exercise(v) ==> is_exercise_id(v@ as int) && v@ <= MAX_VARINT_VALUE
}

impl StreamKind {
    /// Checks whether `id` is a valid discriminant for an exercise stream.
    pub fn is_id_exercise(id: VarInt) -> (r: bool)
        ensures
            r == is_exercise_id(id@ as int),
    {
        let v = id.into_inner();
        v >= 0x21 && (v - 0x21) % 0x1f == 0
    }

    /// Maps a discriminant to the kind it names, or [`None`] for an unknown
    /// one.
    fn parse(id: VarInt) -> (r: Option<StreamKind>)
        ensures
            match r {
                Some(k) => {
                    &&& known_stream_id(id@ as int)
                    &&& wf_kind(k)
                    &&& spec_kind_id(k) == id@ as int
                    &&& (k is WebTransport <==> id@ == 0x54)
                },
                None => !known_stream_id(id@ as int),
            },
    {
        proof {
            use_type_invariant(id);
        }
        let v = id.into_inner();
        if v == 0x0 {
            Some(StreamKind::Control)
        } else if v == 0x02 {
            Some(StreamKind::QPackEncoder)
        } else if v == 0x03 {
            Some(StreamKind::QPackDecoder)
        } else if v == 0x54 {
            Some(StreamKind::WebTransport)
        } else if Self::is_id_exercise(id) {
            Some(StreamKind::Exercise(id))
        } else {
            None
        }
    }

    /// The discriminant this kind is written as.
    fn id(self) -> (r: VarInt)
        ensures
            r@ as int == spec_kind_id(self),
    {
        match self {
            StreamKind::Control => VarInt::from_u32(0x0),
            StreamKind::QPackEncoder => VarInt::from_u32(0x02),
            StreamKind::QPackDecoder => VarInt::from_u32(0x03),
            StreamKind::WebTransport => VarInt::from_u32(0x54),
            StreamKind::Exercise(id) => id,
        }
    }
}

/// Outcome of parsing a stream header from the front of a byte string.
pub enum HeaderParse {
    /// Too few bytes: `used` bytes of a complete leading varint were
    /// consumed before the parse stopped short.
    Incomplete { used: int },
    /// The discriminant names no known stream type.
    UnknownStream { used: int },
    /// A WebTransport discriminant followed by an invalid session
    /// identifier.
    InvalidSession { used: int },
    /// A complete header: its discriminant, its session identifier if the
    /// kind carries one, and the bytes it took.
    Complete { kind_id: int, session: Option<int>, used: int },
}

/// Parses a stream header from the front of `s`: the discriminant varint,
/// then, exactly for the WebTransport discriminant, the session identifier
/// varint.
pub open spec fn spec_parse_header(s: Seq<u8>) -> HeaderParse {
    if s.len() == 0 || s.len() < varint_len(s[0]) {
        HeaderParse::Incomplete { used: 0 }
    } else {
        let n1 = varint_len(s[0]) as int;
        let id = varint_value(s.take(n1)) as int;
        if !known_stream_id(id) {
            HeaderParse::UnknownStream { used: n1 }
        } else if id != 0x54 {
            HeaderParse::Complete { kind_id: id, session: None, used: n1 }
        } else {
            let rest = s.skip(n1);
            if rest.len() == 0 || rest.len() < varint_len(rest[0]) {
                HeaderParse::Incomplete { used: n1 }
            } else {
                let n2 = varint_len(rest[0]) as int;
                let sv = varint_value(rest.take(n2)) as int;
                if valid_session_id(sv) {
                    HeaderParse::Complete { kind_id: id, session: Some(sv), used: n1 + n2 }
                } else {
                    HeaderParse::InvalidSession { used: n1 + n2 }
                }
            }
        }
    }
}

/// The header of a unidirectional stream.
///
/// Carries a session identifier exactly when the kind is WebTransport; no
/// public entry point can construct one that does not.
#[derive(Clone, Copy)]
pub struct StreamHeader {
    kind: StreamKind,
    session_id: Option<SessionId>,
}

/// The wire encoding of a header: the discriminant varint, then the session
/// identifier varint if the header carries one.
pub open spec fn spec_header_bytes(h: &StreamHeader) -> Seq<u8> {
    let kb = varint_bytes(spec_kind_id(h.spec_kind()) as u64);
    match h.spec_session_value() {
        Some(sv) => kb + varint_bytes(sv as u64),
        None => kb,
    }
}

impl StreamHeader {
    /// Maximum number of bytes a header can take on the wire.
    pub const MAX_SIZE: usize = 16;

    /// The kind this header names.
    pub closed spec fn spec_kind(&self) -> StreamKind {
        self.kind
    }

    /// The value of the session identifier, if the header carries one.
    pub closed spec fn spec_session_value(&self) -> Option<int> {
        match self.session_id {
            Some(s) => Some(s@ as int),
            None => None,
        }
    }

    /// A well-formed header: the kind is well formed, a session identifier
    /// is present exactly for WebTransport, and it is in varint range.
    pub open spec fn wf(&self) -> bool {
        &&& wf_kind(self.spec_kind())
        &&& (self.spec_kind() is WebTransport <==> self.spec_session_value() is Some)
        &&& (self.spec_session_value() matches Some(sv) ==> 0 <= sv <= MAX_VARINT_VALUE)
    }

    /// Every header value is well formed; no public entry point can
    /// construct one that is not.
    #[verifier::type_invariant]
    pub open spec fn type_inv(self) -> bool {
        self.wf()
    }

    fn new(kind: StreamKind, session_id: Option<SessionId>) -> (r: Self)
        requires
            wf_kind(kind),
            kind is WebTransport <==> session_id is Some,
        ensures
            r.spec_kind() == kind,
            r.spec_session_value() == (match session_id {
                Some(s) => Some(s@ as int),
                None => None::<int>,
            }),
            r.wf(),
    {
        proof {
            if let Some(s) = session_id {
                use_type_invariant(s);
            }
        }
        StreamHeader { kind, session_id }
    }

    /// Creates the header of a CONTROL stream.
    pub fn new_control() -> (r: Self)
        ensures
            r.wf(),
            r.spec_kind() is Control,
            r.spec_session_value() is None,
    {
        Self::new(StreamKind::Control, None)
    }

    /// Creates the header of a WebTransport stream belonging to the given
    /// session.
    pub fn new_webtransport(session_id: SessionId) -> (r: Self)
        ensures
            r.wf(),
            r.spec_kind() is WebTransport,
            r.spec_session_value() == Some(session_id@ as int),
    {
        Self::new(StreamKind::WebTransport, Some(session_id))
    }

    /// The kind this header names.
    pub fn kind(&self) -> (r: StreamKind)
        ensures
            r == self.spec_kind(),
    {
        self.kind
    }

    /// The session identifier for a WebTransport header, [`None`] for any
    /// other kind.
    pub fn session_id(&self) -> (r: Option<SessionId>)
        ensures
            self.spec_kind() is WebTransport ==> (r matches Some(s) && self.spec_session_value()
                == Some(s@ as int)),
            !(self.spec_kind() is WebTransport) ==> r is None,
    {
        proof {
            use_type_invariant(self);
        }
        match self.kind {
            StreamKind::WebTransport => self.session_id,
            _ => None,
        }
    }

    /// The exact capacity a write of this header needs.
    pub fn write_size(&self) -> (r: usize)
        ensures
            r == spec_header_bytes(self).len(),
    {
        proof {
            use_type_invariant(self);
        }
        let kid = self.kind.id();
        proof {
            use_type_invariant(kid);
            lemma_varint_bytes_props(kid@);
        }
        let base = kid.size();
        match self.session_id() {
            Some(sid) => {
                let sv = sid.into_varint();
                proof {
                    use_type_invariant(sv);
                    lemma_varint_bytes_props(sv@);
                }
                base + sv.size()
            },
            None => base,
        }
    }

    /// Reads a header, consuming its bytes from `bytes_reader`.
    ///
    /// Returns [`None`] when the reader holds too few bytes for a whole
    /// header; the reader may then be advanced past a complete leading
    /// varint. On [`Err`] the offending bytes have been consumed.
    pub fn read<'a, R: BytesReader<'a>>(bytes_reader: &mut R) -> (r: Option<
        Result<Self, StreamHeaderReadError>,
    >)
        ensures
            ({
                let s = old(bytes_reader).remaining();
                match r {
                    None => {
                        &&& (spec_parse_header(s) matches HeaderParse::Incomplete { used }
                            && final(bytes_reader).remaining() == s.skip(used))
                    },
                    Some(Err(StreamHeaderReadError::UnknownStream)) => {
                        &&& (spec_parse_header(s) matches HeaderParse::UnknownStream { used }
                            && final(bytes_reader).remaining() == s.skip(used))
                    },
                    Some(Err(StreamHeaderReadError::InvalidSessionId)) => {
                        &&& (spec_parse_header(s) matches HeaderParse::InvalidSession { used }
                            && final(bytes_reader).remaining() == s.skip(used))
                    },
                    Some(Ok(h)) => {
                        &&& h.wf()
                        &&& (spec_parse_header(s) matches HeaderParse::Complete {
                            kind_id,
                            session,
                            used,
                        } && spec_kind_id(h.spec_kind()) == kind_id && h.spec_session_value()
                            == session && final(bytes_reader).remaining() == s.skip(used))
                    },
                }
            }),
    {
        let ghost s = bytes_reader.remaining();
        let kind_id = match bytes_reader.get_varint() {
            Some(v) => v,
            None => {
                return None;
            },
        };
        let ghost n1 = varint_len(s[0]) as int;
        let kind = match StreamKind::parse(kind_id) {
            Some(kind) => kind,
            None => {
                return Some(Err(StreamHeaderReadError::UnknownStream));
            },
        };
        let session_id = if matches!(kind, StreamKind::WebTransport) {
            let ghost rest = s.skip(n1);
            let sv = match bytes_reader.get_varint() {
                Some(v) => v,
                None => {
                    return None;
                },
            };
            proof {
                assert(s.skip(n1).skip(varint_len(rest[0]) as int) =~= s.skip(
                    n1 + varint_len(rest[0]) as int,
                ));
            }
            let session_id = match SessionId::try_from_varint(sv) {
                Ok(session_id) => session_id,
                Err(InvalidSessionId) => {
                    return Some(Err(StreamHeaderReadError::InvalidSessionId));
                },
            };
            proof {
                use_type_invariant(session_id);
            }
            Some(session_id)
        } else {
            None
        };
        Some(Ok(Self::new(kind, session_id)))
    }

    /// Reads a header from a [`BufferReader`], all or nothing.
    ///
    /// Returns [`None`] when too few bytes remain for a whole header. On
    /// [`None`] or [`Err`] the reader's offset is exactly where it was; on
    /// [`Ok`] it has advanced by exactly the header's size.
    pub fn read_from_buffer(buffer_reader: &mut BufferReader) -> (r: Option<
        Result<Self, StreamHeaderReadError>,
    >)
        ensures
            final(buffer_reader).all_bytes() == old(buffer_reader).all_bytes(),
            ({
                let s = old(buffer_reader).remaining_bytes();
                match r {
                    None => {
                        &&& spec_parse_header(s) is Incomplete
                        &&& final(buffer_reader).pos() == old(buffer_reader).pos()
                    },
                    Some(Err(StreamHeaderReadError::UnknownStream)) => {
                        &&& spec_parse_header(s) is UnknownStream
                        &&& final(buffer_reader).pos() == old(buffer_reader).pos()
                    },
                    Some(Err(StreamHeaderReadError::InvalidSessionId)) => {
                        &&& spec_parse_header(s) is InvalidSession
                        &&& final(buffer_reader).pos() == old(buffer_reader).pos()
                    },
                    Some(Ok(h)) => {
                        &&& h.wf()
                        &&& (spec_parse_header(s) matches HeaderParse::Complete {
                            kind_id,
                            session,
                            used,
                        } && spec_kind_id(h.spec_kind()) == kind_id && h.spec_session_value()
                            == session && final(buffer_reader).pos() == old(buffer_reader).pos()
                            + used)
                    },
                }
            }),
    {
        let mut remaining: &[u8] = buffer_reader.buffer_remaining();
        let before = remaining.len();
        match Self::read(&mut remaining) {
            None => None,
            Some(Err(error)) => Some(Err(error)),
            Some(Ok(header)) => {
                let used = before - remaining.len();
                let skipped = buffer_reader.skip(used);
                proof {
                    assert(skipped is Ok);
                }
                Some(Ok(header))
            },
        }
    }

    /// Writes this header into `bytes_writer`.
    ///
    /// Fails exactly when the writer cannot fit the whole header; see
    /// [`StreamHeader::write_size`] for the capacity it needs. A failed
    /// write has written either nothing or the discriminant alone.
    pub fn write<W: BytesWriter>(&self, bytes_writer: &mut W) -> (r: Result<(), EndOfBuffer>)
        ensures
            old(bytes_writer).can_fit(spec_header_bytes(self).len() as nat) ==> r is Ok,
            r is Ok ==> final(bytes_writer).written() == old(bytes_writer).written()
                + spec_header_bytes(self),
            r is Err ==> !old(bytes_writer).can_fit(spec_header_bytes(self).len() as nat),
            r is Err ==> {
                ||| final(bytes_writer).written() == old(bytes_writer).written()
                ||| final(bytes_writer).written() == old(bytes_writer).written() + varint_bytes(
                    spec_kind_id(self.spec_kind()) as u64,
                )
            },
    {
        proof {
            use_type_invariant(self);
        }
        let kid = self.kind.id();
        proof {
            use_type_invariant(kid);
            lemma_varint_bytes_props(kid@);
            if old(bytes_writer).can_fit(spec_header_bytes(self).len() as nat) {
                old(bytes_writer).can_fit_shrink(
                    varint_bytes(kid@).len() as nat,
                    spec_header_bytes(self).len() as nat,
                );
            }
        }
        match bytes_writer.put_varint(kid) {
            Ok(()) => (),
            Err(e) => {
                return Err(e);
            },
        }
        match self.session_id() {
            Some(sid) => {
                let sv = sid.into_varint();
                proof {
                    use_type_invariant(sv);
                    lemma_varint_bytes_props(sv@);
                }
                match bytes_writer.put_varint(sv) {
                    Ok(()) => Ok(()),
                    Err(e) => Err(e),
                }
            },
            None => Ok(()),
        }
    }

    /// Writes this header into a [`BufferWriter`], all or nothing.
    ///
    /// Fails exactly when the writer's remaining capacity is below
    /// [`StreamHeader::write_size`], and then changes nothing.
    pub fn write_to_buffer(&self, buffer_writer: &mut BufferWriter) -> (r: Result<
        (),
        EndOfBuffer,
    >)
        ensures
            r is Ok <==> old(buffer_writer).can_fit(spec_header_bytes(self).len() as nat),
            r is Ok ==> final(buffer_writer).written() == old(buffer_writer).written()
                + spec_header_bytes(self),
            r is Err ==> {
                &&& final(buffer_writer).all_bytes() == old(buffer_writer).all_bytes()
                &&& final(buffer_writer).pos() == old(buffer_writer).pos()
            },
    {
        if buffer_writer.capacity() < self.write_size() {
            return Err(EndOfBuffer);
        }
        match self.write(buffer_writer) {
            Ok(()) => Ok(()),
            Err(EndOfBuffer) => {
                proof {
                    assert(false);
                }
                Err(EndOfBuffer)
            },
        }
    }
}

/// Reads one stream header from an incrementally-arriving byte source.
///
/// The machine first wants the discriminant varint's bytes and then, for a
/// WebTransport stream, the session identifier varint's; the caller moves
/// bytes exactly as for the other machines. What it yields depends only on
/// the bytes taken, never on how they were split into transfers.
pub struct GetHeader {
    history: Vec<u8>,
    task: GetVarint,
    in_session: bool,
    header: Option<StreamHeader>,
    failed: bool,
}

impl GetHeader {
    /// The bytes taken from the source so far.
    pub closed spec fn consumed(&self) -> Seq<u8> {
        self.history@
    }

    /// Whether a complete header has been read.
    pub closed spec fn done(&self) -> bool {
        self.header is Some
    }

    /// Whether the read has failed for good: the machine is single-use and
    /// takes no more bytes.
    pub closed spec fn has_failed(&self) -> bool {
        self.failed
    }

    /// How many bytes the machine wants next.
    pub closed spec fn needed(&self) -> int {
        if self.failed || self.header is Some {
            0
        } else {
            self.task.needed()
        }
    }

    #[verifier::type_invariant]
    spec fn type_inv(self) -> bool {
        !self.failed ==> match self.header {
            Some(h) => {
                &&& h.wf()
                &&& (spec_parse_header(self.history@) matches HeaderParse::Complete {
                    kind_id,
                    session,
                    used,
                } && kind_id == spec_kind_id(h.spec_kind()) && session == h.spec_session_value()
                    && used == self.history@.len())
            },
            None => {
                &&& !self.task.done()
                &&& if !self.in_session {
                    self.history@ == self.task.consumed()
                } else {
                    &&& self.history@.len() >= 1
                    &&& ({
                        let n1 = varint_len(self.history@[0]) as int;
                        &&& self.history@.len() >= n1
                        &&& varint_value(self.history@.take(n1)) == 0x54
                        &&& self.task.consumed() == self.history@.skip(n1)
                    })
                }
            },
        }
    }

    /// Creates a machine that has read nothing yet.
    pub fn new() -> (r: Self)
        ensures
            r.consumed().len() == 0,
            !r.done(),
            !r.has_failed(),
    {
        let history: Vec<u8> = Vec::new();
        let task = GetVarint::new();
        proof {
            assert(history@ =~= task.consumed());
        }
        GetHeader { history, task, in_session: false, header: None, failed: false }
    }

    /// Whether a complete header has been read.
    pub fn is_done(&self) -> (r: bool)
        ensures
            r == self.done(),
    {
        self.header.is_some()
    }

    /// Whether the read has failed for good.
    pub fn is_failed(&self) -> (r: bool)
        ensures
            r == self.has_failed(),
    {
        self.failed
    }

    /// How many bytes the machine wants next: zero exactly when it is done
    /// or has failed.
    pub fn request_len(&self) -> (r: usize)
        ensures
            r == self.needed(),
    {
        proof {
            use_type_invariant(self);
        }
        if self.failed || self.header.is_some() {
            0
        } else {
            self.task.request_len()
        }
    }

    /// Takes the bytes of one transfer, at most the requested count.
    ///
    /// Returns `Ok(true)` when the header is now complete, `Ok(false)` when
    /// more bytes are wanted. An empty transfer means the source is closed;
    /// bytes that name no valid header fail with the matching header error.
    /// Either failure is final and leaves the bytes taken so far as they
    /// were.
    pub fn accept(&mut self, data: &[u8]) -> (r: Result<bool, StreamHeaderReadAsyncError>)
        requires
            !old(self).done(),
            !old(self).has_failed(),
            data@.len() <= old(self).needed(),
        ensures
            data@.len() == 0 ==> {
                &&& (r matches Err(StreamHeaderReadAsyncError::IO(e)) && e is Closed)
                &&& final(self).consumed() == old(self).consumed()
                &&& final(self).has_failed()
            },
            data@.len() > 0 ==> {
                &&& final(self).consumed() == old(self).consumed() + data@
                &&& ({
                    let out = spec_parse_header(final(self).consumed());
                    match r {
                        Ok(true) => {
                            &&& final(self).done()
                            &&& !final(self).has_failed()
                            &&& (out matches HeaderParse::Complete { used, .. } && used
                                == final(self).consumed().len())
                        },
                        Ok(false) => {
                            &&& !final(self).done()
                            &&& !final(self).has_failed()
                            &&& out is Incomplete
                            &&& final(self).needed() > 0
                        },
                        Err(StreamHeaderReadAsyncError::StreamHeader(
                            StreamHeaderReadError::UnknownStream,
                        )) => final(self).has_failed() && out is UnknownStream,
                        Err(StreamHeaderReadAsyncError::StreamHeader(
                            StreamHeaderReadError::InvalidSessionId,
                        )) => final(self).has_failed() && out is InvalidSession,
                        Err(StreamHeaderReadAsyncError::IO(_)) => false,
                    }
                })
            },
    {
        proof {
            use_type_invariant(&*self);
        }
        if data.len() == 0 {
            self.failed = true;
            return Err(StreamHeaderReadAsyncError::IO(IoError::Closed));
        }
        let ghost pre = *self;
        let in_session = self.in_session;
        self.failed = true;
        let mut task = GetVarint::new();
        std::mem::swap(&mut task, &mut self.task);
        let mut history: Vec<u8> = Vec::new();
        std::mem::swap(&mut history, &mut self.history);
        let accepted = task.accept(data);
        proof {
            if accepted is Err {
                assert(false);
            }
        }
        let mut tmp = vstd::slice::slice_to_vec(data);
        history.append(&mut tmp);
        let ghost hist = history@;
        let mut outcome: Result<bool, StreamHeaderReadAsyncError> = Ok(false);
        let mut new_header: Option<StreamHeader> = None;
        let mut new_in_session = in_session;
        let mut sound = true;
        if task.is_done() {
            let v = task.result();
            if !in_session {
                proof {
                    assert(hist =~= task.consumed());
                    assert(hist.take(varint_len(hist[0]) as int) =~= hist);
                }
                match StreamKind::parse(v) {
                    Some(kind) => {
                        if matches!(kind, StreamKind::WebTransport) {
                            new_in_session = true;
                            task = GetVarint::new();
                            proof {
                                assert(hist.skip(varint_len(hist[0]) as int) =~= task.consumed());
                            }
                        } else {
                            new_header = Some(StreamHeader::new(kind, None));
                            outcome = Ok(true);
                        }
                    },
                    None => {
                        sound = false;
                        outcome = Err(
                            StreamHeaderReadAsyncError::StreamHeader(
                                StreamHeaderReadError::UnknownStream,
                            ),
                        );
                    },
                }
            } else {
                let ghost n1 = varint_len(hist[0]) as int;
                proof {
                    assert(hist.skip(n1) =~= task.consumed());
                    assert(hist.skip(n1).take(varint_len(hist.skip(n1)[0]) as int) =~= hist.skip(
                        n1,
                    ));
                    assert(hist.take(n1) =~= pre.history@.take(n1));
                }
                match SessionId::try_from_varint(v) {
                    Ok(session_id) => {
                        new_header = Some(
                            StreamHeader::new(StreamKind::WebTransport, Some(session_id)),
                        );
                        outcome = Ok(true);
                    },
                    Err(InvalidSessionId) => {
                        sound = false;
                        outcome = Err(
                            StreamHeaderReadAsyncError::StreamHeader(
                                StreamHeaderReadError::InvalidSessionId,
                            ),
                        );
                    },
                }
            }
        } else {
            proof {
                if !in_session {
                    assert(hist =~= task.consumed());
                } else {
                    let n1 = varint_len(hist[0]) as int;
                    assert(hist.skip(n1) =~= task.consumed());
                    assert(hist.take(n1) =~= pre.history@.take(n1));
                }
            }
        }
        std::mem::swap(&mut task, &mut self.task);
        std::mem::swap(&mut history, &mut self.history);
        self.in_session = new_in_session;
        self.header = new_header;
        if sound {
            self.failed = false;
        }
        outcome
    }

    /// The header, once one has been read in full.
    pub fn result(&self) -> (r: StreamHeader)
        requires
            self.done(),
            !self.has_failed(),
        ensures
            r.wf(),
            spec_parse_header(self.consumed()) matches HeaderParse::Complete {
                kind_id,
                session,
                used,
            } && kind_id == spec_kind_id(r.spec_kind()) && session == r.spec_session_value()
                && used == self.consumed().len(),
    {
        proof {
            use_type_invariant(self);
        }
        match self.header {
            Some(h) => h,
            None => vstd::pervasive::unreached(),
        }
    }
}

/// Law: a well-formed header with a valid session identifier, written and
/// then read back, parses as a complete header with the same discriminant
/// and session identifier, consuming exactly its write size, whatever bytes
/// follow it.
pub proof fn lemma_header_round_trip(h: &StreamHeader, rest: Seq<u8>)
    requires
        h.wf(),
        h.spec_session_value() matches Some(sv) ==> valid_session_id(sv),
    ensures
        spec_parse_header(spec_header_bytes(h) + rest) matches HeaderParse::Complete {
            kind_id,
            session,
            used,
        } && kind_id == spec_kind_id(h.spec_kind()) && session == h.spec_session_value() && used
            == spec_header_bytes(h).len(),
{
    let kid = spec_kind_id(h.spec_kind()) as u64;
    lemma_varint_bytes_props(kid);
    let kb = varint_bytes(kid);
    let hb = spec_header_bytes(h);
    let s = hb + rest;
    let n1 = varint_len(kb[0]) as int;
    assert(s[0] == kb[0]);
    assert(s.take(n1) =~= kb);
    assert(known_stream_id(kid as int));
    match h.spec_session_value() {
        None => {
            assert(!is_exercise_id(0x54));
            assert(kid != 0x54);
            assert(hb == kb);
        },
        Some(sv) => {
            assert(kid == 0x54);
            lemma_varint_bytes_props(sv as u64);
            let sb = varint_bytes(sv as u64);
            assert(hb == kb + sb);
            let rest2 = s.skip(n1);
            assert(rest2 =~= sb + rest);
            assert(rest2[0] == sb[0]);
            let n2 = varint_len(sb[0]) as int;
            assert(rest2.take(n2) =~= sb);
            assert(varint_value(rest2.take(n2)) as int == sv);
        },
    }
}

} // verus!
