use wtransport_proto::VarInt;
use wtransport_proto::bytes::BufferReader;
use wtransport_proto::bytes::BufferWriter;
use wtransport_proto::bytes::BytesWriter;
use wtransport_proto::ids::SessionId;
use wtransport_proto::stream::StreamHeader;
use wtransport_proto::stream::StreamHeaderReadError;
use wtransport_proto::stream::StreamKind;

fn assert_serde(stream_header: StreamHeader) -> StreamHeader {
    let mut buffer = Vec::new();

    stream_header.write(&mut buffer).unwrap();
    assert_eq!(buffer.len(), stream_header.write_size());
    assert!(buffer.len() <= StreamHeader::MAX_SIZE);

    let mut buffer = buffer.as_slice();
    let stream_header = StreamHeader::read(&mut buffer).unwrap().unwrap();
    assert!(buffer.is_empty());

    stream_header
}

#[test]
fn control() {
    let stream_header = StreamHeader::new_control();
    assert!(matches!(stream_header.kind(), StreamKind::Control));
    assert!(stream_header.session_id().is_none());

    let stream_header = assert_serde(stream_header);
    assert!(matches!(stream_header.kind(), StreamKind::Control));
    assert!(stream_header.session_id().is_none());
}

#[test]
fn webtransport() {
    let session_id = SessionId::try_from_varint(VarInt::from_u32(0)).unwrap();

    let stream_header = StreamHeader::new_webtransport(session_id);
    assert!(matches!(stream_header.kind(), StreamKind::WebTransport));
    assert!(matches!(stream_header.session_id(), Some(x) if x == session_id));

    let stream_header = assert_serde(stream_header);
    assert!(matches!(stream_header.kind(), StreamKind::WebTransport));
    assert!(matches!(stream_header.session_id(), Some(x) if x == session_id));
}

#[test]
fn read_eof() {
    let mut buffer = Vec::new();
    StreamHeader::new_control().write(&mut buffer).unwrap();
    assert!(StreamHeader::read(&mut &buffer[..buffer.len() - 1]).is_none());
}

#[test]
fn unknown_stream() {
    // The discriminant 0x42 names no stream type and fails the exercise
    // rule.
    let mut buffer = Vec::new();
    buffer.put_varint(VarInt::from_u32(0x42)).unwrap();

    assert!(matches!(
        StreamHeader::read(&mut buffer.as_slice()).unwrap(),
        Err(StreamHeaderReadError::UnknownStream)
    ));
}

#[test]
fn invalid_session_id() {
    // A WebTransport discriminant followed by a session id that fails
    // conversion.
    let mut buffer = Vec::new();
    buffer.put_varint(VarInt::from_u32(0x54)).unwrap();
    buffer.put_varint(VarInt::from_u32(1)).unwrap();

    assert!(matches!(
        StreamHeader::read(&mut buffer.as_slice()).unwrap(),
        Err(StreamHeaderReadError::InvalidSessionId)
    ));
}

#[test]
fn invalid_session_id_round_trip() {
    // A header built with an invalid session id writes fine and is then
    // rejected by the reader.
    let invalid_session_id = SessionId::maybe_invalid(VarInt::from_u32(1));
    let stream_header = StreamHeader::new_webtransport(invalid_session_id);

    let mut buffer = Vec::new();
    stream_header.write(&mut buffer).unwrap();

    assert!(matches!(
        StreamHeader::read(&mut buffer.as_slice()).unwrap(),
        Err(StreamHeaderReadError::InvalidSessionId)
    ));
}

#[test]
fn exercise_discriminant_accepted() {
    // 0x21 + 0x1f * 2 = 0x5f passes the exercise rule.
    assert!(StreamKind::is_id_exercise(VarInt::from_u32(0x5f)));
    assert!(!StreamKind::is_id_exercise(VarInt::from_u32(0x42)));
    assert!(!StreamKind::is_id_exercise(VarInt::from_u32(0x54)));

    let mut buffer = Vec::new();
    buffer.put_varint(VarInt::from_u32(0x5f)).unwrap();

    let header = StreamHeader::read(&mut buffer.as_slice()).unwrap().unwrap();
    assert!(matches!(header.kind(), StreamKind::Exercise(v) if v == VarInt::from_u32(0x5f)));
    assert!(header.session_id().is_none());
}

#[test]
fn buffer_atomic_read_success() {
    let session_id = SessionId::try_from_varint(VarInt::from_u32(4)).unwrap();
    let header = StreamHeader::new_webtransport(session_id);
    let mut sink = Vec::new();
    header.write(&mut sink).unwrap();
    sink.extend_from_slice(&[0xaa, 0xbb]);

    let mut reader = BufferReader::new(&sink);
    let read_back = StreamHeader::read_from_buffer(&mut reader).unwrap().unwrap();
    assert!(matches!(read_back.kind(), StreamKind::WebTransport));
    assert!(matches!(read_back.session_id(), Some(x) if x == session_id));
    assert_eq!(reader.offset(), header.write_size());
    assert_eq!(reader.capacity(), 2);
}

#[test]
fn buffer_atomic_read_incomplete_leaves_offset() {
    // Discriminant read, session id missing: the raw reader would sit past
    // the discriminant, the buffer-atomic one must not move.
    let buffer = [0x40, 0x54];
    let mut reader = BufferReader::new(&buffer);
    assert!(StreamHeader::read_from_buffer(&mut reader).is_none());
    assert_eq!(reader.offset(), 0);
    assert_eq!(reader.capacity(), 2);
}

#[test]
fn buffer_atomic_read_error_leaves_offset() {
    let unknown = [0x40, 0x42];
    let mut reader = BufferReader::new(&unknown);
    assert!(matches!(
        StreamHeader::read_from_buffer(&mut reader),
        Some(Err(StreamHeaderReadError::UnknownStream))
    ));
    assert_eq!(reader.offset(), 0);

    let invalid = [0x40, 0x54, 0x01];
    let mut reader = BufferReader::new(&invalid);
    assert!(matches!(
        StreamHeader::read_from_buffer(&mut reader),
        Some(Err(StreamHeaderReadError::InvalidSessionId))
    ));
    assert_eq!(reader.offset(), 0);
    assert_eq!(reader.capacity(), 3);
}

#[test]
fn write_to_buffer_exact_fit_and_refusal() {
    let header = StreamHeader::new_control();
    let size = header.write_size();
    assert_eq!(size, 1);

    let mut writer = BufferWriter::new(vec![0; size]);
    header.write_to_buffer(&mut writer).unwrap();
    assert_eq!(writer.offset(), size);
    assert_eq!(writer.buffer_written(), &[0x00]);

    let mut too_small = BufferWriter::new(Vec::new());
    assert!(header.write_to_buffer(&mut too_small).is_err());
    assert_eq!(too_small.offset(), 0);
}

#[test]
fn session_id_rule() {
    assert!(SessionId::try_from_varint(VarInt::from_u32(0)).is_ok());
    assert!(SessionId::try_from_varint(VarInt::from_u32(4)).is_ok());
    assert!(SessionId::try_from_varint(VarInt::from_u32(1)).is_err());
    assert!(SessionId::try_from_varint(VarInt::from_u32(2)).is_err());
    let sid = SessionId::try_from_varint(VarInt::from_u32(8)).unwrap();
    assert_eq!(sid.into_varint(), VarInt::from_u32(8));
}
