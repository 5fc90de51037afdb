use wtransport_proto::VarInt;
use wtransport_proto::bytes::BytesWriter;
use wtransport_proto::ids::SessionId;
use wtransport_proto::stream::GetHeader;
use wtransport_proto::stream::StreamHeader;
use wtransport_proto::stream::StreamHeaderReadAsyncError;
use wtransport_proto::stream::StreamHeaderReadError;
use wtransport_proto::stream::StreamKind;
use wtransport_proto::tasks::GetBuffer;
use wtransport_proto::tasks::GetVarint;
use wtransport_proto::tasks::IoError;
use wtransport_proto::tasks::PutBuffer;
use wtransport_proto::tasks::PutVarint;

fn varint_test_cases() -> Vec<(Vec<u8>, VarInt)> {
    vec![
        (
            vec![0xc2, 0x19, 0x7c, 0x5e, 0xff, 0x14, 0xe8, 0x8c],
            VarInt::try_from_u64(151_288_809_941_952_652).unwrap(),
        ),
        (vec![0x9d, 0x7f, 0x3e, 0x7d], VarInt::from_u32(494_878_333)),
        (vec![0x7b, 0xbd], VarInt::from_u32(15_293)),
        (vec![0x25], VarInt::from_u32(37)),
    ]
}

#[test]
fn varint_step_delivery() {
    // One byte per transfer, however long the varint: the machine resumes
    // and yields the same value as a whole-buffer decode.
    for (varint_buffer, value_expect) in varint_test_cases() {
        let mut task = GetVarint::new();
        let mut i = 0;
        while !task.is_done() {
            assert!(task.request_len() > 0);
            task.accept(&varint_buffer[i..i + 1]).unwrap();
            i += 1;
        }
        assert_eq!(i, varint_buffer.len());
        assert_eq!(task.result(), value_expect);
    }
}

#[test]
fn varint_chunked_delivery() {
    // An eight-byte varint arriving as 1+3+4 bytes.
    let cases = varint_test_cases();
    let (buffer, expect) = (&cases[0].0, cases[0].1);
    let mut task = GetVarint::new();
    task.accept(&buffer[0..1]).unwrap();
    assert_eq!(task.request_len(), 7);
    task.accept(&buffer[1..4]).unwrap();
    assert_eq!(task.request_len(), 4);
    task.accept(&buffer[4..8]).unwrap();
    assert!(task.is_done());
    assert_eq!(task.result(), expect);
}

#[test]
fn closed_sources_fail() {
    let mut get_varint = GetVarint::new();
    assert!(matches!(get_varint.accept(&[]), Err(IoError::Closed)));

    let mut get_buffer = GetBuffer::new(1);
    assert!(matches!(get_buffer.accept(&[]), Err(IoError::Closed)));

    let mut put_varint = PutVarint::new(VarInt::from_u32(0));
    assert!(matches!(put_varint.advance(0), Err(IoError::Closed)));

    let bytes = [0x0];
    let mut put_buffer = PutBuffer::new(&bytes);
    assert!(matches!(put_buffer.advance(0), Err(IoError::Closed)));
}

#[test]
fn put_varint_step_delivery() {
    // A sink that takes one byte per transfer still receives the exact
    // canonical encoding.
    for (varint_buffer, value) in varint_test_cases() {
        let mut task = PutVarint::new(value);
        let mut written: Vec<u8> = Vec::new();
        while !task.is_done() {
            let pending = task.pending();
            assert!(!pending.is_empty());
            written.push(pending[0]);
            task.advance(1).unwrap();
        }
        assert_eq!(task.size(), written.len());
        assert_eq!(written, varint_buffer);
    }
}

#[test]
fn put_buffer_step_delivery() {
    let payload = [0x10, 0x20, 0x30, 0x40];
    let mut task = PutBuffer::new(&payload);
    let mut written: Vec<u8> = Vec::new();
    while !task.is_done() {
        let pending = task.pending();
        written.push(pending[0]);
        task.advance(1).unwrap();
    }
    assert_eq!(written, payload.to_vec());
}

#[test]
fn get_buffer_chunked_delivery() {
    let mut task = GetBuffer::new(5);
    assert_eq!(task.request_len(), 5);
    task.accept(&[0x01, 0x02]).unwrap();
    assert_eq!(task.request_len(), 3);
    task.accept(&[0x03]).unwrap();
    task.accept(&[0x04, 0x05]).unwrap();
    assert!(task.is_done());
    assert_eq!(task.into_buffer(), vec![0x01, 0x02, 0x03, 0x04, 0x05]);
}

#[test]
fn header_step_delivery() {
    // A WebTransport header with a two-byte session id, one byte per
    // transfer.
    let session_id = SessionId::try_from_varint(VarInt::from_u32(256)).unwrap();
    let header = StreamHeader::new_webtransport(session_id);
    let mut bytes = Vec::new();
    header.write(&mut bytes).unwrap();

    let mut task = GetHeader::new();
    let mut i = 0;
    loop {
        assert!(task.request_len() > 0);
        let complete = task.accept(&bytes[i..i + 1]).unwrap();
        i += 1;
        if complete {
            break;
        }
    }
    assert_eq!(i, bytes.len());
    let read_back = task.result();
    assert!(matches!(read_back.kind(), StreamKind::WebTransport));
    assert!(matches!(read_back.session_id(), Some(x) if x == session_id));
}

#[test]
fn header_machine_control() {
    let mut task = GetHeader::new();
    let complete = task.accept(&[0x00]).unwrap();
    assert!(complete);
    assert!(task.is_done());
    let header = task.result();
    assert!(matches!(header.kind(), StreamKind::Control));
    assert!(header.session_id().is_none());
}

#[test]
fn header_machine_unknown_stream() {
    // The two-byte varint [0x40, 0x42] encodes the unknown discriminant
    // 0x42.
    let mut task = GetHeader::new();
    assert!(!task.accept(&[0x40]).unwrap());
    assert!(matches!(
        task.accept(&[0x42]),
        Err(StreamHeaderReadAsyncError::StreamHeader(
            StreamHeaderReadError::UnknownStream
        ))
    ));
    assert!(task.is_failed());
}

#[test]
fn header_machine_invalid_session_id() {
    // [0x40, 0x54] encodes the WebTransport discriminant; 0x01 is an
    // invalid session id.
    let mut task = GetHeader::new();
    assert!(!task.accept(&[0x40]).unwrap());
    assert!(!task.accept(&[0x54]).unwrap());
    assert!(matches!(
        task.accept(&[0x01]),
        Err(StreamHeaderReadAsyncError::StreamHeader(
            StreamHeaderReadError::InvalidSessionId
        ))
    ));
    assert!(task.is_failed());
}

#[test]
fn header_machine_closed_source() {
    // A source that ends mid-header is a transport closure, not a header
    // error.
    let mut task = GetHeader::new();
    assert!(!task.accept(&[0x40]).unwrap());
    assert!(!task.accept(&[0x54]).unwrap());
    assert!(matches!(
        task.accept(&[]),
        Err(StreamHeaderReadAsyncError::IO(IoError::Closed))
    ));
    assert!(task.is_failed());
}
