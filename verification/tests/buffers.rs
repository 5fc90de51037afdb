use wtransport_proto::VarInt;
use wtransport_proto::bytes::BufferReader;
use wtransport_proto::bytes::BufferWriter;
use wtransport_proto::bytes::BytesReader;
use wtransport_proto::bytes::BytesWriter;

fn varint_test_cases() -> Vec<(Vec<u8>, VarInt)> {
    vec![
        (
            vec![0xc2, 0x19, 0x7c, 0x5e, 0xff, 0x14, 0xe8, 0x8c],
            VarInt::try_from_u64(151_288_809_941_952_652).unwrap(),
        ),
        (vec![0x9d, 0x7f, 0x3e, 0x7d], VarInt::from_u32(494_878_333)),
        (vec![0x7b, 0xbd], VarInt::from_u32(15_293)),
        (vec![0x25], VarInt::from_u32(37)),
    ]
}

#[test]
fn parse_varint() {
    for (varint_buffer, value_expect) in varint_test_cases() {
        let mut buffer_reader = BufferReader::new(&varint_buffer);

        assert_eq!(buffer_reader.offset(), 0);
        assert_eq!(buffer_reader.capacity(), varint_buffer.len());

        let value = buffer_reader.get_varint().unwrap();

        assert_eq!(value, value_expect);
        assert_eq!(buffer_reader.offset(), varint_buffer.len());
        assert_eq!(buffer_reader.capacity(), 0);
    }
}

#[test]
fn write_varint() {
    for (varint_buffer, value) in varint_test_cases() {
        let mut buffer_writer = BufferWriter::new(vec![0; VarInt::MAX_SIZE]);

        assert_eq!(buffer_writer.offset(), 0);
        assert_eq!(buffer_writer.capacity(), VarInt::MAX_SIZE);

        buffer_writer.put_varint(value).unwrap();

        assert_eq!(buffer_writer.offset(), varint_buffer.len());
        assert_eq!(buffer_writer.buffer_written(), &varint_buffer[..]);
    }
}

#[test]
fn child_commit() {
    let buffer = [0x1, 0x2];
    let mut buffer_reader = BufferReader::new(&buffer);

    buffer_reader.skip(1).unwrap();
    assert_eq!(buffer_reader.offset(), 1);
    assert_eq!(buffer_reader.capacity(), 1);

    let mut buffer_reader_child = buffer_reader.child();
    assert_eq!(buffer_reader_child.offset(), 0);
    assert_eq!(buffer_reader_child.capacity(), 1);

    assert!(matches!(buffer_reader_child.get_bytes(1), Some([0x2])));
    assert_eq!(buffer_reader_child.offset(), 1);

    buffer_reader_child.commit(&mut buffer_reader);

    assert_eq!(buffer_reader.offset(), 2);
    assert_eq!(buffer_reader.capacity(), 0);
}

#[test]
fn child_drop() {
    let buffer = [0x1, 0x2];
    let mut buffer_reader = BufferReader::new(&buffer);

    buffer_reader.skip(1).unwrap();
    assert_eq!(buffer_reader.offset(), 1);
    assert_eq!(buffer_reader.capacity(), 1);

    let mut buffer_reader_child = buffer_reader.child();
    assert_eq!(buffer_reader_child.offset(), 0);
    assert_eq!(buffer_reader_child.capacity(), 1);

    assert!(matches!(buffer_reader_child.get_bytes(1), Some([0x2])));
    assert_eq!(buffer_reader_child.offset(), 1);

    assert_eq!(buffer_reader.offset(), 1);
    assert_eq!(buffer_reader.capacity(), 1);
}

#[test]
fn none() {
    let mut buffer_reader = BufferReader::new(&[]);
    assert!(matches!(buffer_reader.get_varint(), None));
    assert!(matches!(buffer_reader.get_bytes(1), None));

    let mut buffer_writer = BufferWriter::new(Vec::new());
    assert!(buffer_writer.put_varint(VarInt::from_u32(0)).is_err());
    assert!(buffer_writer.put_bytes(&[0x0]).is_err());
}

#[test]
fn skip_past_end_fails() {
    let buffer = [0x1, 0x2, 0x3];
    let mut buffer_reader = BufferReader::new(&buffer);
    assert!(buffer_reader.skip(4).is_err());
    assert_eq!(buffer_reader.offset(), 0);
    buffer_reader.skip(3).unwrap();
    assert!(buffer_reader.skip(1).is_err());
    assert_eq!(buffer_reader.offset(), 3);
}

#[test]
fn truncated_varint_leaves_reader_untouched() {
    // First byte announces two bytes, but only one is there.
    let buffer = [0x7b];
    let mut buffer_reader = BufferReader::new(&buffer);
    assert!(buffer_reader.get_varint().is_none());
    assert_eq!(buffer_reader.offset(), 0);
    assert_eq!(buffer_reader.capacity(), 1);
}

#[test]
fn slice_reader_consumes_prefix() {
    let buffer = vec![0x25, 0xaa, 0xbb];
    let mut slice: &[u8] = &buffer;
    let value = slice.get_varint().unwrap();
    assert_eq!(value, VarInt::from_u32(37));
    assert_eq!(slice, &[0xaa, 0xbb]);
    let taken = slice.get_bytes(2).unwrap();
    assert_eq!(taken, &[0xaa, 0xbb]);
    assert!(slice.is_empty());
}

#[test]
fn growable_writer_appends() {
    let mut sink: Vec<u8> = Vec::new();
    sink.put_varint(VarInt::from_u32(15_293)).unwrap();
    sink.put_bytes(&[0x01, 0x02]).unwrap();
    assert_eq!(sink, vec![0x7b, 0xbd, 0x01, 0x02]);
}

#[test]
fn varint_sizes() {
    assert_eq!(VarInt::from_u32(0).size(), 1);
    assert_eq!(VarInt::from_u32(63).size(), 1);
    assert_eq!(VarInt::from_u32(64).size(), 2);
    assert_eq!(VarInt::from_u32(16_383).size(), 2);
    assert_eq!(VarInt::from_u32(16_384).size(), 4);
    assert_eq!(VarInt::from_u32(1_073_741_823).size(), 4);
    assert_eq!(VarInt::try_from_u64(1_073_741_824).unwrap().size(), 8);
    assert_eq!(VarInt::try_from_u64(0x3fff_ffff_ffff_ffff).unwrap().size(), 8);
}

#[test]
fn varint_range() {
    assert!(VarInt::try_from_u64(0x3fff_ffff_ffff_ffff).is_some());
    assert!(VarInt::try_from_u64(0x4000_0000_0000_0000).is_none());
    assert_eq!(VarInt::try_from_u64(37).unwrap().into_inner(), 37);
}

#[test]
fn varint_parse_size_classes() {
    assert_eq!(VarInt::parse_size(0x00), 1);
    assert_eq!(VarInt::parse_size(0x3f), 1);
    assert_eq!(VarInt::parse_size(0x40), 2);
    assert_eq!(VarInt::parse_size(0x7f), 2);
    assert_eq!(VarInt::parse_size(0x80), 4);
    assert_eq!(VarInt::parse_size(0xbf), 4);
    assert_eq!(VarInt::parse_size(0xc0), 8);
    assert_eq!(VarInt::parse_size(0xff), 8);
}

#[test]
fn writer_rejects_oversized_write_unchanged() {
    let mut buffer_writer = BufferWriter::new(vec![0; 1]);
    buffer_writer.put_bytes(&[0x09]).unwrap();
    assert!(buffer_writer.put_bytes(&[0x0a]).is_err());
    assert_eq!(buffer_writer.offset(), 1);
    assert_eq!(buffer_writer.buffer_written(), &[0x09]);
}
