use font_generator::bytes::ByteSink;
use font_generator::write_defered::{
    ChecksumOfAll, DeferedWrite, KnownBytes, WriteDefered, WriteOpBox,
};

fn known(bytes: &[u8]) -> WriteOpBox {
    WriteOpBox { op: Box::new(KnownBytes { bytes: bytes.to_vec() }) }
}

fn test_dyn(writer: &mut WriteDefered) {
    writer.write_defered(known(b"bcd"));
}

#[test]
fn test() {
    let mut writer = WriteDefered::new(ByteSink::new());

    writer.write_all(b"a");
    test_dyn(&mut writer);
    writer.write_all(b"e");

    let result = writer.resolve_pending().unwrap().into_bytes();

    assert_eq!(result, b"abcde");
}

#[test]
fn a_deferred_write_leaves_zeros_until_it_is_resolved() {
    let mut sink = ByteSink::new();
    sink.put_bytes(b"xy");
    let mut writer = WriteDefered::new(sink);

    writer.write_defered(WriteOpBox { op: Box::new(ChecksumOfAll {}) });
    writer.write_all(&[0, 0, 0, 1, 0, 0]);

    let result = writer.resolve_pending().unwrap().into_bytes();

    assert_eq!(result, vec![0x78, 0x79, 0x78, 0x7A, 0x00, 0x00, 0, 0, 0, 1, 0, 0]);
}

#[test]
fn writes_are_resolved_in_the_order_of_their_deferral() {
    let mut writer = WriteDefered::new(ByteSink::new());

    writer.write_defered(WriteOpBox { op: Box::new(ChecksumOfAll {}) });
    writer.write_defered(known(&[0, 0, 0, 5]));

    let result = writer.resolve_pending().unwrap().into_bytes();

    assert_eq!(result, vec![0, 0, 0, 0, 0, 0, 0, 5]);
}

#[test]
fn a_later_write_for_the_same_place_takes_over() {
    let mut writer = WriteDefered::new(ByteSink::new());

    writer.write_all(b"a");
    writer.defer_write(b"", known(b""));
    writer.defer_write(b"--", known(b"bc"));

    let result = writer.resolve_pending().unwrap().into_bytes();

    assert_eq!(result, b"abc");
}
