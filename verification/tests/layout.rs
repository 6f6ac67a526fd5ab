use font_generator::layout::{LayoutError, Layouter};

#[test]
fn can_create_a_reservation() {
    let mut layouter = Layouter::new(1);

    layouter.reserve(8);
}

#[test]
fn reservations_have_the_correct_offset() {
    let mut layouter = Layouter::new(1);

    layouter.reserve(8);

    let reservation = layouter.reserve(2);

    assert_eq!(8, reservation.offset());
}

#[test]
fn can_write_to_a_reservation() {
    let mut layouter = Layouter::new(4);

    let reservation = layouter.reserve(8);

    let result = reservation.writer().write_all(&mut layouter, b"abcdefgh");

    assert!(result.is_ok());
}

#[test]
fn result_contains_what_was_written() {
    let mut layouter = Layouter::new(1);

    let first = layouter.reserve(4);
    first.writer().write_all(&mut layouter, b"abcd").unwrap();

    let second = layouter.reserve(4);
    second.writer().write_all(&mut layouter, b"efgh").unwrap();

    let result = layouter.get_result();

    assert_eq!(result, b"abcdefgh".to_vec());
}

#[test]
fn can_not_write_more_than_reserved() {
    let mut layouter = Layouter::new(1);

    let reservation = layouter.reserve(4);
    let result = reservation.writer().write_all(&mut layouter, b"abcdefg");

    assert!(result.is_err());
}

#[test]
fn empty_arena_gives_an_empty_file() {
    let layouter = Layouter::new(4);

    assert_eq!(layouter.get_result(), Vec::<u8>::new());
    assert_eq!(layouter.current_length(), 0);
    assert_eq!(layouter.alignment(), 4);
}

#[test]
fn lengths_are_rounded_up_to_the_alignment() {
    let mut layouter = Layouter::new(4);

    let first = layouter.reserve(5);
    let second = layouter.reserve(2);

    assert_eq!((first.offset(), first.len(), first.unpadded_len()), (0, 8, 5));
    assert_eq!((second.offset(), second.len(), second.unpadded_len()), (8, 4, 2));
    assert_eq!(layouter.current_length(), 12);
    assert_eq!(layouter.get_result(), vec![0u8; 12]);
}

#[test]
fn a_multiple_of_the_alignment_gets_no_padding() {
    let mut layouter = Layouter::new(8);

    assert_eq!(layouter.reserve(16).len(), 16);
    assert_eq!(layouter.reserve(0).len(), 0);
    assert_eq!(layouter.reserve(1).len(), 8);
    assert_eq!(layouter.current_length(), 24);
}

#[test]
fn each_reservation_starts_where_the_one_before_ends() {
    let mut layouter = Layouter::new(4);
    let sizes = [1usize, 4, 7, 0, 9, 3];
    let mut end = 0;

    for size in sizes {
        let reservation = layouter.reserve(size);

        assert_eq!(reservation.offset(), end);
        assert_eq!(reservation.len() % 4, 0);
        assert!(reservation.len() >= size && reservation.len() < size + 4);
        end = reservation.offset() + reservation.len();
    }
    assert_eq!(layouter.current_length(), end);
}

#[test]
fn writing_seven_bytes_into_four_is_out_of_bounds() {
    let mut layouter = Layouter::new(4);

    let reservation = layouter.reserve(4);
    let mut writer = reservation.writer();
    let result = writer.write_all(&mut layouter, b"abcdefg");

    assert!(matches!(result, Err(LayoutError::OutOfBounds)));
    assert_eq!(layouter.get_result(), b"abcd".to_vec());
    assert_eq!(writer.position(), 4);
}

#[test]
fn a_write_succeeds_exactly_when_it_ends_inside_the_window() {
    for position in 0..12usize {
        for count in 0..12usize {
            let mut layouter = Layouter::new(4);
            let reservation = layouter.reserve(8);
            let mut writer = reservation.writer();
            writer.seek(position);
            let data = vec![7u8; count];

            let result = writer.write_all(&mut layouter, &data);

            assert_eq!(result.is_ok(), position + count <= 8);
        }
    }
}

#[test]
fn writes_follow_each_other() {
    let mut layouter = Layouter::new(4);
    layouter.reserve(4);
    let reservation = layouter.reserve(6);
    let mut writer = reservation.writer();

    writer.write_all(&mut layouter, b"ab").unwrap();
    writer.write_all(&mut layouter, b"cd").unwrap();
    assert_eq!(writer.position(), 4);
    writer.seek(1);
    writer.write_all(&mut layouter, b"X").unwrap();

    assert_eq!(layouter.get_result(), b"\0\0\0\0aXcd\0\0\0\0".to_vec());
}

#[test]
fn a_new_writer_starts_at_the_window_start() {
    let mut layouter = Layouter::new(1);
    let reservation = layouter.reserve(3);

    reservation.writer().write_all(&mut layouter, b"abc").unwrap();
    reservation.writer().write_all(&mut layouter, b"x").unwrap();

    assert_eq!(layouter.get_result(), b"xbc".to_vec());
}

#[test]
fn a_reader_reads_only_its_window() {
    let mut layouter = Layouter::new(4);
    let first = layouter.reserve(4);
    let second = layouter.reserve(4);
    first.writer().write_all(&mut layouter, b"abcd").unwrap();
    second.writer().write_all(&mut layouter, b"efgh").unwrap();

    let mut reader = second.reader();
    assert_eq!(reader.read_exact(&layouter, 2).unwrap(), b"ef".to_vec());
    assert_eq!(reader.position(), 2);
    assert!(matches!(reader.read_exact(&layouter, 3), Err(LayoutError::OutOfBounds)));
    assert_eq!(reader.position(), 2);
    assert_eq!(reader.read_to_end(&layouter), b"gh".to_vec());
    assert_eq!(reader.position(), 4);
    assert_eq!(reader.read_to_end(&layouter), Vec::<u8>::new());

    let mut again = first.reader();
    again.seek(9);
    assert_eq!(again.read_to_end(&layouter), Vec::<u8>::new());
    assert_eq!(again.position(), 9);
    assert_eq!(first.reader().read_to_end(&layouter), b"abcd".to_vec());
}

#[test]
fn get_result_can_be_asked_again() {
    let mut layouter = Layouter::new(2);
    let reservation = layouter.reserve(3);
    reservation.writer().write_all(&mut layouter, b"abc").unwrap();

    assert_eq!(layouter.get_result(), layouter.get_result());
    assert_eq!(layouter.get_result(), b"abc\0".to_vec());
}

#[test]
fn io_errors_become_layout_errors() {
    let error = LayoutError::from(std::io::Error::new(std::io::ErrorKind::Other, "down"));

    assert!(matches!(error, LayoutError::IoError(_)));
}
