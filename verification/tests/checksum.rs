use font_generator::checksum::{checksum32, checksum_adjustment, CHECKSUM_MAGIC};
use font_generator::open_type::search::SearchData;

#[test]
fn checksum_of_nothing_is_zero() {
    assert_eq!(checksum32(b""), 0);
}

#[test]
fn checksum_adds_big_endian_words() {
    assert_eq!(checksum32(&[0x00, 0x00, 0x00, 0x01, 0x00, 0x00, 0x01, 0x00]), 0x0000_0101);
    assert_eq!(checksum32(&[0x12, 0x34, 0x56, 0x78]), 0x1234_5678);
}

#[test]
fn checksum_fills_a_short_word_with_zeros() {
    assert_eq!(checksum32(b"abcde"), 0xC662_6364);
    assert_eq!(checksum32(&[0x01]), 0x0100_0000);
    assert_eq!(checksum32(&[0x01, 0x02, 0x03]), 0x0102_0300);
}

#[test]
fn checksum_wraps_around() {
    assert_eq!(checksum32(&[0xFF; 8]), 0xFFFF_FFFE);
}

#[test]
fn adjustment_and_checksum_add_up_to_the_magic_number() {
    let samples: [&[u8]; 4] = [b"", b"abcde", &[0xFF; 8], &[0xB1, 0xB0, 0xAF, 0xBB]];

    for sample in samples {
        let sum = checksum32(sample);
        let adjustment = checksum_adjustment(sample);

        assert_eq!(adjustment.wrapping_add(sum), CHECKSUM_MAGIC);
    }
    assert_eq!(checksum_adjustment(b""), 0xB1B0_AFBA);
    assert_eq!(checksum_adjustment(&[0xB1, 0xB0, 0xAF, 0xBB]), 0xFFFF_FFFF);
}

#[test]
fn search_data_for_small_counts() {
    let one = SearchData::for_length(1);
    assert_eq!((one.search_range, one.entry_selector, one.range_shift), (16, 0, 0));

    let three = SearchData::for_length(3);
    assert_eq!((three.search_range, three.entry_selector, three.range_shift), (32, 1, 16));

    let ten = SearchData::for_length(10);
    assert_eq!((ten.search_range, ten.entry_selector, ten.range_shift), (128, 3, 32));
}

#[test]
fn search_data_for_the_greatest_count() {
    let most = SearchData::for_length(4095);

    assert_eq!((most.search_range, most.entry_selector, most.range_shift), (32768, 11, 32752));
}

#[test]
fn search_range_is_the_greatest_power_of_two_below() {
    for n in 1..=4095u16 {
        let data = SearchData::for_length(n);
        let bytes = n as u32 * 16;

        assert!(data.search_range as u32 <= bytes);
        assert!(bytes < 2 * data.search_range as u32);
        assert_eq!(data.range_shift as u32, bytes - data.search_range as u32);
        assert_eq!(data.search_range as u32, 16 << data.entry_selector);
    }
}
