use font_generator::checksum::{checksum32, CHECKSUM_MAGIC};
use font_generator::layout::{LayoutError, Layoutable, Layouted, Layouter};
use font_generator::open_type::driver::{converge, generate, try_generate, MAX_PASSES};
use font_generator::open_type::directory::SFNTVersion;
use font_generator::open_type::file::{File, LayoutableTable, LayoutableTableBox, LayoutedTable};
use font_generator::open_type::fixed::Fixed;
use font_generator::open_type::tables::cmap::{CMap, CharacterRange};
use font_generator::open_type::tables::glyf::{Glyf, Glyph};
use font_generator::open_type::true_type::{Contour, Instrution, Point};
use font_generator::open_type::tables::head::{Flags, Head};
use font_generator::open_type::tables::maxp::MaxP;
use font_generator::open_type::tables::os2::{Panose, Script, OS2};
use font_generator::time::Timestamp;

fn sample_cmap() -> LayoutableTableBox {
    CMap::new_with_ranges(vec![CharacterRange { start: 'o', end: 'o', start_index: 0 }]).boxed()
}

fn sample_head() -> Head {
    Head {
        revision: Fixed { major: 0, minor: 1 },
        flags: Flags::default(),
        created: Timestamp::try_create(1000, 0).unwrap(),
        modified: Timestamp::try_create(2000, 0).unwrap(),
        units_per_em: 40,
        smalest_recocnizeable_size: 6,
        min_x: 0,
        min_y: 0,
        max_x: 14,
        max_y: 40,
    }
}

fn sample_os2() -> LayoutableTableBox {
    let script = Script { x_size: 60, y_size: 60, x_offset: 5, y_offset: 40 };
    OS2 {
        avg_glyph_width: 100,
        weight_class: 400,
        width_class: 5,
        subscript: script,
        superscript: script,
        strikeout_size: 10,
        strikeout_position: 45,
        panose: Panose::default(),
        typo_ascender: 20,
        typo_descender: -30,
        typo_line_gap: 120,
        win_ascent: 60,
        win_descent: 80,
        x_height: 60,
        cap_height: 80,
        default_cahr: 0,
        break_char: 32,
        max_context: 1,
    }
    .boxed()
}

fn number_at(bytes: &[u8], at: usize) -> u32 {
    u32::from_be_bytes([bytes[at], bytes[at + 1], bytes[at + 2], bytes[at + 3]])
}

fn padded(len: usize) -> usize {
    (len + 3) / 4 * 4
}

#[test]
fn single_cmap_table_gives_the_expected_file() {
    let file = File::new_with_tables(vec![sample_cmap()]);

    let bytes = generate(&file).unwrap();

    let expected: Vec<u8> = vec![
        0x4F, 0x54, 0x54, 0x4F, 0x00, 0x01, 0x00, 0x10, 0x00, 0x00, 0x00, 0x00, // header
        0x63, 0x6D, 0x61, 0x70, 0x00, 0x0C, 0x01, 0x0B, 0x00, 0x00, 0x00, 0x1C, 0x00, 0x00, 0x00,
        0x28, // entry
        0x00, 0x00, 0x00, 0x01, 0x00, 0x00, 0x00, 0x03, 0x00, 0x00, 0x00, 0x0C, // cmap header
        0x00, 0x0C, 0x00, 0x00, 0x00, 0x00, 0x00, 0x1C, 0x00, 0x00, 0x00, 0x00, 0x00, 0x00, 0x00,
        0x01, // subtable header
        0x00, 0x00, 0x00, 0x6F, 0x00, 0x00, 0x00, 0x6F, 0x00, 0x00, 0x00, 0x00, // group
    ];
    assert_eq!(bytes, expected);
    assert_eq!(number_at(&bytes, 16), checksum32(&bytes[28..]));
}

#[test]
fn tables_are_listed_in_tag_order() {
    let head = sample_head().boxed();
    let file = File::new_with_tables(vec![head, sample_cmap(), sample_os2()]);

    assert_eq!(file.table_count(), 3);
    let bytes = generate(&file).unwrap();

    assert_eq!(&bytes[12..16], b"OS/2");
    assert_eq!(&bytes[28..32], b"cmap");
    assert_eq!(&bytes[44..48], b"head");
    assert_eq!(&bytes[4..12], &[0x00, 0x03, 0x00, 0x20, 0x00, 0x01, 0x00, 0x10]);
}

#[test]
fn directory_entries_agree_with_the_table_bodies() {
    let file = File::new_with_tables(vec![
        MaxP { number_of_glyphs: 2 }.boxed(),
        sample_os2(),
        sample_cmap(),
        sample_head().boxed(),
    ]);

    let bytes = generate(&file).unwrap();

    let lengths = [96usize, 40, 54, 6];
    let mut offset = 12 + 16 * 4;
    let mut last_tag: Vec<u8> = Vec::new();
    for (index, length) in lengths.iter().enumerate() {
        let entry = 12 + 16 * index;
        let tag = bytes[entry..entry + 4].to_vec();
        assert!(last_tag < tag);
        last_tag = tag;
        assert_eq!(number_at(&bytes, entry + 8) as usize, offset);
        assert_eq!(number_at(&bytes, entry + 12) as usize, *length);
        let body = &bytes[offset..offset + padded(*length)];
        assert_eq!(number_at(&bytes, entry + 4), checksum32(body));
        offset += padded(*length);
    }
    assert_eq!(offset, bytes.len());
    assert_eq!(&bytes[offset - 8..offset], &[0x00, 0x00, 0x50, 0x00, 0x00, 0x02, 0x00, 0x00]);
}

#[test]
fn head_alone_settles_in_two_passes() {
    let head = sample_head();
    let mut layouter = Layouter::new(4);
    let mut laid = LayoutableTable::layout(&head, &mut layouter);
    assert!(laid.table.requires_another_pass());
    assert_eq!(laid.table.tag(), *b"head");
    assert_eq!(laid.table.reservation().len(), 56);

    let before = layouter.get_result();
    assert_eq!(before, vec![0u8; 56]);
    laid.table.pass(&mut layouter, &before).unwrap();
    let first = layouter.get_result();
    assert_eq!(&first[8..12], &[0, 0, 0, 0]);
    assert!(laid.table.requires_another_pass());
    assert_eq!(checksum32(&first), 0x5783_AA04);

    laid.table.pass(&mut layouter, &first).unwrap();
    let second = layouter.get_result();
    assert!(!laid.table.requires_another_pass());
    assert_eq!(&second[8..12], &[0x5A, 0x2D, 0x05, 0xB6]);

    let adjustment = number_at(&second, 8);
    let mut zeroed = second.clone();
    zeroed[8..12].copy_from_slice(&[0, 0, 0, 0]);
    assert_eq!(zeroed, first);
    assert_eq!(adjustment.wrapping_add(checksum32(&zeroed)), CHECKSUM_MAGIC);
    assert_eq!(checksum32(&second), CHECKSUM_MAGIC);
}

#[test]
fn head_bytes_are_as_expected() {
    let bytes = sample_head().encode(0);

    let expected: Vec<u8> = vec![
        0x00, 0x01, 0x00, 0x00, 0x00, 0x00, 0x00, 0x01, 0x00, 0x00, 0x00, 0x00, 0x5F, 0x0F, 0x3C,
        0xF5, 0x00, 0x18, 0x00, 0x28, 0x00, 0x00, 0x00, 0x00, 0x7C, 0x25, 0xB4, 0x68, 0x00, 0x00,
        0x00, 0x00, 0x7C, 0x25, 0xB8, 0x50, 0x00, 0x00, 0x00, 0x00, 0x00, 0x0E, 0x00, 0x28, 0x00,
        0x00, 0x00, 0x06, 0x00, 0x02, 0x00, 0x00, 0x00, 0x00,
    ];
    assert_eq!(bytes, expected);
    assert_eq!(&sample_head().encode(0x0102_0304)[8..12], &[1, 2, 3, 4]);
}

#[test]
fn a_file_without_head_settles_in_two_sweeps() {
    let file = File::new_with_tables(vec![sample_cmap(), sample_os2()]);
    let mut layouter = Layouter::new(4);
    let mut root = file.layout(&mut layouter);
    assert!(root.requires_another_pass());
    assert_eq!(root.table_count(), 2);
    assert_eq!(root.reservation().offset(), 0);
    assert_eq!(root.reservation().len(), 44);

    let passes = converge(&mut root, &mut layouter).unwrap();

    assert_eq!(passes, 2);
    assert!(!root.requires_another_pass());
    assert!(root.unsettled().is_empty());
}

#[test]
fn a_file_with_head_settles_in_three_sweeps() {
    let file = File::new_with_tables(vec![sample_cmap(), sample_head().boxed()]);
    let mut layouter = Layouter::new(4);
    let mut root = file.layout(&mut layouter);

    let passes = converge(&mut root, &mut layouter).unwrap();

    assert_eq!(passes, 3);
    assert!(passes <= MAX_PASSES);
    let bytes = layouter.get_result();
    let head_at = number_at(&bytes, 12 + 16 + 8) as usize;
    let adjustment = number_at(&bytes, head_at + 8);
    assert_ne!(adjustment, 0);
    assert_eq!(number_at(&bytes, 12 + 16 + 4), checksum32(&bytes[head_at..head_at + 56]));
}

#[test]
fn the_driver_gives_the_same_file_twice() {
    let first = File::new_with_tables(vec![sample_head().boxed(), sample_cmap(), sample_os2()]);
    let second = File::new_with_tables(vec![sample_os2(), sample_head().boxed(), sample_cmap()]);

    let once = generate(&first).unwrap();

    assert_eq!(once, generate(&first).unwrap());
    assert_eq!(once, generate(&second).unwrap());
}

#[test]
fn a_file_without_tables_is_malformed() {
    let file = File::new_with_tables(Vec::new());

    assert!(matches!(generate(&file), Err(LayoutError::MalformedDescription)));
}

#[test]
fn the_file_can_announce_true_type() {
    let file = File::new_with_tables(vec![sample_cmap()]).with_sfnt_version(SFNTVersion::TrueType);

    let bytes = generate(&file).unwrap();

    assert_eq!(&bytes[0..4], &[0x00, 0x01, 0x00, 0x00]);
    assert_eq!(SFNTVersion::TrueType.value(), 0x0001_0000);
    assert_eq!(SFNTVersion::OpenType.value(), 0x4F54_544F);
    assert_eq!(SFNTVersion::OpenType.bytes(), *b"OTTO");
}

#[test]
fn tables_of_equal_tag_keep_their_order() {
    let file = File::new_with_tables(vec![
        MaxP { number_of_glyphs: 7 }.boxed(),
        sample_cmap(),
        MaxP { number_of_glyphs: 9 }.boxed(),
    ]);

    let bytes = generate(&file).unwrap();

    assert_eq!(&bytes[12..16], b"cmap");
    assert_eq!(&bytes[28..32], b"maxp");
    assert_eq!(&bytes[44..48], b"maxp");
    let first = number_at(&bytes, 28 + 8) as usize;
    let second = number_at(&bytes, 44 + 8) as usize;
    assert_eq!(&bytes[first + 4..first + 6], &[0, 7]);
    assert_eq!(&bytes[second + 4..second + 6], &[0, 9]);
}

fn glyf(instructions: Vec<Instrution>) -> LayoutableTableBox {
    Glyf {
        glyphs: vec![Glyph::Simple {
            contours: vec![Contour { points: vec![Point::on_curve(0, 0), Point::on_curve(1, 2)] }],
            instructions,
        }],
    }
    .boxed()
}

#[test]
fn a_description_that_fits_is_generated_either_way() {
    let file = File::new_with_tables(vec![sample_cmap(), glyf(Vec::new()), sample_head().boxed()]);

    let bytes = try_generate(&file).unwrap();

    assert_eq!(bytes, generate(&file).unwrap());
    assert_eq!(&bytes[28..32], b"glyf");
    assert_eq!(number_at(&bytes, 28 + 12), 12 + 2 + 10);
}

#[test]
fn an_outline_with_instructions_does_not_fit() {
    let file = File::new_with_tables(vec![
        sample_cmap(),
        glyf(vec![Instrution::PushBytes(vec![5, 2])]),
    ]);

    assert!(matches!(try_generate(&file), Err(LayoutError::MalformedDescription)));
    let mut layouter = Layouter::new(4);
    assert!(file.try_layout(&mut layouter).is_none());
    assert_eq!(layouter.current_length(), 44 + 40);
}

#[test]
fn tables_tell_whether_they_fit() {
    let layouter = Layouter::new(4);

    assert!(sample_head().fits_in(&layouter));
    assert!(CMap::new_with_ranges(Vec::new()).fits_in(&layouter));
    let plain = Glyf { glyphs: vec![Glyph::Simple { contours: vec![], instructions: vec![] }] };
    assert_eq!(plain.checked_size(), Some(12));
    assert!(plain.fits_in(&layouter));
    let hinted = Glyf {
        glyphs: vec![Glyph::Simple {
            contours: vec![],
            instructions: vec![Instrution::PushBytes(vec![1])],
        }],
    };
    assert_eq!(hinted.checked_size(), None);
    assert!(!hinted.fits_in(&layouter));
}
