use font_generator::bytes::ByteSink;
use font_generator::layout::Layouter;
use font_generator::open_type::file::{LayoutableTable, LayoutedTable};
use font_generator::open_type::fixed::Fixed;
use font_generator::open_type::tables::cmap::{CMap, CharacterRange};
use font_generator::open_type::tables::glyf::{Glyf, Glyph, LayoutedSimpleGlyph};
use font_generator::open_type::tables::head::{Flags, Head};
use font_generator::open_type::tables::hhea::HHead;
use font_generator::open_type::tables::hmtx::{Hmtx, HorizontalMetric};
use font_generator::open_type::tables::loca::Loca;
use font_generator::open_type::tables::maxp::MaxP;
use font_generator::open_type::tables::name::{encode_utf16, Name, NameRecord};
use font_generator::open_type::tables::os2::{Panose, Script, OS2};
use font_generator::open_type::tables::post::Post;
use font_generator::open_type::true_type::{Contour, Instrution, Point};
use font_generator::time::{Timestamp, EARLIEST_SECONDS, EPOCH_1904_SECONDS, LATEST_SECONDS};

#[test]
fn the_sink_writes_numbers_most_significant_byte_first() {
    let mut sink = ByteSink::new();

    sink.put_u8(0xAB);
    sink.put_u16(0x1234);
    sink.put_i16(-2);
    sink.put_u32(0x0102_0304);
    sink.put_i32(-1);
    sink.put_i64(-2);
    sink.put_i64(0x0102_0304_0506_0708);
    sink.put_bytes(b"xy");

    assert_eq!(sink.len(), 31);
    assert_eq!(
        sink.into_bytes(),
        vec![
            0xAB, 0x12, 0x34, 0xFF, 0xFE, 0x01, 0x02, 0x03, 0x04, 0xFF, 0xFF, 0xFF, 0xFF, 0xFF,
            0xFF, 0xFF, 0xFF, 0xFF, 0xFF, 0xFF, 0xFE, 0x01, 0x02, 0x03, 0x04, 0x05, 0x06, 0x07,
            0x08, 0x78, 0x79,
        ]
    );
}

#[test]
fn fixed_is_whole_part_then_fraction() {
    let mut sink = ByteSink::new();

    Fixed { major: -1, minor: 0x8000 }.write_fixed(&mut sink);

    assert_eq!(sink.as_slice(), &[0xFF, 0xFF, 0x80, 0x00]);
}

#[test]
fn maxp_bytes() {
    let table = MaxP { number_of_glyphs: 2 };

    assert_eq!(table.encode(), vec![0x00, 0x00, 0x50, 0x00, 0x00, 0x02]);
    assert_eq!(table.tag(), *b"maxp");
}

#[test]
fn loca_bytes() {
    let table = Loca { offsets: vec![0, 0, 0x25] };

    assert_eq!(table.encode(), vec![0, 0, 0, 0, 0, 0, 0, 0, 0, 0, 0, 0x25]);
    assert_eq!(table.tag(), *b"loca");
    assert_eq!(Loca { offsets: Vec::new() }.encode(), Vec::<u8>::new());
}

#[test]
fn hmtx_bytes() {
    let table = Hmtx {
        horizontal_metrics: vec![
            HorizontalMetric { advance_width: 14, left_side_bearing: 0 },
            HorizontalMetric { advance_width: 0x0102, left_side_bearing: -2 },
        ],
        left_side_bearings: vec![-1, 3],
    };

    assert_eq!(
        table.encode(),
        vec![0x00, 0x0E, 0x00, 0x00, 0x01, 0x02, 0xFF, 0xFE, 0xFF, 0xFF, 0x00, 0x03]
    );
    assert_eq!(table.tag(), *b"hmtx");
}

#[test]
fn hhea_bytes() {
    let table = HHead {
        ascender: 1,
        descender: -1,
        line_gap: 0,
        advance_width_max: 0,
        min_left_side_bearing: 0,
        min_right_side_bearing: 0,
        x_max_extent: 14,
        caret_slope_rise: 1,
        caret_slope_run: 0,
        caret_offset: 0,
        metric_data_format: 0,
        number_of_hmetrics: 1,
    };

    assert_eq!(
        table.encode(),
        vec![
            0x00, 0x01, 0x00, 0x00, 0x00, 0x01, 0xFF, 0xFF, 0x00, 0x00, 0x00, 0x00, 0x00, 0x00,
            0x00, 0x00, 0x00, 0x0E, 0x00, 0x01, 0x00, 0x00, 0x00, 0x00, 0x00, 0x00, 0x00, 0x00,
            0x00, 0x00, 0x00, 0x00, 0x00, 0x00, 0x00, 0x01,
        ]
    );
    assert_eq!(table.tag(), *b"hhea");
}

#[test]
fn post_bytes() {
    let mut expected = vec![0x00, 0x03, 0x00, 0x00, 0, 0, 0, 0, 0, 0, 0x00, 0x01, 0, 0, 0, 1];
    expected.extend_from_slice(&[0; 16]);

    assert_eq!(Post::default().encode(), expected);

    let slanted = Post {
        italic_angle: Fixed { major: -12, minor: 0 },
        underline_position: -3,
        underline_thickness: 2,
        is_fixed_pitch: false,
        min_mem_type42: 1,
        max_mem_type42: 2,
        min_mem_type1: 3,
        max_mem_type1: 4,
    };
    assert_eq!(
        slanted.encode(),
        vec![
            0x00, 0x03, 0x00, 0x00, 0xFF, 0xF4, 0x00, 0x00, 0xFF, 0xFD, 0x00, 0x02, 0, 0, 0, 0, 0,
            0, 0, 1, 0, 0, 0, 2, 0, 0, 0, 3, 0, 0, 0, 4,
        ]
    );
    assert_eq!(slanted.tag(), *b"post");
}

#[test]
fn os2_bytes() {
    let script = Script { x_size: 60, y_size: 60, x_offset: 5, y_offset: 40 };
    let table = OS2 {
        avg_glyph_width: 100,
        weight_class: 400,
        width_class: 5,
        subscript: script,
        superscript: script,
        strikeout_size: 10,
        strikeout_position: 45,
        panose: Panose::default(),
        typo_ascender: 20,
        typo_descender: -30,
        typo_line_gap: 120,
        win_ascent: 60,
        win_descent: 80,
        x_height: 60,
        cap_height: 80,
        default_cahr: 0,
        break_char: 32,
        max_context: 1,
    };

    assert_eq!(
        table.encode(),
        vec![
            0x00, 0x05, 0x00, 0x64, 0x01, 0x90, 0x00, 0x05, 0x00, 0x00, 0x00, 0x3C, 0x00, 0x3C,
            0x00, 0x05, 0x00, 0x28, 0x00, 0x3C, 0x00, 0x3C, 0x00, 0x05, 0x00, 0x28, 0x00, 0x0A,
            0x00, 0x2D, 0x00, 0x00, 0x00, 0x00, 0x00, 0x00, 0x00, 0x00, 0x00, 0x00, 0x00, 0x00,
            0x00, 0x00, 0x00, 0x00, 0x00, 0x00, 0x00, 0x00, 0x00, 0x00, 0x00, 0x00, 0x00, 0x00,
            0x00, 0x00, 0x20, 0x20, 0x20, 0x20, 0x00, 0x00, 0xFF, 0xFF, 0xFF, 0xFF, 0x00, 0x14,
            0xFF, 0xE2, 0x00, 0x78, 0x00, 0x3C, 0x00, 0x50, 0x00, 0x00, 0x00, 0x00, 0x00, 0x00,
            0x00, 0x00, 0x00, 0x00, 0x00, 0x20, 0x00, 0x01, 0x00, 0x00, 0xFF, 0xFF,
        ]
    );
    assert_eq!(table.tag(), *b"OS/2");
}

#[test]
fn panose_is_written_in_field_order() {
    let panose = Panose {
        family_type: 1,
        serif_style: 2,
        weight: 3,
        proportion: 4,
        contrast: 5,
        stroke_variation: 6,
        arm_style: 7,
        letterform: 8,
        midline: 9,
        xheight: 10,
    };
    let mut sink = ByteSink::new();

    panose.write_panose(&mut sink);
    Script { x_size: 1, y_size: 2, x_offset: -1, y_offset: -2 }.write_script(&mut sink);

    assert_eq!(
        sink.into_bytes(),
        vec![1, 2, 3, 4, 5, 6, 7, 8, 9, 10, 0, 1, 0, 2, 0xFF, 0xFF, 0xFF, 0xFE]
    );
}

#[test]
fn cmap_bytes() {
    let table = CMap::new_with_ranges(vec![
        CharacterRange { start: 'a', end: 'c', start_index: 1 },
        CharacterRange { start: '\u{1F600}', end: '\u{1F601}', start_index: 0x0102_0304 },
    ]);

    assert_eq!(
        table.encode(),
        vec![
            0, 0, 0, 1, 0, 0, 0, 3, 0, 0, 0, 12, 0, 12, 0, 0, 0, 0, 0, 40, 0, 0, 0, 0, 0, 0, 0, 2,
            0, 0, 0, 0x61, 0, 0, 0, 0x63, 0, 0, 0, 1, 0, 0x01, 0xF6, 0x00, 0, 0x01, 0xF6, 0x01, 1,
            2, 3, 4,
        ]
    );
    assert_eq!(table.tag(), *b"cmap");
}

#[test]
fn a_cmap_of_many_ranges_fits_its_window() {
    let ranges: Vec<CharacterRange> =
        (0..5).map(|i| CharacterRange { start: 'a', end: 'b', start_index: i }).collect();
    let table = CMap::new_with_ranges(ranges);
    let mut layouter = Layouter::new(4);

    let mut laid = table.layout(&mut layouter);
    let file = layouter.get_result();
    let result = laid.table.pass(&mut layouter, &file);

    assert!(result.is_ok());
    assert_eq!(laid.table.reservation().unpadded_len(), 28 + 12 * 5);
    assert_eq!(layouter.get_result(), table.encode());
    assert!(!laid.table.requires_another_pass());
}

#[test]
fn utf16_units() {
    assert_eq!(encode_utf16("Ab"), vec![0x0041, 0x0062]);
    assert_eq!(encode_utf16("\u{FFFF}"), vec![0xFFFF]);
    assert_eq!(encode_utf16("\u{10000}"), vec![0xD800, 0xDC00]);
    assert_eq!(encode_utf16("\u{1F600}"), vec![0xD83D, 0xDE00]);
    assert_eq!(encode_utf16("\u{10FFFF}"), vec![0xDBFF, 0xDFFF]);
    assert_eq!(encode_utf16(""), Vec::<u16>::new());
    let text = "a\u{E9}\u{4E2D}\u{1F600}z";
    assert_eq!(encode_utf16(text), text.encode_utf16().collect::<Vec<u16>>());
}

#[test]
fn name_bytes() {
    let table = Name {
        names: vec![
            NameRecord { name_id: 1, content: String::from("Ab") },
            NameRecord { name_id: 2, content: String::from("\u{1F600}") },
        ],
    };

    assert_eq!(table.measure(), 6 + 24 + 8);
    assert_eq!(
        table.encode(),
        vec![
            0, 0, 0, 2, 0, 24, // header
            0, 0, 0, 4, 0, 0, 0, 1, 0, 4, 0, 0, // first record
            0, 0, 0, 4, 0, 0, 0, 2, 0, 4, 0, 4, // second record
            0x00, 0x41, 0x00, 0x62, 0xD8, 0x3D, 0xDE, 0x00,
        ]
    );
    assert_eq!(table.tag(), *b"name");
}

fn square() -> Vec<Contour> {
    vec![Contour {
        points: vec![
            Point::on_curve(0, 0),
            Point::on_curve(0, 40),
            Point::on_curve(14, 40),
            Point::on_curve(14, 0),
        ],
    }]
}

#[test]
fn glyf_bytes() {
    let table = Glyf { glyphs: vec![Glyph::Simple { contours: square(), instructions: vec![] }] };

    let (size, bytes) = table.encode();

    assert_eq!(size, 34);
    assert_eq!(
        bytes,
        vec![
            0, 1, 0, 0, 0, 0, 0, 14, 0, 40, 0, 4, 0, 0, 1, 1, 1, 1, 0, 0, 0, 0, 0, 14, 0, 14, 0, 0,
            0, 40, 0, 40, 0, 0,
        ]
    );
    assert_eq!(table.tag(), *b"glyf");
}

#[test]
fn a_glyph_is_measured_with_the_origin() {
    let contours = vec![
        Contour { points: vec![Point::on_curve(3, 4), Point { is_on_curve: false, x: 9, y: 5 }] },
        Contour { points: vec![] },
        Contour { points: vec![Point::off_curve(-7, 2)] },
    ];
    let measured = LayoutedSimpleGlyph::new(&contours, &Vec::new());
    let mut sink = ByteSink::new();

    measured.write(&contours, &mut sink);

    assert_eq!(measured.size(), 12 + 6 + 15);
    assert_eq!(
        sink.into_bytes(),
        vec![
            0, 3, 0xFF, 0xF9, 0, 0, 0, 9, 0, 5, 0, 2, 0, 2, 0, 3, 0, 0, 1, 0, 1, 0, 3, 0, 9, 0xFF,
            0xF9, 0, 4, 0, 5, 0, 2,
        ]
    );
}

#[test]
fn points_are_made_on_the_curve() {
    let on = Point::on_curve(1, -2);
    let off = Point::off_curve(3, 4);

    assert_eq!((on.is_on_curve, on.x, on.y), (true, 1, -2));
    assert_eq!((off.is_on_curve, off.x, off.y), (true, 3, 4));
}

#[test]
fn push_bytes_instruction() {
    let mut sink = ByteSink::new();

    Instrution::PushBytes(vec![5, 2]).write_instruction(&mut sink);

    assert_eq!(sink.into_bytes(), vec![0xB2, 5, 2]);
}

#[test]
fn flags_give_their_bits() {
    assert_eq!(Flags::default().as_u16(), 0x0018);
    let mut flags = Flags {
        baseline: true,
        sidebearing: true,
        depends_on_pointsize: true,
        force_ppem: true,
        dynamic_advance_width: true,
        lossless: true,
        converted: true,
        cleartype_optimized: true,
        last_resort: true,
    };
    assert_eq!(flags.as_u16(), 0x781F);
    flags.force_ppem = false;
    flags.lossless = false;
    assert_eq!(flags.as_u16(), 0x7017);
    let none = Flags { force_ppem: false, dynamic_advance_width: false, ..Flags::default() };
    assert_eq!(none.as_u16(), 0);
    let last = Flags { last_resort: true, ..none };
    assert_eq!(last.as_u16(), 0x4000);
}

#[test]
fn timestamps_have_a_range() {
    assert!(Timestamp::try_create(0, 0).is_some());
    assert!(Timestamp::try_create(EARLIEST_SECONDS, 0).is_some());
    assert!(Timestamp::try_create(LATEST_SECONDS, 999_999_999).is_some());
    assert!(Timestamp::try_create(EARLIEST_SECONDS - 1, 0).is_none());
    assert!(Timestamp::try_create(LATEST_SECONDS + 1, 0).is_none());
    assert!(Timestamp::try_create(0, 1_000_000_000).is_none());
    let stamp = Timestamp::try_create(12, 34).unwrap();
    assert_eq!((stamp.seconds(), stamp.subsec_nanos()), (12, 34));
}

#[test]
fn whole_seconds_are_rounded_towards_zero() {
    let epoch = Timestamp::epoch_1904();
    let zero = Timestamp::try_create(0, 0).unwrap();

    assert_eq!(epoch.seconds(), EPOCH_1904_SECONDS);
    assert_eq!(zero.seconds_since(&epoch), 2_082_844_800);
    assert_eq!(epoch.seconds_since(&zero), -2_082_844_800);
    assert_eq!(Timestamp::try_create(1, 999_999_999).unwrap().seconds_since(&zero), 1);
    assert_eq!(Timestamp::try_create(-1, 500_000_000).unwrap().seconds_since(&zero), 0);
    assert_eq!(Timestamp::try_create(-2, 500_000_000).unwrap().seconds_since(&zero), -1);
    assert_eq!(zero.seconds_since(&Timestamp::try_create(0, 1).unwrap()), 0);
    assert_eq!(zero.seconds_since(&Timestamp::try_create(-1, 1).unwrap()), 0);
    assert_eq!(zero.seconds_since(&Timestamp::try_create(-2, 1).unwrap()), 1);
}

#[test]
fn the_whole_range_of_time_can_be_measured() {
    let earliest = Timestamp::try_create(EARLIEST_SECONDS, 0).unwrap();
    let latest = Timestamp::try_create(LATEST_SECONDS, 999_999_999).unwrap();

    assert_eq!(latest.seconds_since(&earliest), LATEST_SECONDS - EARLIEST_SECONDS);
    assert_eq!(earliest.seconds_since(&latest), EARLIEST_SECONDS - LATEST_SECONDS);
}

#[test]
fn head_times_count_from_1904() {
    let head = Head {
        revision: Fixed { major: 1, minor: 0 },
        flags: Flags::default(),
        created: Timestamp::try_create(EARLIEST_SECONDS, 0).unwrap(),
        modified: Timestamp::try_create(-2_082_844_801, 999_999_999).unwrap(),
        units_per_em: 1000,
        smalest_recocnizeable_size: 8,
        min_x: -1,
        min_y: -2,
        max_x: 3,
        max_y: 4,
    };

    let bytes = head.encode(0);

    let created = (EARLIEST_SECONDS + 2_082_844_800).to_be_bytes();
    assert_eq!(&bytes[20..28], &created);
    assert_eq!(&bytes[28..36], &[0; 8]);
    assert_eq!(&bytes[36..44], &[0xFF, 0xFF, 0xFF, 0xFE, 0x00, 0x03, 0x00, 0x04]);
}

#[test]
fn names_must_be_countable_in_16_bits() {
    let short = Name { names: vec![NameRecord { name_id: 1, content: String::from("Ab") }] };
    let long = Name {
        names: vec![
            NameRecord { name_id: 1, content: "x".repeat(20_000) },
            NameRecord { name_id: 2, content: "y".repeat(12_768) },
        ],
    };
    let many = Name {
        names: (0..5462).map(|i| NameRecord { name_id: i, content: String::new() }).collect(),
    };
    let layouter = Layouter::new(4);

    assert!(short.is_ready());
    assert!(short.fits_in(&layouter));
    assert!(!long.is_ready());
    assert!(!long.fits_in(&layouter));
    assert!(!many.is_ready());
    let most = Name { names: vec![NameRecord { name_id: 1, content: "x".repeat(32_767) }] };
    assert!(most.is_ready());
    assert_eq!(most.measure(), 6 + 12 + 65_534);
}
