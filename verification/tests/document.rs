use font_generator::bytes::ByteSink;
use font_generator::manifest::{GlyphRange, Manifest};
use font_generator::open_type::document::{store, Document, Object, Table, TableBox};
use font_generator::open_type::error::WriteError;
use font_generator::open_type::f2dot14::{F2Dot14, MAX_FRACT};
use font_generator::open_type::directory::SFNTVersion;
use font_generator::open_type::fixed::Fixed;
use font_generator::open_type::tables::hhea::HHead;
use font_generator::open_type::tables::maxp::MaxP;
use font_generator::open_type::tables::svg::{SVGDocumentRecord, SVG};
use font_generator::order::stable_order;
use std::cmp::Ordering;

fn hhea() -> HHead {
    HHead {
        ascender: 1,
        descender: -1,
        line_gap: 0,
        advance_width_max: 0,
        min_left_side_bearing: 0,
        min_right_side_bearing: 0,
        x_max_extent: 14,
        caret_slope_rise: 1,
        caret_slope_run: 0,
        caret_offset: 0,
        metric_data_format: 0,
        number_of_hmetrics: 1,
    }
}

#[test]
fn a_document_lists_its_tables_by_tag() {
    let document = Document {
        sfnt_version: SFNTVersion::TrueType,
        tables: vec![
            TableBox { table: Box::new(MaxP { number_of_glyphs: 3 }) },
            TableBox { table: Box::new(hhea()) },
        ],
    };
    let mut sink = ByteSink::new();

    document.write(&mut sink).unwrap();

    let bytes = sink.into_bytes();
    assert_eq!(bytes.len(), 12 + 32 + 36 + 6);
    assert_eq!(&bytes[0..12], &[0, 1, 0, 0, 0, 2, 0, 32, 0, 1, 0, 0]);
    assert_eq!(&bytes[12..28], &[0x68, 0x68, 0x65, 0x61, 0, 0, 0, 0, 0, 0, 0, 44, 0, 0, 0, 36]);
    assert_eq!(&bytes[28..44], &[0x6D, 0x61, 0x78, 0x70, 0, 0, 0, 0, 0, 0, 0, 80, 0, 0, 0, 6]);
    assert_eq!(&bytes[44..80], hhea().encode().as_slice());
    assert_eq!(&bytes[80..], &[0, 0, 0x50, 0, 0, 3]);
}

#[test]
fn a_table_is_stored_with_its_entry() {
    let table = TableBox { table: Box::new(MaxP { number_of_glyphs: 3 }) };
    let mut sink = ByteSink::new();

    let body = store(&table, &mut sink, 0x0102_0304).unwrap();

    assert_eq!(body, vec![0, 0, 0x50, 0, 0, 3]);
    assert_eq!(sink.into_bytes(), vec![0x6D, 0x61, 0x78, 0x70, 0, 0, 0, 0, 1, 2, 3, 4, 0, 0, 0, 6]);
}

#[test]
fn tables_and_objects_name_their_sizes() {
    let table = MaxP { number_of_glyphs: 3 };
    assert_eq!(Table::get_size(&table), 6);
    assert_eq!(table.get_tag(), *b"maxp");
    let fixed = Fixed { major: 1, minor: 2 };
    let mut sink = ByteSink::new();
    assert!(Object::write(&fixed, &mut sink).is_ok());
    assert_eq!(fixed.get_size(), 4);
    assert_eq!(sink.into_bytes(), vec![0, 1, 0, 2]);
}

#[test]
fn io_errors_become_write_errors() {
    let error = WriteError::from(std::io::Error::new(std::io::ErrorKind::Other, "down"));

    assert!(matches!(error, WriteError::IoError(_)));
    assert!(matches!(WriteError::Other(String::from("x")), WriteError::Other(_)));
}

#[test]
fn the_stable_order_keeps_ties() {
    assert_eq!(stable_order(&vec![5, 1, 5, 0, 1]), vec![3, 1, 4, 0, 2]);
    assert_eq!(stable_order(&Vec::new()), Vec::<usize>::new());
}

#[test]
fn f2dot14_is_made_of_parts_in_range() {
    assert!(F2Dot14::try_create(-2, 0).is_some());
    assert!(F2Dot14::try_create(1, MAX_FRACT).is_some());
    assert!(F2Dot14::try_create(2, 0).is_none());
    assert!(F2Dot14::try_create(-3, 0).is_none());
    assert!(F2Dot14::try_create(0, MAX_FRACT + 1).is_none());
    let number = F2Dot14::try_create(1, 7).unwrap();
    assert_eq!((number.whole(), number.fraction()), (1, 7));
}

#[test]
fn f2dot14_clamps_its_parts() {
    assert_eq!(F2Dot14::clamped(5, 0xFFFF), F2Dot14::try_create(1, MAX_FRACT).unwrap());
    assert_eq!(F2Dot14::clamped(-9, 3), F2Dot14::try_create(-2, 3).unwrap());
    assert_eq!(F2Dot14::clamped(0, 0), F2Dot14::try_create(0, 0).unwrap());
}

#[test]
fn f2dot14_is_ordered_by_whole_part_then_fraction() {
    let low = F2Dot14::try_create(-1, 9).unwrap();
    let mid = F2Dot14::try_create(0, 1).unwrap();
    let high = F2Dot14::try_create(0, 2).unwrap();

    assert_eq!(low.partial_cmp(&mid), Some(Ordering::Less));
    assert_eq!(high.partial_cmp(&mid), Some(Ordering::Greater));
    assert_eq!(mid.partial_cmp(&mid), Some(Ordering::Equal));
    assert!(low < mid && mid < high && high > low);
}

#[test]
fn f2dot14_adds_with_carry_and_clamps() {
    let half = F2Dot14::try_create(0, 0x2000).unwrap();
    let sum = F2Dot14::try_create(0, 0x2000).unwrap() + half;
    assert_eq!(sum, F2Dot14::try_create(1, 1).unwrap());

    let small = F2Dot14::try_create(0, 1).unwrap() + F2Dot14::try_create(-1, 2).unwrap();
    assert_eq!(small, F2Dot14::try_create(-1, 3).unwrap());

    let most = F2Dot14::try_create(1, MAX_FRACT).unwrap();
    let over = F2Dot14::try_create(1, MAX_FRACT).unwrap() + most;
    assert_eq!(over, F2Dot14::try_create(1, MAX_FRACT).unwrap());

    let least = F2Dot14::try_create(-2, 0).unwrap() + F2Dot14::try_create(-2, 0).unwrap();
    assert_eq!(least, F2Dot14::try_create(-2, 0).unwrap());
}

#[test]
fn svg_documents_are_listed_by_their_first_glyph() {
    let table = SVG {
        documents: vec![
            SVGDocumentRecord { start_glyph_id: 5, end_glyph_id: 6, document: String::from("b") },
            SVGDocumentRecord { start_glyph_id: 1, end_glyph_id: 2, document: String::from("a") },
        ],
    };
    let contents = vec![b"BB".to_vec(), b"A".to_vec()];
    let mut sink = ByteSink::new();

    table.store_internal(&contents, &mut sink);

    assert_eq!(
        sink.into_bytes(),
        vec![
            0, 0, 0, 0, 0, 10, 0, 0, 0, 0, 0, 2, // header
            0, 1, 0, 2, 0, 0, 0, 26, 0, 0, 0, 1, // first record
            0, 5, 0, 6, 0, 0, 0, 27, 0, 0, 0, 2, // second record
            0x41, 0x42, 0x42,
        ]
    );
    assert_eq!(table.get_tag(), *b"SVG ");
}

#[test]
fn an_svg_record_names_offset_and_length() {
    let record =
        SVGDocumentRecord { start_glyph_id: 0x0102, end_glyph_id: 3, document: String::new() };
    let mut sink = ByteSink::new();

    record.store(&mut sink, 0x0A0B_0C0D, b"abcde");

    assert_eq!(sink.into_bytes(), vec![1, 2, 0, 3, 0x0A, 0x0B, 0x0C, 0x0D, 0, 0, 0, 5]);
}

#[test]
fn a_manifest_names_its_glyph_files() {
    let manifest = Manifest {
        name: String::from("Test Font"),
        glyphs: vec![GlyphRange { start: 'a', end: 'z', file: String::from("lower.svg") }],
    };

    assert_eq!(manifest.name, "Test Font");
    assert_eq!(manifest.glyphs[0].start, 'a');
    assert_eq!(manifest.glyphs[0].end, 'z');
    assert_eq!(manifest.glyphs[0].file, "lower.svg");
}
