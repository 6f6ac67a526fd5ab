//! The `hhea` table: the horizontal header.

use crate::bytes::{i16_bits, i32_bits, u16_be, u32_be, ByteSink};
use crate::layout::{plain_step, Layouter, PassState, Place, Step};
use crate::open_type::content::{content_fits, content_fits_in, is_content_table, layout_content};
use crate::open_type::file::{LayoutableTable, LayoutableTableBox, LayoutedTableBox};
use crate::open_type::document::{Table, Tag};
use crate::open_type::error::WriteError;
use vstd::prelude::*;

verus! {

/// The tag `hhea`.
pub open spec fn hhea_tag() -> Seq<u8> {
    seq![0x68u8, 0x68u8, 0x65u8, 0x61u8]
}

/// The description of an `hhea` table of version 1.0.
#[derive(Debug, Clone, Copy)]
pub struct HHead {
    /// The typographic ascent.
    pub ascender: i16,
    /// The typographic descent.
    pub descender: i16,
    /// The typographic line gap.
    pub line_gap: i16,
    /// The greatest advance width in the `hmtx` table.
    pub advance_width_max: u16,
    /// The least left side bearing in the `hmtx` table.
    pub min_left_side_bearing: i16,
    /// The least right side bearing.
    pub min_right_side_bearing: i16,
    /// The greatest extent: left side bearing plus width of the outline.
    pub x_max_extent: i16,
    /// The rise of the caret's slope; 1 for an upright caret.
    pub caret_slope_rise: i16,
    /// The run of the caret's slope; 0 for an upright caret.
    pub caret_slope_run: i16,
    /// The shift of a slanted highlight; 0 for upright fonts.
    pub caret_offset: i16,
    /// The format of the metric data; 0 for the current format.
    pub metric_data_format: i16,
    /// The number of full metrics in the `hmtx` table.
    pub number_of_hmetrics: u16,
}

impl HHead {
    /// The version 1.0 and the vertical and horizontal extents.
    pub open spec fn metrics(&self) -> Seq<u8> {
        u16_be(1)
            + u16_be(0)
            + u16_be(i16_bits(self.ascender))
            + u16_be(i16_bits(self.descender))
            + u16_be(i16_bits(self.line_gap))
            + u16_be(self.advance_width_max)
            + u16_be(i16_bits(self.min_left_side_bearing))
            + u16_be(i16_bits(self.min_right_side_bearing))
            + u16_be(i16_bits(self.x_max_extent))
    }

    /// Appends to `sink`: the version 1.0 and the vertical and horizontal extents.
    fn put_metrics(&self, sink: &mut ByteSink)
        ensures
            final(sink)@ == old(sink)@ + self.metrics(),
    {
        sink.put_u16(1);
        sink.put_u16(0);
        sink.put_i16(self.ascender);
        sink.put_i16(self.descender);
        sink.put_i16(self.line_gap);
        sink.put_u16(self.advance_width_max);
        sink.put_i16(self.min_left_side_bearing);
        sink.put_i16(self.min_right_side_bearing);
        sink.put_i16(self.x_max_extent);
        assert(sink@ =~= old(sink)@ + self.metrics());
    }

    /// The caret, four reserved zeros, the metric format and the number of metrics.
    pub open spec fn caret(&self) -> Seq<u8> {
        u16_be(i16_bits(self.caret_slope_rise))
            + u16_be(i16_bits(self.caret_slope_run))
            + u16_be(i16_bits(self.caret_offset))
            + u16_be(i16_bits(0))
            + u16_be(i16_bits(0))
            + u16_be(i16_bits(0))
            + u16_be(i16_bits(0))
            + u16_be(i16_bits(self.metric_data_format))
            + u16_be(self.number_of_hmetrics)
    }

    /// Appends to `sink`: the caret, four reserved zeros, the metric format and the number of metrics.
    fn put_caret(&self, sink: &mut ByteSink)
        ensures
            final(sink)@ == old(sink)@ + self.caret(),
    {
        sink.put_i16(self.caret_slope_rise);
        sink.put_i16(self.caret_slope_run);
        sink.put_i16(self.caret_offset);
        sink.put_i16(0);
        sink.put_i16(0);
        sink.put_i16(0);
        sink.put_i16(0);
        sink.put_i16(self.metric_data_format);
        sink.put_u16(self.number_of_hmetrics);
        assert(sink@ =~= old(sink)@ + self.caret());
    }

    /// The table's bytes.
    pub open spec fn encoding(&self) -> Seq<u8> {
        self.metrics() + self.caret()
    }

    /// The table's bytes.
    pub fn encode(&self) -> (bytes: Vec<u8>)
        ensures
            bytes@ == self.encoding(),
    {
        let mut sink = ByteSink::new();
        self.put_metrics(&mut sink);
        self.put_caret(&mut sink);
        assert(sink@ =~= self.encoding());
        sink.into_bytes()
    }

    /// The table takes exactly the bytes that it asks for.
    pub proof fn lemma_exact_size(&self)
        ensures
            self.encoding().len() == 36,
    {
    }

    /// The description as a table of any kind, to stand in a file.
    pub fn boxed(self) -> (boxed: LayoutableTableBox)
        ensures
            is_content_table(boxed, hhea_tag(), 36, true, self.encoding()),
    {
        LayoutableTableBox { table: Box::new(self) }
    }
}

impl LayoutableTable for HHead {
    open spec fn tag_spec(&self) -> Seq<u8> {
        hhea_tag()
    }

    open spec fn size(&self) -> nat {
        36
    }

    open spec fn fits(&self, place: Place) -> bool {
        content_fits(36, place)
    }

    open spec fn step_at(
        &self,
        place: Place,
        state: PassState,
        windows: Seq<Seq<u8>>,
        current_file: Seq<u8>,
    ) -> Step {
        plain_step(place.reservation(36), self.encoding(), windows)
    }

    fn tag(&self) -> (tag: [u8; 4]) {
        [0x68, 0x68, 0x65, 0x61]
    }

    fn fits_in(&self, layouter: &Layouter) -> (fits: bool) {
        content_fits_in(layouter, 36)
    }

    fn layout(&self, layouter: &mut Layouter) -> (laid: LayoutedTableBox) {
        layout_content(layouter, self.tag(), 36, self.encode())
    }
}

impl Table for HHead {
    open spec fn tag_spec(&self) -> Seq<u8> {
        hhea_tag()
    }

    open spec fn size_spec(&self) -> nat {
        36
    }

    open spec fn emitted(&self) -> Seq<u8> {
        self.encoding()
    }

    open spec fn writes(&self) -> bool {
        true
    }

    fn get_tag(&self) -> (tag: Tag) {
        self.tag()
    }

    fn get_size(&self) -> (size: usize) {
        36
    }

    fn write(&self, sink: &mut ByteSink) -> (result: Result<(), WriteError>) {
        let bytes = self.encode();
        sink.put_bytes(bytes.as_slice());
        Ok(())
    }
}

} // verus!
