//! The `OS/2` table: metrics that Windows and OS/2 ask for.

use crate::bytes::{i16_bits, u16_be, u32_be, ByteSink};
use crate::layout::{plain_step, Layouter, PassState, Place, Step};
use crate::open_type::content::{content_fits, content_fits_in, is_content_table, layout_content};
use crate::open_type::file::{LayoutableTable, LayoutableTableBox, LayoutedTableBox};
use crate::open_type::document::{Table, Tag};
use crate::open_type::error::WriteError;
use vstd::prelude::*;

verus! {

/// The tag `OS/2`.
pub open spec fn os2_tag() -> Seq<u8> {
    seq![0x4Fu8, 0x53u8, 0x2Fu8, 0x32u8]
}

/// The size and place of subscripts or superscripts.
#[derive(Debug, Clone, Copy)]
pub struct Script {
    /// The horizontal size.
    pub x_size: i16,
    /// The vertical size.
    pub y_size: i16,
    /// The horizontal offset.
    pub x_offset: i16,
    /// The vertical offset.
    pub y_offset: i16,
}

impl Script {
    /// The eight bytes: both sizes, then both offsets.
    pub open spec fn encoding(&self) -> Seq<u8> {
        u16_be(i16_bits(self.x_size)) + u16_be(i16_bits(self.y_size)) + u16_be(
            i16_bits(self.x_offset),
        ) + u16_be(i16_bits(self.y_offset))
    }

    /// Appends the eight bytes to `sink`.
    pub fn write_script(&self, sink: &mut ByteSink)
        ensures
            final(sink)@ == old(sink)@ + self.encoding(),
    {
        sink.put_i16(self.x_size);
        sink.put_i16(self.y_size);
        sink.put_i16(self.x_offset);
        sink.put_i16(self.y_offset);
        assert(sink@ =~= old(sink)@ + self.encoding());
    }
}

/// The PANOSE classification: ten numbers that describe the typeface.
#[derive(Debug, Clone, Copy)]
pub struct Panose {
    /// The family type.
    pub family_type: u8,
    /// The serif style.
    pub serif_style: u8,
    /// The weight.
    pub weight: u8,
    /// The proportion.
    pub proportion: u8,
    /// The contrast.
    pub contrast: u8,
    /// The stroke variation.
    pub stroke_variation: u8,
    /// The arm style.
    pub arm_style: u8,
    /// The letterform.
    pub letterform: u8,
    /// The midline.
    pub midline: u8,
    /// The x-height.
    pub xheight: u8,
}

impl Default for Panose {
    /// The classification "any" in every place.
    fn default() -> (panose: Self)
        ensures
            panose.encoding() == Seq::new(10, |i: int| 0u8),
    {
        let panose = Self {
            family_type: 0,
            serif_style: 0,
            weight: 0,
            proportion: 0,
            contrast: 0,
            stroke_variation: 0,
            arm_style: 0,
            letterform: 0,
            midline: 0,
            xheight: 0,
        };
        assert(panose.encoding() =~= Seq::new(10, |i: int| 0u8));
        panose
    }
}

impl Panose {
    /// The ten bytes, in the order of the fields.
    pub open spec fn encoding(&self) -> Seq<u8> {
        seq![
            self.family_type,
            self.serif_style,
            self.weight,
            self.proportion,
            self.contrast,
            self.stroke_variation,
            self.arm_style,
            self.letterform,
            self.midline,
            self.xheight,
        ]
    }

    /// Appends the ten bytes to `sink`.
    pub fn write_panose(&self, sink: &mut ByteSink)
        ensures
            final(sink)@ == old(sink)@ + self.encoding(),
    {
        sink.put_u8(self.family_type);
        sink.put_u8(self.serif_style);
        sink.put_u8(self.weight);
        sink.put_u8(self.proportion);
        sink.put_u8(self.contrast);
        sink.put_u8(self.stroke_variation);
        sink.put_u8(self.arm_style);
        sink.put_u8(self.letterform);
        sink.put_u8(self.midline);
        sink.put_u8(self.xheight);
        assert(sink@ =~= old(sink)@ + self.encoding());
    }
}

/// The description of an `OS/2` table of version 5.
#[derive(Debug, Clone, Copy)]
pub struct OS2 {
    /// The average width of the glyphs.
    pub avg_glyph_width: i16,
    /// The weight class; 400 is normal.
    pub weight_class: u16,
    /// The width class; 5 is medium.
    pub width_class: u16,
    /// The size and place of subscripts.
    pub subscript: Script,
    /// The size and place of superscripts.
    pub superscript: Script,
    /// The thickness of the strikeout stroke.
    pub strikeout_size: i16,
    /// The place of the strikeout stroke above the baseline.
    pub strikeout_position: i16,
    /// The PANOSE classification.
    pub panose: Panose,
    /// The typographic ascender.
    pub typo_ascender: i16,
    /// The typographic descender.
    pub typo_descender: i16,
    /// The typographic line gap.
    pub typo_line_gap: i16,
    /// The ascent for Windows.
    pub win_ascent: u16,
    /// The descent for Windows.
    pub win_descent: u16,
    /// The height of lower-case letters. The table does not hold it.
    pub x_height: i16,
    /// The height of capital letters. The table does not hold it.
    pub cap_height: i16,
    /// The character shown for one that the font lacks.
    pub default_cahr: u16,
    /// The character at which lines break.
    pub break_char: u16,
    /// The greatest length of a context that the font looks at.
    pub max_context: u16,
}

impl OS2 {
    /// The version, the widths and weight, no licensing bits, and the
    /// scripts.
    pub open spec fn front(&self) -> Seq<u8> {
        u16_be(5) + u16_be(i16_bits(self.avg_glyph_width)) + u16_be(self.weight_class) + u16_be(
            self.width_class,
        ) + u16_be(0) + self.subscript.encoding() + self.superscript.encoding()
    }

    /// The strikeout, no family class, the classification, no Unicode
    /// ranges, a vendor of four blanks, no selection bits and the widest
    /// range of characters.
    pub open spec fn middle(&self) -> Seq<u8> {
        u16_be(i16_bits(self.strikeout_size)) + u16_be(i16_bits(self.strikeout_position))
            + u16_be(i16_bits(0)) + self.panose.encoding() + u32_be(0) + u32_be(0) + u32_be(0)
            + u32_be(0) + seq![0x20u8, 0x20u8, 0x20u8, 0x20u8] + u16_be(0) + u16_be(0xFFFF)
            + u16_be(0xFFFF)
    }

    /// The typographic and Windows extents, no code pages, the special
    /// characters, the context and the widest range of optical sizes.
    pub open spec fn back(&self) -> Seq<u8> {
        u16_be(i16_bits(self.typo_ascender)) + u16_be(i16_bits(self.typo_descender)) + u16_be(
            i16_bits(self.typo_line_gap),
        ) + u16_be(self.win_ascent) + u16_be(self.win_descent) + u32_be(0) + u32_be(0) + u16_be(
            self.default_cahr,
        ) + u16_be(self.break_char) + u16_be(self.max_context) + u16_be(0) + u16_be(0xFFFF)
    }

    /// The table's bytes.
    pub open spec fn encoding(&self) -> Seq<u8> {
        self.front() + self.middle() + self.back()
    }

    fn put_front(&self, sink: &mut ByteSink)
        ensures
            final(sink)@ == old(sink)@ + self.front(),
    {
        sink.put_u16(5);
        sink.put_i16(self.avg_glyph_width);
        sink.put_u16(self.weight_class);
        sink.put_u16(self.width_class);
        sink.put_u16(0);
        self.subscript.write_script(sink);
        self.superscript.write_script(sink);
        assert(sink@ =~= old(sink)@ + self.front());
    }

    fn put_middle(&self, sink: &mut ByteSink)
        ensures
            final(sink)@ == old(sink)@ + self.middle(),
    {
        sink.put_i16(self.strikeout_size);
        sink.put_i16(self.strikeout_position);
        sink.put_i16(0);
        self.panose.write_panose(sink);
        sink.put_u32(0);
        sink.put_u32(0);
        sink.put_u32(0);
        sink.put_u32(0);
        let vendor: [u8; 4] = [0x20, 0x20, 0x20, 0x20];
        sink.put_bytes(vstd::array::array_as_slice(&vendor));
        sink.put_u16(0);
        sink.put_u16(0xFFFF);
        sink.put_u16(0xFFFF);
        assert(sink@ =~= old(sink)@ + self.middle());
    }

    fn put_back(&self, sink: &mut ByteSink)
        ensures
            final(sink)@ == old(sink)@ + self.back(),
    {
        sink.put_i16(self.typo_ascender);
        sink.put_i16(self.typo_descender);
        sink.put_i16(self.typo_line_gap);
        sink.put_u16(self.win_ascent);
        sink.put_u16(self.win_descent);
        sink.put_u32(0);
        sink.put_u32(0);
        sink.put_u16(self.default_cahr);
        sink.put_u16(self.break_char);
        sink.put_u16(self.max_context);
        sink.put_u16(0);
        sink.put_u16(0xFFFF);
        assert(sink@ =~= old(sink)@ + self.back());
    }

    /// The table's bytes.
    pub fn encode(&self) -> (bytes: Vec<u8>)
        ensures
            bytes@ == self.encoding(),
    {
        let mut sink = ByteSink::new();
        self.put_front(&mut sink);
        self.put_middle(&mut sink);
        self.put_back(&mut sink);
        assert(sink@ =~= self.encoding());
        sink.into_bytes()
    }

    /// The table takes exactly the bytes that it asks for.
    pub proof fn lemma_exact_size(&self)
        ensures
            self.encoding().len() == 96,
    {
    }

    /// The description as a table of any kind, to stand in a file.
    pub fn boxed(self) -> (boxed: LayoutableTableBox)
        ensures
            is_content_table(boxed, os2_tag(), 96, true, self.encoding()),
    {
        LayoutableTableBox { table: Box::new(self) }
    }
}

impl LayoutableTable for OS2 {
    open spec fn tag_spec(&self) -> Seq<u8> {
        os2_tag()
    }

    open spec fn size(&self) -> nat {
        96
    }

    open spec fn fits(&self, place: Place) -> bool {
        content_fits(96, place)
    }

    open spec fn step_at(
        &self,
        place: Place,
        state: PassState,
        windows: Seq<Seq<u8>>,
        current_file: Seq<u8>,
    ) -> Step {
        plain_step(place.reservation(96), self.encoding(), windows)
    }

    fn tag(&self) -> (tag: [u8; 4]) {
        [0x4F, 0x53, 0x2F, 0x32]
    }

    fn fits_in(&self, layouter: &Layouter) -> (fits: bool) {
        content_fits_in(layouter, 96)
    }

    fn layout(&self, layouter: &mut Layouter) -> (laid: LayoutedTableBox) {
        layout_content(layouter, self.tag(), 96, self.encode())
    }
}

impl Table for OS2 {
    open spec fn tag_spec(&self) -> Seq<u8> {
        os2_tag()
    }

    open spec fn size_spec(&self) -> nat {
        96
    }

    open spec fn emitted(&self) -> Seq<u8> {
        self.encoding()
    }

    open spec fn writes(&self) -> bool {
        true
    }

    fn get_tag(&self) -> (tag: Tag) {
        self.tag()
    }

    fn get_size(&self) -> (size: usize) {
        96
    }

    fn write(&self, sink: &mut ByteSink) -> (result: Result<(), WriteError>) {
        let bytes = self.encode();
        sink.put_bytes(bytes.as_slice());
        Ok(())
    }
}

} // verus!
