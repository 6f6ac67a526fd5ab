//! The `post` table: what a PostScript printer needs.

use crate::bytes::{i16_bits, i32_bits, u16_be, u32_be, ByteSink};
use crate::layout::{plain_step, Layouter, PassState, Place, Step};
use crate::open_type::content::{content_fits, content_fits_in, is_content_table, layout_content};
use crate::open_type::file::{LayoutableTable, LayoutableTableBox, LayoutedTableBox};
use crate::open_type::fixed::Fixed;
use crate::open_type::document::{Table, Tag};
use crate::open_type::error::WriteError;
use vstd::prelude::*;

verus! {

/// The tag `post`.
pub open spec fn post_tag() -> Seq<u8> {
    seq![0x70u8, 0x6Fu8, 0x73u8, 0x74u8]
}

/// The description of a `post` table of version 3.0.
#[derive(Debug, Clone, Copy)]
pub struct Post {
    /// The italic angle in degrees, counter-clockwise from the vertical.
    pub italic_angle: Fixed,
    /// The distance of the underline's top from the baseline.
    pub underline_position: i16,
    /// The thickness of the underline.
    pub underline_thickness: i16,
    /// Whether all glyphs have the same advance width.
    pub is_fixed_pitch: bool,
    /// The least memory needed when the font is downloaded as Type 42.
    pub min_mem_type42: u32,
    /// The most memory needed when the font is downloaded as Type 42.
    pub max_mem_type42: u32,
    /// The least memory needed when the font is downloaded as Type 1.
    pub min_mem_type1: u32,
    /// The most memory needed when the font is downloaded as Type 1.
    pub max_mem_type1: u32,
}

impl Default for Post {
    /// An upright font of fixed pitch with an underline of thickness 1 at
    /// the baseline, and no memory bounds.
    fn default() -> (post: Self)
        ensures
            post.italic_angle.major == 0,
            post.italic_angle.minor == 0,
            post.underline_position == 0,
            post.underline_thickness == 1,
            post.is_fixed_pitch,
            post.min_mem_type42 == 0,
            post.max_mem_type42 == 0,
            post.min_mem_type1 == 0,
            post.max_mem_type1 == 0,
    {
        Self {
            italic_angle: Fixed { major: 0, minor: 0 },
            underline_position: 0,
            underline_thickness: 1,
            is_fixed_pitch: true,
            min_mem_type42: 0,
            max_mem_type42: 0,
            min_mem_type1: 0,
            max_mem_type1: 0,
        }
    }
}

impl Post {
    /// The pitch as the table holds it: 1 for a fixed pitch, 0 otherwise.
    fn pitch(&self) -> (pitch: u32)
        ensures
            pitch == self.spec_pitch(),
    {
        if self.is_fixed_pitch {
            1
        } else {
            0
        }
    }

    /// The pitch as the table holds it: 1 for a fixed pitch, 0 otherwise.
    pub open spec fn spec_pitch(&self) -> u32 {
        if self.is_fixed_pitch {
            1
        } else {
            0
        }
    }

    /// The version 3.0, the italic angle, the underline, the pitch and the memory bounds.
    pub open spec fn body(&self) -> Seq<u8> {
        u16_be(3)
            + u16_be(0)
            + self.italic_angle.encoding()
            + u16_be(i16_bits(self.underline_position))
            + u16_be(i16_bits(self.underline_thickness))
            + u32_be(self.spec_pitch())
            + u32_be(self.min_mem_type42)
            + u32_be(self.max_mem_type42)
            + u32_be(self.min_mem_type1)
            + u32_be(self.max_mem_type1)
    }

    /// Appends to `sink`: the version 3.0, the italic angle, the underline, the pitch and the memory bounds.
    fn put_body(&self, sink: &mut ByteSink)
        ensures
            final(sink)@ == old(sink)@ + self.body(),
    {
        sink.put_u16(3);
        sink.put_u16(0);
        self.italic_angle.write_fixed(sink);
        sink.put_i16(self.underline_position);
        sink.put_i16(self.underline_thickness);
        sink.put_u32(self.pitch());
        sink.put_u32(self.min_mem_type42);
        sink.put_u32(self.max_mem_type42);
        sink.put_u32(self.min_mem_type1);
        sink.put_u32(self.max_mem_type1);
        assert(sink@ =~= old(sink)@ + self.body());
    }

    /// The table's bytes.
    pub open spec fn encoding(&self) -> Seq<u8> {
        self.body()
    }

    /// The table's bytes.
    pub fn encode(&self) -> (bytes: Vec<u8>)
        ensures
            bytes@ == self.encoding(),
    {
        let mut sink = ByteSink::new();
        self.put_body(&mut sink);
        assert(sink@ =~= self.encoding());
        sink.into_bytes()
    }

    /// The table takes exactly the bytes that it asks for.
    pub proof fn lemma_exact_size(&self)
        ensures
            self.encoding().len() == 32,
    {
    }

    /// The description as a table of any kind, to stand in a file.
    pub fn boxed(self) -> (boxed: LayoutableTableBox)
        ensures
            is_content_table(boxed, post_tag(), 32, true, self.encoding()),
    {
        LayoutableTableBox { table: Box::new(self) }
    }
}

impl LayoutableTable for Post {
    open spec fn tag_spec(&self) -> Seq<u8> {
        post_tag()
    }

    open spec fn size(&self) -> nat {
        32
    }

    open spec fn fits(&self, place: Place) -> bool {
        content_fits(32, place)
    }

    open spec fn step_at(
        &self,
        place: Place,
        state: PassState,
        windows: Seq<Seq<u8>>,
        current_file: Seq<u8>,
    ) -> Step {
        plain_step(place.reservation(32), self.encoding(), windows)
    }

    fn tag(&self) -> (tag: [u8; 4]) {
        [0x70, 0x6F, 0x73, 0x74]
    }

    fn fits_in(&self, layouter: &Layouter) -> (fits: bool) {
        content_fits_in(layouter, 32)
    }

    fn layout(&self, layouter: &mut Layouter) -> (laid: LayoutedTableBox) {
        layout_content(layouter, self.tag(), 32, self.encode())
    }
}

impl Table for Post {
    open spec fn tag_spec(&self) -> Seq<u8> {
        post_tag()
    }

    open spec fn size_spec(&self) -> nat {
        32
    }

    open spec fn emitted(&self) -> Seq<u8> {
        self.encoding()
    }

    open spec fn writes(&self) -> bool {
        true
    }

    fn get_tag(&self) -> (tag: Tag) {
        self.tag()
    }

    fn get_size(&self) -> (size: usize) {
        32
    }

    fn write(&self, sink: &mut ByteSink) -> (result: Result<(), WriteError>) {
        let bytes = self.encode();
        sink.put_bytes(bytes.as_slice());
        Ok(())
    }
}

} // verus!
