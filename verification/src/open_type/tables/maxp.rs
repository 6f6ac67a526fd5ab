//! The `maxp` table: the number of glyphs.

use crate::bytes::{i16_bits, i32_bits, u16_be, u32_be, ByteSink};
use crate::layout::{plain_step, Layouter, PassState, Place, Step};
use crate::open_type::content::{content_fits, content_fits_in, is_content_table, layout_content};
use crate::open_type::file::{LayoutableTable, LayoutableTableBox, LayoutedTableBox};
use crate::open_type::document::{Table, Tag};
use crate::open_type::error::WriteError;
use vstd::prelude::*;

verus! {

/// The tag `maxp`.
pub open spec fn maxp_tag() -> Seq<u8> {
    seq![0x6Du8, 0x61u8, 0x78u8, 0x70u8]
}

/// The description of a `maxp` table of version 0.5.
#[derive(Debug, Clone, Copy)]
pub struct MaxP {
    /// The number of glyphs in the font.
    pub number_of_glyphs: u16,
}

impl MaxP {
    /// The version 0.5, then the number of glyphs.
    pub open spec fn body(&self) -> Seq<u8> {
        u32_be(i32_bits(0x0000_5000))
            + u16_be(self.number_of_glyphs)
    }

    /// Appends to `sink`: the version 0.5, then the number of glyphs.
    fn put_body(&self, sink: &mut ByteSink)
        ensures
            final(sink)@ == old(sink)@ + self.body(),
    {
        sink.put_i32(0x0000_5000);
        sink.put_u16(self.number_of_glyphs);
        assert(sink@ =~= old(sink)@ + self.body());
    }

    /// The table's bytes.
    pub open spec fn encoding(&self) -> Seq<u8> {
        self.body()
    }

    /// The table's bytes.
    pub fn encode(&self) -> (bytes: Vec<u8>)
        ensures
            bytes@ == self.encoding(),
    {
        let mut sink = ByteSink::new();
        self.put_body(&mut sink);
        assert(sink@ =~= self.encoding());
        sink.into_bytes()
    }

    /// The table takes exactly the bytes that it asks for.
    pub proof fn lemma_exact_size(&self)
        ensures
            self.encoding().len() == 6,
    {
    }

    /// The description as a table of any kind, to stand in a file.
    pub fn boxed(self) -> (boxed: LayoutableTableBox)
        ensures
            is_content_table(boxed, maxp_tag(), 6, true, self.encoding()),
    {
        LayoutableTableBox { table: Box::new(self) }
    }
}

impl LayoutableTable for MaxP {
    open spec fn tag_spec(&self) -> Seq<u8> {
        maxp_tag()
    }

    open spec fn size(&self) -> nat {
        6
    }

    open spec fn fits(&self, place: Place) -> bool {
        content_fits(6, place)
    }

    open spec fn step_at(
        &self,
        place: Place,
        state: PassState,
        windows: Seq<Seq<u8>>,
        current_file: Seq<u8>,
    ) -> Step {
        plain_step(place.reservation(6), self.encoding(), windows)
    }

    fn tag(&self) -> (tag: [u8; 4]) {
        [0x6D, 0x61, 0x78, 0x70]
    }

    fn fits_in(&self, layouter: &Layouter) -> (fits: bool) {
        content_fits_in(layouter, 6)
    }

    fn layout(&self, layouter: &mut Layouter) -> (laid: LayoutedTableBox) {
        layout_content(layouter, self.tag(), 6, self.encode())
    }
}

impl Table for MaxP {
    open spec fn tag_spec(&self) -> Seq<u8> {
        maxp_tag()
    }

    open spec fn size_spec(&self) -> nat {
        6
    }

    open spec fn emitted(&self) -> Seq<u8> {
        self.encoding()
    }

    open spec fn writes(&self) -> bool {
        true
    }

    fn get_tag(&self) -> (tag: Tag) {
        self.tag()
    }

    fn get_size(&self) -> (size: usize) {
        6
    }

    fn write(&self, sink: &mut ByteSink) -> (result: Result<(), WriteError>) {
        let bytes = self.encode();
        sink.put_bytes(bytes.as_slice());
        Ok(())
    }
}

} // verus!
