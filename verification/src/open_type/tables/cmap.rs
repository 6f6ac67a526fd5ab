//! The `cmap` table: which glyph stands for which character.

use crate::bytes::{u16_be, u32_be, ByteSink};
use crate::layout::{plain_step, Layouter, PassState, Place, Step};
use crate::open_type::content::{content_fits, content_fits_in, is_content_table, layout_content};
use crate::open_type::file::{LayoutableTable, LayoutableTableBox, LayoutedTableBox};
use vstd::prelude::*;

verus! {

/// The tag `cmap`.
pub open spec fn cmap_tag() -> Seq<u8> {
    seq![0x63u8, 0x6Du8, 0x61u8, 0x70u8]
}

/// A run of characters whose glyphs follow each other.
#[derive(Debug, Clone, Copy)]
pub struct CharacterRange {
    /// The first character of the run.
    pub start: char,
    /// The last character of the run.
    pub end: char,
    /// The glyph of the first character.
    pub start_index: u32,
}

impl CharacterRange {
    /// The twelve bytes of a group: the code points of the first and the
    /// last character and the first glyph.
    pub open spec fn encoding(&self) -> Seq<u8> {
        u32_be(self.start as u32) + u32_be(self.end as u32) + u32_be(self.start_index)
    }
}

/// The groups one after the other.
pub open spec fn groups_bytes(ranges: Seq<CharacterRange>) -> Seq<u8>
    decreases ranges.len(),
{
    if ranges.len() == 0 {
        Seq::empty()
    } else {
        groups_bytes(ranges.drop_last()) + ranges.last().encoding()
    }
}

/// Each group takes twelve bytes.
pub proof fn lemma_groups_bytes_len(ranges: Seq<CharacterRange>)
    ensures
        groups_bytes(ranges).len() == 12 * ranges.len(),
    decreases ranges.len(),
{
    if ranges.len() > 0 {
        lemma_groups_bytes_len(ranges.drop_last());
    }
}

/// The description of a `cmap` table with one subtable of format 12.
#[derive(Debug)]
pub struct CMap {
    ranges: Vec<CharacterRange>,
}

impl CMap {
    /// The runs of characters, in the order given.
    pub closed spec fn ranges(&self) -> Seq<CharacterRange> {
        self.ranges@
    }

    /// The number of bytes that the table takes.
    pub open spec fn byte_len(&self) -> nat {
        28 + 12 * self.ranges().len()
    }

    /// The subtable's length fits in 32 bits.
    pub open spec fn ready(&self) -> bool {
        12 * self.ranges().len() + 16 <= u32::MAX
    }

    /// The table's header, with one encoding record for the Unicode
    /// platform that points behind itself, and the header of the subtable
    /// of format 12 with its length and the number of groups.
    pub open spec fn header(&self) -> Seq<u8> {
        u16_be(0) + u16_be(1) + u16_be(0) + u16_be(3) + u32_be(12) + u16_be(12) + u16_be(0)
            + u32_be((12 * self.ranges().len() + 16) as u32) + u32_be(0) + u32_be(
            self.ranges().len() as u32,
        )
    }

    /// The table's bytes: the headers, then the groups.
    pub open spec fn encoding(&self) -> Seq<u8> {
        self.header() + groups_bytes(self.ranges())
    }

    /// A table of the given runs.
    pub fn new_with_ranges(ranges: Vec<CharacterRange>) -> (cmap: Self)
        ensures
            cmap.ranges() == ranges@,
    {
        Self { ranges }
    }

    fn put_header(&self, sink: &mut ByteSink)
        requires
            self.ready(),
        ensures
            final(sink)@ == old(sink)@ + self.header(),
    {
        let count: u32 = self.ranges.len() as u32;
        sink.put_u16(0);
        sink.put_u16(1);
        sink.put_u16(0);
        sink.put_u16(3);
        sink.put_u32(12);
        sink.put_u16(12);
        sink.put_u16(0);
        sink.put_u32(count * 12 + 16);
        sink.put_u32(0);
        sink.put_u32(count);
        assert(sink@ =~= old(sink)@ + self.header());
    }

    /// The table's bytes.
    pub fn encode(&self) -> (bytes: Vec<u8>)
        requires
            self.ready(),
        ensures
            bytes@ == self.encoding(),
    {
        let mut sink = ByteSink::new();
        self.put_header(&mut sink);
        let mut i: usize = 0;
        assert(sink@ =~= self.header() + groups_bytes(self.ranges@.take(0)));
        while i < self.ranges.len()
            invariant
                i <= self.ranges@.len(),
                sink@ == self.header() + groups_bytes(self.ranges@.take(i as int)),
            decreases self.ranges@.len() - i,
        {
            sink.put_u32(self.ranges[i].start as u32);
            sink.put_u32(self.ranges[i].end as u32);
            sink.put_u32(self.ranges[i].start_index);
            proof {
                let next = self.ranges@.take(i + 1);
                assert(next.drop_last() =~= self.ranges@.take(i as int));
                assert(next.last() == self.ranges@[i as int]);
                assert(sink@ =~= self.header() + groups_bytes(next));
            }
            i += 1;
        }
        assert(self.ranges@.take(i as int) =~= self.ranges@);
        sink.into_bytes()
    }

    /// The table takes exactly the bytes that it asks for.
    pub proof fn lemma_exact_size(&self)
        ensures
            self.encoding().len() == self.byte_len(),
    {
        lemma_groups_bytes_len(self.ranges());
    }

    /// The description as a table of any kind, to stand in a file.
    pub fn boxed(self) -> (boxed: LayoutableTableBox)
        ensures
            is_content_table(boxed, cmap_tag(), self.byte_len(), self.ready(), self.encoding()),
    {
        LayoutableTableBox { table: Box::new(self) }
    }
}

impl LayoutableTable for CMap {
    open spec fn tag_spec(&self) -> Seq<u8> {
        cmap_tag()
    }

    open spec fn size(&self) -> nat {
        self.byte_len()
    }

    open spec fn fits(&self, place: Place) -> bool {
        self.ready() && content_fits(self.byte_len(), place)
    }

    open spec fn step_at(
        &self,
        place: Place,
        state: PassState,
        windows: Seq<Seq<u8>>,
        current_file: Seq<u8>,
    ) -> Step {
        plain_step(place.reservation(self.byte_len()), self.encoding(), windows)
    }

    fn tag(&self) -> (tag: [u8; 4]) {
        [0x63, 0x6D, 0x61, 0x70]
    }

    fn fits_in(&self, layouter: &Layouter) -> (fits: bool) {
        if self.ranges.len() > 357_913_939 {
            return false;
        }
        match self.ranges.len().checked_mul(12) {
            Some(groups) => match groups.checked_add(28) {
                Some(size) => content_fits_in(layouter, size),
                None => false,
            },
            None => false,
        }
    }

    fn layout(&self, layouter: &mut Layouter) -> (laid: LayoutedTableBox) {
        let size = 28 + 12 * self.ranges.len();
        layout_content(layouter, self.tag(), size, self.encode())
    }
}

} // verus!
