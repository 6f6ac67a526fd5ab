//! The `loca` table: where each glyph starts in the `glyf` table.

use crate::bytes::{u32_be, ByteSink};
use crate::layout::{plain_step, Layouter, PassState, Place, Step};
use crate::open_type::content::{content_fits, content_fits_in, is_content_table, layout_content};
use crate::open_type::file::{LayoutableTable, LayoutableTableBox, LayoutedTableBox};
use vstd::prelude::*;

verus! {

/// The tag `loca`.
pub open spec fn loca_tag() -> Seq<u8> {
    seq![0x6Cu8, 0x6Fu8, 0x63u8, 0x61u8]
}

/// The numbers one after the other, each as four bytes, most significant
/// first.
pub open spec fn u32s_be(values: Seq<u32>) -> Seq<u8>
    decreases values.len(),
{
    if values.len() == 0 {
        Seq::empty()
    } else {
        u32s_be(values.drop_last()) + u32_be(values.last())
    }
}

/// Each number takes four bytes.
pub proof fn lemma_u32s_be_len(values: Seq<u32>)
    ensures
        u32s_be(values).len() == 4 * values.len(),
    decreases values.len(),
{
    if values.len() > 0 {
        lemma_u32s_be_len(values.drop_last());
    }
}

/// The description of a `loca` table in the long format.
pub struct Loca {
    /// The offset of each glyph in the `glyf` table, and the offset of the
    /// table's end.
    pub offsets: Vec<u32>,
}

impl Loca {
    /// The table's bytes: the offsets in order.
    pub open spec fn encoding(&self) -> Seq<u8> {
        u32s_be(self.offsets@)
    }

    /// The table's bytes.
    pub fn encode(&self) -> (bytes: Vec<u8>)
        ensures
            bytes@ == self.encoding(),
    {
        let mut sink = ByteSink::new();
        let mut i: usize = 0;
        while i < self.offsets.len()
            invariant
                i <= self.offsets@.len(),
                sink@ == u32s_be(self.offsets@.take(i as int)),
            decreases self.offsets@.len() - i,
        {
            sink.put_u32(self.offsets[i]);
            proof {
                let next = self.offsets@.take(i + 1);
                assert(next.drop_last() =~= self.offsets@.take(i as int));
                assert(next.last() == self.offsets@[i as int]);
            }
            i += 1;
        }
        assert(self.offsets@.take(i as int) =~= self.offsets@);
        sink.into_bytes()
    }

    /// The table takes exactly the bytes that it asks for.
    pub proof fn lemma_exact_size(&self)
        ensures
            self.encoding().len() == 4 * self.offsets@.len(),
    {
        lemma_u32s_be_len(self.offsets@);
    }

    /// The description as a table of any kind, to stand in a file.
    pub fn boxed(self) -> (boxed: LayoutableTableBox)
        ensures
            is_content_table(
                boxed,
                loca_tag(),
                4 * self.offsets@.len(),
                true,
                self.encoding(),
            ),
    {
        LayoutableTableBox { table: Box::new(self) }
    }
}

impl LayoutableTable for Loca {
    open spec fn tag_spec(&self) -> Seq<u8> {
        loca_tag()
    }

    open spec fn size(&self) -> nat {
        4 * self.offsets@.len()
    }

    open spec fn fits(&self, place: Place) -> bool {
        content_fits(4 * self.offsets@.len(), place)
    }

    open spec fn step_at(
        &self,
        place: Place,
        state: PassState,
        windows: Seq<Seq<u8>>,
        current_file: Seq<u8>,
    ) -> Step {
        plain_step(place.reservation(4 * self.offsets@.len()), self.encoding(), windows)
    }

    fn tag(&self) -> (tag: [u8; 4]) {
        [0x6C, 0x6F, 0x63, 0x61]
    }

    fn fits_in(&self, layouter: &Layouter) -> (fits: bool) {
        match self.offsets.len().checked_mul(4) {
            Some(size) => content_fits_in(layouter, size),
            None => false,
        }
    }

    fn layout(&self, layouter: &mut Layouter) -> (laid: LayoutedTableBox) {
        proof {
            crate::layout::lemma_aligned(4 * self.offsets@.len(), layouter@.alignment);
        }
        layout_content(layouter, self.tag(), self.offsets.len() * 4, self.encode())
    }
}

} // verus!
