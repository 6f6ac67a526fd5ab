//! The `hmtx` table: the horizontal metrics of the glyphs.

use crate::bytes::{i16_bits, u16_be, ByteSink};
use crate::layout::{plain_step, Layouter, PassState, Place, Step};
use crate::open_type::content::{content_fits, content_fits_in, is_content_table, layout_content};
use crate::open_type::file::{LayoutableTable, LayoutableTableBox, LayoutedTableBox};
use vstd::prelude::*;

verus! {

/// The tag `hmtx`.
pub open spec fn hmtx_tag() -> Seq<u8> {
    seq![0x68u8, 0x6Du8, 0x74u8, 0x78u8]
}

/// The advance width and the left side bearing of a glyph.
#[derive(Debug, Clone, Copy)]
pub struct HorizontalMetric {
    /// The advance width, in font design units.
    pub advance_width: u16,
    /// The left side bearing, in font design units.
    pub left_side_bearing: i16,
}

impl HorizontalMetric {
    /// The four bytes: the advance width, then the left side bearing.
    pub open spec fn encoding(&self) -> Seq<u8> {
        u16_be(self.advance_width) + u16_be(i16_bits(self.left_side_bearing))
    }
}

/// The metrics one after the other.
pub open spec fn metrics_bytes(metrics: Seq<HorizontalMetric>) -> Seq<u8>
    decreases metrics.len(),
{
    if metrics.len() == 0 {
        Seq::empty()
    } else {
        metrics_bytes(metrics.drop_last()) + metrics.last().encoding()
    }
}

/// The numbers one after the other, each as two bytes in two's complement,
/// most significant first.
pub open spec fn i16s_be(values: Seq<i16>) -> Seq<u8>
    decreases values.len(),
{
    if values.len() == 0 {
        Seq::empty()
    } else {
        i16s_be(values.drop_last()) + u16_be(i16_bits(values.last()))
    }
}

/// Each metric takes four bytes.
pub proof fn lemma_metrics_bytes_len(metrics: Seq<HorizontalMetric>)
    ensures
        metrics_bytes(metrics).len() == 4 * metrics.len(),
    decreases metrics.len(),
{
    if metrics.len() > 0 {
        lemma_metrics_bytes_len(metrics.drop_last());
    }
}

/// Each number takes two bytes.
pub proof fn lemma_i16s_be_len(values: Seq<i16>)
    ensures
        i16s_be(values).len() == 2 * values.len(),
    decreases values.len(),
{
    if values.len() > 0 {
        lemma_i16s_be_len(values.drop_last());
    }
}

/// The description of an `hmtx` table.
#[derive(Debug, Clone)]
pub struct Hmtx {
    /// The metrics of the first glyphs.
    pub horizontal_metrics: Vec<HorizontalMetric>,
    /// The left side bearings of the glyphs that follow; they share the
    /// last advance width.
    pub left_side_bearings: Vec<i16>,
}

impl Hmtx {
    /// The number of bytes that the table takes.
    pub open spec fn byte_len(&self) -> nat {
        4 * self.horizontal_metrics@.len() + 2 * self.left_side_bearings@.len()
    }

    /// The table's bytes: the metrics, then the left side bearings.
    pub open spec fn encoding(&self) -> Seq<u8> {
        metrics_bytes(self.horizontal_metrics@) + i16s_be(self.left_side_bearings@)
    }

    /// The table's bytes.
    pub fn encode(&self) -> (bytes: Vec<u8>)
        ensures
            bytes@ == self.encoding(),
    {
        let mut sink = ByteSink::new();
        let mut i: usize = 0;
        while i < self.horizontal_metrics.len()
            invariant
                i <= self.horizontal_metrics@.len(),
                sink@ == metrics_bytes(self.horizontal_metrics@.take(i as int)),
            decreases self.horizontal_metrics@.len() - i,
        {
            sink.put_u16(self.horizontal_metrics[i].advance_width);
            sink.put_i16(self.horizontal_metrics[i].left_side_bearing);
            proof {
                let next = self.horizontal_metrics@.take(i + 1);
                assert(next.drop_last() =~= self.horizontal_metrics@.take(i as int));
                assert(next.last() == self.horizontal_metrics@[i as int]);
                assert(sink@ =~= metrics_bytes(next));
            }
            i += 1;
        }
        assert(self.horizontal_metrics@.take(i as int) =~= self.horizontal_metrics@);
        let mut k: usize = 0;
        assert(sink@ =~= metrics_bytes(self.horizontal_metrics@) + i16s_be(
            self.left_side_bearings@.take(0),
        ));
        while k < self.left_side_bearings.len()
            invariant
                k <= self.left_side_bearings@.len(),
                sink@ == metrics_bytes(self.horizontal_metrics@) + i16s_be(
                    self.left_side_bearings@.take(k as int),
                ),
            decreases self.left_side_bearings@.len() - k,
        {
            sink.put_i16(self.left_side_bearings[k]);
            proof {
                let next = self.left_side_bearings@.take(k + 1);
                assert(next.drop_last() =~= self.left_side_bearings@.take(k as int));
                assert(next.last() == self.left_side_bearings@[k as int]);
                assert(sink@ =~= metrics_bytes(self.horizontal_metrics@) + i16s_be(next));
            }
            k += 1;
        }
        assert(self.left_side_bearings@.take(k as int) =~= self.left_side_bearings@);
        sink.into_bytes()
    }

    /// The table takes exactly the bytes that it asks for.
    pub proof fn lemma_exact_size(&self)
        ensures
            self.encoding().len() == self.byte_len(),
    {
        lemma_metrics_bytes_len(self.horizontal_metrics@);
        lemma_i16s_be_len(self.left_side_bearings@);
    }

    /// The description as a table of any kind, to stand in a file.
    pub fn boxed(self) -> (boxed: LayoutableTableBox)
        ensures
            is_content_table(boxed, hmtx_tag(), self.byte_len(), true, self.encoding()),
    {
        LayoutableTableBox { table: Box::new(self) }
    }
}

impl LayoutableTable for Hmtx {
    open spec fn tag_spec(&self) -> Seq<u8> {
        hmtx_tag()
    }

    open spec fn size(&self) -> nat {
        self.byte_len()
    }

    open spec fn fits(&self, place: Place) -> bool {
        content_fits(self.byte_len(), place)
    }

    open spec fn step_at(
        &self,
        place: Place,
        state: PassState,
        windows: Seq<Seq<u8>>,
        current_file: Seq<u8>,
    ) -> Step {
        plain_step(place.reservation(self.byte_len()), self.encoding(), windows)
    }

    fn tag(&self) -> (tag: [u8; 4]) {
        [0x68, 0x6D, 0x74, 0x78]
    }

    fn fits_in(&self, layouter: &Layouter) -> (fits: bool) {
        let metrics = self.horizontal_metrics.len().checked_mul(4);
        let bearings = self.left_side_bearings.len().checked_mul(2);
        match (metrics, bearings) {
            (Some(m), Some(b)) => match m.checked_add(b) {
                Some(size) => content_fits_in(layouter, size),
                None => false,
            },
            _ => false,
        }
    }

    fn layout(&self, layouter: &mut Layouter) -> (laid: LayoutedTableBox) {
        let size = self.horizontal_metrics.len() * 4 + self.left_side_bearings.len() * 2;
        layout_content(layouter, self.tag(), size, self.encode())
    }
}

} // verus!
