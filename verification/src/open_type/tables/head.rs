//! The `head` table: the font's header, with the adjustment that brings
//! the checksum of the whole file to a fixed number.

use crate::bytes::{i16_bits, i64_bits, u16_be, u32_be, u64_be, ByteSink};
use crate::checksum::{adjustment_spec, checksum32_spec, checksum_adjustment, CHECKSUM_MAGIC};
use crate::layout::{
    concat, continues, lemma_continues_trans, lemma_placed_in_continues, written, LayoutError,
    Layouter, PassState, Place, Reservation, ReservationView, Step,
};
use crate::open_type::content::{content_fits, content_fits_in};
use crate::open_type::file::{LayoutableTable, LayoutableTableBox, LayoutedTable, LayoutedTableBox};
use crate::open_type::fixed::Fixed;
use crate::time::{whole_seconds, Timestamp};
use vstd::prelude::*;

verus! {

/// The tag `head`.
pub open spec fn head_tag() -> Seq<u8> {
    seq![0x68u8, 0x65u8, 0x61u8, 0x64u8]
}

/// The number of bytes of a `head` table.
pub const HEAD_SIZE: usize = 54;

/// Where in the table the checksum adjustment stands.
pub const ADJUSTMENT_OFFSET: usize = 8;

/// The flags of the `head` table.
#[derive(Debug, Clone, Copy)]
pub struct Flags {
    /// Bit 0: the baseline is at y = 0.
    pub baseline: bool,
    /// Bit 1: the left sidebearing point is at x = 0.
    pub sidebearing: bool,
    /// Bit 2: instructions may depend on the point size.
    pub depends_on_pointsize: bool,
    /// Bit 3: pixels per em are forced to whole numbers.
    pub force_ppem: bool,
    /// Bit 4: instructions may alter the advance width.
    pub dynamic_advance_width: bool,
    /// Bit 11: the font data was transformed without loss.
    pub lossless: bool,
    /// Bit 12: the font was converted.
    pub converted: bool,
    /// Bit 13: the font is optimized for ClearType.
    pub cleartype_optimized: bool,
    /// Bit 14: the font is a last resort font.
    pub last_resort: bool,
}

impl Default for Flags {
    /// Whole pixels per em and instructions that may alter the advance
    /// width; nothing else.
    fn default() -> (flags: Self)
        ensures
            !flags.baseline,
            !flags.sidebearing,
            !flags.depends_on_pointsize,
            flags.force_ppem,
            flags.dynamic_advance_width,
            !flags.lossless,
            !flags.converted,
            !flags.cleartype_optimized,
            !flags.last_resort,
    {
        Self {
            baseline: false,
            sidebearing: false,
            depends_on_pointsize: false,
            force_ppem: true,
            dynamic_advance_width: true,
            lossless: false,
            converted: false,
            cleartype_optimized: false,
            last_resort: false,
        }
    }
}

/// The worth of bit number `bit` if `set`, else nothing.
pub open spec fn bit_worth(set: bool, bit: u16) -> u16 {
    if set {
        (1u16 << bit) as u16
    } else {
        0
    }
}

impl Flags {
    /// The flags as a number: each flag that is set gives the bit of its
    /// number.
    pub open spec fn value(&self) -> u16 {
        (bit_worth(self.baseline, 0) | bit_worth(self.sidebearing, 1) | bit_worth(
            self.depends_on_pointsize,
            2,
        ) | bit_worth(self.force_ppem, 3) | bit_worth(self.dynamic_advance_width, 4) | bit_worth(
            self.lossless,
            11,
        ) | bit_worth(self.converted, 12) | bit_worth(self.cleartype_optimized, 13) | bit_worth(
            self.last_resort,
            14,
        )) as u16
    }

    /// The flags as a number: each flag that is set gives the bit of its
    /// number.
    pub fn as_u16(&self) -> (value: u16)
        ensures
            value == self.value(),
    {
        (if self.baseline {
            1u16 << 0
        } else {
            0
        }) | (if self.sidebearing {
            1u16 << 1
        } else {
            0
        }) | (if self.depends_on_pointsize {
            1u16 << 2
        } else {
            0
        }) | (if self.force_ppem {
            1u16 << 3
        } else {
            0
        }) | (if self.dynamic_advance_width {
            1u16 << 4
        } else {
            0
        }) | (if self.lossless {
            1u16 << 11
        } else {
            0
        }) | (if self.converted {
            1u16 << 12
        } else {
            0
        }) | (if self.cleartype_optimized {
            1u16 << 13
        } else {
            0
        }) | (if self.last_resort {
            1u16 << 14
        } else {
            0
        })
    }
}

/// The description of a `head` table of version 1.0.
#[derive(Debug, Clone, Copy)]
pub struct Head {
    /// The font's revision.
    pub revision: Fixed,
    /// The flags.
    pub flags: Flags,
    /// When the font was created.
    pub created: Timestamp,
    /// When the font was last modified.
    pub modified: Timestamp,
    /// The units per em, from 16 to 16384.
    pub units_per_em: u16,
    /// The smallest readable size in pixels per em.
    pub smalest_recocnizeable_size: u16,
    /// The least x of all glyph boxes.
    pub min_x: i16,
    /// The least y of all glyph boxes.
    pub min_y: i16,
    /// The greatest x of all glyph boxes.
    pub max_x: i16,
    /// The greatest y of all glyph boxes.
    pub max_y: i16,
}

/// The instant of the start of 1904, as plain values.
pub open spec fn epoch_1904_view() -> crate::time::TimestampView {
    crate::time::TimestampView { seconds: crate::time::EPOCH_1904_SECONDS as int, nanos: 0 }
}

impl Head {
    /// The version 1.0 and the revision.
    pub open spec fn front(&self) -> Seq<u8> {
        u16_be(1) + u16_be(0) + self.revision.encoding()
    }

    /// The magic number, the flags, the units per em, and the times of
    /// creation and modification in whole seconds since the start of 1904.
    pub open spec fn middle(&self) -> Seq<u8> {
        u32_be(0x5F0F_3CF5) + u16_be(self.flags.value()) + u16_be(self.units_per_em) + u64_be(
            i64_bits(whole_seconds(self.created@, epoch_1904_view()) as i64),
        ) + u64_be(i64_bits(whole_seconds(self.modified@, epoch_1904_view()) as i64))
    }

    /// The box of all glyphs, no style bits, the smallest size, the
    /// direction hint 2, short offsets and the current glyph format.
    pub open spec fn back(&self) -> Seq<u8> {
        u16_be(i16_bits(self.min_x)) + u16_be(i16_bits(self.min_y)) + u16_be(
            i16_bits(self.max_x),
        ) + u16_be(i16_bits(self.max_y)) + u16_be(0) + u16_be(self.smalest_recocnizeable_size)
            + u16_be(i16_bits(2)) + u16_be(i16_bits(0)) + u16_be(i16_bits(0))
    }

    /// The table's bytes with `adjustment` as the checksum adjustment.
    pub open spec fn encoding(&self, adjustment: u32) -> Seq<u8> {
        self.front() + u32_be(adjustment) + self.middle() + self.back()
    }

    /// The table has 54 bytes.
    pub proof fn lemma_encoding_len(&self, adjustment: u32)
        ensures
            self.encoding(adjustment).len() == HEAD_SIZE,
    {
    }

    /// The adjustment stands at byte 8.
    pub proof fn lemma_encoding(&self, adjustment: u32)
        ensures
            self.encoding(adjustment).len() == HEAD_SIZE,
            self.encoding(adjustment) == with_adjustment(self.encoding(0), adjustment),
            self.encoding(0).subrange(8, 12) == seq![0u8, 0u8, 0u8, 0u8],
    {
        assert(self.encoding(adjustment) =~= with_adjustment(self.encoding(0), adjustment));
        assert(self.encoding(0).subrange(8, 12) =~= seq![0u8, 0u8, 0u8, 0u8]);
    }

    fn put_front(&self, sink: &mut ByteSink)
        ensures
            final(sink)@ == old(sink)@ + self.front(),
    {
        sink.put_u16(1);
        sink.put_u16(0);
        self.revision.write_fixed(sink);
        assert(sink@ =~= old(sink)@ + self.front());
    }

    fn put_middle(&self, sink: &mut ByteSink)
        ensures
            final(sink)@ == old(sink)@ + self.middle(),
    {
        let epoch = Timestamp::epoch_1904();
        sink.put_u32(0x5F0F_3CF5);
        sink.put_u16(self.flags.as_u16());
        sink.put_u16(self.units_per_em);
        sink.put_i64(self.created.seconds_since(&epoch));
        sink.put_i64(self.modified.seconds_since(&epoch));
        assert(sink@ =~= old(sink)@ + self.middle());
    }

    fn put_back(&self, sink: &mut ByteSink)
        ensures
            final(sink)@ == old(sink)@ + self.back(),
    {
        sink.put_i16(self.min_x);
        sink.put_i16(self.min_y);
        sink.put_i16(self.max_x);
        sink.put_i16(self.max_y);
        sink.put_u16(0);
        sink.put_u16(self.smalest_recocnizeable_size);
        sink.put_i16(2);
        sink.put_i16(0);
        sink.put_i16(0);
        assert(sink@ =~= old(sink)@ + self.back());
    }

    /// The table's bytes with `adjustment` as the checksum adjustment.
    pub fn encode(&self, adjustment: u32) -> (bytes: Vec<u8>)
        ensures
            bytes@ == self.encoding(adjustment),
    {
        let mut sink = ByteSink::new();
        self.put_front(&mut sink);
        sink.put_u32(adjustment);
        self.put_middle(&mut sink);
        self.put_back(&mut sink);
        assert(sink@ =~= self.encoding(adjustment));
        sink.into_bytes()
    }

    /// The description as a table of any kind, to stand in a file.
    pub fn boxed(self) -> (boxed: LayoutableTableBox)
        ensures
            boxed.table.tag_spec() == head_tag(),
            boxed.table.size() == HEAD_SIZE,
            forall|place: Place| #[trigger]
                boxed.table.fits(place) == content_fits(HEAD_SIZE as nat, place),
            forall|place: Place, s: PassState, w: Seq<Seq<u8>>, f: Seq<u8>| #[trigger]
                boxed.table.step_at(place, s, w, f) == head_step(
                    place.reservation(HEAD_SIZE as nat),
                    self.encoding(0),
                    s,
                    w,
                    f,
                ),
    {
        LayoutableTableBox { table: Box::new(self) }
    }
}

/// The table `body` with `adjustment` in place of the four bytes of its
/// checksum adjustment.
pub open spec fn with_adjustment(body: Seq<u8>, adjustment: u32) -> Seq<u8> {
    written(body, ADJUSTMENT_OFFSET as nat, u32_be(adjustment))
}

/// The file as a pass of the `head` table sees it: `current_file` with the
/// table's bytes, the adjustment zero, at the table's offset.
pub open spec fn file_seen(reservation: ReservationView, body: Seq<u8>, current_file: Seq<u8>) -> Seq<
    u8,
> {
    written(current_file, reservation.offset, body)
}

/// What a pass of the `head` table does. `body` is the table with an
/// adjustment of zero. The pass takes the adjustment for the file that it
/// sees. Where the pass before took the same, the table is written with
/// that adjustment and asks for no further pass; else the table is written
/// with an adjustment of zero and asks for another pass.
pub open spec fn head_step(
    reservation: ReservationView,
    body: Seq<u8>,
    state: PassState,
    windows: Seq<Seq<u8>>,
    current_file: Seq<u8>,
) -> Step {
    let value = adjustment_spec(file_seen(reservation, body, current_file));
    let pending = state.remembered != Some(seq![value]);
    let content = if pending {
        body
    } else {
        with_adjustment(body, value)
    };
    Step {
        state: PassState { pending, remembered: Some(seq![value]), parts: Seq::empty() },
        windows: windows.update(
            reservation.index as int,
            written(windows[reservation.index as int], 0, content),
        ),
        outcome: if content.len() <= reservation.len {
            Ok(())
        } else {
            Err(LayoutError::OutOfBounds)
        },
    }
}

/// A laid-out `head` table.
pub struct LayoutedHead {
    requires_another_pass: bool,
    reservation: Reservation,
    checksum: Option<u32>,
    body: Vec<u8>,
}

impl LayoutedHead {
    /// The table's bytes with an adjustment of zero.
    pub closed spec fn body(&self) -> Seq<u8> {
        self.body@
    }

    /// The laid-out table for the window `reservation` of `windows` and
    /// the table's bytes `body`, the adjustment zero.
    fn new(reservation: Reservation, body: Vec<u8>, Ghost(windows): Ghost<Seq<Seq<u8>>>) -> (laid:
        LayoutedTableBox)
        requires
            body@.len() == HEAD_SIZE,
            reservation@.placed_in(windows),
        ensures
            forall|w: Seq<Seq<u8>>| continues(w, windows) ==> #[trigger] laid.table.placed_in(w),
            laid.table.reservation_spec() == reservation@,
            laid.table.tag_spec() == head_tag(),
            laid.table.state() == PassState::fresh(),
            forall|s: PassState, w: Seq<Seq<u8>>, f: Seq<u8>| #[trigger]
                laid.table.step(s, w, f) == head_step(reservation@, body@, s, w, f),
    {
        let table = LayoutedHead { requires_another_pass: true, reservation, checksum: None, body };
        proof {
            assert forall|w: Seq<Seq<u8>>| continues(w, windows) implies #[trigger]
                table.placed_in(w) by {
                lemma_placed_in_continues(reservation@, windows, w);
            }
        }
        LayoutedTableBox { table: Box::new(table) }
    }
}

impl LayoutedTable for LayoutedHead {
    closed spec fn reservation_spec(&self) -> ReservationView {
        self.reservation@
    }

    open spec fn tag_spec(&self) -> Seq<u8> {
        head_tag()
    }

    closed spec fn state(&self) -> PassState {
        PassState {
            pending: self.requires_another_pass,
            remembered: match self.checksum {
                None => None,
                Some(value) => Some(seq![value]),
            },
            parts: Seq::empty(),
        }
    }

    closed spec fn step(
        &self,
        state: PassState,
        windows: Seq<Seq<u8>>,
        current_file: Seq<u8>,
    ) -> Step {
        head_step(self.reservation@, self.body@, state, windows, current_file)
    }

    closed spec fn placed_in(&self, windows: Seq<Seq<u8>>) -> bool {
        self.reservation@.placed_in(windows) && self.body@.len() == HEAD_SIZE
    }

    fn tag(&self) -> (tag: [u8; 4]) {
        [0x68, 0x65, 0x61, 0x64]
    }

    fn reservation(&self) -> (reservation: &Reservation) {
        &self.reservation
    }

    fn requires_another_pass(&self) -> (pending: bool) {
        self.requires_another_pass
    }

    fn pass(&mut self, layouter: &mut Layouter, current_file: &[u8]) -> (result: Result<
        (),
        LayoutError,
    >) {
        proof {
            assert(continues(layouter@.windows, layouter@.windows));
            assert(self.placed_in(layouter@.windows));
        }
        let seen = patched(current_file, self.reservation.offset(), &self.body);
        let value = checksum_adjustment(seen.as_slice());
        let pending = match self.checksum {
            None => true,
            Some(previous) => previous != value,
        };
        proof {
            assert(pending == (self.state().remembered != Some(seq![value]))) by {
                match self.checksum {
                    None => {},
                    Some(previous) => {
                        if previous != value {
                            assert(seq![previous][0] != seq![value][0]);
                        }
                    },
                }
            }
        }
        self.checksum = Some(value);
        self.requires_another_pass = pending;
        let mut content = self.body.clone();
        if !pending {
            let bytes = crate::bytes::be_u32(value);
            content.set(ADJUSTMENT_OFFSET, bytes[0]);
            content.set(ADJUSTMENT_OFFSET + 1, bytes[1]);
            content.set(ADJUSTMENT_OFFSET + 2, bytes[2]);
            content.set(ADJUSTMENT_OFFSET + 3, bytes[3]);
            assert(content@ =~= with_adjustment(self.body@, value));
        }
        let mut writer = self.reservation.writer();
        let result = writer.write_all(layouter, content.as_slice());
        proof {
            assert(continues(layouter@.windows, old(layouter)@.windows));
            assert forall|w: Seq<Seq<u8>>| continues(w, layouter@.windows) implies #[trigger]
                self.placed_in(w) by {
                lemma_continues_trans(w, layouter@.windows, old(layouter)@.windows);
                assert(old(self).placed_in(w));
            }
        }
        result
    }
}

/// `file` with `body` written at `offset`, as far as it fits.
fn patched(file: &[u8], offset: usize, body: &Vec<u8>) -> (seen: Vec<u8>)
    ensures
        seen@ == written(file@, offset as nat, body@),
{
    let mut seen: Vec<u8> = Vec::new();
    seen.extend_from_slice(file);
    let mut i: usize = 0;
    assert(seen@ =~= written(file@, offset as nat, body@.take(0)));
    while i < body.len() && offset < seen.len() && i < seen.len() - offset
        invariant
            i <= body@.len(),
            seen@.len() == file@.len(),
            seen@ == written(file@, offset as nat, body@.take(i as int)),
        decreases body@.len() - i,
    {
        seen.set(offset + i, body[i]);
        assert(seen@ =~= written(file@, offset as nat, body@.take(i + 1)));
        i += 1;
    }
    assert(seen@ =~= written(file@, offset as nat, body@));
    seen
}

impl LayoutableTable for Head {
    open spec fn tag_spec(&self) -> Seq<u8> {
        head_tag()
    }

    open spec fn size(&self) -> nat {
        HEAD_SIZE as nat
    }

    open spec fn fits(&self, place: Place) -> bool {
        content_fits(HEAD_SIZE as nat, place)
    }

    open spec fn step_at(
        &self,
        place: Place,
        state: PassState,
        windows: Seq<Seq<u8>>,
        current_file: Seq<u8>,
    ) -> Step {
        head_step(place.reservation(HEAD_SIZE as nat), self.encoding(0), state, windows, current_file)
    }

    fn tag(&self) -> (tag: [u8; 4]) {
        [0x68, 0x65, 0x61, 0x64]
    }

    fn fits_in(&self, layouter: &Layouter) -> (fits: bool) {
        content_fits_in(layouter, HEAD_SIZE)
    }

    fn layout(&self, layouter: &mut Layouter) -> (laid: LayoutedTableBox) {
        let reservation = layouter.reserve(HEAD_SIZE);
        let body = self.encode(0);
        proof {
            self.lemma_encoding_len(0);
        }
        LayoutedHead::new(reservation, body, Ghost(layouter@.windows))
    }
}

/// `file` with zero in place of the four bytes of the adjustment of the
/// `head` table at `offset`.
pub open spec fn adjustment_zeroed(file: Seq<u8>, offset: nat) -> Seq<u8> {
    written(file, offset + ADJUSTMENT_OFFSET as nat, seq![0u8, 0u8, 0u8, 0u8])
}

/// The adjustment that the bytes of `file` spell in the `head` table at
/// `offset`.
pub open spec fn adjustment_at(file: Seq<u8>, offset: nat) -> u32 {
    crate::bytes::u32_from_be(
        file.subrange(
            (offset + ADJUSTMENT_OFFSET as nat) as int,
            (offset + ADJUSTMENT_OFFSET as nat + 4) as int,
        ),
    )
}

/// After a pass of the `head` table that asks for no further pass, the
/// adjustment in the file and the checksum of the file with the adjustment
/// set to zero add up to `CHECKSUM_MAGIC`, modulo 2^32, where the file,
/// the adjustment set to zero, is the file that the pass saw.
pub proof fn law_head_adjustment(
    reservation: ReservationView,
    body: Seq<u8>,
    state: PassState,
    windows: Seq<Seq<u8>>,
    current_file: Seq<u8>,
)
    requires
        reservation.placed_in(windows),
        body.len() == HEAD_SIZE,
        body.len() <= reservation.len,
        !head_step(reservation, body, state, windows, current_file).state.pending,
        adjustment_zeroed(
            concat(head_step(reservation, body, state, windows, current_file).windows),
            reservation.offset,
        ) == file_seen(reservation, body, current_file),
    ensures
        (adjustment_at(
            concat(head_step(reservation, body, state, windows, current_file).windows),
            reservation.offset,
        ) + checksum32_spec(
            adjustment_zeroed(
                concat(head_step(reservation, body, state, windows, current_file).windows),
                reservation.offset,
            ),
        )) % 0x1_0000_0000 == CHECKSUM_MAGIC,
{
    let step = head_step(reservation, body, state, windows, current_file);
    let seen = file_seen(reservation, body, current_file);
    let value = adjustment_spec(seen);
    let content = with_adjustment(body, value);
    let file = concat(step.windows);
    let index = reservation.index as int;
    crate::checksum::lemma_adjustment(seen);
    crate::bytes::lemma_u32_round_trip(value);
    crate::layout::lemma_written_in_file(windows, index, 0, content);
    crate::layout::lemma_window_in_file(windows, index);
    assert(file == written(concat(windows), reservation.offset, content));
    assert(file.subrange(
        (reservation.offset + ADJUSTMENT_OFFSET as nat) as int,
        (reservation.offset + ADJUSTMENT_OFFSET as nat + 4) as int,
    ) =~= u32_be(value));
}

/// Where the file that a pass of the `head` table gets is the file that
/// the windows spell, and the table's window holds the table with an
/// adjustment of zero, the file after the pass, the adjustment set to
/// zero, is the file that the pass saw.
pub proof fn lemma_head_unchanged(
    reservation: ReservationView,
    body: Seq<u8>,
    state: PassState,
    windows: Seq<Seq<u8>>,
)
    requires
        reservation.placed_in(windows),
        body.len() == HEAD_SIZE,
        body.len() <= reservation.len,
        body.subrange(8, 12) == seq![0u8, 0u8, 0u8, 0u8],
    ensures
        adjustment_zeroed(
            concat(head_step(reservation, body, state, windows, concat(windows)).windows),
            reservation.offset,
        ) == file_seen(reservation, body, concat(windows)),
{
    let current = concat(windows);
    let step = head_step(reservation, body, state, windows, current);
    let value = adjustment_spec(file_seen(reservation, body, current));
    let index = reservation.index as int;
    crate::layout::lemma_window_in_file(windows, index);
    if step.state.pending {
        crate::layout::lemma_written_in_file(windows, index, 0, body);
        assert(adjustment_zeroed(concat(step.windows), reservation.offset) =~= file_seen(
            reservation,
            body,
            current,
        ));
    } else {
        crate::layout::lemma_written_in_file(windows, index, 0, with_adjustment(body, value));
        assert(adjustment_zeroed(concat(step.windows), reservation.offset) =~= file_seen(
            reservation,
            body,
            current,
        ));
    }
}

} // verus!
