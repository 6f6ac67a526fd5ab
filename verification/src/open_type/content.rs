//! Tables whose bytes do not depend on the file: laid out once, they
//! write the same content in every pass.

use crate::layout::{
    aligned, continues, lemma_continues_trans, lemma_placed_in_continues, plain_step, zeros,
    LayoutError, Layouter, PassState, Place, Reservation, ReservationView, Step,
};
use crate::open_type::file::{LayoutableTableBox, LayoutedTable, LayoutedTableBox};
use vstd::prelude::*;

verus! {

/// A laid-out table whose bytes do not depend on the file: every pass
/// writes the same content at the start of the window.
pub struct LayoutedContent {
    reservation: Reservation,
    requires_another_pass: bool,
    tag: [u8; 4],
    content: Vec<u8>,
}

impl LayoutedTable for LayoutedContent {
    closed spec fn reservation_spec(&self) -> ReservationView {
        self.reservation@
    }

    closed spec fn tag_spec(&self) -> Seq<u8> {
        self.tag@
    }

    closed spec fn state(&self) -> PassState {
        PassState {
            pending: self.requires_another_pass,
            remembered: None,
            parts: Seq::empty(),
        }
    }

    closed spec fn step(
        &self,
        state: PassState,
        windows: Seq<Seq<u8>>,
        current_file: Seq<u8>,
    ) -> Step {
        plain_step(self.reservation@, self.content@, windows)
    }

    closed spec fn placed_in(&self, windows: Seq<Seq<u8>>) -> bool {
        self.reservation@.placed_in(windows)
    }

    fn tag(&self) -> (tag: [u8; 4]) {
        self.tag
    }

    fn reservation(&self) -> (reservation: &Reservation) {
        &self.reservation
    }

    fn requires_another_pass(&self) -> (pending: bool) {
        self.requires_another_pass
    }

    fn pass(&mut self, layouter: &mut Layouter, current_file: &[u8]) -> (result: Result<
        (),
        LayoutError,
    >) {
        assert(continues(layouter@.windows, layouter@.windows));
        assert(self.placed_in(layouter@.windows));
        self.requires_another_pass = false;
        let mut writer = self.reservation.writer();
        let result = writer.write_all(layouter, self.content.as_slice());
        proof {
            assert(continues(layouter@.windows, old(layouter)@.windows));
            assert forall|w: Seq<Seq<u8>>| continues(w, layouter@.windows) implies #[trigger]
                self.placed_in(w) by {
                lemma_continues_trans(w, layouter@.windows, old(layouter)@.windows);
                assert(old(self).placed_in(w));
            }
        }
        result
    }
}

/// Whether one window of `size` bytes fits at `place`.
pub open spec fn content_fits(size: nat, place: Place) -> bool {
    place.offset + aligned(size, place.alignment) <= usize::MAX
}

/// Whether one window of `size` bytes fits on `layouter` as it stands.
pub fn content_fits_in(layouter: &Layouter, size: usize) -> (fits: bool)
    requires
        layouter.wf(),
    ensures
        fits == content_fits(size as nat, layouter@.place()),
{
    let alignment = layouter.alignment();
    let padding = (alignment - size % alignment) % alignment;
    let length = layouter.current_length();
    padding <= usize::MAX - size && size + padding <= usize::MAX - length
}

/// `boxed` describes a table under `tag` with a window of `size` bytes
/// whose every pass writes `content`; it can be laid out where `ready`
/// holds and the window fits.
pub open spec fn is_content_table(
    boxed: LayoutableTableBox,
    tag: Seq<u8>,
    size: nat,
    ready: bool,
    content: Seq<u8>,
) -> bool {
    &&& boxed.table.tag_spec() == tag
    &&& boxed.table.size() == size
    &&& forall|place: Place| #[trigger]
        boxed.table.fits(place) == (ready && content_fits(size, place))
    &&& forall|place: Place, s: PassState, w: Seq<Seq<u8>>, f: Seq<u8>| #[trigger]
        boxed.table.step_at(place, s, w, f) == plain_step(place.reservation(size), content, w)
}

/// Reserves one window of `size` bytes for a table that writes `content`
/// in every pass, and hands out the laid-out table.
pub fn layout_content(
    layouter: &mut Layouter,
    tag: [u8; 4],
    size: usize,
    content: Vec<u8>,
) -> (laid: LayoutedTableBox)
    requires
        old(layouter).wf(),
        content_fits(size as nat, old(layouter)@.place()),
    ensures
        final(layouter).wf(),
        final(layouter)@.alignment == old(layouter)@.alignment,
        final(layouter)@.windows == old(layouter)@.windows.push(
            zeros(aligned(size as nat, old(layouter)@.alignment)),
        ),
        forall|w: Seq<Seq<u8>>|
            continues(w, final(layouter)@.windows) ==> #[trigger] laid.table.placed_in(w),
        laid.table.reservation_spec() == old(layouter)@.place().reservation(size as nat),
        laid.table.reservation_spec().placed_in(final(layouter)@.windows),
        laid.table.tag_spec() == tag@,
        tag@.len() == 4,
        laid.table.state() == PassState::fresh(),
        forall|s: PassState, w: Seq<Seq<u8>>, f: Seq<u8>| #[trigger]
            laid.table.step(s, w, f) == plain_step(
                old(layouter)@.place().reservation(size as nat),
                content@,
                w,
            ),
{
    let reservation = layouter.reserve(size);
    let table = LayoutedContent { reservation, requires_another_pass: true, tag, content };
    proof {
        assert forall|w: Seq<Seq<u8>>| continues(w, layouter@.windows) implies #[trigger]
            table.placed_in(w) by {
            lemma_placed_in_continues(reservation@, layouter@.windows, w);
        }
    }
    LayoutedTableBox { table: Box::new(table) }
}

} // verus!
