use font_generator::layout::{
    LayoutError, Layouter, PassState, Place, Reservation, ReservationView, Step,
};
use vstd::prelude::{nat, Seq};
use font_generator::open_type::driver::generate;
use font_generator::open_type::file::{
    File, LayoutableTable, LayoutableTableBox, LayoutedTable, LayoutedTableBox,
};
use font_generator::open_type::tables::maxp::MaxP;

struct Restless {
    tag: [u8; 4],
}

struct LayoutedRestless {
    tag: [u8; 4],
    reservation: Reservation,
    counter: u8,
}

impl LayoutableTable for Restless {
    fn tag_spec(&self) -> Seq<u8> {
        unreachable!()
    }

    fn size(&self) -> nat {
        unreachable!()
    }

    fn fits(&self, _: Place) -> bool {
        unreachable!()
    }

    fn step_at(&self, _: Place, _: PassState, _: Seq<Seq<u8>>, _: Seq<u8>) -> Step {
        unreachable!()
    }

    fn tag(&self) -> [u8; 4] {
        self.tag
    }

    fn fits_in(&self, _layouter: &Layouter) -> bool {
        true
    }

    fn layout(&self, layouter: &mut Layouter) -> LayoutedTableBox {
        let reservation = layouter.reserve(1);
        LayoutedTableBox {
            table: Box::new(LayoutedRestless { tag: self.tag, reservation, counter: 0 }),
        }
    }
}

impl LayoutedTable for LayoutedRestless {
    fn reservation_spec(&self) -> ReservationView {
        unreachable!()
    }

    fn tag_spec(&self) -> Seq<u8> {
        unreachable!()
    }

    fn state(&self) -> PassState {
        unreachable!()
    }

    fn step(&self, _: PassState, _: Seq<Seq<u8>>, _: Seq<u8>) -> Step {
        unreachable!()
    }

    fn placed_in(&self, _: Seq<Seq<u8>>) -> bool {
        unreachable!()
    }

    fn tag(&self) -> [u8; 4] {
        self.tag
    }

    fn reservation(&self) -> &Reservation {
        &self.reservation
    }

    fn requires_another_pass(&self) -> bool {
        true
    }

    fn pass(&mut self, layouter: &mut Layouter, _current_file: &[u8]) -> Result<(), LayoutError> {
        self.counter = self.counter.wrapping_add(1);
        self.reservation.writer().write_all(layouter, &[self.counter])
    }
}

struct Broken;

struct LayoutedBroken {
    reservation: Reservation,
}

impl LayoutableTable for Broken {
    fn tag_spec(&self) -> Seq<u8> {
        unreachable!()
    }

    fn size(&self) -> nat {
        unreachable!()
    }

    fn fits(&self, _: Place) -> bool {
        unreachable!()
    }

    fn step_at(&self, _: Place, _: PassState, _: Seq<Seq<u8>>, _: Seq<u8>) -> Step {
        unreachable!()
    }

    fn tag(&self) -> [u8; 4] {
        *b"brok"
    }

    fn fits_in(&self, _layouter: &Layouter) -> bool {
        true
    }

    fn layout(&self, layouter: &mut Layouter) -> LayoutedTableBox {
        let reservation = layouter.reserve(2);
        LayoutedTableBox { table: Box::new(LayoutedBroken { reservation }) }
    }
}

impl LayoutedTable for LayoutedBroken {
    fn reservation_spec(&self) -> ReservationView {
        unreachable!()
    }

    fn tag_spec(&self) -> Seq<u8> {
        unreachable!()
    }

    fn state(&self) -> PassState {
        unreachable!()
    }

    fn step(&self, _: PassState, _: Seq<Seq<u8>>, _: Seq<u8>) -> Step {
        unreachable!()
    }

    fn placed_in(&self, _: Seq<Seq<u8>>) -> bool {
        unreachable!()
    }

    fn tag(&self) -> [u8; 4] {
        *b"brok"
    }

    fn reservation(&self) -> &Reservation {
        &self.reservation
    }

    fn requires_another_pass(&self) -> bool {
        true
    }

    fn pass(&mut self, layouter: &mut Layouter, _current_file: &[u8]) -> Result<(), LayoutError> {
        self.reservation.writer().write_all(layouter, b"too long")
    }
}

#[test]
fn a_table_that_never_settles_ends_the_run_after_the_limit() {
    let file = File::new_with_tables(vec![
        LayoutableTableBox { table: Box::new(Restless { tag: *b"zzzz" }) },
        MaxP { number_of_glyphs: 1 }.boxed(),
        LayoutableTableBox { table: Box::new(Restless { tag: *b"aaaa" }) },
    ]);

    let result = generate(&file);

    match result {
        Err(LayoutError::NonConvergence(tags)) => assert_eq!(tags, vec![*b"aaaa", *b"zzzz"]),
        other => panic!("the run ended otherwise: {:?}", other),
    }
}

#[test]
fn a_table_that_writes_past_its_window_fails_the_run() {
    let file = File::new_with_tables(vec![
        MaxP { number_of_glyphs: 1 }.boxed(),
        LayoutableTableBox { table: Box::new(Broken) },
    ]);

    assert!(matches!(generate(&file), Err(LayoutError::OutOfBounds)));
}
