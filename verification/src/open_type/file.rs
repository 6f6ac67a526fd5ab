//! The font file: a directory of tables in tag order, followed by the
//! tables' bytes.

use crate::bytes::ByteSink;
use crate::checksum::{checksum32, checksum32_spec};
use crate::layout::{
    aligned, concat, continues, lemma_continues_trans, lemma_ok_is_unit,
    lemma_placed_in_continues, lemma_same_shape_len, part_of, same_shape, written, zero_windows,
    zeros, LayoutError, Layoutable, Layouted, Layouter, PassState, Place, Reservation,
    ReservationView, Step,
};
use crate::open_type::content::content_fits_in;
use crate::open_type::directory::{
    ascending, directory_bytes, entries_bytes, entry_at, entry_bytes, header_bytes,
    lemma_entry_at, lemma_entry_in_entries, put_entry, put_header, tag_before_or_equal, tag_le,
    tag_views,
    DirectoryEntry, SFNTVersion,
};
use vstd::prelude::*;

verus! {

/// A laid-out table: an object that fills its window pass by pass, as a
/// `Layouted` does, and has the tag that the directory lists it under.
pub trait LayoutedTable {
    /// The window that the table fills. No pass changes it.
    spec fn reservation_spec(&self) -> ReservationView;

    /// The table's tag. No pass changes it.
    spec fn tag_spec(&self) -> Seq<u8>;

    /// What the table keeps from pass to pass.
    spec fn state(&self) -> PassState;

    /// What a pass does, given the state, the arena's windows and the file
    /// as it stood before the sweep. No pass changes this function.
    spec fn step(&self, state: PassState, windows: Seq<Seq<u8>>, current_file: Seq<u8>) -> Step;

    /// What the table needs of the arena to run a pass: that its window is
    /// a window of the arena.
    spec fn placed_in(&self, windows: Seq<Seq<u8>>) -> bool;

    /// The table's tag.
    fn tag(&self) -> (tag: [u8; 4])
        ensures
            tag@ == self.tag_spec(),
    ;

    /// The table's window.
    fn reservation(&self) -> (reservation: &Reservation)
        ensures
            reservation@ == self.reservation_spec(),
    ;

    /// Whether the bytes written so far may still change.
    fn requires_another_pass(&self) -> (pending: bool)
        ensures
            pending == self.state().requires_pass(),
    ;

    /// Writes the table's bytes into its window. `current_file` is the
    /// whole file as it stood before the sweep began.
    fn pass(&mut self, layouter: &mut Layouter, current_file: &[u8]) -> (result: Result<
        (),
        LayoutError,
    >)
        requires
            old(layouter).wf(),
            forall|w: Seq<Seq<u8>>|
                continues(w, old(layouter)@.windows) ==> #[trigger] old(self).placed_in(w),
            current_file@.len() == old(layouter)@.file().len(),
        ensures
            final(layouter).wf(),
            final(layouter)@.same_layout(old(layouter)@),
            forall|w: Seq<Seq<u8>>|
                continues(w, final(layouter)@.windows) ==> #[trigger] final(self).placed_in(w),
            final(self).reservation_spec() == old(self).reservation_spec(),
            final(self).tag_spec() == old(self).tag_spec(),
            forall|s: PassState, w: Seq<Seq<u8>>, f: Seq<u8>| #[trigger]
                final(self).step(s, w, f) == old(self).step(s, w, f),
            final(self).state() == old(self).step(
                old(self).state(),
                old(layouter)@.windows,
                current_file@,
            ).state,
            final(layouter)@.windows == old(self).step(
                old(self).state(),
                old(layouter)@.windows,
                current_file@,
            ).windows,
            result == old(self).step(
                old(self).state(),
                old(layouter)@.windows,
                current_file@,
            ).outcome,
    ;
}

/// A laid-out table of any kind: what the layout of a table hands out.
pub struct LayoutedTableBox {
    /// The laid-out table.
    pub table: Box<dyn LayoutedTable>,
}

/// A table's description of any kind: what a file is made of.
pub struct LayoutableTableBox {
    /// The description.
    pub table: Box<dyn LayoutableTable>,
}

/// A table's description: it can be laid out, as a `Layoutable` can, and
/// names the table's tag.
pub trait LayoutableTable {
    /// The table's tag.
    spec fn tag_spec(&self) -> Seq<u8>;

    /// The number of bytes asked for the table's window.
    spec fn size(&self) -> nat;

    /// Whether the table can be laid out at `place`: its window fits below
    /// the greatest length that the machine can count.
    spec fn fits(&self, place: Place) -> bool;

    /// What a pass of the table laid out at `place` does.
    spec fn step_at(
        &self,
        place: Place,
        state: PassState,
        windows: Seq<Seq<u8>>,
        current_file: Seq<u8>,
    ) -> Step;

    /// The table's tag.
    fn tag(&self) -> (tag: [u8; 4])
        ensures
            tag@ == self.tag_spec(),
    ;

    /// Whether the table can be laid out on `layouter` as it stands.
    fn fits_in(&self, layouter: &Layouter) -> (fits: bool)
        requires
            layouter.wf(),
        ensures
            fits == self.fits(layouter@.place()),
    ;

    /// Reserves the table's window and hands out the object that fills it.
    fn layout(&self, layouter: &mut Layouter) -> (laid: LayoutedTableBox)
        requires
            old(layouter).wf(),
            self.fits(old(layouter)@.place()),
        ensures
            final(layouter).wf(),
            final(layouter)@.alignment == old(layouter)@.alignment,
            final(layouter)@.windows == old(layouter)@.windows.push(
                zeros(aligned(self.size(), old(layouter)@.alignment)),
            ),
            forall|w: Seq<Seq<u8>>|
                continues(w, final(layouter)@.windows) ==> #[trigger] laid.table.placed_in(w),
            laid.table.reservation_spec() == old(layouter)@.place().reservation(self.size()),
            laid.table.reservation_spec().placed_in(final(layouter)@.windows),
            laid.table.tag_spec() == self.tag_spec(),
            self.tag_spec().len() == 4,
            laid.table.state() == PassState::fresh(),
            forall|s: PassState, w: Seq<Seq<u8>>, f: Seq<u8>| #[trigger]
                laid.table.step(s, w, f) == self.step_at(old(layouter)@.place(), s, w, f),
    ;
}

/// The tags of the descriptions, in their order.
pub open spec fn tags_of(tables: Seq<LayoutableTableBox>) -> Seq<Seq<u8>> {
    Seq::new(tables.len(), |i: int| tables[i].table.tag_spec())
}

/// `to` holds the tables of `from` in another order: `to[i]` is
/// `from[order[i]]`, every table of `from` is taken once, and tables of
/// equal tag keep the order that they had.
pub open spec fn arranges(
    order: Seq<int>,
    from: Seq<LayoutableTableBox>,
    to: Seq<LayoutableTableBox>,
) -> bool {
    &&& order.len() == from.len()
    &&& to.len() == from.len()
    &&& forall|i: int|
        0 <= i < to.len() ==> 0 <= #[trigger] order[i] < from.len() && to[i] == from[order[i]]
    &&& forall|i: int, j: int|
        0 <= i < j < order.len() ==> #[trigger] order[i] != #[trigger] order[j]
    &&& forall|i: int, j: int|
        0 <= i < j < to.len() && (#[trigger] to[i]).table.tag_spec() == (
        #[trigger] to[j]).table.tag_spec()
            ==> order[i] < order[j]
}

/// The description of a font file: its tables, in the order of their tags.
pub struct File {
    sfnt_version: SFNTVersion,
    tables: Vec<LayoutableTableBox>,
}

impl File {
    /// The tables' descriptions, in directory order.
    pub closed spec fn tables(&self) -> Seq<LayoutableTableBox> {
        self.tables@
    }

    /// The container format that the file announces.
    pub closed spec fn version(&self) -> SFNTVersion {
        self.sfnt_version
    }

    /// The tags stand in ascending order.
    pub open spec fn wf(&self) -> bool {
        ascending(tags_of(self.tables()))
    }

    /// A file of the given tables, which announces OpenType. The tables are
    /// put in the order of their tags; tables of equal tag keep their order.
    pub fn new_with_tables(tables: Vec<LayoutableTableBox>) -> (file: Self)
        ensures
            file.wf(),
            file.version() == SFNTVersion::OpenType,
            exists|order: Seq<int>| arranges(order, tables@, file.tables()),
    {
        let ghost given = tables@;
        let mut rest = tables;
        let mut sorted: Vec<LayoutableTableBox> = Vec::new();
        let ghost mut order: Seq<int> = Seq::empty();
        while rest.len() > 0
            invariant
                ascending(tags_of(sorted@)),
                order.len() == sorted@.len(),
                sorted@.len() + rest@.len() == given.len(),
                forall|k: int| 0 <= k < rest@.len() ==> rest@[k] == given[sorted@.len() + k],
                forall|i: int|
                    0 <= i < sorted@.len() ==> 0 <= #[trigger] order[i] < sorted@.len()
                        && sorted@[i] == given[order[i]],
                forall|i: int, j: int|
                    0 <= i < j < order.len() ==> #[trigger] order[i] != #[trigger] order[j],
                forall|i: int, j: int|
                    0 <= i < j < sorted@.len() && (#[trigger] sorted@[i]).table.tag_spec() == (
                    #[trigger] sorted@[j]).table.tag_spec() ==> order[i] < order[j],
            decreases rest@.len(),
        {
            let ghost sorted_before = sorted@;
            let ghost order_before = order;
            let table = rest.remove(0);
            let tag = table.table.tag();
            let mut at: usize = sorted.len();
            while at > 0 && !tag_before_or_equal(&sorted[at - 1].table.tag(), &tag)
                invariant
                    at <= sorted@.len(),
                    sorted@ == sorted_before,
                    tag@ == table.table.tag_spec(),
                    forall|k: int|
                        at <= k < sorted@.len() ==> !tag_le(
                            (#[trigger] sorted@[k]).table.tag_spec(),
                            tag@,
                        ),
                decreases at,
            {
                at = at - 1;
            }
            sorted.insert(at, table);
            proof {
                order = order_before.insert(at as int, sorted_before.len() as int);
                assert(sorted@ == sorted_before.insert(at as int, table));
                assert(sorted@.len() == sorted_before.len() + 1);
                assert forall|k: int| 0 <= k < sorted@.len() implies #[trigger] sorted@[k] == (if k
                    < at {
                    sorted_before[k]
                } else if k == at {
                    table
                } else {
                    sorted_before[k - 1]
                }) by {}
                let before = tags_of(sorted_before);
                let after = tags_of(sorted@);
                assert(after.len() == before.len() + 1);
                assert forall|k: int| 0 <= k < after.len() implies #[trigger] after[k] == (if k
                    < at {
                    before[k]
                } else if k == at {
                    tag@
                } else {
                    before[k - 1]
                }) by {}
                assert forall|i: int, j: int| 0 <= i < j < after.len() implies tag_le(
                    #[trigger] after[i],
                    #[trigger] after[j],
                ) by {
                    if j < at {
                        assert(tag_le(before[i], before[j]));
                    } else if j == at {
                        if at > 0 {
                            assert(tag_le(before[at - 1], tag@));
                            if i < at - 1 {
                                assert(tag_le(before[i], before[at - 1]));
                            }
                        }
                    } else if i < at {
                        assert(tag_le(before[i], before[j - 1]));
                    } else if i == at {
                        assert(!tag_le(sorted_before[j - 1].table.tag_spec(), tag@));
                    } else {
                        assert(tag_le(before[i - 1], before[j - 1]));
                    }
                }
                assert forall|i: int, j: int|
                    0 <= i < j < sorted@.len() && (#[trigger] sorted@[i]).table.tag_spec() == (
                    #[trigger] sorted@[j]).table.tag_spec() implies order[i] < order[j] by {
                    if i == at {
                        assert(!tag_le(sorted_before[j - 1].table.tag_spec(), tag@));
                    } else if j == at {
                    } else {
                        let i0 = if i < at { i } else { i - 1 };
                        let j0 = if j < at { j } else { j - 1 };
                        assert(sorted_before[i0].table.tag_spec() == sorted_before[j0].table.tag_spec());
                    }
                }
            }
        }
        proof {
            assert(arranges(order, given, sorted@));
        }
        File { sfnt_version: SFNTVersion::OpenType, tables: sorted }
    }

    /// The same file announcing the container format `version`.
    pub fn with_sfnt_version(self, version: SFNTVersion) -> (file: Self)
        ensures
            file.version() == version,
            file.tables() == self.tables(),
    {
        File { sfnt_version: version, tables: self.tables }
    }

    /// The number of tables.
    pub fn table_count(&self) -> (count: usize)
        ensures
            count == self.tables().len(),
    {
        self.tables.len()
    }
}

/// What the file knows of a laid-out table: its tag, its window and what a
/// pass of it does.
#[verifier::ext_equal]
pub struct TableModel {
    /// The table's tag.
    pub tag: Seq<u8>,
    /// The table's window.
    pub reservation: ReservationView,
    /// What a pass of the table does.
    pub step: spec_fn(PassState, Seq<Seq<u8>>, Seq<u8>) -> Step,
}

/// The directory entries of the tables, read off the windows.
pub open spec fn entries_of(tables: Seq<TableModel>, windows: Seq<Seq<u8>>) -> Seq<
    DirectoryEntry,
> {
    Seq::new(
        tables.len(),
        |i: int|
            DirectoryEntry {
                tag: tables[i].tag,
                checksum: checksum32_spec(windows[tables[i].reservation.index as int]),
                offset: tables[i].reservation.offset,
                length: tables[i].reservation.unpadded_len,
            },
    )
}

/// The checksums of the entries.
pub open spec fn checksums_of(entries: Seq<DirectoryEntry>) -> Seq<u32> {
    Seq::new(entries.len(), |i: int| entries[i].checksum)
}

/// What the passes of the first tables leave behind.
pub struct Sweep {
    /// The tables' states.
    pub parts: Seq<PassState>,
    /// The arena's windows.
    pub windows: Seq<Seq<u8>>,
    /// `Ok`, or the error of the first pass that failed.
    pub outcome: Result<(), LayoutError>,
}

/// The passes of the first `upto` tables, in directory order, each on the
/// windows that the one before left. The first failure ends the sweep.
pub open spec fn sweep(
    tables: Seq<TableModel>,
    parts: Seq<PassState>,
    windows: Seq<Seq<u8>>,
    current_file: Seq<u8>,
    upto: nat,
) -> Sweep
    decreases upto,
{
    if upto == 0 {
        Sweep { parts, windows, outcome: Ok(()) }
    } else {
        let before = sweep(tables, parts, windows, current_file, (upto - 1) as nat);
        if before.outcome is Err {
            before
        } else {
            let step = (tables[upto - 1].step)(parts[upto - 1], before.windows, current_file);
            Sweep {
                parts: before.parts.update(upto - 1, step.state),
                windows: step.windows,
                outcome: step.outcome,
            }
        }
    }
}

/// The flag of the file itself after a sweep that ended well: set after
/// the first sweep, cleared once the checksums are those of the sweep
/// before, and otherwise left as it was.
pub open spec fn file_pending(state: PassState, sums: Seq<u32>) -> bool {
    match state.remembered {
        None => true,
        Some(previous) => if previous == sums {
            false
        } else {
            state.pending
        },
    }
}

/// What a pass of a file does: the tables pass in directory order, then
/// the header and the directory are written into the file's own window,
/// with the checksums of the tables' windows as the passes left them. A
/// file of no table, or of more than 4095, is malformed.
pub open spec fn file_step(
    version: SFNTVersion,
    reservation: ReservationView,
    tables: Seq<TableModel>,
    state: PassState,
    windows: Seq<Seq<u8>>,
    current_file: Seq<u8>,
) -> Step {
    let swept = sweep(tables, state.parts, windows, current_file, tables.len());
    let kept = PassState { pending: state.pending, remembered: state.remembered, parts: swept.parts };
    let entries = entries_of(tables, swept.windows);
    let directory = directory_bytes(version, entries);
    let filled = swept.windows.update(
        reservation.index as int,
        written(swept.windows[reservation.index as int], 0, directory),
    );
    if swept.outcome is Err {
        Step { state: kept, windows: swept.windows, outcome: swept.outcome }
    } else if tables.len() == 0 || tables.len() > 4095 {
        Step {
            state: kept,
            windows: swept.windows,
            outcome: Err(LayoutError::MalformedDescription),
        }
    } else if directory.len() > reservation.len {
        Step { state: kept, windows: filled, outcome: Err(LayoutError::OutOfBounds) }
    } else {
        Step {
            state: PassState {
                pending: file_pending(state, checksums_of(entries)),
                remembered: Some(checksums_of(entries)),
                parts: swept.parts,
            },
            windows: filled,
            outcome: Ok(()),
        }
    }
}

/// The file's own window starts with the header and the directory of the
/// tables as their windows stand.
pub open spec fn directory_holds(
    version: SFNTVersion,
    directory: ReservationView,
    tables: Seq<TableModel>,
    windows: Seq<Seq<u8>>,
) -> bool {
    &&& 1 <= tables.len() <= 4095
    &&& 12 + 16 * tables.len() <= directory.len
    &&& windows[directory.index as int].take((12 + 16 * tables.len()) as int) == directory_bytes(
        version,
        entries_of(tables, windows),
    )
}

/// The models of laid-out tables.
pub open spec fn models_of(tables: Seq<LayoutedTableBox>) -> Seq<TableModel> {
    Seq::new(
        tables.len(),
        |i: int|
            TableModel {
                tag: tables[i].table.tag_spec(),
                reservation: tables[i].table.reservation_spec(),
                step: |s: PassState, w: Seq<Seq<u8>>, f: Seq<u8>| tables[i].table.step(s, w, f),
            },
    )
}

/// The states of laid-out tables.
pub open spec fn states_of(tables: Seq<LayoutedTableBox>) -> Seq<PassState> {
    Seq::new(tables.len(), |i: int| tables[i].table.state())
}

/// A laid-out file: the window of header and directory, and the laid-out
/// tables in directory order.
pub struct LayoutedFile {
    sfnt_version: SFNTVersion,
    requires_pass: bool,
    checksums: Option<Vec<u32>>,
    reservation: Reservation,
    tables: Vec<LayoutedTableBox>,
}

impl LayoutedFile {
    /// The number of bytes of header and directory.
    pub open spec fn directory_size(&self) -> nat {
        12 + 16 * self.tables().len()
    }

    /// The container format that the file announces.
    pub closed spec fn version(&self) -> SFNTVersion {
        self.sfnt_version
    }

    /// The laid-out tables, in directory order.
    pub closed spec fn tables(&self) -> Seq<LayoutedTableBox> {
        self.tables@
    }

    /// The file's own flag.
    pub closed spec fn own_pending(&self) -> bool {
        self.requires_pass
    }

    /// The checksums that the last sweep wrote, if there was one.
    pub closed spec fn written_checksums(&self) -> Option<Seq<u32>> {
        match self.checksums {
            None => None,
            Some(sums) => Some(sums@),
        }
    }

    /// The window of header and directory.
    pub closed spec fn directory(&self) -> ReservationView {
        self.reservation@
    }

    /// The tables as the file knows them.
    pub open spec fn models(&self) -> Seq<TableModel> {
        models_of(self.tables())
    }
}

/// Every table's window is a window of the arena, and none is the file's
/// own.
pub open spec fn tables_placed(
    tables: Seq<LayoutedTableBox>,
    directory: ReservationView,
    windows: Seq<Seq<u8>>,
) -> bool {
    forall|i: int|
        0 <= i < tables.len() ==> {
            &&& (#[trigger] tables[i]).table.placed_in(windows)
            &&& tables[i].table.reservation_spec().placed_in(windows)
            &&& tables[i].table.reservation_spec().index != directory.index
        }
}

impl Layouted for LayoutedFile {
    open spec fn reservation_spec(&self) -> ReservationView {
        self.directory()
    }

    open spec fn state(&self) -> PassState {
        PassState {
            pending: self.own_pending(),
            remembered: self.written_checksums(),
            parts: states_of(self.tables()),
        }
    }

    open spec fn step(
        &self,
        state: PassState,
        windows: Seq<Seq<u8>>,
        current_file: Seq<u8>,
    ) -> Step {
        file_step(self.version(), self.directory(), self.models(), state, windows, current_file)
    }

    open spec fn placed_in(&self, windows: Seq<Seq<u8>>) -> bool {
        &&& self.directory().placed_in(windows)
        &&& tables_placed(self.tables(), self.directory(), windows)
    }

    fn reservation(&self) -> (reservation: &Reservation) {
        &self.reservation
    }

    fn requires_another_pass(&self) -> (pending: bool) {
        if self.requires_pass {
            return true;
        }
        let mut i: usize = 0;
        while i < self.tables.len()
            invariant
                i <= self.tables@.len(),
                forall|k: int| 0 <= k < i ==> !(#[trigger] self.state().parts[k]).requires_pass(),
            decreases self.tables@.len() - i,
        {
            if self.tables[i].table.requires_another_pass() {
                assert(self.state().parts[i as int].requires_pass());
                return true;
            }
            i += 1;
        }
        false
    }

    fn pass(&mut self, layouter: &mut Layouter, current_file: &[u8]) -> (result: Result<
        (),
        LayoutError,
    >)
        ensures
            final(self).version() == old(self).version(),
            final(self).models() == old(self).models(),
            result is Ok ==> directory_holds(
                final(self).version(),
                final(self).directory(),
                final(self).models(),
                final(layouter)@.windows,
            ),
    {
        let ghost given = layouter@.windows;
        proof {
            assert(continues(given, given));
            assert(self.placed_in(given));
            lemma_tables_ready(self, given);
        }
        let swept = sweep_tables(&mut self.tables, layouter, current_file);
        proof {
            lemma_tables_placed(
                old(self).tables(),
                self.tables(),
                self.directory(),
                given,
                layouter@.windows,
            );
            lemma_file_placed(self, layouter@.windows);
        }
        match swept {
            Ok(_) => {},
            Err(error) => {
                return Err(error);
            },
        }
        let count = self.tables.len();
        if count == 0 || count > 4095 {
            return Err(LayoutError::MalformedDescription);
        }
        let ghost swept = layouter@.windows;
        let (directory, sums) = build_directory(self.sfnt_version, &self.tables, layouter);
        let mut writer = self.reservation.writer();
        let wrote = writer.write_all(layouter, directory.as_slice());
        proof {
            lemma_tables_ready_continues(self.tables(), swept, layouter@.windows);
            lemma_tables_placed(
                self.tables(),
                self.tables(),
                self.directory(),
                swept,
                layouter@.windows,
            );
            lemma_file_placed(self, layouter@.windows);
        }
        match wrote {
            Ok(_) => {},
            Err(error) => {
                return Err(error);
            },
        }
        let cleared = match &self.checksums {
            None => false,
            Some(previous) => same_sums(previous, &sums),
        };
        if self.checksums.is_none() {
            self.requires_pass = true;
        } else if cleared {
            self.requires_pass = false;
        }
        self.checksums = Some(sums);
        proof {
            lemma_file_placed(self, layouter@.windows);
            assert(entries_of(self.models(), layouter@.windows) =~= entries_of(
                self.models(),
                swept,
            ));
            assert(layouter@.windows[self.directory().index as int].take(
                self.directory_size() as int,
            ) =~= directory@);
        }
        Ok(())
    }
}

/// Every table stays placed in whatever continues `windows`.
pub open spec fn tables_ready(tables: Seq<LayoutedTableBox>, windows: Seq<Seq<u8>>) -> bool {
    forall|k: int, w: Seq<Seq<u8>>|
        0 <= k < tables.len() && continues(w, windows) ==> #[trigger] tables[k].table.placed_in(w)
}

/// The tables of a placed file are ready.
proof fn lemma_tables_ready(file: &LayoutedFile, windows: Seq<Seq<u8>>)
    requires
        forall|w: Seq<Seq<u8>>| continues(w, windows) ==> #[trigger] file.placed_in(w),
    ensures
        tables_ready(file.tables(), windows),
        tables_placed(file.tables(), file.directory(), windows),
        file.directory().placed_in(windows),
{
    assert(continues(windows, windows));
    assert(file.placed_in(windows));
    assert forall|k: int, w: Seq<Seq<u8>>|
        0 <= k < file.tables().len() && continues(w, windows) implies #[trigger] file.tables()[k].table.placed_in(
        w,
    ) by {
        assert(file.placed_in(w));
        assert(tables_placed(file.tables(), file.directory(), w));
        assert(file.tables()[k].table.placed_in(w));
    }
}

/// Tables with the same windows as before stay placed when only the bytes
/// in the arena's windows change.
proof fn lemma_tables_placed(
    before: Seq<LayoutedTableBox>,
    after: Seq<LayoutedTableBox>,
    directory: ReservationView,
    a: Seq<Seq<u8>>,
    b: Seq<Seq<u8>>,
)
    requires
        tables_placed(before, directory, a),
        directory.placed_in(a),
        models_of(after) == models_of(before),
        tables_ready(after, b),
        same_shape(b, a),
    ensures
        tables_placed(after, directory, b),
        directory.placed_in(b),
{
    assert(after.len() == models_of(after).len());
    assert(before.len() == models_of(before).len());
    lemma_placed_in_continues(directory, a, b);
    assert(continues(b, b));
    assert forall|i: int| 0 <= i < after.len() implies {
        &&& (#[trigger] after[i]).table.placed_in(b)
        &&& after[i].table.reservation_spec().placed_in(b)
        &&& after[i].table.reservation_spec().index != directory.index
    } by {
        assert(models_of(after)[i].reservation == models_of(before)[i].reservation);
        assert(models_of(after)[i].reservation == after[i].table.reservation_spec());
        assert(models_of(before)[i].reservation == before[i].table.reservation_spec());
        assert(before[i].table.placed_in(a));
        assert(before[i].table.reservation_spec().placed_in(a));
        assert(before[i].table.reservation_spec().index != directory.index);
        lemma_placed_in_continues(before[i].table.reservation_spec(), a, b);
        assert(after[i].table.placed_in(b));
    }
}

/// Ready tables stay ready when the bytes in the windows change and when
/// windows are added behind.
proof fn lemma_tables_ready_continues(
    tables: Seq<LayoutedTableBox>,
    a: Seq<Seq<u8>>,
    b: Seq<Seq<u8>>,
)
    requires
        tables_ready(tables, a),
        continues(b, a),
    ensures
        tables_ready(tables, b),
{
    assert forall|k: int, w: Seq<Seq<u8>>|
        0 <= k < tables.len() && continues(w, b) implies #[trigger] tables[k].table.placed_in(
        w,
    ) by {
        lemma_continues_trans(w, b, a);
    }
}

/// A file whose tables are ready and placed is placed in whatever
/// continues the windows.
proof fn lemma_file_placed(file: &LayoutedFile, windows: Seq<Seq<u8>>)
    requires
        file.directory().placed_in(windows),
        tables_placed(file.tables(), file.directory(), windows),
        tables_ready(file.tables(), windows),
    ensures
        forall|w: Seq<Seq<u8>>| continues(w, windows) ==> #[trigger] file.placed_in(w),
{
    assert forall|w: Seq<Seq<u8>>| continues(w, windows) implies #[trigger] file.placed_in(
        w,
    ) by {
        lemma_placed_in_continues(file.directory(), windows, w);
        assert forall|i: int| 0 <= i < file.tables().len() implies {
            &&& (#[trigger] file.tables()[i]).table.placed_in(w)
            &&& file.tables()[i].table.reservation_spec().placed_in(w)
            &&& file.tables()[i].table.reservation_spec().index != file.directory().index
        } by {
            lemma_placed_in_continues(file.tables()[i].table.reservation_spec(), windows, w);
        }
    }
}

/// Runs the pass of table `index`.
fn pass_one(
    tables: &mut Vec<LayoutedTableBox>,
    index: usize,
    layouter: &mut Layouter,
    current_file: &[u8],
) -> (result: Result<(), LayoutError>)
    requires
        index < old(tables)@.len(),
        old(layouter).wf(),
        tables_ready(old(tables)@, old(layouter)@.windows),
        current_file@.len() == old(layouter)@.file().len(),
    ensures
        final(layouter).wf(),
        final(layouter)@.same_layout(old(layouter)@),
        final(tables)@.len() == old(tables)@.len(),
        models_of(final(tables)@) == models_of(old(tables)@),
        tables_ready(final(tables)@, final(layouter)@.windows),
        states_of(final(tables)@) == states_of(old(tables)@).update(
            index as int,
            (models_of(old(tables)@)[index as int].step)(
                states_of(old(tables)@)[index as int],
                old(layouter)@.windows,
                current_file@,
            ).state,
        ),
        final(layouter)@.windows == (models_of(old(tables)@)[index as int].step)(
            states_of(old(tables)@)[index as int],
            old(layouter)@.windows,
            current_file@,
        ).windows,
        result == (models_of(old(tables)@)[index as int].step)(
            states_of(old(tables)@)[index as int],
            old(layouter)@.windows,
            current_file@,
        ).outcome,
{
    let ghost given = layouter@.windows;
    let ghost before = tables@;
    let result = tables[index].table.pass(layouter, current_file);
    proof {
        let after = tables@;
        assert(after.len() == before.len());
        assert forall|k: int| 0 <= k < after.len() && k != index implies after[k] == before[k] by {}
        assert(models_of(after) =~~= models_of(before)) by {
            assert forall|k: int| 0 <= k < after.len() implies #[trigger] models_of(after)[k]
                =~~= models_of(before)[k] by {
                if k == index {
                    assert forall|s: PassState, w: Seq<Seq<u8>>, f: Seq<u8>| #[trigger]
                        (models_of(after)[k].step)(s, w, f) == (models_of(before)[k].step)(
                            s,
                            w,
                            f,
                        ) by {
                        assert(after[k].table.step(s, w, f) == before[k].table.step(s, w, f));
                    }
                }
            }
        }
        assert(states_of(after) =~= states_of(before).update(
            index as int,
            after[index as int].table.state(),
        ));
        assert forall|k: int, w: Seq<Seq<u8>>|
            0 <= k < after.len() && continues(w, layouter@.windows) implies #[trigger] after[k].table.placed_in(
            w,
        ) by {
            if k != index {
                lemma_continues_trans(w, layouter@.windows, given);
                assert(before[k].table.placed_in(w));
            }
        }
    }
    result
}

/// Runs the passes of the tables in directory order, up to the first that
/// fails.
fn sweep_tables(tables: &mut Vec<LayoutedTableBox>, layouter: &mut Layouter, current_file: &[u8]) -> (result:
    Result<(), LayoutError>)
    requires
        old(layouter).wf(),
        tables_ready(old(tables)@, old(layouter)@.windows),
        current_file@.len() == old(layouter)@.file().len(),
    ensures
        final(layouter).wf(),
        final(layouter)@.same_layout(old(layouter)@),
        final(tables)@.len() == old(tables)@.len(),
        models_of(final(tables)@) == models_of(old(tables)@),
        tables_ready(final(tables)@, final(layouter)@.windows),
        states_of(final(tables)@) == sweep(
            models_of(old(tables)@),
            states_of(old(tables)@),
            old(layouter)@.windows,
            current_file@,
            old(tables)@.len(),
        ).parts,
        final(layouter)@.windows == sweep(
            models_of(old(tables)@),
            states_of(old(tables)@),
            old(layouter)@.windows,
            current_file@,
            old(tables)@.len(),
        ).windows,
        result == sweep(
            models_of(old(tables)@),
            states_of(old(tables)@),
            old(layouter)@.windows,
            current_file@,
            old(tables)@.len(),
        ).outcome,
{
    let ghost models = models_of(tables@);
    let ghost start = states_of(tables@);
    let ghost given = layouter@.windows;
    let count = tables.len();
    let mut i: usize = 0;
    while i < count
        invariant
            i <= count,
            count == tables@.len(),
            count == old(tables)@.len(),
            layouter.wf(),
            layouter@.same_layout(old(layouter)@),
            current_file@.len() == layouter@.file().len(),
            models == models_of(old(tables)@),
            start == states_of(old(tables)@),
            given == old(layouter)@.windows,
            models_of(tables@) == models,
            tables_ready(tables@, layouter@.windows),
            sweep(models, start, given, current_file@, i as nat).parts == states_of(tables@),
            sweep(models, start, given, current_file@, i as nat).windows == layouter@.windows,
            sweep(models, start, given, current_file@, i as nat).outcome is Ok,
            start.len() == count,
            forall|k: int| i <= k < count ==> #[trigger] states_of(tables@)[k] == start[k],
        decreases count - i,
    {
        let ghost before = states_of(tables@);
        let ghost before_windows = layouter@.windows;
        let outcome = pass_one(tables, i, layouter, current_file);
        proof {
            lemma_same_shape_len(layouter@.windows, before_windows);
            assert(same_shape(layouter@.windows, old(layouter)@.windows)) by {
                assert(same_shape(layouter@.windows, before_windows));
                assert(same_shape(before_windows, old(layouter)@.windows));
            }
            assert(before[i as int] == start[i as int]);
            assert(sweep(models, start, given, current_file@, (i + 1) as nat) == (Sweep {
                parts: states_of(tables@),
                windows: layouter@.windows,
                outcome,
            }));
            assert forall|k: int| i + 1 <= k < count implies #[trigger] states_of(tables@)[k]
                == start[k] by {
                assert(before[k] == start[k]);
            }
        }
        match outcome {
            Ok(_) => {},
            Err(error) => {
                proof {
                    lemma_sweep_failed(
                        models,
                        start,
                        given,
                        current_file@,
                        (i + 1) as nat,
                        count as nat,
                    );
                }
                return Err(error);
            },
        }
        i += 1;
    }
    proof {
        lemma_ok_is_unit(sweep(models, start, given, current_file@, count as nat).outcome);
    }
    Ok(())
}

/// The bytes of header and directory for the tables as their windows
/// stand, and the checksums that the directory lists.
fn build_directory(version: SFNTVersion, tables: &Vec<LayoutedTableBox>, layouter: &Layouter) -> (built:
    (Vec<u8>, Vec<u32>))
    requires
        layouter.wf(),
        1 <= tables@.len() <= 4095,
        forall|i: int|
            0 <= i < tables@.len() ==> (#[trigger] tables@[i]).table.reservation_spec().placed_in(
                layouter@.windows,
            ),
    ensures
        built.0@ == directory_bytes(version, entries_of(models_of(tables@), layouter@.windows)),
        built.0@.len() == 12 + 16 * tables@.len(),
        built.1@ == checksums_of(entries_of(models_of(tables@), layouter@.windows)),
{
    let count = tables.len();
    let ghost entries = entries_of(models_of(tables@), layouter@.windows);
    let mut sink = ByteSink::new();
    put_header(&mut sink, version, count as u16);
    let mut sums: Vec<u32> = Vec::new();
    let mut k: usize = 0;
    while k < count
        invariant
            k <= count,
            count == tables@.len(),
            layouter.wf(),
            entries == entries_of(models_of(tables@), layouter@.windows),
            forall|i: int|
                0 <= i < tables@.len() ==> (#[trigger] tables@[i]).table.reservation_spec().placed_in(
                    layouter@.windows,
                ),
            sink@ == header_bytes(version, count as nat) + entries_bytes(entries.take(k as int)),
            sink@.len() == 12 + 16 * k,
            sums@ == checksums_of(entries).take(k as int),
        decreases count - k,
    {
        let table = &tables[k].table;
        let tag = table.tag();
        let reservation = table.reservation();
        let mut reader = reservation.reader();
        let body = reader.read_to_end(layouter);
        let sum = checksum32(body.as_slice());
        assert(body@ =~= layouter@.windows[reservation@.index as int]);
        put_entry(&mut sink, tag, sum, reservation.offset(), reservation.unpadded_len());
        sums.push(sum);
        proof {
            assert(entries.take(k + 1).drop_last() =~= entries.take(k as int));
            assert(entries.take(k + 1).last() == entries[k as int]);
            assert(entries_bytes(entries.take(k + 1)) == entries_bytes(entries.take(k as int))
                + entry_bytes(entries[k as int]));
            assert(sink@ =~= header_bytes(version, count as nat) + entries_bytes(
                entries.take(k + 1),
            ));
            assert(sums@ =~= checksums_of(entries).take(k + 1));
        }
        k += 1;
    }
    proof {
        assert(entries.take(count as int) =~= entries);
        assert(checksums_of(entries).take(count as int) =~= checksums_of(entries));
    }
    (sink.into_bytes(), sums)
}

/// Whether two lists hold the same checksums.
pub fn same_sums(a: &Vec<u32>, b: &Vec<u32>) -> (same: bool)
    ensures
        same == (a@ == b@),
{
    if a.len() != b.len() {
        return false;
    }
    let mut i: usize = 0;
    while i < a.len()
        invariant
            i <= a@.len(),
            a@.len() == b@.len(),
            a@.take(i as int) == b@.take(i as int),
        decreases a@.len() - i,
    {
        if a[i] != b[i] {
            return false;
        }
        assert(a@.take(i + 1) =~= a@.take(i as int).push(a@[i as int]));
        assert(b@.take(i + 1) =~= b@.take(i as int).push(b@[i as int]));
        i += 1;
    }
    assert(a@.take(i as int) =~= a@);
    assert(b@.take(i as int) =~= b@);
    true
}

/// Once a pass has failed, the sweep stays as that pass left it.
pub proof fn lemma_sweep_failed(
    tables: Seq<TableModel>,
    parts: Seq<PassState>,
    windows: Seq<Seq<u8>>,
    current_file: Seq<u8>,
    failed: nat,
    upto: nat,
)
    requires
        failed <= upto,
        sweep(tables, parts, windows, current_file, failed).outcome is Err,
    ensures
        sweep(tables, parts, windows, current_file, upto) == sweep(
            tables,
            parts,
            windows,
            current_file,
            failed,
        ),
    decreases upto,
{
    if failed < upto {
        lemma_sweep_failed(tables, parts, windows, current_file, failed, (upto - 1) as nat);
    }
}

impl File {
    /// The number of bytes of header and directory.
    pub open spec fn directory_size(&self) -> nat {
        12 + 16 * self.tables().len()
    }

    /// Where table `index` is laid out when the file is laid out at `place`:
    /// behind the directory and the tables before it.
    pub open spec fn place_of(&self, place: Place, index: int) -> Place
        decreases index,
    {
        if index <= 0 {
            place.after(self.directory_size())
        } else {
            self.place_of(place, index - 1).after(self.tables()[index - 1].table.size())
        }
    }

    /// The state in which the laid-out file starts: it asks for a pass, and
    /// so does every table.
    pub open spec fn initial_state(&self) -> PassState {
        PassState {
            pending: true,
            remembered: None,
            parts: Seq::new(self.tables().len(), |i: int| PassState::fresh()),
        }
    }

    /// The tables as the file laid out at `place` knows them.
    pub open spec fn models_at(&self, place: Place) -> Seq<TableModel> {
        Seq::new(
            self.tables().len(),
            |i: int|
                TableModel {
                    tag: self.tables()[i].table.tag_spec(),
                    reservation: self.place_of(place, i).reservation(
                        self.tables()[i].table.size(),
                    ),
                    step: |s: PassState, w: Seq<Seq<u8>>, f: Seq<u8>|
                        self.tables()[i].table.step_at(self.place_of(place, i), s, w, f),
                },
        )
    }

    /// What a pass of the file laid out at `place` does.
    pub open spec fn step_at(
        &self,
        place: Place,
        state: PassState,
        windows: Seq<Seq<u8>>,
        current_file: Seq<u8>,
    ) -> Step {
        file_step(
            self.version(),
            place.reservation(self.directory_size()),
            self.models_at(place),
            state,
            windows,
            current_file,
        )
    }

    /// Tables are laid out one window after the other.
    pub proof fn lemma_place_of(&self, place: Place, index: int)
        requires
            0 <= index <= self.tables().len(),
        ensures
            self.place_of(place, index).alignment == place.alignment,
            self.place_of(place, index).index == place.index + 1 + index,
            self.place_of(place, index).offset >= place.offset,
        decreases index,
    {
        if index > 0 {
            self.lemma_place_of(place, index - 1);
        }
    }
}

impl Layoutable<LayoutedFile> for File {
    open spec fn window_lens(&self, alignment: nat) -> Seq<nat> {
        seq![aligned(self.directory_size(), alignment)] + Seq::new(
            self.tables().len(),
            |i: int| aligned(self.tables()[i].table.size(), alignment),
        )
    }

    open spec fn fits(&self, place: Place) -> bool {
        &&& place.offset + aligned(self.directory_size(), place.alignment) <= usize::MAX
        &&& forall|i: int|
            0 <= i < self.tables().len() ==> #[trigger] self.tables()[i].table.fits(
                self.place_of(place, i),
            )
    }

    fn layout(&self, layouter: &mut Layouter) -> (layouted: LayoutedFile)
        ensures
            layouted.version() == self.version(),
            layouted.directory() == old(layouter)@.place().reservation(self.directory_size()),
            layouted.state() == self.initial_state(),
            layouted.models() == self.models_at(old(layouter)@.place()),
            forall|i: int|
                0 <= i < self.tables().len() ==> (#[trigger] self.tables()[i]).table.tag_spec().len()
                    == 4,
            forall|s: PassState, w: Seq<Seq<u8>>, f: Seq<u8>| #[trigger]
                layouted.step(s, w, f) == self.step_at(old(layouter)@.place(), s, w, f),
            forall|w: Seq<Seq<u8>>|
                continues(w, final(layouter)@.windows) ==> #[trigger] layouted.placed_in(w),
    {
        match self.try_layout(layouter) {
            Some(layouted) => layouted,
            None => vstd::pervasive::unreached(),
        }
    }
}

impl File {
    /// Lays the file out as `layout` does, if it fits on `layouter`; else
    /// gives nothing, and leaves on `layouter` the windows of the tables
    /// before the first that did not fit.
    pub fn try_layout(&self, layouter: &mut Layouter) -> (laid: Option<LayoutedFile>)
        requires
            old(layouter).wf(),
        ensures
            final(layouter).wf(),
            final(layouter)@.alignment == old(layouter)@.alignment,
            continues(final(layouter)@.windows, old(layouter)@.windows),
            laid is Some <==> self.fits(old(layouter)@.place()),
            laid matches Some(layouted) ==> {
                &&& final(layouter)@.windows == old(layouter)@.windows + zero_windows(
                    self.window_lens(old(layouter)@.alignment),
                )
                &&& layouted.version() == self.version()
                &&& layouted.directory() == old(layouter)@.place().reservation(
                    self.directory_size(),
                )
                &&& layouted.state() == self.initial_state()
                &&& layouted.models() == self.models_at(old(layouter)@.place())
                &&& forall|i: int|
                    0 <= i < self.tables().len() ==> (
                    #[trigger] self.tables()[i]).table.tag_spec().len() == 4
                &&& forall|s: PassState, w: Seq<Seq<u8>>, f: Seq<u8>| #[trigger]
                    layouted.step(s, w, f) == self.step_at(old(layouter)@.place(), s, w, f)
                &&& forall|w: Seq<Seq<u8>>|
                    continues(w, final(layouter)@.windows) ==> #[trigger] layouted.placed_in(w)
            },
    {
        let ghost place = layouter@.place();
        let ghost given = layouter@.windows;
        let ghost alignment = layouter@.alignment;
        let count = self.tables.len();
        proof {
            crate::layout::lemma_aligned(self.directory_size(), alignment);
        }
        let size = match count.checked_mul(16) {
            Some(entries) => entries.checked_add(12),
            None => None,
        };
        let size = match size {
            Some(size) => size,
            None => {
                return None;
            },
        };
        if !content_fits_in(layouter, size) {
            return None;
        }
        let reservation = layouter.reserve(size);
        let mut tables: Vec<LayoutedTableBox> = Vec::new();
        let mut i: usize = 0;
        proof {
            assert(layouter@.windows =~= given + zero_windows(
                self.window_lens(alignment).take(1),
            ));
            crate::layout::lemma_concat_len(given);
            crate::layout::lemma_concat_len(layouter@.windows);
        }
        while i < count
            invariant
                i <= count,
                count == self.tables@.len(),
                tables@.len() == i,
                layouter.wf(),
                layouter@.alignment == alignment,
                place.alignment == alignment,
                place == old(layouter)@.place(),
                given == old(layouter)@.windows,
                continues(layouter@.windows, given),
                place.offset + aligned(self.directory_size(), place.alignment) <= usize::MAX,
                forall|k: int|
                    0 <= k < i ==> #[trigger] self.tables()[k].table.fits(self.place_of(place, k)),
                layouter@.place() == self.place_of(place, i as int),
                layouter@.windows == given + zero_windows(
                    self.window_lens(alignment).take(i + 1),
                ),
                reservation@ == place.reservation(self.directory_size()),
                reservation@.placed_in(layouter@.windows),
                place.index == given.len(),
                tables_ready(tables@, layouter@.windows),
                tables_placed(tables@, reservation@, layouter@.windows),
                models_of(tables@) =~~= self.models_at(place).take(i as int),
                forall|k: int| 0 <= k < i ==> (#[trigger] tables@[k]).table.state() == PassState::fresh(),
                forall|k: int|
                    0 <= k < i ==> (#[trigger] self.tables()[k]).table.tag_spec().len() == 4,
            decreases count - i,
        {
            let ghost before_windows = layouter@.windows;
            let ghost before_tables = tables@;
            proof {
                self.lemma_place_of(place, i as int);
            }
            if !self.tables[i].table.fits_in(layouter) {
                assert(!self.tables()[i as int].table.fits(self.place_of(place, i as int)));
                return None;
            }
            let laid = self.tables[i].table.layout(layouter);
            tables.push(laid);
            proof {
                let lens = self.window_lens(alignment);
                assert(lens.take(i + 2) =~= lens.take(i + 1).push(lens[i + 1]));
                assert(layouter@.windows =~= given + zero_windows(lens.take(i + 2)));
                assert(continues(layouter@.windows, before_windows));
                lemma_continues_trans(layouter@.windows, before_windows, given);
                lemma_placed_in_continues(reservation@, before_windows, layouter@.windows);
                crate::layout::lemma_concat_len(before_windows);
                crate::layout::lemma_concat_len(layouter@.windows);
                assert(layouter@.place() == self.place_of(place, i + 1)) by {
                    assert(layouter@.windows.drop_last() =~= before_windows);
                }
                assert forall|k: int, w: Seq<Seq<u8>>|
                    0 <= k < tables@.len() && continues(w, layouter@.windows) implies #[trigger] tables@[k].table.placed_in(
                    w,
                ) by {
                    if k < i {
                        lemma_continues_trans(w, layouter@.windows, before_windows);
                        assert(before_tables[k].table.placed_in(w));
                    }
                }
                assert forall|k: int| 0 <= k < tables@.len() implies {
                    &&& (#[trigger] tables@[k]).table.placed_in(layouter@.windows)
                    &&& tables@[k].table.reservation_spec().placed_in(layouter@.windows)
                    &&& tables@[k].table.reservation_spec().index != reservation@.index
                } by {
                    assert(continues(layouter@.windows, layouter@.windows));
                    if k < i {
                        assert(before_tables[k].table.reservation_spec().placed_in(
                            before_windows,
                        ));
                        lemma_placed_in_continues(
                            before_tables[k].table.reservation_spec(),
                            before_windows,
                            layouter@.windows,
                        );
                    }
                }
                assert(models_of(tables@) =~~= self.models_at(place).take(i + 1)) by {
                    assert forall|k: int| 0 <= k < i + 1 implies #[trigger] models_of(tables@)[k]
                        =~~= self.models_at(place).take(i + 1)[k] by {
                        if k < i {
                            assert(models_of(before_tables)[k] == self.models_at(place).take(
                                i as int,
                            )[k]);
                        } else {
                            assert forall|s: PassState, w: Seq<Seq<u8>>, f: Seq<u8>| #[trigger]
                                (models_of(tables@)[k].step)(s, w, f) == (self.models_at(
                                    place,
                                )[k].step)(s, w, f) by {
                                assert(tables@[k].table.step(s, w, f)
                                    == self.tables()[k].table.step_at(
                                    self.place_of(place, k),
                                    s,
                                    w,
                                    f,
                                ));
                            }
                        }
                    }
                }
            }
            i += 1;
        }
        let layouted = LayoutedFile {
            sfnt_version: self.sfnt_version,
            requires_pass: true,
            checksums: None,
            reservation,
            tables,
        };
        proof {
            assert(self.models_at(place).take(count as int) =~= self.models_at(place));
            assert(layouted.state().parts =~= self.initial_state().parts);
            assert(self.window_lens(alignment).take(count + 1) =~= self.window_lens(alignment));
            lemma_file_placed(&layouted, layouter@.windows);
        }
        Some(layouted)
    }
}

/// The tags of the first `upto` tables that still ask for a pass.
pub open spec fn unsettled_tags(tables: Seq<TableModel>, parts: Seq<PassState>, upto: nat) -> Seq<
    Seq<u8>,
>
    decreases upto,
{
    if upto == 0 {
        Seq::empty()
    } else if parts[upto - 1].requires_pass() {
        unsettled_tags(tables, parts, (upto - 1) as nat).push(tables[upto - 1].tag)
    } else {
        unsettled_tags(tables, parts, (upto - 1) as nat)
    }
}

impl LayoutedFile {
    /// The tags of the tables that still ask for a pass, in directory order.
    pub fn unsettled(&self) -> (tags: Vec<[u8; 4]>)
        ensures
            tag_views(tags@) == unsettled_tags(
                self.models(),
                self.state().parts,
                self.tables().len(),
            ),
    {
        let mut tags: Vec<[u8; 4]> = Vec::new();
        let mut i: usize = 0;
        assert(tag_views(tags@) =~= Seq::<Seq<u8>>::empty());
        while i < self.tables.len()
            invariant
                i <= self.tables@.len(),
                tag_views(tags@) == unsettled_tags(self.models(), self.state().parts, i as nat),
            decreases self.tables@.len() - i,
        {
            let ghost before = tags@;
            if self.tables[i].table.requires_another_pass() {
                let tag = self.tables[i].table.tag();
                tags.push(tag);
                assert(tag_views(tags@) =~= tag_views(before).push(tag@));
            }
            i += 1;
        }
        tags
    }

    /// The number of tables.
    pub fn table_count(&self) -> (count: usize)
        ensures
            count == self.tables().len(),
    {
        self.tables.len()
    }
}

/// In a file whose own window holds the directory and stands at the
/// file's start, the bytes of each entry stand at sixteen times its number
/// behind the header, and the header stands first.
pub proof fn lemma_directory_in_file(
    version: SFNTVersion,
    directory: ReservationView,
    tables: Seq<TableModel>,
    windows: Seq<Seq<u8>>,
    index: int,
)
    requires
        directory_holds(version, directory, tables, windows),
        directory.placed_in(windows),
        directory.offset == 0,
        forall|i: int| 0 <= i < tables.len() ==> (#[trigger] tables[i]).tag.len() == 4,
        0 <= index < tables.len(),
    ensures
        concat(windows).len() >= 12 + 16 * tables.len(),
        concat(windows).subrange(0, 12) == header_bytes(version, tables.len()),
        concat(windows).subrange(12 + 16 * index, 28 + 16 * index) == entry_bytes(
            entries_of(tables, windows)[index],
        ),
{
    let file = concat(windows);
    let entries = entries_of(tables, windows);
    let own = windows[directory.index as int];
    let size = 12 + 16 * tables.len();
    let spelled = header_bytes(version, entries.len()) + entries_bytes(entries);
    crate::layout::lemma_window_in_file(windows, directory.index as int);
    assert forall|i: int| 0 <= i < entries.len() implies (#[trigger] entries[i]).tag.len()
        == 4 by {
        assert(tables[i].tag.len() == 4);
    }
    lemma_entry_in_entries(entries, index);
    assert(header_bytes(version, entries.len()).len() == 12);
    assert(part_of(file, 0, own.len()) == own);
    assert(own.take(size as int) == spelled);
    assert forall|k: int| 0 <= k < size implies file[k] == spelled[k] by {
        assert(file[k] == part_of(file, 0, own.len())[k]);
        assert(own[k] == own.take(size as int)[k]);
    }
    assert(file.subrange(0, 12) =~= header_bytes(version, tables.len()));
    assert(file.subrange(12 + 16 * index, 28 + 16 * index) =~= entries_bytes(entries).subrange(
        16 * index,
        16 * index + 16,
    ));
}

/// In a file whose own window holds the directory and stands at the
/// file's start, every directory entry names its table's tag, the offset
/// at which the table's window stands in the file, the length that the
/// table asked for, and the checksum of the table's window, padding
/// included. The file is no longer than 32 bits can count.
pub proof fn law_directory(
    version: SFNTVersion,
    directory: ReservationView,
    tables: Seq<TableModel>,
    windows: Seq<Seq<u8>>,
    index: int,
)
    requires
        directory_holds(version, directory, tables, windows),
        directory.placed_in(windows),
        directory.offset == 0,
        forall|i: int|
            0 <= i < tables.len() ==> (#[trigger] tables[i]).reservation.placed_in(windows)
                && tables[i].tag.len() == 4,
        concat(windows).len() <= u32::MAX,
        0 <= index < tables.len(),
    ensures
        entry_at(concat(windows), index).tag == tables[index].tag,
        entry_at(concat(windows), index).offset == tables[index].reservation.offset,
        entry_at(concat(windows), index).length == tables[index].reservation.unpadded_len,
        tables[index].reservation.offset + tables[index].reservation.len <= concat(
            windows,
        ).len(),
        part_of(
            concat(windows),
            tables[index].reservation.offset,
            tables[index].reservation.len,
        ) == windows[tables[index].reservation.index as int],
        entry_at(concat(windows), index).checksum == checksum32_spec(
            part_of(
                concat(windows),
                entry_at(concat(windows), index).offset,
                tables[index].reservation.len,
            ),
        ),
{
    let r = tables[index].reservation;
    let entry = entries_of(tables, windows)[index];
    assert(tables[index].reservation.placed_in(windows));
    assert(tables[index].tag.len() == 4);
    crate::layout::lemma_window_in_file(windows, r.index as int);
    lemma_directory_in_file(version, directory, tables, windows, index);
    lemma_entry_at(concat(windows), index, entry);
}

} // verus!
