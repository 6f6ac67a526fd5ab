//! Files whose tables write the same bytes in every pass settle in two
//! sweeps.

use crate::layout::{
    plain_step, written, zero_windows, Layoutable, PassState, ReservationView,
};
use crate::open_type::directory::{directory_bytes, lemma_entries_len, SFNTVersion};
use crate::open_type::driver::{generated, run, start_of_file, Ending, MAX_PASSES};
use crate::open_type::file::{
    checksums_of, entries_of, file_step, sweep, File, Sweep, TableModel,
};
use vstd::prelude::*;

verus! {

/// Every table writes its content in every pass, whatever the file holds,
/// the content fits the table's window, the windows are windows of the
/// arena, and no two tables share a window.
pub open spec fn write_contents(
    tables: Seq<TableModel>,
    contents: Seq<Seq<u8>>,
    windows: Seq<Seq<u8>>,
) -> bool {
    &&& contents.len() == tables.len()
    &&& forall|i: int|
        0 <= i < tables.len() ==> {
            &&& (#[trigger] tables[i]).reservation.index < windows.len()
            &&& contents[i].len() <= tables[i].reservation.len
        }
    &&& forall|i: int, j: int|
        0 <= i < j < tables.len() ==> (#[trigger] tables[i]).reservation.index != (
        #[trigger] tables[j]).reservation.index
    &&& forall|i: int, s: PassState, w: Seq<Seq<u8>>, f: Seq<u8>|
        0 <= i < tables.len() ==> #[trigger] (tables[i].step)(s, w, f) == plain_step(
            tables[i].reservation,
            contents[i],
            w,
        )
}

/// The windows after the first `upto` tables wrote their contents.
pub open spec fn filled(
    tables: Seq<TableModel>,
    contents: Seq<Seq<u8>>,
    windows: Seq<Seq<u8>>,
    upto: nat,
) -> Seq<Seq<u8>>
    decreases upto,
{
    if upto == 0 {
        windows
    } else {
        let before = filled(tables, contents, windows, (upto - 1) as nat);
        before.update(
            tables[upto - 1].reservation.index as int,
            written(before[tables[upto - 1].reservation.index as int], 0, contents[upto - 1]),
        )
    }
}

/// The states of tables of which the first `upto` have settled.
pub open spec fn settled_upto(parts: Seq<PassState>, upto: nat) -> Seq<PassState> {
    Seq::new(
        parts.len(),
        |i: int|
            if i < upto {
                PassState::settled()
            } else {
                parts[i]
            },
    )
}

/// Filling keeps the number of windows, and leaves the windows of the
/// tables that have not written, and of no table, as they were.
pub proof fn lemma_filled_frame(
    tables: Seq<TableModel>,
    contents: Seq<Seq<u8>>,
    windows: Seq<Seq<u8>>,
    upto: nat,
    index: int,
)
    requires
        write_contents(tables, contents, windows),
        upto <= tables.len(),
        0 <= index < windows.len(),
        forall|j: int| 0 <= j < upto ==> (#[trigger] tables[j]).reservation.index != index,
    ensures
        filled(tables, contents, windows, upto).len() == windows.len(),
        filled(tables, contents, windows, upto)[index] == windows[index],
    decreases upto,
{
    if upto > 0 {
        lemma_filled_frame(tables, contents, windows, (upto - 1) as nat, index);
        assert(tables[upto - 1].reservation.index != index);
        assert(tables[upto - 1].reservation.index < windows.len());
    }
}

/// Filling keeps the number of windows.
pub proof fn lemma_filled_len(
    tables: Seq<TableModel>,
    contents: Seq<Seq<u8>>,
    windows: Seq<Seq<u8>>,
    upto: nat,
)
    requires
        write_contents(tables, contents, windows),
        upto <= tables.len(),
    ensures
        filled(tables, contents, windows, upto).len() == windows.len(),
    decreases upto,
{
    if upto > 0 {
        lemma_filled_len(tables, contents, windows, (upto - 1) as nat);
        assert(tables[upto - 1].reservation.index < windows.len());
    }
}

/// After filling, the window of a table that has written holds its
/// content at the start and is otherwise as it was.
pub proof fn lemma_filled_window(
    tables: Seq<TableModel>,
    contents: Seq<Seq<u8>>,
    windows: Seq<Seq<u8>>,
    upto: nat,
    table: int,
)
    requires
        write_contents(tables, contents, windows),
        upto <= tables.len(),
        0 <= table < upto,
    ensures
        filled(tables, contents, windows, upto)[tables[table].reservation.index as int]
            == written(windows[tables[table].reservation.index as int], 0, contents[table]),
    decreases upto,
{
    let index = tables[table].reservation.index as int;
    assert(tables[table].reservation.index < windows.len());
    lemma_filled_len(tables, contents, windows, (upto - 1) as nat);
    if table == upto - 1 {
        assert forall|j: int| 0 <= j < upto - 1 implies (#[trigger] tables[j]).reservation.index
            != index by {
            assert(tables[j].reservation.index != tables[table].reservation.index);
        }
        lemma_filled_frame(tables, contents, windows, (upto - 1) as nat, index);
    } else {
        lemma_filled_window(tables, contents, windows, (upto - 1) as nat, table);
        assert(tables[table].reservation.index != tables[upto - 1].reservation.index);
        assert(tables[upto - 1].reservation.index < windows.len());
    }
}

/// Windows that hold every table's content are left as they are by
/// filling.
pub proof fn lemma_filled_again(
    tables: Seq<TableModel>,
    contents: Seq<Seq<u8>>,
    windows: Seq<Seq<u8>>,
    upto: nat,
)
    requires
        write_contents(tables, contents, windows),
        upto <= tables.len(),
        forall|i: int|
            0 <= i < tables.len() ==> written(
                windows[(#[trigger] tables[i]).reservation.index as int],
                0,
                contents[i],
            ) == windows[tables[i].reservation.index as int],
    ensures
        filled(tables, contents, windows, upto) == windows,
    decreases upto,
{
    if upto > 0 {
        lemma_filled_again(tables, contents, windows, (upto - 1) as nat);
        assert(tables[upto - 1].reservation.index < windows.len());
        assert(filled(tables, contents, windows, upto) =~= windows);
    }
}

/// The sweep of tables that write their contents fills the windows,
/// settles the tables and never fails.
pub proof fn lemma_sweep_fills(
    tables: Seq<TableModel>,
    contents: Seq<Seq<u8>>,
    parts: Seq<PassState>,
    windows: Seq<Seq<u8>>,
    current_file: Seq<u8>,
    upto: nat,
)
    requires
        write_contents(tables, contents, windows),
        parts.len() == tables.len(),
        upto <= tables.len(),
    ensures
        sweep(tables, parts, windows, current_file, upto) == (Sweep {
            parts: settled_upto(parts, upto),
            windows: filled(tables, contents, windows, upto),
            outcome: Ok(()),
        }),
    decreases upto,
{
    if upto == 0 {
        assert(settled_upto(parts, 0) =~= parts);
    } else {
        lemma_sweep_fills(tables, contents, parts, windows, current_file, (upto - 1) as nat);
        let before = sweep(tables, parts, windows, current_file, (upto - 1) as nat);
        let step = (tables[upto - 1].step)(parts[upto - 1], before.windows, current_file);
        assert(step == plain_step(tables[upto - 1].reservation, contents[upto - 1], before.windows));
        assert(contents[upto - 1].len() <= tables[upto - 1].reservation.len);
        assert(before.parts.update(upto - 1, step.state) =~= settled_upto(parts, upto));
    }
}

/// The windows of a file whose tables have written their contents and
/// whose own window holds the directory of those windows.
pub open spec fn settled_windows(
    version: SFNTVersion,
    directory: ReservationView,
    tables: Seq<TableModel>,
    contents: Seq<Seq<u8>>,
    windows: Seq<Seq<u8>>,
) -> Seq<Seq<u8>> {
    let swept = filled(tables, contents, windows, tables.len());
    swept.update(
        directory.index as int,
        written(
            swept[directory.index as int],
            0,
            directory_bytes(version, entries_of(tables, swept)),
        ),
    )
}

/// The file's own window is a window of the arena and of no table, it
/// has room for the directory, there are from 1 to 4095 tables, and their
/// tags have four bytes.
pub open spec fn directory_has_room(
    directory: ReservationView,
    tables: Seq<TableModel>,
    windows: Seq<Seq<u8>>,
) -> bool {
    &&& 1 <= tables.len() <= 4095
    &&& directory.index < windows.len()
    &&& 12 + 16 * tables.len() <= directory.len
    &&& forall|i: int|
        0 <= i < tables.len() ==> (#[trigger] tables[i]).reservation.index != directory.index
            && tables[i].tag.len() == 4
}

/// The state of a file after a sweep of tables that write their contents.
pub open spec fn swept_state(
    pending: bool,
    tables: Seq<TableModel>,
    contents: Seq<Seq<u8>>,
    windows: Seq<Seq<u8>>,
) -> PassState {
    PassState {
        pending,
        remembered: Some(
            checksums_of(entries_of(tables, filled(tables, contents, windows, tables.len()))),
        ),
        parts: Seq::new(tables.len(), |i: int| PassState::settled()),
    }
}

/// The first sweep of a file whose tables write their contents fills the
/// windows and writes the directory; the file asks for another sweep.
pub proof fn lemma_first_sweep(
    version: SFNTVersion,
    directory: ReservationView,
    tables: Seq<TableModel>,
    contents: Seq<Seq<u8>>,
    parts: Seq<PassState>,
    windows: Seq<Seq<u8>>,
    current_file: Seq<u8>,
)
    requires
        write_contents(tables, contents, windows),
        directory_has_room(directory, tables, windows),
        parts.len() == tables.len(),
    ensures
        file_step(
            version,
            directory,
            tables,
            PassState { pending: true, remembered: None, parts },
            windows,
            current_file,
        ).state == swept_state(true, tables, contents, windows),
        file_step(
            version,
            directory,
            tables,
            PassState { pending: true, remembered: None, parts },
            windows,
            current_file,
        ).windows == settled_windows(version, directory, tables, contents, windows),
        file_step(
            version,
            directory,
            tables,
            PassState { pending: true, remembered: None, parts },
            windows,
            current_file,
        ).outcome is Ok,
{
    let swept = filled(tables, contents, windows, tables.len());
    lemma_sweep_fills(tables, contents, parts, windows, current_file, tables.len());
    lemma_directory_len(version, tables, swept);
    assert(settled_upto(parts, tables.len()) =~= Seq::new(
        tables.len(),
        |i: int| PassState::settled(),
    ));
}

/// The header and the directory of tables whose tags have four bytes take
/// twelve bytes and sixteen for each table.
pub proof fn lemma_directory_len(
    version: SFNTVersion,
    tables: Seq<TableModel>,
    windows: Seq<Seq<u8>>,
)
    requires
        forall|i: int| 0 <= i < tables.len() ==> (#[trigger] tables[i]).tag.len() == 4,
    ensures
        directory_bytes(version, entries_of(tables, windows)).len() == 12 + 16 * tables.len(),
{
    let entries = entries_of(tables, windows);
    assert forall|i: int| 0 <= i < entries.len() implies (#[trigger] entries[i]).tag.len()
        == 4 by {
        assert(tables[i].tag.len() == 4);
    }
    lemma_entries_len(entries);
}

/// Writing the same bytes at the same place twice is writing them once.
pub proof fn lemma_written_twice(window: Seq<u8>, data: Seq<u8>)
    ensures
        written(written(window, 0, data), 0, data) == written(window, 0, data),
{
    assert(written(written(window, 0, data), 0, data) =~= written(window, 0, data));
}

/// The windows that a sweep has settled are left as they are by the next
/// sweep, which clears the file's flag.
pub proof fn lemma_second_sweep(
    version: SFNTVersion,
    directory: ReservationView,
    tables: Seq<TableModel>,
    contents: Seq<Seq<u8>>,
    windows: Seq<Seq<u8>>,
    current_file: Seq<u8>,
)
    requires
        write_contents(tables, contents, windows),
        directory_has_room(directory, tables, windows),
    ensures
        file_step(
            version,
            directory,
            tables,
            swept_state(true, tables, contents, windows),
            settled_windows(version, directory, tables, contents, windows),
            current_file,
        ).state == swept_state(false, tables, contents, windows),
        file_step(
            version,
            directory,
            tables,
            swept_state(true, tables, contents, windows),
            settled_windows(version, directory, tables, contents, windows),
            current_file,
        ).windows == settled_windows(version, directory, tables, contents, windows),
        file_step(
            version,
            directory,
            tables,
            swept_state(true, tables, contents, windows),
            settled_windows(version, directory, tables, contents, windows),
            current_file,
        ).outcome is Ok,
{
    let count = tables.len();
    let swept = filled(tables, contents, windows, count);
    let settled = settled_windows(version, directory, tables, contents, windows);
    let state = swept_state(true, tables, contents, windows);
    lemma_filled_len(tables, contents, windows, count);
    assert(write_contents(tables, contents, settled));
    assert forall|i: int| 0 <= i < count implies written(
        settled[(#[trigger] tables[i]).reservation.index as int],
        0,
        contents[i],
    ) == settled[tables[i].reservation.index as int] by {
        let index = tables[i].reservation.index as int;
        assert(index != directory.index);
        assert(index < windows.len());
        lemma_filled_window(tables, contents, windows, count, i);
        lemma_written_twice(windows[index], contents[i]);
    }
    lemma_filled_again(tables, contents, settled, count);
    lemma_sweep_fills(tables, contents, state.parts, settled, current_file, count);
    assert(settled_upto(state.parts, count) =~= state.parts);
    assert(entries_of(tables, settled) =~= entries_of(tables, swept)) by {
        assert forall|i: int| 0 <= i < count implies settled[tables[i].reservation.index as int]
            == swept[tables[i].reservation.index as int] by {
            assert(tables[i].reservation.index != directory.index);
            assert(tables[i].reservation.index < windows.len());
        }
    }
    lemma_directory_len(version, tables, settled);
    let bytes = directory_bytes(version, entries_of(tables, swept));
    lemma_written_twice(swept[directory.index as int], bytes);
    assert(settled.update(
        directory.index as int,
        written(settled[directory.index as int], 0, bytes),
    ) =~= settled);
}

/// A file whose tables write the same bytes in every pass settles in two
/// sweeps: the first fills the windows and writes the directory, the
/// second finds the same checksums and changes nothing.
pub proof fn law_settles_in_two_sweeps(
    version: SFNTVersion,
    directory: ReservationView,
    tables: Seq<TableModel>,
    contents: Seq<Seq<u8>>,
    parts: Seq<PassState>,
    windows: Seq<Seq<u8>>,
)
    requires
        write_contents(tables, contents, windows),
        directory_has_room(directory, tables, windows),
        parts.len() == tables.len(),
    ensures
        run(
            version,
            directory,
            tables,
            PassState { pending: true, remembered: None, parts },
            windows,
            MAX_PASSES as nat,
        ).ending is Settled,
        run(
            version,
            directory,
            tables,
            PassState { pending: true, remembered: None, parts },
            windows,
            MAX_PASSES as nat,
        ).passes == 2,
        run(
            version,
            directory,
            tables,
            PassState { pending: true, remembered: None, parts },
            windows,
            MAX_PASSES as nat,
        ).windows == settled_windows(version, directory, tables, contents, windows),
{
    let start = PassState { pending: true, remembered: None, parts };
    let settled = settled_windows(version, directory, tables, contents, windows);
    let first = swept_state(true, tables, contents, windows);
    let second = swept_state(false, tables, contents, windows);
    lemma_first_sweep(
        version,
        directory,
        tables,
        contents,
        parts,
        windows,
        crate::layout::concat(windows),
    );
    lemma_second_sweep(
        version,
        directory,
        tables,
        contents,
        windows,
        crate::layout::concat(settled),
    );
    assert(start.requires_pass());
    assert(first.requires_pass());
    assert(!second.requires_pass()) by {
        assert forall|i: int| 0 <= i < second.parts.len() implies !(
        #[trigger] second.parts[i]).requires_pass() by {
            assert(second.parts[i] == PassState::settled());
            assert(PassState::settled().parts.len() == 0);
        }
    }
    reveal_with_fuel(run, 3);
}

/// A description of 1 to 4095 tables, each of which writes the same
/// content in every pass and asks for a window that holds it, gives a file
/// after two sweeps: the driver does not fail, and the file is made of the
/// directory and the contents, each filled up with zero bytes to a
/// multiple of four.
pub proof fn law_content_files_settle(file: &File, contents: Seq<Seq<u8>>)
    requires
        1 <= file.tables().len() <= 4095,
        contents.len() == file.tables().len(),
        forall|i: int|
            0 <= i < file.tables().len() ==> (#[trigger] file.tables()[i]).table.tag_spec().len()
                == 4 && contents[i].len() <= file.tables()[i].table.size(),
        forall|i: int, place: crate::layout::Place, s: PassState, w: Seq<Seq<u8>>, f: Seq<u8>|
            0 <= i < file.tables().len() ==> #[trigger] file.tables()[i].table.step_at(
                place,
                s,
                w,
                f,
            ) == plain_step(place.reservation(file.tables()[i].table.size()), contents[i], w),
    ensures
        generated(file).ending is Settled,
        generated(file).passes == 2,
        generated(file).windows == settled_windows(
            file.version(),
            start_of_file().reservation(file.directory_size()),
            file.models_at(start_of_file()),
            contents,
            zero_windows(file.window_lens(4)),
        ),
{
    let tables = file.models_at(start_of_file());
    let directory = start_of_file().reservation(file.directory_size());
    let windows = zero_windows(file.window_lens(4));
    assert forall|i: int| 0 <= i < tables.len() implies {
        &&& (#[trigger] tables[i]).reservation.index == 1 + i
        &&& contents[i].len() <= tables[i].reservation.len
        &&& tables[i].tag.len() == 4
    } by {
        file.lemma_place_of(start_of_file(), i);
        assert(file.tables()[i].table.tag_spec().len() == 4);
    }
    assert forall|i: int, s: PassState, w: Seq<Seq<u8>>, f: Seq<u8>|
        0 <= i < tables.len() implies #[trigger] (tables[i].step)(s, w, f) == plain_step(
        tables[i].reservation,
        contents[i],
        w,
    ) by {
        assert(file.tables()[i].table.step_at(file.place_of(start_of_file(), i), s, w, f)
            == plain_step(
            file.place_of(start_of_file(), i).reservation(file.tables()[i].table.size()),
            contents[i],
            w,
        ));
    }
    assert(write_contents(tables, contents, windows));
    assert(directory_has_room(directory, tables, windows));
    law_settles_in_two_sweeps(
        file.version(),
        directory,
        tables,
        contents,
        file.initial_state().parts,
        windows,
    );
}

} // verus!
