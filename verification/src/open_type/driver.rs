//! The fixed-point driver: it lays a file out and runs sweeps until no
//! object asks for another, up to a limit.

use crate::checksum::checksum32_spec;
use crate::layout::{
    aligned, concat, continues, lemma_same_shape_len, part_of, zero_windows, LayoutError,
    Layoutable, Layouted, Layouter, PassState, Place, ReservationView,
};
use crate::open_type::directory::{
    distinct, entry_at, header_bytes, lemma_strictly_ascending, tag_lt, tag_views, SFNTVersion,
};
use crate::open_type::file::{
    directory_holds, file_step, law_directory, lemma_directory_in_file, tags_of,
    unsettled_tags, File, LayoutedFile, TableModel,
};
use vstd::prelude::*;

verus! {

/// The greatest number of sweeps that the driver runs.
pub const MAX_PASSES: usize = 8;

/// How a run of sweeps ends.
pub enum Ending {
    /// No object asks for another pass.
    Settled,
    /// A pass failed with this error.
    Failed(LayoutError),
    /// The limit was reached while an object still asked for a pass.
    Unsettled,
}

/// A run of sweeps and what it leaves behind.
pub struct Run {
    /// The number of sweeps that were run.
    pub passes: nat,
    /// The file's state at the end.
    pub state: PassState,
    /// The arena's windows at the end.
    pub windows: Seq<Seq<u8>>,
    /// How the run ended.
    pub ending: Ending,
}

/// The run of at most `left` sweeps of a file: while the file asks for a
/// pass, it gets one, on the file as the windows spell it at that time. The
/// run ends when nothing asks for a pass, when a pass fails, or when no
/// sweep is left.
pub open spec fn run(
    version: SFNTVersion,
    directory: ReservationView,
    tables: Seq<TableModel>,
    state: PassState,
    windows: Seq<Seq<u8>>,
    left: nat,
) -> Run
    decreases left,
{
    if !state.requires_pass() {
        Run { passes: 0, state, windows, ending: Ending::Settled }
    } else if left == 0 {
        Run { passes: 0, state, windows, ending: Ending::Unsettled }
    } else {
        let step = file_step(version, directory, tables, state, windows, concat(windows));
        match step.outcome {
            Err(error) => Run {
                passes: 1,
                state: step.state,
                windows: step.windows,
                ending: Ending::Failed(error),
            },
            Ok(_) => {
                let rest = run(
                    version,
                    directory,
                    tables,
                    step.state,
                    step.windows,
                    (left - 1) as nat,
                );
                Run {
                    passes: rest.passes + 1,
                    state: rest.state,
                    windows: rest.windows,
                    ending: rest.ending,
                }
            },
        }
    }
}

/// A run never takes more sweeps than it was given.
pub proof fn law_run_bounded(
    version: SFNTVersion,
    directory: ReservationView,
    tables: Seq<TableModel>,
    state: PassState,
    windows: Seq<Seq<u8>>,
    left: nat,
)
    ensures
        run(version, directory, tables, state, windows, left).passes <= left,
        run(version, directory, tables, state, windows, left).ending is Settled ==> !run(
            version,
            directory,
            tables,
            state,
            windows,
            left,
        ).state.requires_pass(),
    decreases left,
{
    if state.requires_pass() && left > 0 {
        let step = file_step(version, directory, tables, state, windows, concat(windows));
        if step.outcome is Ok {
            law_run_bounded(version, directory, tables, step.state, step.windows, (left - 1) as nat);
        }
    }
}

/// Runs sweeps of `root` until nothing asks for another pass, at most
/// `MAX_PASSES` of them, each on the file as the arena spells it at that
/// time. Hands out the number of sweeps that were run.
pub fn converge(root: &mut LayoutedFile, layouter: &mut Layouter) -> (result: Result<
    usize,
    LayoutError,
>)
    requires
        old(layouter).wf(),
        forall|w: Seq<Seq<u8>>|
            continues(w, old(layouter)@.windows) ==> #[trigger] old(root).placed_in(w),
    ensures
        final(layouter).wf(),
        final(layouter)@.same_layout(old(layouter)@),
        forall|w: Seq<Seq<u8>>|
            continues(w, final(layouter)@.windows) ==> #[trigger] final(root).placed_in(w),
        final(root).version() == old(root).version(),
        final(root).directory() == old(root).directory(),
        final(root).models() == old(root).models(),
        final(root).state() == run(
            old(root).version(),
            old(root).directory(),
            old(root).models(),
            old(root).state(),
            old(layouter)@.windows,
            MAX_PASSES as nat,
        ).state,
        final(layouter)@.windows == run(
            old(root).version(),
            old(root).directory(),
            old(root).models(),
            old(root).state(),
            old(layouter)@.windows,
            MAX_PASSES as nat,
        ).windows,
        match run(
            old(root).version(),
            old(root).directory(),
            old(root).models(),
            old(root).state(),
            old(layouter)@.windows,
            MAX_PASSES as nat,
        ).ending {
            Ending::Settled => result == Ok::<usize, LayoutError>(
                run(
                    old(root).version(),
                    old(root).directory(),
                    old(root).models(),
                    old(root).state(),
                    old(layouter)@.windows,
                    MAX_PASSES as nat,
                ).passes as usize,
            ),
            Ending::Failed(error) => result == Err::<usize, LayoutError>(error),
            Ending::Unsettled => result matches Err(LayoutError::NonConvergence(tags))
                && tag_views(tags@) == unsettled_tags(
                final(root).models(),
                final(root).state().parts,
                final(root).models().len(),
            ),
        },
        result matches Ok(passes) ==> passes <= MAX_PASSES && (passes == 0 <==> !old(
            root,
        ).state().requires_pass()),
        result matches Ok(passes) ==> passes >= 1 ==> directory_holds(
            final(root).version(),
            final(root).directory(),
            final(root).models(),
            final(layouter)@.windows,
        ),
{
    let ghost version = root.version();
    let ghost directory = root.directory();
    let ghost tables = root.models();
    let ghost state = root.state();
    let ghost given = layouter@.windows;
    let mut passes: usize = 0;
    loop
        invariant
            passes <= MAX_PASSES,
            layouter.wf(),
            layouter@.same_layout(old(layouter)@),
            forall|w: Seq<Seq<u8>>| continues(w, layouter@.windows) ==> #[trigger] root.placed_in(w),
            version == old(root).version(),
            directory == old(root).directory(),
            tables == old(root).models(),
            state == old(root).state(),
            given == old(layouter)@.windows,
            root.version() == version,
            root.directory() == directory,
            root.models() == tables,
            forall|s: PassState, w: Seq<Seq<u8>>, f: Seq<u8>| #[trigger]
                root.step(s, w, f) == file_step(version, directory, tables, s, w, f),
            run(version, directory, tables, state, given, MAX_PASSES as nat).state == run(
                version,
                directory,
                tables,
                root.state(),
                layouter@.windows,
                (MAX_PASSES - passes) as nat,
            ).state,
            run(version, directory, tables, state, given, MAX_PASSES as nat).windows == run(
                version,
                directory,
                tables,
                root.state(),
                layouter@.windows,
                (MAX_PASSES - passes) as nat,
            ).windows,
            run(version, directory, tables, state, given, MAX_PASSES as nat).ending == run(
                version,
                directory,
                tables,
                root.state(),
                layouter@.windows,
                (MAX_PASSES - passes) as nat,
            ).ending,
            run(version, directory, tables, state, given, MAX_PASSES as nat).passes == passes + run(
                version,
                directory,
                tables,
                root.state(),
                layouter@.windows,
                (MAX_PASSES - passes) as nat,
            ).passes,
            passes == 0 ==> root.state() == state,
            passes >= 1 ==> directory_holds(version, directory, tables, layouter@.windows),
        decreases MAX_PASSES - passes,
    {
        if !root.requires_another_pass() {
            return Ok(passes);
        }
        if passes == MAX_PASSES {
            return Err(LayoutError::NonConvergence(root.unsettled()));
        }
        let buffer = layouter.get_result();
        let ghost before = layouter@.windows;
        let outcome = root.pass(layouter, buffer.as_slice());
        proof {
            lemma_same_shape_len(layouter@.windows, before);
            assert(crate::layout::same_shape(layouter@.windows, old(layouter)@.windows)) by {
                assert(crate::layout::same_shape(layouter@.windows, before));
                assert(crate::layout::same_shape(before, old(layouter)@.windows));
            }
        }
        match outcome {
            Ok(_) => {},
            Err(error) => {
                return Err(error);
            },
        }
        passes = passes + 1;
    }
}

/// The place at which a file is laid out: the start of an arena of
/// alignment 4.
pub open spec fn start_of_file() -> Place {
    Place { alignment: 4, index: 0, offset: 0 }
}

/// What the driver makes of a description: the run of at most
/// `MAX_PASSES` sweeps of the file laid out at the start of an arena of
/// alignment 4, whose windows are zero at first.
pub open spec fn generated(file: &File) -> Run {
    run(
        file.version(),
        start_of_file().reservation(file.directory_size()),
        file.models_at(start_of_file()),
        file.initial_state(),
        zero_windows(file.window_lens(4)),
        MAX_PASSES as nat,
    )
}

/// The bytes start with the header of `file`, and each directory entry
/// names the tag of its table, the offset at which the table was laid out,
/// the length that the table asked for, and the checksum of the bytes from
/// that offset on, as many as the table's window holds.
pub open spec fn directory_agrees(file: &File, bytes: Seq<u8>) -> bool {
    &&& bytes.len() >= 12 + 16 * file.tables().len()
    &&& bytes.subrange(0, 12) == header_bytes(file.version(), file.tables().len())
    &&& forall|i: int|
        0 <= i < file.tables().len() ==> {
            &&& (#[trigger] entry_at(bytes, i)).tag == file.tables()[i].table.tag_spec()
            &&& entry_at(bytes, i).offset == file.place_of(start_of_file(), i).offset
            &&& entry_at(bytes, i).length == file.tables()[i].table.size()
            &&& entry_at(bytes, i).offset + aligned(entry_at(bytes, i).length, 4) <= bytes.len()
            &&& entry_at(bytes, i).checksum == checksum32_spec(
                part_of(bytes, entry_at(bytes, i).offset, aligned(entry_at(bytes, i).length, 4)),
            )
        }
}

/// In a file whose directory agrees with a description of tables in tag
/// order, none of whose tags stands twice, the tags of the directory stand
/// in strictly ascending order.
pub proof fn law_directory_order(file: &File, bytes: Seq<u8>)
    requires
        file.wf(),
        distinct(tags_of(file.tables())),
        directory_agrees(file, bytes),
    ensures
        forall|i: int, j: int|
            0 <= i < j < file.tables().len() ==> tag_lt(
                (#[trigger] entry_at(bytes, i)).tag,
                (#[trigger] entry_at(bytes, j)).tag,
            ),
{
    let tags = tags_of(file.tables());
    assert forall|i: int| 0 <= i < tags.len() implies (#[trigger] tags[i]).len() == 4 by {
        assert(entry_at(bytes, i).tag == tags[i]);
    }
    lemma_strictly_ascending(tags);
    assert forall|i: int, j: int| 0 <= i < j < file.tables().len() implies tag_lt(
        (#[trigger] entry_at(bytes, i)).tag,
        (#[trigger] entry_at(bytes, j)).tag,
    ) by {
        assert(tag_lt(tags[i], tags[j]));
    }
}

/// What the driver owes for `file`: the bytes that the windows of the run
/// spell, with a directory that agrees with the description where the
/// file is no longer than 32 bits can count; or the error of the pass that
/// failed; or, at the limit, the tags of the tables that still asked for a
/// pass.
pub open spec fn is_generated(file: &File, result: Result<Vec<u8>, LayoutError>) -> bool {
    &&& match generated(file).ending {
        Ending::Settled => result matches Ok(bytes) && bytes@ == concat(generated(file).windows),
        Ending::Failed(error) => result == Err::<Vec<u8>, LayoutError>(error),
        Ending::Unsettled => result matches Err(LayoutError::NonConvergence(tags)) && tag_views(
            tags@,
        ) == unsettled_tags(
            file.models_at(start_of_file()),
            generated(file).state.parts,
            file.tables().len(),
        ),
    }
    &&& result matches Ok(bytes) ==> bytes@.len() <= u32::MAX ==> directory_agrees(file, bytes@)
}

/// Lays `file` out on a new arena of alignment 4 and runs sweeps until
/// nothing asks for another pass. Hands out the file's bytes.
pub fn generate(file: &File) -> (result: Result<Vec<u8>, LayoutError>)
    requires
        file.fits(start_of_file()),
    ensures
        is_generated(file, result),
{
    try_generate(file)
}

/// Does what `generate` does where `file` fits at the start of an arena
/// of alignment 4; a description that does not fit is malformed.
pub fn try_generate(file: &File) -> (result: Result<Vec<u8>, LayoutError>)
    ensures
        file.fits(start_of_file()) ==> is_generated(file, result),
        !file.fits(start_of_file()) ==> result == Err::<Vec<u8>, LayoutError>(
            LayoutError::MalformedDescription,
        ),
{
    let mut layouter = Layouter::new(4);
    proof {
        assert(layouter@.place() == start_of_file());
    }
    let mut root = match file.try_layout(&mut layouter) {
        Some(root) => root,
        None => {
            return Err(LayoutError::MalformedDescription);
        },
    };
    proof {
        assert(layouter@.windows =~= zero_windows(file.window_lens(4)));
    }
    match converge(&mut root, &mut layouter) {
        Ok(_) => {
            let bytes = layouter.get_result();
            proof {
                if bytes@.len() <= u32::MAX {
                    assert(continues(layouter@.windows, layouter@.windows));
                    assert(root.placed_in(layouter@.windows));
                    assert forall|i: int| 0 <= i < root.models().len() implies (
                    #[trigger] root.models()[i]).reservation.placed_in(layouter@.windows) by {
                        assert(root.tables()[i].table.reservation_spec().placed_in(
                            layouter@.windows,
                        ));
                    }
                    lemma_directory_agrees(file, root.directory(), root.models(), layouter@.windows);
                }
            }
            Ok(bytes)
        },
        Err(error) => Err(error),
    }
}

/// The run of a description is determined by what the description holds:
/// two descriptions that announce the same format and whose tables, laid
/// out at the start of an arena of alignment 4, have the same tags, windows
/// and passes, give the same run, and so the same file.
pub proof fn law_same_description_same_file(a: &File, b: &File)
    requires
        a.version() == b.version(),
        a.tables().len() == b.tables().len(),
        a.models_at(start_of_file()) == b.models_at(start_of_file()),
        a.window_lens(4) == b.window_lens(4),
    ensures
        generated(a) == generated(b),
{
    assert(a.initial_state().parts =~= b.initial_state().parts);
}

/// The file that the windows spell agrees with the description whose
/// directory the file's own window holds.
proof fn lemma_directory_agrees(
    file: &File,
    directory: ReservationView,
    tables: Seq<TableModel>,
    windows: Seq<Seq<u8>>,
)
    requires
        directory_holds(file.version(), directory, tables, windows),
        directory == start_of_file().reservation(file.directory_size()),
        directory.placed_in(windows),
        tables == file.models_at(start_of_file()),
        forall|i: int| 0 <= i < tables.len() ==> (#[trigger] tables[i]).reservation.placed_in(windows),
        forall|i: int|
            0 <= i < file.tables().len() ==> (#[trigger] file.tables()[i]).table.tag_spec().len()
                == 4,
        concat(windows).len() <= u32::MAX,
    ensures
        directory_agrees(file, concat(windows)),
{
    let bytes = concat(windows);
    assert forall|i: int| 0 <= i < tables.len() implies (#[trigger] tables[i]).tag.len()
        == 4 by {
        assert(file.tables()[i].table.tag_spec().len() == 4);
    }
    lemma_directory_in_file(file.version(), directory, tables, windows, 0);
    assert forall|i: int| 0 <= i < file.tables().len() implies {
        &&& (#[trigger] entry_at(bytes, i)).tag == file.tables()[i].table.tag_spec()
        &&& entry_at(bytes, i).offset == file.place_of(start_of_file(), i).offset
        &&& entry_at(bytes, i).length == file.tables()[i].table.size()
        &&& entry_at(bytes, i).offset + aligned(entry_at(bytes, i).length, 4) <= bytes.len()
        &&& entry_at(bytes, i).checksum == checksum32_spec(
            part_of(bytes, entry_at(bytes, i).offset, aligned(entry_at(bytes, i).length, 4)),
        )
    } by {
        law_directory(file.version(), directory, tables, windows, i);
        file.lemma_place_of(start_of_file(), i);
    }
}

} // verus!
