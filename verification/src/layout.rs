//! The byte arena: an ordered list of fixed-size windows that concatenate to
//! the file, the handles on those windows, and the two-phase protocol by
//! which descriptions claim windows and later fill them.

use vstd::prelude::*;
use vstd::std_specs::convert::FromSpecImpl;

verus! {

/// The error of input and output of the standard library.
#[verifier::external_type_specification]
#[verifier::external_body]
pub struct ExIoError(std::io::Error);

/// Why a pass, or the run of passes, gave no file.
#[derive(Debug)]
pub enum LayoutError {
    /// Input or output failed.
    IoError(std::io::Error),
    /// A write went past the end of its window.
    OutOfBounds,
    /// A description contradicts itself.
    MalformedDescription,
    /// The pass limit was reached; the tags are those of the tables that
    /// still asked for another pass.
    NonConvergence(Vec<[u8; 4]>),
}

impl From<std::io::Error> for LayoutError {
    fn from(value: std::io::Error) -> (error: Self) {
        LayoutError::IoError(value)
    }
}

impl FromSpecImpl<std::io::Error> for LayoutError {
    open spec fn obeys_from_spec() -> bool {
        true
    }

    open spec fn from_spec(value: std::io::Error) -> Self {
        LayoutError::IoError(value)
    }
}

/// A result that is `Ok` is the one `Ok` there is.
pub proof fn lemma_ok_is_unit(result: Result<(), LayoutError>)
    requires
        result is Ok,
    ensures
        result == Ok::<(), LayoutError>(()),
{
    match result {
        Ok(unit) => {
            assert(unit == ());
        },
        Err(_) => {},
    }
}

/// The zero bytes that follow `len` bytes to reach a multiple of `alignment`.
pub open spec fn padding(len: nat, alignment: nat) -> nat {
    ((alignment - (len % alignment)) % (alignment as int)) as nat
}

/// `len` rounded up to a multiple of `alignment`.
pub open spec fn aligned(len: nat, alignment: nat) -> nat {
    len + padding(len, alignment)
}

/// `len` zero bytes.
pub open spec fn zeros(len: nat) -> Seq<u8> {
    Seq::new(len, |i: int| 0u8)
}

/// The windows one after the other.
pub open spec fn concat(windows: Seq<Seq<u8>>) -> Seq<u8>
    decreases windows.len(),
{
    if windows.len() == 0 {
        Seq::empty()
    } else {
        concat(windows.drop_last()) + windows.last()
    }
}

/// The number of bytes in the windows before window `index`.
pub open spec fn offset_of(windows: Seq<Seq<u8>>, index: int) -> nat
    decreases index,
{
    if index <= 0 {
        0
    } else {
        offset_of(windows, index - 1) + windows[index - 1].len()
    }
}

/// The `len` bytes of `file` that start at `offset`.
pub open spec fn part_of(file: Seq<u8>, offset: nat, len: nat) -> Seq<u8> {
    file.subrange(offset as int, (offset + len) as int)
}

/// Two lists of windows with the same lengths, window by window.
pub open spec fn same_shape(a: Seq<Seq<u8>>, b: Seq<Seq<u8>>) -> bool {
    &&& a.len() == b.len()
    &&& forall|i: int|
        #![trigger a[i]]
        #![trigger b[i]]
        0 <= i < a.len() ==> a[i].len() == b[i].len()
}

/// `window` after `data` was written at `position`, as far as it fits.
pub open spec fn written(window: Seq<u8>, position: nat, data: Seq<u8>) -> Seq<u8> {
    Seq::new(
        window.len(),
        |i: int|
            if position <= i < position + data.len() {
                data[i - position]
            } else {
                window[i]
            },
    )
}

/// A length rounded up is a multiple of the alignment, and the padding is
/// less than the alignment.
pub proof fn lemma_aligned(len: nat, alignment: nat)
    requires
        alignment >= 1,
    ensures
        aligned(len, alignment) % alignment == 0,
        padding(len, alignment) < alignment,
        len % alignment == 0 ==> aligned(len, alignment) == len,
{
    let a = alignment as int;
    let r = (len as int) % a;
    vstd::arithmetic::div_mod::lemma_fundamental_div_mod(len as int, a);
    if r == 0 {
        vstd::arithmetic::div_mod::lemma_mod_self_0(a);
    } else {
        vstd::arithmetic::div_mod::lemma_small_mod((a - r) as nat, alignment);
        let q = (len as int) / a;
        assert(len + (a - r) == a * (q + 1)) by (nonlinear_arith)
            requires
                len == a * q + r,
        ;
        vstd::arithmetic::div_mod::lemma_mod_multiples_basic(q + 1, a);
        assert(a * (q + 1) == (q + 1) * a) by (nonlinear_arith);
    }
}

/// The file is as long as the offset past its last window.
pub proof fn lemma_concat_len(windows: Seq<Seq<u8>>)
    ensures
        concat(windows).len() == offset_of(windows, windows.len() as int),
    decreases windows.len(),
{
    if windows.len() > 0 {
        lemma_concat_len(windows.drop_last());
        lemma_offset_of_prefix(windows, windows.drop_last(), windows.len() - 1);
    }
}

/// Offsets depend only on the lengths of the windows before.
pub proof fn lemma_offset_of_prefix(a: Seq<Seq<u8>>, b: Seq<Seq<u8>>, index: int)
    requires
        0 <= index <= a.len(),
        index <= b.len(),
        forall|i: int| 0 <= i < index ==> (#[trigger] a[i]).len() == b[i].len(),
    ensures
        offset_of(a, index) == offset_of(b, index),
    decreases index,
{
    if index > 0 {
        lemma_offset_of_prefix(a, b, index - 1);
    }
}

/// Offsets grow with the index, by at least the windows passed over.
pub proof fn lemma_offset_of_grows(windows: Seq<Seq<u8>>, i: int, j: int)
    requires
        0 <= i <= j <= windows.len(),
    ensures
        offset_of(windows, i) <= offset_of(windows, j),
        i < j ==> offset_of(windows, i) + windows[i].len() <= offset_of(windows, j),
    decreases j - i,
{
    if i < j {
        lemma_offset_of_grows(windows, i, j - 1);
    }
}

/// Each window stands in the file at its offset.
pub proof fn lemma_window_in_file(windows: Seq<Seq<u8>>, index: int)
    requires
        0 <= index < windows.len(),
    ensures
        offset_of(windows, index) + windows[index].len() <= concat(windows).len(),
        part_of(concat(windows), offset_of(windows, index), windows[index].len())
            == windows[index],
    decreases windows.len(),
{
    let front = windows.drop_last();
    lemma_concat_len(front);
    lemma_concat_len(windows);
    lemma_offset_of_prefix(windows, front, windows.len() - 1);
    if index == windows.len() - 1 {
        assert(part_of(concat(windows), offset_of(windows, index), windows[index].len())
            =~= windows[index]);
    } else {
        lemma_window_in_file(front, index);
        lemma_offset_of_prefix(windows, front, index);
        assert(part_of(concat(windows), offset_of(windows, index), windows[index].len())
            =~= part_of(concat(front), offset_of(front, index), front[index].len()));
    }
}

/// Writing into a window writes into the file at the window's offset.
pub proof fn lemma_written_in_file(
    windows: Seq<Seq<u8>>,
    index: int,
    position: nat,
    data: Seq<u8>,
)
    requires
        0 <= index < windows.len(),
        position + data.len() <= windows[index].len(),
    ensures
        concat(windows.update(index, written(windows[index], position, data))) == written(
            concat(windows),
            offset_of(windows, index) + position,
            data,
        ),
    decreases windows.len(),
{
    let front = windows.drop_last();
    let after = windows.update(index, written(windows[index], position, data));
    lemma_concat_len(front);
    lemma_offset_of_prefix(windows, front, windows.len() - 1);
    if index == windows.len() - 1 {
        assert(after.drop_last() =~= front);
        assert(concat(after) =~= written(
            concat(windows),
            offset_of(windows, index) + position,
            data,
        ));
    } else {
        lemma_written_in_file(front, index, position, data);
        lemma_window_in_file(front, index);
        lemma_offset_of_prefix(windows, front, index);
        assert(after.drop_last() =~= front.update(
            index,
            written(front[index], position, data),
        ));
        assert(concat(after) =~= written(
            concat(windows),
            offset_of(windows, index) + position,
            data,
        ));
    }
}

/// Files of the same shape have the same length.
pub proof fn lemma_same_shape_len(a: Seq<Seq<u8>>, b: Seq<Seq<u8>>)
    requires
        same_shape(a, b),
    ensures
        concat(a).len() == concat(b).len(),
{
    lemma_concat_len(a);
    lemma_concat_len(b);
    lemma_offset_of_prefix(a, b, a.len() as int);
}

/// `b` holds the windows of `a`, with the same lengths, and perhaps more
/// behind them.
pub open spec fn continues(b: Seq<Seq<u8>>, a: Seq<Seq<u8>>) -> bool {
    &&& a.len() <= b.len()
    &&& forall|i: int|
        #![trigger a[i]]
        #![trigger b[i]]
        0 <= i < a.len() ==> a[i].len() == b[i].len()
}

/// Continuing is transitive.
pub proof fn lemma_continues_trans(c: Seq<Seq<u8>>, b: Seq<Seq<u8>>, a: Seq<Seq<u8>>)
    requires
        continues(c, b),
        continues(b, a),
    ensures
        continues(c, a),
{
    assert forall|i: int| 0 <= i < a.len() implies (#[trigger] a[i]).len() == c[i].len() by {
        assert(a[i].len() == b[i].len());
        assert(b[i].len() == c[i].len());
    }
    assert forall|i: int| 0 <= i < a.len() implies a[i].len() == (#[trigger] c[i]).len() by {
        assert(a[i].len() == b[i].len());
        assert(b[i].len() == c[i].len());
    }
}

/// What a `Layouter` is, as plain values.
pub struct LayouterView {
    /// Every window's length is a multiple of this.
    pub alignment: nat,
    /// The windows, in the order in which they were reserved.
    pub windows: Seq<Seq<u8>>,
}

impl LayouterView {
    /// The file: the windows one after the other.
    pub open spec fn file(self) -> Seq<u8> {
        concat(self.windows)
    }

    /// The alignment is positive and divides every window's length.
    pub open spec fn wf(self) -> bool {
        &&& self.alignment >= 1
        &&& forall|i: int|
            0 <= i < self.windows.len() ==> (#[trigger] self.windows[i]).len() % self.alignment
                == 0
    }

    /// The same arena with other bytes in its windows.
    pub open spec fn same_layout(self, other: LayouterView) -> bool {
        &&& self.alignment == other.alignment
        &&& same_shape(self.windows, other.windows)
    }
}

/// What a `Reservation` is, as plain values.
pub struct ReservationView {
    /// Which window of the arena this is.
    pub index: nat,
    /// Where the window starts in the file.
    pub offset: nat,
    /// The window's length, padding included.
    pub len: nat,
    /// The length that was asked for, padding excluded.
    pub unpadded_len: nat,
}

impl ReservationView {
    /// The handle names a window of `windows`, with its offset and length.
    pub open spec fn placed_in(self, windows: Seq<Seq<u8>>) -> bool {
        &&& self.index < windows.len()
        &&& self.offset == offset_of(windows, self.index as int)
        &&& self.len == windows[self.index as int].len()
        &&& self.unpadded_len <= self.len
    }
}

/// A handle stays good when the bytes in the windows change and when
/// windows are added behind.
pub proof fn lemma_placed_in_continues(r: ReservationView, a: Seq<Seq<u8>>, b: Seq<Seq<u8>>)
    requires
        continues(b, a),
        r.placed_in(a),
    ensures
        r.placed_in(b),
{
    lemma_offset_of_prefix(a, b, r.index as int);
}

/// The byte arena: fixed-size windows in the order of their reservation.
#[derive(Debug)]
pub struct Layouter {
    alignment: usize,
    current_length: usize,
    buffer: Vec<Vec<u8>>,
}

impl View for Layouter {
    type V = LayouterView;

    closed spec fn view(&self) -> LayouterView {
        LayouterView {
            alignment: self.alignment as nat,
            windows: Seq::new(self.buffer@.len(), |i: int| self.buffer@[i]@),
        }
    }
}

/// A window of the arena: where it lies in the file and how long it is.
#[derive(Debug, Clone, Copy, PartialEq, Eq)]
pub struct Reservation {
    index: usize,
    offset: usize,
    len: usize,
    unpadded_len: usize,
}

impl View for Reservation {
    type V = ReservationView;

    closed spec fn view(&self) -> ReservationView {
        ReservationView {
            index: self.index as nat,
            offset: self.offset as nat,
            len: self.len as nat,
            unpadded_len: self.unpadded_len as nat,
        }
    }
}

impl Layouter {
    /// The running length agrees with the windows.
    pub closed spec fn counted(&self) -> bool {
        self.current_length == concat(self@.windows).len()
    }

    /// The arena is in order: see `LayouterView::wf`.
    pub open spec fn wf(&self) -> bool {
        &&& self.counted()
        &&& self@.wf()
    }

    /// An arena without windows.
    pub fn new(alignment: usize) -> (layouter: Self)
        requires
            alignment >= 1,
        ensures
            layouter.wf(),
            layouter@.alignment == alignment,
            layouter@.windows == Seq::<Seq<u8>>::empty(),
    {
        let layouter = Self { alignment, current_length: 0, buffer: Vec::new() };
        assert(layouter@.windows =~= Seq::<Seq<u8>>::empty());
        layouter
    }

    /// The alignment that the arena was made with.
    pub fn alignment(&self) -> (alignment: usize)
        ensures
            alignment == self@.alignment,
    {
        self.alignment
    }

    /// The number of bytes reserved so far.
    pub fn current_length(&self) -> (len: usize)
        requires
            self.wf(),
        ensures
            len == self@.file().len(),
    {
        self.current_length
    }

    /// Appends a zero-filled window of `len` bytes, rounded up to the
    /// alignment, and hands out its handle.
    pub fn reserve(&mut self, len: usize) -> (reservation: Reservation)
        requires
            old(self).wf(),
            old(self)@.file().len() + aligned(len as nat, old(self)@.alignment) <= usize::MAX,
        ensures
            final(self).wf(),
            final(self)@.alignment == old(self)@.alignment,
            final(self)@.windows == old(self)@.windows.push(
                zeros(aligned(len as nat, old(self)@.alignment)),
            ),
            reservation@.index == old(self)@.windows.len(),
            reservation@.offset == old(self)@.file().len(),
            reservation@.len == aligned(len as nat, old(self)@.alignment),
            reservation@.len % old(self)@.alignment == 0,
            reservation@.unpadded_len == len,
            reservation@.placed_in(final(self)@.windows),
            final(self)@.file().len() == reservation@.offset + reservation@.len,
    {
        proof {
            lemma_aligned(len as nat, self.alignment as nat);
        }
        let padding = (self.alignment - (len % self.alignment)) % self.alignment;
        let effective = len + padding;
        let offset = self.current_length;
        let index = self.buffer.len();
        let window: Vec<u8> = vec![0u8; effective];
        assert(window@ =~= zeros(effective as nat));
        self.current_length = offset + effective;
        self.buffer.push(window);
        proof {
            let before = old(self)@.windows;
            let after = self@.windows;
            assert(after =~= before.push(zeros(effective as nat)));
            assert(after.drop_last() =~= before);
            lemma_concat_len(before);
            lemma_concat_len(after);
            lemma_offset_of_prefix(after, before, before.len() as int);
        }
        Reservation { index, offset, len: effective, unpadded_len: len }
    }

    /// The file as it stands: the windows one after the other.
    pub fn get_result(&self) -> (result: Vec<u8>)
        requires
            self.wf(),
        ensures
            result@ == self@.file(),
    {
        let mut result: Vec<u8> = Vec::with_capacity(self.current_length);
        let mut i: usize = 0;
        while i < self.buffer.len()
            invariant
                i <= self.buffer@.len(),
                result@ == concat(self@.windows.take(i as int)),
            decreases self.buffer@.len() - i,
        {
            result.extend_from_slice(self.buffer[i].as_slice());
            proof {
                let next = self@.windows.take(i + 1);
                assert(next.drop_last() =~= self@.windows.take(i as int));
                assert(next.last() == self.buffer@[i as int]@);
            }
            i += 1;
        }
        assert(self@.windows.take(i as int) =~= self@.windows);
        result
    }
}

/// Reserving twice in a row: the second window starts where the first ends.
pub proof fn law_reservations_adjoin(
    windows: Seq<Seq<u8>>,
    first: ReservationView,
    second: ReservationView,
)
    requires
        first.placed_in(windows),
        second.placed_in(windows),
        second.index == first.index + 1,
    ensures
        second.offset == first.offset + first.len,
{
}

/// Of two handles on one arena the later starts at or behind the end of the
/// earlier.
pub proof fn law_reservations_ordered(
    windows: Seq<Seq<u8>>,
    first: ReservationView,
    second: ReservationView,
)
    requires
        first.placed_in(windows),
        second.placed_in(windows),
        first.index < second.index,
    ensures
        first.offset + first.len <= second.offset,
{
    lemma_offset_of_grows(windows, first.index as int, second.index as int);
}

impl Reservation {
    /// Where the window's first byte stands in the file.
    pub fn offset(&self) -> (offset: usize)
        ensures
            offset == self@.offset,
    {
        self.offset
    }

    /// The window's length, padding included.
    pub fn len(&self) -> (len: usize)
        ensures
            len == self@.len,
    {
        self.len
    }

    /// The length that was asked for, padding excluded.
    pub fn unpadded_len(&self) -> (len: usize)
        ensures
            len == self@.unpadded_len,
    {
        self.unpadded_len
    }

    /// A cursor for writing, at the window's start.
    pub fn writer(&self) -> (writer: WindowWriter)
        ensures
            writer@.reservation == self@,
            writer@.position == 0,
    {
        WindowWriter { reservation: *self, position: 0 }
    }

    /// A cursor for reading, at the window's start.
    pub fn reader(&self) -> (reader: WindowReader)
        ensures
            reader@.reservation == self@,
            reader@.position == 0,
    {
        WindowReader { reservation: *self, position: 0 }
    }
}

/// What a cursor is, as plain values.
pub struct CursorView {
    /// The window that the cursor moves in.
    pub reservation: ReservationView,
    /// The next byte to read or write, counted from the window's start.
    pub position: nat,
}

/// A position in a window, for writing.
#[derive(Debug, Clone, Copy)]
pub struct WindowWriter {
    reservation: Reservation,
    position: usize,
}

impl View for WindowWriter {
    type V = CursorView;

    closed spec fn view(&self) -> CursorView {
        CursorView { reservation: self.reservation@, position: self.position as nat }
    }
}

impl WindowWriter {
    /// Where the next byte goes.
    pub fn position(&self) -> (position: usize)
        ensures
            position == self@.position,
    {
        self.position
    }

    /// Moves to `position`, counted from the window's start.
    pub fn seek(&mut self, position: usize)
        ensures
            final(self)@.reservation == old(self)@.reservation,
            final(self)@.position == position,
    {
        self.position = position;
    }

    /// Writes `data` at the position and moves behind it. Data that would
    /// pass the window's end is refused: what fits is written, the position
    /// moves to the end, and the call fails.
    pub fn write_all(&mut self, layouter: &mut Layouter, data: &[u8]) -> (result: Result<
        (),
        LayoutError,
    >)
        requires
            old(layouter).wf(),
            old(self)@.reservation.placed_in(old(layouter)@.windows),
        ensures
            final(layouter).wf(),
            final(layouter)@.same_layout(old(layouter)@),
            final(self)@.reservation == old(self)@.reservation,
            result is Ok <==> old(self)@.position + data@.len() <= old(self)@.reservation.len,
            result == if old(self)@.position + data@.len() <= old(self)@.reservation.len {
                Ok::<(), LayoutError>(())
            } else {
                Err::<(), LayoutError>(LayoutError::OutOfBounds)
            },
            final(layouter)@.windows == old(layouter)@.windows.update(
                old(self)@.reservation.index as int,
                written(
                    old(layouter)@.windows[old(self)@.reservation.index as int],
                    old(self)@.position,
                    data@,
                ),
            ),
            final(self)@.position == if result is Ok {
                old(self)@.position + data@.len()
            } else if old(self)@.position <= old(self)@.reservation.len {
                old(self)@.reservation.len
            } else {
                old(self)@.position
            },
    {
        let index = self.reservation.index;
        let len = self.reservation.len;
        let start = self.position;
        let ghost before = layouter@.windows;
        let room: usize = if start <= len {
            len - start
        } else {
            0
        };
        let count: usize = if data.len() <= room {
            data.len()
        } else {
            room
        };
        let mut window: Vec<u8> = Vec::new();
        std::mem::swap(&mut window, &mut layouter.buffer[index]);
        let mut i: usize = 0;
        while i < count
            invariant
                i <= count,
                count <= data@.len(),
                count == 0 || start + count <= len,
                index < before.len(),
                before[index as int].len() == len,
                window@.len() == len,
                window@ == written(before[index as int], start as nat, data@.take(i as int)),
            decreases count - i,
        {
            window.set(start + i, data[i]);
            assert(window@ =~= written(
                before[index as int],
                start as nat,
                data@.take(i + 1),
            ));
            i += 1;
        }
        std::mem::swap(&mut window, &mut layouter.buffer[index]);
        proof {
            let after = layouter@.windows;
            assert(written(before[index as int], start as nat, data@.take(count as int))
                =~= written(before[index as int], start as nat, data@));
            assert(after =~= before.update(
                index as int,
                written(before[index as int], start as nat, data@),
            ));
            assert(same_shape(after, before));
            lemma_same_shape_len(after, before);
        }
        if count == data.len() && start <= len {
            self.position = start + count;
            Ok(())
        } else {
            if start <= len {
                self.position = len;
            }
            Err(LayoutError::OutOfBounds)
        }
    }
}

/// A position in a window, for reading.
#[derive(Debug, Clone, Copy)]
pub struct WindowReader {
    reservation: Reservation,
    position: usize,
}

impl View for WindowReader {
    type V = CursorView;

    closed spec fn view(&self) -> CursorView {
        CursorView { reservation: self.reservation@, position: self.position as nat }
    }
}

impl WindowReader {
    /// Where the next byte comes from.
    pub fn position(&self) -> (position: usize)
        ensures
            position == self@.position,
    {
        self.position
    }

    /// Moves to `position`, counted from the window's start.
    pub fn seek(&mut self, position: usize)
        ensures
            final(self)@.reservation == old(self)@.reservation,
            final(self)@.position == position,
    {
        self.position = position;
    }

    /// Reads from the position to the window's end and moves there.
    pub fn read_to_end(&mut self, layouter: &Layouter) -> (bytes: Vec<u8>)
        requires
            layouter.wf(),
            old(self)@.reservation.placed_in(layouter@.windows),
        ensures
            final(self)@.reservation == old(self)@.reservation,
            bytes@ == if old(self)@.position <= old(self)@.reservation.len {
                layouter@.windows[old(self)@.reservation.index as int].skip(
                    old(self)@.position as int,
                )
            } else {
                Seq::empty()
            },
            final(self)@.position == if old(self)@.position <= old(self)@.reservation.len {
                old(self)@.reservation.len
            } else {
                old(self)@.position
            },
    {
        let window = &layouter.buffer[self.reservation.index];
        let mut bytes: Vec<u8> = Vec::new();
        if self.position <= self.reservation.len {
            let rest = vstd::slice::slice_subrange(
                window.as_slice(),
                self.position,
                self.reservation.len,
            );
            bytes.extend_from_slice(rest);
            assert(bytes@ =~= layouter@.windows[self.reservation.index as int].skip(
                self.position as int,
            ));
            self.position = self.reservation.len;
        }
        bytes
    }

    /// Reads `count` bytes at the position and moves behind them. Fails, and
    /// stays where it is, when fewer are left.
    pub fn read_exact(&mut self, layouter: &Layouter, count: usize) -> (result: Result<
        Vec<u8>,
        LayoutError,
    >)
        requires
            layouter.wf(),
            old(self)@.reservation.placed_in(layouter@.windows),
        ensures
            final(self)@.reservation == old(self)@.reservation,
            result is Ok <==> old(self)@.position + count <= old(self)@.reservation.len,
            result matches Ok(bytes) ==> {
                &&& bytes@ == layouter@.windows[old(self)@.reservation.index as int].subrange(
                    old(self)@.position as int,
                    old(self)@.position + count,
                )
                &&& final(self)@.position == old(self)@.position + count
            },
            result matches Err(e) ==> {
                &&& e == LayoutError::OutOfBounds
                &&& final(self)@.position == old(self)@.position
            },
    {
        if self.position > self.reservation.len || count > self.reservation.len - self.position {
            return Err(LayoutError::OutOfBounds);
        }
        let window = &layouter.buffer[self.reservation.index];
        let part = vstd::slice::slice_subrange(
            window.as_slice(),
            self.position,
            self.position + count,
        );
        let mut bytes: Vec<u8> = Vec::new();
        bytes.extend_from_slice(part);
        self.position = self.position + count;
        Ok(bytes)
    }
}

/// What a laid-out object keeps from one pass to the next.
pub struct PassState {
    /// The object's own flag: it asks for another pass.
    pub pending: bool,
    /// The values that the last pass took from the file or from the windows,
    /// if there was one and it took any. The next pass compares with them.
    pub remembered: Option<Seq<u32>>,
    /// The states of the objects below this one, in directory order.
    pub parts: Seq<PassState>,
}

impl PassState {
    /// An object asks for another pass when its own flag is set or an
    /// object below it asks for one.
    pub open spec fn requires_pass(self) -> bool
        decreases self,
    {
        self.pending || exists|i: int|
            0 <= i < self.parts.len() && (#[trigger] self.parts[i]).requires_pass()
    }

    /// The state of an object that stands alone and has not run a pass.
    pub open spec fn fresh() -> PassState {
        PassState { pending: true, remembered: None, parts: Seq::empty() }
    }

    /// The state of an object that stands alone and whose bytes are final.
    pub open spec fn settled() -> PassState {
        PassState { pending: false, remembered: None, parts: Seq::empty() }
    }
}

/// What one pass makes of an object's state and of the arena's windows.
pub struct Step {
    /// The object's state after the pass.
    pub state: PassState,
    /// The arena's windows after the pass.
    pub windows: Seq<Seq<u8>>,
    /// What the pass returns.
    pub outcome: Result<(), LayoutError>,
}

/// Where in an arena the next window will stand.
pub struct Place {
    /// The arena's alignment.
    pub alignment: nat,
    /// The number of windows before.
    pub index: nat,
    /// The number of bytes before.
    pub offset: nat,
}

impl Place {
    /// The handle on a window of `len` bytes reserved here.
    pub open spec fn reservation(self, len: nat) -> ReservationView {
        ReservationView {
            index: self.index,
            offset: self.offset,
            len: aligned(len, self.alignment),
            unpadded_len: len,
        }
    }

    /// The place behind a window of `len` bytes reserved here.
    pub open spec fn after(self, len: nat) -> Place {
        Place {
            alignment: self.alignment,
            index: self.index + 1,
            offset: self.offset + aligned(len, self.alignment),
        }
    }
}

impl LayouterView {
    /// Where the next window will stand.
    pub open spec fn place(self) -> Place {
        Place { alignment: self.alignment, index: self.windows.len(), offset: self.file().len() }
    }
}

/// The pass of an object that writes `content` at the start of its window
/// whatever the file holds: afterwards it asks for no further pass. Content
/// longer than the window is out of bounds.
pub open spec fn plain_step(
    reservation: ReservationView,
    content: Seq<u8>,
    windows: Seq<Seq<u8>>,
) -> Step {
    Step {
        state: PassState::settled(),
        windows: windows.update(
            reservation.index as int,
            written(windows[reservation.index as int], 0, content),
        ),
        outcome: if content.len() <= reservation.len {
            Ok(())
        } else {
            Err(LayoutError::OutOfBounds)
        },
    }
}

/// An object that was laid out: it holds a window of the arena and fills it
/// pass by pass.
pub trait Layouted {
    /// The window that the object fills. No pass changes it.
    spec fn reservation_spec(&self) -> ReservationView;

    /// What the object keeps from pass to pass.
    spec fn state(&self) -> PassState;

    /// What a pass does, given the state, the arena's windows and the file
    /// as it stood before the sweep. No pass changes this function.
    spec fn step(&self, state: PassState, windows: Seq<Seq<u8>>, current_file: Seq<u8>) -> Step;

    /// What the object needs of the arena to run a pass: that its windows
    /// are windows of the arena.
    spec fn placed_in(&self, windows: Seq<Seq<u8>>) -> bool;

    /// The object's window.
    fn reservation(&self) -> (reservation: &Reservation)
        ensures
            reservation@ == self.reservation_spec(),
    ;

    /// Whether the bytes written so far may still change: the object's own
    /// flag, or that of an object below it.
    fn requires_another_pass(&self) -> (pending: bool)
        ensures
            pending == self.state().requires_pass(),
    ;

    /// Writes the object's bytes into its window. `current_file` is the
    /// whole file as it stood before the sweep began.
    fn pass(&mut self, layouter: &mut Layouter, current_file: &[u8]) -> (result: Result<
        (),
        LayoutError,
    >)
        requires
            old(layouter).wf(),
            forall|w: Seq<Seq<u8>>|
                continues(w, old(layouter)@.windows) ==> #[trigger] old(self).placed_in(w),
            current_file@.len() == old(layouter)@.file().len(),
        ensures
            final(layouter).wf(),
            final(layouter)@.same_layout(old(layouter)@),
            forall|w: Seq<Seq<u8>>|
                continues(w, final(layouter)@.windows) ==> #[trigger] final(self).placed_in(w),
            final(self).reservation_spec() == old(self).reservation_spec(),
            forall|s: PassState, w: Seq<Seq<u8>>, f: Seq<u8>| #[trigger]
                final(self).step(s, w, f) == old(self).step(s, w, f),
            final(self).state() == old(self).step(
                old(self).state(),
                old(layouter)@.windows,
                current_file@,
            ).state,
            final(layouter)@.windows == old(self).step(
                old(self).state(),
                old(layouter)@.windows,
                current_file@,
            ).windows,
            result == old(self).step(
                old(self).state(),
                old(layouter)@.windows,
                current_file@,
            ).outcome,
    ;
}

/// Windows of the given lengths, filled with zero bytes.
pub open spec fn zero_windows(lens: Seq<nat>) -> Seq<Seq<u8>> {
    Seq::new(lens.len(), |i: int| zeros(lens[i]))
}

/// A description that can be laid out: it reserves its windows and hands
/// out what will fill them.
pub trait Layoutable<L> {
    /// The lengths of the windows that the description reserves on an
    /// arena of the given alignment, in the order of their reservation.
    spec fn window_lens(&self, alignment: nat) -> Seq<nat>;

    /// Whether the description can be laid out at `place`: its windows fit
    /// below the greatest length that the machine can count.
    spec fn fits(&self, place: Place) -> bool;

    /// Reserves the description's windows, in a fixed order, and hands out
    /// what fills them.
    fn layout(&self, layouter: &mut Layouter) -> (layouted: L)
        requires
            old(layouter).wf(),
            self.fits(old(layouter)@.place()),
        ensures
            final(layouter).wf(),
            final(layouter)@.alignment == old(layouter)@.alignment,
            final(layouter)@.windows == old(layouter)@.windows + zero_windows(
                self.window_lens(old(layouter)@.alignment),
            ),
    ;
}

} // verus!
