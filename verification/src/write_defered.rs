//! Writes whose bytes are known only later: a placeholder is written
//! now, and the bytes take its place when all else has been written.

use crate::bytes::ByteSink;
use crate::layout::written;
use crate::open_type::error::WriteError;
use vstd::prelude::*;

verus! {

/// A value that can be computed once the buffer is complete.
pub trait WriteOp {
    /// The number of bytes of the value.
    spec fn width(&self) -> nat;

    /// Whether the value can be computed from `buffer`.
    spec fn succeeds(&self, buffer: Seq<u8>) -> bool;

    /// The value for `buffer`.
    spec fn value(&self, buffer: Seq<u8>) -> Seq<u8>;

    /// The number of bytes of the value.
    fn size(&self) -> (size: usize)
        ensures
            size == self.width(),
    ;

    /// The value for `buffer`.
    fn run(&self, buffer: &[u8]) -> (result: Result<Vec<u8>, WriteError>)
        ensures
            result is Ok <==> self.succeeds(buffer@),
            result matches Ok(value) ==> value@ == self.value(buffer@) && value@.len()
                == self.width(),
    ;
}

/// A deferred value of any kind.
pub struct WriteOpBox {
    /// The value.
    pub op: Box<dyn WriteOp>,
}

/// A deferred value and the place that waits for it.
pub struct Pending {
    /// Where the placeholder starts.
    pub position: usize,
    /// The value.
    pub op: WriteOpBox,
}

/// Something that takes deferred writes.
pub trait DeferedWrite {
    /// The bytes written so far, placeholders included.
    spec fn bytes(&self) -> Seq<u8>;

    /// The writes that wait, in the order in which they will be resolved.
    spec fn waiting(&self) -> Seq<Pending>;

    /// What the writer needs to hold.
    spec fn wf(&self) -> bool;

    /// Writes the placeholder `temp` and lets `operation` wait for its
    /// place. A write that waited for the same place is dropped. `temp` is
    /// as long as the value.
    fn defer_write(&mut self, temp: &[u8], operation: WriteOpBox)
        requires
            old(self).wf(),
            temp@.len() == operation.op.width(),
        ensures
            final(self).wf(),
            final(self).bytes() == old(self).bytes() + temp@,
            final(self).waiting() == without(old(self).waiting(), old(self).bytes().len()).push(
                Pending { position: old(self).bytes().len() as usize, op: operation },
            ),
    ;
}

/// The waiting writes without those for `position`.
pub open spec fn without(waiting: Seq<Pending>, position: nat) -> Seq<Pending>
    decreases waiting.len(),
{
    if waiting.len() == 0 {
        Seq::empty()
    } else if waiting.last().position == position {
        without(waiting.drop_last(), position)
    } else {
        without(waiting.drop_last(), position).push(waiting.last())
    }
}

/// What resolving leaves: whether all writes could be resolved, and the
/// buffer.
pub struct Resolution {
    /// Whether every write could be resolved.
    pub complete: bool,
    /// The buffer.
    pub bytes: Seq<u8>,
}

/// Resolving the first `upto` waiting writes, one after the other, each on
/// the buffer that those before it left: the value takes the place of the
/// placeholder. The first write that cannot be resolved ends it.
pub open spec fn resolution(bytes: Seq<u8>, waiting: Seq<Pending>, upto: int) -> Resolution
    decreases upto,
{
    if upto <= 0 {
        Resolution { complete: true, bytes }
    } else {
        let before = resolution(bytes, waiting, upto - 1);
        if before.complete && waiting[upto - 1].op.op.succeeds(before.bytes) {
            Resolution {
                complete: true,
                bytes: written(
                    before.bytes,
                    waiting[upto - 1].position as nat,
                    waiting[upto - 1].op.op.value(before.bytes),
                ),
            }
        } else {
            Resolution { complete: false, bytes: before.bytes }
        }
    }
}

/// Whether the first `upto` waiting writes can be resolved.
pub open spec fn resolvable(bytes: Seq<u8>, waiting: Seq<Pending>, upto: int) -> bool {
    resolution(bytes, waiting, upto).complete
}

/// The buffer after the first `upto` waiting writes were resolved.
pub open spec fn resolved(bytes: Seq<u8>, waiting: Seq<Pending>, upto: int) -> Seq<u8> {
    resolution(bytes, waiting, upto).bytes
}

/// Every placeholder lies in the buffer.
pub open spec fn placeholders_fit(bytes: Seq<u8>, waiting: Seq<Pending>) -> bool {
    forall|i: int|
        0 <= i < waiting.len() ==> (#[trigger] waiting[i]).position + waiting[i].op.op.width()
            <= bytes.len()
}

/// Resolving keeps the buffer's length.
pub proof fn lemma_resolved_len(bytes: Seq<u8>, waiting: Seq<Pending>, upto: int)
    ensures
        resolved(bytes, waiting, upto).len() == bytes.len(),
    decreases upto,
{
    if upto > 0 {
        lemma_resolved_len(bytes, waiting, upto - 1);
    }
}

/// Dropping waiting writes keeps the others' placeholders in the buffer.
pub proof fn lemma_without_fits(bytes: Seq<u8>, waiting: Seq<Pending>, position: nat)
    requires
        placeholders_fit(bytes, waiting),
    ensures
        placeholders_fit(bytes, without(waiting, position)),
    decreases waiting.len(),
{
    if waiting.len() > 0 {
        assert(placeholders_fit(bytes, waiting.drop_last())) by {
            assert forall|i: int| 0 <= i < waiting.drop_last().len() implies (
            #[trigger] waiting.drop_last()[i]).position + waiting.drop_last()[i].op.op.width()
                <= bytes.len() by {
                assert(waiting.drop_last()[i] == waiting[i]);
            }
        }
        lemma_without_fits(bytes, waiting.drop_last(), position);
        assert(waiting.last() == waiting[waiting.len() - 1]);
    }
}

/// A buffer with writes that wait for their values.
pub struct WriteDefered {
    inner: ByteSink,
    ops: Vec<Pending>,
}

impl WriteDefered {
    /// A writer on `inner` on which nothing waits.
    pub fn new(inner: ByteSink) -> (writer: Self)
        ensures
            writer.wf(),
            writer.bytes() == inner@,
            writer.waiting() == Seq::<Pending>::empty(),
    {
        Self { inner, ops: Vec::new() }
    }

    /// Appends `data`.
    pub fn write_all(&mut self, data: &[u8])
        requires
            old(self).wf(),
        ensures
            final(self).wf(),
            final(self).bytes() == old(self).bytes() + data@,
            final(self).waiting() == old(self).waiting(),
    {
        self.inner.put_bytes(data);
    }

    /// Writes a placeholder of zero bytes as long as the value of
    /// `operation` and lets `operation` wait for its place.
    pub fn write_defered(&mut self, operation: WriteOpBox)
        requires
            old(self).wf(),
        ensures
            final(self).wf(),
            final(self).bytes() == old(self).bytes() + crate::layout::zeros(operation.op.width()),
            final(self).waiting() == without(old(self).waiting(), old(self).bytes().len()).push(
                Pending { position: old(self).bytes().len() as usize, op: operation },
            ),
    {
        let size = operation.op.size();
        let temp: Vec<u8> = vec![0u8; size];
        assert(temp@ =~= crate::layout::zeros(size as nat));
        self.defer_write(temp.as_slice(), operation);
    }

    /// Resolves the waiting writes in their order: each value is computed
    /// from the buffer as it stands and takes the place of its
    /// placeholder. Hands out the buffer, or the error of the first write
    /// that cannot be resolved.
    pub fn resolve_pending(self) -> (result: Result<ByteSink, WriteError>)
        requires
            self.wf(),
        ensures
            result is Ok <==> resolvable(self.bytes(), self.waiting(), self.waiting().len() as int),
            result matches Ok(inner) ==> inner@ == resolved(
                self.bytes(),
                self.waiting(),
                self.waiting().len() as int,
            ),
    {
        let ghost bytes = self.inner@;
        let ghost waiting = self.ops@;
        let mut inner = self.inner;
        let ops = self.ops;
        let mut i: usize = 0;
        while i < ops.len()
            invariant
                i <= ops@.len(),
                ops@ == waiting,
                bytes == self.bytes(),
                waiting == self.waiting(),
                placeholders_fit(bytes, waiting),
                resolvable(bytes, waiting, i as int),
                inner@ == resolved(bytes, waiting, i as int),
            decreases ops@.len() - i,
        {
            proof {
                lemma_resolved_len(bytes, waiting, i as int);
            }
            match ops[i].op.op.run(inner.as_slice()) {
                Ok(value) => {
                    assert(waiting[i as int].position + waiting[i as int].op.op.width()
                        <= bytes.len());
                    inner.patch(ops[i].position, value.as_slice());
                },
                Err(error) => {
                    proof {
                        assert(!waiting[i as int].op.op.succeeds(inner@));
                        assert(!resolution(bytes, waiting, i + 1).complete);
                        lemma_unresolvable(bytes, waiting, i + 1, waiting.len() as int);
                    }
                    return Err(error);
                },
            }
            i += 1;
        }
        Ok(inner)
    }

    /// Removes the writes that wait for `position`.
    fn forget(&mut self, position: usize)
        requires
            old(self).wf(),
        ensures
            final(self).wf(),
            final(self).bytes() == old(self).bytes(),
            final(self).waiting() == without(old(self).waiting(), position as nat),
    {
        let mut kept: Vec<Pending> = Vec::new();
        let mut rest: Vec<Pending> = Vec::new();
        std::mem::swap(&mut rest, &mut self.ops);
        let ghost all = rest@;
        let mut taken: Vec<Pending> = Vec::new();
        while rest.len() > 0
            invariant
                rest@.len() <= all.len(),
                rest@ == all.take(rest@.len() as int),
                taken@.len() + rest@.len() == all.len(),
                forall|k: int|
                    0 <= k < taken@.len() ==> #[trigger] taken@[k] == all[all.len() - 1 - k],
            decreases rest@.len(),
        {
            let last = rest.pop();
            match last {
                Some(pending) => {
                    taken.push(pending);
                },
                None => {},
            }
            assert(rest@ =~= all.take(rest@.len() as int));
        }
        while taken.len() > 0
            invariant
                taken@.len() <= all.len(),
                forall|k: int|
                    0 <= k < taken@.len() ==> #[trigger] taken@[k] == all[all.len() - 1 - k],
                kept@ == without(all.take(all.len() - taken@.len()), position as nat),
            decreases taken@.len(),
        {
            let ghost done = all.len() - taken@.len();
            let next = taken.pop();
            proof {
                assert(all.take(done + 1).drop_last() =~= all.take(done));
                assert(all.take(done + 1).last() == all[done]);
            }
            match next {
                Some(pending) => {
                    if pending.position != position {
                        kept.push(pending);
                    }
                },
                None => {},
            }
        }
        proof {
            assert(all.take(all.len() as int) =~= all);
            lemma_without_fits(self.inner@, all, position as nat);
        }
        self.ops = kept;
    }
}

/// After a write that cannot be resolved, nothing more is resolved.
pub proof fn lemma_unresolvable(bytes: Seq<u8>, waiting: Seq<Pending>, failed: int, upto: int)
    requires
        0 <= failed <= upto,
        !resolvable(bytes, waiting, failed),
    ensures
        !resolvable(bytes, waiting, upto),
    decreases upto - failed,
{
    if failed < upto {
        lemma_unresolvable(bytes, waiting, failed, upto - 1);
    }
}

impl DeferedWrite for WriteDefered {
    closed spec fn bytes(&self) -> Seq<u8> {
        self.inner@
    }

    closed spec fn waiting(&self) -> Seq<Pending> {
        self.ops@
    }

    closed spec fn wf(&self) -> bool {
        placeholders_fit(self.inner@, self.ops@)
    }

    fn defer_write(&mut self, temp: &[u8], operation: WriteOpBox) {
        let position = self.inner.len();
        self.forget(position);
        self.inner.put_bytes(temp);
        let ghost before = self.ops@;
        self.ops.push(Pending { position, op: operation });
        proof {
            assert forall|i: int| 0 <= i < self.ops@.len() implies (
            #[trigger] self.ops@[i]).position + self.ops@[i].op.op.width()
                <= self.inner@.len() by {
                if i < before.len() {
                    assert(before[i].position + before[i].op.op.width() <= old(
                        self,
                    ).inner@.len());
                }
            }
        }
    }
}

/// A value that is known in advance.
pub struct KnownBytes {
    /// The value.
    pub bytes: Vec<u8>,
}

impl WriteOp for KnownBytes {
    open spec fn width(&self) -> nat {
        self.bytes@.len()
    }

    open spec fn succeeds(&self, buffer: Seq<u8>) -> bool {
        true
    }

    open spec fn value(&self, buffer: Seq<u8>) -> Seq<u8> {
        self.bytes@
    }

    fn size(&self) -> (size: usize) {
        self.bytes.len()
    }

    fn run(&self, buffer: &[u8]) -> (result: Result<Vec<u8>, WriteError>) {
        let mut value: Vec<u8> = Vec::new();
        value.extend_from_slice(self.bytes.as_slice());
        Ok(value)
    }
}

/// The checksum of the whole buffer, as four bytes.
pub struct ChecksumOfAll {}

impl WriteOp for ChecksumOfAll {
    open spec fn width(&self) -> nat {
        4
    }

    open spec fn succeeds(&self, buffer: Seq<u8>) -> bool {
        true
    }

    open spec fn value(&self, buffer: Seq<u8>) -> Seq<u8> {
        crate::bytes::u32_be(crate::checksum::checksum32_spec(buffer))
    }

    fn size(&self) -> (size: usize) {
        4
    }

    fn run(&self, buffer: &[u8]) -> (result: Result<Vec<u8>, WriteError>) {
        let mut sink = ByteSink::new();
        sink.put_u32(crate::checksum::checksum32(buffer));
        Ok(sink.into_bytes())
    }
}

} // verus!
