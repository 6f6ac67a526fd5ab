//! A font file written in one piece: header, directory and the tables'
//! bytes, without checksums.

use crate::bytes::{u32_be, u32_from_be, ByteSink};
use crate::open_type::error::WriteError;
use crate::open_type::directory::{header_bytes, put_header, SFNTVersion};
use crate::order::{is_stable_order, stable_order};
use vstd::prelude::*;

verus! {

/// The four bytes that name a table.
pub type Tag = [u8; 4];

/// Something that can be written out in one piece.
pub trait Object {
    /// The size that the object claims.
    spec fn size_spec(&self) -> nat;

    /// The bytes that writing appends, whether it succeeds or not.
    spec fn emitted(&self) -> Seq<u8>;

    /// Whether writing succeeds.
    spec fn writes(&self) -> bool;

    /// The size that the object claims.
    fn get_size(&self) -> (size: usize)
        ensures
            size == self.size_spec(),
    ;

    /// Appends the object's bytes to `sink`.
    fn write(&self, sink: &mut ByteSink) -> (result: Result<(), WriteError>)
        ensures
            final(sink)@ == old(sink)@ + self.emitted(),
            result is Ok <==> self.writes(),
    ;
}

/// An object with the tag of a table.
pub trait Table {
    /// The table's tag.
    spec fn tag_spec(&self) -> Seq<u8>;

    /// The size that the table claims.
    spec fn size_spec(&self) -> nat;

    /// The bytes that writing appends, whether it succeeds or not.
    spec fn emitted(&self) -> Seq<u8>;

    /// Whether writing succeeds.
    spec fn writes(&self) -> bool;

    /// The table's tag.
    fn get_tag(&self) -> (tag: Tag)
        ensures
            tag@ == self.tag_spec(),
    ;

    /// The size that the table claims.
    fn get_size(&self) -> (size: usize)
        ensures
            size == self.size_spec(),
    ;

    /// Appends the table's bytes to `sink`.
    fn write(&self, sink: &mut ByteSink) -> (result: Result<(), WriteError>)
        ensures
            final(sink)@ == old(sink)@ + self.emitted(),
            result is Ok <==> self.writes(),
    ;
}

/// A table of any kind.
pub struct TableBox {
    /// The table.
    pub table: Box<dyn Table>,
}

/// The description of a font file that is written in one piece.
pub struct Document {
    /// The container format that the file announces.
    pub sfnt_version: SFNTVersion,
    /// The tables, in any order.
    pub tables: Vec<TableBox>,
}

/// The number by which a tag is ordered: its bytes as a number, most
/// significant first.
pub open spec fn tag_keys(tables: Seq<TableBox>) -> Seq<u32> {
    Seq::new(tables.len(), |i: int| u32_from_be(tables[i].table.tag_spec()))
}

/// The sixteen bytes of the directory entry of a table at `offset`: the
/// tag, a checksum of zero, the offset and the claimed size.
pub open spec fn plain_entry(tag: Seq<u8>, offset: nat, size: nat) -> Seq<u8> {
    tag + u32_be(0) + u32_be(offset as u32) + u32_be(size as u32)
}

/// Where the table that is taken as number `upto` starts: behind header,
/// directory and the claimed sizes of the tables taken before it.
pub open spec fn start_of(tables: Seq<TableBox>, order: Seq<usize>, upto: int) -> nat
    decreases upto,
{
    if upto <= 0 {
        12 + 16 * tables.len()
    } else {
        start_of(tables, order, upto - 1) + tables[order[upto - 1] as int].table.size_spec()
    }
}

/// The directory entries of the first `upto` tables in `order`.
pub open spec fn plain_entries(tables: Seq<TableBox>, order: Seq<usize>, upto: int) -> Seq<u8>
    decreases upto,
{
    if upto <= 0 {
        Seq::empty()
    } else {
        plain_entries(tables, order, upto - 1) + plain_entry(
            tables[order[upto - 1] as int].table.tag_spec(),
            start_of(tables, order, upto - 1),
            tables[order[upto - 1] as int].table.size_spec(),
        )
    }
}

/// Whether the first `upto` tables in `order` can all be written.
pub open spec fn all_write(tables: Seq<TableBox>, order: Seq<usize>, upto: int) -> bool
    decreases upto,
{
    if upto <= 0 {
        true
    } else {
        all_write(tables, order, upto - 1) && tables[order[upto - 1] as int].table.writes()
    }
}

/// What the first `upto` tables in `order` append: each its bytes, up to
/// and with the first that cannot be written.
pub open spec fn bodies(tables: Seq<TableBox>, order: Seq<usize>, upto: int) -> Seq<u8>
    decreases upto,
{
    if upto <= 0 {
        Seq::empty()
    } else if all_write(tables, order, upto - 1) {
        bodies(tables, order, upto - 1) + tables[order[upto - 1] as int].table.emitted()
    } else {
        bodies(tables, order, upto - 1)
    }
}

/// The number of a tag.
fn tag_key(tag: &Tag) -> (key: u32)
    ensures
        key == u32_from_be(tag@),
{
    let high: u32 = (tag[0] as u32) * 0x100_0000 + (tag[1] as u32) * 0x1_0000;
    high + (tag[2] as u32) * 0x100 + (tag[3] as u32)
}

impl Document {
    /// The claimed sizes add up to no more than the machine can count.
    pub open spec fn fits(&self, order: Seq<usize>) -> bool {
        start_of(self.tables@, order, self.tables@.len() as int) <= usize::MAX
    }

    /// Appends the file to `sink`: the header, one directory entry for
    /// each table in the order of the tags, with a checksum of zero, the
    /// offset that the claimed sizes give and the claimed size; then the
    /// tables' bytes in the same order. Ends at the first table that cannot
    /// be written, with its error. The file has from 1 to 4095 tables.
    pub fn write(&self, sink: &mut ByteSink) -> (result: Result<(), WriteError>)
        requires
            1 <= self.tables@.len() <= 4095,
            forall|order: Seq<usize>|
                is_stable_order(order, tag_keys(self.tables@)) ==> #[trigger] self.fits(order),
        ensures
            exists|order: Seq<usize>|
                {
                    &&& #[trigger] is_stable_order(order, tag_keys(self.tables@))
                    &&& final(sink)@ == old(sink)@ + header_bytes(
                        self.sfnt_version,
                        self.tables@.len(),
                    ) + plain_entries(self.tables@, order, self.tables@.len() as int) + bodies(
                        self.tables@,
                        order,
                        self.tables@.len() as int,
                    )
                    &&& result is Ok <==> all_write(
                        self.tables@,
                        order,
                        self.tables@.len() as int,
                    )
                },
    {
        let count = self.tables.len();
        let mut keys: Vec<u32> = Vec::new();
        let mut i: usize = 0;
        while i < count
            invariant
                i <= count,
                count == self.tables@.len(),
                keys@ == tag_keys(self.tables@).take(i as int),
            decreases count - i,
        {
            let tag = self.tables[i].table.get_tag();
            keys.push(tag_key(&tag));
            assert(keys@ =~= tag_keys(self.tables@).take(i + 1));
            i += 1;
        }
        assert(tag_keys(self.tables@).take(count as int) =~= tag_keys(self.tables@));
        let order = stable_order(&keys);
        assert(self.fits(order@));
        put_header(sink, self.sfnt_version, count as u16);
        let ghost head = sink@;
        let mut offset: usize = 12 + 16 * count;
        let mut k: usize = 0;
        while k < count
            invariant
                k <= count,
                count == self.tables@.len(),
                1 <= count <= 4095,
                is_stable_order(order@, tag_keys(self.tables@)),
                self.fits(order@),
                offset == start_of(self.tables@, order@, k as int),
                sink@ == head + plain_entries(self.tables@, order@, k as int),
            decreases count - k,
        {
            let table = &self.tables[order[k]].table;
            let tag = table.get_tag();
            let size = table.get_size();
            proof {
                lemma_start_of_grows(self.tables@, order@, k + 1, count as int);
            }
            sink.put_bytes(vstd::array::array_as_slice(&tag));
            sink.put_u32(0);
            sink.put_u32(#[verifier::truncate] (offset as u32));
            sink.put_u32(#[verifier::truncate] (size as u32));
            assert(sink@ =~= head + plain_entries(self.tables@, order@, k + 1));
            offset = offset + size;
            k += 1;
        }
        let ghost listed = sink@;
        let mut k: usize = 0;
        assert(sink@ =~= listed + bodies(self.tables@, order@, 0));
        while k < count
            invariant
                k <= count,
                count == self.tables@.len(),
                is_stable_order(order@, tag_keys(self.tables@)),
                all_write(self.tables@, order@, k as int),
                sink@ == listed + bodies(self.tables@, order@, k as int),
                listed == old(sink)@ + header_bytes(self.sfnt_version, count as nat)
                    + plain_entries(self.tables@, order@, count as int),
            decreases count - k,
        {
            let written = self.tables[order[k]].table.write(sink);
            assert(sink@ =~= listed + bodies(self.tables@, order@, k + 1));
            match written {
                Ok(_) => {},
                Err(error) => {
                    proof {
                        lemma_failed(self.tables@, order@, k + 1, count as int);
                    }
                    return Err(error);
                },
            }
            k += 1;
        }
        Ok(())
    }
}

/// Tables start no earlier than those taken before them.
pub proof fn lemma_start_of_grows(tables: Seq<TableBox>, order: Seq<usize>, i: int, j: int)
    requires
        0 <= i <= j,
    ensures
        start_of(tables, order, i) <= start_of(tables, order, j),
    decreases j - i,
{
    if i < j {
        lemma_start_of_grows(tables, order, i, j - 1);
    }
}

/// After a table that cannot be written, nothing more is appended.
pub proof fn lemma_failed(tables: Seq<TableBox>, order: Seq<usize>, failed: int, upto: int)
    requires
        0 <= failed <= upto,
        !all_write(tables, order, failed),
    ensures
        !all_write(tables, order, upto),
        bodies(tables, order, upto) == bodies(tables, order, failed),
    decreases upto - failed,
{
    if failed < upto {
        lemma_failed(tables, order, failed, upto - 1);
    }
}

/// Writes `table` into a sink of its own and appends its directory entry
/// to `sink`, with a checksum of zero, the given offset and the number of
/// bytes written. Hands out the table's bytes.
pub fn store(table: &TableBox, sink: &mut ByteSink, offset: u32) -> (result: Result<
    Vec<u8>,
    WriteError,
>)
    ensures
        result is Ok <==> table.table.writes(),
        result matches Ok(bytes) ==> bytes@ == table.table.emitted() && final(sink)@ == old(
            sink,
        )@ + plain_entry(table.table.tag_spec(), offset as nat, table.table.emitted().len()),
        result is Err ==> final(sink)@ == old(sink)@,
{
    let mut buffer = ByteSink::new();
    match table.table.write(&mut buffer) {
        Ok(_) => {},
        Err(error) => {
            return Err(error);
        },
    }
    let tag = table.table.get_tag();
    let bytes = buffer.into_bytes();
    sink.put_bytes(vstd::array::array_as_slice(&tag));
    sink.put_u32(0);
    sink.put_u32(offset);
    sink.put_u32(#[verifier::truncate] (bytes.len() as u32));
    assert(sink@ =~= old(sink)@ + plain_entry(
        table.table.tag_spec(),
        offset as nat,
        table.table.emitted().len(),
    ));
    Ok(bytes)
}

} // verus!
