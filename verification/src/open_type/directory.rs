//! The bytes of the file's header and table directory, and the order of
//! tags.

use crate::bytes::{lemma_u32_round_trip, u16_be, u32_be, u32_from_be, ByteSink};
use crate::open_type::search::{floor_log2, power_of_two, SearchData};
use vstd::prelude::*;

verus! {

/// The order of tags: byte by byte, the first difference decides.
pub open spec fn tag_le(a: Seq<u8>, b: Seq<u8>) -> bool {
    a[0] < b[0] || (a[0] == b[0] && (a[1] < b[1] || (a[1] == b[1] && (a[2] < b[2] || (a[2]
        == b[2] && a[3] <= b[3])))))
}

/// The strict order of tags.
pub open spec fn tag_lt(a: Seq<u8>, b: Seq<u8>) -> bool {
    a[0] < b[0] || (a[0] == b[0] && (a[1] < b[1] || (a[1] == b[1] && (a[2] < b[2] || (a[2]
        == b[2] && a[3] < b[3])))))
}

/// The tags stand in ascending order; equal tags may follow each other.
pub open spec fn ascending(tags: Seq<Seq<u8>>) -> bool {
    forall|i: int, j: int| 0 <= i < j < tags.len() ==> tag_le(#[trigger] tags[i], #[trigger] tags[j])
}

/// The tags stand in strictly ascending order.
pub open spec fn strictly_ascending(tags: Seq<Seq<u8>>) -> bool {
    forall|i: int, j: int| 0 <= i < j < tags.len() ==> tag_lt(#[trigger] tags[i], #[trigger] tags[j])
}

/// No tag stands twice.
pub open spec fn distinct(tags: Seq<Seq<u8>>) -> bool {
    forall|i: int, j: int| 0 <= i < j < tags.len() ==> #[trigger] tags[i] != #[trigger] tags[j]
}

/// Tags of four bytes in ascending order, of which none stands twice,
/// stand in strictly ascending order.
pub proof fn lemma_strictly_ascending(tags: Seq<Seq<u8>>)
    requires
        ascending(tags),
        distinct(tags),
        forall|i: int| 0 <= i < tags.len() ==> (#[trigger] tags[i]).len() == 4,
    ensures
        strictly_ascending(tags),
{
    assert forall|i: int, j: int| 0 <= i < j < tags.len() implies tag_lt(
        #[trigger] tags[i],
        #[trigger] tags[j],
    ) by {
        if !tag_lt(tags[i], tags[j]) {
            assert(tag_le(tags[i], tags[j]));
            assert(tags[i] =~= tags[j]);
        }
    }
}

/// Whether `a` stands before `b`, or is equal to it, in the order of tags.
pub fn tag_before_or_equal(a: &[u8; 4], b: &[u8; 4]) -> (le: bool)
    ensures
        le == tag_le(a@, b@),
{
    a[0] < b[0] || (a[0] == b[0] && (a[1] < b[1] || (a[1] == b[1] && (a[2] < b[2] || (a[2]
        == b[2] && a[3] <= b[3])))))
}

/// Which container format the file announces.
#[derive(Debug, Clone, Copy, PartialEq, Eq)]
pub enum SFNTVersion {
    /// TrueType outlines: the version 1.0.
    TrueType,
    /// OpenType with CFF outlines: the letters `OTTO`.
    OpenType,
}

impl SFNTVersion {
    /// The four bytes that open the file.
    pub open spec fn magic(self) -> Seq<u8> {
        match self {
            SFNTVersion::TrueType => seq![0x00u8, 0x01u8, 0x00u8, 0x00u8],
            SFNTVersion::OpenType => seq![0x4Fu8, 0x54u8, 0x54u8, 0x4Fu8],
        }
    }

    /// The four bytes that open the file.
    pub fn bytes(self) -> (bytes: [u8; 4])
        ensures
            bytes@ == self.magic(),
    {
        match self {
            SFNTVersion::TrueType => [0x00, 0x01, 0x00, 0x00],
            SFNTVersion::OpenType => [0x4F, 0x54, 0x54, 0x4F],
        }
    }

    /// The four bytes as a number, most significant first.
    pub fn value(self) -> (value: u32)
        ensures
            value == crate::bytes::u32_from_be(self.magic()),
    {
        match self {
            SFNTVersion::TrueType => 0x0001_0000,
            SFNTVersion::OpenType => 0x4F54_544F,
        }
    }
}

/// One line of the table directory.
pub struct DirectoryEntry {
    /// The table's tag.
    pub tag: Seq<u8>,
    /// The checksum of the table's window, padding included.
    pub checksum: u32,
    /// Where the table's window starts in the file.
    pub offset: nat,
    /// The table's length, padding excluded.
    pub length: nat,
}

/// The sixteen bytes of a directory entry: the tag, then checksum, offset
/// and length as big-endian numbers of 32 bits.
pub open spec fn entry_bytes(entry: DirectoryEntry) -> Seq<u8> {
    entry.tag + u32_be(entry.checksum) + u32_be(entry.offset as u32) + u32_be(
        entry.length as u32,
    )
}

/// The bytes of the entries, one after the other.
pub open spec fn entries_bytes(entries: Seq<DirectoryEntry>) -> Seq<u8>
    decreases entries.len(),
{
    if entries.len() == 0 {
        Seq::empty()
    } else {
        entries_bytes(entries.drop_last()) + entry_bytes(entries.last())
    }
}

/// The twelve bytes that open the file: the container format, the number
/// of tables and the search triple for that number.
pub open spec fn header_bytes(version: SFNTVersion, count: nat) -> Seq<u8> {
    version.magic() + u16_be(count as u16) + u16_be((power_of_two(floor_log2(count)) * 16) as u16)
        + u16_be(floor_log2(count) as u16) + u16_be(
        (count * 16 - power_of_two(floor_log2(count)) * 16) as u16,
    )
}

/// The header and the directory.
pub open spec fn directory_bytes(version: SFNTVersion, entries: Seq<DirectoryEntry>) -> Seq<u8> {
    header_bytes(version, entries.len()) + entries_bytes(entries)
}

/// Each entry takes sixteen bytes.
pub proof fn lemma_entries_len(entries: Seq<DirectoryEntry>)
    requires
        forall|i: int| 0 <= i < entries.len() ==> (#[trigger] entries[i]).tag.len() == 4,
    ensures
        entries_bytes(entries).len() == 16 * entries.len(),
    decreases entries.len(),
{
    if entries.len() > 0 {
        lemma_entries_len(entries.drop_last());
    }
}

/// Each entry stands in the bytes of the entries at sixteen times its
/// number.
pub proof fn lemma_entry_in_entries(entries: Seq<DirectoryEntry>, index: int)
    requires
        forall|i: int| 0 <= i < entries.len() ==> (#[trigger] entries[i]).tag.len() == 4,
        0 <= index < entries.len(),
    ensures
        entries_bytes(entries).len() == 16 * entries.len(),
        entries_bytes(entries).subrange(16 * index, 16 * index + 16) == entry_bytes(
            entries[index],
        ),
    decreases entries.len(),
{
    lemma_entries_len(entries);
    lemma_entries_len(entries.drop_last());
    if index == entries.len() - 1 {
        assert(entries_bytes(entries).subrange(16 * index, 16 * index + 16) =~= entry_bytes(
            entries[index],
        ));
    } else {
        lemma_entry_in_entries(entries.drop_last(), index);
        assert(entries_bytes(entries).subrange(16 * index, 16 * index + 16)
            =~= entries_bytes(entries.drop_last()).subrange(16 * index, 16 * index + 16));
    }
}

/// Appends the twelve bytes that open the file.
pub(crate) fn put_header(sink: &mut ByteSink, version: SFNTVersion, count: u16)
    requires
        1 <= count <= 4095,
    ensures
        final(sink)@ == old(sink)@ + header_bytes(version, count as nat),
{
    let search = SearchData::for_length(count);
    let magic = version.bytes();
    sink.put_bytes(vstd::array::array_as_slice(&magic));
    sink.put_u16(count);
    sink.put_u16(search.search_range);
    sink.put_u16(search.entry_selector);
    sink.put_u16(search.range_shift);
    assert(sink@ =~= old(sink)@ + header_bytes(version, count as nat));
}

/// Appends the sixteen bytes of a directory entry.
pub(crate) fn put_entry(sink: &mut ByteSink, tag: [u8; 4], checksum: u32, offset: usize, length: usize)
    ensures
        final(sink)@ == old(sink)@ + entry_bytes(
            DirectoryEntry { tag: tag@, checksum, offset: offset as nat, length: length as nat },
        ),
{
    sink.put_bytes(vstd::array::array_as_slice(&tag));
    sink.put_u32(checksum);
    sink.put_u32(#[verifier::truncate] (offset as u32));
    sink.put_u32(#[verifier::truncate] (length as u32));
    assert(sink@ =~= old(sink)@ + entry_bytes(
        DirectoryEntry { tag: tag@, checksum, offset: offset as nat, length: length as nat },
    ));
}

/// What the bytes of `file` spell as directory entry number `index`, the
/// directory standing at the start of the file.
pub open spec fn entry_at(file: Seq<u8>, index: int) -> DirectoryEntry {
    DirectoryEntry {
        tag: file.subrange(12 + 16 * index, 16 + 16 * index),
        checksum: u32_from_be(file.subrange(16 + 16 * index, 20 + 16 * index)),
        offset: u32_from_be(file.subrange(20 + 16 * index, 24 + 16 * index)) as nat,
        length: u32_from_be(file.subrange(24 + 16 * index, 28 + 16 * index)) as nat,
    }
}

/// Sixteen bytes of a file that are the bytes of an entry spell that
/// entry, where offset and length fit in 32 bits.
pub proof fn lemma_entry_at(file: Seq<u8>, index: int, entry: DirectoryEntry)
    requires
        0 <= index,
        28 + 16 * index <= file.len(),
        file.subrange(12 + 16 * index, 28 + 16 * index) == entry_bytes(entry),
        entry.tag.len() == 4,
        entry.offset <= u32::MAX,
        entry.length <= u32::MAX,
    ensures
        entry_at(file, index) == entry,
{
    let part = file.subrange(12 + 16 * index, 28 + 16 * index);
    lemma_u32_round_trip(entry.checksum);
    lemma_u32_round_trip(entry.offset as u32);
    lemma_u32_round_trip(entry.length as u32);
    assert(file.subrange(12 + 16 * index, 16 + 16 * index) =~= part.subrange(0, 4));
    assert(file.subrange(16 + 16 * index, 20 + 16 * index) =~= part.subrange(4, 8));
    assert(file.subrange(20 + 16 * index, 24 + 16 * index) =~= part.subrange(8, 12));
    assert(file.subrange(24 + 16 * index, 28 + 16 * index) =~= part.subrange(12, 16));
    assert(part.subrange(0, 4) =~= entry.tag);
    assert(part.subrange(4, 8) =~= u32_be(entry.checksum));
    assert(part.subrange(8, 12) =~= u32_be(entry.offset as u32));
    assert(part.subrange(12, 16) =~= u32_be(entry.length as u32));
}

/// The tags as sequences of bytes.
pub open spec fn tag_views(tags: Seq<[u8; 4]>) -> Seq<Seq<u8>> {
    Seq::new(tags.len(), |i: int| tags[i]@)
}

} // verus!
