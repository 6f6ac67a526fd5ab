//! The `SVG ` table: glyphs as SVG documents.

use crate::bytes::{u16_be, u32_be, ByteSink};
use crate::open_type::document::Tag;
use crate::order::{is_stable_order, stable_order};
use vstd::prelude::*;

verus! {

/// The tag `SVG `.
pub open spec fn svg_tag() -> Seq<u8> {
    seq![0x53u8, 0x56u8, 0x47u8, 0x20u8]
}

/// A document and the glyphs that it draws.
#[derive(Debug, Clone)]
pub struct SVGDocumentRecord {
    /// The first glyph that the document draws.
    pub start_glyph_id: u16,
    /// The last glyph that the document draws.
    pub end_glyph_id: u16,
    /// The name of the file that holds the document.
    pub document: String,
}

impl SVGDocumentRecord {
    /// The twelve bytes of the record of a document of `len` bytes at
    /// `offset`: the first and the last glyph, the offset and the length.
    pub open spec fn encoding(&self, offset: u32, len: nat) -> Seq<u8> {
        u16_be(self.start_glyph_id) + u16_be(self.end_glyph_id) + u32_be(offset) + u32_be(
            len as u32,
        )
    }

    /// Appends the record of the document `file` at `offset` to `sink`.
    pub fn store(&self, sink: &mut ByteSink, offset: u32, file: &[u8])
        ensures
            final(sink)@ == old(sink)@ + self.encoding(offset, file@.len()),
    {
        sink.put_u16(self.start_glyph_id);
        sink.put_u16(self.end_glyph_id);
        sink.put_u32(offset);
        sink.put_u32(#[verifier::truncate] (file.len() as u32));
        assert(sink@ =~= old(sink)@ + self.encoding(offset, file@.len()));
    }
}

/// The description of an `SVG ` table of version 0.
#[derive(Debug)]
pub struct SVG {
    /// The documents, in any order.
    pub documents: Vec<SVGDocumentRecord>,
}

/// The first glyphs of the documents, by which the records are ordered.
pub open spec fn first_glyphs(documents: Seq<SVGDocumentRecord>) -> Seq<u32> {
    Seq::new(documents.len(), |i: int| documents[i].start_glyph_id as u32)
}

/// Where the document that is taken as number `upto` starts, counted from
/// the list of documents: behind the records and the documents taken
/// before it, each length taken modulo 2^32.
pub open spec fn document_offset(
    contents: Seq<Vec<u8>>,
    order: Seq<usize>,
    upto: int,
) -> nat
    decreases upto,
{
    if upto <= 0 {
        (2 + 12 * ((contents.len() as u16) as nat)) as nat
    } else {
        document_offset(contents, order, upto - 1) + (contents[order[upto - 1] as int]@.len()
            as u32) as nat
    }
}

/// The records of the first `upto` documents in `order`.
pub open spec fn records_bytes(
    documents: Seq<SVGDocumentRecord>,
    contents: Seq<Vec<u8>>,
    order: Seq<usize>,
    upto: int,
) -> Seq<u8>
    decreases upto,
{
    if upto <= 0 {
        Seq::empty()
    } else {
        records_bytes(documents, contents, order, upto - 1) + documents[order[upto
            - 1] as int].encoding(
            document_offset(contents, order, upto - 1) as u32,
            contents[order[upto - 1] as int]@.len(),
        )
    }
}

/// The first `upto` documents in `order`, one after the other.
pub open spec fn documents_bytes(contents: Seq<Vec<u8>>, order: Seq<usize>, upto: int) -> Seq<u8>
    decreases upto,
{
    if upto <= 0 {
        Seq::empty()
    } else {
        documents_bytes(contents, order, upto - 1) + contents[order[upto - 1] as int]@
    }
}

/// Documents start no earlier than those taken before them.
pub proof fn lemma_document_offset_grows(
    contents: Seq<Vec<u8>>,
    order: Seq<usize>,
    i: int,
    j: int,
)
    requires
        0 <= i <= j,
    ensures
        document_offset(contents, order, i) <= document_offset(contents, order, j),
    decreases j - i,
{
    if i < j {
        lemma_document_offset_grows(contents, order, i, j - 1);
    }
}

impl SVG {
    /// The table's tag.
    pub fn get_tag(&self) -> (tag: Tag)
        ensures
            tag@ == svg_tag(),
    {
        [0x53, 0x56, 0x47, 0x20]
    }

    /// The version 0, the offset 10 of the list of documents, a reserved
    /// zero and the number of documents.
    pub open spec fn header(&self) -> Seq<u8> {
        u16_be(0) + u32_be(10) + u32_be(0) + u16_be(self.documents@.len() as u16)
    }

    /// The offsets of the documents in `order` fit in 32 bits.
    pub open spec fn fits(&self, contents: Seq<Vec<u8>>, order: Seq<usize>) -> bool {
        document_offset(contents, order, contents.len() as int) <= u32::MAX
    }

    /// Appends the table to `sink`: the header, one record for each
    /// document in the order of the first glyphs, then the documents in the
    /// same order. `contents` holds, for each document, the bytes of its
    /// file.
    pub fn store_internal(&self, contents: &Vec<Vec<u8>>, sink: &mut ByteSink)
        requires
            contents@.len() == self.documents@.len(),
            forall|order: Seq<usize>|
                is_stable_order(order, first_glyphs(self.documents@)) ==> #[trigger] self.fits(
                    contents@,
                    order,
                ),
        ensures
            exists|order: Seq<usize>|
                {
                    &&& #[trigger] is_stable_order(order, first_glyphs(self.documents@))
                    &&& final(sink)@ == old(sink)@ + self.header() + records_bytes(
                        self.documents@,
                        contents@,
                        order,
                        contents@.len() as int,
                    ) + documents_bytes(contents@, order, contents@.len() as int)
                },
    {
        let count = self.documents.len();
        let mut keys: Vec<u32> = Vec::new();
        let mut i: usize = 0;
        while i < count
            invariant
                i <= count,
                count == self.documents@.len(),
                keys@ == first_glyphs(self.documents@).take(i as int),
            decreases count - i,
        {
            keys.push(self.documents[i].start_glyph_id as u32);
            assert(keys@ =~= first_glyphs(self.documents@).take(i + 1));
            i += 1;
        }
        assert(first_glyphs(self.documents@).take(count as int) =~= first_glyphs(
            self.documents@,
        ));
        let order = stable_order(&keys);
        assert(self.fits(contents@, order@));
        let number: u16 = #[verifier::truncate] (count as u16);
        sink.put_u16(0);
        sink.put_u32(10);
        sink.put_u32(0);
        sink.put_u16(number);
        assert(sink@ =~= old(sink)@ + self.header());
        let ghost head = sink@;
        let mut offset: u32 = 2 + (number as u32) * 12;
        let mut k: usize = 0;
        assert(sink@ =~= head + records_bytes(self.documents@, contents@, order@, 0));
        while k < count
            invariant
                k <= count,
                count == self.documents@.len(),
                count == contents@.len(),
                is_stable_order(order@, first_glyphs(self.documents@)),
                self.fits(contents@, order@),
                offset == document_offset(contents@, order@, k as int),
                sink@ == head + records_bytes(self.documents@, contents@, order@, k as int),
            decreases count - k,
        {
            let file = &contents[order[k]];
            proof {
                lemma_document_offset_grows(contents@, order@, k + 1, count as int);
            }
            self.documents[order[k]].store(sink, offset, file.as_slice());
            assert(sink@ =~= head + records_bytes(self.documents@, contents@, order@, k + 1));
            offset = offset + #[verifier::truncate] (file.len() as u32);
            k += 1;
        }
        let ghost listed = sink@;
        let mut k: usize = 0;
        assert(sink@ =~= listed + documents_bytes(contents@, order@, 0));
        while k < count
            invariant
                k <= count,
                count == contents@.len(),
                count == self.documents@.len(),
                is_stable_order(order@, first_glyphs(self.documents@)),
                sink@ == listed + documents_bytes(contents@, order@, k as int),
            decreases count - k,
        {
            sink.put_bytes(contents[order[k]].as_slice());
            assert(sink@ =~= listed + documents_bytes(contents@, order@, k + 1));
            k += 1;
        }
    }
}

} // verus!
