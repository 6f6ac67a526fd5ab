//! The `name` table: the font's names as UTF-16 strings.

use crate::bytes::{u16_be, ByteSink};
use crate::layout::{plain_step, Layouter, PassState, Place, Step};
use crate::open_type::content::{content_fits, content_fits_in, is_content_table, layout_content};
use crate::open_type::file::{LayoutableTable, LayoutableTableBox, LayoutedTableBox};
use vstd::prelude::*;
use vstd::string::StrSliceExecFns;

verus! {

/// The tag `name`.
pub open spec fn name_tag() -> Seq<u8> {
    seq![0x6Eu8, 0x61u8, 0x6Du8, 0x65u8]
}

/// The UTF-16 code units of a character: one unit below U+10000, else a
/// high and a low surrogate.
pub open spec fn utf16_units(c: char) -> Seq<u16> {
    if (c as u32) < 0x1_0000 {
        seq![(c as u32) as u16]
    } else {
        seq![
            (0xD800 + ((c as u32) - 0x1_0000) / 0x400) as u16,
            (0xDC00 + ((c as u32) - 0x1_0000) % 0x400) as u16,
        ]
    }
}

/// The UTF-16 code units of a text.
pub open spec fn utf16(text: Seq<char>) -> Seq<u16>
    decreases text.len(),
{
    if text.len() == 0 {
        Seq::empty()
    } else {
        utf16(text.drop_last()) + utf16_units(text.last())
    }
}

/// The numbers one after the other, each as two bytes, most significant
/// first.
pub open spec fn u16s_be(values: Seq<u16>) -> Seq<u8>
    decreases values.len(),
{
    if values.len() == 0 {
        Seq::empty()
    } else {
        u16s_be(values.drop_last()) + u16_be(values.last())
    }
}

/// The UTF-16 code units of `text`.
pub fn encode_utf16(text: &str) -> (units: Vec<u16>)
    ensures
        units@ == utf16(text@),
{
    let mut units: Vec<u16> = Vec::new();
    let len = text.unicode_len();
    let mut i: usize = 0;
    while i < len
        invariant
            i <= len,
            len == text@.len(),
            units@ == utf16(text@.take(i as int)),
        decreases len - i,
    {
        let c = text.get_char(i);
        let code: u32 = c as u32;
        proof {
            let next = text@.take(i + 1);
            assert(next.drop_last() =~= text@.take(i as int));
            assert(next.last() == c);
        }
        if code < 0x1_0000 {
            units.push(code as u16);
        } else {
            let rest: u32 = code - 0x1_0000;
            units.push((0xD800 + rest / 0x400) as u16);
            units.push((0xDC00 + rest % 0x400) as u16);
        }
        assert(units@ =~= utf16(text@.take(i + 1)));
        i += 1;
    }
    assert(text@.take(i as int) =~= text@);
    units
}

/// One of the font's names.
#[derive(Debug, Clone)]
pub struct NameRecord {
    /// Which name this is: 1 the family, 2 the style, and so on.
    pub name_id: u16,
    /// The name.
    pub content: String,
}

/// The number of bytes of the names' strings.
pub open spec fn strings_len(names: Seq<NameRecord>) -> nat
    decreases names.len(),
{
    if names.len() == 0 {
        0
    } else {
        strings_len(names.drop_last()) + 2 * utf16(names.last().content@).len()
    }
}

/// The twelve bytes of a record whose string starts at `offset` in the
/// storage: the Unicode platform with encoding 4 and no language, the
/// name's number, and the length and offset of its string.
pub open spec fn record_bytes(record: NameRecord, offset: nat) -> Seq<u8> {
    u16_be(0) + u16_be(4) + u16_be(0) + u16_be(record.name_id) + u16_be(
        (2 * utf16(record.content@).len()) as u16,
    ) + u16_be(offset as u16)
}

/// The records one after the other, their strings following each other in
/// the storage.
pub open spec fn records_bytes(names: Seq<NameRecord>) -> Seq<u8>
    decreases names.len(),
{
    if names.len() == 0 {
        Seq::empty()
    } else {
        records_bytes(names.drop_last()) + record_bytes(
            names.last(),
            strings_len(names.drop_last()),
        )
    }
}

/// The strings one after the other, in UTF-16, most significant byte
/// first.
pub open spec fn strings_bytes(names: Seq<NameRecord>) -> Seq<u8>
    decreases names.len(),
{
    if names.len() == 0 {
        Seq::empty()
    } else {
        strings_bytes(names.drop_last()) + u16s_be(utf16(names.last().content@))
    }
}

/// The strings of fewer names take no more bytes.
pub proof fn lemma_strings_len_grow(names: Seq<NameRecord>, upto: int)
    requires
        0 <= upto <= names.len(),
    ensures
        strings_len(names.take(upto)) <= strings_len(names),
        upto < names.len() ==> strings_len(names.take(upto)) + 2 * utf16(
            names[upto].content@,
        ).len() <= strings_len(names),
    decreases names.len() - upto,
{
    if upto < names.len() {
        assert(names.take(upto + 1).drop_last() =~= names.take(upto));
        lemma_strings_len_grow(names, upto + 1);
    } else {
        assert(names.take(upto) =~= names);
    }
}

/// Each code unit takes two bytes.
pub proof fn lemma_u16s_be_len(values: Seq<u16>)
    ensures
        u16s_be(values).len() == 2 * values.len(),
    decreases values.len(),
{
    if values.len() > 0 {
        lemma_u16s_be_len(values.drop_last());
    }
}

/// Each record takes twelve bytes, and the strings take two bytes for
/// each code unit.
pub proof fn lemma_names_len(names: Seq<NameRecord>)
    ensures
        records_bytes(names).len() == 12 * names.len(),
        strings_bytes(names).len() == strings_len(names),
    decreases names.len(),
{
    if names.len() > 0 {
        lemma_names_len(names.drop_last());
        lemma_u16s_be_len(utf16(names.last().content@));
    }
}

/// The description of a `name` table of version 0.
#[derive(Debug, Clone)]
pub struct Name {
    /// The names.
    pub names: Vec<NameRecord>,
}

impl Name {
    /// The records and the strings can be counted in 16 bits.
    pub open spec fn ready(&self) -> bool {
        &&& 12 * self.names@.len() <= 0xFFFF
        &&& strings_len(self.names@) <= 0xFFFF
    }

    /// The number of bytes that the table takes.
    pub open spec fn byte_len(&self) -> nat {
        6 + 12 * self.names@.len() + strings_len(self.names@)
    }

    /// The version 0, the number of names and the size of the records.
    pub open spec fn header(&self) -> Seq<u8> {
        u16_be(0) + u16_be(self.names@.len() as u16) + u16_be((12 * self.names@.len()) as u16)
    }

    /// The table's bytes: the header, the records, then the strings.
    pub open spec fn encoding(&self) -> Seq<u8> {
        self.header() + records_bytes(self.names@) + strings_bytes(self.names@)
    }

    fn put_records(&self, sink: &mut ByteSink)
        requires
            self.ready(),
        ensures
            final(sink)@ == old(sink)@ + records_bytes(self.names@),
    {
        let mut offset: u16 = 0;
        let mut i: usize = 0;
        assert(sink@ =~= old(sink)@ + records_bytes(self.names@.take(0)));
        while i < self.names.len()
            invariant
                i <= self.names@.len(),
                self.ready(),
                offset == strings_len(self.names@.take(i as int)),
                sink@ == old(sink)@ + records_bytes(self.names@.take(i as int)),
            decreases self.names@.len() - i,
        {
            let units = encode_utf16(self.names[i].content.as_str());
            proof {
                lemma_strings_len_grow(self.names@, i as int);
                assert(self.names@.take(i + 1).drop_last() =~= self.names@.take(i as int));
            }
            let length: u16 = (units.len() * 2) as u16;
            sink.put_u16(0);
            sink.put_u16(4);
            sink.put_u16(0);
            sink.put_u16(self.names[i].name_id);
            sink.put_u16(length);
            sink.put_u16(offset);
            offset = offset + length;
            assert(sink@ =~= old(sink)@ + records_bytes(self.names@.take(i + 1)));
            i += 1;
        }
        assert(self.names@.take(i as int) =~= self.names@);
    }

    fn put_strings(&self, sink: &mut ByteSink)
        ensures
            final(sink)@ == old(sink)@ + strings_bytes(self.names@),
    {
        let mut i: usize = 0;
        assert(sink@ =~= old(sink)@ + strings_bytes(self.names@.take(0)));
        while i < self.names.len()
            invariant
                i <= self.names@.len(),
                sink@ == old(sink)@ + strings_bytes(self.names@.take(i as int)),
            decreases self.names@.len() - i,
        {
            let units = encode_utf16(self.names[i].content.as_str());
            let ghost before = sink@;
            let mut k: usize = 0;
            assert(sink@ =~= before + u16s_be(units@.take(0)));
            while k < units.len()
                invariant
                    k <= units@.len(),
                    sink@ == before + u16s_be(units@.take(k as int)),
                decreases units@.len() - k,
            {
                sink.put_u16(units[k]);
                proof {
                    let next = units@.take(k + 1);
                    assert(next.drop_last() =~= units@.take(k as int));
                    assert(next.last() == units@[k as int]);
                    assert(sink@ =~= before + u16s_be(next));
                }
                k += 1;
            }
            proof {
                assert(units@.take(k as int) =~= units@);
                assert(self.names@.take(i + 1).drop_last() =~= self.names@.take(i as int));
                assert(sink@ =~= old(sink)@ + strings_bytes(self.names@.take(i + 1)));
            }
            i += 1;
        }
        assert(self.names@.take(i as int) =~= self.names@);
    }

    /// The table's bytes.
    pub fn encode(&self) -> (bytes: Vec<u8>)
        requires
            self.ready(),
        ensures
            bytes@ == self.encoding(),
    {
        let count: u16 = self.names.len() as u16;
        let mut sink = ByteSink::new();
        sink.put_u16(0);
        sink.put_u16(count);
        sink.put_u16(12 * count);
        assert(sink@ =~= self.header());
        self.put_records(&mut sink);
        self.put_strings(&mut sink);
        sink.into_bytes()
    }

    /// Whether the records and the strings can be counted in 16 bits.
    pub fn is_ready(&self) -> (ready: bool)
        ensures
            ready == self.ready(),
    {
        if self.names.len() > 5461 {
            return false;
        }
        let mut total: usize = 0;
        let mut i: usize = 0;
        while i < self.names.len()
            invariant
                i <= self.names@.len(),
                total == strings_len(self.names@.take(i as int)),
                total <= 0xFFFF,
            decreases self.names@.len() - i,
        {
            let units = encode_utf16(self.names[i].content.as_str());
            proof {
                lemma_strings_len_grow(self.names@, i as int);
                assert(self.names@.take(i + 1).drop_last() =~= self.names@.take(i as int));
            }
            if units.len() > 0x7FFF || total + units.len() * 2 > 0xFFFF {
                return false;
            }
            total = total + units.len() * 2;
            i += 1;
        }
        assert(self.names@.take(i as int) =~= self.names@);
        true
    }

    /// The number of bytes that the table takes.
    pub fn measure(&self) -> (size: usize)
        requires
            self.ready(),
        ensures
            size == self.byte_len(),
    {
        let mut total: usize = 0;
        let mut i: usize = 0;
        while i < self.names.len()
            invariant
                i <= self.names@.len(),
                self.ready(),
                total == strings_len(self.names@.take(i as int)),
            decreases self.names@.len() - i,
        {
            let units = encode_utf16(self.names[i].content.as_str());
            proof {
                lemma_strings_len_grow(self.names@, i as int);
                assert(self.names@.take(i + 1).drop_last() =~= self.names@.take(i as int));
            }
            total = total + units.len() * 2;
            i += 1;
        }
        assert(self.names@.take(i as int) =~= self.names@);
        6 + 12 * self.names.len() + total
    }

    /// The table takes exactly the bytes that it asks for.
    pub proof fn lemma_exact_size(&self)
        ensures
            self.encoding().len() == self.byte_len(),
    {
        lemma_names_len(self.names@);
    }

    /// The description as a table of any kind, to stand in a file.
    pub fn boxed(self) -> (boxed: LayoutableTableBox)
        ensures
            is_content_table(boxed, name_tag(), self.byte_len(), self.ready(), self.encoding()),
    {
        LayoutableTableBox { table: Box::new(self) }
    }
}

impl LayoutableTable for Name {
    open spec fn tag_spec(&self) -> Seq<u8> {
        name_tag()
    }

    open spec fn size(&self) -> nat {
        self.byte_len()
    }

    open spec fn fits(&self, place: Place) -> bool {
        self.ready() && content_fits(self.byte_len(), place)
    }

    open spec fn step_at(
        &self,
        place: Place,
        state: PassState,
        windows: Seq<Seq<u8>>,
        current_file: Seq<u8>,
    ) -> Step {
        plain_step(place.reservation(self.byte_len()), self.encoding(), windows)
    }

    fn tag(&self) -> (tag: [u8; 4]) {
        [0x6E, 0x61, 0x6D, 0x65]
    }

    fn fits_in(&self, layouter: &Layouter) -> (fits: bool) {
        if !self.is_ready() {
            return false;
        }
        content_fits_in(layouter, self.measure())
    }

    fn layout(&self, layouter: &mut Layouter) -> (laid: LayoutedTableBox) {
        let size = self.measure();
        layout_content(layouter, self.tag(), size, self.encode())
    }
}

} // verus!
