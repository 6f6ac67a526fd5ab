//! Big-endian integers as bytes, and a growable sink that collects them.

use byteorder::ByteOrder;
use vstd::prelude::*;

verus! {

/// The two bytes of `value`, most significant first.
pub open spec fn u16_be(value: u16) -> Seq<u8> {
    seq![(value / 0x100) as u8, (value % 0x100) as u8]
}

/// The four bytes of `value`, most significant first.
pub open spec fn u32_be(value: u32) -> Seq<u8> {
    seq![
        (value / 0x100_0000) as u8,
        (value / 0x1_0000 % 0x100) as u8,
        (value / 0x100 % 0x100) as u8,
        (value % 0x100) as u8,
    ]
}

/// The eight bytes of `value`, most significant first.
pub open spec fn u64_be(value: u64) -> Seq<u8> {
    seq![
        (value / 0x100_0000_0000_0000) as u8,
        (value / 0x1_0000_0000_0000 % 0x100) as u8,
        (value / 0x100_0000_0000 % 0x100) as u8,
        (value / 0x1_0000_0000 % 0x100) as u8,
        (value / 0x100_0000 % 0x100) as u8,
        (value / 0x1_0000 % 0x100) as u8,
        (value / 0x100 % 0x100) as u8,
        (value % 0x100) as u8,
    ]
}

/// The unsigned number with the same 16 bits as `value` (two's complement).
pub open spec fn i16_bits(value: i16) -> u16 {
    if value < 0 {
        (value + 0x1_0000) as u16
    } else {
        value as u16
    }
}

/// The unsigned number with the same 32 bits as `value` (two's complement).
pub open spec fn i32_bits(value: i32) -> u32 {
    if value < 0 {
        (value + 0x1_0000_0000) as u32
    } else {
        value as u32
    }
}

/// The unsigned number with the same 64 bits as `value` (two's complement).
pub open spec fn i64_bits(value: i64) -> u64 {
    if value < 0 {
        (value + 0x1_0000_0000_0000_0000) as u64
    } else {
        value as u64
    }
}

/// The number that four bytes spell, most significant first.
pub open spec fn u32_from_be(bytes: Seq<u8>) -> u32
    recommends
        bytes.len() == 4,
{
    (bytes[0] * 0x100_0000 + bytes[1] * 0x1_0000 + bytes[2] * 0x100 + bytes[3]) as u32
}

/// Four bytes spell the number that they were made from.
pub proof fn lemma_u32_round_trip(value: u32)
    ensures
        u32_be(value).len() == 4,
        u32_from_be(u32_be(value)) == value,
{
    let b0 = (value / 0x100_0000) as u8;
    let b1 = (value / 0x1_0000 % 0x100) as u8;
    let b2 = (value / 0x100 % 0x100) as u8;
    let b3 = (value % 0x100) as u8;
    assert(b0 * 0x100_0000 + b1 * 0x1_0000 + b2 * 0x100 + b3 == value) by {
        assert(value == (value / 0x100) * 0x100 + value % 0x100);
        assert(value / 0x100 == (value / 0x1_0000) * 0x100 + value / 0x100 % 0x100);
        assert(value / 0x1_0000 == (value / 0x100_0000) * 0x100 + value / 0x1_0000 % 0x100);
        assert(value / 0x100_0000 < 0x100);
    }
}

/// `byteorder::BigEndian::write_u16` on a buffer of two bytes: the buffer
/// then holds the big-endian bytes of `value`.
#[verifier::external_body]
fn be_u16(value: u16) -> (bytes: [u8; 2])
    ensures
        bytes@ == u16_be(value),
{
    let mut buffer: [u8; 2] = [0; 2];
    byteorder::BigEndian::write_u16(&mut buffer, value);
    buffer
}

/// `byteorder::BigEndian::write_i16` on a buffer of two bytes: the buffer
/// then holds the big-endian bytes of the two's complement of `value`.
#[verifier::external_body]
fn be_i16(value: i16) -> (bytes: [u8; 2])
    ensures
        bytes@ == u16_be(i16_bits(value)),
{
    let mut buffer: [u8; 2] = [0; 2];
    byteorder::BigEndian::write_i16(&mut buffer, value);
    buffer
}

/// `byteorder::BigEndian::write_u32` on a buffer of four bytes: the buffer
/// then holds the big-endian bytes of `value`.
#[verifier::external_body]
pub(crate) fn be_u32(value: u32) -> (bytes: [u8; 4])
    ensures
        bytes@ == u32_be(value),
{
    let mut buffer: [u8; 4] = [0; 4];
    byteorder::BigEndian::write_u32(&mut buffer, value);
    buffer
}

/// `byteorder::BigEndian::write_i32` on a buffer of four bytes: the buffer
/// then holds the big-endian bytes of the two's complement of `value`.
#[verifier::external_body]
fn be_i32(value: i32) -> (bytes: [u8; 4])
    ensures
        bytes@ == u32_be(i32_bits(value)),
{
    let mut buffer: [u8; 4] = [0; 4];
    byteorder::BigEndian::write_i32(&mut buffer, value);
    buffer
}

/// `byteorder::BigEndian::write_i64` on a buffer of eight bytes: the buffer
/// then holds the big-endian bytes of the two's complement of `value`.
#[verifier::external_body]
fn be_i64(value: i64) -> (bytes: [u8; 8])
    ensures
        bytes@ == u64_be(i64_bits(value)),
{
    let mut buffer: [u8; 8] = [0; 8];
    byteorder::BigEndian::write_i64(&mut buffer, value);
    buffer
}

/// `byteorder::BigEndian::read_u32`: the number that the first four bytes of
/// `bytes` spell, most significant first. It panics on fewer than four bytes.
#[verifier::external_body]
pub(crate) fn be_read_u32(bytes: &[u8]) -> (value: u32)
    requires
        bytes@.len() >= 4,
    ensures
        value == u32_from_be(bytes@.take(4)),
{
    byteorder::BigEndian::read_u32(bytes)
}

/// Bytes collected in order, to be written to a window in one piece.
pub struct ByteSink {
    bytes: Vec<u8>,
}

impl View for ByteSink {
    type V = Seq<u8>;

    closed spec fn view(&self) -> Seq<u8> {
        self.bytes@
    }
}

impl ByteSink {
    /// An empty sink.
    pub fn new() -> (sink: Self)
        ensures
            sink@ == Seq::<u8>::empty(),
    {
        ByteSink { bytes: Vec::new() }
    }

    /// The bytes collected so far.
    pub fn as_slice(&self) -> (bytes: &[u8])
        ensures
            bytes@ == self@,
    {
        self.bytes.as_slice()
    }

    /// Hands the collected bytes out.
    pub fn into_bytes(self) -> (bytes: Vec<u8>)
        ensures
            bytes@ == self@,
    {
        self.bytes
    }

    /// The number of bytes collected so far.
    pub fn len(&self) -> (len: usize)
        ensures
            len == self@.len(),
    {
        self.bytes.len()
    }

    /// Appends one byte.
    pub fn put_u8(&mut self, value: u8)
        ensures
            final(self)@ == old(self)@.push(value),
    {
        self.bytes.push(value);
    }

    /// Appends `data` as it is.
    pub fn put_bytes(&mut self, data: &[u8])
        ensures
            final(self)@ == old(self)@ + data@,
    {
        self.bytes.extend_from_slice(data);
    }

    /// Writes `data` over the bytes from `at` on.
    pub fn patch(&mut self, at: usize, data: &[u8])
        requires
            at + data@.len() <= old(self)@.len(),
        ensures
            final(self)@ == crate::layout::written(old(self)@, at as nat, data@),
    {
        let mut i: usize = 0;
        let len = self.bytes.len();
        assert(self.bytes@ =~= crate::layout::written(old(self)@, at as nat, data@.take(0)));
        while i < data.len()
            invariant
                i <= data@.len(),
                at + data@.len() <= len,
                len == old(self)@.len(),
                self.bytes@.len() == old(self)@.len(),
                self.bytes@ == crate::layout::written(
                    old(self)@,
                    at as nat,
                    data@.take(i as int),
                ),
            decreases data@.len() - i,
        {
            self.bytes.set(at + i, data[i]);
            assert(self.bytes@ =~= crate::layout::written(
                old(self)@,
                at as nat,
                data@.take(i + 1),
            ));
            i += 1;
        }
        assert(data@.take(i as int) =~= data@);
    }

    /// Appends `value` as two bytes, most significant first.
    pub fn put_u16(&mut self, value: u16)
        ensures
            final(self)@ == old(self)@ + u16_be(value),
    {
        let bytes = be_u16(value);
        self.bytes.extend_from_slice(vstd::array::array_as_slice(&bytes));
    }

    /// Appends the two's complement of `value` as two bytes, most significant first.
    pub fn put_i16(&mut self, value: i16)
        ensures
            final(self)@ == old(self)@ + u16_be(i16_bits(value)),
    {
        let bytes = be_i16(value);
        self.bytes.extend_from_slice(vstd::array::array_as_slice(&bytes));
    }

    /// Appends `value` as four bytes, most significant first.
    pub fn put_u32(&mut self, value: u32)
        ensures
            final(self)@ == old(self)@ + u32_be(value),
    {
        let bytes = be_u32(value);
        self.bytes.extend_from_slice(vstd::array::array_as_slice(&bytes));
    }

    /// Appends the two's complement of `value` as four bytes, most significant first.
    pub fn put_i32(&mut self, value: i32)
        ensures
            final(self)@ == old(self)@ + u32_be(i32_bits(value)),
    {
        let bytes = be_i32(value);
        self.bytes.extend_from_slice(vstd::array::array_as_slice(&bytes));
    }

    /// Appends the two's complement of `value` as eight bytes, most significant first.
    pub fn put_i64(&mut self, value: i64)
        ensures
            final(self)@ == old(self)@ + u64_be(i64_bits(value)),
    {
        let bytes = be_i64(value);
        self.bytes.extend_from_slice(vstd::array::array_as_slice(&bytes));
    }
}

} // verus!
