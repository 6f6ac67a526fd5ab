//! The 32-bit checksum of OpenType: the sum of the big-endian words of a
//! byte string, its last word filled up with zero bytes, modulo 2^32.

use crate::bytes::{be_read_u32, u32_from_be};
use vstd::prelude::*;

verus! {

/// What the checksum of a whole font file comes to once the adjustment
/// stands in its `head` table.
pub const CHECKSUM_MAGIC: u32 = 0xB1B0_AFBA;

/// The byte at `index`, or zero behind the end.
pub open spec fn byte_at(bytes: Seq<u8>, index: int) -> nat {
    if 0 <= index < bytes.len() {
        bytes[index] as nat
    } else {
        0
    }
}

/// The big-endian word number `word`, filled up with zero bytes.
pub open spec fn word_at(bytes: Seq<u8>, word: int) -> nat {
    byte_at(bytes, 4 * word) * 0x100_0000 + byte_at(bytes, 4 * word + 1) * 0x1_0000 + byte_at(
        bytes,
        4 * word + 2,
    ) * 0x100 + byte_at(bytes, 4 * word + 3)
}

/// The sum of the first `words` words.
pub open spec fn sum_of_words(bytes: Seq<u8>, words: nat) -> nat
    decreases words,
{
    if words == 0 {
        0
    } else {
        sum_of_words(bytes, (words - 1) as nat) + word_at(bytes, words - 1)
    }
}

/// The number of words that `len` bytes take.
pub open spec fn word_count(len: nat) -> nat {
    (len + 3) / 4
}

/// The checksum of `bytes`.
pub open spec fn checksum32_spec(bytes: Seq<u8>) -> u32 {
    (sum_of_words(bytes, word_count(bytes.len())) % 0x1_0000_0000) as u32
}

/// The adjustment that brings a file with the checksum of `bytes` to
/// `CHECKSUM_MAGIC`.
pub open spec fn adjustment_spec(bytes: Seq<u8>) -> u32 {
    ((CHECKSUM_MAGIC - checksum32_spec(bytes)) % 0x1_0000_0000) as u32
}

/// The adjustment and the checksum it was taken from add up to
/// `CHECKSUM_MAGIC`, modulo 2^32.
pub proof fn lemma_adjustment(bytes: Seq<u8>)
    ensures
        (adjustment_spec(bytes) + checksum32_spec(bytes)) % 0x1_0000_0000 == CHECKSUM_MAGIC,
{
    let c = checksum32_spec(bytes) as int;
    let m = CHECKSUM_MAGIC as int;
    if m - c >= 0 {
        vstd::arithmetic::div_mod::lemma_small_mod((m - c) as nat, 0x1_0000_0000);
        vstd::arithmetic::div_mod::lemma_small_mod(m as nat, 0x1_0000_0000);
    } else {
        vstd::arithmetic::div_mod::lemma_mod_add_multiples_vanish(m - c, 0x1_0000_0000);
        vstd::arithmetic::div_mod::lemma_small_mod((m - c + 0x1_0000_0000) as nat, 0x1_0000_0000);
        vstd::arithmetic::div_mod::lemma_mod_add_multiples_vanish(m, 0x1_0000_0000);
        vstd::arithmetic::div_mod::lemma_small_mod(m as nat, 0x1_0000_0000);
    }
}

/// The checksum of `bytes`: the sum of its big-endian words modulo 2^32, a
/// short last word filled up with zero bytes.
pub fn checksum32(bytes: &[u8]) -> (sum: u32)
    ensures
        sum == checksum32_spec(bytes@),
{
    let len = bytes.len();
    let mut sum: u32 = 0;
    let mut at: usize = 0;
    while len - at >= 4
        invariant
            len == bytes@.len(),
            at <= len,
            at % 4 == 0,
            sum == sum_of_words(bytes@, (at / 4) as nat) % 0x1_0000_0000,
        decreases len - at,
    {
        let part = vstd::slice::slice_subrange(bytes, at, at + 4);
        let word = be_read_u32(part);
        proof {
            let w = (at / 4) as int;
            assert(part@.take(4) =~= bytes@.subrange(at as int, at + 4));
            assert(word == word_at(bytes@, w));
            assert(sum_of_words(bytes@, (w + 1) as nat) == sum_of_words(bytes@, w as nat)
                + word_at(bytes@, w));
            vstd::arithmetic::div_mod::lemma_add_mod_noop(
                sum_of_words(bytes@, w as nat) as int,
                word as int,
                0x1_0000_0000,
            );
            vstd::arithmetic::div_mod::lemma_small_mod(word as nat, 0x1_0000_0000);
            vstd::arithmetic::div_mod::lemma_small_mod(sum as nat, 0x1_0000_0000);
        }
        sum = sum.wrapping_add(word);
        at = at + 4;
    }
    if len - at > 0 {
        let mut buffer: Vec<u8> = Vec::with_capacity(4);
        buffer.extend_from_slice(vstd::slice::slice_subrange(bytes, at, len));
        buffer.resize(4, 0);
        let word = be_read_u32(buffer.as_slice());
        proof {
            let w = (at / 4) as int;
            assert(buffer@.take(4) =~= buffer@);
            assert(word == word_at(bytes@, w));
            assert(word_count(len as nat) == w + 1);
            assert(sum_of_words(bytes@, (w + 1) as nat) == sum_of_words(bytes@, w as nat)
                + word_at(bytes@, w));
            vstd::arithmetic::div_mod::lemma_add_mod_noop(
                sum_of_words(bytes@, w as nat) as int,
                word as int,
                0x1_0000_0000,
            );
            vstd::arithmetic::div_mod::lemma_small_mod(word as nat, 0x1_0000_0000);
            vstd::arithmetic::div_mod::lemma_small_mod(sum as nat, 0x1_0000_0000);
        }
        sum = sum.wrapping_add(word);
    } else {
        assert(word_count(len as nat) == at / 4);
    }
    sum
}

/// The adjustment for a file with the bytes `file`: `CHECKSUM_MAGIC` minus
/// the file's checksum, modulo 2^32.
pub fn checksum_adjustment(file: &[u8]) -> (adjustment: u32)
    ensures
        adjustment == adjustment_spec(file@),
{
    let sum = checksum32(file);
    proof {
        let c = sum as int;
        let m = CHECKSUM_MAGIC as int;
        if m - c >= 0 {
            vstd::arithmetic::div_mod::lemma_small_mod((m - c) as nat, 0x1_0000_0000);
        } else {
            vstd::arithmetic::div_mod::lemma_mod_add_multiples_vanish(m - c, 0x1_0000_0000);
            vstd::arithmetic::div_mod::lemma_small_mod(
                (m - c + 0x1_0000_0000) as nat,
                0x1_0000_0000,
            );
        }
    }
    CHECKSUM_MAGIC.wrapping_sub(sum)
}

} // verus!
