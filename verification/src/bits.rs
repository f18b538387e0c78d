//! Bit-level views of a 16-bit instruction word.
//!
//! An opcode decomposes into four 4-bit nibbles, most significant first:
//! nibble 0 is bits 15-12, nibble 3 is bits 3-0. The specification
//! functions state each field arithmetically; the executable code uses
//! shifts and masks, connected by bit-vector lemmas.
use vstd::prelude::*;

verus! {

/// The `i`-th nibble of `w`, most significant first.
pub open spec fn nibble_of(w: u16, i: int) -> u8 {
    if i == 0 {
        (w / 0x1000) as u8
    } else if i == 1 {
        ((w / 0x100) % 0x10) as u8
    } else if i == 2 {
        ((w / 0x10) % 0x10) as u8
    } else {
        (w % 0x10) as u8
    }
}

/// The low byte of `w`: the `kk` field of `3xkk`, `4xkk`, `6xkk`, `7xkk`.
pub open spec fn low_byte(w: u16) -> u8 {
    (w % 0x100) as u8
}

/// The low 12 bits of `w`: the `nnn` field of `1nnn`, `2nnn`, `Annn`.
pub open spec fn addr12(w: u16) -> u16 {
    (w % 0x1000) as u16
}

/// The big-endian 16-bit word formed by the byte pair `(hi, lo)`.
pub open spec fn be_word(hi: u8, lo: u8) -> u16 {
    (hi * 0x100 + lo) as u16
}

/// Shifts and masks extract exactly the fields stated by division.
pub proof fn lemma_word_fields(w: u16)
    by (bit_vector)
    ensures
        (w >> 12) & 0xF == w / 0x1000,
        (w >> 8) & 0xF == (w / 0x100) % 0x10,
        (w >> 4) & 0xF == (w / 0x10) % 0x10,
        w & 0xF == w % 0x10,
        w & 0xFF == w % 0x100,
        w & 0xFFF == w % 0x1000,
{
}

/// Shifting a byte into the high half multiplies it by 0x100.
pub proof fn lemma_byte_shl8(b: u8)
    by (bit_vector)
    ensures
        (b as u16) << 8 == b as u16 * 0x100,
{
}

/// Shift and mask operations on a byte, restated as division and
/// remainder: the shifted-out bits of `8xy6` and `8xyE`, and the
/// truncated left shift.
pub proof fn lemma_byte_ops(a: u8)
    by (bit_vector)
    ensures
        a & 1 == a % 2,
        a >> 1 == a / 2,
        (a & 0x80) >> 7 == a / 0x80,
{
}

/// A truncated left shift keeps the low byte of the doubled value.
pub proof fn lemma_shl1_truncated(w: u16)
    by (bit_vector)
    ensures
        (w << 1) & 0xFF == (w * 2) % 0x100,
{
}

/// Masking with 1 leaves at most one set bit.
pub proof fn lemma_bit01(row: u8, sh: u8)
    by (bit_vector)
    ensures
        (row >> sh) & 1 <= 1,
{
}

/// XOR facts for pixel bits: it is its own inverse, 0 is its identity,
/// it stays within one bit, and it clears exactly where the operands
/// agree.
pub proof fn lemma_xor_bits(a: u8, b: u8)
    by (bit_vector)
    ensures
        (a ^ b) ^ b == a,
        a ^ 0 == a,
        a <= 1 && b <= 1 ==> a ^ b <= 1,
        a <= 1 && b <= 1 ==> ((a ^ b) == 0 <==> a == b),
{
}

/// A nibble is always below 0x10.
pub proof fn lemma_nibble_bound(w: u16, i: int)
    ensures
        nibble_of(w, i) < 0x10,
{
}

/// Reads one nibble of an instruction word, most significant first.
pub fn get_nibble(instruction: &u16, nibble_index: &u8) -> (r: u8)
    requires
        *nibble_index <= 3,
    ensures
        r == nibble_of(*instruction, *nibble_index as int),
{
    let w: u16 = *instruction;
    proof {
        lemma_word_fields(w);
    }
    if *nibble_index == 0 {
        ((w >> 12) & 0xF) as u8
    } else if *nibble_index == 1 {
        ((w >> 8) & 0xF) as u8
    } else if *nibble_index == 2 {
        ((w >> 4) & 0xF) as u8
    } else {
        (w & 0xF) as u8
    }
}

} // verus!
