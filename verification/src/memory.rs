//! Byte stores and the built-in hexadecimal font.
//!
//! Memory is a flat sequence of bytes written either one cell at a time
//! or by copying a block to a given base address. The font table holds
//! sixteen glyphs of five bytes each, one per hex digit.
use vstd::prelude::*;

verus! {

use vstd::pervasive::VecAdditionalExecFns;

/// Writes one byte at `emplace_idx`.
pub fn emplace_at(data: u8, emplace_idx: usize, memory: &mut Vec<u8>)
    requires
        emplace_idx < old(memory).len(),
    ensures
        final(memory)@ == old(memory)@.update(emplace_idx as int, data),
{
    memory.set(emplace_idx, data);
}

/// Copies all of `data` into `memory` starting at `emplace_idx`;
/// every cell outside the written block keeps its value.
pub fn vec_emplace_at(data: Vec<u8>, emplace_idx: usize, memory: &mut Vec<u8>)
    requires
        emplace_idx + data.len() <= old(memory).len(),
    ensures
        final(memory)@.len() == old(memory)@.len(),
        forall|k: int|
            0 <= k < final(memory)@.len() ==> final(memory)@[k] == (
            if emplace_idx <= k < emplace_idx + data@.len() {
                data@[k - emplace_idx]
            } else {
                old(memory)@[k]
            }),
{
    let mut mem_ptr: usize = emplace_idx;
    let mut i: usize = 0;
    while i < data.len()
        invariant
            i <= data@.len(),
            mem_ptr == emplace_idx + i,
            emplace_idx + data@.len() <= memory@.len(),
            memory@.len() == old(memory)@.len(),
            forall|k: int|
                0 <= k < memory@.len() ==> memory@[k] == (
                if emplace_idx <= k < emplace_idx + i {
                    data@[k - emplace_idx]
                } else {
                    old(memory)@[k]
                }),
        decreases data@.len() - i,
    {
        let n: usize = memory.len();
        memory.set(mem_ptr, data[i]);
        assert(mem_ptr < n);
        mem_ptr = mem_ptr + 1;
        i = i + 1;
    }
}

/// The sixteen five-byte font glyphs for hex digits 0 through F,
/// in digit order.
pub open spec fn font_seq() -> Seq<u8> {
    seq![
        0xF0, 0x90, 0x90, 0x90, 0xF0,
        0x20, 0x60, 0x20, 0x20, 0x70,
        0xF0, 0x10, 0xF0, 0x80, 0xF0,
        0xF0, 0x10, 0xF0, 0x10, 0xF0,
        0x90, 0x90, 0xF0, 0x10, 0x10,
        0xF0, 0x80, 0xF0, 0x10, 0xF0,
        0xF0, 0x80, 0xF0, 0x90, 0xF0,
        0xF0, 0x10, 0x20, 0x40, 0x40,
        0xF0, 0x90, 0xF0, 0x90, 0xF0,
        0xF0, 0x90, 0xF0, 0x10, 0xF0,
        0xF0, 0x90, 0xF0, 0x90, 0x90,
        0xE0, 0x90, 0xE0, 0x90, 0xE0,
        0xF0, 0x80, 0x80, 0x80, 0xF0,
        0xE0, 0x90, 0x90, 0x90, 0xE0,
        0xF0, 0x80, 0xF0, 0x80, 0xF0,
        0xF0, 0x80, 0xF0, 0x80, 0x80,
    ]
}

/// Builds the font table for loading into memory.
pub fn font() -> (r: Vec<u8>)
    ensures
        r@ == font_seq(),
{
    let r: Vec<u8> = vec![
        0xF0, 0x90, 0x90, 0x90, 0xF0,
        0x20, 0x60, 0x20, 0x20, 0x70,
        0xF0, 0x10, 0xF0, 0x80, 0xF0,
        0xF0, 0x10, 0xF0, 0x10, 0xF0,
        0x90, 0x90, 0xF0, 0x10, 0x10,
        0xF0, 0x80, 0xF0, 0x10, 0xF0,
        0xF0, 0x80, 0xF0, 0x90, 0xF0,
        0xF0, 0x10, 0x20, 0x40, 0x40,
        0xF0, 0x90, 0xF0, 0x90, 0xF0,
        0xF0, 0x90, 0xF0, 0x10, 0xF0,
        0xF0, 0x90, 0xF0, 0x90, 0x90,
        0xE0, 0x90, 0xE0, 0x90, 0xE0,
        0xF0, 0x80, 0x80, 0x80, 0xF0,
        0xE0, 0x90, 0x90, 0x90, 0xE0,
        0xF0, 0x80, 0xF0, 0x80, 0xF0,
        0xF0, 0x80, 0xF0, 0x80, 0x80,
    ];
    proof {
        assert(r@ =~= font_seq());
    }
    r
}

} // verus!
