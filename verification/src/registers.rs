//! The sixteen general-purpose registers V0..VF and the register-to-register
//! ALU operations of the `8xyN` opcode family.
//!
//! VF (register 15) is the implicit flag output: every arithmetic or shift
//! operation writes its carry, borrow, or shifted-out bit there, and does so
//! before overwriting VX, so the flag is always computed from the operands'
//! old values. When VX is VF itself, the arithmetic result wins, since it is
//! written last.
use vstd::prelude::*;

verus! {

use vstd::pervasive::VecAdditionalExecFns;

/// An integer reduced to its low eight bits.
pub open spec fn wrap8(v: int) -> u8 {
    (v % 0x100) as u8
}

/// The register file, operated on by the `8xyN` instructions.
pub struct RegisterOperator {
    pub vx: Vec<u8>,
}

impl View for RegisterOperator {
    type V = Seq<u8>;

    open spec fn view(&self) -> Seq<u8> {
        self.vx@
    }
}

impl RegisterOperator {
    /// There are exactly sixteen registers.
    pub open spec fn wf(&self) -> bool {
        self@.len() == 16
    }

    /// Creates the register file with every register zeroed.
    pub fn new() -> (r: RegisterOperator)
        ensures
            r.wf(),
            forall|i: int| 0 <= i < 16 ==> r@[i] == 0,
    {
        let mut vx: Vec<u8> = Vec::new();
        let mut n: usize = 0;
        while n < 16
            invariant
                n <= 16,
                vx@.len() == n,
                forall|i: int| 0 <= i < n ==> vx@[i] == 0,
            decreases 16 - n,
        {
            vx.push(0);
            n = n + 1;
        }
        RegisterOperator { vx }
    }

    /// Reads register `idx`.
    pub fn get(&self, idx: usize) -> (r: u8)
        requires
            self.wf(),
            idx < 16,
        ensures
            r == self@[idx as int],
    {
        self.vx[idx]
    }

    /// Writes register `idx`.
    pub fn set(&mut self, idx: usize, val: u8)
        requires
            old(self).wf(),
            idx < 16,
        ensures
            final(self).wf(),
            final(self)@ == old(self)@.update(idx as int, val),
    {
        self.vx.set(idx, val);
    }

    /// `8xy0`: VX := VY.
    pub fn ld(&mut self, x_idx: usize, y_idx: usize)
        requires
            old(self).wf(),
            x_idx < 16,
            y_idx < 16,
        ensures
            final(self).wf(),
            final(self)@ == old(self)@.update(x_idx as int, old(self)@[y_idx as int]),
    {
        let v = self.vx[y_idx];
        self.vx.set(x_idx, v);
    }

    /// `8xy1`: VX := VX | VY.
    pub fn bit_or(&mut self, x_idx: usize, y_idx: usize)
        requires
            old(self).wf(),
            x_idx < 16,
            y_idx < 16,
        ensures
            final(self).wf(),
            final(self)@ == old(self)@.update(
                x_idx as int,
                old(self)@[x_idx as int] | old(self)@[y_idx as int],
            ),
    {
        let v = self.vx[x_idx] | self.vx[y_idx];
        self.vx.set(x_idx, v);
    }

    /// `8xy2`: VX := VX & VY.
    pub fn bit_and(&mut self, x_idx: usize, y_idx: usize)
        requires
            old(self).wf(),
            x_idx < 16,
            y_idx < 16,
        ensures
            final(self).wf(),
            final(self)@ == old(self)@.update(
                x_idx as int,
                old(self)@[x_idx as int] & old(self)@[y_idx as int],
            ),
    {
        let v = self.vx[x_idx] & self.vx[y_idx];
        self.vx.set(x_idx, v);
    }

    /// `8xy3`: VX := VX ^ VY.
    pub fn bit_xor(&mut self, x_idx: usize, y_idx: usize)
        requires
            old(self).wf(),
            x_idx < 16,
            y_idx < 16,
        ensures
            final(self).wf(),
            final(self)@ == old(self)@.update(
                x_idx as int,
                old(self)@[x_idx as int] ^ old(self)@[y_idx as int],
            ),
    {
        let v = self.vx[x_idx] ^ self.vx[y_idx];
        self.vx.set(x_idx, v);
    }

    /// `8xy4`: VX := VX + VY modulo 0x100; VF := 1 on carry out of
    /// eight bits, else 0. The sum is widened to sixteen bits, so the
    /// carry test and the kept low byte are both explicit.
    pub fn add(&mut self, x_idx: usize, y_idx: usize)
        requires
            old(self).wf(),
            x_idx < 16,
            y_idx < 16,
        ensures
            final(self).wf(),
            (
                {
                    let a = old(self)@[x_idx as int];
                    let b = old(self)@[y_idx as int];
                    let flag: u8 = if a + b > 0xFF { 1 } else { 0 };
                    final(self)@ == old(self)@.update(0xF, flag).update(x_idx as int, wrap8(a + b))
                }
            ),
    {
        let tmp: u16 = (self.vx[x_idx] as u16) + (self.vx[y_idx] as u16);
        if tmp > 0xFF {
            self.vx.set(0xF, 1);
        } else {
            self.vx.set(0xF, 0);
        }
        self.vx.set(x_idx, (tmp % 0x100) as u8);
    }

    /// `8xy5`: VF := 1 if VX >= VY (no borrow), else 0; then
    /// VX := VX - VY modulo 0x100.
    pub fn sub(&mut self, x_idx: usize, y_idx: usize)
        requires
            old(self).wf(),
            x_idx < 16,
            y_idx < 16,
        ensures
            final(self).wf(),
            (
                {
                    let a = old(self)@[x_idx as int];
                    let b = old(self)@[y_idx as int];
                    let flag: u8 = if a >= b { 1 } else { 0 };
                    final(self)@ == old(self)@.update(0xF, flag).update(x_idx as int, wrap8(a - b))
                }
            ),
    {
        let a = self.vx[x_idx];
        let b = self.vx[y_idx];
        if a >= b {
            self.vx.set(0xF, 1);
        } else {
            self.vx.set(0xF, 0);
        }
        let diff: u8 = if a >= b {
            a - b
        } else {
            ((0x100 + a as u16) - b as u16) as u8
        };
        self.vx.set(x_idx, diff);
    }

    /// `8xy7`: VF := 1 if VY >= VX, else 0; then VX := VY - VX modulo 0x100.
    pub fn subn(&mut self, x_idx: usize, y_idx: usize)
        requires
            old(self).wf(),
            x_idx < 16,
            y_idx < 16,
        ensures
            final(self).wf(),
            (
                {
                    let a = old(self)@[x_idx as int];
                    let b = old(self)@[y_idx as int];
                    let flag: u8 = if b >= a { 1 } else { 0 };
                    final(self)@ == old(self)@.update(0xF, flag).update(x_idx as int, wrap8(b - a))
                }
            ),
    {
        let a = self.vx[x_idx];
        let b = self.vx[y_idx];
        if b >= a {
            self.vx.set(0xF, 1);
        } else {
            self.vx.set(0xF, 0);
        }
        let diff: u8 = if b >= a {
            b - a
        } else {
            ((0x100 + b as u16) - a as u16) as u8
        };
        self.vx.set(x_idx, diff);
    }

    /// `8xy6`: VF := least-significant bit of VX before the shift;
    /// then VX := VX >> 1.
    pub fn shr(&mut self, x_idx: usize, y_idx: usize)
        requires
            old(self).wf(),
            x_idx < 16,
            y_idx < 16,
        ensures
            final(self).wf(),
            (
                {
                    let a = old(self)@[x_idx as int];
                    final(self)@ == old(self)@.update(0xF, (a % 2) as u8).update(
                        x_idx as int,
                        (a / 2) as u8,
                    )
                }
            ),
    {
        let a = self.vx[x_idx];
        proof {
            crate::bits::lemma_byte_ops(a);
        }
        self.vx.set(0xF, a & 1);
        self.vx.set(x_idx, a >> 1);
    }

    /// `8xyE`: VF := most-significant bit of VX before the shift;
    /// then VX := VX << 1, truncated to eight bits.
    pub fn shl(&mut self, x_idx: usize, y_idx: usize)
        requires
            old(self).wf(),
            x_idx < 16,
            y_idx < 16,
        ensures
            final(self).wf(),
            (
                {
                    let a = old(self)@[x_idx as int];
                    final(self)@ == old(self)@.update(0xF, (a / 0x80) as u8).update(
                        x_idx as int,
                        wrap8(a * 2),
                    )
                }
            ),
    {
        let a = self.vx[x_idx];
        proof {
            crate::bits::lemma_byte_ops(a);
            crate::bits::lemma_shl1_truncated(a as u16);
        }
        self.vx.set(0xF, (a & 0x80) >> 7);
        self.vx.set(x_idx, (((a as u16) << 1) & 0xFF) as u8);
    }
}

} // verus!
