//! The virtual CPU and the interpreter that composes memory, display,
//! timers and registers.
//!
//! Every instruction is one atomic transition of the machine state. The
//! transition is stated once, by the specification functions `step_state`
//! and `step_report`, and every executable opcode handler is proved
//! against it. Fatal conditions (stack overflow and underflow, a fetch
//! past the end of memory, an oversized program) are reported as errors
//! instead of corrupting the machine; an unrecognized opcode is reported
//! too, but leaves the machine ready to continue at the next instruction.
use vstd::prelude::*;

verus! {

use crate::bits::{
    addr12,
    be_word,
    get_nibble,
    lemma_byte_shl8,
    lemma_nibble_bound,
    lemma_word_fields,
    low_byte,
    nibble_of,
};
use crate::display::{pix_wf, sprite_blit, sprite_collides, Display};
use crate::memory::{font, font_seq, vec_emplace_at};
use crate::registers::{wrap8, RegisterOperator};
use crate::timer::Timer;
use crate::{FONT_MEMORY_START, MAX_PROGRAM_SIZE, MEM_SIZE, PROG_START};

/// Everything that can go wrong while loading or running a program.
#[derive(Clone, Copy, Debug, PartialEq, Eq, Structural)]
pub enum Chip8Error {
    /// The program is larger than the program region of memory.
    LoadError,
    /// A subroutine call arrived with the call stack already full.
    StackOverflow,
    /// A return arrived with the call stack empty.
    StackUnderflow,
    /// The program counter points past the end of memory.
    OutOfBoundsFetch,
    /// No instruction pattern matches this word; the machine has
    /// already advanced past it and may simply be stepped again.
    UnknownOpcode(u16),
}

/// The machine state the instructions act on: memory, pixels,
/// registers, call stack, program counter and index register. The two
/// timers evolve against the wall clock and are specified separately.
pub struct Chip8View {
    pub mem: Seq<u8>,
    pub pix: Seq<u8>,
    pub regs: Seq<u8>,
    pub stack: Seq<u16>,
    pub pc: u16,
    pub index: u16,
}

impl Chip8View {
    /// 4096 memory cells, a well-formed pixel grid, sixteen registers,
    /// and at most sixteen return addresses.
    pub open spec fn wf(&self) -> bool {
        &&& self.mem.len() == 4096
        &&& pix_wf(self.pix)
        &&& self.regs.len() == 16
        &&& self.stack.len() <= 16
    }
}

/// A blank pixel grid.
pub open spec fn blank_pix() -> Seq<u8> {
    Seq::new(2048, |k: int| 0u8)
}

/// The `n` sprite rows starting at memory address `i`, each address
/// wrapped into the 4096-byte address space.
pub open spec fn sprite_rows(mem: Seq<u8>, i: int, n: int) -> Seq<u8> {
    Seq::new(n as nat, |r: int| mem[(i + r) % 4096])
}

/// The register file after the `8xyN` operation selected by `n`;
/// an unassigned `n` leaves the registers unchanged.
pub open spec fn alu_spec(regs: Seq<u8>, x: int, y: int, n: u8) -> Seq<u8> {
    let a = regs[x];
    let b = regs[y];
    if n == 0 {
        regs.update(x, b)
    } else if n == 1 {
        regs.update(x, a | b)
    } else if n == 2 {
        regs.update(x, a & b)
    } else if n == 3 {
        regs.update(x, a ^ b)
    } else if n == 4 {
        regs.update(0xF, if a + b > 0xFF { 1u8 } else { 0u8 }).update(x, wrap8(a + b))
    } else if n == 5 {
        regs.update(0xF, if a >= b { 1u8 } else { 0u8 }).update(x, wrap8(a - b))
    } else if n == 6 {
        regs.update(0xF, (a % 2) as u8).update(x, (a / 2) as u8)
    } else if n == 7 {
        regs.update(0xF, if b >= a { 1u8 } else { 0u8 }).update(x, wrap8(b - a))
    } else if n == 0xE {
        regs.update(0xF, (a / 0x80) as u8).update(x, wrap8(a * 2))
    } else {
        regs
    }
}

/// Whether the word matches some implemented instruction pattern.
pub open spec fn recognized(w: u16) -> bool {
    let f = nibble_of(w, 0);
    let n = nibble_of(w, 3);
    ||| f == 0
    ||| f == 1
    ||| f == 2
    ||| f == 3
    ||| f == 4
    ||| (f == 5 && n == 0)
    ||| f == 6
    ||| f == 7
    ||| (f == 8 && (n <= 7 || n == 0xE))
    ||| f == 0xA
    ||| f == 0xD
}

/// The machine state after executing the instruction word `w` from
/// state `pre`. The program counter already points past `w`; a failed
/// call or return, and every unrecognized word, leave the state as it
/// stands.
pub open spec fn step_state(pre: Chip8View, w: u16) -> Chip8View {
    let f = nibble_of(w, 0);
    let x = nibble_of(w, 1) as int;
    let y = nibble_of(w, 2) as int;
    let n = nibble_of(w, 3);
    let kk = low_byte(w);
    let nnn = addr12(w);
    if w == 0x00E0 {
        Chip8View { pix: blank_pix(), ..pre }
    } else if w == 0x00EE {
        if pre.stack.len() == 0 {
            pre
        } else {
            Chip8View { pc: pre.stack.last(), stack: pre.stack.drop_last(), ..pre }
        }
    } else if f == 0 {
        pre
    } else if f == 1 {
        Chip8View { pc: nnn, ..pre }
    } else if f == 2 {
        if pre.stack.len() >= 16 {
            pre
        } else {
            Chip8View { stack: pre.stack.push(pre.pc), pc: nnn, ..pre }
        }
    } else if f == 3 {
        if pre.regs[x] == kk {
            Chip8View { pc: (pre.pc + 2) as u16, ..pre }
        } else {
            pre
        }
    } else if f == 4 {
        if pre.regs[x] != kk {
            Chip8View { pc: (pre.pc + 2) as u16, ..pre }
        } else {
            pre
        }
    } else if f == 5 && n == 0 {
        if pre.regs[x] == pre.regs[y] {
            Chip8View { pc: (pre.pc + 2) as u16, ..pre }
        } else {
            pre
        }
    } else if f == 6 {
        Chip8View { regs: pre.regs.update(x, kk), ..pre }
    } else if f == 7 {
        Chip8View { regs: pre.regs.update(x, wrap8(pre.regs[x] + kk)), ..pre }
    } else if f == 8 {
        Chip8View { regs: alu_spec(pre.regs, x, y, n), ..pre }
    } else if f == 0xA {
        Chip8View { index: nnn, ..pre }
    } else if f == 0xD {
        let cleared = pre.regs.update(0xF, 0u8);
        let sx = cleared[x];
        let sy = cleared[y];
        let spr = sprite_rows(pre.mem, pre.index as int, n as int);
        let flag: u8 = if sprite_collides(pre.pix, sx as int, sy as int, spr) {
            1
        } else {
            0
        };
        Chip8View {
            pix: sprite_blit(pre.pix, sx as int, sy as int, spr),
            regs: pre.regs.update(0xF, flag),
            ..pre
        }
    } else {
        pre
    }
}

/// What executing `w` from `pre` reports: a stack fault where a call
/// or return cannot proceed, the word itself where nothing matches it,
/// and success otherwise.
pub open spec fn step_report(pre: Chip8View, w: u16) -> Result<(), Chip8Error> {
    if w == 0x00EE && pre.stack.len() == 0 {
        Err(Chip8Error::StackUnderflow)
    } else if nibble_of(w, 0) == 2 && pre.stack.len() >= 16 {
        Err(Chip8Error::StackOverflow)
    } else if !recognized(w) {
        Err(Chip8Error::UnknownOpcode(w))
    } else {
        Ok(())
    }
}

/// For every register x and byte kk, executing `6xkk` and then reading
/// VX gives back exactly kk.
pub proof fn lemma_load_then_read(pre: Chip8View, w: u16)
    requires
        pre.wf(),
        nibble_of(w, 0) == 6,
    ensures
        step_state(pre, w).regs[nibble_of(w, 1) as int] == low_byte(w),
{
    lemma_nibble_bound(w, 1);
}

/// `00E0` leaves every pixel clear, whatever was drawn before.
pub proof fn lemma_clear_screen_blank(pre: Chip8View)
    ensures
        forall|k: int| 0 <= k < 2048 ==> step_state(pre, 0x00E0).pix[k] == 0,
{
}

/// `2nnn` followed by `00EE` resumes at the instruction after the
/// call: both steps succeed, the call runs the subroutine at nnn, and
/// the return restores the program counter the call had pushed — the
/// one that points just past the `2nnn` word — along with the stack.
pub proof fn lemma_call_then_ret(pre: Chip8View, w: u16)
    requires
        pre.wf(),
        nibble_of(w, 0) == 2,
        pre.stack.len() < 16,
    ensures
        (
            {
                let mid = step_state(pre, w);
                let post = step_state(mid, 0x00EE);
                &&& step_report(pre, w) is Ok
                &&& mid.pc == addr12(w)
                &&& step_report(mid, 0x00EE) is Ok
                &&& post.pc == pre.pc
                &&& post.stack == pre.stack
            }
        ),
{
    assert(0x2000 <= w < 0x3000);
    let mid = step_state(pre, w);
    assert(mid.stack == pre.stack.push(pre.pc));
    assert(mid.stack.last() == pre.pc);
    assert(mid.stack.drop_last() =~= pre.stack);
}

/// Executing the same `Dxyn` twice restores the display to its
/// pre-draw state: the second blit XORs every hit pixel with the same
/// bit again.
pub proof fn lemma_draw_twice_restores(pre: Chip8View, w: u16)
    requires
        pre.wf(),
        nibble_of(w, 0) == 0xD,
    ensures
        step_state(step_state(pre, w), w).pix == pre.pix,
        step_state(step_state(pre, w), w).regs == pre.regs.update(
            0xF,
            step_state(step_state(pre, w), w).regs[0xF],
        ),
{
    lemma_nibble_bound(w, 3);
    let x = nibble_of(w, 1) as int;
    let y = nibble_of(w, 2) as int;
    let n = nibble_of(w, 3);
    assert(0xD000 <= w);
    let cleared = pre.regs.update(0xF, 0u8);
    let sx = cleared[x];
    let sy = cleared[y];
    let spr = sprite_rows(pre.mem, pre.index as int, n as int);
    let mid = step_state(pre, w);
    assert(mid.regs.update(0xF, 0u8) =~= cleared);
    crate::display::lemma_sprite_blit_self_inverse(pre.pix, sx as int, sy as int, spr);
    let post = step_state(mid, w);
    assert(post.regs =~= pre.regs.update(0xF, post.regs[0xF]));
}

/// Where the first of two identical `Dxyn` draws turned some pixel on
/// — bit `c` of sprite row `r` landed on a clear cell — the second
/// draw reports the collision: it leaves VF at 1. (A draw whose set
/// bits all land on already-set pixels erases them instead, and the
/// second draw then reports 0.)
pub proof fn lemma_draw_twice_collides(pre: Chip8View, w: u16, r: int, c: int)
    requires
        pre.wf(),
        nibble_of(w, 0) == 0xD,
        0 <= r < nibble_of(w, 3) as int,
        0 <= c < 8,
        (
            {
                let cleared = pre.regs.update(0xF, 0u8);
                let spr = sprite_rows(pre.mem, pre.index as int, nibble_of(w, 3) as int);
                &&& crate::display::sprite_bit(spr[r], c) == 1
                &&& pre.pix[crate::display::pix_index(
                    cleared[nibble_of(w, 1) as int] + c,
                    cleared[nibble_of(w, 2) as int] + r,
                )] == 0
            }
        ),
    ensures
        step_state(step_state(pre, w), w).regs == pre.regs.update(0xF, 1u8),
{
    lemma_nibble_bound(w, 3);
    let x = nibble_of(w, 1) as int;
    let y = nibble_of(w, 2) as int;
    let n = nibble_of(w, 3);
    assert(0xD000 <= w);
    let cleared = pre.regs.update(0xF, 0u8);
    let sx = cleared[x];
    let sy = cleared[y];
    let spr = sprite_rows(pre.mem, pre.index as int, n as int);
    let mid = step_state(pre, w);
    assert(mid.regs.update(0xF, 0u8) =~= cleared);
    crate::display::lemma_second_blit_collides(pre.pix, sx as int, sy as int, spr, r, c);
    let post = step_state(mid, w);
    assert(post.regs =~= pre.regs.update(0xF, 1u8));
}

/// The program counter, the call stack, registers, the index register
/// and the two timers.
pub struct CPU {
    pub stack: Vec<u16>,
    pub index: u16,
    pub pc: u16,
    pub regs: RegisterOperator,
    pub delay_timer: Timer,
    pub sound_timer: Timer,
}

impl CPU {
    /// Creates the CPU with cleared registers, an empty stack, and the
    /// program counter at the start of the program region.
    pub fn new() -> (r: CPU)
        ensures
            r.stack@.len() == 0,
            r.index == 0,
            r.pc == 0x200,
            r.regs.wf(),
            forall|i: int| 0 <= i < 16 ==> r.regs@[i] == 0,
            r.delay_timer.val == 0,
            r.sound_timer.val == 0,
    {
        CPU {
            stack: Vec::new(),
            index: 0,
            pc: PROG_START as u16,
            regs: RegisterOperator::new(),
            delay_timer: Timer::new(),
            sound_timer: Timer::new(),
        }
    }
}

/// The interpreter: display, memory and CPU, stepped one instruction
/// per `run` call.
pub struct Chip8 {
    pub display: Display,
    pub memory: Vec<u8>,
    pub cpu: CPU,
}

impl View for Chip8 {
    type V = Chip8View;

    open spec fn view(&self) -> Chip8View {
        Chip8View {
            mem: self.memory@,
            pix: self.display@,
            regs: self.cpu.regs@,
            stack: self.cpu.stack@,
            pc: self.cpu.pc,
            index: self.cpu.index,
        }
    }
}

/// Both timers unchanged between two machine states.
pub open spec fn same_timers(a: Chip8, b: Chip8) -> bool {
    &&& a.cpu.delay_timer == b.cpu.delay_timer
    &&& a.cpu.sound_timer == b.cpu.sound_timer
}

impl Chip8 {
    /// The machine state is well formed.
    pub open spec fn wf(&self) -> bool {
        self@.wf()
    }

    /// Creates a machine with blank display, zeroed memory and a fresh
    /// CPU.
    pub fn new() -> (r: Chip8)
        ensures
            r.wf(),
            forall|k: int| 0 <= k < 4096 ==> r@.mem[k] == 0,
            forall|k: int| 0 <= k < 2048 ==> r@.pix[k] == 0,
            forall|i: int| 0 <= i < 16 ==> r@.regs[i] == 0,
            r@.stack.len() == 0,
            r@.pc == 0x200,
            r@.index == 0,
            r.cpu.delay_timer.val == 0,
            r.cpu.sound_timer.val == 0,
    {
        let mut memory: Vec<u8> = Vec::new();
        let mut n: usize = 0;
        while n < MEM_SIZE
            invariant
                n <= 4096,
                memory@.len() == n,
                forall|k: int| 0 <= k < n ==> memory@[k] == 0,
            decreases 4096 - n,
        {
            memory.push(0);
            n = n + 1;
        }
        Chip8 { display: Display::new(), memory, cpu: CPU::new() }
    }

    /// Loads a program: rejects one longer than the program region;
    /// otherwise copies it to 0x200 and writes the font table at 0x50,
    /// touching nothing else.
    pub fn load_program(&mut self, program: Vec<u8>) -> (r: Result<(), Chip8Error>)
        requires
            old(self).wf(),
        ensures
            final(self).wf(),
            final(self).cpu == old(self).cpu,
            final(self).display == old(self).display,
            r is Ok <==> program@.len() <= 0xE00,
            !(program@.len() <= 0xE00) ==> r == Err::<(), Chip8Error>(Chip8Error::LoadError)
                && final(self).memory@ == old(self).memory@,
            program@.len() <= 0xE00 ==> forall|k: int|
                0 <= k < 4096 ==> final(self).memory@[k] == (
                if 0x200 <= k < 0x200 + program@.len() {
                    program@[k - 0x200]
                } else if 0x50 <= k < 0xA0 {
                    font_seq()[k - 0x50]
                } else {
                    old(self).memory@[k]
                }),
    {
        if program.len() > MAX_PROGRAM_SIZE {
            return Err(Chip8Error::LoadError);
        }
        let ghost len = program@.len();
        vec_emplace_at(program, PROG_START, &mut self.memory);
        let ghost mid = self.memory@;
        let glyphs = font();
        vec_emplace_at(glyphs, FONT_MEMORY_START, &mut self.memory);
        proof {
            assert(forall|k: int|
                0 <= k < 4096 && 0x200 <= k < 0x200 + len ==> mid[k] == self.memory@[k]);
        }
        Ok(())
    }

    /// Fetches the big-endian instruction word at PC and advances PC by
    /// two; reports a fetch past the end of memory without moving.
    pub fn get_instruction(&mut self) -> (r: Result<u16, Chip8Error>)
        requires
            old(self).wf(),
        ensures
            final(self).wf(),
            same_timers(*old(self), *final(self)),
            old(self)@.pc >= 0xFFE ==> r == Err::<u16, Chip8Error>(Chip8Error::OutOfBoundsFetch)
                && *final(self) == *old(self),
            old(self)@.pc < 0xFFE ==> r == Ok::<u16, Chip8Error>(
                be_word(
                    old(self)@.mem[old(self)@.pc as int],
                    old(self)@.mem[old(self)@.pc as int + 1],
                ),
            ) && final(self)@ == (Chip8View { pc: (old(self)@.pc + 2) as u16, ..old(self)@ }),
    {
        if self.cpu.pc >= 0xFFE {
            return Err(Chip8Error::OutOfBoundsFetch);
        }
        let hi = self.memory[self.cpu.pc as usize];
        self.cpu.pc = self.cpu.pc + 1;
        let lo = self.memory[self.cpu.pc as usize];
        self.cpu.pc = self.cpu.pc + 1;
        proof {
            lemma_byte_shl8(hi);
        }
        let inst: u16 = ((hi as u16) << 8) + (lo as u16);
        Ok(inst)
    }

    /// `00E0`: clears the display.
    pub fn clear_screen(&mut self)
        requires
            old(self).wf(),
        ensures
            final(self).wf(),
            same_timers(*old(self), *final(self)),
            final(self)@ == (Chip8View { pix: blank_pix(), ..old(self)@ }),
    {
        self.display.clear();
        proof {
            assert(self.display@ =~= blank_pix());
        }
    }

    /// `1nnn`: sets the program counter to `address`.
    pub fn jump(&mut self, address: u16)
        requires
            old(self).wf(),
        ensures
            final(self).wf(),
            same_timers(*old(self), *final(self)),
            final(self)@ == (Chip8View { pc: address, ..old(self)@ }),
    {
        self.cpu.pc = address;
    }

    /// `6xkk`: VX := `val`.
    pub fn set_vx(&mut self, register_idx: u8, val: u8)
        requires
            old(self).wf(),
            register_idx < 16,
        ensures
            final(self).wf(),
            same_timers(*old(self), *final(self)),
            final(self)@ == (Chip8View {
                regs: old(self)@.regs.update(register_idx as int, val),
                ..old(self)@
            }),
    {
        self.cpu.regs.set(register_idx as usize, val);
    }

    /// `7xkk`: VX := VX + `val`, wrapping on eight-bit overflow, no
    /// flag touched.
    pub fn add_vx(&mut self, register_idx: u8, val: u8)
        requires
            old(self).wf(),
            register_idx < 16,
        ensures
            final(self).wf(),
            same_timers(*old(self), *final(self)),
            final(self)@ == (Chip8View {
                regs: old(self)@.regs.update(
                    register_idx as int,
                    wrap8(old(self)@.regs[register_idx as int] + val),
                ),
                ..old(self)@
            }),
    {
        let a = self.cpu.regs.get(register_idx as usize);
        let sum: u16 = (a as u16) + (val as u16);
        self.cpu.regs.set(register_idx as usize, (sum % 0x100) as u8);
    }

    /// `Annn`: I := `address`.
    pub fn set_index_register(&mut self, address: u16)
        requires
            old(self).wf(),
        ensures
            final(self).wf(),
            same_timers(*old(self), *final(self)),
            final(self)@ == (Chip8View { index: address, ..old(self)@ }),
    {
        self.cpu.index = address;
    }

    /// `Dxyn`: clears VF, then XOR-blits the `n`-byte sprite found at
    /// memory I.. onto the screen at (VX, VY), and writes the collision
    /// flag into VF. Sprite addresses wrap into the address space.
    pub fn draw(&mut self, x: u8, y: u8, n: u8)
        requires
            old(self).wf(),
            x < 16,
            y < 16,
        ensures
            final(self).wf(),
            same_timers(*old(self), *final(self)),
            (
                {
                    let cleared = old(self)@.regs.update(0xF, 0u8);
                    let sx = cleared[x as int];
                    let sy = cleared[y as int];
                    let spr = sprite_rows(old(self)@.mem, old(self)@.index as int, n as int);
                    let flag: u8 = if sprite_collides(old(self)@.pix, sx as int, sy as int, spr) {
                        1
                    } else {
                        0
                    };
                    final(self)@ == (Chip8View {
                        pix: sprite_blit(old(self)@.pix, sx as int, sy as int, spr),
                        regs: old(self)@.regs.update(0xF, flag),
                        ..old(self)@
                    })
                }
            ),
    {
        self.cpu.regs.set(0xF, 0);
        let start_x = self.cpu.regs.get(x as usize);
        let start_y = self.cpu.regs.get(y as usize);

        let mut sprite: Vec<u8> = Vec::new();
        let mut i: usize = 0;
        let ghost base = self.cpu.index as int;
        while i < n as usize
            invariant
                i <= n as usize,
                self.memory@.len() == 4096,
                self.cpu.index as int == base,
                sprite@ == sprite_rows(self.memory@, base, i as int),
            decreases n as usize - i,
        {
            let addr = ((self.cpu.index as usize) + i) % MEM_SIZE;
            sprite.push(self.memory[addr]);
            proof {
                assert(sprite@ =~= sprite_rows(self.memory@, base, i as int + 1));
            }
            i = i + 1;
        }

        let flag = self.display.draw_sprite(start_x, start_y, sprite);
        self.cpu.regs.set(0xF, flag);
        proof {
            assert(self.cpu.regs@ =~= old(self)@.regs.update(0xF, flag));
        }
    }

    /// `00EE`: pops the return address into PC; reports underflow on an
    /// empty stack and leaves the machine unchanged.
    pub fn ret(&mut self) -> (r: Result<(), Chip8Error>)
        requires
            old(self).wf(),
        ensures
            final(self).wf(),
            same_timers(*old(self), *final(self)),
            old(self)@.stack.len() == 0 ==> r == Err::<(), Chip8Error>(Chip8Error::StackUnderflow)
                && final(self)@ == old(self)@,
            old(self)@.stack.len() > 0 ==> r == Ok::<(), Chip8Error>(()) && final(self)@ == (
            Chip8View {
                pc: old(self)@.stack.last(),
                stack: old(self)@.stack.drop_last(),
                ..old(self)@
            }),
    {
        match self.cpu.stack.pop() {
            Some(address) => {
                self.cpu.pc = address;
                Ok(())
            },
            None => Err(Chip8Error::StackUnderflow),
        }
    }

    /// `0nnn`: historically a machine-code call; a no-op here, as on
    /// modern interpreters.
    #[allow(non_snake_case)]
    pub fn SYS(&mut self, address: u16)
        requires
            old(self).wf(),
        ensures
            *final(self) == *old(self),
    {
    }

    /// Dispatches the `0` opcode family: clear, return, or the SYS
    /// no-op.
    pub fn decode_zero_instruction(&mut self, instruction: &u16) -> (r: Result<(), Chip8Error>)
        requires
            old(self).wf(),
            nibble_of(*instruction, 0) == 0,
        ensures
            final(self).wf(),
            same_timers(*old(self), *final(self)),
            final(self)@ == step_state(old(self)@, *instruction),
            r == step_report(old(self)@, *instruction),
    {
        let w = *instruction;
        if w == 0x00E0 {
            self.clear_screen();
            Ok(())
        } else if w == 0x00EE {
            self.ret()
        } else {
            proof {
                lemma_word_fields(w);
            }
            self.SYS(w & 0xFFF);
            Ok(())
        }
    }

    /// `2nnn`: pushes PC and jumps to `address`; reports overflow on a
    /// full stack and leaves the machine unchanged.
    pub fn call(&mut self, address: u16) -> (r: Result<(), Chip8Error>)
        requires
            old(self).wf(),
        ensures
            final(self).wf(),
            same_timers(*old(self), *final(self)),
            old(self)@.stack.len() >= 16 ==> r == Err::<(), Chip8Error>(Chip8Error::StackOverflow)
                && *final(self) == *old(self),
            old(self)@.stack.len() < 16 ==> r == Ok::<(), Chip8Error>(()) && final(self)@ == (
            Chip8View {
                stack: old(self)@.stack.push(old(self)@.pc),
                pc: address,
                ..old(self)@
            }),
    {
        if self.cpu.stack.len() >= 16 {
            return Err(Chip8Error::StackOverflow);
        }
        self.cpu.stack.push(self.cpu.pc);
        self.cpu.pc = address;
        Ok(())
    }

    /// `3xkk`: skips the next instruction if VX equals the low byte.
    pub fn skip_equal(&mut self, instruction: &u16)
        requires
            old(self).wf(),
            old(self)@.pc + 2 <= u16::MAX,
        ensures
            final(self).wf(),
            same_timers(*old(self), *final(self)),
            final(self)@ == (
            if old(self)@.regs[nibble_of(*instruction, 1) as int] == low_byte(*instruction) {
                Chip8View { pc: (old(self)@.pc + 2) as u16, ..old(self)@ }
            } else {
                old(self)@
            }),
    {
        let register_idx = get_nibble(instruction, &1);
        proof {
            lemma_nibble_bound(*instruction, 1);
            lemma_word_fields(*instruction);
        }
        let val = ((*instruction) & 0xFF) as u8;
        if self.cpu.regs.get(register_idx as usize) == val {
            self.cpu.pc = self.cpu.pc + 2;
        }
    }

    /// `4xkk`: skips the next instruction if VX differs from the low
    /// byte.
    pub fn skip_not_equal(&mut self, instruction: &u16)
        requires
            old(self).wf(),
            old(self)@.pc + 2 <= u16::MAX,
        ensures
            final(self).wf(),
            same_timers(*old(self), *final(self)),
            final(self)@ == (
            if old(self)@.regs[nibble_of(*instruction, 1) as int] != low_byte(*instruction) {
                Chip8View { pc: (old(self)@.pc + 2) as u16, ..old(self)@ }
            } else {
                old(self)@
            }),
    {
        let register_idx = get_nibble(instruction, &1);
        proof {
            lemma_nibble_bound(*instruction, 1);
            lemma_word_fields(*instruction);
        }
        let val = ((*instruction) & 0xFF) as u8;
        if self.cpu.regs.get(register_idx as usize) != val {
            self.cpu.pc = self.cpu.pc + 2;
        }
    }

    /// `5xy0`: skips the next instruction if VX equals VY.
    pub fn skip_registers_equal(&mut self, instruction: &u16)
        requires
            old(self).wf(),
            old(self)@.pc + 2 <= u16::MAX,
        ensures
            final(self).wf(),
            same_timers(*old(self), *final(self)),
            final(self)@ == (
            if old(self)@.regs[nibble_of(*instruction, 1) as int] == old(self)@.regs[nibble_of(
                *instruction,
                2,
            ) as int] {
                Chip8View { pc: (old(self)@.pc + 2) as u16, ..old(self)@ }
            } else {
                old(self)@
            }),
    {
        let r1 = get_nibble(instruction, &1);
        let r2 = get_nibble(instruction, &2);
        proof {
            lemma_nibble_bound(*instruction, 1);
            lemma_nibble_bound(*instruction, 2);
        }
        if self.cpu.regs.get(r1 as usize) == self.cpu.regs.get(r2 as usize) {
            self.cpu.pc = self.cpu.pc + 2;
        }
    }

    /// Dispatches the `8xyN` register operations by the low nibble.
    pub fn decode_8_instruction(&mut self, instruction: &u16) -> (r: Result<(), Chip8Error>)
        requires
            old(self).wf(),
            nibble_of(*instruction, 0) == 8,
        ensures
            final(self).wf(),
            same_timers(*old(self), *final(self)),
            final(self)@ == step_state(old(self)@, *instruction),
            r == step_report(old(self)@, *instruction),
    {
        let vx_index = get_nibble(instruction, &1) as usize;
        let vy_index = get_nibble(instruction, &2) as usize;
        proof {
            lemma_nibble_bound(*instruction, 1);
            lemma_nibble_bound(*instruction, 2);
        }
        let op = &mut self.cpu.regs;
        match get_nibble(instruction, &3) {
            0x0 => {
                op.ld(vx_index, vy_index);
                Ok(())
            },
            0x1 => {
                op.bit_or(vx_index, vy_index);
                Ok(())
            },
            0x2 => {
                op.bit_and(vx_index, vy_index);
                Ok(())
            },
            0x3 => {
                op.bit_xor(vx_index, vy_index);
                Ok(())
            },
            0x4 => {
                op.add(vx_index, vy_index);
                Ok(())
            },
            0x5 => {
                op.sub(vx_index, vy_index);
                Ok(())
            },
            0x6 => {
                op.shr(vx_index, vy_index);
                Ok(())
            },
            0x7 => {
                op.subn(vx_index, vy_index);
                Ok(())
            },
            0xE => {
                op.shl(vx_index, vy_index);
                Ok(())
            },
            _ => Err(Chip8Error::UnknownOpcode(*instruction)),
        }
    }

    /// Executes one already-fetched instruction word. The word is
    /// dispatched on its most significant nibble; the machine moves to
    /// exactly `step_state` and reports exactly `step_report`.
    pub fn run_instruction(&mut self, instruction: &u16) -> (r: Result<(), Chip8Error>)
        requires
            old(self).wf(),
            old(self)@.pc + 2 <= u16::MAX,
        ensures
            final(self).wf(),
            same_timers(*old(self), *final(self)),
            final(self)@ == step_state(old(self)@, *instruction),
            r == step_report(old(self)@, *instruction),
    {
        proof {
            lemma_word_fields(*instruction);
            lemma_nibble_bound(*instruction, 1);
            lemma_nibble_bound(*instruction, 2);
            lemma_nibble_bound(*instruction, 3);
        }
        match get_nibble(instruction, &0) {
            0x0 => self.decode_zero_instruction(instruction),
            0x1 => {
                self.jump((*instruction) & 0xFFF);
                Ok(())
            },
            0x2 => self.call((*instruction) & 0xFFF),
            0x3 => {
                self.skip_equal(instruction);
                Ok(())
            },
            0x4 => {
                self.skip_not_equal(instruction);
                Ok(())
            },
            0x5 => {
                if get_nibble(instruction, &3) == 0 {
                    self.skip_registers_equal(instruction);
                    Ok(())
                } else {
                    Err(Chip8Error::UnknownOpcode(*instruction))
                }
            },
            0x6 => {
                self.set_vx(get_nibble(instruction, &1), ((*instruction) & 0xFF) as u8);
                Ok(())
            },
            0x7 => {
                self.add_vx(get_nibble(instruction, &1), ((*instruction) & 0xFF) as u8);
                Ok(())
            },
            0x8 => self.decode_8_instruction(instruction),
            0xA => {
                self.set_index_register((*instruction) & 0xFFF);
                Ok(())
            },
            0xD => {
                self.draw(
                    get_nibble(instruction, &1),
                    get_nibble(instruction, &2),
                    get_nibble(instruction, &3),
                );
                Ok(())
            },
            _ => Err(Chip8Error::UnknownOpcode(*instruction)),
        }
    }

    /// One machine cycle: both timers observe the clock once, then one
    /// instruction is fetched and executed. A fetch past the end of
    /// memory reports without executing; every reported error leaves
    /// the machine consistent, and after an unrecognized opcode the
    /// next cycle simply continues behind it.
    pub fn run(&mut self) -> (r: Result<(), Chip8Error>)
        requires
            old(self).wf(),
        ensures
            final(self).wf(),
            final(self).cpu.delay_timer.val == old(self).cpu.delay_timer.val
                || final(self).cpu.delay_timer.val + 1 == old(self).cpu.delay_timer.val,
            final(self).cpu.sound_timer.val == old(self).cpu.sound_timer.val
                || final(self).cpu.sound_timer.val + 1 == old(self).cpu.sound_timer.val,
            old(self)@.pc >= 0xFFE ==> r == Err::<(), Chip8Error>(Chip8Error::OutOfBoundsFetch)
                && final(self)@ == old(self)@,
            old(self)@.pc < 0xFFE ==> (
                {
                    let w = be_word(
                        old(self)@.mem[old(self)@.pc as int],
                        old(self)@.mem[old(self)@.pc as int + 1],
                    );
                    let mid = Chip8View { pc: (old(self)@.pc + 2) as u16, ..old(self)@ };
                    &&& final(self)@ == step_state(mid, w)
                    &&& r == step_report(mid, w)
                }
            ),
    {
        self.cpu.delay_timer.update();
        self.cpu.sound_timer.update();
        let inst = match self.get_instruction() {
            Ok(w) => w,
            Err(e) => {
                return Err(e);
            },
        };
        self.run_instruction(&inst)
    }
}

} // verus!
