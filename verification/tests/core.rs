use chip8::machine::{Chip8, Chip8Error};

fn fresh() -> Chip8 {
    Chip8::new()
}

#[test]
fn load_register_returns_value() {
    // 6xkk followed by reading VX gives back kk, across registers and values.
    for x in 0u16..16 {
        for kk in [0u16, 1, 0x7F, 0x80, 0xAB, 0xFF] {
            let mut c8 = fresh();
            let w = 0x6000 | (x << 8) | kk;
            assert_eq!(c8.run_instruction(&w), Ok(()));
            assert_eq!(c8.cpu.regs.vx[x as usize], kk as u8);
        }
    }
}

#[test]
fn add_sets_carry_on_overflow() {
    let mut c8 = fresh();
    assert_eq!(c8.run_instruction(&0x60FF), Ok(())); // V0 := 0xFF
    assert_eq!(c8.run_instruction(&0x6101), Ok(())); // V1 := 0x01
    assert_eq!(c8.run_instruction(&0x8014), Ok(())); // V0 := V0 + V1
    assert_eq!(c8.cpu.regs.vx[0], 0x00);
    assert_eq!(c8.cpu.regs.vx[0xF], 1);
}

#[test]
fn add_clears_carry_without_overflow() {
    let mut c8 = fresh();
    assert_eq!(c8.run_instruction(&0x6001), Ok(()));
    assert_eq!(c8.run_instruction(&0x6101), Ok(()));
    assert_eq!(c8.run_instruction(&0x8014), Ok(()));
    assert_eq!(c8.cpu.regs.vx[0], 0x02);
    assert_eq!(c8.cpu.regs.vx[0xF], 0);
}

#[test]
fn sub_sets_no_borrow_flag() {
    let mut c8 = fresh();
    assert_eq!(c8.run_instruction(&0x6005), Ok(()));
    assert_eq!(c8.run_instruction(&0x6103), Ok(()));
    assert_eq!(c8.run_instruction(&0x8015), Ok(())); // V0 := V0 - V1
    assert_eq!(c8.cpu.regs.vx[0], 0x02);
    assert_eq!(c8.cpu.regs.vx[0xF], 1);
}

#[test]
fn sub_wraps_on_borrow() {
    let mut c8 = fresh();
    assert_eq!(c8.run_instruction(&0x6003), Ok(()));
    assert_eq!(c8.run_instruction(&0x6105), Ok(()));
    assert_eq!(c8.run_instruction(&0x8015), Ok(()));
    assert_eq!(c8.cpu.regs.vx[0], 0xFE);
    assert_eq!(c8.cpu.regs.vx[0xF], 0);
}

#[test]
fn shr_reports_shifted_out_bit() {
    let mut c8 = fresh();
    assert_eq!(c8.run_instruction(&0x6003), Ok(())); // V0 := 0b00000011
    assert_eq!(c8.run_instruction(&0x8006), Ok(())); // V0 := V0 >> 1
    assert_eq!(c8.cpu.regs.vx[0], 0b00000001);
    assert_eq!(c8.cpu.regs.vx[0xF], 1);
}

#[test]
fn subn_and_shl_exact_values() {
    let mut c8 = fresh();
    assert_eq!(c8.run_instruction(&0x6003), Ok(())); // V0 := 3
    assert_eq!(c8.run_instruction(&0x6105), Ok(())); // V1 := 5
    assert_eq!(c8.run_instruction(&0x8017), Ok(())); // V0 := V1 - V0
    assert_eq!(c8.cpu.regs.vx[0], 0x02);
    assert_eq!(c8.cpu.regs.vx[0xF], 1);

    let mut c8 = fresh();
    assert_eq!(c8.run_instruction(&0x60C1), Ok(())); // V0 := 0b11000001
    assert_eq!(c8.run_instruction(&0x801E), Ok(())); // V0 := V0 << 1
    assert_eq!(c8.cpu.regs.vx[0], 0b10000010);
    assert_eq!(c8.cpu.regs.vx[0xF], 1);
}

#[test]
fn bitwise_ops_exact_values() {
    let mut c8 = fresh();
    assert_eq!(c8.run_instruction(&0x60CC), Ok(())); // V0 := 0b11001100
    assert_eq!(c8.run_instruction(&0x61AA), Ok(())); // V1 := 0b10101010
    assert_eq!(c8.run_instruction(&0x8011), Ok(())); // V0 := V0 | V1
    assert_eq!(c8.cpu.regs.vx[0], 0xEE);

    let mut c8 = fresh();
    assert_eq!(c8.run_instruction(&0x60CC), Ok(()));
    assert_eq!(c8.run_instruction(&0x61AA), Ok(()));
    assert_eq!(c8.run_instruction(&0x8012), Ok(())); // and
    assert_eq!(c8.cpu.regs.vx[0], 0x88);

    let mut c8 = fresh();
    assert_eq!(c8.run_instruction(&0x60CC), Ok(()));
    assert_eq!(c8.run_instruction(&0x61AA), Ok(()));
    assert_eq!(c8.run_instruction(&0x8013), Ok(())); // xor
    assert_eq!(c8.cpu.regs.vx[0], 0x66);

    let mut c8 = fresh();
    assert_eq!(c8.run_instruction(&0x61AA), Ok(()));
    assert_eq!(c8.run_instruction(&0x8010), Ok(())); // V0 := V1
    assert_eq!(c8.cpu.regs.vx[0], 0xAA);
}

#[test]
fn add_immediate_wraps_without_flag() {
    let mut c8 = fresh();
    assert_eq!(c8.run_instruction(&0x60FE), Ok(())); // V0 := 0xFE
    assert_eq!(c8.run_instruction(&0x7003), Ok(())); // V0 += 3, wrapping
    assert_eq!(c8.cpu.regs.vx[0], 0x01);
    assert_eq!(c8.cpu.regs.vx[0xF], 0); // 7xkk never touches VF
}

#[test]
fn clear_screen_blanks_every_pixel() {
    let mut c8 = fresh();
    // Draw a few sprites from the font table, then clear.
    assert_eq!(c8.load_program(vec![]), Ok(()));
    assert_eq!(c8.run_instruction(&0xA050), Ok(())); // I := font glyph 0
    assert_eq!(c8.run_instruction(&0x600A), Ok(())); // V0 := 10
    assert_eq!(c8.run_instruction(&0x6105), Ok(())); // V1 := 5
    assert_eq!(c8.run_instruction(&0xD015), Ok(())); // draw 5 rows
    assert_eq!(c8.run_instruction(&0xD125), Ok(())); // draw more, elsewhere
    assert!(c8.display.pixels.iter().any(|&p| p == 1));
    assert_eq!(c8.run_instruction(&0x00E0), Ok(()));
    assert!(c8.display.pixels.iter().all(|&p| p == 0));
}

#[test]
fn drawing_twice_restores_display_and_collides() {
    let mut c8 = fresh();
    assert_eq!(c8.load_program(vec![]), Ok(()));
    assert_eq!(c8.run_instruction(&0xA050), Ok(())); // I := font glyph 0
    assert_eq!(c8.run_instruction(&0x6007), Ok(())); // V0 := 7
    assert_eq!(c8.run_instruction(&0x6103), Ok(())); // V1 := 3
    let before: Vec<u8> = c8.display.pixels.clone();
    assert_eq!(c8.run_instruction(&0xD015), Ok(()));
    assert_eq!(c8.cpu.regs.vx[0xF], 0); // first draw on a blank screen
    assert_eq!(c8.run_instruction(&0xD015), Ok(()));
    assert_eq!(c8.cpu.regs.vx[0xF], 1); // second draw erases what the first set
    assert_eq!(c8.display.pixels, before);
}

#[test]
fn sprite_wraps_columns_at_right_edge() {
    let mut c8 = fresh();
    // One 0xFF row drawn at x = 60, y = 0 lights columns 60..63 and 0..3.
    assert_eq!(c8.load_program(vec![0xFF]), Ok(()));
    assert_eq!(c8.run_instruction(&0xA200), Ok(())); // I := 0x200
    assert_eq!(c8.run_instruction(&0x603C), Ok(())); // V0 := 60
    assert_eq!(c8.run_instruction(&0x6100), Ok(())); // V1 := 0
    assert_eq!(c8.run_instruction(&0xD011), Ok(()));
    let lit: Vec<usize> = (0..64).filter(|&x| c8.display.pixels[x] == 1).collect();
    assert_eq!(lit, vec![0, 1, 2, 3, 60, 61, 62, 63]);
    // No other screen row was touched.
    assert!(c8.display.pixels[64..].iter().all(|&p| p == 0));
}

#[test]
fn sprite_wraps_rows_at_bottom_edge() {
    let mut c8 = fresh();
    assert_eq!(c8.load_program(vec![0x80, 0x80, 0x80]), Ok(()));
    assert_eq!(c8.run_instruction(&0xA200), Ok(()));
    assert_eq!(c8.run_instruction(&0x6000), Ok(())); // V0 := 0
    assert_eq!(c8.run_instruction(&0x611F), Ok(())); // V1 := 31
    assert_eq!(c8.run_instruction(&0xD013), Ok(()));
    // Rows 31, 0 and 1 of column 0 are lit.
    assert_eq!(c8.display.pixels[31 * 64], 1);
    assert_eq!(c8.display.pixels[0], 1);
    assert_eq!(c8.display.pixels[64], 1);
}

#[test]
fn call_then_return_resumes_after_call() {
    let mut c8 = fresh();
    let pc_before = c8.cpu.pc; // as it stands just after the 2nnn fetch
    assert_eq!(c8.run_instruction(&0x2300), Ok(()));
    assert_eq!(c8.cpu.pc, 0x300);
    assert_eq!(c8.cpu.stack.len(), 1);
    assert_eq!(c8.run_instruction(&0x00EE), Ok(()));
    assert_eq!(c8.cpu.pc, pc_before);
    assert_eq!(c8.cpu.stack.len(), 0);
}

#[test]
fn call_and_return_through_run_cycle() {
    let mut c8 = fresh();
    // 0x200: call 0x204; 0x202: unreachable filler; 0x204: return.
    assert_eq!(c8.load_program(vec![0x22, 0x04, 0x00, 0x00, 0x00, 0xEE]), Ok(()));
    assert_eq!(c8.run(), Ok(()));
    assert_eq!(c8.cpu.pc, 0x204);
    assert_eq!(c8.run(), Ok(()));
    assert_eq!(c8.cpu.pc, 0x202); // just past the call instruction
}

#[test]
fn load_rejects_oversized_program() {
    let mut c8 = fresh();
    assert_eq!(c8.load_program(vec![0u8; 0xE01]), Err(Chip8Error::LoadError));
    // A rejected load writes nothing, not even the font.
    assert!(c8.memory.iter().all(|&b| b == 0));
    let mut c8 = fresh();
    assert_eq!(c8.load_program(vec![0xAB; 0xE00]), Ok(()));
    assert_eq!(c8.memory[0x200], 0xAB);
    assert_eq!(c8.memory[0xFFF], 0xAB);
}

#[test]
fn font_glyph_zero_loaded_at_0x50() {
    let mut c8 = fresh();
    assert_eq!(c8.load_program(vec![]), Ok(()));
    assert_eq!(&c8.memory[0x50..0x55], &[0xF0, 0x90, 0x90, 0x90, 0xF0]);
    // Last glyph, F, sits at the end of the table.
    assert_eq!(&c8.memory[0x9B..0xA0], &[0xF0, 0x80, 0xF0, 0x80, 0x80]);
}

#[test]
fn stack_overflow_reported_on_seventeenth_call() {
    let mut c8 = fresh();
    for _ in 0..16 {
        assert_eq!(c8.run_instruction(&0x2300), Ok(()));
    }
    assert_eq!(
        c8.run_instruction(&0x2300),
        Err(Chip8Error::StackOverflow)
    );
    assert_eq!(c8.cpu.stack.len(), 16);
    assert_eq!(c8.cpu.pc, 0x300); // untouched by the failed call
}

#[test]
fn stack_underflow_reported_on_empty_return() {
    let mut c8 = fresh();
    let pc = c8.cpu.pc;
    assert_eq!(c8.run_instruction(&0x00EE), Err(Chip8Error::StackUnderflow));
    assert_eq!(c8.cpu.pc, pc);
}

#[test]
fn fetch_past_memory_reported() {
    let mut c8 = fresh();
    assert_eq!(c8.run_instruction(&0x1FFE), Ok(())); // jump to 0xFFE
    assert_eq!(c8.run(), Err(Chip8Error::OutOfBoundsFetch));
    assert_eq!(c8.cpu.pc, 0xFFE); // the failed fetch does not move PC
}

#[test]
fn unknown_opcode_reported_and_machine_continues() {
    let mut c8 = fresh();
    for w in [0x9120u16, 0xB123, 0xC456, 0xE09E, 0xF015, 0x5121, 0x8008] {
        assert_eq!(c8.run_instruction(&w), Err(Chip8Error::UnknownOpcode(w)));
    }
    // The machine is still live: the next instruction executes normally.
    assert_eq!(c8.run_instruction(&0x6042), Ok(()));
    assert_eq!(c8.cpu.regs.vx[0], 0x42);
}

#[test]
fn sys_and_skips() {
    let mut c8 = fresh();
    let pc = c8.cpu.pc;
    assert_eq!(c8.run_instruction(&0x0123), Ok(())); // SYS: no-op
    assert_eq!(c8.cpu.pc, pc);

    assert_eq!(c8.run_instruction(&0x6033), Ok(())); // V0 := 0x33
    assert_eq!(c8.run_instruction(&0x3033), Ok(())); // skip taken
    assert_eq!(c8.cpu.pc, pc + 2);
    assert_eq!(c8.run_instruction(&0x3034), Ok(())); // skip not taken
    assert_eq!(c8.cpu.pc, pc + 2);
    assert_eq!(c8.run_instruction(&0x4034), Ok(())); // skip taken
    assert_eq!(c8.cpu.pc, pc + 4);
    assert_eq!(c8.run_instruction(&0x6133), Ok(())); // V1 := 0x33
    assert_eq!(c8.run_instruction(&0x5010), Ok(())); // equal: skip taken
    assert_eq!(c8.cpu.pc, pc + 6);
}

#[test]
fn run_executes_program_from_memory() {
    let mut c8 = fresh();
    assert_eq!(c8.load_program(vec![0x6A, 0x2B]), Ok(()));
    assert_eq!(c8.run(), Ok(()));
    assert_eq!(c8.cpu.regs.vx[0xA], 0x2B);
    assert_eq!(c8.cpu.pc, 0x202);
}

#[test]
fn run_reports_unknown_opcode_but_advances() {
    let mut c8 = fresh();
    assert_eq!(c8.load_program(vec![0xFF, 0xFF, 0x60, 0x07]), Ok(()));
    assert_eq!(c8.run(), Err(Chip8Error::UnknownOpcode(0xFFFF)));
    assert_eq!(c8.cpu.pc, 0x202);
    assert_eq!(c8.run(), Ok(()));
    assert_eq!(c8.cpu.regs.vx[0], 7);
}
