use chip8::bits::get_nibble;
use chip8::display::Display;
use chip8::machine::Chip8;
use chip8::memory::{emplace_at, font, vec_emplace_at};
use chip8::registers::RegisterOperator;
use chip8::timer::{Timer, TIMER_PERIOD_MICROS};

#[test]
fn nibbles_extracted_most_significant_first() {
    let w: u16 = 0xD1E5;
    assert_eq!(get_nibble(&w, &0), 0xD);
    assert_eq!(get_nibble(&w, &1), 0x1);
    assert_eq!(get_nibble(&w, &2), 0xE);
    assert_eq!(get_nibble(&w, &3), 0x5);
}

#[test]
fn emplace_writes_single_cell() {
    let mut memory = vec![0u8; 8];
    emplace_at(0xAB, 3, &mut memory);
    assert_eq!(memory, vec![0, 0, 0, 0xAB, 0, 0, 0, 0]);
}

#[test]
fn vec_emplace_writes_block_and_nothing_else() {
    let mut memory = vec![9u8; 8];
    vec_emplace_at(vec![1, 2, 3], 2, &mut memory);
    assert_eq!(memory, vec![9, 9, 1, 2, 3, 9, 9, 9]);
}

#[test]
fn font_has_sixteen_five_byte_glyphs() {
    let f = font();
    assert_eq!(f.len(), 80);
    assert_eq!(&f[0..5], &[0xF0, 0x90, 0x90, 0x90, 0xF0]);
    assert_eq!(&f[5..10], &[0x20, 0x60, 0x20, 0x20, 0x70]);
}

#[test]
fn register_operator_reads_back_writes() {
    let mut regs = RegisterOperator::new();
    regs.set(3, 0x5A);
    assert_eq!(regs.get(3), 0x5A);
    regs.ld(7, 3);
    assert_eq!(regs.get(7), 0x5A);
}

#[test]
fn draw_row_wraps_and_reports_erasure() {
    let mut d = Display::new();
    let erased = d.draw_row(60, 0, 0xFF);
    assert!(!erased);
    for x in [60usize, 61, 62, 63, 0, 1, 2, 3] {
        assert_eq!(d.pixels[x], 1);
    }
    let erased = d.draw_row(60, 0, 0x01);
    assert!(erased); // bit 7 lands on lit column 3
    assert_eq!(d.pixels[3], 0);
}

#[test]
fn draw_sprite_is_xor_self_inverse() {
    let mut d = Display::new();
    let sprite = vec![0xF0, 0x90, 0x90, 0x90, 0xF0];
    let col = d.draw_sprite(10, 12, sprite.clone());
    assert_eq!(col, 0);
    let col = d.draw_sprite(10, 12, sprite);
    assert_eq!(col, 1);
    assert!(d.pixels.iter().all(|&p| p == 0));
}

#[test]
fn clear_blanks_display() {
    let mut d = Display::new();
    d.draw_row(0, 0, 0xAA);
    d.clear();
    assert!(d.pixels.iter().all(|&p| p == 0));
}

#[test]
fn frame_expansion_is_white_on_black() {
    let mut c8 = Chip8::new();
    c8.display.draw_row(0, 0, 0x80); // light the top-left pixel
    let mut frame = vec![0u8; 8192];
    c8.display.update_display(&mut frame);
    assert_eq!(&frame[0..4], &[0xFF, 0xFF, 0xFF, 0xFF]);
    assert_eq!(&frame[4..8], &[0x00, 0x00, 0x00, 0xFF]);
    assert_eq!(&frame[8188..8192], &[0x00, 0x00, 0x00, 0xFF]);
}

#[test]
fn timer_waits_for_deadline_and_never_goes_below_zero() {
    let mut t = Timer { val: 2, next_tick: 100 };
    t.tick(100); // deadline not yet passed
    assert_eq!(t.val, 2);
    assert_eq!(t.next_tick, 100);
    t.tick(101);
    assert_eq!(t.val, 1);
    assert_eq!(t.next_tick, 101 + TIMER_PERIOD_MICROS);
    t.tick(u64::MAX);
    assert_eq!(t.val, 0);
    assert_eq!(t.next_tick, u64::MAX);
    t.tick(u64::MAX);
    assert_eq!(t.val, 0); // never decremented below zero
}

#[test]
fn timer_update_against_wall_clock() {
    let mut t = Timer::new();
    assert_eq!(t.val, 0);
    t.update();
    assert_eq!(t.val, 0);
    let mut t = Timer { val: 5, next_tick: 0 };
    t.update(); // the epoch deadline has long passed
    assert_eq!(t.val, 4);
}
