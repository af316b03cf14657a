use chip8_core::emulator::Emulator;
use chip8_core::error::Chip8Error;
use chip8_core::font::FONT;
use chip8_core::model::{MAX_ROM_SIZE, SCREEN_WIDTH};

fn with_program(bytes: &[u8]) -> Emulator {
    let mut emu = Emulator::new();
    assert_eq!(emu.load(bytes), Ok(()));
    emu
}

fn run(emu: &mut Emulator, cycles: usize) {
    for _ in 0..cycles {
        assert_eq!(emu.ticket(), Ok(()));
    }
}

fn lit_pixels(emu: &Emulator) -> Vec<usize> {
    emu.get_display()
        .iter()
        .enumerate()
        .filter(|(_, p)| **p)
        .map(|(i, _)| i)
        .collect()
}

fn same_state(a: &Emulator, b: &Emulator) -> bool {
    a.pc() == b.pc()
        && a.i_reg() == b.i_reg()
        && a.sp() == b.sp()
        && a.delay_timer() == b.delay_timer()
        && a.sound_timer() == b.sound_timer()
        && a.is_awaiting_key() == b.is_awaiting_key()
        && (0..16).all(|x| a.reg(x) == b.reg(x))
        && (0..4096).all(|i| a.ram_at(i) == b.ram_at(i))
        && a.get_display() == b.get_display()
}

#[test]
fn fresh_machine_starts_at_load_address_with_font() {
    let emu = Emulator::new();
    assert_eq!(emu.pc(), 0x200);
    for i in 0..80 {
        assert_eq!(emu.ram_at(i), FONT[i]);
    }
    assert_eq!(emu.ram_at(0), 0xF0);
    assert_eq!(emu.ram_at(79), 0x80);
    assert_eq!(emu.ram_at(80), 0);
    assert_eq!(emu.sp(), 0);
    assert_eq!(emu.i_reg(), 0);
    assert!(lit_pixels(&emu).is_empty());
    assert!(!emu.get_sound_flag());
}

#[test]
fn reset_matches_fresh_machine() {
    // V0 = 0x12, I = 0x300, store V0..V0, call 0x208, draw, set sound timer.
    let mut emu = with_program(&[
        0x60, 0x12, 0xA3, 0x00, 0xF0, 0x55, 0x22, 0x08, 0xD0, 0x05, 0xF0, 0x18,
    ]);
    emu.set_key(3, true);
    run(&mut emu, 4);
    assert!(!same_state(&emu, &Emulator::new()));
    emu.reset();
    assert!(same_state(&emu, &Emulator::new()));
    assert_eq!(emu.ram_at(0x200), 0);
}

#[test]
fn call_then_return_resumes_after_call() {
    let mut rom = vec![0u8; 0x102];
    rom[0] = 0x23;
    rom[1] = 0x00;
    rom[0x100] = 0x00;
    rom[0x101] = 0xEE;
    let mut emu = with_program(&rom);
    run(&mut emu, 1);
    assert_eq!(emu.pc(), 0x300);
    assert_eq!(emu.sp(), 1);
    run(&mut emu, 1);
    assert_eq!(emu.pc(), 0x202);
    assert_eq!(emu.sp(), 0);
}

#[test]
fn add_sets_carry_on_overflow() {
    let cases: [(u8, u8, u8, u8); 5] =
        [(5, 3, 8, 0), (200, 100, 44, 1), (255, 1, 0, 1), (255, 0, 255, 0), (128, 128, 0, 1)];
    for (a, b, sum, flag) in cases {
        let mut emu = with_program(&[0x60, a, 0x61, b, 0x80, 0x14]);
        run(&mut emu, 3);
        assert_eq!(emu.reg(0), sum);
        assert_eq!(emu.reg(0xF), flag);
    }
}

#[test]
fn add_into_vf_keeps_the_flag() {
    let mut emu = with_program(&[0x6F, 0xFF, 0x61, 0x02, 0x8F, 0x14]);
    run(&mut emu, 3);
    assert_eq!(emu.reg(0xF), 1);
}

#[test]
fn sub_and_subn_flag_no_borrow() {
    let cases: [(u8, u8); 4] = [(9, 4), (4, 9), (7, 7), (0, 255)];
    for (a, b) in cases {
        let mut emu = with_program(&[0x60, a, 0x61, b, 0x80, 0x15]);
        run(&mut emu, 3);
        assert_eq!(emu.reg(0), a.wrapping_sub(b));
        assert_eq!(emu.reg(0xF), if a >= b { 1 } else { 0 });

        let mut emu = with_program(&[0x60, a, 0x61, b, 0x80, 0x17]);
        run(&mut emu, 3);
        assert_eq!(emu.reg(0), b.wrapping_sub(a));
        assert_eq!(emu.reg(0xF), if b >= a { 1 } else { 0 });
    }
}

#[test]
fn shifts_report_dropped_bit() {
    let mut emu = with_program(&[0x60, 0x81, 0x80, 0x06]);
    run(&mut emu, 2);
    assert_eq!(emu.reg(0), 0x40);
    assert_eq!(emu.reg(0xF), 1);
    let mut emu = with_program(&[0x60, 0x81, 0x80, 0x0E]);
    run(&mut emu, 2);
    assert_eq!(emu.reg(0), 0x02);
    assert_eq!(emu.reg(0xF), 1);
    let mut emu = with_program(&[0x60, 0x42, 0x80, 0x0E]);
    run(&mut emu, 2);
    assert_eq!(emu.reg(0), 0x84);
    assert_eq!(emu.reg(0xF), 0);
}

#[test]
fn bitwise_and_assign_ops() {
    let mut emu = with_program(&[
        0x60, 0xCC, 0x61, 0xAA, 0x82, 0x00, 0x82, 0x11, 0x83, 0x00, 0x83, 0x12, 0x84, 0x00,
        0x84, 0x13,
    ]);
    run(&mut emu, 8);
    assert_eq!(emu.reg(2), 0xEE);
    assert_eq!(emu.reg(3), 0x88);
    assert_eq!(emu.reg(4), 0x66);
}

#[test]
fn add_immediate_wraps_without_flag() {
    let mut emu = with_program(&[0x60, 0xFE, 0x70, 0x05]);
    run(&mut emu, 2);
    assert_eq!(emu.reg(0), 0x03);
    assert_eq!(emu.reg(0xF), 0);
}

#[test]
fn drawing_twice_restores_screen() {
    // V0 = 10, V1 = 4, I = glyph "0", draw 5 rows twice.
    let mut emu = with_program(&[0x60, 0x0A, 0x61, 0x04, 0xA0, 0x00, 0xD0, 0x15, 0xD0, 0x15]);
    run(&mut emu, 4);
    let lit = lit_pixels(&emu);
    assert_eq!(lit.len(), 14);
    assert!(lit.contains(&(4 * SCREEN_WIDTH + 10)));
    assert!(lit.contains(&(4 * SCREEN_WIDTH + 13)));
    assert!(!lit.contains(&(5 * SCREEN_WIDTH + 11)));
    assert_eq!(emu.reg(0xF), 0);
    run(&mut emu, 1);
    assert!(lit_pixels(&emu).is_empty());
    assert_eq!(emu.reg(0xF), 1);
}

#[test]
fn draw_reports_collision_on_overlap() {
    // Glyph "0" at (0, 0), then glyph "1" at (0, 0): they share lit pixels.
    let mut emu = with_program(&[0xA0, 0x00, 0xD0, 0x05, 0xA0, 0x05, 0xD0, 0x05]);
    run(&mut emu, 2);
    assert_eq!(emu.reg(0xF), 0);
    run(&mut emu, 2);
    assert_eq!(emu.reg(0xF), 1);
}

#[test]
fn draw_wraps_around_edges() {
    // Two full rows stored at I = 0x300, then drawn at (62, 31).
    let mut emu = with_program(&[
        0x60, 0xFF, 0x61, 0xFF, 0xA3, 0x00, 0xF1, 0x55, 0x60, 0x3E, 0x61, 0x1F, 0xD0, 0x12,
    ]);
    run(&mut emu, 7);
    let lit = lit_pixels(&emu);
    let row31 = 31 * SCREEN_WIDTH;
    let mut expected: Vec<usize> = vec![
        row31 + 62, row31 + 63, row31, row31 + 1, row31 + 2, row31 + 3, row31 + 4, row31 + 5,
        62, 63, 0, 1, 2, 3, 4, 5,
    ];
    expected.sort();
    assert_eq!(lit, expected);
}

#[test]
fn clear_screen_turns_all_pixels_off() {
    let mut emu = with_program(&[0xA0, 0x00, 0xD0, 0x05, 0x00, 0xE0]);
    run(&mut emu, 2);
    assert!(!lit_pixels(&emu).is_empty());
    run(&mut emu, 1);
    assert!(lit_pixels(&emu).is_empty());
}

#[test]
fn bcd_of_255_and_0() {
    let mut emu = with_program(&[0x60, 0xFF, 0xA3, 0x00, 0xF0, 0x33]);
    run(&mut emu, 3);
    assert_eq!([emu.ram_at(0x300), emu.ram_at(0x301), emu.ram_at(0x302)], [2, 5, 5]);

    let mut emu = with_program(&[0x60, 0x00, 0xA3, 0x00, 0xF0, 0x33]);
    run(&mut emu, 3);
    assert_eq!([emu.ram_at(0x300), emu.ram_at(0x301), emu.ram_at(0x302)], [0, 0, 0]);

    let mut emu = with_program(&[0x60, 0x7B, 0xA3, 0x00, 0xF0, 0x33]);
    run(&mut emu, 3);
    assert_eq!([emu.ram_at(0x300), emu.ram_at(0x301), emu.ram_at(0x302)], [1, 2, 3]);
}

#[test]
fn load_program_then_add() {
    let mut emu = with_program(&[0x60, 0x05, 0x61, 0x03, 0x80, 0x14, 0x00, 0x00]);
    run(&mut emu, 3);
    assert_eq!(emu.reg(0), 8);
    assert_eq!(emu.reg(0xF), 0);
    assert_eq!(emu.pc(), 0x206);
}

#[test]
fn sound_timer_signals_stop_once() {
    let mut emu = with_program(&[0x60, 0x01, 0xF0, 0x18]);
    run(&mut emu, 2);
    assert_eq!(emu.sound_timer(), 1);
    assert!(emu.get_sound_flag());
    assert!(emu.tick_timer());
    assert_eq!(emu.sound_timer(), 0);
    assert!(!emu.get_sound_flag());
    assert!(!emu.tick_timer());
    assert_eq!(emu.sound_timer(), 0);
}

#[test]
fn delay_timer_counts_down_and_reads_back() {
    let mut emu = with_program(&[0x60, 0x03, 0xF0, 0x15, 0xF1, 0x07]);
    run(&mut emu, 2);
    assert!(!emu.tick_timer());
    assert_eq!(emu.delay_timer(), 2);
    run(&mut emu, 1);
    assert_eq!(emu.reg(1), 2);
    emu.tick_timer();
    emu.tick_timer();
    emu.tick_timer();
    assert_eq!(emu.delay_timer(), 0);
}

#[test]
fn load_rejects_oversized_rom() {
    let mut emu = Emulator::new();
    let big = vec![1u8; MAX_ROM_SIZE + 1];
    assert_eq!(emu.load(&big), Err(Chip8Error::RomTooLarge));
    assert_eq!(emu.ram_at(0x200), 0);
    let full = vec![7u8; MAX_ROM_SIZE];
    assert_eq!(emu.load(&full), Ok(()));
    assert_eq!(emu.ram_at(0x200), 7);
    assert_eq!(emu.ram_at(4095), 7);
    assert_eq!(emu.ram_at(0x1FF), 0);
}

#[test]
fn unknown_opcode_is_reported_and_changes_nothing() {
    let mut emu = with_program(&[0x80, 0x08]);
    assert_eq!(emu.ticket(), Err(Chip8Error::UnknownOpcode(0x8008)));
    assert_eq!(emu.pc(), 0x200);
    let mut emu = Emulator::new();
    assert_eq!(emu.ticket(), Err(Chip8Error::UnknownOpcode(0x0000)));
    let mut emu = with_program(&[0xF0, 0xFF]);
    assert_eq!(emu.ticket(), Err(Chip8Error::UnknownOpcode(0xF0FF)));
    let mut emu = with_program(&[0x50, 0x11]);
    assert_eq!(emu.ticket(), Err(Chip8Error::UnknownOpcode(0x5011)));
}

#[test]
fn stack_overflow_and_underflow() {
    let mut emu = with_program(&[0x22, 0x00]);
    run(&mut emu, 16);
    assert_eq!(emu.sp(), 16);
    assert_eq!(emu.ticket(), Err(Chip8Error::StackOverflow));
    assert_eq!(emu.sp(), 16);
    assert_eq!(emu.pc(), 0x200);

    let mut emu = with_program(&[0x00, 0xEE]);
    assert_eq!(emu.ticket(), Err(Chip8Error::StackUnderflow));
    assert_eq!(emu.pc(), 0x200);
}

#[test]
fn pc_past_memory_is_reported() {
    let mut emu = with_program(&[0x1F, 0xFF]);
    run(&mut emu, 1);
    assert_eq!(emu.pc(), 0xFFF);
    assert_eq!(emu.ticket(), Err(Chip8Error::PcOutOfBounds(0xFFF)));
}

#[test]
fn index_past_memory_is_reported() {
    let mut emu = with_program(&[0xAF, 0xFE, 0xF0, 0x33]);
    run(&mut emu, 1);
    assert_eq!(emu.ticket(), Err(Chip8Error::AddressOutOfBounds(0xFFE)));
    assert_eq!(emu.pc(), 0x202);
    let mut emu = with_program(&[0xAF, 0xFC, 0xF4, 0x55]);
    run(&mut emu, 1);
    assert_eq!(emu.ticket(), Err(Chip8Error::AddressOutOfBounds(0xFFC)));
    let mut emu = with_program(&[0xAF, 0xFC, 0xD0, 0x05]);
    run(&mut emu, 1);
    assert_eq!(emu.ticket(), Err(Chip8Error::AddressOutOfBounds(0xFFC)));
}

#[test]
fn key_wait_holds_until_a_key_is_pressed() {
    let mut emu = with_program(&[0xF3, 0x0A, 0x60, 0x01]);
    run(&mut emu, 1);
    assert!(emu.is_awaiting_key());
    run(&mut emu, 3);
    assert!(emu.is_awaiting_key());
    assert_eq!(emu.pc(), 0x202);
    emu.set_key(9, true);
    emu.set_key(7, true);
    run(&mut emu, 1);
    assert!(!emu.is_awaiting_key());
    assert_eq!(emu.reg(3), 7);
    run(&mut emu, 1);
    assert_eq!(emu.reg(0), 1);
}

#[test]
fn key_skips_follow_keypad() {
    let mut emu = with_program(&[0x60, 0x05, 0xE0, 0x9E, 0x61, 0x01, 0xE0, 0xA1, 0x62, 0x01]);
    emu.set_key(5, true);
    run(&mut emu, 4);
    assert_eq!(emu.pc(), 0x20A);
    assert_eq!(emu.reg(1), 0);
    assert_eq!(emu.reg(2), 1);

    let mut released = with_program(&[0x60, 0x05, 0xE0, 0x9E, 0x61, 0x01]);
    released.set_key(5, true);
    released.set_key(5, false);
    run(&mut released, 3);
    assert_eq!(released.reg(1), 1);

    // V0 = 20 names no key, so it never reads as pressed.
    let mut beyond = with_program(&[0x60, 0x14, 0xE0, 0x9E, 0x61, 0x01]);
    beyond.set_key(20, true);
    run(&mut beyond, 3);
    assert_eq!(beyond.reg(1), 1);
}

#[test]
fn conditional_skips() {
    let mut emu = with_program(&[0x60, 0x07, 0x30, 0x07, 0x00, 0x00, 0x40, 0x07, 0x61, 0x07, 0x50, 0x10, 0x00, 0x00, 0x90, 0x10, 0x62, 0x09]);
    run(&mut emu, 7);
    assert_eq!(emu.reg(1), 7);
    assert_eq!(emu.reg(2), 9);
    assert_eq!(emu.pc(), 0x212);
}

#[test]
fn jumps_and_index_ops() {
    let mut emu = with_program(&[0x60, 0x04, 0xB3, 0x00]);
    run(&mut emu, 2);
    assert_eq!(emu.pc(), 0x304);

    let mut emu = with_program(&[0x12, 0x08]);
    run(&mut emu, 1);
    assert_eq!(emu.pc(), 0x208);

    let mut emu = with_program(&[0x60, 0x0B, 0xF0, 0x29, 0xA1, 0x23]);
    run(&mut emu, 2);
    assert_eq!(emu.i_reg(), 55);
    run(&mut emu, 1);
    assert_eq!(emu.i_reg(), 0x123);
}

#[test]
fn add_to_index_with_and_without_flag() {
    let mut emu = with_program(&[0x60, 0x10, 0xAF, 0xF8, 0xF0, 0x1E]);
    run(&mut emu, 3);
    assert_eq!(emu.i_reg(), 0x1008);
    assert_eq!(emu.reg(0xF), 0);

    let mut emu = with_program(&[0x60, 0x10, 0xAF, 0xF8, 0xF0, 0x1E, 0xA0, 0x00, 0xF0, 0x1E]);
    emu.set_index_carry(true);
    run(&mut emu, 3);
    assert_eq!(emu.i_reg(), 0x1008);
    assert_eq!(emu.reg(0xF), 1);
    run(&mut emu, 2);
    assert_eq!(emu.i_reg(), 0x10);
    assert_eq!(emu.reg(0xF), 0);
}

#[test]
fn store_and_load_registers() {
    let mut emu = with_program(&[
        0x60, 0x11, 0x61, 0x22, 0x62, 0x33, 0xA3, 0x00, 0xF1, 0x55, 0x60, 0x00, 0x61, 0x00,
        0xF2, 0x65,
    ]);
    run(&mut emu, 5);
    assert_eq!([emu.ram_at(0x300), emu.ram_at(0x301), emu.ram_at(0x302)], [0x11, 0x22, 0]);
    assert_eq!(emu.i_reg(), 0x300);
    run(&mut emu, 3);
    assert_eq!([emu.reg(0), emu.reg(1), emu.reg(2)], [0x11, 0x22, 0]);
}

#[test]
fn random_byte_is_masked_and_repeatable() {
    let program = [0xC0, 0x0F, 0xC1, 0x00, 0xC2, 0xFF];
    let mut a = with_program(&program);
    let mut b = with_program(&program);
    run(&mut a, 3);
    run(&mut b, 3);
    assert!(a.reg(0) <= 0x0F);
    assert_eq!(a.reg(1), 0);
    assert_eq!(a.reg(0), b.reg(0));
    assert_eq!(a.reg(2), b.reg(2));
}
