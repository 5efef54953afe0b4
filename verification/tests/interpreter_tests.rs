use chip8_core::Chip8;
use chip8_core::Chip8Error;

fn boot(rom: Vec<u8>) -> Chip8 {
    let mut c = Chip8::new();
    c.load_font();
    c.load_rom(&rom);
    c
}

fn run(c: &mut Chip8, cycles: usize) {
    for _ in 0..cycles {
        c.tick().expect("cycle failed");
    }
}

#[test]
fn fresh_machine_is_zeroed() {
    let c = Chip8::new();
    assert_eq!(c.pc, 0x200);
    assert_eq!(c.index_reg, 0);
    assert!(c.var_regs.iter().all(|&v| v == 0));
    assert!(c.display.iter().all(|&p| !p));
    assert!(c.keypad.iter().all(|&k| !k));
    assert_eq!(c.stack.len(), 0);
    assert_eq!(c.delay_timer, 0);
    assert_eq!(c.sound_timer, 0);
}

#[test]
fn font_is_loaded_at_0x50() {
    let mut c = Chip8::new();
    c.load_font();
    assert_eq!(c.memory[0x50], 0xF0);
    assert_eq!(c.memory[0x51], 0x90);
    assert_eq!(c.memory[0x9F], 0x80);
    assert_eq!(c.memory[0x4F], 0x00);
    assert_eq!(c.memory[0xA0], 0x00);
}

#[test]
fn rom_is_loaded_at_0x200_and_truncated() {
    let mut rom = vec![0u8; 4000];
    rom[0] = 0xAB;
    rom[3583] = 0xCD;
    rom[3584] = 0xEF;
    let c = boot(rom);
    assert_eq!(c.memory[0x200], 0xAB);
    assert_eq!(c.memory[4095], 0xCD);
}

#[test]
fn clear_screen_clears_everything() {
    // V0 := 0, V1 := 0, index := glyph "0", draw one row, then clear.
    let mut c = boot(vec![0x60, 0x00, 0x61, 0x00, 0xF0, 0x29, 0xD0, 0x11, 0x00, 0xE0]);
    run(&mut c, 4);
    assert!(c.display[0] && c.display[1] && c.display[2] && c.display[3]);
    run(&mut c, 1);
    assert!(c.display.iter().all(|&p| !p));
}

#[test]
fn set_then_read_register() {
    let mut c = boot(vec![0x6A, 0x42]);
    run(&mut c, 1);
    assert_eq!(c.var_regs[0xA], 0x42);
}

#[test]
fn add_immediate_wraps_and_keeps_vf() {
    // VF := 5 first, to see that 7xnn leaves it alone.
    let mut c = boot(vec![0x6F, 0x05, 0x60, 0xFF, 0x70, 0x02]);
    run(&mut c, 3);
    assert_eq!(c.var_regs[0x0], 0x01);
    assert_eq!(c.var_regs[0xF], 0x05);
}

#[test]
fn subtract_with_no_borrow_sets_vf() {
    let mut c = boot(vec![0x60, 0x05, 0x61, 0x03, 0x80, 0x15]);
    run(&mut c, 3);
    assert_eq!(c.var_regs[0x0], 0x02);
    assert_eq!(c.var_regs[0xF], 1);
}

#[test]
fn subtract_with_borrow_wraps_and_clears_vf() {
    let mut c = boot(vec![0x60, 0x01, 0x61, 0x03, 0x80, 0x15]);
    run(&mut c, 3);
    assert_eq!(c.var_regs[0x0], 0xFE);
    assert_eq!(c.var_regs[0xF], 0);
}

#[test]
fn add_registers_sets_carry() {
    let mut c = boot(vec![0x60, 0xFF, 0x61, 0x02, 0x80, 0x14]);
    run(&mut c, 3);
    assert_eq!(c.var_regs[0x0], 0x01);
    assert_eq!(c.var_regs[0xF], 1);
}

#[test]
fn shifts_copy_y_then_shift() {
    // V1 := 3; V0 := V1 >> 1 with old bit 0 in VF.
    let mut c = boot(vec![0x61, 0x03, 0x80, 0x16]);
    run(&mut c, 2);
    assert_eq!(c.var_regs[0x0], 0x01);
    assert_eq!(c.var_regs[0xF], 1);
    // V1 := 0x81; V0 := V1 << 1 with old bit 7 in VF.
    let mut c2 = boot(vec![0x61, 0x81, 0x80, 0x1E]);
    run(&mut c2, 2);
    assert_eq!(c2.var_regs[0x0], 0x02);
    assert_eq!(c2.var_regs[0xF], 1);
}

#[test]
fn skip_if_equal_immediate() {
    // V0 := 7; skip the next instruction since V0 == 7; the skipped
    // instruction would set V1 := 0; the one after sets V1 := 0x63.
    let mut c = boot(vec![0x60, 0x07, 0x30, 0x07, 0x61, 0x00, 0x61, 0x63]);
    run(&mut c, 3);
    assert_eq!(c.pc, 0x208);
    assert_eq!(c.var_regs[0x1], 0x63);
}

#[test]
fn jump_with_offset_uses_named_register() {
    let mut c = boot(vec![0x62, 0x05, 0xB2, 0x10]);
    run(&mut c, 2);
    assert_eq!(c.pc, 0x215);
}

#[test]
fn draw_twice_collides_and_restores(){
    // Glyph "0" has 0xF0 as its top row: four pixels at the origin.
    let mut c = boot(vec![0x60, 0x00, 0x61, 0x00, 0xF0, 0x29, 0xD0, 0x11, 0xD0, 0x11]);
    run(&mut c, 4);
    assert!(c.display[0] && c.display[1] && c.display[2] && c.display[3]);
    assert_eq!(c.var_regs[0xF], 0);
    run(&mut c, 1);
    assert!(c.display.iter().all(|&p| !p));
    assert_eq!(c.var_regs[0xF], 1);
}

#[test]
fn draw_clips_at_the_right_edge() {
    // V0 := 62: the glyph row 0xF0 has only two of its pixels on screen.
    let mut c = boot(vec![0x60, 0x3E, 0x61, 0x00, 0xF0, 0x29, 0xD0, 0x11]);
    run(&mut c, 4);
    assert!(c.display[62] && c.display[63]);
    assert!(!c.display[64]);
    assert_eq!(c.var_regs[0xF], 0);
}

#[test]
fn wait_key_blocks_until_a_key_is_down() {
    let mut c = boot(vec![0xF3, 0x0A]);
    c.tick().expect("cycle failed");
    assert_eq!(c.pc, 0x200);
    c.tick().expect("cycle failed");
    assert_eq!(c.pc, 0x200);
    c.set_key(5, true);
    c.set_key(9, true);
    c.tick().expect("cycle failed");
    assert_eq!(c.pc, 0x202);
    assert_eq!(c.var_regs[0x3], 5);
}

#[test]
fn skip_on_key_state() {
    // V0 := 4; Ex9E skips only when key 4 is down; ExA1 when it is up.
    let mut c = boot(vec![0x60, 0x04, 0xE0, 0x9E, 0x61, 0x11, 0xE0, 0xA1, 0x62, 0x22]);
    run(&mut c, 2);
    assert_eq!(c.pc, 0x204);  // no skip: key 4 is up
    run(&mut c, 2);
    assert_eq!(c.var_regs[0x1], 0x11);
    assert_eq!(c.pc, 0x20A);  // ExA1 skipped over 6222
    assert_eq!(c.var_regs[0x2], 0);
    let mut c2 = boot(vec![0x60, 0x04, 0xE0, 0x9E, 0x61, 0x11, 0x62, 0x22]);
    c2.set_key(4, true);
    run(&mut c2, 2);
    assert_eq!(c2.pc, 0x206);  // skipped over 6111
    run(&mut c2, 1);
    assert_eq!(c2.var_regs[0x1], 0);
    assert_eq!(c2.var_regs[0x2], 0x22);
}

#[test]
fn store_load_roundtrip_through_memory() {
    let mut c = boot(vec![
        0x60, 0x01,  // V0 := 1
        0x61, 0x02,  // V1 := 2
        0x62, 0x03,  // V2 := 3
        0xA3, 0x00,  // index := 0x300
        0xF2, 0x55,  // store V0..V2
        0x60, 0x00, 0x61, 0x00, 0x62, 0x00,  // clear the registers
        0xF2, 0x65,  // load V0..V2 back
    ]);
    run(&mut c, 5);
    assert_eq!(&c.memory[0x300..0x303], &[1, 2, 3]);
    run(&mut c, 3);
    assert_eq!(&c.var_regs[0..3], &[0, 0, 0]);
    run(&mut c, 1);
    assert_eq!(&c.var_regs[0..3], &[1, 2, 3]);
}

#[test]
fn call_then_return_lands_after_the_call() {
    let mut rom = vec![0u8; 0x102];
    rom[0] = 0x23;  // 2300: call 0x300
    rom[1] = 0x00;
    rom[0x100] = 0x00;  // 00EE at 0x300
    rom[0x101] = 0xEE;
    let mut c = boot(rom);
    c.tick().expect("cycle failed");
    assert_eq!(c.pc, 0x300);
    assert_eq!(c.stack.len(), 1);
    c.tick().expect("cycle failed");
    assert_eq!(c.pc, 0x202);
    assert_eq!(c.stack.len(), 0);
}

#[test]
fn timers_count_down_to_zero_and_stop() {
    let mut c = boot(vec![0x60, 0x02, 0xF0, 0x15, 0xF0, 0x18, 0xF1, 0x07]);
    run(&mut c, 4);
    assert_eq!(c.var_regs[0x1], 2);  // Fx07 read the delay timer
    assert_eq!(c.delay_timer, 2);
    assert_eq!(c.sound_timer, 2);
    c.update_timers();
    assert_eq!(c.delay_timer, 1);
    assert_eq!(c.sound_timer, 1);
    c.update_timers();
    c.update_timers();
    c.update_timers();
    assert_eq!(c.delay_timer, 0);
    assert_eq!(c.sound_timer, 0);
}

#[test]
fn bcd_writes_three_digits() {
    let mut c = boot(vec![0x60, 0xFE, 0xA3, 0x00, 0xF0, 0x33]);
    run(&mut c, 3);
    assert_eq!(&c.memory[0x300..0x303], &[2, 5, 4]);
}

#[test]
fn font_char_points_into_the_glyph_table() {
    let mut c = boot(vec![0x60, 0x0B, 0xF0, 0x29]);
    run(&mut c, 2);
    assert_eq!(c.index_reg, 0x50 + 11 * 5);
}

#[test]
fn add_index_sets_vf_only_on_overflow() {
    // Overflow past 0xFFF sets VF.
    let mut c = boot(vec![0x60, 0xFF, 0xAF, 0xFF, 0xF0, 0x1E]);
    run(&mut c, 3);
    assert_eq!(c.index_reg, 0x10FE);
    assert_eq!(c.var_regs[0xF], 1);
    // No overflow: VF keeps its old value, even a stale 1.
    let mut c2 = boot(vec![0x6F, 0x01, 0xA0, 0x00, 0x60, 0x07, 0xF0, 0x1E]);
    run(&mut c2, 4);
    assert_eq!(c2.index_reg, 7);
    assert_eq!(c2.var_regs[0xF], 1);
}

#[test]
fn random_masks_with_nn() {
    // A zero mask pins the result whatever the generator returned.
    let mut c = boot(vec![0xC0, 0x00]);
    run(&mut c, 1);
    assert_eq!(c.var_regs[0x0], 0);
    // With a supplied byte the opcode is deterministic.
    let mut c2 = boot(vec![0xC0, 0x7B]);
    c2.tick_with_random(0xDE).expect("cycle failed");
    assert_eq!(c2.var_regs[0x0], 0xDE & 0x7B);
    // The stored value never exceeds the mask.
    let mut c3 = boot(vec![0xC0, 0x0F]);
    run(&mut c3, 1);
    assert!(c3.var_regs[0x0] <= 0x0F);
}

#[test]
fn unknown_opcode_is_reported_and_state_kept() {
    let mut c = boot(vec![0x80, 0x0F]);
    let e = c.tick();
    assert_eq!(e, Err(Chip8Error::UnknownOpcode { word: 0x800F, pc: 0x200 }));
    assert_eq!(c.pc, 0x200);
}

#[test]
fn return_on_empty_stack_is_reported() {
    let mut c = boot(vec![0x00, 0xEE]);
    let e = c.tick();
    assert_eq!(e, Err(Chip8Error::StackUnderflow { pc: 0x200 }));
    assert_eq!(c.pc, 0x200);
}

#[test]
fn store_past_memory_end_is_reported() {
    let mut c = boot(vec![0xAF, 0xFF, 0xF1, 0x55]);
    c.tick().expect("cycle failed");
    let e = c.tick();
    assert_eq!(e, Err(Chip8Error::AddressOutOfRange { pc: 0x202, addr: 0xFFF }));
    assert_eq!(c.pc, 0x202);
}

#[test]
fn jump_sets_the_program_counter() {
    let mut c = boot(vec![0x12, 0x46]);
    run(&mut c, 1);
    assert_eq!(c.pc, 0x246);
}
