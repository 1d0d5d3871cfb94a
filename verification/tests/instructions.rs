use chip8_core::{Emu, Chip8Error, SCREEN_WIDTH};

fn machine_with(rom: &[u8]) -> Emu {
    let mut e = Emu::new();
    e.load(rom);
    e
}

fn run(e: &mut Emu, steps: usize) {
    for _ in 0..steps {
        e.tick().unwrap();
    }
}

#[test]
fn load_immediate_every_value() {
    // 6XNN followed by a read of VX yields exactly NN, for all 256 values.
    for nn in 0..=255u8 {
        let mut e = machine_with(&[0x63, nn]);
        e.tick().unwrap();
        assert_eq!(e.v_reg[3], nn);
    }
}

#[test]
fn add_immediate_wraps_without_flag() {
    // V5 = 200, then V5 += 144: result is (200 + 144) mod 256, VF untouched.
    let mut e = machine_with(&[0x65, 200, 0x75, 144]);
    run(&mut e, 2);
    assert_eq!(e.v_reg[5], 88);
    assert_eq!(e.v_reg[0xF], 0);
}

#[test]
fn add_immediate_no_wrap() {
    let mut e = machine_with(&[0x65, 40, 0x75, 2]);
    run(&mut e, 2);
    assert_eq!(e.v_reg[5], 42);
    assert_eq!(e.v_reg[0xF], 0);
}

#[test]
fn add_with_carry_sets_flag() {
    // V1 = 200, V2 = 100, V1 += V2: 300 >= 256, so VF = 1 and V1 = 44.
    let mut e = machine_with(&[0x61, 200, 0x62, 100, 0x81, 0x24]);
    run(&mut e, 3);
    assert_eq!(e.v_reg[1], 44);
    assert_eq!(e.v_reg[0xF], 1);
}

#[test]
fn add_without_carry_clears_flag() {
    let mut e = machine_with(&[0x61, 10, 0x62, 20, 0x81, 0x24]);
    run(&mut e, 3);
    assert_eq!(e.v_reg[1], 30);
    assert_eq!(e.v_reg[0xF], 0);
}

#[test]
fn sub_with_borrow_clears_flag() {
    // V1 = 10, V2 = 20, V1 -= V2: borrow, so VF = 0 and V1 = (10 - 20) mod 256.
    let mut e = machine_with(&[0x61, 10, 0x62, 20, 0x81, 0x25]);
    run(&mut e, 3);
    assert_eq!(e.v_reg[1], 246);
    assert_eq!(e.v_reg[0xF], 0);
}

#[test]
fn sub_without_borrow_sets_flag() {
    let mut e = machine_with(&[0x61, 20, 0x62, 10, 0x81, 0x25]);
    run(&mut e, 3);
    assert_eq!(e.v_reg[1], 10);
    assert_eq!(e.v_reg[0xF], 1);
}

#[test]
fn sub_reversed_operands() {
    // 8XY7: V1 = V2 - V1 with VF = 1 when no borrow.
    let mut e = machine_with(&[0x61, 10, 0x62, 20, 0x81, 0x27]);
    run(&mut e, 3);
    assert_eq!(e.v_reg[1], 10);
    assert_eq!(e.v_reg[0xF], 1);
}

#[test]
fn or_and_xor_are_distinct() {
    // The three logic instructions must not collapse onto one pattern.
    let mut e = machine_with(&[0x60, 0b1100, 0x61, 0b1010, 0x80, 0x11]);
    run(&mut e, 3);
    assert_eq!(e.v_reg[0], 0b1110);

    let mut e = machine_with(&[0x60, 0b1100, 0x61, 0b1010, 0x80, 0x12]);
    run(&mut e, 3);
    assert_eq!(e.v_reg[0], 0b1000);

    let mut e = machine_with(&[0x60, 0b1100, 0x61, 0b1010, 0x80, 0x13]);
    run(&mut e, 3);
    assert_eq!(e.v_reg[0], 0b0110);
}

#[test]
fn register_copy() {
    let mut e = machine_with(&[0x61, 99, 0x85, 0x10]);
    run(&mut e, 2);
    assert_eq!(e.v_reg[5], 99);
}

#[test]
fn shift_right_keeps_low_bit() {
    let mut e = machine_with(&[0x60, 0xB5, 0x80, 0x06]);
    run(&mut e, 2);
    assert_eq!(e.v_reg[0], 0x5A);
    assert_eq!(e.v_reg[0xF], 1);
}

#[test]
fn shift_left_keeps_high_bit() {
    let mut e = machine_with(&[0x60, 0xB5, 0x80, 0x0E]);
    run(&mut e, 2);
    assert_eq!(e.v_reg[0], 0x6A);
    assert_eq!(e.v_reg[0xF], 1);
}

#[test]
fn skip_if_equal_immediate() {
    let mut e = machine_with(&[0x60, 0x42, 0x30, 0x42]);
    run(&mut e, 2);
    assert_eq!(e.pc, 0x206);

    let mut e = machine_with(&[0x60, 0x42, 0x30, 0x41]);
    run(&mut e, 2);
    assert_eq!(e.pc, 0x204);
}

#[test]
fn skip_if_unequal_immediate() {
    let mut e = machine_with(&[0x60, 0x42, 0x40, 0x41]);
    run(&mut e, 2);
    assert_eq!(e.pc, 0x206);
}

#[test]
fn skip_on_register_compare() {
    let mut e = machine_with(&[0x60, 7, 0x61, 7, 0x50, 0x10]);
    run(&mut e, 3);
    assert_eq!(e.pc, 0x208);

    let mut e = machine_with(&[0x60, 7, 0x61, 8, 0x90, 0x10]);
    run(&mut e, 3);
    assert_eq!(e.pc, 0x208);
}

#[test]
fn jump_sets_pc() {
    let mut e = machine_with(&[0x13, 0x45]);
    run(&mut e, 1);
    assert_eq!(e.pc, 0x345);
}

#[test]
fn jump_with_offset() {
    // With V0 = 0x05 and opcode B200, pc becomes 0x205.
    let mut e = machine_with(&[0x60, 0x05, 0xB2, 0x00]);
    run(&mut e, 2);
    assert_eq!(e.pc, 0x205);
}

#[test]
fn set_index_register() {
    let mut e = machine_with(&[0xA1, 0x23]);
    run(&mut e, 1);
    assert_eq!(e.i_reg, 0x123);
}

#[test]
fn add_to_index_register() {
    let mut e = machine_with(&[0xAF, 0xFF, 0x60, 0xFF, 0xF0, 0x1E]);
    run(&mut e, 3);
    assert_eq!(e.i_reg, 0x10FE);
}

#[test]
fn font_lookup_glyph_a() {
    // FX29 with VX = 0xA sets I to 5 * 10 = 50.
    let mut e = machine_with(&[0x60, 0x0A, 0xF0, 0x29]);
    run(&mut e, 2);
    assert_eq!(e.i_reg, 50);
    // The glyph for A really lives there.
    assert_eq!(&e.ram[50..55], &[0xF0, 0x90, 0xF0, 0x90, 0x90]);
}

#[test]
fn font_lookup_uses_low_nibble() {
    let mut e = machine_with(&[0x60, 0x2A, 0xF0, 0x29]);
    run(&mut e, 2);
    assert_eq!(e.i_reg, 50);
}

#[test]
fn bcd_of_255() {
    // BCD of 255 writes 2, 5, 5 at I, I+1, I+2.
    let mut e = machine_with(&[0x60, 255, 0xA3, 0x00, 0xF0, 0x33]);
    run(&mut e, 3);
    assert_eq!(e.ram[0x300], 2);
    assert_eq!(e.ram[0x301], 5);
    assert_eq!(e.ram[0x302], 5);
}

#[test]
fn bcd_of_single_digit() {
    let mut e = machine_with(&[0x60, 7, 0xA3, 0x00, 0xF0, 0x33]);
    run(&mut e, 3);
    assert_eq!(&e.ram[0x300..0x303], &[0, 0, 7]);
}

#[test]
fn store_and_load_register_block() {
    // V0..V3 stored at I..I+3, clobbered, then loaded back.
    let mut e = machine_with(&[
        0x60, 11, 0x61, 22, 0x62, 33, 0x63, 44, // V0..V3
        0xA4, 0x00, // I = 0x400
        0xF3, 0x55, // store V0..V3
        0x60, 0, 0x61, 0, 0x62, 0, 0x63, 0, // clear them
        0xF3, 0x65, // load V0..V3 back
    ]);
    run(&mut e, 11);
    assert_eq!(&e.ram[0x400..0x404], &[11, 22, 33, 44]);
    assert_eq!(e.v_reg[0], 11);
    assert_eq!(e.v_reg[1], 22);
    assert_eq!(e.v_reg[2], 33);
    assert_eq!(e.v_reg[3], 44);
    assert_eq!(e.v_reg[4], 0);
}

#[test]
fn draw_sets_pixels_and_collision() {
    // Draw glyph 0 (at address 0) at (5, 3): pixels appear, no collision.
    let mut e = machine_with(&[0x60, 5, 0x61, 3, 0xA0, 0x00, 0xD0, 0x15]);
    run(&mut e, 4);
    assert_eq!(e.v_reg[0xF], 0);
    let display = e.get_display();
    // Top row of glyph 0 is 0xF0: four set pixels starting at (5, 3).
    for c in 0..4 {
        assert!(display[3 * SCREEN_WIDTH + 5 + c]);
    }
    assert!(!display[3 * SCREEN_WIDTH + 9]);
}

#[test]
fn draw_twice_restores_screen() {
    // Drawing the same sprite at the same location twice restores the prior
    // framebuffer and reports a collision on the second draw.
    let mut e = machine_with(&[
        0x60, 5, 0x61, 3, 0xA0, 0x00, // V0 = 5, V1 = 3, I = 0
        0xD0, 0x15, // first draw
        0xD0, 0x15, // second draw
    ]);
    run(&mut e, 4);
    assert!(e.get_display().iter().any(|&p| p));
    run(&mut e, 1);
    assert_eq!(e.v_reg[0xF], 1);
    assert!(e.get_display().iter().all(|&p| !p));
}

#[test]
fn draw_wraps_at_screen_edges() {
    // A sprite drawn at (62, 30) wraps to the opposite edges, per axis.
    let mut e = machine_with(&[0x60, 62, 0x61, 30, 0xA0, 0x00, 0xD0, 0x12]);
    run(&mut e, 4);
    let display = e.get_display();
    // Row 0 of glyph 0 (0xF0) drawn at y = 30: columns 62, 63, 0, 1.
    assert!(display[30 * SCREEN_WIDTH + 62]);
    assert!(display[30 * SCREEN_WIDTH + 63]);
    assert!(display[30 * SCREEN_WIDTH + 0]);
    assert!(display[30 * SCREEN_WIDTH + 1]);
    // Row 1 (0x90) wraps to y = 31: columns 62 and 1.
    assert!(display[31 * SCREEN_WIDTH + 62]);
    assert!(display[31 * SCREEN_WIDTH + 1]);
    assert!(!display[31 * SCREEN_WIDTH + 63]);
}

#[test]
fn clear_screen_blanks_framebuffer() {
    let mut e = machine_with(&[0x60, 5, 0x61, 3, 0xA0, 0x00, 0xD0, 0x15, 0x00, 0xE0]);
    run(&mut e, 5);
    assert!(e.get_display().iter().all(|&p| !p));
}

#[test]
fn random_byte_is_masked() {
    // CXNN masks the random byte with NN: a zero mask pins VX to 0.
    let mut e = machine_with(&[0x60, 77, 0xC0, 0x00]);
    run(&mut e, 2);
    assert_eq!(e.v_reg[0], 0);
}

#[test]
fn random_byte_respects_mask_bits() {
    let mut e = machine_with(&[0xC0, 0x0F]);
    run(&mut e, 1);
    assert!(e.v_reg[0] <= 0x0F);
}

#[test]
fn unknown_opcode_is_reported() {
    let mut e = machine_with(&[0x00, 0x01]);
    assert_eq!(e.tick(), Err(Chip8Error::UnknownOpcode(0x0001)));
    // The failed step left the machine as the fetch left it.
    assert_eq!(e.pc, 0x202);
}

#[test]
fn unknown_logic_variant_is_reported() {
    let mut e = machine_with(&[0x80, 0x19]);
    assert_eq!(e.tick(), Err(Chip8Error::UnknownOpcode(0x8019)));
}
