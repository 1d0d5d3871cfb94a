use chip8_core::{Emu, Chip8Error, START_ADDR};

fn machine_with(rom: &[u8]) -> Emu {
    let mut e = Emu::new();
    e.load(rom);
    e
}

#[test]
fn new_machine_has_font_and_start_address() {
    let e = Emu::new();
    assert_eq!(e.pc, START_ADDR);
    assert_eq!(e.ram[0], 0xF0);
    assert_eq!(e.ram[79], 0x80);
    assert_eq!(e.ram[80], 0);
    assert!(e.v_reg.iter().all(|&v| v == 0));
    assert_eq!(e.sp, 0);
    assert_eq!(e.i_reg, 0);
    assert_eq!(e.dt, 0);
    assert_eq!(e.st, 0);
    assert!(!e.is_awaiting_key());
    assert!(e.get_display().iter().all(|&p| !p));
}

#[test]
fn reset_restores_power_on_state() {
    let mut e = machine_with(&[0x60, 42, 0x61, 7, 0xA3, 0x00, 0xF0, 0x15]);
    for _ in 0..4 {
        e.tick().unwrap();
    }
    e.set_key(4, true);
    e.reset();
    assert_eq!(e.pc, START_ADDR);
    assert_eq!(e.v_reg[0], 0);
    assert_eq!(e.i_reg, 0);
    assert_eq!(e.dt, 0);
    assert!(!e.keys[4]);
    // Program bytes are gone; the font is back.
    assert_eq!(e.ram[0x200], 0);
    assert_eq!(e.ram[0], 0xF0);
}

#[test]
fn load_places_program_at_start_address() {
    let e = machine_with(&[1, 2, 3]);
    assert_eq!(e.ram[0x200], 1);
    assert_eq!(e.ram[0x201], 2);
    assert_eq!(e.ram[0x202], 3);
    assert_eq!(e.ram[0x203], 0);
}

#[test]
fn delay_timer_counts_down_and_clamps() {
    // From delay = 5, five timer steps reach 0 and a sixth leaves it there.
    let mut e = machine_with(&[0x60, 5, 0xF0, 0x15]);
    e.tick().unwrap();
    e.tick().unwrap();
    assert_eq!(e.dt, 5);
    for expected in [4, 3, 2, 1, 0] {
        e.tick_timers();
        assert_eq!(e.dt, expected);
    }
    e.tick_timers();
    assert_eq!(e.dt, 0);
}

#[test]
fn sound_timer_beeps_exactly_once() {
    // From sound = 1, exactly the step that reaches 0 beeps.
    let mut e = machine_with(&[0x60, 1, 0xF0, 0x18]);
    e.tick().unwrap();
    e.tick().unwrap();
    assert_eq!(e.st, 1);
    assert!(e.tick_timers());
    assert_eq!(e.st, 0);
    assert!(!e.tick_timers());
    assert!(!e.tick_timers());
}

#[test]
fn sound_timer_at_zero_never_beeps() {
    let mut e = Emu::new();
    for _ in 0..10 {
        assert!(!e.tick_timers());
        assert_eq!(e.st, 0);
    }
}

#[test]
fn timers_count_down_together() {
    let mut e = machine_with(&[0x60, 3, 0xF0, 0x15, 0x61, 2, 0xF1, 0x18]);
    for _ in 0..4 {
        e.tick().unwrap();
    }
    assert!(!e.tick_timers());
    assert_eq!((e.dt, e.st), (2, 1));
    assert!(e.tick_timers());
    assert_eq!((e.dt, e.st), (1, 0));
}

#[test]
fn read_delay_timer_into_register() {
    let mut e = machine_with(&[0x60, 9, 0xF0, 0x15, 0xF3, 0x07]);
    for _ in 0..3 {
        e.tick().unwrap();
    }
    assert_eq!(e.v_reg[3], 9);
}

#[test]
fn call_and_return_round_trip() {
    // 2NNN from pc = 0x200 sets pc = NNN and pushes 0x202; 00EE comes back.
    let mut rom = vec![0u8; 0x102];
    rom[0] = 0x23; // 2300: call 0x300
    rom[1] = 0x00;
    rom[0x100] = 0x00; // at 0x300: 00EE
    rom[0x101] = 0xEE;
    let mut e = machine_with(&rom);
    e.tick().unwrap();
    assert_eq!(e.pc, 0x300);
    assert_eq!(e.sp, 1);
    assert_eq!(e.stack[0], 0x202);
    e.tick().unwrap();
    assert_eq!(e.pc, 0x202);
    assert_eq!(e.sp, 0);
}

#[test]
fn stack_overflow_on_seventeenth_call() {
    // 2200 at 0x200 calls itself forever; the 17th call must fail cleanly.
    let mut e = machine_with(&[0x22, 0x00]);
    for _ in 0..16 {
        assert_eq!(e.tick(), Ok(()));
    }
    assert_eq!(e.sp, 16);
    assert_eq!(e.tick(), Err(Chip8Error::StackOverflow));
    assert_eq!(e.sp, 16);
}

#[test]
fn stack_underflow_on_return_without_call() {
    let mut e = machine_with(&[0x00, 0xEE]);
    assert_eq!(e.tick(), Err(Chip8Error::StackUnderflow));
}

#[test]
fn fetch_past_end_of_memory_is_reported() {
    // Jump to 0xFFF: the next fetch would need the byte at 0x1000.
    let mut e = machine_with(&[0x1F, 0xFF]);
    e.tick().unwrap();
    assert_eq!(e.pc, 0xFFF);
    assert_eq!(e.tick(), Err(Chip8Error::MemoryOutOfBounds));
    assert_eq!(e.pc, 0xFFF);
}

#[test]
fn bcd_past_end_of_memory_is_reported() {
    let mut e = machine_with(&[0xAF, 0xFE, 0xF0, 0x33]);
    e.tick().unwrap();
    assert_eq!(e.tick(), Err(Chip8Error::MemoryOutOfBounds));
    assert_eq!(e.ram[0xFFE], 0);
}

#[test]
fn store_past_end_of_memory_is_reported() {
    let mut e = machine_with(&[0xAF, 0xFF, 0xF1, 0x55]);
    e.tick().unwrap();
    assert_eq!(e.tick(), Err(Chip8Error::MemoryOutOfBounds));
}

#[test]
fn wait_for_key_blocks_until_pressed() {
    let mut e = machine_with(&[0xF5, 0x0A]);
    // No key pressed: the machine blocks in place, pc unmoved.
    e.tick().unwrap();
    assert!(e.is_awaiting_key());
    assert_eq!(e.pc, 0x200);
    e.tick().unwrap();
    assert!(e.is_awaiting_key());
    assert_eq!(e.pc, 0x200);
    // A key press completes the instruction and the pc advances.
    e.set_key(7, true);
    e.tick().unwrap();
    assert!(!e.is_awaiting_key());
    assert_eq!(e.v_reg[5], 7);
    assert_eq!(e.pc, 0x202);
}

#[test]
fn wait_for_key_takes_lowest_pressed() {
    let mut e = machine_with(&[0xF0, 0x0A]);
    e.set_key(9, true);
    e.set_key(2, true);
    e.tick().unwrap();
    assert_eq!(e.v_reg[0], 2);
}

#[test]
fn skip_if_key_pressed() {
    let mut e = machine_with(&[0x60, 0x04, 0xE0, 0x9E]);
    e.set_key(4, true);
    e.tick().unwrap();
    e.tick().unwrap();
    assert_eq!(e.pc, 0x206);
}

#[test]
fn skip_if_key_not_pressed() {
    let mut e = machine_with(&[0x60, 0x04, 0xE0, 0xA1]);
    e.tick().unwrap();
    e.tick().unwrap();
    assert_eq!(e.pc, 0x206);

    let mut e = machine_with(&[0x60, 0x04, 0xE0, 0xA1]);
    e.set_key(4, true);
    e.tick().unwrap();
    e.tick().unwrap();
    assert_eq!(e.pc, 0x204);
}

#[test]
fn key_release_is_observed() {
    let mut e = machine_with(&[0x60, 0x04, 0xE0, 0x9E]);
    e.set_key(4, true);
    e.set_key(4, false);
    e.tick().unwrap();
    e.tick().unwrap();
    assert_eq!(e.pc, 0x204);
}

#[test]
fn nop_advances_pc_only() {
    let mut e = machine_with(&[0x00, 0x00]);
    e.tick().unwrap();
    assert_eq!(e.pc, 0x202);
    assert!(e.get_display().iter().all(|&p| !p));
    assert_eq!(e.sp, 0);
}
