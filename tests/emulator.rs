use chip8::{Emulator, Error, Input, Step};

fn machine(rom: &[u8]) -> Emulator {
    match Emulator::new(rom) {
        Ok(emu) => emu,
        Err(e) => panic!("construction failed: {:?}", e),
    }
}

fn is_nop(r: &Result<Option<Step>, Error>) -> bool {
    matches!(r, Ok(Some(Step::Nop)))
}

#[test]
fn oversized_program_is_rejected() {
    let rom = vec![0u8; 4096 - 512 + 1];
    assert!(matches!(Emulator::new(&rom), Err(Error::InvalidROM)));
}

#[test]
fn largest_program_is_accepted() {
    let mut rom = vec![0u8; 4096 - 512];
    rom[4096 - 512 - 1] = 0xAB;
    let emu = machine(&rom);
    assert_eq!(emu.memory_at(4095), 0xAB);
    assert_eq!(emu.program_counter(), 512);
}

#[test]
fn font_and_program_are_loaded() {
    let emu = machine(&[0x12, 0x34]);
    assert_eq!(emu.memory_at(0), 0xF0);
    assert_eq!(emu.memory_at(79), 0x80);
    assert_eq!(emu.memory_at(80), 0);
    assert_eq!(emu.memory_at(512), 0x12);
    assert_eq!(emu.memory_at(513), 0x34);
    assert_eq!(emu.memory_at(514), 0);
}

#[test]
fn empty_program_exits() {
    let mut emu = machine(&[]);
    assert!(matches!(emu.step(), Ok(Some(Step::Exit))));
}

#[test]
fn unknown_instruction_is_fatal() {
    let mut emu = machine(&[0xFF, 0xFF]);
    assert_eq!(emu.step().err(), Some(Error::UnknownInstruction(0xFFFF)));
}

#[test]
fn sixteen_nested_calls_then_overflow() {
    // CALL 0x200: the routine calls itself
    let mut emu = machine(&[0x22, 0x00]);
    for depth in 1..=16u8 {
        let r = emu.step();
        assert!(is_nop(&r));
        assert_eq!(emu.stack_depth(), depth);
        assert_eq!(emu.program_counter(), 0x200);
    }
    assert_eq!(emu.step().err(), Some(Error::StackOverflow));
}

#[test]
fn return_without_call_underflows() {
    let mut emu = machine(&[0x00, 0xEE]);
    assert_eq!(emu.step().err(), Some(Error::StackUnderflow));
}

#[test]
fn call_then_return_resumes_after_call() {
    // 0x200: CALL 0x206; 0x202: LD V1, 7; 0x204: (end) ; 0x206: RET
    let mut emu = machine(&[0x22, 0x06, 0x61, 0x07, 0x00, 0x00, 0x00, 0xEE]);
    assert!(is_nop(&emu.step()));
    assert_eq!(emu.program_counter(), 0x206);
    assert_eq!(emu.stack_depth(), 1);
    assert!(is_nop(&emu.step()));
    assert_eq!(emu.program_counter(), 0x202);
    assert_eq!(emu.stack_depth(), 0);
    assert!(is_nop(&emu.step()));
    assert_eq!(emu.register(1), 7);
}

#[test]
fn timers_count_down_to_zero() {
    // V0 = 6, V1 = 5, ST = V0, DT = V1, then no-ops
    let mut rom = vec![0x60, 0x06, 0x61, 0x05, 0xF0, 0x18, 0xF1, 0x15];
    rom.extend_from_slice(&[0x00; 12]);
    let mut emu = machine(&rom);
    for _ in 0..4 {
        assert!(is_nop(&emu.step()));
    }
    assert_eq!(emu.delay_timer(), 5);
    assert_eq!(emu.sound_timer(), 5);
    for left in (0..5u8).rev() {
        assert!(is_nop(&emu.step()));
        assert_eq!(emu.delay_timer(), left);
        assert_eq!(emu.sound_timer(), left);
    }
    assert!(is_nop(&emu.step()));
    assert_eq!(emu.delay_timer(), 0);
    assert_eq!(emu.sound_timer(), 0);
}

#[test]
fn key_wait_repeats_until_pressed() {
    // LD V2, key; then a no-op
    let mut emu = machine(&[0xF2, 0x0A, 0x00, 0x00]);
    for _ in 0..3 {
        assert!(matches!(emu.step(), Ok(Some(Step::WaitForKey))));
        assert_eq!(emu.program_counter(), 0x200);
    }
    emu.key_press(Input::Key9);
    emu.key_press(Input::Key5);
    assert!(is_nop(&emu.step()));
    assert_eq!(emu.register(2), 5);
    assert_eq!(emu.program_counter(), 0x202);
}

#[test]
fn released_key_is_not_seen() {
    let mut emu = machine(&[0xF2, 0x0A]);
    emu.key_press(Input::KeyA);
    emu.key_release(Input::KeyA);
    assert!(matches!(emu.step(), Ok(Some(Step::WaitForKey))));
}

#[test]
fn skip_if_key_pressed() {
    // V0 = 0xC; SKP V0; LD V1, 1; LD V2, 2
    let mut emu = machine(&[0x60, 0x0C, 0xE0, 0x9E, 0x61, 0x01, 0x62, 0x02]);
    emu.key_press(Input::KeyC);
    emu.step().unwrap();
    emu.step().unwrap();
    assert_eq!(emu.program_counter(), 0x206);
}

#[test]
fn skip_on_out_of_range_key_code() {
    // V0 = 0x20; SKNP V0 skips, since code 0x20 names no key
    let mut emu = machine(&[0x60, 0x20, 0xE0, 0xA1]);
    emu.step().unwrap();
    emu.step().unwrap();
    assert_eq!(emu.program_counter(), 0x206);
}

#[test]
fn add_with_carry_sets_flag() {
    // V0 = 0xFF; V1 = 2; V0 += V1
    let mut emu = machine(&[0x60, 0xFF, 0x61, 0x02, 0x80, 0x14]);
    for _ in 0..3 {
        emu.step().unwrap();
    }
    assert_eq!(emu.register(0), 1);
    assert_eq!(emu.register(0xF), 1);
}

#[test]
fn add_immediate_wraps_without_flag() {
    // V0 = 0xFF; VF = 9; V0 += 3
    let mut emu = machine(&[0x60, 0xFF, 0x6F, 0x09, 0x70, 0x03]);
    for _ in 0..3 {
        emu.step().unwrap();
    }
    assert_eq!(emu.register(0), 2);
    assert_eq!(emu.register(0xF), 9);
}

#[test]
fn subtract_flags_borrow() {
    // V0 = 3; V1 = 5; V0 -= V1
    let mut emu = machine(&[0x60, 0x03, 0x61, 0x05, 0x80, 0x15]);
    for _ in 0..3 {
        emu.step().unwrap();
    }
    assert_eq!(emu.register(0), 0xFE);
    assert_eq!(emu.register(0xF), 1);
    // V0 = 5; V1 = 3; V0 -= V1
    let mut emu = machine(&[0x60, 0x05, 0x61, 0x03, 0x80, 0x15]);
    for _ in 0..3 {
        emu.step().unwrap();
    }
    assert_eq!(emu.register(0), 2);
    assert_eq!(emu.register(0xF), 0);
}

#[test]
fn reverse_subtract_flags_borrow() {
    // V0 = 5; V1 = 3; V0 = V1 - V0, which borrows
    let mut emu = machine(&[0x60, 0x05, 0x61, 0x03, 0x80, 0x17]);
    for _ in 0..3 {
        emu.step().unwrap();
    }
    assert_eq!(emu.register(0), 0);
    assert_eq!(emu.register(0xF), 1);
    // V0 = 3; V1 = 5; V0 = V1 - V0
    let mut emu = machine(&[0x60, 0x03, 0x61, 0x05, 0x80, 0x17]);
    for _ in 0..3 {
        emu.step().unwrap();
    }
    assert_eq!(emu.register(0), 2);
    assert_eq!(emu.register(0xF), 0);
}

#[test]
fn shifts_move_out_bit_to_flag() {
    // V3 = 0x81; SHL V3
    let mut emu = machine(&[0x63, 0x81, 0x83, 0x0E]);
    emu.step().unwrap();
    emu.step().unwrap();
    assert_eq!(emu.register(3), 0x02);
    assert_eq!(emu.register(0xF), 1);
    // V3 = 0x81; SHR V3
    let mut emu = machine(&[0x63, 0x81, 0x83, 0x06]);
    emu.step().unwrap();
    emu.step().unwrap();
    assert_eq!(emu.register(3), 0x40);
    assert_eq!(emu.register(0xF), 1);
}

#[test]
fn store_bcd_at_address_register() {
    // V0 = 123; I = 0x300; BCD V0
    let mut emu = machine(&[0x60, 123, 0xA3, 0x00, 0xF0, 0x33]);
    for _ in 0..3 {
        emu.step().unwrap();
    }
    assert_eq!(emu.memory_at(0x300), 1);
    assert_eq!(emu.memory_at(0x301), 2);
    assert_eq!(emu.memory_at(0x302), 3);
}

#[test]
fn register_block_store_and_load() {
    // V0 = 1; V1 = 2; V2 = 3; I = 0x300; store V0..V1; V0 = 9; V1 = 9; load V0..V1
    let rom = [
        0x60, 0x01, 0x61, 0x02, 0x62, 0x03, 0xA3, 0x00, 0xF1, 0x55, 0x60, 0x09, 0x61, 0x09, 0xF1,
        0x65,
    ];
    let mut emu = machine(&rom);
    for _ in 0..8 {
        emu.step().unwrap();
    }
    assert_eq!(emu.memory_at(0x300), 1);
    assert_eq!(emu.memory_at(0x301), 2);
    assert_eq!(emu.memory_at(0x302), 0);
    assert_eq!(emu.register(0), 1);
    assert_eq!(emu.register(1), 2);
    assert_eq!(emu.register(2), 3);
}

#[test]
fn font_glyph_address_is_four_times_digit() {
    // V4 = 0xA; I = glyph of V4
    let mut emu = machine(&[0x64, 0x0A, 0xF4, 0x29]);
    emu.step().unwrap();
    emu.step().unwrap();
    assert_eq!(emu.address_register(), 40);
}

#[test]
fn jump_relative_adds_v0() {
    // V0 = 4; JP V0 + 0x200
    let mut emu = machine(&[0x60, 0x04, 0xB2, 0x00]);
    emu.step().unwrap();
    emu.step().unwrap();
    assert_eq!(emu.program_counter(), 0x204);
}

#[test]
fn draw_glyph_reports_pixels_and_collision() {
    // I = 0 (glyph 0); DRW V0, V1, 5; DRW V0, V1, 5
    let mut emu = machine(&[0xA0, 0x00, 0xD0, 0x15, 0xD0, 0x15]);
    emu.step().unwrap();
    match emu.step() {
        Ok(Some(Step::Draw(p))) => assert_eq!(p.len(), 14),
        _ => panic!("expected a draw"),
    }
    assert_eq!(emu.register(0xF), 0);
    match emu.step() {
        Ok(Some(Step::Draw(p))) => assert!(p.is_empty()),
        _ => panic!("expected a draw"),
    }
    assert_eq!(emu.register(0xF), 1);
}

#[test]
fn clear_screen_draws_nothing() {
    let mut emu = machine(&[0x00, 0xE0]);
    match emu.step() {
        Ok(Some(Step::Draw(p))) => assert!(p.is_empty()),
        _ => panic!("expected a draw"),
    }
}

#[test]
fn random_byte_is_masked() {
    // RND V0, 0x0F
    let mut emu = machine(&[0xC0, 0x0F]);
    assert!(is_nop(&emu.step_with_random(0xAB)));
    assert_eq!(emu.register(0), 0x0B);
    let mut emu = machine(&[0xC0, 0x0F, 0xC1, 0x00]);
    emu.step().unwrap();
    emu.step().unwrap();
    assert!(emu.register(0) <= 0x0F);
    assert_eq!(emu.register(1), 0);
}

#[test]
fn delay_timer_copied_to_register() {
    // V0 = 9; DT = V0; V1 = DT
    let mut emu = machine(&[0x60, 0x09, 0xF0, 0x15, 0xF1, 0x07]);
    for _ in 0..3 {
        emu.step().unwrap();
    }
    assert_eq!(emu.register(1), 8);
}
