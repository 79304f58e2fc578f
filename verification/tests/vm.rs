use ruschip::backend::chip8::Backend;
use ruschip::backend::interfaces::KeypadState;
use ruschip::backend::BackendErrorKind;

fn loaded(program: &[u8]) -> Backend {
    let mut b = Backend::default();
    b.load(None, &program.to_vec()).unwrap();
    b
}

#[test]
fn jump_loop_keeps_pc() {
    // JP 0x200 forever.
    let mut b = loaded(&[0x12, 0x00]);
    let mut kp = KeypadState::new();
    b.tick(5, &mut kp).unwrap();
    assert_eq!(b.index, 0x200);
}

#[test]
fn add_with_carry() {
    // V0 = 0xFF; V1 = 2; the add targets the register of the second
    // nibble, so V1 += V0 wraps to 1 with the carry flagged.
    let mut b = loaded(&[0x60, 0xFF, 0x61, 0x02, 0x81, 0x04]);
    let mut kp = KeypadState::new();
    b.tick(3, &mut kp).unwrap();
    assert_eq!(b.registers.general[1], 0x01);
    assert_eq!(b.registers.general[0], 0xFF);
    assert_eq!(b.registers.general[0xF], 1);
    // The same sum aimed the other way: V0 += V1.
    let mut b = loaded(&[0x60, 0xFF, 0x61, 0x02, 0x80, 0x14]);
    b.tick(3, &mut kp).unwrap();
    assert_eq!(b.registers.general[0], 0x01);
    assert_eq!(b.registers.general[0xF], 1);
}

#[test]
fn subtract_with_borrow() {
    // V0 = 5; V1 = 10; V0 -= V1.
    let mut b = loaded(&[0x60, 0x05, 0x61, 0x0A, 0x80, 0x15]);
    let mut kp = KeypadState::new();
    b.tick(3, &mut kp).unwrap();
    assert_eq!(b.registers.general[0], 0xFB);
    assert_eq!(b.registers.general[0xF], 0);
}

#[test]
fn bcd_writes_digits() {
    // V0 = 123; I = 0x300; BCD.
    let mut b = loaded(&[0x60, 0x7B, 0xA3, 0x00, 0xF0, 0x33]);
    let mut kp = KeypadState::new();
    b.tick(3, &mut kp).unwrap();
    assert_eq!(&b.memory[0x300..0x303], &[1, 2, 3]);
}

#[test]
fn draw_twice_collides_and_restores() {
    // I = 0 (glyph "0" in the font), draw one row at (V0, V0) twice.
    let mut b = loaded(&[0xA0, 0x00, 0xD0, 0x01, 0xD0, 0x01]);
    let mut kp = KeypadState::new();
    // First tick stops at the first draw.
    b.tick(3, &mut kp).unwrap();
    assert_eq!(b.registers.general[0xF], 0);
    let lit: Vec<bool> = b
        .display_buffer
        .as_mut()
        .unwrap()
        .get_flattened();
    assert!(lit.iter().any(|&p| p));
    // Second tick redraws the same row: everything XORs back off.
    b.tick(3, &mut kp).unwrap();
    assert_eq!(b.registers.general[0xF], 1);
    let lit: Vec<bool> = b
        .display_buffer
        .as_mut()
        .unwrap()
        .get_flattened();
    assert!(lit.iter().all(|&p| !p));
}

#[test]
fn draw_overlap_at_two_positions() {
    // I = 0 (glyph "0", top row 0xF0). Draw at (0, 0), then at (2, 0):
    // the second draw overlaps two lit pixels and clears them.
    let mut b = loaded(&[0xA0, 0x00, 0xD0, 0x11, 0x60, 0x02, 0xD0, 0x11]);
    let mut kp = KeypadState::new();
    // Each draw breaks its frame.
    b.tick(4, &mut kp).unwrap();
    assert_eq!(b.registers.general[0xF], 0);
    b.tick(4, &mut kp).unwrap();
    assert_eq!(b.registers.general[0xF], 1);
    let lit: Vec<bool> = b.display_buffer.as_mut().unwrap().get_flattened();
    // XOR of rows 11110000 and 00111100: pixels 0, 1 and 4, 5 stay lit,
    // the overlap 2, 3 went dark.
    assert!(lit[0] && lit[1]);
    assert!(!lit[2] && !lit[3]);
    assert!(lit[4] && lit[5]);
    assert!(!lit[6]);
}

#[test]
fn wait_for_key_release() {
    // FX0A with x = 5 at 0x200.
    let mut b = loaded(&[0xF5, 0x0A]);
    let mut kp = KeypadState::new();
    b.tick(1, &mut kp).unwrap();
    assert_eq!(b.index, 0x200);
    // Hold key 5: still no release edge.
    let mut held = [false; 16];
    held[5] = true;
    kp.update(&held);
    b.tick(1, &mut kp).unwrap();
    assert_eq!(b.index, 0x200);
    // Release it: the edge satisfies the wait.
    kp.update(&[false; 16]);
    b.tick(1, &mut kp).unwrap();
    assert_eq!(b.index, 0x202);
    assert_eq!(b.registers.general[5], 5);
}

#[test]
fn call_and_return_round_trip() {
    // CALL 0x204, then RET at 0x204.
    let mut b = loaded(&[0x22, 0x04, 0x00, 0x00, 0x00, 0xEE]);
    let mut kp = KeypadState::new();
    b.tick(1, &mut kp).unwrap();
    assert_eq!(b.index, 0x204);
    assert_eq!(b.stack.len(), 1);
    b.tick(1, &mut kp).unwrap();
    assert_eq!(b.index, 0x202);
    assert_eq!(b.stack.len(), 0);
}

#[test]
fn timers_decrement_once_per_tick() {
    let mut b = loaded(&[0x12, 0x00]);
    let mut kp = KeypadState::new();
    b.timers.delay = 2;
    b.timers.sound = 1;
    b.tick(7, &mut kp).unwrap();
    assert_eq!(b.timers.delay, 1);
    assert_eq!(b.timers.sound, 0);
    b.tick(0, &mut kp).unwrap();
    assert_eq!(b.timers.delay, 0);
    assert_eq!(b.timers.sound, 0);
    b.tick(0, &mut kp).unwrap();
    assert_eq!(b.timers.delay, 0);
}

#[test]
fn timer_opcodes_set_and_read() {
    // V0 = 9; DT = V0; V3 = DT.
    let mut b = loaded(&[0x60, 0x09, 0xF0, 0x15, 0xF3, 0x07]);
    let mut kp = KeypadState::new();
    b.tick(3, &mut kp).unwrap();
    assert_eq!(b.timers.delay, 9);
    assert_eq!(b.registers.general[3], 9);
}

#[test]
fn shifts_follow_copy_quirk() {
    // Default options copy V1 into V0 before shifting right.
    let mut b = loaded(&[0x61, 0x05, 0x80, 0x16]);
    let mut kp = KeypadState::new();
    b.tick(2, &mut kp).unwrap();
    assert_eq!(b.registers.general[0], 2);
    assert_eq!(b.registers.general[0xF], 1);
    // With the quirk off, the shift reads V0 itself.
    let mut b = Backend::default();
    b.options.copy_and_shift = false;
    b.load(None, &vec![0x60, 0x08, 0x61, 0x05, 0x80, 0x16]).unwrap();
    b.tick(3, &mut kp).unwrap();
    assert_eq!(b.registers.general[0], 4);
    assert_eq!(b.registers.general[0xF], 0);
}

#[test]
fn bitwise_ops_reset_flag() {
    // Default options clear VF after OR.
    let mut b = loaded(&[0x6F, 0x07, 0x60, 0x0C, 0x61, 0x0A, 0x80, 0x11]);
    let mut kp = KeypadState::new();
    b.tick(4, &mut kp).unwrap();
    assert_eq!(b.registers.general[0], 0x0E);
    assert_eq!(b.registers.general[0xF], 0);
}

#[test]
fn skip_opcodes_step_over() {
    // V0 = 3; SE V0, 3 skips the jump; V1 = 1 runs.
    let mut b = loaded(&[0x60, 0x03, 0x30, 0x03, 0x12, 0x00, 0x61, 0x01]);
    let mut kp = KeypadState::new();
    b.tick(3, &mut kp).unwrap();
    assert_eq!(b.registers.general[1], 1);
}

#[test]
fn indexed_jump_uses_v0_by_default() {
    // V0 = 4; JP V0 + 0x202 lands on V1 = 9 at 0x206.
    let mut b = loaded(&[0x60, 0x04, 0xB2, 0x02, 0x00, 0x00, 0x61, 0x09]);
    let mut kp = KeypadState::new();
    b.tick(3, &mut kp).unwrap();
    assert_eq!(b.registers.general[1], 9);
}

#[test]
fn random_is_masked() {
    // RND with mask 0x0F leaves the high nibble clear.
    let mut b = loaded(&[0xC0, 0x0F]);
    let mut kp = KeypadState::new();
    b.tick(1, &mut kp).unwrap();
    assert_eq!(b.registers.general[0] & 0xF0, 0);
}

#[test]
fn store_and_load_registers() {
    // V0..V2 = 7, 8, 9; I = 0x400; save V0..=V2; wipe; load back.
    let mut b = Backend::default();
    b.options.increment_address = false;
    b.load(
        None,
        &vec![
            0x60, 0x07, 0x61, 0x08, 0x62, 0x09, 0xA4, 0x00, 0xF2, 0x55, 0x60, 0x00, 0x61, 0x00,
            0x62, 0x00, 0xF2, 0x65,
        ],
    )
    .unwrap();
    let mut kp = KeypadState::new();
    b.tick(9, &mut kp).unwrap();
    assert_eq!(&b.registers.general[0..3], &[7, 8, 9]);
    assert_eq!(&b.memory[0x400..0x403], &[7, 8, 9]);
    assert_eq!(b.registers.address, 0x400);
}

#[test]
fn increment_quirk_moves_address() {
    // Default options advance I past the saved range.
    let mut b = loaded(&[0xA4, 0x00, 0xF1, 0x55]);
    let mut kp = KeypadState::new();
    b.tick(2, &mut kp).unwrap();
    assert_eq!(b.registers.address, 0x402);
}

#[test]
fn add_to_address_wraps_at_4096() {
    // I = 0xFFF; V0 = 5; I += V0 wraps to 4.
    let mut b = loaded(&[0xAF, 0xFF, 0x60, 0x05, 0xF0, 0x1E]);
    let mut kp = KeypadState::new();
    b.tick(3, &mut kp).unwrap();
    assert_eq!(b.registers.address, 4);
}

#[test]
fn font_glyph_addresses() {
    // V0 = 0xA selects the glyph for "A" at 10 * 5.
    let mut b = loaded(&[0x60, 0x0A, 0xF0, 0x29]);
    let mut kp = KeypadState::new();
    b.tick(2, &mut kp).unwrap();
    assert_eq!(b.registers.address, 50);
}

#[test]
fn default_font_is_placed_low() {
    let b = loaded(&[0x00, 0x00]);
    assert_eq!(&b.memory[0..5], &[0xF0, 0x90, 0x90, 0x90, 0xF0]);
}

#[test]
fn tick_without_program_fails() {
    let mut b = Backend::default();
    let mut kp = KeypadState::new();
    let e = b.tick(1, &mut kp).unwrap_err();
    assert_eq!(e.kind, BackendErrorKind::ProgramNotLoaded);
}

#[test]
fn oversized_program_is_rejected() {
    let mut b = Backend::default();
    let program = vec![0u8; 4096 - 512 + 1];
    let e = b.load(None, &program).unwrap_err();
    assert_eq!(e.kind, BackendErrorKind::ProgramInvalid);
}

#[test]
fn return_with_empty_stack_fails() {
    let mut b = loaded(&[0x00, 0xEE]);
    let mut kp = KeypadState::new();
    let e = b.tick(1, &mut kp).unwrap_err();
    assert_eq!(e.kind, BackendErrorKind::StackUnderflow);
}

#[test]
fn deep_recursion_overflows_stack() {
    // CALL 0x200 calls itself until the sixteen slots are full.
    let mut b = loaded(&[0x22, 0x00]);
    let mut kp = KeypadState::new();
    let e = b.tick(20, &mut kp).unwrap_err();
    assert_eq!(e.kind, BackendErrorKind::StackOverflow);
    assert_eq!(b.stack.len(), 16);
}

#[test]
fn unknown_opcode_fails() {
    let mut b = loaded(&[0xFF, 0xFF]);
    let mut kp = KeypadState::new();
    let e = b.tick(1, &mut kp).unwrap_err();
    assert_eq!(e.kind, BackendErrorKind::UnrecognizedInstruction);
}

#[test]
fn key_test_rejects_bad_key() {
    let mut b = loaded(&[0x60, 0x20, 0xE0, 0x9E]);
    let mut kp = KeypadState::new();
    let e = b.tick(2, &mut kp).unwrap_err();
    assert_eq!(e.kind, BackendErrorKind::UnrecognizedKey);
}

#[test]
fn font_select_rejects_bad_glyph() {
    let mut b = loaded(&[0x60, 0x10, 0xF0, 0x29]);
    let mut kp = KeypadState::new();
    let e = b.tick(2, &mut kp).unwrap_err();
    assert_eq!(e.kind, BackendErrorKind::UnrecognizedSprite);
}

#[test]
fn bcd_near_end_of_memory_fails() {
    let mut b = loaded(&[0xAF, 0xFE, 0xF0, 0x33]);
    let mut kp = KeypadState::new();
    let e = b.tick(2, &mut kp).unwrap_err();
    assert_eq!(e.kind, BackendErrorKind::MemoryOverflow);
}

#[test]
fn pc_walks_off_memory_fails() {
    // JP 0xFFE: after one more blank instruction the counter is out.
    let mut b = loaded(&[0x1F, 0xFE]);
    let mut kp = KeypadState::new();
    let e = b.tick(3, &mut kp).unwrap_err();
    assert_eq!(e.kind, BackendErrorKind::MemoryOverflow);
}

#[test]
fn clear_without_display_fails() {
    let mut b = Backend::new(
        ruschip::backend::Options {
            copy_and_shift: true,
            increment_address: true,
            quirky_jump: false,
            reset_flag: true,
        },
        None,
    );
    b.load(None, &vec![0x00, 0xE0]).unwrap();
    let mut kp = KeypadState::new();
    let e = b.tick(1, &mut kp).unwrap_err();
    assert_eq!(e.kind, BackendErrorKind::DisplayNotConnected);
}

#[test]
fn reset_rewinds_but_keeps_program() {
    let mut b = loaded(&[0x60, 0x2A, 0x12, 0x00]);
    let mut kp = KeypadState::new();
    b.tick(2, &mut kp).unwrap();
    assert_eq!(b.registers.general[0], 0x2A);
    b.reset();
    assert_eq!(b.index, 0x200);
    assert_eq!(b.registers.general[0], 0);
    assert!(b.loaded);
    assert_eq!(b.memory[0x200], 0x60);
}
