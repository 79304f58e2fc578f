use ruschip::backend::interfaces::KeypadState;
use ruschip::backend::superchip::Backend;
use ruschip::backend::Backend as AnyBackend;
use ruschip::backend::BackendErrorKind;

fn loaded(program: &[u8]) -> Backend {
    let mut b = Backend::default();
    b.load(None, &program.to_vec()).unwrap();
    b
}

fn run(b: &mut Backend, n: u8, storage: &mut Vec<u8>) {
    let mut kp = KeypadState::new();
    b.tick(n, &mut kp, storage).unwrap();
}

#[test]
fn halt_latches_exit_flag() {
    let mut b = loaded(&[0x00, 0xFD, 0x60, 0x01]);
    let mut st = vec![0u8; 8];
    run(&mut b, 5, &mut st);
    assert!(b.program_exited);
    // The frame broke at the halt: the next opcode did not run.
    assert_eq!(b.inner.registers.general[0], 0);
}

#[test]
fn resolution_switches() {
    let mut b = loaded(&[0x00, 0xFF, 0x00, 0xFE]);
    let mut st = vec![0u8; 8];
    assert!(b.display_buffer.half_resolution);
    run(&mut b, 1, &mut st);
    assert!(!b.display_buffer.half_resolution);
    run(&mut b, 1, &mut st);
    assert!(b.display_buffer.half_resolution);
}

#[test]
fn lores_draw_doubles_pixels() {
    // Draw one byte row at (0, 0) while in lores emulation.
    let mut b = loaded(&[0xA2, 0x0A, 0xD0, 0x01, 0x00, 0x00, 0x00, 0x00, 0x00, 0x00, 0x80]);
    let mut st = vec![0u8; 8];
    run(&mut b, 2, &mut st);
    let flat = b.display_buffer.get_flattened();
    // One lores pixel paints a 2 by 2 hires block.
    assert!(flat[0] && flat[1]);
    assert!(flat[128] && flat[129]);
    assert!(!flat[2]);
}

#[test]
fn hires_large_sprite_draws_16_wide() {
    // HIRES, I = 0x20A, draw a 32-byte sprite (n = 0).
    let mut program = vec![0x00, 0xFF, 0xA2, 0x0A, 0xD0, 0x00, 0x00, 0x00, 0x00, 0x00];
    program.extend(vec![0xFF; 32]);
    let mut b = loaded(&program);
    let mut st = vec![0u8; 8];
    run(&mut b, 3, &mut st);
    let flat = b.display_buffer.get_flattened();
    for x in 0..16 {
        assert!(flat[x]);
    }
    assert!(!flat[16]);
    assert!(flat[15 * 128]);
    assert!(!flat[16 * 128]);
    // In hires mode the flag register keeps the exact colliding count.
    assert_eq!(b.inner.registers.general[0xF], 0);
}

#[test]
fn hires_draw_counts_colliding_rows() {
    // Draw the same two-row sprite twice in hires mode.
    let mut b = loaded(&[0x00, 0xFF, 0xA2, 0x0A, 0xD0, 0x02, 0xD0, 0x02, 0x00, 0x00, 0xC0, 0xC0]);
    let mut st = vec![0u8; 8];
    run(&mut b, 4, &mut st);
    assert_eq!(b.inner.registers.general[0xF], 2);
}

#[test]
fn scroll_down_opcode_scrolls_twice_in_lores() {
    // Lores: draw a block at the top, then scroll down one lores pixel.
    let mut b = loaded(&[0xA2, 0x08, 0xD0, 0x01, 0x00, 0xC1, 0x00, 0x00, 0x80]);
    let mut st = vec![0u8; 8];
    run(&mut b, 2, &mut st);
    run(&mut b, 1, &mut st);
    let flat = b.display_buffer.get_flattened();
    // The 2 by 2 block moved down two hires rows.
    assert!(!flat[0]);
    assert!(flat[2 * 128] && flat[3 * 128]);
}

#[test]
fn scroll_down_needs_zero_middle_nibble() {
    // 0x01C5 is not a scroll: it falls through and is ignored.
    let mut b = loaded(&[0xA2, 0x08, 0xD0, 0x01, 0x01, 0xC5, 0x00, 0x00, 0x80]);
    let mut st = vec![0u8; 8];
    run(&mut b, 2, &mut st);
    run(&mut b, 1, &mut st);
    let flat = b.display_buffer.get_flattened();
    // The block stayed at the top; nothing scrolled.
    assert!(flat[0]);
    assert!(!flat[2 * 128]);
}

#[test]
fn scroll_right_and_left_opcodes() {
    let mut b = loaded(&[0x00, 0xFF, 0xA2, 0x08, 0xD0, 0x01, 0x00, 0xFB, 0x80, 0x00]);
    let mut st = vec![0u8; 8];
    run(&mut b, 3, &mut st);
    run(&mut b, 1, &mut st);
    let flat = b.display_buffer.get_flattened();
    assert!(!flat[0]);
    assert!(flat[4]);
}

#[test]
fn persistent_flags_round_trip() {
    // V0..V2 = 7, 8, 9; save V0..=V2; wipe them; load them back.
    let mut b = loaded(&[
        0x60, 0x07, 0x61, 0x08, 0x62, 0x09, 0xF2, 0x75, 0x60, 0x00, 0x61, 0x00, 0x62, 0x00, 0xF2,
        0x85,
    ]);
    let mut st = vec![0u8; 8];
    run(&mut b, 8, &mut st);
    assert_eq!(&st[0..3], &[7, 8, 9]);
    assert_eq!(&b.inner.registers.general[0..3], &[7, 8, 9]);
}

#[test]
fn flag_save_caps_at_eight_registers() {
    let mut b = loaded(&[0x6F, 0x55, 0xFF, 0x75]);
    let mut st = vec![0u8; 8];
    run(&mut b, 2, &mut st);
    // Only V0..=V7 fit; they were all zero but VF stayed out.
    assert_eq!(st, vec![0u8; 8]);
}

#[test]
fn hires_font_selectors() {
    // V0 = 0x12 picks hires glyph 2 through the classic selector.
    let mut b = loaded(&[0x60, 0x12, 0xF0, 0x29]);
    let mut st = vec![0u8; 8];
    run(&mut b, 2, &mut st);
    assert_eq!(b.inner.registers.address, 80 + 2 * 10);
    // V0 = 3 picks hires glyph 3 through the direct selector.
    let mut b = loaded(&[0x60, 0x03, 0xF0, 0x30]);
    run(&mut b, 2, &mut st);
    assert_eq!(b.inner.registers.address, 80 + 3 * 10);
}

#[test]
fn hires_font_selector_rejects_bad_codes() {
    let mut b = loaded(&[0x60, 0x0A, 0xF0, 0x30]);
    let mut kp = KeypadState::new();
    let mut st = vec![0u8; 8];
    let e = b.tick(2, &mut kp, &mut st).unwrap_err();
    assert_eq!(e.kind, BackendErrorKind::UnrecognizedSprite);
    let mut b = loaded(&[0x60, 0x2A, 0xF0, 0x29]);
    let e = b.tick(2, &mut kp, &mut st).unwrap_err();
    assert_eq!(e.kind, BackendErrorKind::UnrecognizedSprite);
}

#[test]
fn default_font_includes_hires_glyphs() {
    let b = loaded(&[0x00, 0x00]);
    assert_eq!(&b.inner.memory[0..5], &[0xF0, 0x90, 0x90, 0x90, 0xF0]);
    assert_eq!(b.inner.memory[80], 0x3C);
    assert_eq!(b.inner.memory[89], 0x3C);
}

#[test]
fn quirky_jump_uses_operand_register() {
    // Extended defaults: JP V2 + 0x208 with V2 = 4 lands at 0x20C.
    let mut b = loaded(&[
        0x62, 0x04, 0xB2, 0x08, 0x00, 0x00, 0x00, 0x00, 0x00, 0x00, 0x00, 0x00, 0x61, 0x09,
    ]);
    let mut st = vec![0u8; 8];
    run(&mut b, 3, &mut st);
    assert_eq!(b.inner.registers.general[1], 9);
}

#[test]
fn facade_dispatches_both_cores() {
    let mut any = AnyBackend::default();
    assert_eq!(any.display_buffer_size(), [64, 32]);
    assert!(!any.has_program_exited());
    any.load(None, &vec![0x00, 0xE0]).unwrap();
    let mut kp = KeypadState::new();
    let mut st = vec![0u8; 8];
    any.tick(1, &mut kp, &mut st).unwrap();
    assert!(any.is_display_buffer_dirty());
    let flat = any.get_display_buffer().unwrap();
    assert_eq!(flat.len(), 64 * 32);
    assert!(!any.is_display_buffer_dirty());

    let mut any = AnyBackend::SuperChip(Backend::default());
    assert_eq!(any.display_buffer_size(), [128, 64]);
    any.load(None, &vec![0x00, 0xFD]).unwrap();
    any.tick(1, &mut kp, &mut st).unwrap();
    assert!(any.has_program_exited());
    any.reset();
    assert!(!any.has_program_exited());
    let timers = any.get_timers();
    assert_eq!(timers.delay, 0);
    assert_eq!(timers.sound, 0);
}

#[test]
fn facade_options_are_editable() {
    let mut any = AnyBackend::default();
    let opts = any.get_options_mut();
    assert!(opts.copy_and_shift);
    opts.copy_and_shift = false;
    assert!(!any.get_options_mut().copy_and_shift);
    let display_opts = any.get_display_options_mut();
    assert!(display_opts.clip_sprites);
    display_opts.clip_sprites = false;
    assert!(!any.get_display_options_mut().clip_sprites);
}
