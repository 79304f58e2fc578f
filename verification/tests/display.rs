use ruschip::backend::instruction::Instruction;
use ruschip::backend::interfaces::DisplayBuffer;
use ruschip::backend::interfaces::DisplayOptions;
use ruschip::backend::interfaces::KeypadState;

fn fresh(clip: bool) -> DisplayBuffer<64, 32> {
    DisplayBuffer::<64, 32>::new(DisplayOptions { clip_sprites: clip, half_pixel_scrolling: false })
}

fn pixel(d: &mut DisplayBuffer<64, 32>, x: usize, y: usize) -> bool {
    let flat = d.get_flattened();
    flat[y * 64 + x]
}

#[test]
fn instruction_fields_decode() {
    let i = Instruction::new([0xD2, 0x35]);
    assert_eq!(i.operator_code(), 0xD);
    assert_eq!(i.operand_x(), 2);
    assert_eq!(i.operand_y(), 3);
    assert_eq!(i.operand_n(), 5);
    assert_eq!(i.operand_nn(), 0x35);
    assert_eq!(i.operand_nnn(), 0x235);
}

#[test]
fn draw_sets_pixels_and_dirty() {
    let mut d = fresh(true);
    assert!(!d.is_dirty());
    let count = d.draw((0, 0), &vec![0b1010_0000]);
    assert_eq!(count, 0);
    assert!(d.is_dirty());
    assert!(pixel(&mut d, 0, 0));
    assert!(!pixel(&mut d, 1, 0));
    assert!(pixel(&mut d, 2, 0));
    // Reading the flattened grid acknowledged the dirty flag.
    assert!(!d.is_dirty());
}

#[test]
fn draw_twice_restores_grid() {
    let mut d = fresh(true);
    d.draw((5, 7), &vec![0xFF, 0x81]);
    let count = d.draw((5, 7), &vec![0xFF, 0x81]);
    assert!(count >= 1);
    let flat = d.get_flattened();
    assert!(flat.iter().all(|&p| !p));
}

#[test]
fn draw_zero_sprite_after_clear_leaves_blank() {
    let mut d = fresh(true);
    d.draw((3, 3), &vec![0xFF]);
    d.clear();
    let count = d.draw((3, 3), &vec![0x00, 0x00]);
    assert_eq!(count, 0);
    assert!(d.is_dirty());
    let flat = d.get_flattened();
    assert!(flat.iter().all(|&p| !p));
}

#[test]
fn clipping_drops_overflow_and_wrapping_keeps_it() {
    let mut d = fresh(true);
    d.draw((60, 0), &vec![0xFF]);
    assert!(pixel(&mut d, 63, 0));
    assert!(!pixel(&mut d, 0, 0));
    let mut d = fresh(false);
    d.draw((60, 0), &vec![0xFF]);
    assert!(pixel(&mut d, 63, 0));
    assert!(pixel(&mut d, 0, 0));
    assert!(pixel(&mut d, 3, 0));
}

#[test]
fn clipped_bottom_rows_of_byte_sprites_do_not_count() {
    let mut d = fresh(true);
    let count = d.draw((0, 30), &vec![0x80, 0x80, 0x80, 0x80]);
    // Rows land on 30 and 31; the cut-off rest adds nothing to the
    // count, which only ever reports cleared pixels for byte sprites.
    assert_eq!(count, 0);
    assert!(pixel(&mut d, 0, 30));
    assert!(pixel(&mut d, 0, 31));
    assert!(!pixel(&mut d, 0, 0));
    // The same goes for an all-zero sprite: nothing drawn, nothing counted.
    let mut d = fresh(true);
    let count = d.draw((0, 30), &vec![0x00, 0x00, 0x00, 0x00]);
    assert_eq!(count, 0);
}

#[test]
fn clipped_bottom_rows_of_large_sprites_are_counted() {
    let mut d = fresh(true);
    // A 16 by 16 draw at row 20 keeps rows 20..31; the four rows past
    // the bottom edge are counted as collisions.
    let count = d.draw_16x16((0, 20), &vec![0x8000u16; 16]);
    assert_eq!(count, 4);
    assert!(pixel(&mut d, 0, 20));
    assert!(pixel(&mut d, 0, 31));
}

#[test]
fn coordinates_wrap_before_drawing() {
    let mut d = fresh(true);
    d.draw((64 + 2, 32 + 1), &vec![0x80]);
    assert!(pixel(&mut d, 2, 1));
}

#[test]
fn scroll_down_moves_rows() {
    let mut d = fresh(true);
    d.draw((4, 0), &vec![0x80]);
    d.scroll_down(3);
    assert!(pixel(&mut d, 4, 3));
    assert!(!pixel(&mut d, 4, 0));
}

#[test]
fn scroll_up_moves_rows() {
    let mut d = fresh(true);
    d.draw((4, 5), &vec![0x80]);
    d.scroll_up(2);
    assert!(pixel(&mut d, 4, 3));
    assert!(!pixel(&mut d, 4, 5));
}

#[test]
fn scroll_left_and_right_move_columns_and_blank_the_rest() {
    let mut d = fresh(true);
    d.draw((8, 2), &vec![0x80]);
    d.scroll_left(4);
    assert!(pixel(&mut d, 4, 2));
    assert!(!pixel(&mut d, 8, 2));
    d.scroll_right(60);
    // Everything scrolled out; the vacated columns are blank.
    let flat = d.get_flattened();
    assert!(flat.iter().all(|&p| !p));
}

#[test]
fn scroll_of_zero_changes_nothing() {
    let mut d = fresh(true);
    d.draw((1, 1), &vec![0x80]);
    let _ = d.get_flattened();
    d.scroll_down(0);
    assert!(!d.is_dirty());
    assert!(pixel(&mut d, 1, 1));
}

#[test]
fn keypad_reports_falling_edge_once() {
    let mut kp = KeypadState::new();
    assert_eq!(kp.pressed_key(), None);
    let mut held = [false; 16];
    held[7] = true;
    held[3] = true;
    kp.update(&held);
    assert!(kp.pressed(7));
    assert!(kp.pressed(3));
    // Going down is not a falling edge.
    assert_eq!(kp.pressed_key(), None);
    kp.update(&[false; 16]);
    // Both released: the lowest index wins.
    assert_eq!(kp.pressed_key(), Some(3));
    assert!(!kp.pressed(3));
    kp.update(&[false; 16]);
    // The edge is gone on the next snapshot.
    assert_eq!(kp.pressed_key(), None);
}

#[test]
fn keypad_release_clears_everything() {
    let mut kp = KeypadState::new();
    let mut held = [false; 16];
    held[0] = true;
    kp.update(&held);
    kp.release();
    assert!(!kp.pressed(0));
    assert_eq!(kp.pressed_key(), None);
}
