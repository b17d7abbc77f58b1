use chip8::display::{Display, VIDEO_HEIGHT, VIDEO_SIZE, VIDEO_WIDTH};

fn lit_cells(d: &Display) -> Vec<usize> {
    d.view()
        .iter()
        .enumerate()
        .filter(|(_, &v)| v == 1)
        .map(|(i, _)| i)
        .collect()
}

#[test]
fn new_display_is_blank_and_dirty() {
    let d = Display::new();
    assert_eq!(d.view().len(), VIDEO_SIZE);
    assert_eq!(VIDEO_SIZE, VIDEO_WIDTH * VIDEO_HEIGHT);
    assert!(d.view().iter().all(|&c| c == 0));
    assert!(d.is_dirty());
}

#[test]
fn clear_zeroes_every_cell_and_sets_dirty() {
    let mut d = Display::new();
    d.draw(3, 4, &[0xFF, 0xFF, 0x81]);
    d.set_clean();
    assert!(!d.is_dirty());
    d.clear();
    assert!(d.view().iter().all(|&c| c == 0));
    assert!(d.is_dirty());
}

#[test]
fn drawing_twice_restores_the_grid() {
    let mut d = Display::new();
    d.draw(0, 0, &[0x81]);
    let before: Vec<u32> = d.view().to_vec();
    let sprite = [0xF0, 0x90, 0x90, 0x90, 0xF0];
    assert_eq!(d.draw(0, 0, &sprite), 1);
    assert_ne!(d.view().to_vec(), before);
    assert_eq!(d.draw(0, 0, &sprite), 1);
    assert_eq!(d.view().to_vec(), before);
}

#[test]
fn second_draw_on_blank_grid_collides() {
    let mut d = Display::new();
    assert_eq!(d.draw(10, 5, &[0x3C]), 0);
    assert_eq!(lit_cells(&d), vec![5 * 64 + 12, 5 * 64 + 13, 5 * 64 + 14, 5 * 64 + 15]);
    assert_eq!(d.draw(10, 5, &[0x3C]), 1);
    assert!(lit_cells(&d).is_empty());
}

#[test]
fn draw_wraps_at_right_edge() {
    let mut d = Display::new();
    assert_eq!(d.draw(63, 0, &[0xC0]), 0);
    assert_eq!(lit_cells(&d), vec![0, 63]);
}

#[test]
fn draw_wraps_at_bottom_edge() {
    let mut d = Display::new();
    assert_eq!(d.draw(0, 31, &[0x80, 0x80]), 0);
    assert_eq!(lit_cells(&d), vec![0, 31 * 64]);
}

#[test]
fn draw_reduces_position_modulo_size() {
    let mut d = Display::new();
    d.draw(64 + 2, 32 + 1, &[0x80]);
    assert_eq!(lit_cells(&d), vec![64 + 2]);
}

#[test]
fn draw_sets_dirty_and_set_clean_clears_it() {
    let mut d = Display::new();
    d.set_clean();
    d.draw(0, 0, &[]);
    assert!(d.is_dirty());
    assert!(lit_cells(&d).is_empty());
    d.set_clean();
    assert!(!d.is_dirty());
}

#[test]
fn sprite_taller_than_screen_overlaps_itself() {
    let mut d = Display::new();
    let mut sprite = vec![0u8; 33];
    sprite[0] = 0x80;
    sprite[32] = 0x80;
    assert_eq!(d.draw(0, 0, &sprite), 1);
    assert!(lit_cells(&d).is_empty());
}

#[test]
fn redraw_without_newly_lit_cell_does_not_collide() {
    let mut d = Display::new();
    d.draw(4, 2, &[0x80]);
    assert_eq!(d.draw(4, 2, &[0x80]), 1);
    assert!(lit_cells(&d).is_empty());
    assert_eq!(d.draw(4, 2, &[0x80]), 0);
    assert_eq!(lit_cells(&d), vec![2 * 64 + 4]);
}
