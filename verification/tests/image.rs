//! Tests of the pixel-buffer renderer: buffer layout, rectangle fills and
//! color darkening.

use caw::image::ImageRenderer;
use caw::ui::UiState;

#[test]
fn new_renderer_is_empty_with_default_colors() {
    let renderer = ImageRenderer::new();
    assert_eq!(renderer.size, (0, 0));
    assert!(renderer.data.is_empty());
    assert_eq!(renderer.alive_color, (244, 84, 255));
    assert_eq!(renderer.dead_color, (0, 0, 0));
}

#[test]
fn set_size_allocates_four_bytes_per_pixel() {
    let mut renderer = ImageRenderer::new();
    renderer.set_size((6, 5));
    assert_eq!(renderer.size, (6, 5));
    assert_eq!(renderer.data, vec![0u8; 6 * 5 * 4]);
}

#[test]
fn pixel_index_is_row_major_times_four() {
    let mut renderer = ImageRenderer::new();
    renderer.set_size((6, 5));
    assert_eq!(renderer.pos_to_index((0, 0)), 0);
    assert_eq!(renderer.pos_to_index((5, 0)), 20);
    assert_eq!(renderer.pos_to_index((0, 1)), 24);
    assert_eq!(renderer.pos_to_index((3, 2)), 3 * 4 + 2 * 24);
}

#[test]
fn darken_color_saturates_at_zero() {
    let renderer = ImageRenderer::new();
    assert_eq!(renderer.darken_color((244, 84, 255), 0), (244, 84, 255));
    assert_eq!(renderer.darken_color((244, 84, 255), 100), (144, 0, 155));
    assert_eq!(renderer.darken_color((244, 84, 255), 250), (0, 0, 5));
}

#[test]
fn cell_color_darkens_by_age() {
    let renderer = ImageRenderer::new();
    assert_eq!(renderer.cell_color(true, 0), (244, 84, 255));
    assert_eq!(renderer.cell_color(true, 200), (44, 0, 55));
    assert_eq!(renderer.cell_color(false, 0), (0, 0, 0));
    assert_eq!(renderer.cell_color(false, 123), (0, 0, 0));
}

#[test]
fn draw_rect_fills_exactly_the_rectangle() {
    let mut renderer = ImageRenderer::new();
    renderer.set_size((4, 4));
    renderer.draw_rect((1, 1), (2, 2), (10, 20, 30));
    for py in 0..4 {
        for px in 0..4 {
            let base = renderer.pos_to_index((px, py));
            let inside = (1..3).contains(&px) && (1..3).contains(&py);
            if inside {
                assert_eq!(&renderer.data[base..base + 4], &[10, 20, 30, 255]);
            } else {
                assert_eq!(&renderer.data[base..base + 4], &[0, 0, 0, 0]);
            }
        }
    }
}

#[test]
fn draw_rect_overwrites_earlier_fills() {
    let mut renderer = ImageRenderer::new();
    renderer.set_size((3, 1));
    renderer.draw_rect((0, 0), (3, 1), (1, 2, 3));
    renderer.draw_rect((1, 0), (1, 1), (9, 8, 7));
    assert_eq!(renderer.data[0..4], [1, 2, 3, 255]);
    assert_eq!(renderer.data[4..8], [9, 8, 7, 255]);
    assert_eq!(renderer.data[8..12], [1, 2, 3, 255]);
}

#[test]
fn ui_state_defaults() {
    let ui = UiState::new();
    assert!(ui.show_window);
    assert!(ui.show_help);
    assert!(!ui.show_about);
    assert_eq!(ui.cursor_size, 10);
}
