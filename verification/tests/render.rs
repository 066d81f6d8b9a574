use ulti::render::{
    blend_pixel, draw_terminal, draw_text, fill_rect, text_is_blank, Glyph, ScreenCell, ScreenView,
    BACKGROUND, CURSOR, FOREGROUND,
};

fn pixel(frame: &[u8], width: u32, x: u32, y: u32) -> [u8; 4] {
    let offset = ((y * width + x) * 4) as usize;
    [frame[offset], frame[offset + 1], frame[offset + 2], frame[offset + 3]]
}

#[test]
fn blend_pixel_mixes_channels_and_makes_opaque() {
    let mut px = [10u8, 20, 30, 40];
    blend_pixel(&mut px, FOREGROUND, 128);
    assert_eq!(px, [117, 124, 134, 255]);
}

#[test]
fn blend_pixel_with_zero_alpha_keeps_color() {
    let mut px = [10u8, 20, 30, 40, 99];
    blend_pixel(&mut px, [200, 200, 200, 200], 0);
    assert_eq!(px, [10, 20, 30, 255, 99]);
}

#[test]
fn blend_pixel_with_full_alpha_takes_color() {
    let mut px = [10u8, 20, 30, 40];
    blend_pixel(&mut px, [200, 150, 100, 0], 255);
    assert_eq!(px, [200, 150, 100, 255]);
}

#[test]
fn fill_rect_fills_only_the_clipped_rectangle() {
    let mut frame = vec![0u8; 3 * 2 * 4];
    fill_rect(&mut frame, 3, 2, 1, 1, 5, 5, [1, 2, 3, 4]);
    assert_eq!(pixel(&frame, 3, 0, 0), [0, 0, 0, 0]);
    assert_eq!(pixel(&frame, 3, 2, 0), [0, 0, 0, 0]);
    assert_eq!(pixel(&frame, 3, 0, 1), [0, 0, 0, 0]);
    assert_eq!(pixel(&frame, 3, 1, 1), [1, 2, 3, 4]);
    assert_eq!(pixel(&frame, 3, 2, 1), [1, 2, 3, 4]);
}

#[test]
fn fill_rect_outside_frame_changes_nothing() {
    let mut frame = vec![7u8; 2 * 2 * 4];
    fill_rect(&mut frame, 2, 2, 5, 5, 3, 3, [1, 2, 3, 4]);
    assert_eq!(frame, vec![7u8; 16]);
}

#[test]
fn glyph_rejects_a_bitmap_of_the_wrong_size() {
    assert!(Glyph::new(0, 0, 2, 2, vec![0; 3]).is_none());
    assert!(Glyph::new(0, 0, 2, 2, vec![0; 4]).is_some());
}

#[test]
fn draw_text_advances_the_pen_by_a_cell() {
    let width = 12;
    let height = 16;
    let mut frame = vec![0u8; (width * height * 4) as usize];
    let dot = || Glyph::new(0, 0, 1, 1, vec![255]).unwrap();
    draw_text(&mut frame, width, height, &[dot(), dot()], 1, 0);
    assert_eq!(pixel(&frame, width, 1, 13), FOREGROUND);
    assert_eq!(pixel(&frame, width, 10, 13), FOREGROUND);
    assert_eq!(pixel(&frame, width, 2, 13), [0, 0, 0, 0]);
    assert_eq!(pixel(&frame, width, 1, 12), [0, 0, 0, 0]);
}

#[test]
fn draw_text_places_glyphs_around_the_baseline_and_clips() {
    let width = 4;
    let height = 16;
    let mut frame = vec![0u8; (width * height * 4) as usize];
    // Two pixels wide, two tall, one pixel below the baseline and one left of the pen.
    let glyph = Glyph::new(-1, -1, 2, 2, vec![255, 0, 0, 255]).unwrap();
    draw_text(&mut frame, width, height, &[glyph], 0, 0);
    // Top-left corner lands at (-1, 13): clipped; bottom-right at (0, 14).
    assert_eq!(pixel(&frame, width, 0, 14), FOREGROUND);
    assert_eq!(pixel(&frame, width, 0, 13), [0, 0, 0, 0]);
}

#[test]
fn whitespace_only_text_is_blank() {
    assert!(text_is_blank(&[]));
    assert!(text_is_blank(&[' ', '\t', '\u{3000}']));
    assert!(!text_is_blank(&[' ', 'x']));
}

#[test]
fn screen_view_needs_one_cell_per_position() {
    assert!(ScreenView::new(1, 2, 0, 0, vec![ScreenCell::new(vec![], vec![]).unwrap()]).is_none());
    assert!(ScreenCell::new(vec!['a'], vec![]).is_none());
}

#[test]
fn draw_terminal_clears_and_draws_cursor_then_text() {
    let width = 40;
    let height = 40;
    let mut frame = vec![1u8; (width * height * 4) as usize + 3];
    let blank = ScreenCell::new(vec![' '], vec![Glyph::new(0, 0, 0, 0, vec![]).unwrap()]).unwrap();
    let text = ScreenCell::new(vec!['x'], vec![Glyph::new(0, 0, 1, 1, vec![255]).unwrap()]).unwrap();
    let screen = ScreenView::new(1, 2, 0, 0, vec![blank, text]).unwrap();
    draw_terminal(&mut frame, width, height, &screen);
    let len = frame.len();
    assert_eq!(&frame[len - 3..], &[1, 1, 1]);
    assert_eq!(pixel(&frame, width, 0, 0), BACKGROUND);
    assert_eq!(pixel(&frame, width, 12, 12), CURSOR);
    assert_eq!(pixel(&frame, width, 20, 29), CURSOR);
    assert_eq!(pixel(&frame, width, 21, 12), BACKGROUND);
    // The second cell starts at x = 21; its glyph sits on the baseline at y = 12 + 13.
    assert_eq!(pixel(&frame, width, 21, 25), FOREGROUND);
}

#[test]
fn text_is_drawn_over_the_cursor() {
    let width = 40;
    let height = 40;
    let mut frame = vec![0u8; (width * height * 4) as usize];
    let text = ScreenCell::new(vec!['x'], vec![Glyph::new(0, 0, 1, 1, vec![255]).unwrap()]).unwrap();
    let screen = ScreenView::new(1, 1, 0, 0, vec![text]).unwrap();
    draw_terminal(&mut frame, width, height, &screen);
    assert_eq!(pixel(&frame, width, 12, 25), FOREGROUND);
    assert_eq!(pixel(&frame, width, 13, 25), CURSOR);
}

#[test]
fn fill_rect_twice_equals_once() {
    let mut once = vec![5u8; 4 * 4 * 4];
    fill_rect(&mut once, 4, 4, 1, 2, 2, 9, [9, 8, 7, 6]);
    let mut twice = once.clone();
    fill_rect(&mut twice, 4, 4, 1, 2, 2, 9, [9, 8, 7, 6]);
    assert_eq!(once, twice);
}

#[test]
fn blank_screen_without_cursor_is_background() {
    let width = 30;
    let height = 30;
    let mut frame = vec![3u8; (width * height * 4) as usize];
    let cells = vec![
        ScreenCell::new(vec![], vec![]).unwrap(),
        ScreenCell::new(vec![' '], vec![Glyph::new(0, 0, 1, 1, vec![255]).unwrap()]).unwrap(),
    ];
    let screen = ScreenView::new(1, 2, 5, 0, cells).unwrap();
    draw_terminal(&mut frame, width, height, &screen);
    for chunk in frame.chunks(4) {
        assert_eq!(chunk, &BACKGROUND);
    }
}

#[test]
fn drawing_concatenated_text_is_drawing_each_part() {
    let width = 40;
    let height = 20;
    let glyph = |alpha: u8| Glyph::new(0, 0, 2, 1, vec![alpha, 255]).unwrap();
    let mut whole = vec![0u8; (width * height * 4) as usize];
    draw_text(&mut whole, width, height, &[glyph(100), glyph(200), glyph(50)], 1, 0);
    let mut parts = vec![0u8; (width * height * 4) as usize];
    draw_text(&mut parts, width, height, &[glyph(100)], 1, 0);
    draw_text(&mut parts, width, height, &[glyph(200), glyph(50)], 10, 0);
    assert_eq!(whole, parts);
}
