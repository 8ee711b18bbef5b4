use nolos::framebuffer::{
    clear, colors, draw_rect, fill_rect, hline, init, put_pixel, vline, Framebuffer, SCREEN_HEIGHT,
    SCREEN_WIDTH,
};

fn count_color(fb: &Framebuffer, color: u32) -> usize {
    let mut n = 0;
    for y in 0..SCREEN_HEIGHT {
        for x in 0..SCREEN_WIDTH {
            if fb.pixel(x, y) == color {
                n += 1;
            }
        }
    }
    n
}

#[test]
fn mode_set_sequence() {
    let w = init();
    let expected: Vec<(u16, u16)> = vec![
        (0x1CE, 0x4), (0x1CF, 0x00),
        (0x1CE, 0x1), (0x1CF, 640),
        (0x1CE, 0x2), (0x1CF, 480),
        (0x1CE, 0x3), (0x1CF, 32),
        (0x1CE, 0x6), (0x1CF, 640),
        (0x1CE, 0x7), (0x1CF, 480),
        (0x1CE, 0x8), (0x1CF, 0),
        (0x1CE, 0x9), (0x1CF, 0),
        (0x1CE, 0x4), (0x1CF, 0x41),
    ];
    assert_eq!(w, expected);
}

#[test]
fn put_pixel_on_and_off_screen() {
    let mut fb = Framebuffer::new();
    put_pixel(&mut fb, 3, 5, colors::RED);
    assert_eq!(fb.pixel(3, 5), colors::RED);
    assert_eq!(fb.pixel(4, 5), colors::BLACK);
    put_pixel(&mut fb, 639, 479, colors::WHITE);
    assert_eq!(fb.pixel(639, 479), colors::WHITE);
    put_pixel(&mut fb, 640, 0, colors::WHITE);
    put_pixel(&mut fb, 0, 480, colors::WHITE);
    assert_eq!(count_color(&fb, colors::WHITE), 1);
}

#[test]
fn clear_fills_every_pixel() {
    let mut fb = Framebuffer::new();
    put_pixel(&mut fb, 10, 10, colors::RED);
    clear(&mut fb, colors::BLUE);
    assert_eq!(count_color(&fb, colors::BLUE), SCREEN_WIDTH * SCREEN_HEIGHT);
}

#[test]
fn fill_rect_inside() {
    let mut fb = Framebuffer::new();
    fill_rect(&mut fb, 10, 20, 3, 2, colors::GREEN);
    assert_eq!(count_color(&fb, colors::GREEN), 6);
    assert_eq!(fb.pixel(10, 20), colors::GREEN);
    assert_eq!(fb.pixel(12, 21), colors::GREEN);
    assert_eq!(fb.pixel(13, 21), colors::BLACK);
    assert_eq!(fb.pixel(12, 22), colors::BLACK);
    assert_eq!(fb.pixel(9, 20), colors::BLACK);
}

#[test]
fn fill_rect_is_clipped() {
    let mut fb = Framebuffer::new();
    fill_rect(&mut fb, 636, 476, 10, 10, colors::CYAN);
    assert_eq!(count_color(&fb, colors::CYAN), 16);
    fill_rect(&mut fb, 700, 10, 5, 5, colors::PINK);
    assert_eq!(count_color(&fb, colors::PINK), 0);
    fill_rect(&mut fb, 0, 0, 0, 5, colors::PINK);
    assert_eq!(count_color(&fb, colors::PINK), 0);
    // no row on screen: the column range is never computed
    fill_rect(&mut fb, usize::MAX, 500, 1, 1, colors::PINK);
    assert_eq!(count_color(&fb, colors::PINK), 0);
}

#[test]
fn draw_rect_outline() {
    let mut fb = Framebuffer::new();
    draw_rect(&mut fb, 10, 10, 4, 3, colors::WHITE);
    // 4 + 4 + 1 + 1 border pixels
    assert_eq!(count_color(&fb, colors::WHITE), 10);
    assert_eq!(fb.pixel(10, 10), colors::WHITE);
    assert_eq!(fb.pixel(13, 12), colors::WHITE);
    assert_eq!(fb.pixel(11, 11), colors::BLACK);
    assert_eq!(fb.pixel(12, 11), colors::BLACK);
}

#[test]
fn draw_rect_pulls_edges_onto_screen() {
    let mut fb = Framebuffer::new();
    draw_rect(&mut fb, 630, 470, 20, 20, colors::YELLOW);
    // bottom edge on row 479, right edge on column 639
    assert_eq!(fb.pixel(635, 479), colors::YELLOW);
    assert_eq!(fb.pixel(639, 475), colors::YELLOW);
    assert_eq!(fb.pixel(635, 475), colors::BLACK);
    // top row 630..639 plus row 479 630..639 plus columns 630 and 639 rows 471..478
    assert_eq!(count_color(&fb, colors::YELLOW), 10 + 10 + 8 + 8);
}

#[test]
fn draw_rect_off_screen_draws_nothing() {
    let mut fb = Framebuffer::new();
    draw_rect(&mut fb, 0, 500, 2, 10, colors::RED);
    draw_rect(&mut fb, 700, 10, 20, 20, colors::RED);
    draw_rect(&mut fb, 640, 479, 5, 5, colors::RED);
    assert_eq!(count_color(&fb, colors::RED), 0);
}

#[test]
fn single_pixel_rect() {
    let mut fb = Framebuffer::new();
    draw_rect(&mut fb, 5, 5, 1, 1, colors::ORANGE);
    assert_eq!(count_color(&fb, colors::ORANGE), 1);
}

#[test]
fn outline_over_fill_changes_nothing() {
    let mut a = Framebuffer::new();
    fill_rect(&mut a, 100, 100, 30, 20, colors::PURPLE);
    let mut b = Framebuffer::new();
    fill_rect(&mut b, 100, 100, 30, 20, colors::PURPLE);
    draw_rect(&mut b, 100, 100, 30, 20, colors::PURPLE);
    for y in 90..130 {
        for x in 90..140 {
            assert_eq!(a.pixel(x, y), b.pixel(x, y));
        }
    }
    assert_eq!(count_color(&b, colors::PURPLE), 600);
}

#[test]
fn hline_and_vline() {
    let mut fb = Framebuffer::new();
    hline(&mut fb, 635, 0, 10, colors::RED);
    assert_eq!(count_color(&fb, colors::RED), 5);
    vline(&mut fb, 0, 475, 10, colors::GREEN);
    assert_eq!(count_color(&fb, colors::GREEN), 5);
    hline(&mut fb, 0, 0, 0, colors::BLUE);
    assert_eq!(count_color(&fb, colors::BLUE), 0);
}

#[test]
fn hline_matches_thin_fill_rect() {
    let mut a = Framebuffer::new();
    let mut b = Framebuffer::new();
    hline(&mut a, 600, 7, 100, colors::LIGHT_BLUE);
    fill_rect(&mut b, 600, 7, 100, 1, colors::LIGHT_BLUE);
    vline(&mut a, 3, 400, 100, colors::BROWN);
    fill_rect(&mut b, 3, 400, 1, 100, colors::BROWN);
    for y in 0..SCREEN_HEIGHT {
        for x in 0..SCREEN_WIDTH {
            assert_eq!(a.pixel(x, y), b.pixel(x, y));
        }
    }
}
