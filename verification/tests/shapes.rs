use sch_gui::{
    draw_font, draw_line, draw_rect, draw_window, draw_word, paint_desktop, Buffer, Glyph, Pixel, WindowIcons,
};

fn at(b: &Buffer, x: usize, y: usize) -> Pixel {
    b.pixels()[y * b.width() + x]
}

fn rgb(c: (u8, u8, u8)) -> Pixel {
    Pixel::new(c.0, c.1, c.2)
}

fn painted_positions(b: &Buffer, color: Pixel) -> Vec<usize> {
    b.pixels().iter().enumerate().filter(|(_, p)| **p == color).map(|(i, _)| i).collect()
}

#[test]
fn rect_paints_exactly_its_pixels() {
    let mut b = Buffer::new(5, 4);
    draw_rect(&mut b, 1, 2, 3, 2, (10, 20, 30));
    let red = rgb((10, 20, 30));
    assert_eq!(painted_positions(&b, red), vec![11, 12, 13, 16, 17, 18]);
    assert_eq!(at(&b, 0, 0), rgb((0, 0, 0)));
}

#[test]
fn rect_of_zero_width_changes_nothing() {
    let mut b = Buffer::new(4, 4);
    draw_rect(&mut b, 100, 100, 0, 5, (1, 1, 1));
    assert!(b.pixels().iter().all(|p| *p == rgb((0, 0, 0))));
}

#[test]
fn rect_wider_than_frame_wraps_into_next_rows() {
    let mut b = Buffer::new(3, 3);
    draw_rect(&mut b, 2, 0, 2, 1, (5, 5, 5));
    assert_eq!(painted_positions(&b, rgb((5, 5, 5))), vec![2, 3]);
}

#[test]
fn full_frame_rect_paints_every_pixel() {
    let mut b = Buffer::new(7, 3);
    draw_rect(&mut b, 0, 0, 7, 3, (40, 40, 40));
    assert!(b.pixels().iter().all(|p| *p == rgb((40, 40, 40))));
}

#[test]
fn repainting_a_rect_changes_nothing_more() {
    let mut once = Buffer::new(6, 5);
    draw_rect(&mut once, 0, 0, 6, 5, (1, 2, 3));
    draw_rect(&mut once, 1, 1, 3, 2, (9, 9, 9));
    let mut twice = Buffer::new(6, 5);
    draw_rect(&mut twice, 0, 0, 6, 5, (1, 2, 3));
    draw_rect(&mut twice, 1, 1, 3, 2, (9, 9, 9));
    draw_rect(&mut twice, 1, 1, 3, 2, (9, 9, 9));
    assert_eq!(once.pixels(), twice.pixels());
}

#[test]
fn line_takes_one_pixel_per_column() {
    let mut b = Buffer::new(5, 8);
    draw_line(&mut b, (0, 0), (4, 8), (255, 255, 255));
    let white = rgb((255, 255, 255));
    assert_eq!(painted_positions(&b, white), vec![0, 11, 22, 33]);
    assert_eq!(at(&b, 3, 6), white);
}

#[test]
fn line_slope_is_rounded_down() {
    let mut b = Buffer::new(10, 10);
    draw_line(&mut b, (2, 1), (5, 6), (1, 1, 1));
    // rise 5 over run 3 gives slope 1 and row = x - 1
    assert_eq!(painted_positions(&b, rgb((1, 1, 1))), vec![12, 23, 34]);
}

#[test]
fn line_of_the_desktop() {
    let mut b = Buffer::new(320, 560);
    draw_line(&mut b, (250, 350), (300, 550), (255, 255, 255));
    let white = rgb((255, 255, 255));
    let drawn = painted_positions(&b, white);
    assert_eq!(drawn.len(), 50);
    assert_eq!(at(&b, 250, 350), white);
    assert_eq!(at(&b, 299, 4 * 299 - 650), white);
    assert_eq!(at(&b, 300, 550), rgb((0, 0, 0)));
}

fn glyph_from(rows: &[&str]) -> Glyph {
    let mut g: Glyph = [[0u8; 16]; 16];
    for (y, row) in rows.iter().enumerate() {
        for (x, c) in row.chars().enumerate() {
            if c == '#' {
                g[y][x] = 1;
            }
        }
    }
    g
}

#[test]
fn font_inks_only_set_cells() {
    let g = glyph_from(&["#.", ".#"]);
    let mut b = Buffer::new(20, 20);
    draw_font(&mut b, &g, 3, 4, (7, 7, 7));
    assert_eq!(painted_positions(&b, rgb((7, 7, 7))), vec![4 * 20 + 3, 5 * 20 + 4]);
}

#[test]
fn font_cell_other_than_one_is_not_inked() {
    let mut g: Glyph = [[0u8; 16]; 16];
    g[0][0] = 2;
    g[15][15] = 1;
    let mut b = Buffer::new(16, 16);
    draw_font(&mut b, &g, 0, 0, (3, 3, 3));
    assert_eq!(painted_positions(&b, rgb((3, 3, 3))), vec![255]);
}

#[test]
fn word_glyphs_are_spaced_and_enlarged() {
    let dot = glyph_from(&["#"]);
    let mut b = Buffer::new(80, 4);
    draw_word(&mut b, &[dot, dot, dot], 1, 0, (9, 9, 9), 2, 4);
    // each glyph starts (16 - 4) * 2 = 24 pixels after the previous one,
    // and its single inked cell is a 2 by 2 square
    let expected = vec![1, 2, 25, 26, 49, 50, 81, 82, 105, 106, 129, 130];
    assert_eq!(painted_positions(&b, rgb((9, 9, 9))), expected);
}

#[test]
fn word_of_size_zero_draws_nothing() {
    let full = [[1u8; 16]; 16];
    let mut b = Buffer::new(4, 4);
    draw_word(&mut b, &[full], 0, 0, (9, 9, 9), 0, 20);
    assert!(b.pixels().iter().all(|p| *p == rgb((0, 0, 0))));
}

#[test]
fn word_of_blank_glyphs_may_overlap_more_than_a_glyph() {
    let blank = [[0u8; 16]; 16];
    let mut b = Buffer::new(4, 4);
    draw_word(&mut b, &[blank, blank], 0, 0, (1, 2, 3), 1, 20);
    assert!(b.pixels().iter().all(|p| *p == rgb((0, 0, 0))));
}

#[test]
fn window_draws_frame_background_title_and_buttons() {
    let dot = glyph_from(&["#"]);
    let icons = WindowIcons { min: dot, max: dot, close: dot };
    let mut b = Buffer::new(120, 60);
    draw_window(&mut b, &[dot], &icons, 10, 5, 100, 40, (200, 200, 200), 3, (150, 150, 150));
    let border = rgb((150, 150, 150));
    let background = rgb((200, 200, 200));
    let black = rgb((0, 0, 0));
    assert_eq!(at(&b, 7, 2), border);
    assert_eq!(at(&b, 112, 47), border);
    assert_eq!(at(&b, 6, 2), black);
    assert_eq!(at(&b, 50, 20), background);
    assert_eq!(at(&b, 10, 30), border);
    assert_eq!(at(&b, 109, 31), border);
    assert_eq!(at(&b, 15, 10), black);
    assert_eq!(at(&b, 42, 10), black);
    assert_eq!(at(&b, 68, 10), black);
    assert_eq!(at(&b, 90, 10), black);
    assert_eq!(at(&b, 16, 10), background);
    let inked_inside = painted_positions(&b, black)
        .iter()
        .filter(|i| (5..45).contains(&(**i / 120)) && (10..110).contains(&(**i % 120)))
        .count();
    assert_eq!(inked_inside, 4);
}

#[test]
fn desktop_background_layout() {
    let mut b = Buffer::new(8, 100);
    paint_desktop(&mut b);
    let bar = rgb((120, 120, 175));
    let sky = rgb((20, 50, 200));
    let dock = rgb((150, 150, 150));
    assert_eq!(at(&b, 0, 0), bar);
    assert_eq!(at(&b, 7, 31), bar);
    assert_eq!(at(&b, 3, 32), sky);
    assert_eq!(at(&b, 7, 49), sky);
    assert_eq!(at(&b, 0, 50), dock);
    assert_eq!(at(&b, 7, 99), dock);
}

#[test]
fn desktop_background_erases_previous_frame() {
    let mut a = Buffer::new(5, 50);
    let mut b = Buffer::new(5, 50);
    draw_rect(&mut b, 1, 1, 3, 40, (9, 9, 9));
    paint_desktop(&mut a);
    paint_desktop(&mut b);
    assert_eq!(a.pixels(), b.pixels());
}
