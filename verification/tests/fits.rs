use sch_gui::{glyph_fits_in, glyph_ink, line_fits_in, rect_fits_in, window_fits_in, word_fits_in, Buffer, Glyph, WindowIcons};

fn dot_at(col: usize, row: usize) -> Glyph {
    let mut g: Glyph = [[0u8; 16]; 16];
    g[row][col] = 1;
    g
}

#[test]
fn rect_fits_when_its_last_pixel_does() {
    let b = Buffer::new(5, 4);
    assert!(rect_fits_in(&b, 1, 2, 4, 2));
    assert!(!rect_fits_in(&b, 1, 3, 4, 2));
    assert!(rect_fits_in(&b, 2, 3, 3, 1));
    assert!(rect_fits_in(&b, 9, 3, 0, 1));
    assert!(!rect_fits_in(&b, usize::MAX, 0, 2, 1));
    assert!(!rect_fits_in(&Buffer::new(0, 4), 0, 0, 1, 1));
}

#[test]
fn glyph_fits_by_its_inked_cells_only() {
    let b = Buffer::new(10, 10);
    assert!(glyph_fits_in(&b, &dot_at(0, 0), 9, 9, 1));
    assert!(!glyph_fits_in(&b, &dot_at(1, 0), 9, 9, 1));
    assert!(glyph_fits_in(&b, &[[0u8; 16]; 16], usize::MAX, usize::MAX, 1));
    assert!(!glyph_fits_in(&b, &dot_at(0, 0), 8, 9, 2));
    assert!(glyph_ink(&dot_at(3, 4)));
    assert!(!glyph_ink(&[[0u8; 16]; 16]));
}

#[test]
fn word_fits_checks_spacing_and_ink() {
    let b = Buffer::new(40, 2);
    let dot = dot_at(0, 0);
    let blank = [[0u8; 16]; 16];
    assert!(word_fits_in(&b, &[dot, dot, dot], 0, 0, 1, 4));
    assert!(!word_fits_in(&b, &[dot, dot, dot, dot], 4, 1, 1, 4));
    assert!(word_fits_in(&b, &[blank, blank], 0, 0, 1, 20));
    assert!(!word_fits_in(&b, &[blank, dot], 0, 0, 1, 20));
    assert!(word_fits_in(&b, &[], 0, 0, usize::MAX, 0));
    assert!(!word_fits_in(&b, &[blank], 0, 0, usize::MAX, 0));
    assert!(!word_fits_in(&b, &[dot, blank], 0, 0, usize::MAX / 16, 0));
}

#[test]
fn line_fits_checks_direction_and_extent() {
    assert!(line_fits_in(&Buffer::new(5, 8), (0, 0), (4, 8)));
    assert!(!line_fits_in(&Buffer::new(5, 6), (0, 0), (4, 8)));
    assert!(!line_fits_in(&Buffer::new(5, 8), (4, 8), (0, 0)));
    assert!(!line_fits_in(&Buffer::new(5, 8), (2, 0), (2, 3)));
    assert!(line_fits_in(&Buffer::new(5, 8), (0, 5), (3, 5)));
    assert!(line_fits_in(&Buffer::new(320, 560), (250, 350), (300, 550)));
}

#[test]
fn window_fits_checks_every_part() {
    let dot = dot_at(0, 0);
    let icons = WindowIcons { min: dot, max: dot, close: dot };
    let b = Buffer::new(120, 60);
    assert!(window_fits_in(&b, &[dot], &icons, 10, 5, 100, 40, 3));
    assert!(!window_fits_in(&b, &[dot], &icons, 2, 5, 100, 40, 3));
    assert!(!window_fits_in(&b, &[dot], &icons, 10, 5, 50, 40, 3));
    assert!(!window_fits_in(&b, &[dot], &icons, 10, 5, 100, 60, 3));
}
