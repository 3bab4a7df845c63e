use vstd::prelude::*;
use crate::canvas::{cell_index, rgb, Buffer, Pixel};
use crate::draw::{draw_rect, in_rect, lemma_full_frame_rect, offset_cell, rect_fits, rect_painted};
use crate::glyph::{
    draw_font, draw_word, glyph_fits, glyph_painted, glyph_set, in_glyph, in_word, word_fits, word_origin,
    word_painted, Glyph,
};

verus! {

/// The three title-bar buttons of a window.
pub struct WindowIcons {
    pub min: Glyph,
    pub max: Glyph,
    pub close: Glyph,
}

/// Colour of window text and title-bar buttons.
pub open spec fn ink() -> Pixel {
    rgb((0, 0, 0))
}

/// The window's arguments can be computed in `usize` and each of its parts
/// fits inside a frame of `len` pixels that is `bw` wide.
pub open spec fn window_fits(
    bw: nat,
    len: nat,
    title: Seq<Glyph>,
    icons: WindowIcons,
    p_x: int,
    p_y: int,
    width: int,
    height: int,
    border: int,
) -> bool {
    &&& border <= p_x
    &&& border <= p_y
    &&& width + border * 2 <= usize::MAX
    &&& height + border * 2 <= usize::MAX
    &&& p_x + 5 <= usize::MAX
    &&& p_y + 25 <= usize::MAX
    &&& 68 <= p_x + width <= usize::MAX
    &&& rect_fits(bw, len, p_x - border, p_y - border, width + border * 2, height + border * 2)
    &&& rect_fits(bw, len, p_x, p_y, width, height)
    &&& word_fits(bw, len, p_x + 5, p_y + 5, title, 1, 4)
    &&& rect_fits(bw, len, p_x, p_y + 25, width, 2)
    &&& glyph_fits(bw, len, p_x + width - 68, p_y + 5, icons.min, 1)
    &&& glyph_fits(bw, len, p_x + width - 42, p_y + 5, icons.max, 1)
    &&& glyph_fits(bw, len, p_x + width - 20, p_y + 5, icons.close, 1)
}

/// `cells` after the window is drawn: a `border`-wide frame around the
/// `width` by `height` client area at `(p_x, p_y)`, the background, the title,
/// the line under the title bar and the three buttons, in that order.
pub open spec fn window_painted(
    cells: Seq<Pixel>,
    bw: nat,
    title: Seq<Glyph>,
    icons: WindowIcons,
    p_x: int,
    p_y: int,
    width: int,
    height: int,
    background: Pixel,
    border: int,
    border_color: Pixel,
) -> Seq<Pixel> {
    let framed = rect_painted(cells, bw, p_x - border, p_y - border, width + border * 2, height + border * 2, border_color);
    let filled = rect_painted(framed, bw, p_x, p_y, width, height, background);
    let titled = word_painted(filled, bw, p_x + 5, p_y + 5, title, 1, 4, ink());
    let barred = rect_painted(titled, bw, p_x, p_y + 25, width, 2, border_color);
    let minned = glyph_painted(barred, bw, p_x + width - 68, p_y + 5, icons.min, 1, ink());
    let maxed = glyph_painted(minned, bw, p_x + width - 42, p_y + 5, icons.max, 1, ink());
    glyph_painted(maxed, bw, p_x + width - 20, p_y + 5, icons.close, 1, ink())
}

/// Draws a window: a `border`-wide frame in `border_color` around the `width` by
/// `height` area at `(p_x, p_y)` filled with `background`, the `title` glyphs in
/// black, a two-pixel line under the title bar, and the minimise, maximise and
/// close buttons at the right of the title bar.
pub fn draw_window(
    buffer: &mut Buffer,
    title: &[Glyph],
    icons: &WindowIcons,
    p_x: usize,
    p_y: usize,
    width: usize,
    height: usize,
    background: (u8, u8, u8),
    border: usize,
    border_color: (u8, u8, u8),
)
    requires
        old(buffer).wf(),
        window_fits(
            old(buffer).w(),
            old(buffer).cells().len(),
            title@,
            *icons,
            p_x as int,
            p_y as int,
            width as int,
            height as int,
            border as int,
        ),
    ensures
        final(buffer).wf(),
        final(buffer).w() == old(buffer).w(),
        final(buffer).h() == old(buffer).h(),
        final(buffer).cells() == window_painted(
            old(buffer).cells(),
            old(buffer).w(),
            title@,
            *icons,
            p_x as int,
            p_y as int,
            width as int,
            height as int,
            rgb(background),
            border as int,
            rgb(border_color),
        ),
        forall|i: int|
            0 <= i < old(buffer).cells().len() ==> #[trigger] final(buffer).cells()[i] == if inked_at(
                old(buffer).w(),
                p_x + width - 68,
                p_y + 5,
                icons.min,
                i,
            ) || inked_at(old(buffer).w(), p_x + width - 42, p_y + 5, icons.max, i) || inked_at(
                old(buffer).w(),
                p_x + width - 20,
                p_y + 5,
                icons.close,
                i,
            ) {
                rgb((0, 0, 0))
            } else if in_rect(old(buffer).w(), p_x as int, p_y + 25, width as int, 2, i) {
                rgb(border_color)
            } else if title_inked_at(old(buffer).w(), p_x + 5, p_y + 5, title@, i) {
                rgb((0, 0, 0))
            } else if in_rect(old(buffer).w(), p_x as int, p_y as int, width as int, height as int, i) {
                rgb(background)
            } else if in_rect(
                old(buffer).w(),
                p_x - border,
                p_y - border,
                width + border * 2,
                height + border * 2,
                i,
            ) {
                rgb(border_color)
            } else {
                old(buffer).cells()[i]
            },
{
    let ghost cells0 = buffer.cells();
    let ghost bw = buffer.w();
    draw_rect(buffer, p_x - border, p_y - border, width + border * 2, height + border * 2, border_color);
    draw_rect(buffer, p_x, p_y, width, height, background);
    draw_word(buffer, title, p_x + 5, p_y + 5, (0, 0, 0), 1, 4);
    draw_rect(buffer, p_x, p_y + 25, width, 2, border_color);
    draw_font(buffer, &icons.min, p_x + width - 68, p_y + 5, (0, 0, 0));
    draw_font(buffer, &icons.max, p_x + width - 42, p_y + 5, (0, 0, 0));
    draw_font(buffer, &icons.close, p_x + width - 20, p_y + 5, (0, 0, 0));
    assert forall|i: int| 0 <= i < cells0.len() implies #[trigger] buffer.cells()[i] == if inked_at(
        bw,
        p_x + width - 68,
        p_y + 5,
        icons.min,
        i,
    ) || inked_at(bw, p_x + width - 42, p_y + 5, icons.max, i) || inked_at(
        bw,
        p_x + width - 20,
        p_y + 5,
        icons.close,
        i,
    ) {
        rgb((0, 0, 0))
    } else if in_rect(bw, p_x as int, p_y + 25, width as int, 2, i) {
        rgb(border_color)
    } else if title_inked_at(bw, p_x + 5, p_y + 5, title@, i) {
        rgb((0, 0, 0))
    } else if in_rect(bw, p_x as int, p_y as int, width as int, height as int, i) {
        rgb(background)
    } else if in_rect(bw, p_x - border, p_y - border, width + border * 2, height + border * 2, i) {
        rgb(border_color)
    } else {
        cells0[i]
    } by {
        lemma_window_pixels(
            cells0,
            bw,
            title@,
            *icons,
            p_x as int,
            p_y as int,
            width as int,
            height as int,
            rgb(background),
            border as int,
            rgb(border_color),
            i,
        );
    }
}

/// Pixel `i` is where cell `(c, r)` of bitmap `g`, holding `1` in row `r`,
/// column `c`, lands when `g` is drawn unscaled with its corner at `(ox, oy)`.
pub open spec fn inked_at(width: nat, ox: int, oy: int, g: Glyph, i: int) -> bool {
    exists|c: int, r: int| 0 <= c < 16 && 0 <= r < 16 && g[r][c] == 1 && i == #[trigger] offset_cell(width, ox, oy, c, r)
}

/// Pixel `i` is where an inked cell of a title glyph lands: the `k`-th glyph of
/// `title` has its corner 12 pixels per glyph right of `(ox, oy)`.
pub open spec fn title_inked_at(width: nat, ox: int, oy: int, title: Seq<Glyph>, i: int) -> bool {
    exists|k: int, c: int, r: int|
        0 <= k < title.len() && 0 <= c < 16 && 0 <= r < 16 && title[k][r][c] == 1 && i
            == #[trigger] offset_cell(width, ox + 12 * k, oy, c, r)
}

proof fn lemma_unscaled_glyph(width: nat, ox: int, oy: int, g: Glyph, i: int)
    ensures
        in_glyph(width, ox, oy, g, 1, i) == inked_at(width, ox, oy, g, i),
{
    if in_glyph(width, ox, oy, g, 1, i) {
        let (x, y) = choose|x: int, y: int|
            0 <= x < 16 * 1 && 0 <= y < 16 * 1 && glyph_set(g, x / 1, y / 1) && i == #[trigger] offset_cell(
                width,
                ox,
                oy,
                x,
                y,
            );
        assert(x / 1 == x && y / 1 == y);
        assert(g[y][x] == 1);
    }
    if inked_at(width, ox, oy, g, i) {
        let (c, r) = choose|c: int, r: int|
            0 <= c < 16 && 0 <= r < 16 && g[r][c] == 1 && i == #[trigger] offset_cell(width, ox, oy, c, r);
        assert(c / 1 == c && r / 1 == r);
        assert(glyph_set(g, c / 1, r / 1));
    }
}

proof fn lemma_title_word(width: nat, ox: int, oy: int, title: Seq<Glyph>, i: int)
    ensures
        in_word(width, ox, oy, title, 1, 4, i) == title_inked_at(width, ox, oy, title, i),
{
    if in_word(width, ox, oy, title, 1, 4, i) {
        let k = choose|k: int|
            0 <= k < title.len() && #[trigger] in_glyph(width, word_origin(ox, 4, 1, k), oy, title[k], 1, i);
        lemma_unscaled_glyph(width, word_origin(ox, 4, 1, k), oy, title[k], i);
        let (c, r) = choose|c: int, r: int|
            0 <= c < 16 && 0 <= r < 16 && title[k][r][c] == 1 && i == #[trigger] offset_cell(
                width,
                word_origin(ox, 4, 1, k),
                oy,
                c,
                r,
            );
        assert(word_origin(ox, 4, 1, k) == ox + 12 * k);
        assert(i == offset_cell(width, ox + 12 * k, oy, c, r));
    }
    if title_inked_at(width, ox, oy, title, i) {
        let (k, c, r) = choose|k: int, c: int, r: int|
            0 <= k < title.len() && 0 <= c < 16 && 0 <= r < 16 && title[k][r][c] == 1 && i
                == #[trigger] offset_cell(width, ox + 12 * k, oy, c, r);
        assert(word_origin(ox, 4, 1, k) == ox + 12 * k);
        assert(inked_at(width, word_origin(ox, 4, 1, k), oy, title[k], i));
        lemma_unscaled_glyph(width, word_origin(ox, 4, 1, k), oy, title[k], i);
    }
}

/// What drawing a window does to each pixel `i` of the frame, by the part of
/// the window that is drawn over it last:
/// - a pixel where an inked cell of the minimise, maximise or close icon lands
///   (their corners at `p_x + width - 68`, `p_x + width - 42` and
///   `p_x + width - 20`, row `p_y + 5`) is black;
/// - otherwise a pixel of the two-row line at `(p_x, p_y + 25)` has the border
///   colour;
/// - otherwise a pixel where an inked cell of a title glyph lands (the `k`-th
///   glyph's corner at `(p_x + 5 + 12 * k, p_y + 5)`) is black;
/// - otherwise a pixel of the `width` by `height` area at `(p_x, p_y)` has the
///   background colour;
/// - otherwise a pixel of the frame, `border` wider on each side, has the
///   border colour;
/// - every other pixel keeps its value.
pub proof fn lemma_window_pixels(
    cells: Seq<Pixel>,
    bw: nat,
    title: Seq<Glyph>,
    icons: WindowIcons,
    p_x: int,
    p_y: int,
    width: int,
    height: int,
    background: Pixel,
    border: int,
    border_color: Pixel,
    i: int,
)
    requires
        0 <= i < cells.len(),
    ensures
        ({
            let out = window_painted(cells, bw, title, icons, p_x, p_y, width, height, background, border, border_color);
            let icon = inked_at(bw, p_x + width - 68, p_y + 5, icons.min, i) || inked_at(bw, p_x + width - 42, p_y + 5, icons.max, i)
                || inked_at(bw, p_x + width - 20, p_y + 5, icons.close, i);
            let bar = in_rect(bw, p_x, p_y + 25, width, 2, i);
            let text = title_inked_at(bw, p_x + 5, p_y + 5, title, i);
            let client = in_rect(bw, p_x, p_y, width, height, i);
            let frame = in_rect(bw, p_x - border, p_y - border, width + border * 2, height + border * 2, i);
            &&& out.len() == cells.len()
            &&& out[i] == if icon {
                ink()
            } else if bar {
                border_color
            } else if text {
                ink()
            } else if client {
                background
            } else if frame {
                border_color
            } else {
                cells[i]
            }
        }),
{
    lemma_unscaled_glyph(bw, p_x + width - 68, p_y + 5, icons.min, i);
    lemma_unscaled_glyph(bw, p_x + width - 42, p_y + 5, icons.max, i);
    lemma_unscaled_glyph(bw, p_x + width - 20, p_y + 5, icons.close, i);
    lemma_title_word(bw, p_x + 5, p_y + 5, title, i);
}

/// In a drawn window every inked cell `(c, r)` of the `k`-th title glyph shows
/// black at `(p_x + 5 + 12 * k + c, p_y + 5 + r)`, unless the line under the
/// title bar covers it: title glyphs are 12 pixels apart.
pub proof fn lemma_window_title(
    cells: Seq<Pixel>,
    bw: nat,
    title: Seq<Glyph>,
    icons: WindowIcons,
    p_x: int,
    p_y: int,
    width: int,
    height: int,
    background: Pixel,
    border: int,
    border_color: Pixel,
    k: int,
    c: int,
    r: int,
)
    requires
        0 <= k < title.len(),
        0 <= c < 16,
        0 <= r < 16,
        title[k][r][c] == 1,
        0 <= offset_cell(bw, p_x + 5 + 12 * k, p_y + 5, c, r) < cells.len(),
        !in_rect(bw, p_x, p_y + 25, width, 2, offset_cell(bw, p_x + 5 + 12 * k, p_y + 5, c, r)),
    ensures
        window_painted(cells, bw, title, icons, p_x, p_y, width, height, background, border, border_color)[offset_cell(
            bw,
            p_x + 5 + 12 * k,
            p_y + 5,
            c,
            r,
        )] == ink(),
{
    let i = offset_cell(bw, p_x + 5 + 12 * k, p_y + 5, c, r);
    assert(i == offset_cell(bw, (p_x + 5) + 12 * k, p_y + 5, c, r));
    assert(title_inked_at(bw, p_x + 5, p_y + 5, title, i));
    lemma_window_pixels(cells, bw, title, icons, p_x, p_y, width, height, background, border, border_color, i);
}

/// In a drawn window the minimise and maximise buttons show their own icons:
/// every inked cell `(c, r)` of `icons.min` is black at
/// `(p_x + width - 68 + c, p_y + 5 + r)`, and of `icons.max` at
/// `(p_x + width - 42 + c, p_y + 5 + r)`.
pub proof fn lemma_window_buttons(
    cells: Seq<Pixel>,
    bw: nat,
    title: Seq<Glyph>,
    icons: WindowIcons,
    p_x: int,
    p_y: int,
    width: int,
    height: int,
    background: Pixel,
    border: int,
    border_color: Pixel,
    c: int,
    r: int,
)
    requires
        0 <= c < 16,
        0 <= r < 16,
    ensures
        icons.min[r][c] == 1 && 0 <= offset_cell(bw, p_x + width - 68, p_y + 5, c, r) < cells.len() ==> window_painted(
            cells,
            bw,
            title,
            icons,
            p_x,
            p_y,
            width,
            height,
            background,
            border,
            border_color,
        )[offset_cell(bw, p_x + width - 68, p_y + 5, c, r)] == ink(),
        icons.max[r][c] == 1 && 0 <= offset_cell(bw, p_x + width - 42, p_y + 5, c, r) < cells.len() ==> window_painted(
            cells,
            bw,
            title,
            icons,
            p_x,
            p_y,
            width,
            height,
            background,
            border,
            border_color,
        )[offset_cell(bw, p_x + width - 42, p_y + 5, c, r)] == ink(),
{
    let a = offset_cell(bw, p_x + width - 68, p_y + 5, c, r);
    let b = offset_cell(bw, p_x + width - 42, p_y + 5, c, r);
    if icons.min[r][c] == 1 && 0 <= a < cells.len() {
        assert(inked_at(bw, p_x + width - 68, p_y + 5, icons.min, a));
        lemma_window_pixels(cells, bw, title, icons, p_x, p_y, width, height, background, border, border_color, a);
    }
    if icons.max[r][c] == 1 && 0 <= b < cells.len() {
        assert(inked_at(bw, p_x + width - 42, p_y + 5, icons.max, b));
        lemma_window_pixels(cells, bw, title, icons, p_x, p_y, width, height, background, border, border_color, b);
    }
}

/// Height of the dock along the bottom of the desktop.
pub const DOCK_HEIGHT: usize = 50;

/// `cells` of a `bw` by `bh` frame after the desktop background is painted: the
/// whole frame blue, the dock along the bottom grey, the top bar lavender.
pub open spec fn desktop_painted(cells: Seq<Pixel>, bw: nat, bh: nat) -> Seq<Pixel> {
    let sky = rect_painted(cells, bw, 0, 0, bw as int, bh as int, rgb((20, 50, 200)));
    let docked = rect_painted(sky, bw, 0, bh - DOCK_HEIGHT, bw as int, DOCK_HEIGHT as int, rgb((150, 150, 150)));
    rect_painted(docked, bw, 0, 0, bw as int, 32, rgb((120, 120, 175)))
}

proof fn lemma_rows_fit(bw: nat, bh: nat, top: int, rows: int)
    requires
        0 <= top,
        0 < rows,
        top + rows <= bh,
    ensures
        rect_fits(bw, bw * bh, 0, top, bw as int, rows),
{
    if bw > 0 {
        assert(offset_cell(bw, 0, top, bw - 1, rows - 1) < bw * bh) by (nonlinear_arith)
            requires
                bw > 0,
                top + rows <= bh,
                offset_cell(bw, 0, top, bw - 1, rows - 1) == (rows - 1 + top) * bw + (bw - 1 + 0),
        ;
    }
}

proof fn lemma_cell_unique(bw: nat, x: int, y: int, x2: int, y2: int)
    requires
        0 <= x < bw,
        0 <= x2 < bw,
        0 <= y,
        0 <= y2,
        y * bw + x == y2 * bw + x2,
    ensures
        x == x2,
        y == y2,
{
    if y < y2 {
        assert(y2 * bw >= y * bw + bw) by (nonlinear_arith)
            requires
                y < y2,
                bw >= 0,
        ;
    } else if y2 < y {
        assert(y * bw >= y2 * bw + bw) by (nonlinear_arith)
            requires
                y2 < y,
                bw >= 0,
        ;
    }
}

/// The pixel at column `x < bw`, row `y` belongs to the full-width band of
/// `rows` rows starting at row `top` exactly when `top <= y < top + rows`.
proof fn lemma_band(bw: nat, top: int, rows: int, x: int, y: int)
    requires
        0 <= x < bw,
        0 <= y,
        0 <= top,
    ensures
        in_rect(bw, 0, top, bw as int, rows, cell_index(bw, x, y)) == (top <= y < top + rows),
{
    let i = cell_index(bw, x, y);
    if top <= y < top + rows {
        assert(offset_cell(bw, 0, top, x, y - top) == i);
    }
    if in_rect(bw, 0, top, bw as int, rows, i) {
        let (x1, y1) = choose|x1: int, y1: int|
            0 <= x1 < bw && 0 <= y1 < rows && i == #[trigger] offset_cell(bw, 0, top, x1, y1);
        lemma_cell_unique(bw, x, y, x1 + 0, y1 + top);
    }
}

/// The desktop background, row by row: on a frame `bw` pixels wide and
/// `bh >= DOCK_HEIGHT` rows high, the pixel at column `x`, row `y` is lavender
/// in the top 32 rows, grey in the last `DOCK_HEIGHT` rows below them, and blue
/// in between, whatever the frame showed before.
pub proof fn lemma_desktop_rows(cells: Seq<Pixel>, bw: nat, bh: nat, x: int, y: int)
    requires
        cells.len() == bw * bh,
        bh >= DOCK_HEIGHT,
        0 <= x < bw,
        0 <= y < bh,
    ensures
        0 <= cell_index(bw, x, y) < cells.len(),
        desktop_painted(cells, bw, bh)[cell_index(bw, x, y)] == if y < 32 {
            rgb((120, 120, 175))
        } else if bh - DOCK_HEIGHT <= y {
            rgb((150, 150, 150))
        } else {
            rgb((20, 50, 200))
        },
{
    assert(0 <= y * bw + x < bw * bh) by (nonlinear_arith)
        requires
            0 <= x < bw,
            0 <= y < bh,
    ;
    lemma_band(bw, 0, 32, x, y);
    lemma_band(bw, bh - DOCK_HEIGHT, DOCK_HEIGHT as int, x, y);
    lemma_band(bw, 0, bh as int, x, y);
}

/// Paints the desktop background over the whole frame: blue, a grey dock of
/// `DOCK_HEIGHT` rows along the bottom, and a lavender bar of 32 rows at the top.
pub fn paint_desktop(buffer: &mut Buffer)
    requires
        old(buffer).wf(),
        old(buffer).h() >= DOCK_HEIGHT,
    ensures
        final(buffer).wf(),
        final(buffer).w() == old(buffer).w(),
        final(buffer).h() == old(buffer).h(),
        final(buffer).cells() == desktop_painted(old(buffer).cells(), old(buffer).w(), old(buffer).h()),
        forall|x: int, y: int|
            0 <= x < old(buffer).w() && 0 <= y < old(buffer).h() ==> #[trigger] final(buffer).cells()[cell_index(
                old(buffer).w(),
                x,
                y,
            )] == if y < 32 {
                rgb((120, 120, 175))
            } else if old(buffer).h() - DOCK_HEIGHT <= y {
                rgb((150, 150, 150))
            } else {
                rgb((20, 50, 200))
            },
{
    let ghost cells0 = buffer.cells();
    let width = buffer.width();
    let height = buffer.height();
    proof {
        lemma_rows_fit(buffer.w(), buffer.h(), 0, height as int);
        lemma_rows_fit(buffer.w(), buffer.h(), height - DOCK_HEIGHT, DOCK_HEIGHT as int);
        lemma_rows_fit(buffer.w(), buffer.h(), 0, 32);
    }
    draw_rect(buffer, 0, 0, width, height, (20, 50, 200));
    draw_rect(buffer, 0, height - DOCK_HEIGHT, width, DOCK_HEIGHT, (150, 150, 150));
    draw_rect(buffer, 0, 0, width, 32, (120, 120, 175));
    assert forall|x: int, y: int| 0 <= x < buffer.w() && 0 <= y < buffer.h() implies #[trigger] buffer.cells()[cell_index(
        buffer.w(),
        x,
        y,
    )] == if y < 32 {
        rgb((120, 120, 175))
    } else if buffer.h() - DOCK_HEIGHT <= y {
        rgb((150, 150, 150))
    } else {
        rgb((20, 50, 200))
    } by {
        lemma_desktop_rows(cells0, buffer.w(), buffer.h(), x, y);
    }
}

/// Painting the desktop background covers the whole frame: what it leaves does
/// not depend on what the frame showed before.
pub proof fn lemma_desktop_erases(before: Seq<Pixel>, other: Seq<Pixel>, bw: nat, bh: nat)
    requires
        before.len() == bw * bh,
        other.len() == bw * bh,
    ensures
        desktop_painted(before, bw, bh) == desktop_painted(other, bw, bh),
{
    lemma_full_frame_rect(before, bw, bh, rgb((20, 50, 200)));
    lemma_full_frame_rect(other, bw, bh, rgb((20, 50, 200)));
    assert(rect_painted(before, bw, 0, 0, bw as int, bh as int, rgb((20, 50, 200))) =~= rect_painted(
        other,
        bw,
        0,
        0,
        bw as int,
        bh as int,
        rgb((20, 50, 200)),
    ));
}

} // verus!
