use vstd::prelude::*;
use crate::canvas::Buffer;
use crate::draw::{offset_cell, rect_fits};
use crate::glyph::{glyph_fits, glyph_has_ink, glyph_set, lemma_cell_of_scaled, lemma_glyph_fits_cells, lemma_offset_bounds, word_fits, word_origin, Glyph};
use crate::line::{fits_i32, i32_of, line_columns_fit, line_fits, line_offset, line_row, line_slope};
use crate::window::{window_fits, WindowIcons};

verus! {

/// Whether the pixel at offset `(x, y)` from `(ox, oy)` lies inside the frame.
fn offset_fits(buffer: &Buffer, ox: usize, oy: usize, x: usize, y: usize) -> (r: bool)
    requires
        buffer.wf(),
    ensures
        r == (offset_cell(buffer.w(), ox as int, oy as int, x as int, y as int) < buffer.cells().len()),
{
    let len = buffer.pixels().len();
    let width = buffer.width();
    proof {
        lemma_offset_bounds(buffer.w(), ox as int, oy as int, x as int, y as int);
        if len > 0 {
            assert(width >= 1) by (nonlinear_arith)
                requires
                    len == width * buffer.h(),
                    len > 0,
            ;
        }
    }
    if len == 0 {
        return false;
    }
    match x.checked_add(ox) {
        None => false,
        Some(col) => match y.checked_add(oy) {
            None => false,
            Some(row) => match row.checked_mul(width) {
                None => false,
                Some(start) => match start.checked_add(col) {
                    None => false,
                    Some(i) => i < len,
                },
            },
        },
    }
}

/// Whether the `width` by `height` rectangle at `(p_x, p_y)` lies inside the
/// frame, so that `draw_rect` may paint it.
pub fn rect_fits_in(buffer: &Buffer, p_x: usize, p_y: usize, width: usize, height: usize) -> (r: bool)
    requires
        buffer.wf(),
    ensures
        r == rect_fits(buffer.w(), buffer.cells().len(), p_x as int, p_y as int, width as int, height as int),
{
    if width == 0 || height == 0 {
        true
    } else {
        offset_fits(buffer, p_x, p_y, width - 1, height - 1)
    }
}

/// Whether some cell of `glyph` is inked.
pub fn glyph_ink(glyph: &Glyph) -> (r: bool)
    ensures
        r == glyph_has_ink(*glyph),
        r == (exists|c: int, r: int| 0 <= c < 16 && 0 <= r < 16 && #[trigger] glyph[r][c] == 1),
{
    proof {
        lemma_glyph_fits_cells(0, 0, 0, 0, *glyph, 1);
    }
    for row in 0..16usize
        invariant
            forall|c: int, r: int| 0 <= c < 16 && 0 <= r < row ==> !#[trigger] glyph_set(*glyph, c, r),
    {
        for col in 0..16usize
            invariant
                row < 16,
                forall|c: int, r: int| 0 <= c < 16 && 0 <= r < row ==> !#[trigger] glyph_set(*glyph, c, r),
                forall|c: int| 0 <= c < col ==> !#[trigger] glyph_set(*glyph, c, row as int),
        {
            if glyph[row][col] == 1 {
                assert(glyph_set(*glyph, col as int, row as int));
                return true;
            }
        }
    }
    false
}

/// Whether every inked pixel of `glyph`, drawn `size` times enlarged at
/// `(ox, oy)`, lies inside the frame.
pub fn glyph_fits_in(buffer: &Buffer, glyph: &Glyph, ox: usize, oy: usize, size: usize) -> (r: bool)
    requires
        buffer.wf(),
        16 * size <= usize::MAX,
    ensures
        r == glyph_fits(buffer.w(), buffer.cells().len(), ox as int, oy as int, *glyph, size as int),
        r == (forall|x: int, y: int|
            0 <= x < 16 * size && 0 <= y < 16 * size && glyph[y / size as int][x / size as int] == 1
                ==> #[trigger] offset_cell(buffer.w(), ox as int, oy as int, x, y) < buffer.cells().len()),
{
    proof {
        lemma_glyph_fits_cells(buffer.w(), buffer.cells().len(), ox as int, oy as int, *glyph, size as int);
    }
    let ghost g = *glyph;
    let ghost bw = buffer.w();
    let ghost len = buffer.cells().len();
    let ghost sz = size as int;
    let n: usize = 16 * size;
    for x in 0..n
        invariant
            n == 16 * size,
            buffer.wf(),
            g == *glyph,
            bw == buffer.w(),
            len == buffer.cells().len(),
            sz == size,
            forall|x1: int, y1: int|
                0 <= x1 < x && 0 <= y1 < 16 * sz && glyph_set(g, x1 / sz, y1 / sz) ==> #[trigger] offset_cell(
                    bw,
                    ox as int,
                    oy as int,
                    x1,
                    y1,
                ) < len,
    {
        for y in 0..n
            invariant
                n == 16 * size,
                x < n,
                buffer.wf(),
                g == *glyph,
                bw == buffer.w(),
                len == buffer.cells().len(),
                sz == size,
                forall|x1: int, y1: int|
                    0 <= x1 < x && 0 <= y1 < 16 * sz && glyph_set(g, x1 / sz, y1 / sz) ==> #[trigger] offset_cell(
                        bw,
                        ox as int,
                        oy as int,
                        x1,
                        y1,
                    ) < len,
                forall|y1: int|
                    0 <= y1 < y && glyph_set(g, x as int / sz, y1 / sz) ==> #[trigger] offset_cell(
                        bw,
                        ox as int,
                        oy as int,
                        x as int,
                        y1,
                    ) < len,
        {
            assert(0 <= x / size < 16 && 0 <= y / size < 16) by (nonlinear_arith)
                requires
                    x < 16 * size,
                    y < 16 * size,
                    size > 0,
            ;
            if glyph[y / size][x / size] == 1 && !offset_fits(buffer, ox, oy, x, y) {
                assert(glyph_set(g, x as int / sz, y as int / sz));
                return false;
            }
        }
    }
    true
}

/// A glyph without ink fits anywhere.
proof fn lemma_inkless_fits(width: nat, len: nat, ox: int, oy: int, g: Glyph, size: int)
    requires
        size == 0 || !glyph_has_ink(g),
    ensures
        glyph_fits(width, len, ox, oy, g, size),
{
    assert forall|x: int, y: int|
        0 <= x < 16 * size && 0 <= y < 16 * size && glyph_set(g, x / size, y / size) implies #[trigger] offset_cell(
        width,
        ox,
        oy,
        x,
        y,
    ) < len by {
        if size != 0 {
            lemma_cell_of_scaled(x, size);
            lemma_cell_of_scaled(y, size);
            assert(glyph_set(g, x / size, y / size));
        }
    }
}

/// A glyph with ink does not fit when it starts past the last `usize`.
proof fn lemma_inked_beyond(width: nat, len: nat, ox: int, oy: int, g: Glyph, size: int)
    requires
        size > 0,
        glyph_has_ink(g),
        ox > usize::MAX,
        len <= usize::MAX,
        oy >= 0,
    ensures
        !glyph_fits(width, len, ox, oy, g, size),
{
    let (c, r) = choose|c: int, r: int| 0 <= c < 16 && 0 <= r < 16 && #[trigger] glyph_set(g, c, r);
    let x = c * size;
    let y = r * size;
    assert(x / size == c && y / size == r && 0 <= x < 16 * size && 0 <= y < 16 * size) by (nonlinear_arith)
        requires
            x == c * size,
            y == r * size,
            0 <= c < 16,
            0 <= r < 16,
            size > 0,
    ;
    lemma_offset_bounds(width, ox, oy, x, y);
}

/// Whether `draw_word` may draw `word` at `(p_x, p_y)` enlarged `size` times with
/// glyphs `16 - thin` cells apart.
pub fn word_fits_in(buffer: &Buffer, word: &[Glyph], p_x: usize, p_y: usize, size: usize, thin: usize) -> (r: bool)
    requires
        buffer.wf(),
    ensures
        r == word_fits(buffer.w(), buffer.cells().len(), p_x as int, p_y as int, word@, size as int, thin as int),
{
    let ghost bw = buffer.w();
    let ghost len = buffer.cells().len();
    let n = word.len();
    if n == 0 {
        return true;
    }
    if size > usize::MAX / 16 {
        return false;
    }
    if size == 0 {
        proof {
            assert forall|k: int| 0 <= k < word@.len() implies #[trigger] glyph_fits(
                bw,
                len,
                word_origin(p_x as int, thin as int, size as int, k),
                p_y as int,
                word@[k],
                size as int,
            ) by {
                lemma_inkless_fits(bw, len, word_origin(p_x as int, thin as int, size as int, k), p_y as int, word@[k], size as int);
            }
        }
        return true;
    }
    if thin > 16 {
        for k in 0..n
            invariant
                n == word@.len(),
                size > 0,
                thin > 16,
                forall|j: int| 0 <= j < k ==> !glyph_has_ink(#[trigger] word@[j]),
        {
            if glyph_ink(&word[k]) {
                assert(glyph_has_ink(word@[k as int]));
                return false;
            }
        }
        proof {
            assert forall|k: int| 0 <= k < word@.len() implies #[trigger] glyph_fits(
                bw,
                len,
                word_origin(p_x as int, thin as int, size as int, k),
                p_y as int,
                word@[k],
                size as int,
            ) by {
                lemma_inkless_fits(bw, len, word_origin(p_x as int, thin as int, size as int, k), p_y as int, word@[k], size as int);
            }
        }
        return true;
    }
    let step: usize = 16 - thin;
    for k in 0..n
        invariant
            n == word@.len(),
            buffer.wf(),
            bw == buffer.w(),
            len == buffer.cells().len(),
            0 < size <= usize::MAX / 16,
            thin <= 16,
            step == 16 - thin,
            forall|j: int|
                0 <= j < k ==> #[trigger] glyph_fits(
                    bw,
                    len,
                    word_origin(p_x as int, thin as int, size as int, j),
                    p_y as int,
                    word@[j],
                    size as int,
                ),
    {
        let ghost ox = word_origin(p_x as int, thin as int, size as int, k as int);
        let mut origin: Option<usize> = None;
        match step.checked_mul(k) {
            Some(a) => match a.checked_mul(size) {
                Some(b) => match p_x.checked_add(b) {
                    Some(o) => {
                        origin = Some(o);
                    },
                    None => {},
                },
                None => {},
            },
            None => {
                assert(step * k * size >= step * k) by (nonlinear_arith)
                    requires
                        size >= 1,
                        step * k >= 0,
                ;
            },
        }
        match origin {
            Some(o) => {
                assert(o == ox);
                if !glyph_fits_in(buffer, &word[k], o, p_y, size) {
                    return false;
                }
            },
            None => {
                assert(ox > usize::MAX);
                if glyph_ink(&word[k]) {
                    proof {
                        lemma_inked_beyond(bw, len, ox, p_y as int, word@[k as int], size as int);
                    }
                    return false;
                }
                proof {
                    lemma_inkless_fits(bw, len, ox, p_y as int, word@[k as int], size as int);
                }
            },
        }
    }
    true
}

/// Whether `v`, an `i64`, lies in the range of `i32`.
fn in_i32(v: i64) -> (r: bool)
    ensures
        r == fits_i32(v as int),
{
    -2147483648 <= v && v <= 2147483647
}

/// Whether `draw_line` may draw the line from `pos1` to `pos2`.
pub fn line_fits_in(buffer: &Buffer, pos1: (u32, u32), pos2: (u32, u32)) -> (r: bool)
    requires
        buffer.wf(),
    ensures
        r == line_fits(buffer.w(), buffer.cells().len(), pos1, pos2),
{
    let ghost bw = buffer.w();
    let ghost len = buffer.cells().len();
    if pos1.1 > pos2.1 || pos1.0 >= pos2.0 {
        return false;
    }
    let slope_u: u32 = (pos2.1 - pos1.1) / (pos2.0 - pos1.0);
    if slope_u > 2147483647 {
        return false;
    }
    let slope: i64 = slope_u as i64;
    let x0: i64 = wide_i32(pos1.0);
    let y0: i64 = wide_i32(pos1.1);
    assert(-2147483648 * 2147483647 <= slope * x0 <= 2147483647 * 2147483647) by (nonlinear_arith)
        requires
            0 <= slope <= 2147483647,
            -2147483648 <= x0 <= 2147483647,
    ;
    let first: i64 = slope * x0;
    if !in_i32(first) {
        return false;
    }
    let offset: i64 = y0 - first;
    if !in_i32(offset) {
        return false;
    }
    assert(slope == line_slope(pos1, pos2));
    assert(offset == line_offset(pos1, pos2));
    for x in pos1.0..pos2.0
        invariant
            buffer.wf(),
            bw == buffer.w(),
            len == buffer.cells().len(),
            slope == line_slope(pos1, pos2),
            0 <= slope <= 2147483647,
            offset == line_offset(pos1, pos2),
            fits_i32(offset as int),
            line_columns_fit(bw, len, pos1, pos2, x as int),
    {
        // Mentioning the row of column `x` lets the prover use what the frame
        // requires of that column when a check below fails.
        let ghost row_of_x = line_row(pos1, pos2, x);
        let wx: i64 = wide_i32(x);
        assert(-2147483648 * 2147483647 <= slope * wx <= 2147483647 * 2147483647) by (nonlinear_arith)
            requires
                0 <= slope <= 2147483647,
                -2147483648 <= wx <= 2147483647,
        ;
        let product: i64 = slope * wx;
        if !in_i32(product) {
            return false;
        }
        let row: i64 = product + offset;
        assert(row == line_row(pos1, pos2, x));
        if !in_i32(row) || row < 0 {
            return false;
        }
        let col_index: usize = x as usize;
        let row_index: usize = row as usize;
        assert(col_index == x && row_index == row);
        let fits = offset_fits(buffer, 0, 0, col_index, row_index);
        assert(offset_cell(bw, 0, 0, x as int, row as int) == crate::canvas::cell_index(bw, x as int, row as int));
        if !fits {
            return false;
        }
        proof {
            crate::line::lemma_line_columns_extend(bw, len, pos1, pos2, x);
        }
    }
    true
}

/// The `i32` that `v as i32` gives, widened to `i64`.
fn wide_i32(v: u32) -> (r: i64)
    ensures
        r == i32_of(v),
{
    if v <= 2147483647 {
        v as i64
    } else {
        v as i64 - 4294967296
    }
}

/// Whether `draw_window` may draw the window with these arguments.
pub fn window_fits_in(
    buffer: &Buffer,
    title: &[Glyph],
    icons: &WindowIcons,
    p_x: usize,
    p_y: usize,
    width: usize,
    height: usize,
    border: usize,
) -> (r: bool)
    requires
        buffer.wf(),
    ensures
        r == window_fits(
            buffer.w(),
            buffer.cells().len(),
            title@,
            *icons,
            p_x as int,
            p_y as int,
            width as int,
            height as int,
            border as int,
        ),
{
    if border > p_x || border > p_y {
        return false;
    }
    let frame = match border.checked_mul(2) {
        Some(f) => f,
        None => {
            return false;
        },
    };
    let outer_w = match width.checked_add(frame) {
        Some(v) => v,
        None => {
            return false;
        },
    };
    let outer_h = match height.checked_add(frame) {
        Some(v) => v,
        None => {
            return false;
        },
    };
    if p_x > usize::MAX - 5 || p_y > usize::MAX - 25 {
        return false;
    }
    let right = match p_x.checked_add(width) {
        Some(v) => v,
        None => {
            return false;
        },
    };
    if right < 68 {
        return false;
    }
    rect_fits_in(buffer, p_x - border, p_y - border, outer_w, outer_h)
        && rect_fits_in(buffer, p_x, p_y, width, height)
        && word_fits_in(buffer, title, p_x + 5, p_y + 5, 1, 4)
        && rect_fits_in(buffer, p_x, p_y + 25, width, 2)
        && glyph_fits_in(buffer, &icons.min, right - 68, p_y + 5, 1)
        && glyph_fits_in(buffer, &icons.max, right - 42, p_y + 5, 1)
        && glyph_fits_in(buffer, &icons.close, right - 20, p_y + 5, 1)
}

} // verus!
