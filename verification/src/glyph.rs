use vstd::prelude::*;
use crate::canvas::{painted, rgb, Buffer, Pixel};
use crate::draw::offset_cell;

verus! {

/// A 16 by 16 character bitmap, row after row; a cell that holds `1` is inked.
pub type Glyph = [[u8; 16]; 16];

/// Cell `(col, row)` of `g` is inked.
pub open spec fn glyph_set(g: Glyph, col: int, row: int) -> bool {
    g[row][col] == 1
}

/// Some cell of `g` is inked.
pub open spec fn glyph_has_ink(g: Glyph) -> bool {
    exists|col: int, row: int| 0 <= col < 16 && 0 <= row < 16 && #[trigger] glyph_set(g, col, row)
}

/// Position `i` is an inked pixel of column `x` among the first `ys` rows of
/// glyph `g` drawn `size` times enlarged with its top-left corner at `(ox, oy)`.
pub open spec fn in_glyph_column(
    width: nat,
    ox: int,
    oy: int,
    g: Glyph,
    size: int,
    x: int,
    ys: int,
    i: int,
) -> bool {
    exists|y: int|
        0 <= y < ys && glyph_set(g, x / size, y / size) && i == #[trigger] offset_cell(
            width,
            ox,
            oy,
            x,
            y,
        )
}

/// Position `i` is an inked pixel of the first `xs` columns of glyph `g` drawn
/// `size` times enlarged with its top-left corner at `(ox, oy)`.
pub open spec fn in_glyph_columns(
    width: nat,
    ox: int,
    oy: int,
    g: Glyph,
    size: int,
    xs: int,
    i: int,
) -> bool {
    exists|x: int, y: int|
        0 <= x < xs && 0 <= y < 16 * size && glyph_set(g, x / size, y / size) && i
            == #[trigger] offset_cell(width, ox, oy, x, y)
}

/// Position `i` is an inked pixel of glyph `g` drawn `size` times enlarged (each
/// cell a `size` by `size` square) with its top-left corner at `(ox, oy)`.
pub open spec fn in_glyph(width: nat, ox: int, oy: int, g: Glyph, size: int, i: int) -> bool {
    in_glyph_columns(width, ox, oy, g, size, 16 * size, i)
}

/// Every inked pixel of glyph `g`, drawn `size` times enlarged at `(ox, oy)`, lies
/// inside a frame of `len` pixels that is `width` wide.
pub open spec fn glyph_fits(width: nat, len: nat, ox: int, oy: int, g: Glyph, size: int) -> bool {
    forall|x: int, y: int|
        0 <= x < 16 * size && 0 <= y < 16 * size && glyph_set(g, x / size, y / size) ==> #[trigger] offset_cell(
            width,
            ox,
            oy,
            x,
            y,
        ) < len
}

/// `cells` after glyph `g`, drawn `size` times enlarged at `(ox, oy)`, is inked
/// in `color`.
pub open spec fn glyph_painted(
    cells: Seq<Pixel>,
    width: nat,
    ox: int,
    oy: int,
    g: Glyph,
    size: int,
    color: Pixel,
) -> Seq<Pixel> {
    painted(cells, |i: int| in_glyph(width, ox, oy, g, size, i), color)
}

/// A pixel offset below `16 * size` lies in one of the 16 glyph cells.
pub(crate) proof fn lemma_cell_of_scaled(v: int, size: int)
    requires
        0 <= v < 16 * size,
        size > 0,
    ensures
        0 <= v / size < 16,
{
    assert(0 <= v / size < 16) by (nonlinear_arith)
        requires
            0 <= v < 16 * size,
            size > 0,
    ;
}

/// Lower bounds of a pixel's position by its coordinates.
pub(crate) proof fn lemma_offset_bounds(width: nat, ox: int, oy: int, x: int, y: int)
    requires
        0 <= ox,
        0 <= oy,
        0 <= x,
        0 <= y,
    ensures
        x + ox <= offset_cell(width, ox, oy, x, y),
        width >= 1 ==> y + oy <= offset_cell(width, ox, oy, x, y),
        width == 0 ==> offset_cell(width, ox, oy, x, y) == x + ox,
{
    assert(0 <= (y + oy) * width) by (nonlinear_arith)
        requires
            0 <= y + oy,
    ;
    assert(width >= 1 ==> y + oy <= (y + oy) * width) by (nonlinear_arith)
        requires
            0 <= y + oy,
    ;
    assert(width == 0 ==> (y + oy) * width == 0) by (nonlinear_arith);
}

/// Inks every inked cell of `glyph`, each drawn as a `size` by `size` square, at
/// the frame position whose top-left corner is `(ox, oy)`, column after column.
fn paint_glyph(buffer: &mut Buffer, glyph: &Glyph, ox: usize, oy: usize, size: usize, color: (u8, u8, u8))
    requires
        old(buffer).wf(),
        16 * size <= usize::MAX,
        glyph_fits(old(buffer).w(), old(buffer).cells().len(), ox as int, oy as int, *glyph, size as int),
    ensures
        final(buffer).wf(),
        final(buffer).w() == old(buffer).w(),
        final(buffer).h() == old(buffer).h(),
        final(buffer).cells() == glyph_painted(
            old(buffer).cells(),
            old(buffer).w(),
            ox as int,
            oy as int,
            *glyph,
            size as int,
            rgb(color),
        ),
{
    let ghost cells0 = buffer.cells();
    let ghost bw = buffer.w();
    let ghost bh = buffer.h();
    let ghost c = rgb(color);
    let ghost g = *glyph;
    let n: usize = 16 * size;
    for x in 0..n
        invariant
            c == rgb(color),
            g == *glyph,
            n == 16 * size,
            buffer.wf(),
            buffer.w() == bw,
            buffer.h() == bh,
            cells0.len() == bw * bh,
            glyph_fits(bw, cells0.len(), ox as int, oy as int, g, size as int),
            buffer.cells().len() == cells0.len(),
            forall|i: int|
                0 <= i < cells0.len() ==> #[trigger] buffer.cells()[i] == (if in_glyph_columns(
                    bw,
                    ox as int,
                    oy as int,
                    g,
                    size as int,
                    x as int,
                    i,
                ) {
                    c
                } else {
                    cells0[i]
                }),
    {
        for y in 0..n
            invariant
                c == rgb(color),
                g == *glyph,
                n == 16 * size,
                x < n,
                buffer.wf(),
                buffer.w() == bw,
                buffer.h() == bh,
                cells0.len() == bw * bh,
                glyph_fits(bw, cells0.len(), ox as int, oy as int, g, size as int),
                buffer.cells().len() == cells0.len(),
                forall|i: int|
                    0 <= i < cells0.len() ==> #[trigger] buffer.cells()[i] == (if in_glyph_columns(
                        bw,
                        ox as int,
                        oy as int,
                        g,
                        size as int,
                        x as int,
                        i,
                    ) || in_glyph_column(bw, ox as int, oy as int, g, size as int, x as int, y as int, i) {
                        c
                    } else {
                        cells0[i]
                    }),
        {
            proof {
                lemma_cell_of_scaled(x as int, size as int);
                lemma_cell_of_scaled(y as int, size as int);
            }
            let inked = glyph[y / size][x / size] == 1;
            let ghost j = offset_cell(bw, ox as int, oy as int, x as int, y as int);
            let ghost before = buffer.cells();
            if inked {
                proof {
                    assert(glyph_set(g, x as int / size as int, y as int / size as int));
                    assert(offset_cell(bw, ox as int, oy as int, x as int, y as int) < cells0.len());
                    lemma_offset_bounds(bw, ox as int, oy as int, x as int, y as int);
                }
                match buffer.pixel(ox + x, oy + y) {
                    Some(p) => {
                        p.red = color.0;
                        p.green = color.1;
                        p.blue = color.2;
                    },
                    None => {},
                }
                assert(buffer.cells() == before.update(j, c));
            }
            assert forall|i: int| 0 <= i < cells0.len() implies #[trigger] buffer.cells()[i] == (if in_glyph_columns(
                bw,
                ox as int,
                oy as int,
                g,
                size as int,
                x as int,
                i,
            ) || in_glyph_column(bw, ox as int, oy as int, g, size as int, x as int, y + 1, i) {
                c
            } else {
                cells0[i]
            }) by {
                let b_new = in_glyph_column(bw, ox as int, oy as int, g, size as int, x as int, y + 1, i);
                let b_old = in_glyph_column(bw, ox as int, oy as int, g, size as int, x as int, y as int, i);
                if b_new {
                    let y1 = choose|y1: int|
                        0 <= y1 < y + 1 && glyph_set(g, x as int / size as int, y1 / size as int) && i == #[trigger] offset_cell(
                            bw,
                            ox as int,
                            oy as int,
                            x as int,
                            y1,
                        );
                    if y1 != y {
                        assert(b_old);
                    }
                }
                if b_old {
                    let y1 = choose|y1: int|
                        0 <= y1 < y && glyph_set(g, x as int / size as int, y1 / size as int) && i == #[trigger] offset_cell(
                            bw,
                            ox as int,
                            oy as int,
                            x as int,
                            y1,
                        );
                    assert(offset_cell(bw, ox as int, oy as int, x as int, y1) == i);
                }
                if inked && i == j {
                    assert(offset_cell(bw, ox as int, oy as int, x as int, y as int) == i);
                }
            }
        }
        assert forall|i: int| 0 <= i < cells0.len() implies #[trigger] buffer.cells()[i] == (if in_glyph_columns(
            bw,
            ox as int,
            oy as int,
            g,
            size as int,
            x + 1,
            i,
        ) {
            c
        } else {
            cells0[i]
        }) by {
            let a = in_glyph_columns(bw, ox as int, oy as int, g, size as int, x as int, i);
            let b = in_glyph_column(bw, ox as int, oy as int, g, size as int, x as int, n as int, i);
            let m = in_glyph_columns(bw, ox as int, oy as int, g, size as int, x + 1, i);
            if b {
                let y1 = choose|y1: int|
                    0 <= y1 < n && glyph_set(g, x as int / size as int, y1 / size as int) && i == #[trigger] offset_cell(
                        bw,
                        ox as int,
                        oy as int,
                        x as int,
                        y1,
                    );
                assert(offset_cell(bw, ox as int, oy as int, x as int, y1) == i);
            }
            if a {
                let (x1, y1) = choose|x1: int, y1: int|
                    0 <= x1 < x && 0 <= y1 < 16 * size && glyph_set(g, x1 / size as int, y1 / size as int) && i
                        == #[trigger] offset_cell(bw, ox as int, oy as int, x1, y1);
                assert(offset_cell(bw, ox as int, oy as int, x1, y1) == i);
            }
            if m {
                let (x1, y1) = choose|x1: int, y1: int|
                    0 <= x1 < x + 1 && 0 <= y1 < 16 * size && glyph_set(g, x1 / size as int, y1 / size as int) && i
                        == #[trigger] offset_cell(bw, ox as int, oy as int, x1, y1);
                assert(offset_cell(bw, ox as int, oy as int, x1, y1) == i);
            }
            assert(m == (a || b));
        }
    }
    assert(buffer.cells() =~= glyph_painted(cells0, bw, ox as int, oy as int, g, size as int, c));
}

/// Inks glyph `font` in `color` with its top-left corner at `(m_x, m_y)`.
pub fn draw_font(buffer: &mut Buffer, font: &Glyph, m_x: usize, m_y: usize, color: (u8, u8, u8))
    requires
        old(buffer).wf(),
        glyph_fits(old(buffer).w(), old(buffer).cells().len(), m_x as int, m_y as int, *font, 1),
    ensures
        final(buffer).wf(),
        final(buffer).w() == old(buffer).w(),
        final(buffer).h() == old(buffer).h(),
        final(buffer).cells() == glyph_painted(
            old(buffer).cells(),
            old(buffer).w(),
            m_x as int,
            m_y as int,
            *font,
            1,
            rgb(color),
        ),
        forall|x: int, y: int|
            0 <= x < 16 && 0 <= y < 16 && font[y][x] == 1 ==> final(buffer).cells()[#[trigger] offset_cell(
                old(buffer).w(),
                m_x as int,
                m_y as int,
                x,
                y,
            )] == rgb(color),
        forall|i: int|
            0 <= i < old(buffer).cells().len() && (forall|x: int, y: int|
                0 <= x < 16 && 0 <= y < 16 && font[y][x] == 1 ==> #[trigger] offset_cell(
                    old(buffer).w(),
                    m_x as int,
                    m_y as int,
                    x,
                    y,
                ) != i) ==> #[trigger] final(buffer).cells()[i] == old(buffer).cells()[i],
{
    let ghost cells0 = buffer.cells();
    let ghost bw = buffer.w();
    paint_glyph(buffer, font, m_x, m_y, 1, color);
    proof {
        lemma_glyph_pixels(cells0, bw, m_x as int, m_y as int, *font, 1, rgb(color));
        assert forall|x: int, y: int|
            0 <= x < 16 && 0 <= y < 16 && font[y][x] == 1 implies buffer.cells()[#[trigger] offset_cell(
            bw,
            m_x as int,
            m_y as int,
            x,
            y,
        )] == rgb(color) by {
            assert(x / 1 == x && y / 1 == y);
            assert(glyph_set(*font, x / 1, y / 1));
            lemma_offset_bounds(bw, m_x as int, m_y as int, x, y);
        }
        assert forall|i: int|
            0 <= i < cells0.len() && (forall|x: int, y: int|
                0 <= x < 16 && 0 <= y < 16 && font[y][x] == 1 ==> #[trigger] offset_cell(
                    bw,
                    m_x as int,
                    m_y as int,
                    x,
                    y,
                ) != i) implies #[trigger] buffer.cells()[i] == cells0[i] by {
            assert forall|x: int, y: int|
                0 <= x < 16 * 1 && 0 <= y < 16 * 1 && font[y / 1][x / 1] == 1 implies #[trigger] offset_cell(
                bw,
                m_x as int,
                m_y as int,
                x,
                y,
            ) != i by {
                assert(x / 1 == x && y / 1 == y);
            }
        }
    }
}

/// A glyph fits in the frame exactly when every pixel that an inked cell
/// reaches does: the pixel at offset `(x, y)`, for `x, y < 16 * size`, whose
/// bitmap row `y / size`, column `x / size` holds `1`, lies before `len`.
pub proof fn lemma_glyph_fits_cells(width: nat, len: nat, ox: int, oy: int, g: Glyph, size: int)
    ensures
        glyph_fits(width, len, ox, oy, g, size) == (forall|x: int, y: int|
            0 <= x < 16 * size && 0 <= y < 16 * size && g[y / size][x / size] == 1 ==> #[trigger] offset_cell(
                width,
                ox,
                oy,
                x,
                y,
            ) < len),
        glyph_has_ink(g) == (exists|c: int, r: int| 0 <= c < 16 && 0 <= r < 16 && #[trigger] g[r][c] == 1),
{
    if glyph_has_ink(g) {
        let (c, r) = choose|c: int, r: int| 0 <= c < 16 && 0 <= r < 16 && #[trigger] glyph_set(g, c, r);
        assert(g[r][c] == 1);
    }
    if exists|c: int, r: int| 0 <= c < 16 && 0 <= r < 16 && #[trigger] g[r][c] == 1 {
        let (c, r) = choose|c: int, r: int| 0 <= c < 16 && 0 <= r < 16 && #[trigger] g[r][c] == 1;
        assert(glyph_set(g, c, r));
    }
}

/// What drawing a glyph does to each pixel: the pixel at offset `(x, y)` from
/// `(ox, oy)`, for `x, y < 16 * size`, takes `color` when the bitmap's row
/// `y / size`, column `x / size` holds `1` and the pixel lies in the frame; a
/// pixel that no such inked offset reaches keeps its value.
pub proof fn lemma_glyph_pixels(cells: Seq<Pixel>, width: nat, ox: int, oy: int, g: Glyph, size: int, color: Pixel)
    requires
        size > 0,
    ensures
        glyph_painted(cells, width, ox, oy, g, size, color).len() == cells.len(),
        forall|x: int, y: int|
            0 <= x < 16 * size && 0 <= y < 16 * size && g[y / size][x / size] == 1 && 0
                <= #[trigger] offset_cell(width, ox, oy, x, y) < cells.len() ==> glyph_painted(
                cells,
                width,
                ox,
                oy,
                g,
                size,
                color,
            )[offset_cell(width, ox, oy, x, y)] == color,
        forall|i: int|
            0 <= i < cells.len() && (forall|x: int, y: int|
                0 <= x < 16 * size && 0 <= y < 16 * size && g[y / size][x / size] == 1
                    ==> #[trigger] offset_cell(width, ox, oy, x, y) != i) ==> #[trigger] glyph_painted(
                cells,
                width,
                ox,
                oy,
                g,
                size,
                color,
            )[i] == cells[i],
{
    assert forall|x: int, y: int|
        0 <= x < 16 * size && 0 <= y < 16 * size && g[y / size][x / size] == 1 && 0
            <= #[trigger] offset_cell(width, ox, oy, x, y) < cells.len() implies glyph_painted(
        cells,
        width,
        ox,
        oy,
        g,
        size,
        color,
    )[offset_cell(width, ox, oy, x, y)] == color by {
        assert(glyph_set(g, x / size, y / size));
        assert(in_glyph(width, ox, oy, g, size, offset_cell(width, ox, oy, x, y)));
    }
    assert forall|i: int|
        0 <= i < cells.len() && (forall|x: int, y: int|
            0 <= x < 16 * size && 0 <= y < 16 * size && g[y / size][x / size] == 1
                ==> #[trigger] offset_cell(width, ox, oy, x, y) != i) implies #[trigger] glyph_painted(
        cells,
        width,
        ox,
        oy,
        g,
        size,
        color,
    )[i] == cells[i] by {
        if in_glyph(width, ox, oy, g, size, i) {
            let (x, y) = choose|x: int, y: int|
                0 <= x < 16 * size && 0 <= y < 16 * size && glyph_set(g, x / size, y / size) && i
                    == #[trigger] offset_cell(width, ox, oy, x, y);
            assert(g[y / size][x / size] == 1);
        }
    }
}

/// What drawing a word does to each pixel: the `k`-th glyph starts
/// `(16 - thin) * k * size` pixels right of `(px, py)`, and the pixel at offset
/// `(x, y)` from that start, for `x, y < 16 * size`, takes `color` when row
/// `y / size`, column `x / size` of the glyph's bitmap holds `1` and the pixel
/// lies in the frame; a pixel that no such inked offset reaches keeps its value.
pub proof fn lemma_word_pixels(
    cells: Seq<Pixel>,
    width: nat,
    px: int,
    py: int,
    word: Seq<Glyph>,
    size: int,
    thin: int,
    color: Pixel,
)
    requires
        size > 0,
    ensures
        word_painted(cells, width, px, py, word, size, thin, color).len() == cells.len(),
        forall|k: int|
            #![trigger word[k]]
            0 <= k < word.len() ==> forall|x: int, y: int|
                0 <= x < 16 * size && 0 <= y < 16 * size && word[k][y / size][x / size] == 1 && 0
                    <= #[trigger] offset_cell(width, px + (16 - thin) * k * size, py, x, y) < cells.len()
                    ==> word_painted(cells, width, px, py, word, size, thin, color)[offset_cell(
                    width,
                    px + (16 - thin) * k * size,
                    py,
                    x,
                    y,
                )] == color,
        forall|i: int|
            0 <= i < cells.len() && (forall|k: int, x: int, y: int|
                0 <= k < word.len() && 0 <= x < 16 * size && 0 <= y < 16 * size && word[k][y / size][x
                    / size] == 1 ==> #[trigger] offset_cell(width, px + (16 - thin) * k * size, py, x, y)
                    != i) ==> #[trigger] word_painted(cells, width, px, py, word, size, thin, color)[i]
                == cells[i],
{
    assert forall|k: int| #![trigger word[k]] 0 <= k < word.len() implies forall|x: int, y: int|
        0 <= x < 16 * size && 0 <= y < 16 * size && word[k][y / size][x / size] == 1 && 0
            <= #[trigger] offset_cell(width, px + (16 - thin) * k * size, py, x, y) < cells.len()
            ==> word_painted(cells, width, px, py, word, size, thin, color)[offset_cell(
            width,
            px + (16 - thin) * k * size,
            py,
            x,
            y,
        )] == color by {
        let ox = word_origin(px, thin, size, k);
        assert forall|x: int, y: int|
            0 <= x < 16 * size && 0 <= y < 16 * size && word[k][y / size][x / size] == 1 && 0
                <= #[trigger] offset_cell(width, px + (16 - thin) * k * size, py, x, y) < cells.len()
                implies word_painted(cells, width, px, py, word, size, thin, color)[offset_cell(
            width,
            px + (16 - thin) * k * size,
            py,
            x,
            y,
        )] == color by {
            let i = offset_cell(width, px + (16 - thin) * k * size, py, x, y);
            assert(glyph_set(word[k], x / size, y / size));
            assert(i == offset_cell(width, ox, py, x, y));
            assert(in_glyph(width, ox, py, word[k], size, i));
            assert(in_word(width, px, py, word, size, thin, i));
        }
    }
    assert forall|i: int|
        0 <= i < cells.len() && (forall|k: int, x: int, y: int|
            0 <= k < word.len() && 0 <= x < 16 * size && 0 <= y < 16 * size && word[k][y / size][x / size]
                == 1 ==> #[trigger] offset_cell(width, px + (16 - thin) * k * size, py, x, y) != i)
            implies #[trigger] word_painted(cells, width, px, py, word, size, thin, color)[i] == cells[i] by {
        if in_word(width, px, py, word, size, thin, i) {
            let k = choose|k: int|
                0 <= k < word.len() && #[trigger] in_glyph(width, word_origin(px, thin, size, k), py, word[k], size, i);
            let ox = word_origin(px, thin, size, k);
            let (x, y) = choose|x: int, y: int|
                0 <= x < 16 * size && 0 <= y < 16 * size && glyph_set(word[k], x / size, y / size) && i
                    == #[trigger] offset_cell(width, ox, py, x, y);
            assert(word[k][y / size][x / size] == 1);
            assert(offset_cell(width, px + (16 - thin) * k * size, py, x, y) == i);
        }
    }
}

/// Column at which the `k`-th glyph of a word starts: glyphs are `16 - thin`
/// cells apart, each cell `size` pixels wide.
pub open spec fn word_origin(px: int, thin: int, size: int, k: int) -> int {
    px + (16 - thin) * k * size
}

/// Position `i` is an inked pixel of one of the first `n` glyphs of `word`, drawn
/// `size` times enlarged and `16 - thin` cells apart, starting at `(px, py)`.
pub open spec fn in_word_prefix(
    width: nat,
    px: int,
    py: int,
    word: Seq<Glyph>,
    size: int,
    thin: int,
    n: int,
    i: int,
) -> bool {
    exists|k: int|
        0 <= k < n && #[trigger] in_glyph(width, word_origin(px, thin, size, k), py, word[k], size, i)
}

/// Position `i` is an inked pixel of the word `word` drawn `size` times enlarged,
/// glyphs `16 - thin` cells apart, starting at `(px, py)`.
pub open spec fn in_word(width: nat, px: int, py: int, word: Seq<Glyph>, size: int, thin: int, i: int) -> bool {
    in_word_prefix(width, px, py, word, size, thin, word.len() as int, i)
}

/// `cells` after `word` is inked in `color`.
pub open spec fn word_painted(
    cells: Seq<Pixel>,
    width: nat,
    px: int,
    py: int,
    word: Seq<Glyph>,
    size: int,
    thin: int,
    color: Pixel,
) -> Seq<Pixel> {
    painted(cells, |i: int| in_word(width, px, py, word, size, thin, i), color)
}

/// The word `word` can be drawn without fault: every inked pixel lies inside a
/// frame of `len` pixels that is `width` wide, the enlarged glyph side fits in a
/// `usize`, and glyphs do not overlap by more than their width.
pub open spec fn word_fits(width: nat, len: nat, px: int, py: int, word: Seq<Glyph>, size: int, thin: int) -> bool {
    &&& word.len() > 0 ==> 16 * size <= usize::MAX
    &&& size == 0 || thin <= 16 || (forall|k: int| 0 <= k < word.len() ==> !glyph_has_ink(#[trigger] word[k]))
    &&& forall|k: int|
        0 <= k < word.len() ==> #[trigger] glyph_fits(width, len, word_origin(px, thin, size, k), py, word[k], size)
}

proof fn lemma_no_ink_nothing_covered(width: nat, len: nat, ox: int, oy: int, g: Glyph, size: int)
    requires
        0 <= oy,
        size == 0 || !glyph_has_ink(g) || (ox > usize::MAX && glyph_fits(width, len, ox, oy, g, size) && len <= usize::MAX),
    ensures
        forall|i: int| !in_glyph(width, ox, oy, g, size, i),
{
    assert forall|i: int| !in_glyph(width, ox, oy, g, size, i) by {
        if in_glyph(width, ox, oy, g, size, i) {
            let (x, y) = choose|x: int, y: int|
                0 <= x < 16 * size && 0 <= y < 16 * size && glyph_set(g, x / size, y / size) && i
                    == #[trigger] offset_cell(width, ox, oy, x, y);
            if size != 0 {
                lemma_cell_of_scaled(x, size);
                lemma_cell_of_scaled(y, size);
                assert(glyph_set(g, x / size, y / size));
                if ox > usize::MAX {
                    assert(offset_cell(width, ox, oy, x, y) < len);
                    lemma_offset_bounds(width, ox, oy, x, y);
                }
            } else {
                assert(16 * size == 0);
            }
        }
    }
}

/// Inks the glyphs of `word`, one per character, in `color`: each glyph cell is
/// drawn as a `size` by `size` square, and the `k`-th glyph starts
/// `(16 - thin) * k * size` pixels right of `(p_x, p_y)`.
pub fn draw_word(
    buffer: &mut Buffer,
    word: &[Glyph],
    p_x: usize,
    p_y: usize,
    color: (u8, u8, u8),
    size: usize,
    thin: usize,
)
    requires
        old(buffer).wf(),
        word_fits(old(buffer).w(), old(buffer).cells().len(), p_x as int, p_y as int, word@, size as int, thin as int),
    ensures
        final(buffer).wf(),
        final(buffer).w() == old(buffer).w(),
        final(buffer).h() == old(buffer).h(),
        final(buffer).cells() == word_painted(
            old(buffer).cells(),
            old(buffer).w(),
            p_x as int,
            p_y as int,
            word@,
            size as int,
            thin as int,
            rgb(color),
        ),
        forall|k: int|
            #![trigger word@[k]]
            0 <= k < word@.len() ==> forall|x: int, y: int|
                0 <= x < 16 * size && 0 <= y < 16 * size && word@[k][y / size as int][x / size as int] == 1
                    ==> final(buffer).cells()[#[trigger] offset_cell(
                    old(buffer).w(),
                    p_x + (16 - thin) * k * size,
                    p_y as int,
                    x,
                    y,
                )] == rgb(color),
        forall|i: int|
            0 <= i < old(buffer).cells().len() && (forall|k: int, x: int, y: int|
                0 <= k < word@.len() && 0 <= x < 16 * size && 0 <= y < 16 * size && word@[k][y
                    / size as int][x / size as int] == 1 ==> #[trigger] offset_cell(
                    old(buffer).w(),
                    p_x + (16 - thin) * k * size,
                    p_y as int,
                    x,
                    y,
                ) != i) ==> #[trigger] final(buffer).cells()[i] == old(buffer).cells()[i],
{
    proof {
        if size > 0 {
            lemma_word_pixels(
                old(buffer).cells(),
                old(buffer).w(),
                p_x as int,
                p_y as int,
                word@,
                size as int,
                thin as int,
                rgb(color),
            );
            let bw = old(buffer).w();
            let len = old(buffer).cells().len();
            assert forall|k: int| #![trigger word@[k]] 0 <= k < word@.len() implies forall|x: int, y: int|
                0 <= x < 16 * size && 0 <= y < 16 * size && word@[k][y / size as int][x / size as int] == 1
                    ==> 0 <= #[trigger] offset_cell(bw, p_x + (16 - thin) * k * size, p_y as int, x, y)
                    < len by {
                assert forall|x: int, y: int|
                    0 <= x < 16 * size && 0 <= y < 16 * size && word@[k][y / size as int][x / size as int]
                        == 1 implies 0 <= #[trigger] offset_cell(
                    bw,
                    p_x + (16 - thin) * k * size,
                    p_y as int,
                    x,
                    y,
                ) < len by {
                    let ox = word_origin(p_x as int, thin as int, size as int, k);
                    assert(glyph_fits(bw, len, ox, p_y as int, word@[k], size as int));
                    assert(glyph_set(word@[k], x / size as int, y / size as int));
                    assert(offset_cell(bw, ox, p_y as int, x, y) < len);
                    if thin > 16 {
                        lemma_cell_of_scaled(x, size as int);
                        lemma_cell_of_scaled(y, size as int);
                        assert(glyph_has_ink(word@[k]));
                    }
                    lemma_offset_bounds(bw, ox, p_y as int, x, y);
                }
            }
        }
    }
    let ghost cells0 = buffer.cells();
    let ghost bw = buffer.w();
    let ghost bh = buffer.h();
    let ghost c = rgb(color);
    let mut count: usize = 0;
    while count < word.len()
        invariant
            c == rgb(color),
            count <= word.len(),
            buffer.wf(),
            buffer.w() == bw,
            buffer.h() == bh,
            cells0.len() == bw * bh,
            word_fits(bw, cells0.len(), p_x as int, p_y as int, word@, size as int, thin as int),
            buffer.cells() == painted(
                cells0,
                |i: int| in_word_prefix(bw, p_x as int, p_y as int, word@, size as int, thin as int, count as int, i),
                c,
            ),
        decreases word.len() - count,
    {
        let ghost before = buffer.cells();
        let ghost k = count as int;
        let ghost ox = word_origin(p_x as int, thin as int, size as int, k);
        let mut origin: Option<usize> = None;
        if size > 0 && thin <= 16 {
            let step: usize = 16 - thin;
            match step.checked_mul(count) {
                Some(a) => match a.checked_mul(size) {
                    Some(b) => match p_x.checked_add(b) {
                        Some(o) => {
                            origin = Some(o);
                        },
                        None => {},
                    },
                    None => {},
                },
                None => {
                    assert((16 - thin) * k * size >= (16 - thin) * k) by (nonlinear_arith)
                        requires
                            size >= 1,
                            (16 - thin) * k >= 0,
                    ;
                },
            }
        }
        match origin {
            Some(o) => {
                assert(o == ox);
                paint_glyph(buffer, &word[count], o, p_y, size, color);
            },
            None => {
                proof {
                    lemma_no_ink_nothing_covered(bw, cells0.len(), ox, p_y as int, word@[k], size as int);
                    assert(buffer.cells() =~= glyph_painted(before, bw, ox, p_y as int, word@[k], size as int, c));
                }
            },
        }
        assert(buffer.cells() == glyph_painted(before, bw, ox, p_y as int, word@[k], size as int, c));
        count = count + 1;
        proof {
            assert forall|i: int| 0 <= i < cells0.len() implies
                #[trigger] in_word_prefix(bw, p_x as int, p_y as int, word@, size as int, thin as int, count as int, i)
                == (in_word_prefix(bw, p_x as int, p_y as int, word@, size as int, thin as int, k, i)
                || in_glyph(bw, ox, p_y as int, word@[k], size as int, i)) by {
                if in_word_prefix(bw, p_x as int, p_y as int, word@, size as int, thin as int, count as int, i) {
                    let k1 = choose|k1: int|
                        0 <= k1 < count && #[trigger] in_glyph(
                            bw,
                            word_origin(p_x as int, thin as int, size as int, k1),
                            p_y as int,
                            word@[k1],
                            size as int,
                            i,
                        );
                    if k1 < k {
                        assert(in_word_prefix(bw, p_x as int, p_y as int, word@, size as int, thin as int, k, i));
                    }
                }
            }
            assert(buffer.cells() =~= painted(
                cells0,
                |i: int| in_word_prefix(bw, p_x as int, p_y as int, word@, size as int, thin as int, count as int, i),
                c,
            ));
        }
    }
    proof {
        if size == 0 {
            assert forall|i: int| 0 <= i < cells0.len() implies #[trigger] buffer.cells()[i] == cells0[i] by {
                if in_word(bw, p_x as int, p_y as int, word@, size as int, thin as int, i) {
                    let k = choose|k: int|
                        0 <= k < word@.len() && #[trigger] in_glyph(
                            bw,
                            word_origin(p_x as int, thin as int, size as int, k),
                            p_y as int,
                            word@[k],
                            size as int,
                            i,
                        );
                    assert(16 * size == 0);
                }
            }
        }
    }
}

} // verus!
