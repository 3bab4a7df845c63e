use vstd::prelude::*;
use crate::canvas::{cell_index, painted, rgb, Buffer, Pixel};

verus! {

/// Position of the pixel at offset `(x, y)` from the corner `(px, py)`.
pub open spec fn offset_cell(width: nat, px: int, py: int, x: int, y: int) -> int {
    cell_index(width, x + px, y + py)
}

/// Position `i` is one of the pixels of the `w` by `h` rectangle whose top-left
/// corner is `(px, py)`.
pub open spec fn in_rect(width: nat, px: int, py: int, w: int, h: int, i: int) -> bool {
    exists|x: int, y: int|
        0 <= x < w && 0 <= y < h && i == #[trigger] offset_cell(width, px, py, x, y)
}

/// `cells` after the `w` by `h` rectangle at `(px, py)` is painted `color`.
pub open spec fn rect_painted(
    cells: Seq<Pixel>,
    width: nat,
    px: int,
    py: int,
    w: int,
    h: int,
    color: Pixel,
) -> Seq<Pixel> {
    painted(cells, |i: int| in_rect(width, px, py, w, h, i), color)
}

/// Every pixel of the `w` by `h` rectangle at `(px, py)` lies inside a frame of
/// `len` pixels that is `width` wide.
pub open spec fn rect_fits(width: nat, len: nat, px: int, py: int, w: int, h: int) -> bool {
    w == 0 || h == 0 || offset_cell(width, px, py, w - 1, h - 1) < len
}

proof fn lemma_offset_cell_mono(width: nat, px: int, py: int, x: int, y: int, x2: int, y2: int)
    requires
        0 <= px,
        0 <= py,
        0 <= x <= x2,
        0 <= y <= y2,
    ensures
        0 <= offset_cell(width, px, py, x, y) <= offset_cell(width, px, py, x2, y2),
        (y + py) * width <= offset_cell(width, px, py, x, y),
        width >= 1 ==> y + py <= (y + py) * width,
{
    assert(width >= 1 ==> y + py <= (y + py) * width) by (nonlinear_arith)
        requires
            0 <= y + py,
    ;
    assert((y + py) * width <= (y2 + py) * width) by (nonlinear_arith)
        requires
            0 <= y + py <= y2 + py,
    ;
    assert(0 <= (y + py) * width) by (nonlinear_arith)
        requires
            0 <= y + py,
    ;
}

/// Paints the `width` by `height` rectangle whose top-left corner is `(p_x, p_y)`
/// in `color`, column after column.
pub fn draw_rect(
    buffer: &mut Buffer,
    p_x: usize,
    p_y: usize,
    width: usize,
    height: usize,
    color: (u8, u8, u8),
)
    requires
        old(buffer).wf(),
        rect_fits(old(buffer).w(), old(buffer).cells().len(), p_x as int, p_y as int, width as int, height as int),
    ensures
        final(buffer).wf(),
        final(buffer).w() == old(buffer).w(),
        final(buffer).h() == old(buffer).h(),
        final(buffer).cells() == rect_painted(
            old(buffer).cells(),
            old(buffer).w(),
            p_x as int,
            p_y as int,
            width as int,
            height as int,
            rgb(color),
        ),
        forall|x: int, y: int|
            0 <= x < width && 0 <= y < height ==> final(buffer).cells()[#[trigger] offset_cell(
                old(buffer).w(),
                p_x as int,
                p_y as int,
                x,
                y,
            )] == rgb(color),
        forall|i: int|
            0 <= i < old(buffer).cells().len() && (forall|x: int, y: int|
                0 <= x < width && 0 <= y < height ==> #[trigger] offset_cell(
                    old(buffer).w(),
                    p_x as int,
                    p_y as int,
                    x,
                    y,
                ) != i) ==> #[trigger] final(buffer).cells()[i] == old(buffer).cells()[i],
{
    let ghost cells0 = buffer.cells();
    let ghost bw = buffer.w();
    let ghost bh = buffer.h();
    let ghost c = rgb(color);
    for x in 0..width
        invariant
            c == rgb(color),
            buffer.wf(),
            buffer.w() == bw,
            buffer.h() == bh,
            cells0.len() == bw * bh,
            rect_fits(bw, cells0.len(), p_x as int, p_y as int, width as int, height as int),
            buffer.cells().len() == cells0.len(),
            forall|i: int|
                0 <= i < cells0.len() ==> #[trigger] buffer.cells()[i] == (if in_rect(
                    bw,
                    p_x as int,
                    p_y as int,
                    x as int,
                    height as int,
                    i,
                ) {
                    c
                } else {
                    cells0[i]
                }),
    {
        for y in 0..height
            invariant
                c == rgb(color),
                buffer.wf(),
                buffer.w() == bw,
                buffer.h() == bh,
                cells0.len() == bw * bh,
                x < width,
                rect_fits(bw, cells0.len(), p_x as int, p_y as int, width as int, height as int),
                buffer.cells().len() == cells0.len(),
                forall|i: int|
                    0 <= i < cells0.len() ==> #[trigger] buffer.cells()[i] == (if in_rect(
                        bw,
                        p_x as int,
                        p_y as int,
                        x as int,
                        height as int,
                        i,
                    ) || in_rect(bw, p_x + x, p_y as int, 1, y as int, i) {
                        c
                    } else {
                        cells0[i]
                    }),
        {
            proof {
                lemma_offset_cell_mono(bw, p_x as int, p_y as int, x as int, y as int, width - 1, height - 1);
            }
            let ghost j = offset_cell(bw, p_x as int, p_y as int, x as int, y as int);
            let ghost before = buffer.cells();
            let r = buffer.pixel(x + p_x, y + p_y);
            match r {
                Some(p) => {
                    p.red = color.0;
                    p.green = color.1;
                    p.blue = color.2;
                },
                None => {},
            }
            assert(buffer.cells() == before.update(j, c));
            assert forall|i: int| 0 <= i < cells0.len() implies #[trigger] buffer.cells()[i] == (if in_rect(
                bw,
                p_x as int,
                p_y as int,
                x as int,
                height as int,
                i,
            ) || in_rect(bw, p_x + x, p_y as int, 1, y + 1, i) {
                c
            } else {
                cells0[i]
            }) by {
                if i == j {
                    assert(offset_cell(bw, p_x + x, p_y as int, 0, y as int) == i);
                } else {
                    if in_rect(bw, p_x + x, p_y as int, 1, y + 1, i) {
                        let (x1, y1) = choose|x1: int, y1: int|
                            0 <= x1 < 1 && 0 <= y1 < y + 1 && i == #[trigger] offset_cell(
                                bw,
                                p_x + x,
                                p_y as int,
                                x1,
                                y1,
                            );
                        assert(y1 != y);
                        assert(in_rect(bw, p_x + x, p_y as int, 1, y as int, i));
                    }
                }
            }
        }
        assert forall|i: int| 0 <= i < cells0.len() implies #[trigger] buffer.cells()[i] == (if in_rect(
            bw,
            p_x as int,
            p_y as int,
            x + 1,
            height as int,
            i,
        ) {
            c
        } else {
            cells0[i]
        }) by {
            let a = in_rect(bw, p_x as int, p_y as int, x as int, height as int, i);
            let b = in_rect(bw, p_x + x, p_y as int, 1, height as int, i);
            let n = in_rect(bw, p_x as int, p_y as int, x + 1, height as int, i);
            if b {
                let (x1, y1) = choose|x1: int, y1: int|
                    0 <= x1 < 1 && 0 <= y1 < height && i == #[trigger] offset_cell(
                        bw,
                        p_x + x,
                        p_y as int,
                        x1,
                        y1,
                    );
                assert(offset_cell(bw, p_x as int, p_y as int, x as int, y1) == i);
            }
            if a {
                let (x1, y1) = choose|x1: int, y1: int|
                    0 <= x1 < x && 0 <= y1 < height && i == #[trigger] offset_cell(
                        bw,
                        p_x as int,
                        p_y as int,
                        x1,
                        y1,
                    );
                assert(offset_cell(bw, p_x as int, p_y as int, x1, y1) == i);
            }
            if n {
                let (x1, y1) = choose|x1: int, y1: int|
                    0 <= x1 < x + 1 && 0 <= y1 < height && i == #[trigger] offset_cell(
                        bw,
                        p_x as int,
                        p_y as int,
                        x1,
                        y1,
                    );
                if x1 == x {
                    assert(offset_cell(bw, p_x + x, p_y as int, 0, y1) == i);
                } else {
                    assert(offset_cell(bw, p_x as int, p_y as int, x1, y1) == i);
                }
            }
            assert(n == (a || b));
        }
    }
    assert(buffer.cells() =~= rect_painted(
        cells0,
        bw,
        p_x as int,
        p_y as int,
        width as int,
        height as int,
        c,
    ));
    proof {
        lemma_rect_pixels(cells0, bw, p_x as int, p_y as int, width as int, height as int, c);
        assert forall|x: int, y: int| 0 <= x < width && 0 <= y < height implies buffer.cells()[#[trigger] offset_cell(
            bw,
            p_x as int,
            p_y as int,
            x,
            y,
        )] == c by {
            lemma_offset_cell_mono(bw, p_x as int, p_y as int, x, y, width - 1, height - 1);
        }
    }
}

/// What painting a rectangle does to each pixel: every pixel `(px + x, py + y)`
/// with `x < w` and `y < h` that lies in the frame takes `color`, and every other
/// pixel keeps its value.
pub proof fn lemma_rect_pixels(cells: Seq<Pixel>, width: nat, px: int, py: int, w: int, h: int, color: Pixel)
    ensures
        rect_painted(cells, width, px, py, w, h, color).len() == cells.len(),
        forall|x: int, y: int|
            0 <= x < w && 0 <= y < h && 0 <= #[trigger] offset_cell(width, px, py, x, y) < cells.len()
                ==> rect_painted(cells, width, px, py, w, h, color)[offset_cell(width, px, py, x, y)] == color,
        forall|i: int|
            0 <= i < cells.len() && (forall|x: int, y: int|
                0 <= x < w && 0 <= y < h ==> #[trigger] offset_cell(width, px, py, x, y) != i) ==> #[trigger] rect_painted(
                cells,
                width,
                px,
                py,
                w,
                h,
                color,
            )[i] == cells[i],
{
}

/// Painting the same rectangle twice in one colour leaves what painting it
/// once leaves.
pub proof fn lemma_rect_repaint(cells: Seq<Pixel>, width: nat, px: int, py: int, w: int, h: int, color: Pixel)
    ensures
        rect_painted(rect_painted(cells, width, px, py, w, h, color), width, px, py, w, h, color)
            == rect_painted(cells, width, px, py, w, h, color),
{
    assert(rect_painted(rect_painted(cells, width, px, py, w, h, color), width, px, py, w, h, color)
        =~= rect_painted(cells, width, px, py, w, h, color));
}

/// A rectangle as large as the whole frame, at its top-left corner, paints every
/// pixel of the frame.
pub proof fn lemma_full_frame_rect(cells: Seq<Pixel>, width: nat, height: nat, color: Pixel)
    requires
        cells.len() == width * height,
    ensures
        rect_painted(cells, width, 0, 0, width as int, height as int, color)
            == Seq::new(cells.len(), |i: int| color),
{
    assert forall|i: int| 0 <= i < cells.len() implies in_rect(width, 0, 0, width as int, height as int, i) by {
        assert(width > 0) by (nonlinear_arith)
            requires
                0 <= i < cells.len(),
                cells.len() == width * height,
        ;
        let x = i % (width as int);
        let y = i / (width as int);
        vstd::arithmetic::div_mod::lemma_fundamental_div_mod(i, width as int);
        vstd::arithmetic::div_mod::lemma_mod_pos_bound(i, width as int);
        vstd::arithmetic::div_mod::lemma_div_pos_is_pos(i, width as int);
        assert(y < height) by (nonlinear_arith)
            requires
                i == width * y + x,
                0 <= x,
                i < width * height,
                width > 0,
        ;
        assert(i == offset_cell(width, 0, 0, x, y)) by (nonlinear_arith)
            requires
                i == width * y + x,
        ;
    }
    assert(rect_painted(cells, width, 0, 0, width as int, height as int, color) =~= Seq::new(
        cells.len(),
        |i: int| color,
    ));
}

} // verus!
