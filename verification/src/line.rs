use vstd::prelude::*;
use crate::canvas::{cell_index, painted, rgb, Buffer, Pixel};

verus! {

/// The `i32` that `v as i32` gives: `v` itself, or `v - 2^32` above `i32::MAX`.
pub open spec fn i32_of(v: u32) -> int {
    if v <= i32::MAX {
        v as int
    } else {
        v - 0x1_0000_0000
    }
}

/// Slope of the line from `p1` to `p2`: its rise over its run, rounded down.
pub open spec fn line_slope(p1: (u32, u32), p2: (u32, u32)) -> int {
    (p2.1 - p1.1) / (p2.0 - p1.0)
}

/// Row at which the line from `p1` to `p2` crosses column zero.
pub open spec fn line_offset(p1: (u32, u32), p2: (u32, u32)) -> int {
    i32_of(p1.1) - line_slope(p1, p2) * i32_of(p1.0)
}

/// Row of the line from `p1` to `p2` in column `x`.
pub open spec fn line_row(p1: (u32, u32), p2: (u32, u32), x: u32) -> int {
    line_slope(p1, p2) * i32_of(x) + line_offset(p1, p2)
}

/// The value lies in the range of `i32`.
pub open spec fn fits_i32(v: int) -> bool {
    i32::MIN <= v <= i32::MAX
}

/// The line from `p1` to `p2` can be drawn without fault into a frame of `len`
/// pixels that is `width` wide: it runs rightwards and not upwards, its slope and
/// every intermediate row value fit in an `i32`, and each of its pixels, one per
/// column from `p1.0` up to but not including `p2.0`, lies inside the frame.
pub open spec fn line_fits(width: nat, len: nat, p1: (u32, u32), p2: (u32, u32)) -> bool {
    &&& p1.1 <= p2.1
    &&& p1.0 < p2.0
    &&& line_slope(p1, p2) <= i32::MAX
    &&& fits_i32(line_slope(p1, p2) * i32_of(p1.0))
    &&& fits_i32(line_offset(p1, p2))
    &&& line_columns_fit(width, len, p1, p2, p2.0 as int)
}

/// The line's pixels in the columns from `p1.0` up to but not including `end`
/// can be computed in `i32` and lie inside the frame.
pub open spec fn line_columns_fit(width: nat, len: nat, p1: (u32, u32), p2: (u32, u32), end: int) -> bool {
    forall|x: u32|
        p1.0 <= x < end ==> {
            &&& fits_i32(line_slope(p1, p2) * i32_of(x))
            &&& fits_i32(#[trigger] line_row(p1, p2, x))
            &&& 0 <= line_row(p1, p2, x)
            &&& cell_index(width, x as int, line_row(p1, p2, x)) < len
        }
}

/// The rows of the line: its slope `s` is the rise over the run rounded down,
/// `s * run <= rise < (s + 1) * run`, and in column `x` the line is at row
/// `pos1.1 + s * (x - pos1.0)`, each coordinate taken as `as i32` reads it.
pub proof fn lemma_line_rows(p1: (u32, u32), p2: (u32, u32), x: u32)
    requires
        p1.0 < p2.0,
        p1.1 <= p2.1,
    ensures
        0 <= line_slope(p1, p2),
        line_slope(p1, p2) * (p2.0 - p1.0) <= p2.1 - p1.1 < (line_slope(p1, p2) + 1) * (p2.0 - p1.0),
        line_row(p1, p2, x) == i32_of(p1.1) + line_slope(p1, p2) * (i32_of(x) - i32_of(p1.0)),
{
    let rise = p2.1 - p1.1;
    let run = p2.0 - p1.0;
    let s = line_slope(p1, p2);
    vstd::arithmetic::div_mod::lemma_fundamental_div_mod(rise, run);
    vstd::arithmetic::div_mod::lemma_mod_pos_bound(rise, run);
    vstd::arithmetic::div_mod::lemma_div_pos_is_pos(rise, run);
    assert(s * run <= rise < (s + 1) * run) by (nonlinear_arith)
        requires
            rise == run * s + rise % run,
            0 <= rise % run < run,
    ;
    assert(s * i32_of(x) + (i32_of(p1.1) - s * i32_of(p1.0)) == i32_of(p1.1) + s * (i32_of(x) - i32_of(p1.0)))
        by (nonlinear_arith);
}

/// The line starts at its first point: in column `p1.0` it is at row `p1.1`.
pub proof fn lemma_line_starts_at_first_point(p1: (u32, u32), p2: (u32, u32))
    requires
        p1.1 <= i32::MAX,
    ensures
        line_row(p1, p2, p1.0) == p1.1,
{
}

/// Extending the columns that fit by one more column that fits.
pub proof fn lemma_line_columns_extend(width: nat, len: nat, p1: (u32, u32), p2: (u32, u32), x: u32)
    requires
        p1.0 <= x,
        line_columns_fit(width, len, p1, p2, x as int),
        fits_i32(line_slope(p1, p2) * i32_of(x)),
        fits_i32(line_row(p1, p2, x)),
        0 <= line_row(p1, p2, x),
        cell_index(width, x as int, line_row(p1, p2, x)) < len,
    ensures
        line_columns_fit(width, len, p1, p2, x + 1),
{
    assert forall|x1: u32| p1.0 <= x1 < x + 1 implies fits_i32(#[trigger] line_row(p1, p2, x1)) by {
        if x1 < x {
            assert(line_columns_fit(width, len, p1, p2, x as int));
        }
    }
    assert forall|x1: u32| p1.0 <= x1 < x + 1 implies 0 <= #[trigger] line_row(p1, p2, x1) by {
        if x1 < x {
            assert(line_columns_fit(width, len, p1, p2, x as int));
        }
    }
    assert forall|x1: u32| p1.0 <= x1 < x + 1 implies fits_i32(line_slope(p1, p2) * i32_of(x1)) by {
        if x1 < x {
            assert(line_columns_fit(width, len, p1, p2, x as int));
            assert(fits_i32(line_row(p1, p2, x1)));
        }
    }
    assert forall|x1: u32| p1.0 <= x1 < x + 1 implies cell_index(width, x1 as int, #[trigger] line_row(p1, p2, x1)) < len by {
        if x1 < x {
            assert(line_columns_fit(width, len, p1, p2, x as int));
        }
    }
}

/// Position `i` is the pixel of the line from `p1` to `p2` in one of the columns
/// from `p1.0` up to but not including `end`.
pub open spec fn in_line_prefix(width: nat, p1: (u32, u32), p2: (u32, u32), end: int, i: int) -> bool {
    exists|x: u32| p1.0 <= x < end && i == #[trigger] cell_index(width, x as int, line_row(p1, p2, x))
}

/// `cells` after the line from `p1` to `p2` is painted `color`.
pub open spec fn line_painted(cells: Seq<Pixel>, width: nat, p1: (u32, u32), p2: (u32, u32), color: Pixel) -> Seq<Pixel> {
    painted(cells, |i: int| in_line_prefix(width, p1, p2, p2.0 as int, i), color)
}

proof fn lemma_as_i32(v: u32)
    ensures
        (v as i32) as int == i32_of(v),
{
    assert(v <= 0x7fff_ffff ==> (v as i32) as int == v as int) by (bit_vector);
    assert(v > 0x7fff_ffff ==> (v as i32) as int == v as int - 0x1_0000_0000) by (bit_vector);
}

/// Paints the line from `pos1` to `pos2`: in each column `x` from `pos1.0` up to
/// but not including `pos2.0`, the pixel in row `k * x + b`, where `k` is the
/// rise over the run rounded down and `b = pos1.1 - k * pos1.0`, all computed as
/// `i32`.
pub fn draw_line(buffer: &mut Buffer, pos1: (u32, u32), pos2: (u32, u32), color: (u8, u8, u8))
    requires
        old(buffer).wf(),
        line_fits(old(buffer).w(), old(buffer).cells().len(), pos1, pos2),
    ensures
        final(buffer).wf(),
        final(buffer).w() == old(buffer).w(),
        final(buffer).h() == old(buffer).h(),
        final(buffer).cells() == line_painted(old(buffer).cells(), old(buffer).w(), pos1, pos2, rgb(color)),
        forall|x: u32|
            pos1.0 <= x < pos2.0 ==> final(buffer).cells()[#[trigger] cell_index(
                old(buffer).w(),
                x as int,
                line_row(pos1, pos2, x),
            )] == rgb(color),
        forall|i: int|
            0 <= i < old(buffer).cells().len() && (forall|x: u32|
                pos1.0 <= x < pos2.0 ==> #[trigger] cell_index(old(buffer).w(), x as int, line_row(pos1, pos2, x))
                    != i) ==> #[trigger] final(buffer).cells()[i] == old(buffer).cells()[i],
{
    let ghost cells0 = buffer.cells();
    let ghost bw = buffer.w();
    let ghost bh = buffer.h();
    let ghost c = rgb(color);
    let rise: u32 = pos2.1 - pos1.1;
    let run: u32 = pos2.0 - pos1.0;
    let k: i32 = (rise / run) as i32;
    proof {
        lemma_as_i32(pos1.1);
        lemma_as_i32(pos1.0);
    }
    let b: i32 = pos1.1 as i32 - k * pos1.0 as i32;
    for x in pos1.0..pos2.0
        invariant
            c == rgb(color),
            k == line_slope(pos1, pos2),
            b == line_offset(pos1, pos2),
            buffer.wf(),
            buffer.w() == bw,
            buffer.h() == bh,
            cells0.len() == bw * bh,
            line_fits(bw, cells0.len(), pos1, pos2),
            buffer.cells() == painted(cells0, |i: int| in_line_prefix(bw, pos1, pos2, x as int, i), c),
    {
        proof {
            lemma_as_i32(x);
        }
        assert(fits_i32(line_row(pos1, pos2, x)));
        let y: i32 = k * x as i32 + b;
        let ghost j = cell_index(bw, x as int, y as int);
        assert(0 <= y);
        assert(j < cells0.len());
        let ghost before = buffer.cells();
        match buffer.pixel(x as usize, y as usize) {
            Some(p) => {
                p.red = color.0;
                p.green = color.1;
                p.blue = color.2;
            },
            None => {},
        }
        assert(buffer.cells() == before.update(j, c));
        proof {
            assert forall|i: int| 0 <= i < cells0.len() implies
                #[trigger] in_line_prefix(bw, pos1, pos2, x + 1, i)
                == (in_line_prefix(bw, pos1, pos2, x as int, i) || i == j) by {
                if in_line_prefix(bw, pos1, pos2, x + 1, i) {
                    let x1 = choose|x1: u32| pos1.0 <= x1 < x + 1 && i == #[trigger] cell_index(bw, x1 as int, line_row(pos1, pos2, x1));
                    if x1 != x {
                        assert(in_line_prefix(bw, pos1, pos2, x as int, i));
                    }
                }
                if i == j {
                    assert(i == cell_index(bw, x as int, line_row(pos1, pos2, x)));
                }
            }
            assert(buffer.cells() =~= painted(cells0, |i: int| in_line_prefix(bw, pos1, pos2, x + 1, i), c));
        }
    }
    assert forall|x: u32| pos1.0 <= x < pos2.0 implies buffer.cells()[#[trigger] cell_index(
        bw,
        x as int,
        line_row(pos1, pos2, x),
    )] == c by {
        assert(in_line_prefix(bw, pos1, pos2, pos2.0 as int, cell_index(bw, x as int, line_row(pos1, pos2, x))));
    }
}

} // verus!
