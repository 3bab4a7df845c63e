use vstd::prelude::*;

verus! {

/// One pixel of a frame: its red, green and blue intensities.
#[derive(Clone, Copy, Debug, PartialEq, Eq)]
pub struct Pixel {
    pub red: u8,
    pub green: u8,
    pub blue: u8,
}

impl Pixel {
    /// A pixel of the given intensities.
    pub fn new(red: u8, green: u8, blue: u8) -> (p: Pixel)
        ensures
            p == (Pixel { red, green, blue }),
    {
        Pixel { red, green, blue }
    }
}

/// The pixel of colour `(red, green, blue)`.
pub open spec fn rgb(color: (u8, u8, u8)) -> Pixel {
    Pixel { red: color.0, green: color.1, blue: color.2 }
}

/// Position, in the row-major pixel sequence of a frame `width` pixels wide, of
/// the pixel addressed as column `x` of row `y`. A column past the right edge
/// addresses a pixel of a later row.
pub open spec fn cell_index(width: nat, x: int, y: int) -> int {
    y * width + x
}

/// A frame of `width` by `height` pixels, stored row after row.
pub struct Buffer {
    width: usize,
    height: usize,
    pixels: Vec<Pixel>,
}

impl Buffer {
    /// Width of the frame, in pixels.
    pub closed spec fn w(&self) -> nat {
        self.width as nat
    }

    /// Height of the frame, in pixels.
    pub closed spec fn h(&self) -> nat {
        self.height as nat
    }

    /// The pixels of the frame, row after row.
    pub closed spec fn cells(&self) -> Seq<Pixel> {
        self.pixels@
    }

    /// The frame holds exactly `width * height` pixels, a count that fits in a
    /// `usize`.
    pub open spec fn wf(&self) -> bool {
        &&& self.cells().len() == self.w() * self.h()
        &&& self.w() * self.h() <= usize::MAX
    }

    /// A black frame of `width` by `height` pixels.
    pub fn new(width: usize, height: usize) -> (b: Buffer)
        requires
            width * height <= usize::MAX,
        ensures
            b.wf(),
            b.w() == width,
            b.h() == height,
            forall|i: int| 0 <= i < b.cells().len() ==> #[trigger] b.cells()[i] == rgb((0, 0, 0)),
    {
        let n: usize = width * height;
        let pixels = vec![Pixel { red: 0, green: 0, blue: 0 }; n];
        Buffer { width, height, pixels }
    }

    /// Width of the frame, in pixels.
    pub fn width(&self) -> (r: usize)
        ensures
            r == self.w(),
    {
        self.width
    }

    /// Height of the frame, in pixels.
    pub fn height(&self) -> (r: usize)
        ensures
            r == self.h(),
    {
        self.height
    }

    /// The pixels of the frame, row after row.
    pub fn pixels(&self) -> (r: &Vec<Pixel>)
        ensures
            r@ == self.cells(),
    {
        &self.pixels
    }

    /// The pixel at column `x` of row `y`, counted as position `y * width + x` of
    /// the frame, to be changed in place; `None` where that position lies past the
    /// last pixel.
    pub fn pixel(&mut self, x: usize, y: usize) -> (r: Option<&mut Pixel>)
        requires
            y * old(self).w() + x <= usize::MAX,
        ensures
            final(self).wf() == old(self).wf(),
            final(self).w() == old(self).w(),
            final(self).h() == old(self).h(),
            r is Some <==> cell_index(old(self).w(), x as int, y as int) < old(self).cells().len(),
            r is None ==> final(self).cells() == old(self).cells(),
            r matches Some(p) ==> {
                &&& *p == old(self).cells()[cell_index(old(self).w(), x as int, y as int)]
                &&& final(self).cells() == old(self).cells().update(
                    cell_index(old(self).w(), x as int, y as int),
                    *final(p),
                )
            },
    {
        let i: usize = y * self.width + x;
        if i < self.pixels.len() {
            Some(&mut self.pixels[i])
        } else {
            None
        }
    }
}

/// `cells` with every position that `covered` holds painted `color`.
pub open spec fn painted(cells: Seq<Pixel>, covered: spec_fn(int) -> bool, color: Pixel) -> Seq<
    Pixel,
> {
    Seq::new(cells.len(), |i: int| if covered(i) { color } else { cells[i] })
}

} // verus!
