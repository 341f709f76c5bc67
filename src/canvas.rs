use vstd::prelude::*;

verus! {

/// A `width` by `height` grid of pixels, stored row after row.
pub struct Canvas<P> {
    pub width: usize,
    pub height: usize,
    pub pixels: Vec<P>,
}

impl<P> View for Canvas<P> {
    type V = Seq<P>;

    /// The pixels, row after row.
    open spec fn view(&self) -> Seq<P> {
        self.pixels@
    }
}

/// The position in the row-after-row order of the pixel in column `x`, row `y`.
pub open spec fn pixel_index(width: nat, x: nat, y: nat) -> int {
    (x + y * width) as int
}

impl<P: Copy> Canvas<P> {
    /// Holds one pixel for each column of each row.
    pub open spec fn wf(&self) -> bool {
        self@.len() == self.width * self.height
    }

    /// A canvas whose pixels all have the colour `background`.
    pub fn new(width: usize, height: usize, background: P) -> (r: Self)
        requires
            width * height <= usize::MAX,
        ensures
            r.wf(),
            r.width == width,
            r.height == height,
            forall|i: int| 0 <= i < r@.len() ==> r@[i] == background,
    {
        let n = width * height;
        let mut pixels: Vec<P> = Vec::new();
        let mut i: usize = 0;
        while i < n
            invariant
                i <= n,
                pixels@.len() == i,
                forall|j: int| 0 <= j < i ==> pixels@[j] == background,
            decreases n - i,
        {
            pixels.push(background);
            i = i + 1;
        }
        Canvas { width, height, pixels }
    }

    /// The pixel in column `x` of row `y`.
    pub fn pixel_at(&self, x: usize, y: usize) -> (r: P)
        requires
            self.wf(),
            pixel_index(self.width as nat, x as nat, y as nat) < self@.len(),
        ensures
            r == self@[pixel_index(self.width as nat, x as nat, y as nat)],
    {
        let n = self.pixels.len();
        proof {
            assert(0 <= y * self.width) by (nonlinear_arith);
        }
        self.pixels[x + y * self.width]
    }

    /// Sets the pixel in column `x` of row `y`; a position off the canvas
    /// leaves it as it was.
    pub fn write_pixel(&mut self, x: usize, y: usize, color: P)
        requires
            old(self).wf(),
        ensures
            final(self).wf(),
            final(self).width == old(self).width,
            final(self).height == old(self).height,
            final(self)@ == (if x < old(self).width && y < old(self).height {
                old(self)@.update(pixel_index(old(self).width as nat, x as nat, y as nat), color)
            } else {
                old(self)@
            }),
    {
        let n = self.pixels.len();
        if x < self.width && y < self.height {
            proof {
                assert(0 <= y * self.width) by (nonlinear_arith);
                assert(x + y * self.width < self.width * self.height) by (nonlinear_arith)
                    requires
                        x < self.width,
                        y < self.height,
                ;
            }
            self.pixels.set(x + y * self.width, color);
        }
    }
}

} // verus!
