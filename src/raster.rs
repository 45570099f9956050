use vstd::arithmetic::div_mod::lemma_fundamental_div_mod_converse;
use vstd::prelude::*;

verus! {

/// A row-major grid of pixels: `buffer[y * width + x]` is the pixel in
/// column `x` of row `y`.
#[derive(Clone, Debug)]
pub struct Image<P> {
    pub width: usize,
    pub height: usize,
    pub buffer: Vec<P>,
}

/// Position in a row-major buffer of the pixel in column `x` of row `y`.
pub open spec fn pixel_index(width: int, x: int, y: int) -> int {
    y * width + x
}

impl<P> Image<P> {
    /// The buffer holds exactly one pixel per grid cell.
    pub open spec fn wf(&self) -> bool {
        self.buffer@.len() == self.width * self.height
    }

    /// Builds an image, or `None` when the buffer does not hold exactly
    /// `width * height` pixels.
    pub fn new(width: usize, height: usize, buffer: Vec<P>) -> (r: Option<Image<P>>)
        ensures
            r.is_some() <==> buffer@.len() == width * height,
            r matches Some(img) ==> img.wf() && img.width == width && img.height == height
                && img.buffer@ == buffer@,
    {
        let len = buffer.len();
        match width.checked_mul(height) {
            Some(n) => {
                if len == n {
                    Some(Image { width, height, buffer })
                } else {
                    None
                }
            },
            None => None,
        }
    }

    /// The pixel in column `x` of row `y` of a well-formed image.
    pub fn pixel(&self, x: usize, y: usize) -> (r: &P)
        requires
            self.wf(),
            x < self.width,
            y < self.height,
        ensures
            *r == self.buffer@[pixel_index(self.width as int, x as int, y as int)],
    {
        proof {
            let (w, h, xi, yi) = (self.width as int, self.height as int, x as int, y as int);
            assert(0 <= yi * w <= yi * w + xi < w * h) by (nonlinear_arith)
                requires
                    0 <= xi < w,
                    0 <= yi < h,
            ;
        }
        // the buffer's length bounds the position, which thus fits a usize
        let len = self.buffer.len();
        assert(y * self.width + x < len);
        &self.buffer[y * self.width + x]
    }

    /// The pixel stored at `y * width + x`, read as the flat buffer position
    /// it names (so `x == width` reaches the first pixel of the next row), or
    /// `None` when that position lies outside the buffer.
    pub fn sample(&self, x: usize, y: usize) -> (r: Option<&P>)
        ensures
            r.is_some() <==> pixel_index(self.width as int, x as int, y as int) < self.buffer@.len(),
            r matches Some(p) ==> *p == self.buffer@[pixel_index(self.width as int, x as int, y as int)],
    {
        let len = self.buffer.len();
        match y.checked_mul(self.width) {
            Some(row) => match row.checked_add(x) {
                Some(k) => {
                    if k < len {
                        Some(&self.buffer[k])
                    } else {
                        None
                    }
                },
                None => None,
            },
            None => {
                proof {
                    let (w, xi, yi) = (self.width as int, x as int, y as int);
                    assert(yi * w + xi >= yi * w) by (nonlinear_arith)
                        requires
                            xi >= 0,
                    ;
                }
                None
            },
        }
    }
}

proof fn lemma_row_major_covers(r: Seq<(usize, usize)>, w: int, h: int)
    requires
        0 <= w,
        0 <= h,
        r.len() == w * h,
        forall|k: int| #![trigger r[k]] 0 <= k < r.len() ==> r[k].0 == k % w && r[k].1 == k / w,
    ensures
        forall|x: int, y: int|
            0 <= x < w && 0 <= y < h ==> #[trigger] r[pixel_index(w, x, y)] == (x as usize, y as usize),
{
    assert forall|x: int, y: int| 0 <= x < w && 0 <= y < h implies #[trigger] r[pixel_index(w, x, y)] == (
        x as usize,
        y as usize,
    ) by {
        lemma_fundamental_div_mod_converse(y * w + x, w, y, x);
        assert(0 <= y * w && y * w + x < w * h) by (nonlinear_arith)
            requires
                0 <= x < w,
                0 <= y < h,
        ;
    }
}

/// The pixel grid `width` by `height` in row-major order: entry `k` is the
/// column and row `(k % width, k / width)`, so each cell `(x, y)` of the
/// grid stands once, at `y * width + x`.
pub fn pixel_order(width: usize, height: usize) -> (r: Vec<(usize, usize)>)
    requires
        width * height <= usize::MAX,
    ensures
        r@.len() == width * height,
        forall|k: int|
            #![trigger r@[k]]
            0 <= k < r@.len() ==> r@[k].0 == k % width as int && r@[k].1 == k / width as int,
        forall|x: int, y: int|
            0 <= x < width && 0 <= y < height ==> #[trigger] r@[pixel_index(width as int, x, y)] == (
            x as usize,
            y as usize,
        ),
{
    let mut r: Vec<(usize, usize)> = Vec::new();
    let mut j: usize = 0;
    while j < height
        invariant
            j <= height,
            width * height <= usize::MAX,
            r@.len() == j * width,
            forall|k: int|
                #![trigger r@[k]]
                0 <= k < r@.len() ==> r@[k].0 == k % width as int && r@[k].1 == k
                        / width as int,
        decreases height - j,
    {
        let mut i: usize = 0;
        while i < width
            invariant
                i <= width,
                j < height,
                width * height <= usize::MAX,
                r@.len() == j * width + i,
                forall|k: int|
                    #![trigger r@[k]]
                    0 <= k < r@.len() ==> r@[k].0 == k % width as int && r@[k].1 == k
                            / width as int,
            decreases width - i,
        {
            proof {
                lemma_fundamental_div_mod_converse(
                    (j * width + i) as int,
                    width as int,
                    j as int,
                    i as int,
                );
                assert((j + 1) * width <= width * height) by (nonlinear_arith)
                    requires
                        j < height,
                ;
            }
            r.push((i, j));
            i = i + 1;
        }
        proof {
            assert((j + 1) * width == j * width + width) by (nonlinear_arith);
        }
        j = j + 1;
    }
    proof {
        assert(height * width == width * height) by (nonlinear_arith);
        lemma_row_major_covers(r@, width as int, height as int);
    }
    r
}

} // verus!
