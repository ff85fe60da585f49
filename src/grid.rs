use vstd::prelude::*;

verus! {

/// Position of pixel `(x, y)` in a row-major grid of the given width.
pub open spec fn row_major(width: int, x: int, y: int) -> int {
    y * width + x
}

/// A row-major index stays below `width * height` and tells pixels apart.
pub proof fn lemma_row_major(width: int, height: int, x: int, y: int, x2: int, y2: int)
    requires
        0 <= x < width,
        0 <= y < height,
        0 <= x2 < width,
        0 <= y2 < height,
    ensures
        0 <= row_major(width, x, y) < width * height,
        row_major(width, x, y) == row_major(width, x2, y2) ==> x == x2 && y == y2,
{
    assert(0 <= y * width + x < width * height) by (nonlinear_arith)
        requires
            0 <= x < width,
            0 <= y < height,
    ;
    assert(y * width + x == y2 * width + x2 ==> x == x2 && y == y2) by (nonlinear_arith)
        requires
            0 <= x < width,
            0 <= x2 < width,
            0 <= y,
            0 <= y2,
    ;
}

/// An image of 8-bit RGB pixels, stored row by row.
pub struct RgbGrid {
    width: u32,
    height: u32,
    pixels: Vec<[u8; 3]>,
}

impl RgbGrid {
    pub closed spec fn spec_width(&self) -> int {
        self.width as int
    }

    pub closed spec fn spec_height(&self) -> int {
        self.height as int
    }

    /// The pixel at column `x` and row `y`.
    pub closed spec fn pixel(&self, x: int, y: int) -> [u8; 3] {
        self.pixels@[row_major(self.width as int, x, y)]
    }

    /// One pixel for each position of the rectangle.
    pub closed spec fn wf(&self) -> bool {
        self.pixels@.len() == self.width * self.height
    }

    /// Width and height are 32-bit.
    pub proof fn lemma_size(&self)
        ensures
            0 <= self.spec_width() <= u32::MAX,
            0 <= self.spec_height() <= u32::MAX,
    {
    }

    pub open spec fn in_bounds(&self, x: int, y: int) -> bool {
        0 <= x < self.spec_width() && 0 <= y < self.spec_height()
    }

    /// An image of the given size with every pixel set to `fill`.
    pub fn new(width: u32, height: u32, fill: [u8; 3]) -> (r: Self)
        requires
            width * height <= usize::MAX,
        ensures
            r.wf(),
            r.spec_width() == width,
            r.spec_height() == height,
            forall|x: int, y: int| r.in_bounds(x, y) ==> #[trigger] r.pixel(x, y) == fill,
    {
        let n = width as usize * height as usize;
        let mut pixels: Vec<[u8; 3]> = Vec::new();
        while pixels.len() < n
            invariant
                pixels@.len() <= n,
                forall|k: int| 0 <= k < pixels@.len() ==> #[trigger] pixels@[k] == fill,
            decreases n - pixels@.len(),
        {
            pixels.push(fill);
        }
        let r = RgbGrid { width, height, pixels };
        assert forall|x: int, y: int| r.in_bounds(x, y) implies #[trigger] r.pixel(x, y) == fill by {
            lemma_row_major(width as int, height as int, x, y, x, y);
        }
        r
    }

    /// An image of the given size from its raw bytes: three channel bytes
    /// for each pixel, row by row. `None` when the byte count is not
    /// `3 * width * height`.
    pub fn from_raw(width: u32, height: u32, data: Vec<u8>) -> (r: Option<Self>)
        ensures
            r.is_some() <==> data@.len() == 3 * width * height,
            r matches Some(g) ==> {
                &&& g.wf()
                &&& g.spec_width() == width
                &&& g.spec_height() == height
                &&& forall|x: int, y: int| #[trigger]
                    g.in_bounds(x, y) ==> {
                        let i = 3 * row_major(width as int, x, y);
                        &&& g.pixel(x, y)[0] == data@[i]
                        &&& g.pixel(x, y)[1] == data@[i + 1]
                        &&& g.pixel(x, y)[2] == data@[i + 2]
                    }
            },
    {
        assert((width as int) * (height as int) <= 0xffff_ffff * 0xffff_ffff) by (nonlinear_arith);
        assert(3 * width * height == (width as int) * (height as int) * 3) by (nonlinear_arith);
        if (width as u128) * (height as u128) * 3 != data.len() as u128 {
            return None;
        }
        let n = width as usize * height as usize;
        assert(data@.len() == 3 * n);
        let mut pixels: Vec<[u8; 3]> = Vec::new();
        let mut k: usize = 0;
        while k < n
            invariant
                n == width * height,
                data@.len() == 3 * n,
                3 * n <= usize::MAX,
                k <= n,
                pixels@.len() == k,
                forall|j: int|
                    0 <= j < k ==> {
                        &&& (#[trigger] pixels@[j])[0] == data@[3 * j]
                        &&& pixels@[j][1] == data@[3 * j + 1]
                        &&& pixels@[j][2] == data@[3 * j + 2]
                    },
            decreases n - k,
        {
            pixels.push([data[3 * k], data[3 * k + 1], data[3 * k + 2]]);
            k = k + 1;
        }
        let g = RgbGrid { width, height, pixels };
        assert forall|x: int, y: int| #[trigger] g.in_bounds(x, y) implies {
            let i = 3 * row_major(width as int, x, y);
            &&& g.pixel(x, y)[0] == data@[i]
            &&& g.pixel(x, y)[1] == data@[i + 1]
            &&& g.pixel(x, y)[2] == data@[i + 2]
        } by {
            lemma_row_major(width as int, height as int, x, y, x, y);
            let j = row_major(width as int, x, y);
            assert(g.pixel(x, y) == pixels@[j]);
        }
        Some(g)
    }

    /// The raw bytes of the image: three channel bytes for each pixel, row by row.
    pub fn into_raw(self) -> (r: Vec<u8>)
        requires
            self.wf(),
        ensures
            r@.len() == 3 * self.spec_width() * self.spec_height(),
            forall|x: int, y: int| #[trigger]
                self.in_bounds(x, y) ==> {
                    let i = 3 * row_major(self.spec_width(), x, y);
                    &&& r@[i] == self.pixel(x, y)[0]
                    &&& r@[i + 1] == self.pixel(x, y)[1]
                    &&& r@[i + 2] == self.pixel(x, y)[2]
                },
    {
        let n = self.pixels.len();
        assert(3 * self.width * self.height == 3 * ((self.width as int) * (self.height as int)))
            by (nonlinear_arith);
        let mut data: Vec<u8> = Vec::new();
        let mut k: usize = 0;
        while k < n
            invariant
                n == self.pixels@.len(),
                k <= n,
                data@.len() == 3 * k,
                forall|j: int|
                    0 <= j < k ==> {
                        &&& data@[3 * j] == (#[trigger] self.pixels@[j])[0]
                        &&& data@[3 * j + 1] == self.pixels@[j][1]
                        &&& data@[3 * j + 2] == self.pixels@[j][2]
                    },
            decreases n - k,
        {
            let p = self.pixels[k];
            data.push(p[0]);
            data.push(p[1]);
            data.push(p[2]);
            k = k + 1;
        }
        assert forall|x: int, y: int| #[trigger] self.in_bounds(x, y) implies {
            let i = 3 * row_major(self.spec_width(), x, y);
            &&& data@[i] == self.pixel(x, y)[0]
            &&& data@[i + 1] == self.pixel(x, y)[1]
            &&& data@[i + 2] == self.pixel(x, y)[2]
        } by {
            lemma_row_major(self.width as int, self.height as int, x, y, x, y);
            let j = row_major(self.width as int, x, y);
            assert(self.pixel(x, y) == self.pixels@[j]);
        }
        data
    }

    pub fn width(&self) -> (r: u32)
        ensures
            r == self.spec_width(),
    {
        self.width
    }

    pub fn height(&self) -> (r: u32)
        ensures
            r == self.spec_height(),
    {
        self.height
    }

    /// The pixel at `(x, y)`.
    pub fn get_pixel(&self, x: u32, y: u32) -> (r: [u8; 3])
        requires
            self.wf(),
            self.in_bounds(x as int, y as int),
        ensures
            r == self.pixel(x as int, y as int),
    {
        proof {
            lemma_row_major(self.width as int, self.height as int, x as int, y as int, x as int, y as int);
        }
        let len = self.pixels.len();
        assert((y as int) * (self.width as int) <= row_major(self.width as int, x as int, y as int));
        self.pixels[y as usize * self.width as usize + x as usize]
    }

    /// Sets the pixel at `(x, y)` to `p`; every other pixel stays.
    pub fn put_pixel(&mut self, x: u32, y: u32, p: [u8; 3])
        requires
            old(self).wf(),
            old(self).in_bounds(x as int, y as int),
        ensures
            final(self).wf(),
            final(self).spec_width() == old(self).spec_width(),
            final(self).spec_height() == old(self).spec_height(),
            forall|x2: int, y2: int|
                old(self).in_bounds(x2, y2) ==> #[trigger] final(self).pixel(x2, y2) == if x2 == x && y2 == y {
                    p
                } else {
                    old(self).pixel(x2, y2)
                },
    {
        proof {
            lemma_row_major(self.width as int, self.height as int, x as int, y as int, x as int, y as int);
        }
        let len = self.pixels.len();
        assert((y as int) * (self.width as int) <= row_major(self.width as int, x as int, y as int));
        let i = y as usize * self.width as usize + x as usize;
        self.pixels.set(i, p);
        assert forall|x2: int, y2: int| old(self).in_bounds(x2, y2) implies #[trigger] self.pixel(
            x2,
            y2,
        ) == if x2 == x && y2 == y {
            p
        } else {
            old(self).pixel(x2, y2)
        } by {
            lemma_row_major(self.width as int, self.height as int, x as int, y as int, x2, y2);
            lemma_row_major(self.width as int, self.height as int, x2, y2, x2, y2);
            assert(self.pixel(x2, y2) == self.pixels@[row_major(self.width as int, x2, y2)]);
            assert(old(self).pixel(x2, y2) == old(self).pixels@[row_major(self.width as int, x2, y2)]);
        }
    }
}

} // verus!
