use vstd::prelude::*;

use crate::grid::RgbGrid;
use crate::luminance::{lemma_lumin_range, lumin_of, pixel_lumin, pixel_lumin_spec, LUMIN_MAX};
use crate::quadrant::{
    last_quadrant, lemma_offsets_inside, lemma_quadrants_partition, on_seam, offsets_inside, Quadrant,
};
use crate::shade::{gray_value, lemma_shade_of_zero, shade_of};

verus! {

/// Luminance of pixel `(x, y)` of `img`.
pub open spec fn lumin_at(img: RgbGrid, x: int, y: int) -> int {
    pixel_lumin_spec(img.pixel(x, y))
}

pub open spec fn abs_diff(a: int, b: int) -> int {
    if a >= b {
        a - b
    } else {
        b - a
    }
}

/// Sum of the absolute luminance differences between `(x, y)` and the
/// pixels at its first three offsets.
pub open spec fn diff_sum(img: RgbGrid, x: int, y: int, offsets: Seq<(i32, i32)>) -> int {
    let l = lumin_at(img, x, y);
    abs_diff(l, lumin_at(img, x + offsets[0].0, y + offsets[0].1)) + abs_diff(
        l,
        lumin_at(img, x + offsets[1].0, y + offsets[1].1),
    ) + abs_diff(l, lumin_at(img, x + offsets[2].0, y + offsets[2].1))
}

/// All three channels of `p` equal `g`.
pub open spec fn is_gray(p: [u8; 3], g: u8) -> bool {
    p[0] == g && p[1] == g && p[2] == g
}

/// The outline shade of pixel `(x, y)` of `img` with the given offsets.
pub open spec fn outline_shade(img: RgbGrid, x: int, y: int, offsets: Seq<(i32, i32)>) -> u8 {
    shade_of(diff_sum(img, x, y, offsets))
}

/// Position `v` has been passed after `n` steps over `[lo, hi)`, upward
/// from `lo` or downward from `hi - 1`.
pub open spec fn swept(ascending: bool, lo: int, hi: int, n: int, v: int) -> bool {
    if ascending {
        lo <= v < lo + n
    } else {
        hi - n <= v < hi
    }
}

/// Index of `(x, y)` in a luminance map stored column by column.
pub open spec fn col_major(height: int, x: int, y: int) -> int {
    x * height + y
}

proof fn lemma_col_major(width: int, height: int, x: int, y: int)
    requires
        0 <= x < width,
        0 <= y < height,
    ensures
        x * height <= col_major(height, x, y) < width * height,
        col_major(height, x, y) < (x + 1) * height,
{
    assert(x * height + y < width * height) by (nonlinear_arith)
        requires
            0 <= x < width,
            0 <= y < height,
    ;
    assert(x * height + y < (x + 1) * height) by (nonlinear_arith)
        requires
            0 <= y < height,
    ;
}

proof fn lemma_col_major_before(height: int, x1: int, y1: int, x2: int)
    requires
        0 <= x1 < x2,
        0 <= y1 < height,
    ensures
        col_major(height, x1, y1) < x2 * height,
{
    assert(x1 * height + y1 < x2 * height) by (nonlinear_arith)
        requires
            0 <= x1 < x2,
            0 <= y1 < height,
    ;
}

/// Draws the outline image of a picture: a luminance map taken once from
/// the picture, and an output image that the outline passes overwrite.
pub struct Outliner {
    source: Ghost<RgbGrid>,
    lumin_map: Vec<u32>,
    new_image: RgbGrid,
}

impl Outliner {
    /// The picture that the luminance map was taken from.
    pub closed spec fn source(&self) -> RgbGrid {
        self.source@
    }

    /// The output image as it stands.
    pub closed spec fn image(&self) -> RgbGrid {
        self.new_image
    }

    pub open spec fn spec_width(&self) -> int {
        self.source().spec_width()
    }

    pub open spec fn spec_height(&self) -> int {
        self.source().spec_height()
    }

    /// The luminance map holds, column by column, the luminance of every
    /// pixel of the source, and the output image has the source's size.
    pub closed spec fn wf(&self) -> bool {
        let src = self.source@;
        let h = src.spec_height();
        &&& src.wf()
        &&& self.new_image.wf()
        &&& self.new_image.spec_width() == src.spec_width()
        &&& self.new_image.spec_height() == h
        &&& self.lumin_map@.len() == src.spec_width() * h
        &&& forall|x: int, y: int|
            src.in_bounds(x, y) ==> self.lumin_map@[col_major(h, x, y)] == #[trigger] lumin_at(
                src,
                x,
                y,
            )
    }

    /// Takes the luminance map of `image`, column by column; the output
    /// image starts as `image` itself.
    pub fn new(image: RgbGrid) -> (r: Self)
        requires
            image.wf(),
        ensures
            r.wf(),
            r.source() == image,
            r.image() == image,
    {
        let width = image.width();
        let height = image.height();
        let mut lumin_map: Vec<u32> = Vec::new();
        let mut x: u32 = 0;
        while x < width
            invariant
                image.wf(),
                width == image.spec_width(),
                height == image.spec_height(),
                x <= width,
                lumin_map@.len() == x * height,
                forall|x2: int, y2: int|
                    0 <= x2 < x && 0 <= y2 < height ==> lumin_map@[col_major(height as int, x2, y2)]
                        == #[trigger] lumin_at(image, x2, y2),
            decreases width - x,
        {
            let mut y: u32 = 0;
            while y < height
                invariant
                    image.wf(),
                    width == image.spec_width(),
                    height == image.spec_height(),
                    x < width,
                    y <= height,
                    lumin_map@.len() == x * height + y,
                    forall|x2: int, y2: int|
                        (0 <= x2 < x && 0 <= y2 < height) || (x2 == x && 0 <= y2 < y)
                            ==> lumin_map@[col_major(height as int, x2, y2)] == #[trigger] lumin_at(
                            image,
                            x2,
                            y2,
                        ),
                decreases height - y,
            {
                let l = pixel_lumin(&image.get_pixel(x, y));
                let ghost before = lumin_map@;
                lumin_map.push(l);
                assert forall|x2: int, y2: int|
                    (0 <= x2 < x && 0 <= y2 < height) || (x2 == x && 0 <= y2 <= y) implies lumin_map@[col_major(
                    height as int,
                    x2,
                    y2,
                )] == #[trigger] lumin_at(image, x2, y2) by {
                    if x2 < x {
                        lemma_col_major_before(height as int, x2, y2, x as int);
                        lemma_col_major(width as int, height as int, x2, y2);
                        assert(lumin_map@[col_major(height as int, x2, y2)] == before[col_major(
                            height as int,
                            x2,
                            y2,
                        )]);
                    } else if y2 < y {
                        assert(lumin_map@[col_major(height as int, x2, y2)] == before[col_major(
                            height as int,
                            x2,
                            y2,
                        )]);
                    }
                }
                y = y + 1;
            }
            assert(x * height + height == (x + 1) * height) by (nonlinear_arith);
            x = x + 1;
        }
        let r = Outliner { source: Ghost(image), lumin_map, new_image: image };
        r
    }

    /// The output image as it stands.
    pub fn into_image(self) -> (r: RgbGrid)
        ensures
            r == self.image(),
    {
        self.new_image
    }

    /// Gets the luminance at `(x, y)` from the luminance map.
    pub fn get_lumin(&self, x: u32, y: u32) -> (r: u32)
        requires
            self.wf(),
            self.source().in_bounds(x as int, y as int),
        ensures
            r == lumin_at(self.source(), x as int, y as int),
            r <= LUMIN_MAX,
    {
        let height = self.new_image.height();
        let len = self.lumin_map.len();
        proof {
            lemma_col_major(self.spec_width(), height as int, x as int, y as int);
            let p = self.source@.pixel(x as int, y as int);
            lemma_lumin_range(p[0], p[1], p[2]);
            assert(lumin_at(self.source@, x as int, y as int) == lumin_of(p[0], p[1], p[2]));
        }
        self.lumin_map[x as usize * height as usize + y as usize]
    }

    /// Absolute luminance difference between `lumin`, that of `(x, y)`,
    /// and the pixel at `offset` from it.
    fn neighbor_diff(&self, x: u32, y: u32, lumin: u32, offset: (i32, i32)) -> (r: u32)
        requires
            self.wf(),
            self.source().in_bounds(x as int, y as int),
            lumin == lumin_at(self.source(), x as int, y as int),
            self.source().in_bounds(x + offset.0, y + offset.1),
        ensures
            r == abs_diff(lumin as int, lumin_at(self.source(), x + offset.0, y + offset.1)),
            r <= LUMIN_MAX,
    {
        proof {
            self.source@.lemma_size();
        }
        let new_x = (x as i64 + offset.0 as i64) as u32;
        let new_y = (y as i64 + offset.1 as i64) as u32;
        assert(new_x == x + offset.0);
        assert(new_y == y + offset.1);
        let other = self.get_lumin(new_x, new_y);
        if lumin >= other {
            lumin - other
        } else {
            other - lumin
        }
    }

    /// Writes the outline shade of `(x, y)` into the output image: the
    /// mean of the luminance differences to the three neighbours at
    /// `comp_indices`, mapped to gray by `shade_of`.
    pub fn draw_outline(&mut self, x: u32, y: u32, comp_indices: &[(i32, i32)])
        requires
            old(self).wf(),
            old(self).source().in_bounds(x as int, y as int),
            comp_indices@.len() == 3,
            offsets_inside(
                old(self).spec_width(),
                old(self).spec_height(),
                x as int,
                y as int,
                comp_indices@,
            ),
        ensures
            final(self).wf(),
            final(self).source() == old(self).source(),
            forall|x2: int, y2: int|
                old(self).source().in_bounds(x2, y2) ==> if x2 == x && y2 == y {
                    is_gray(
                        #[trigger] final(self).image().pixel(x2, y2),
                        outline_shade(old(self).source(), x2, y2, comp_indices@),
                    )
                } else {
                    final(self).image().pixel(x2, y2) == old(self).image().pixel(x2, y2)
                },
    {
        let lumin = self.get_lumin(x, y);
        let d0 = self.neighbor_diff(x, y, lumin, comp_indices[0]);
        let d1 = self.neighbor_diff(x, y, lumin, comp_indices[1]);
        let d2 = self.neighbor_diff(x, y, lumin, comp_indices[2]);
        let gray = gray_value(d0 + d1 + d2);
        let p: [u8; 3] = [gray, gray, gray];
        assert(is_gray(p, gray));
        self.new_image.put_pixel(x, y, p);
    }

    /// Sweeps quadrant `q`, starting at the image corner that it touches
    /// and moving away from it, drawing the outline of each of its pixels
    /// with the quadrant's offsets. Pixels outside the quadrant stay.
    pub fn draw_quadrant(&mut self, q: Quadrant)
        requires
            old(self).wf(),
            old(self).spec_width() >= 4,
            old(self).spec_height() >= 4,
        ensures
            final(self).wf(),
            final(self).source() == old(self).source(),
            forall|x: int, y: int|
                old(self).source().in_bounds(x, y) ==> if q.contains(
                    old(self).spec_width(),
                    old(self).spec_height(),
                    x,
                    y,
                ) {
                    is_gray(
                        #[trigger] final(self).image().pixel(x, y),
                        outline_shade(old(self).source(), x, y, q.spec_offsets()),
                    )
                } else {
                    final(self).image().pixel(x, y) == old(self).image().pixel(x, y)
                },
    {
        let width = self.new_image.width();
        let height = self.new_image.height();
        let offsets = q.offsets();
        let left = match q {
            Quadrant::TopLeft | Quadrant::BottomLeft => true,
            _ => false,
        };
        let top = match q {
            Quadrant::TopLeft | Quadrant::TopRight => true,
            _ => false,
        };
        let (x_lo, x_hi) = if left {
            (0, width / 2)
        } else {
            (width / 2 - 1, width)
        };
        let (y_lo, y_hi) = if top {
            (0, height / 2)
        } else {
            (height / 2 - 1, height)
        };
        let ghost src = self.source();
        let ghost start = self.image();
        let mut i: u32 = 0;
        while i < x_hi - x_lo
            invariant
                self.wf(),
                self.source() == src,
                width == src.spec_width(),
                height == src.spec_height(),
                width >= 4,
                height >= 4,
                left == q.is_left(),
                top == q.is_top(),
                x_lo == q.x_start(width as int),
                x_hi == q.x_end(width as int),
                y_lo == q.y_start(height as int),
                y_hi == q.y_end(height as int),
                offsets@ == q.spec_offsets(),
                i <= x_hi - x_lo,
                forall|x: int, y: int|
                    src.in_bounds(x, y) ==> if q.contains(width as int, height as int, x, y)
                        && swept(left, x_lo as int, x_hi as int, i as int, x) {
                        is_gray(
                            #[trigger] self.image().pixel(x, y),
                            outline_shade(src, x, y, q.spec_offsets()),
                        )
                    } else {
                        self.image().pixel(x, y) == start.pixel(x, y)
                    },
            decreases x_hi - x_lo - i,
        {
            let x = if left {
                x_lo + i
            } else {
                x_hi - 1 - i
            };
            let mut j: u32 = 0;
            while j < y_hi - y_lo
                invariant
                    self.wf(),
                    self.source() == src,
                    width == src.spec_width(),
                    height == src.spec_height(),
                    width >= 4,
                    height >= 4,
                    left == q.is_left(),
                    top == q.is_top(),
                    x_lo == q.x_start(width as int),
                    x_hi == q.x_end(width as int),
                    y_lo == q.y_start(height as int),
                    y_hi == q.y_end(height as int),
                    offsets@ == q.spec_offsets(),
                    i < x_hi - x_lo,
                    x == if left {
                        x_lo + i
                    } else {
                        x_hi - 1 - i
                    },
                    j <= y_hi - y_lo,
                    forall|x2: int, y2: int|
                        src.in_bounds(x2, y2) ==> if q.contains(width as int, height as int, x2, y2)
                            && (swept(left, x_lo as int, x_hi as int, i as int, x2) || (x2 == x
                            && swept(top, y_lo as int, y_hi as int, j as int, y2))) {
                            is_gray(
                                #[trigger] self.image().pixel(x2, y2),
                                outline_shade(src, x2, y2, q.spec_offsets()),
                            )
                        } else {
                            self.image().pixel(x2, y2) == start.pixel(x2, y2)
                        },
                decreases y_hi - y_lo - j,
            {
                let y = if top {
                    y_lo + j
                } else {
                    y_hi - 1 - j
                };
                proof {
                    lemma_offsets_inside(q, width as int, height as int, x as int, y as int);
                }
                self.draw_outline(x, y, &offsets);
                j = j + 1;
            }
            i = i + 1;
        }
    }

    /// Runs the four quadrant passes in order: top-left, bottom-left,
    /// top-right, bottom-right. A pixel on the seam keeps the shade of the
    /// last pass that covers it.
    pub fn draw_all(&mut self)
        requires
            old(self).wf(),
            old(self).spec_width() >= 4,
            old(self).spec_height() >= 4,
        ensures
            final(self).wf(),
            final(self).source() == old(self).source(),
            forall|x: int, y: int|
                old(self).source().in_bounds(x, y) ==> is_gray(
                    #[trigger] final(self).image().pixel(x, y),
                    outline_shade(
                        old(self).source(),
                        x,
                        y,
                        last_quadrant(old(self).spec_width(), old(self).spec_height(), x, y).spec_offsets(),
                    ),
                ),
    {
        self.draw_quadrant(Quadrant::TopLeft);
        let ghost s1 = self.image();
        self.draw_quadrant(Quadrant::BottomLeft);
        let ghost s2 = self.image();
        self.draw_quadrant(Quadrant::TopRight);
        let ghost s3 = self.image();
        self.draw_quadrant(Quadrant::BottomRight);
        let ghost w = self.spec_width();
        let ghost h = self.spec_height();
        assert forall|x: int, y: int| old(self).source().in_bounds(x, y) implies is_gray(
            #[trigger] self.image().pixel(x, y),
            outline_shade(old(self).source(), x, y, last_quadrant(w, h, x, y).spec_offsets()),
        ) by {
            lemma_quadrants_partition(w, h, x, y);
        }
    }
}

/// The outline image of `image`: every pixel gets the shade of the last
/// quadrant pass that covers it, from the luminance differences to its
/// three neighbours by that quadrant's offsets. The result has the size of
/// `image`, and each of its pixels is gray.
pub fn outline(image: RgbGrid) -> (r: RgbGrid)
    requires
        image.wf(),
        image.spec_width() >= 4,
        image.spec_height() >= 4,
    ensures
        r.wf(),
        r.spec_width() == image.spec_width(),
        r.spec_height() == image.spec_height(),
        forall|x: int, y: int|
            image.in_bounds(x, y) ==> is_gray(
                #[trigger] r.pixel(x, y),
                outline_shade(
                    image,
                    x,
                    y,
                    last_quadrant(image.spec_width(), image.spec_height(), x, y).spec_offsets(),
                ),
            ),
{
    let mut outliner = Outliner::new(image);
    outliner.draw_all();
    outliner.into_image()
}

/// In a uniform image of at least 4 by 4 pixels there is no luminance
/// difference anywhere, so every quadrant gives every pixel it covers the
/// shade 255, white.
pub proof fn lemma_uniform_is_white(image: RgbGrid, color: [u8; 3], x: int, y: int)
    requires
        image.wf(),
        image.spec_width() >= 4,
        image.spec_height() >= 4,
        forall|x2: int, y2: int| image.in_bounds(x2, y2) ==> #[trigger] image.pixel(x2, y2) == color,
        image.in_bounds(x, y),
    ensures
        forall|q: Quadrant|
            q.contains(image.spec_width(), image.spec_height(), x, y) ==> outline_shade(
                image,
                x,
                y,
                q.spec_offsets(),
            ) == 255,
        outline_shade(
            image,
            x,
            y,
            last_quadrant(image.spec_width(), image.spec_height(), x, y).spec_offsets(),
        ) == 255,
{
    let w = image.spec_width();
    let h = image.spec_height();
    lemma_shade_of_zero();
    lemma_quadrants_partition(w, h, x, y);
    assert forall|q: Quadrant| q.contains(w, h, x, y) implies outline_shade(
        image,
        x,
        y,
        q.spec_offsets(),
    ) == 255 by {
        let offs = q.spec_offsets();
        lemma_offsets_inside(q, w, h, x, y);
        assert(image.pixel(x + offs[0].0, y + offs[0].1) == color);
        assert(image.pixel(x + offs[1].0, y + offs[1].1) == color);
        assert(image.pixel(x + offs[2].0, y + offs[2].1) == color);
        assert(diff_sum(image, x, y, offs) == 0);
    }
}

/// Off the seam a pixel lies in exactly one quadrant, so whatever order the
/// passes run in, only that quadrant's pass writes it; and its shade is
/// fixed by its own luminance and that of its three neighbours by that
/// quadrant's offsets: two images that agree there give it the same shade.
pub proof fn lemma_off_seam_shade(a: RgbGrid, b: RgbGrid, x: int, y: int)
    requires
        a.spec_width() == b.spec_width(),
        a.spec_height() == b.spec_height(),
        a.spec_width() >= 4,
        a.spec_height() >= 4,
        a.in_bounds(x, y),
        !on_seam(a.spec_width(), a.spec_height(), x, y),
        lumin_at(a, x, y) == lumin_at(b, x, y),
        forall|i: int|
            0 <= i < 3 ==> {
                let d = #[trigger] last_quadrant(
                    a.spec_width(),
                    a.spec_height(),
                    x,
                    y,
                ).spec_offsets()[i];
                lumin_at(a, x + d.0, y + d.1) == lumin_at(b, x + d.0, y + d.1)
            },
    ensures
        forall|q: Quadrant|
            q.contains(a.spec_width(), a.spec_height(), x, y) <==> q == last_quadrant(
                a.spec_width(),
                a.spec_height(),
                x,
                y,
            ),
        outline_shade(
            a,
            x,
            y,
            last_quadrant(a.spec_width(), a.spec_height(), x, y).spec_offsets(),
        ) == outline_shade(
            b,
            x,
            y,
            last_quadrant(a.spec_width(), a.spec_height(), x, y).spec_offsets(),
        ),
{
    let w = a.spec_width();
    let h = a.spec_height();
    lemma_quadrants_partition(w, h, x, y);
    let offs = last_quadrant(w, h, x, y).spec_offsets();
    assert(diff_sum(a, x, y, offs) == diff_sum(b, x, y, offs));
}

} // verus!
