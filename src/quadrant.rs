use vstd::prelude::*;

verus! {

/// The offsets `(dx, dy)` all land inside a `width` by `height` image from `(x, y)`.
pub open spec fn offsets_inside(
    width: int,
    height: int,
    x: int,
    y: int,
    offsets: Seq<(i32, i32)>,
) -> bool {
    forall|i: int|
        0 <= i < offsets.len() ==> {
            &&& 0 <= x + (#[trigger] offsets[i]).0 < width
            &&& 0 <= y + offsets[i].1 < height
        }
}

/// One of the four rectangles that meet at the centre of the image. Left
/// and right quadrants share the column `width / 2 - 1`, top and bottom
/// ones the row `height / 2 - 1`.
#[derive(Clone, Copy, Debug, PartialEq, Eq, Structural)]
pub enum Quadrant {
    TopLeft,
    BottomLeft,
    TopRight,
    BottomRight,
}

impl Quadrant {
    pub open spec fn is_left(self) -> bool {
        self == Quadrant::TopLeft || self == Quadrant::BottomLeft
    }

    pub open spec fn is_top(self) -> bool {
        self == Quadrant::TopLeft || self == Quadrant::TopRight
    }

    /// First column of the quadrant.
    pub open spec fn x_start(self, width: int) -> int {
        if self.is_left() {
            0
        } else {
            width / 2 - 1
        }
    }

    /// Column just past the quadrant.
    pub open spec fn x_end(self, width: int) -> int {
        if self.is_left() {
            width / 2
        } else {
            width
        }
    }

    /// First row of the quadrant.
    pub open spec fn y_start(self, height: int) -> int {
        if self.is_top() {
            0
        } else {
            height / 2 - 1
        }
    }

    /// Row just past the quadrant.
    pub open spec fn y_end(self, height: int) -> int {
        if self.is_top() {
            height / 2
        } else {
            height
        }
    }

    /// `(x, y)` lies in this quadrant of a `width` by `height` image.
    pub open spec fn contains(self, width: int, height: int, x: int, y: int) -> bool {
        &&& self.x_start(width) <= x < self.x_end(width)
        &&& self.y_start(height) <= y < self.y_end(height)
    }

    /// The three neighbour offsets of the quadrant; each points away from
    /// the image corner that the quadrant touches.
    pub open spec fn spec_offsets(self) -> Seq<(i32, i32)> {
        match self {
            Quadrant::TopLeft => seq![(0i32, 1i32), (1i32, 0i32), (1i32, 1i32)],
            Quadrant::BottomLeft => seq![(0i32, -1i32), (1i32, 0i32), (1i32, -1i32)],
            Quadrant::TopRight => seq![(0i32, 1i32), (-1i32, 0i32), (-1i32, 1i32)],
            Quadrant::BottomRight => seq![(0i32, -1i32), (-1i32, 0i32), (-1i32, -1i32)],
        }
    }

    pub fn offsets(&self) -> (r: [(i32, i32); 3])
        ensures
            r@ == self.spec_offsets(),
    {
        let r = match self {
            Quadrant::TopLeft => [(0, 1), (1, 0), (1, 1)],
            Quadrant::BottomLeft => [(0, -1), (1, 0), (1, -1)],
            Quadrant::TopRight => [(0, 1), (-1, 0), (-1, 1)],
            Quadrant::BottomRight => [(0, -1), (-1, 0), (-1, -1)],
        };
        assert(r@ =~= self.spec_offsets());
        r
    }
}

/// The quadrant whose pass writes pixel `(x, y)` last, when the passes run
/// top-left, bottom-left, top-right, bottom-right.
pub open spec fn last_quadrant(width: int, height: int, x: int, y: int) -> Quadrant {
    if Quadrant::BottomRight.contains(width, height, x, y) {
        Quadrant::BottomRight
    } else if Quadrant::TopRight.contains(width, height, x, y) {
        Quadrant::TopRight
    } else if Quadrant::BottomLeft.contains(width, height, x, y) {
        Quadrant::BottomLeft
    } else {
        Quadrant::TopLeft
    }
}

/// `(x, y)` lies on the shared column or the shared row of the quadrants.
pub open spec fn on_seam(width: int, height: int, x: int, y: int) -> bool {
    x == width / 2 - 1 || y == height / 2 - 1
}

/// In an image of at least 4 by 4 pixels, the quadrants cover exactly the
/// image; a pixel lies in two of them or more exactly when it is on the
/// seam; and no quadrant's offsets lead from one of its pixels out of the
/// image.
pub proof fn lemma_quadrants_partition(width: int, height: int, x: int, y: int)
    requires
        width >= 4,
        height >= 4,
    ensures
        (0 <= x < width && 0 <= y < height) <==> (
        Quadrant::TopLeft.contains(width, height, x, y)
            || Quadrant::BottomLeft.contains(width, height, x, y)
            || Quadrant::TopRight.contains(width, height, x, y)
            || Quadrant::BottomRight.contains(width, height, x, y)),
        forall|q1: Quadrant, q2: Quadrant|
            q1 != q2 && q1.contains(width, height, x, y) && q2.contains(width, height, x, y)
                ==> on_seam(width, height, x, y),
        (0 <= x < width && 0 <= y < height && on_seam(width, height, x, y)) ==> exists|
            q1: Quadrant,
            q2: Quadrant,
        | q1 != q2 && q1.contains(width, height, x, y) && q2.contains(width, height, x, y),
        forall|q: Quadrant|
            q.contains(width, height, x, y) ==> offsets_inside(
                width,
                height,
                x,
                y,
                q.spec_offsets(),
            ),
{
    if 0 <= x < width && 0 <= y < height && on_seam(width, height, x, y) {
        if x == width / 2 - 1 {
            if y < height / 2 {
                assert(Quadrant::TopLeft.contains(width, height, x, y));
                assert(Quadrant::TopRight.contains(width, height, x, y));
            } else {
                assert(Quadrant::BottomLeft.contains(width, height, x, y));
                assert(Quadrant::BottomRight.contains(width, height, x, y));
            }
        } else {
            if x < width / 2 {
                assert(Quadrant::TopLeft.contains(width, height, x, y));
                assert(Quadrant::BottomLeft.contains(width, height, x, y));
            } else {
                assert(Quadrant::TopRight.contains(width, height, x, y));
                assert(Quadrant::BottomRight.contains(width, height, x, y));
            }
        }
    }
    assert forall|q: Quadrant| q.contains(width, height, x, y) implies offsets_inside(
        width,
        height,
        x,
        y,
        q.spec_offsets(),
    ) by {
        lemma_offsets_inside(q, width, height, x, y);
    }
}

/// A quadrant's offsets stay inside an image of at least 4 by 4 pixels.
pub proof fn lemma_offsets_inside(q: Quadrant, width: int, height: int, x: int, y: int)
    requires
        width >= 4,
        height >= 4,
        q.contains(width, height, x, y),
    ensures
        offsets_inside(width, height, x, y, q.spec_offsets()),
{
}

} // verus!
