use vstd::prelude::*;

use crate::geometry::DisplayGeometry;
use crate::geometry::Point;
use crate::pixel::Pixel;
use crate::pixel::written;

verus! {

/// A 2D grid of pixels anchored at a point.  `pixels[row][col]`
/// addresses screen position `(location.x + col, location.y + row)`.
pub struct Rectangle {
    pub location: Point,
    pub height: usize,
    pub width: usize,
    pub pixels: Vec<Vec<Pixel>>,
}

impl Rectangle {
    /// The pixel grid has exactly `height` rows of `width` pixels each.
    pub open spec fn grid_wf(self) -> bool {
        &&& self.pixels.len() == self.height
        &&& forall|i: int| 0 <= i < self.height ==> #[trigger] self.pixels[i].len() == self.width
    }

    /// Every pixel's offset follows the addressing formula for `g`.
    pub open spec fn matches_geometry(self, g: DisplayGeometry) -> bool {
        forall|i: int, k: int|
            0 <= i < self.height && 0 <= k < self.width ==> #[trigger] self.pixels[i][k].index
                == g.offset_at(self.location.x + k, self.location.y + i)
    }

    /// The rectangle's footprint lies within the addressable area of `g`.
    pub open spec fn fits(self, g: DisplayGeometry) -> bool {
        &&& self.location.y + self.height <= g.height
        &&& (self.location.x + self.width) * g.bytes_per_pixel <= g.row_stride
    }

    /// Distinct grid positions cover disjoint 3-byte channel ranges.
    pub open spec fn disjoint_pixels(self) -> bool {
        forall|i1: int, k1: int, i2: int, k2: int|
            0 <= i1 < self.height && 0 <= k1 < self.width && 0 <= i2 < self.height && 0 <= k2
                < self.width && (i1 != i2 || k1 != k2) ==> #[trigger] self.pixels[i1][k1].index + 3
                <= #[trigger] self.pixels[i2][k2].index || self.pixels[i2][k2].index + 3
                <= self.pixels[i1][k1].index
    }

    /// Every pixel's three channel bytes lie below `len`.
    pub open spec fn in_bounds(self, len: int) -> bool {
        forall|i: int, k: int|
            0 <= i < self.height && 0 <= k < self.width ==> #[trigger] self.pixels[i][k].index + 2
                < len
    }

    /// A rectangle as `from_dimensions` builds it against `g`: grid shape,
    /// addressing formula, footprint within the display, disjoint pixels,
    /// and all offsets inside the backing buffer.
    pub open spec fn placed(self, g: DisplayGeometry) -> bool {
        &&& self.grid_wf()
        &&& self.matches_geometry(g)
        &&& self.fits(g)
        &&& self.disjoint_pixels()
        &&& self.in_bounds(g.buffer_len())
    }

    /// What `fill` needs of a rectangle: a well-shaped grid of pixels
    /// with disjoint channel ranges, all inside a buffer of length `len`.
    pub open spec fn fillable(self, len: int) -> bool {
        &&& self.grid_wf()
        &&& self.disjoint_pixels()
        &&& self.in_bounds(len)
    }

    /// The set of channel-base offsets of this rectangle's pixels.
    pub open spec fn offsets(self) -> Set<int> {
        Set::new(|o: int| self.covers_base(o))
    }

    /// `j` is the channel base (blue byte) of some pixel of this rectangle.
    pub open spec fn covers_base(self, j: int) -> bool {
        exists|i: int, k: int|
            0 <= i < self.height && 0 <= k < self.width && #[trigger] self.pixels[i][k].index == j
    }

    /// The buffer after filling this rectangle with `rgb`: each pixel's
    /// three channel bytes hold the color (blue, green, red in
    /// increasing offset order), every other byte is unchanged.
    pub open spec fn fill_result(self, buf: Seq<u8>, rgb: (u8, u8, u8)) -> Seq<u8> {
        Seq::new(
            buf.len(),
            |j: int|
                if self.covers_base(j) {
                    rgb.2
                } else if self.covers_base(j - 1) {
                    rgb.1
                } else if self.covers_base(j - 2) {
                    rgb.0
                } else {
                    buf[j]
                },
        )
    }

    /// Like `covers_base`, restricted to the pixels that precede row
    /// `rows`, or stand in row `rows` before column `cols`, in row-major
    /// order.
    spec fn covers_base_upto(self, j: int, rows: int, cols: int) -> bool {
        exists|i: int, k: int|
            0 <= i < self.height && 0 <= k < self.width && (i < rows || (i == rows && k < cols))
                && #[trigger] self.pixels[i][k].index == j
    }

    /// The buffer state after filling, in row-major order, every pixel
    /// that precedes position `(rows, cols)`.
    spec fn fill_upto(self, buf: Seq<u8>, rgb: (u8, u8, u8), rows: int, cols: int) -> Seq<u8> {
        Seq::new(
            buf.len(),
            |j: int|
                if self.covers_base_upto(j, rows, cols) {
                    rgb.2
                } else if self.covers_base_upto(j - 1, rows, cols) {
                    rgb.1
                } else if self.covers_base_upto(j - 2, rows, cols) {
                    rgb.0
                } else {
                    buf[j]
                },
        )
    }

    /// Creates a new `Rectangle` from the given dimensions, assigning
    /// every pixel the byte offset of its screen position under `g`.
    #[verifier::loop_isolation(false)]
    pub fn from_dimensions(loc: &Point, height: usize, width: usize, g: &DisplayGeometry) -> (r:
        Rectangle)
        requires
            g.wf(),
            loc.y + height <= g.height,
            (loc.x + width) * g.bytes_per_pixel <= g.row_stride,
        ensures
            r.location == *loc,
            r.height == height,
            r.width == width,
            r.placed(*g),
    {
        let row_stride = g.row_stride;
        let bpp = g.bytes_per_pixel;
        let mut rows: Vec<Vec<Pixel>> = Vec::new();
        let mut i: usize = 0;
        while i < height
            invariant
                i <= height,
                rows.len() == i,
                forall|i2: int| 0 <= i2 < i ==> #[trigger] rows[i2].len() == width,
                forall|i2: int, k2: int|
                    0 <= i2 < i && 0 <= k2 < width ==> #[trigger] rows[i2][k2].index == g.offset_at(
                        loc.x + k2,
                        loc.y + i2,
                    ),
            decreases height - i,
        {
            let mut pixel_line: Vec<Pixel> = Vec::new();
            let mut k: usize = 0;
            while k < width
                invariant
                    i < height,
                    k <= width,
                    pixel_line.len() == k,
                    forall|k2: int|
                        0 <= k2 < k ==> #[trigger] pixel_line[k2].index == g.offset_at(
                            loc.x + k2,
                            loc.y + i,
                        ),
                decreases width - k,
            {
                proof {
                    lemma_offset_bound_core(
                        g.row_stride as int,
                        g.bytes_per_pixel as int,
                        g.height as int,
                        loc.x + width,
                        loc.x + k,
                        loc.y + i,
                    );
                }
                let index = (i + loc.y) * row_stride + (k + loc.x) * bpp;
                pixel_line.push(Pixel { index });
                k = k + 1;
            }
            rows.push(pixel_line);
            i = i + 1;
        }
        let r = Rectangle { location: *loc, height, width, pixels: rows };
        proof {
            assert forall|i1: int, k1: int|
                0 <= i1 < r.height && 0 <= k1 < r.width implies #[trigger] r.pixels[i1][k1].index
                + 2 < g.buffer_len() by {
                lemma_offset_bound_core(
                    g.row_stride as int,
                    g.bytes_per_pixel as int,
                    g.height as int,
                    loc.x + width,
                    loc.x + k1,
                    loc.y + i1,
                );
            }
            assert forall|i1: int, k1: int, i2: int, k2: int|
                0 <= i1 < r.height && 0 <= k1 < r.width && 0 <= i2 < r.height && 0 <= k2 < r.width
                    && (i1 != i2 || k1 != k2) implies #[trigger] r.pixels[i1][k1].index + 3
                <= #[trigger] r.pixels[i2][k2].index || r.pixels[i2][k2].index + 3
                <= r.pixels[i1][k1].index by {
                lemma_offsets_disjoint_core(
                    g.row_stride as int,
                    g.bytes_per_pixel as int,
                    loc.x as int,
                    loc.y as int,
                    width as int,
                    i1,
                    k1,
                    i2,
                    k2,
                );
            }
        }
        r
    }

    /// Fills the rectangle with a given color, writing every pixel's
    /// three channel bytes in row-major order.
    #[verifier::loop_isolation(false)]
    pub fn fill(&self, buffer: &mut Vec<u8>, rgb: (u8, u8, u8))
        requires
            self.fillable(old(buffer).len() as int),
        ensures
            final(buffer)@ == self.fill_result(old(buffer)@, rgb),
            final(buffer).len() == old(buffer).len(),
    {
        let ghost buf0 = buffer@;
        proof {
            self.lemma_fill_upto_start(buf0, rgb);
        }
        let mut i: usize = 0;
        while i < self.height
            invariant
                i <= self.height,
                buffer.len() == buf0.len(),
                buffer@ == self.fill_upto(buf0, rgb, i as int, 0),
            decreases self.height - i,
        {
            let mut k: usize = 0;
            while k < self.width
                invariant
                    i < self.height,
                    k <= self.width,
                    buffer.len() == buf0.len(),
                    buffer@ == self.fill_upto(buf0, rgb, i as int, k as int),
                decreases self.width - k,
            {
                assert(i < self.pixels.len());
                assert(k < self.pixels[i as int].len());
                let p = self.pixels[i][k];
                proof {
                    self.lemma_fill_step(buf0, buffer@, rgb, i as int, k as int);
                }
                p.set_rgb(buffer, rgb.0, rgb.1, rgb.2);
                k = k + 1;
            }
            proof {
                self.lemma_fill_upto_row_wrap(buf0, rgb, i as int);
            }
            i = i + 1;
        }
        proof {
            self.lemma_fill_upto_end(buf0, rgb);
        }
    }

    /// Before any pixel is processed the buffer is unchanged.
    proof fn lemma_fill_upto_start(self, buf: Seq<u8>, rgb: (u8, u8, u8))
        ensures
            self.fill_upto(buf, rgb, 0, 0) == buf,
    {
        assert(self.fill_upto(buf, rgb, 0, 0) =~= buf);
    }

    /// After the last row the partial fill is the whole fill.
    proof fn lemma_fill_upto_end(self, buf: Seq<u8>, rgb: (u8, u8, u8))
        ensures
            self.fill_upto(buf, rgb, self.height as int, 0) == self.fill_result(buf, rgb),
    {
        assert forall|j: int| true implies self.covers_base_upto(j, self.height as int, 0)
            == self.covers_base(j) by {
            if self.covers_base_upto(j, self.height as int, 0) {
                let (i2, k2) = choose|i2: int, k2: int|
                    0 <= i2 < self.height && 0 <= k2 < self.width && (i2 < self.height || (i2
                        == self.height && k2 < 0)) && #[trigger] self.pixels[i2][k2].index == j;
                assert(self.pixels[i2][k2].index == j);
                assert(self.covers_base(j));
            }
            if self.covers_base(j) {
                let (i2, k2) = choose|i2: int, k2: int|
                    0 <= i2 < self.height && 0 <= k2 < self.width
                        && #[trigger] self.pixels[i2][k2].index == j;
                assert(i2 < self.height || (i2 == self.height && k2 < 0));
                assert(self.covers_base_upto(j, self.height as int, 0));
            }
        }
        assert(self.fill_upto(buf, rgb, self.height as int, 0) =~= self.fill_result(buf, rgb));
    }

    /// Finishing row `i` is the same as standing at the start of row
    /// `i + 1`.
    proof fn lemma_fill_upto_row_wrap(self, buf: Seq<u8>, rgb: (u8, u8, u8), i: int)
        requires
            0 <= i < self.height,
        ensures
            self.fill_upto(buf, rgb, i, self.width as int) == self.fill_upto(buf, rgb, i + 1, 0),
    {
        assert forall|j: int| true implies self.covers_base_upto(j, i, self.width as int)
            == self.covers_base_upto(j, i + 1, 0) by {
            if self.covers_base_upto(j, i, self.width as int) {
                let (i2, k2) = choose|i2: int, k2: int|
                    0 <= i2 < self.height && 0 <= k2 < self.width && (i2 < i || (i2 == i && k2
                        < self.width)) && #[trigger] self.pixels[i2][k2].index == j;
                assert(i2 < i + 1 || (i2 == i + 1 && k2 < 0));
                assert(self.covers_base_upto(j, i + 1, 0));
            }
            if self.covers_base_upto(j, i + 1, 0) {
                let (i2, k2) = choose|i2: int, k2: int|
                    0 <= i2 < self.height && 0 <= k2 < self.width && (i2 < i + 1 || (i2 == i + 1
                        && k2 < 0)) && #[trigger] self.pixels[i2][k2].index == j;
                assert(i2 < i || (i2 == i && k2 < self.width));
                assert(self.covers_base_upto(j, i, self.width as int));
            }
        }
        assert(self.fill_upto(buf, rgb, i, self.width as int) =~= self.fill_upto(
            buf,
            rgb,
            i + 1,
            0,
        ));
    }

    /// No pixel's channel base lies strictly inside the 3-byte range of
    /// the pixel at `(i, k)`, nor in the two bytes before it, other than
    /// the base itself.
    proof fn lemma_no_near_base(self, i: int, k: int, j: int)
        requires
            self.grid_wf(),
            self.disjoint_pixels(),
            0 <= i < self.height,
            0 <= k < self.width,
            self.pixels[i][k].index - 2 <= j <= self.pixels[i][k].index + 2,
            j != self.pixels[i][k].index,
        ensures
            !self.covers_base(j),
    {
        if self.covers_base(j) {
            let (i2, k2) = choose|i2: int, k2: int|
                0 <= i2 < self.height && 0 <= k2 < self.width && #[trigger] self.pixels[i2][k2].index
                    == j;
            assert(i2 != i || k2 != k);
            assert(self.pixels[i][k].index + 3 <= self.pixels[i2][k2].index || self.pixels[i2][k2].index
                + 3 <= self.pixels[i][k].index);
            assert(false);
        }
    }

    /// A pixel whose channel base is not `self.pixels[i][k].index` is
    /// processed before `(i, k + 1)` exactly when it is processed before
    /// `(i, k)`.
    proof fn lemma_upto_extend(self, i: int, k: int, j: int)
        requires
            self.grid_wf(),
            0 <= i < self.height,
            0 <= k < self.width,
            j != self.pixels[i][k].index,
        ensures
            self.covers_base_upto(j, i, k + 1) == self.covers_base_upto(j, i, k),
    {
        if self.covers_base_upto(j, i, k + 1) {
            let (i2, k2) = choose|i2: int, k2: int|
                0 <= i2 < self.height && 0 <= k2 < self.width && (i2 < i || (i2 == i && k2 < k + 1))
                    && #[trigger] self.pixels[i2][k2].index == j;
            assert(i2 != i || k2 != k);
            assert(i2 < i || (i2 == i && k2 < k));
            assert(self.covers_base_upto(j, i, k));
        }
        if self.covers_base_upto(j, i, k) {
            let (i2, k2) = choose|i2: int, k2: int|
                0 <= i2 < self.height && 0 <= k2 < self.width && (i2 < i || (i2 == i && k2 < k))
                    && #[trigger] self.pixels[i2][k2].index == j;
            assert(self.covers_base_upto(j, i, k + 1));
        }
    }

    /// Writing the color through the pixel at `(i, k)` advances the
    /// partial fill by one position.
    proof fn lemma_fill_step(self, buf0: Seq<u8>, cur: Seq<u8>, rgb: (u8, u8, u8), i: int, k: int)
        requires
            self.grid_wf(),
            self.disjoint_pixels(),
            self.in_bounds(buf0.len() as int),
            0 <= i < self.height,
            0 <= k < self.width,
            cur == self.fill_upto(buf0, rgb, i, k),
        ensures
            written(cur, self.pixels[i][k].index as int, rgb.0, rgb.1, rgb.2) == self.fill_upto(
                buf0,
                rgb,
                i,
                k + 1,
            ),
    {
        let idx = self.pixels[i][k].index as int;
        let lhs = written(cur, idx, rgb.0, rgb.1, rgb.2);
        let rhs = self.fill_upto(buf0, rgb, i, k + 1);
        assert(cur.len() == buf0.len());
        assert(idx + 2 < buf0.len());
        assert forall|j: int| 0 <= j < buf0.len() implies lhs[j] == rhs[j] by {
            if j == idx {
                assert(self.covers_base_upto(j, i, k + 1));
                assert(rhs[j] == rgb.2);
            } else if j == idx + 1 {
                self.lemma_no_near_base(i, k, j);
                assert(!self.covers_base_upto(j, i, k + 1));
                assert(self.covers_base_upto(j - 1, i, k + 1));
                assert(rhs[j] == rgb.1);
            } else if j == idx + 2 {
                self.lemma_no_near_base(i, k, j);
                self.lemma_no_near_base(i, k, j - 1);
                assert(!self.covers_base_upto(j, i, k + 1));
                assert(!self.covers_base_upto(j - 1, i, k + 1));
                assert(self.covers_base_upto(j - 2, i, k + 1));
                assert(rhs[j] == rgb.0);
            } else {
                self.lemma_upto_extend(i, k, j);
                self.lemma_upto_extend(i, k, j - 1);
                self.lemma_upto_extend(i, k, j - 2);
                assert(lhs[j] == cur[j]);
            }
        }
        assert(lhs =~= rhs);
    }
}

/// Within a rectangle whose pixels cover disjoint byte ranges, distinct
/// grid positions hold distinct offsets: every pixel of a well-formed
/// rectangle has a unique offset.
pub proof fn lemma_rect_offsets_unique(r: Rectangle)
    requires
        r.grid_wf(),
        r.disjoint_pixels(),
    ensures
        forall|i1: int, k1: int, i2: int, k2: int|
            0 <= i1 < r.height && 0 <= k1 < r.width && 0 <= i2 < r.height && 0 <= k2 < r.width && (
            i1 != i2 || k1 != k2) ==> #[trigger] r.pixels[i1][k1].index
                != #[trigger] r.pixels[i2][k2].index,
{
}

/// The offsets of a rectangle that follows the addressing formula are
/// exactly the formula offsets of its coordinate region.
pub proof fn lemma_placed_offsets(r: Rectangle, g: DisplayGeometry)
    requires
        r.grid_wf(),
        r.matches_geometry(g),
    ensures
        r.offsets() == crate::geometry::region_offsets(
            g,
            r.location.x as int,
            r.location.y as int,
            r.width as int,
            r.height as int,
        ),
{
    let x = r.location.x as int;
    let y = r.location.y as int;
    let ro = crate::geometry::region_offsets(g, x, y, r.width as int, r.height as int);
    assert forall|o: int| r.offsets().contains(o) == ro.contains(o) by {
        if r.offsets().contains(o) {
            let (i, k) = choose|i: int, k: int|
                0 <= i < r.height && 0 <= k < r.width && #[trigger] r.pixels[i][k].index == o;
            assert(o == g.offset_at(x + k, y + i));
            assert(ro.contains(o));
        }
        if ro.contains(o) {
            let (cx, cy) = choose|cx: int, cy: int|
                x <= cx < x + r.width && y <= cy < y + r.height && o == #[trigger] g.offset_at(
                    cx,
                    cy,
                );
            let i = cy - y;
            let k = cx - x;
            assert(r.pixels[i][k].index == g.offset_at(x + k, y + i));
            assert(r.covers_base(o));
        }
    }
    assert(r.offsets() =~= ro);
}

/// Filling a rectangle twice with the same color leaves the same buffer
/// state as filling it once.
pub proof fn lemma_fill_idempotent(r: Rectangle, buf: Seq<u8>, rgb: (u8, u8, u8))
    ensures
        r.fill_result(r.fill_result(buf, rgb), rgb) == r.fill_result(buf, rgb),
{
    let once = r.fill_result(buf, rgb);
    let twice = r.fill_result(once, rgb);
    assert(twice =~= once);
}

/// Offsets computed by the addressing formula stay at least one pixel
/// short of the end of the buffer.
proof fn lemma_offset_bound_core(rs: int, bpp: int, rows: int, cols_end: int, x: int, y: int)
    by (nonlinear_arith)
    requires
        bpp >= 1,
        0 <= x,
        x < cols_end,
        cols_end * bpp <= rs,
        0 <= y,
        y < rows,
    ensures
        0 <= y * rs,
        0 <= x * bpp,
        x < rs,
        y * rs + x * bpp + bpp <= rs * rows,
{
}

/// Two distinct grid positions of one rectangle are at least one whole
/// pixel apart in the buffer.
proof fn lemma_offsets_disjoint_core(
    rs: int,
    bpp: int,
    x: int,
    y: int,
    w: int,
    i1: int,
    k1: int,
    i2: int,
    k2: int,
)
    by (nonlinear_arith)
    requires
        bpp >= 3,
        0 <= x,
        0 <= y,
        1 <= w,
        (x + w) * bpp <= rs,
        0 <= k1 < w,
        0 <= k2 < w,
        0 <= i1,
        0 <= i2,
        i1 != i2 || k1 != k2,
    ensures
        (y + i1) * rs + (x + k1) * bpp + 3 <= (y + i2) * rs + (x + k2) * bpp || (y + i2) * rs + (x
            + k2) * bpp + 3 <= (y + i1) * rs + (x + k1) * bpp,
{
}

} // verus!
