use vstd::prelude::*;

verus! {

/// Display parameters reported by the device: number of pixel rows,
/// bytes per row (padding included), and bytes per on-screen pixel.
#[derive(Clone, Copy, PartialEq, Eq, Structural, Debug)]
pub struct DisplayGeometry {
    pub height: usize,
    pub row_stride: usize,
    pub bytes_per_pixel: usize,
}

impl DisplayGeometry {
    /// A geometry this library can address: every pixel is wide enough to
    /// hold the three color channel bytes, and the whole buffer length
    /// fits in `usize`.
    pub open spec fn wf(self) -> bool {
        &&& self.bytes_per_pixel >= 3
        &&& self.row_stride * self.height <= usize::MAX
    }

    /// Length of the backing buffer for this geometry.
    pub open spec fn buffer_len(self) -> int {
        self.row_stride * self.height
    }

    /// Byte offset of the screen position at column `x`, row `y`: the
    /// single addressing formula of the whole system.
    pub open spec fn offset_at(self, x: int, y: int) -> int {
        y * self.row_stride + x * self.bytes_per_pixel
    }
}

/// An unsigned 2D screen coordinate.
#[derive(Clone, Copy, PartialEq, Eq, Structural, Debug)]
pub struct Point {
    pub x: usize,
    pub y: usize,
}

impl Point {
    /// Creates a new `Point` with the given x, y coordinates.
    pub fn new(x: usize, y: usize) -> (p: Point)
        ensures
            p.x == x,
            p.y == y,
    {
        Point { x, y }
    }

    /// Returns this point moved right by `dx` and down by `dy`.
    pub fn translate(self, dx: usize, dy: usize) -> (p: Point)
        requires
            self.x + dx <= usize::MAX,
            self.y + dy <= usize::MAX,
        ensures
            p.x == self.x + dx,
            p.y == self.y + dy,
    {
        Point { x: self.x + dx, y: self.y + dy }
    }

    /// Moves this point in place right by `dx` and down by `dy`.
    pub fn translate_in_place(&mut self, dx: usize, dy: usize)
        requires
            old(self).x + dx <= usize::MAX,
            old(self).y + dy <= usize::MAX,
        ensures
            final(self).x == old(self).x + dx,
            final(self).y == old(self).y + dy,
    {
        self.x = self.x + dx;
        self.y = self.y + dy;
    }
}

impl From<(usize, usize)> for Point {
    /// Builds the point at `(p.0, p.1)`.
    fn from(p: (usize, usize)) -> Point {
        Point { x: p.0, y: p.1 }
    }
}

impl vstd::std_specs::convert::FromSpecImpl<(usize, usize)> for Point {
    open spec fn obeys_from_spec() -> bool {
        true
    }

    open spec fn from_spec(p: (usize, usize)) -> Point {
        Point { x: p.0, y: p.1 }
    }
}

/// The byte offsets addressed by the rectangular coordinate region with
/// top-left column `x` and row `y`, spanning `w` columns and `h` rows.
pub open spec fn region_offsets(g: DisplayGeometry, x: int, y: int, w: int, h: int) -> Set<int> {
    Set::new(
        |o: int|
            exists|cx: int, cy: int|
                x <= cx < x + w && y <= cy < y + h && o == #[trigger] g.offset_at(cx, cy),
    )
}

/// Multiplying both sides of an inequality by a non-negative factor.
pub proof fn lemma_mul_le(a: int, b: int, c: int)
    by (nonlinear_arith)
    requires
        a <= b,
        c >= 0,
    ensures
        a * c <= b * c,
{
}

/// A non-negative quantity scaled by a positive factor bounds the
/// quantity itself.
pub proof fn lemma_scaled_le(s: int, c: int, bound: int)
    by (nonlinear_arith)
    requires
        0 <= s,
        1 <= c,
        s * c <= bound,
    ensures
        s <= bound,
{
}

/// Two coordinate regions that do not overlap address disjoint sets of
/// byte offsets, as long as both lie within the addressable area.
pub proof fn lemma_regions_disjoint(
    g: DisplayGeometry,
    x1: int,
    y1: int,
    w1: int,
    h1: int,
    x2: int,
    y2: int,
    w2: int,
    h2: int,
)
    requires
        g.wf(),
        0 <= x1,
        0 <= y1,
        0 <= x2,
        0 <= y2,
        (x1 + w1) * g.bytes_per_pixel <= g.row_stride,
        (x2 + w2) * g.bytes_per_pixel <= g.row_stride,
        x1 + w1 <= x2 || x2 + w2 <= x1 || y1 + h1 <= y2 || y2 + h2 <= y1,
    ensures
        region_offsets(g, x1, y1, w1, h1).disjoint(region_offsets(g, x2, y2, w2, h2)),
{
    assert forall|o: int|
        region_offsets(g, x1, y1, w1, h1).contains(o) implies !region_offsets(
        g,
        x2,
        y2,
        w2,
        h2,
    ).contains(o) by {
        if region_offsets(g, x2, y2, w2, h2).contains(o) {
            let (cx1, cy1) = choose|cx: int, cy: int|
                x1 <= cx < x1 + w1 && y1 <= cy < y1 + h1 && o == #[trigger] g.offset_at(cx, cy);
            let (cx2, cy2) = choose|cx: int, cy: int|
                x2 <= cx < x2 + w2 && y2 <= cy < y2 + h2 && o == #[trigger] g.offset_at(cx, cy);
            lemma_mul_le(cx1 + 1, x1 + w1, g.bytes_per_pixel as int);
            lemma_mul_le(cx2 + 1, x2 + w2, g.bytes_per_pixel as int);
            lemma_offset_at_injective(g, cx1, cy1, cx2, cy2);
            assert(false);
        }
    }
}

/// Distinct screen positions within the addressable area map to distinct
/// byte offsets.
pub proof fn lemma_offset_at_injective(
    g: DisplayGeometry,
    x1: int,
    y1: int,
    x2: int,
    y2: int,
)
    requires
        g.bytes_per_pixel >= 1,
        0 <= x1,
        (x1 + 1) * g.bytes_per_pixel <= g.row_stride,
        0 <= x2,
        (x2 + 1) * g.bytes_per_pixel <= g.row_stride,
        0 <= y1,
        0 <= y2,
        g.offset_at(x1, y1) == g.offset_at(x2, y2),
    ensures
        x1 == x2,
        y1 == y2,
{
    lemma_offset_inj_core(
        g.row_stride as int,
        g.bytes_per_pixel as int,
        x1,
        y1,
        x2,
        y2,
    );
}

proof fn lemma_offset_inj_core(rs: int, bpp: int, x1: int, y1: int, x2: int, y2: int)
    by (nonlinear_arith)
    requires
        bpp >= 1,
        0 <= x1,
        (x1 + 1) * bpp <= rs,
        0 <= x2,
        (x2 + 1) * bpp <= rs,
        0 <= y1,
        0 <= y2,
        y1 * rs + x1 * bpp == y2 * rs + x2 * bpp,
    ensures
        x1 == x2,
        y1 == y2,
{
}

} // verus!
