use vstd::prelude::*;

use crate::geometry::lemma_mul_le;
use crate::geometry::lemma_regions_disjoint;
use crate::geometry::lemma_scaled_le;
use crate::geometry::region_offsets;
use crate::geometry::DisplayGeometry;
use crate::geometry::Point;
use crate::rect::lemma_placed_offsets;
use crate::rect::Rectangle;

verus! {

/// A frame of four disjoint rectangles of uniform thickness around a
/// window: top and bottom span the full width, left and right fill the
/// remaining height between them, so the corners belong to top and
/// bottom.
pub struct Border {
    pub top: Rectangle,
    pub bot: Rectangle,
    pub left: Rectangle,
    pub right: Rectangle,
}

/// A portion of the screen: an optional border and the interior
/// rectangle the fills write through.
pub struct Window {
    pub border: Option<Border>,
    pub width: usize,
    pub height: usize,
    pub main_context: Rectangle,
}

/// A declarative description of a window, consumed once to build it.
/// `id` must equal the template's position in the ordering handed to
/// the manager.
pub struct WindowTemplate {
    pub id: usize,
    pub location: Point,
    pub width: usize,
    pub height: usize,
    pub border_thickness: usize,
}

/// `r` is a rectangle at column `x`, row `y`, with `h` rows and `w`
/// columns, laid out by the addressing formula for `g`.
pub open spec fn rect_is(r: Rectangle, x: int, y: int, h: int, w: int, g: DisplayGeometry) -> bool {
    &&& r.location.x == x
    &&& r.location.y == y
    &&& r.height == h
    &&& r.width == w
    &&& r.placed(g)
}

impl WindowTemplate {
    /// The template lies within the display's addressable area and,
    /// when a border is requested, leaves a non-degenerate interior.
    pub open spec fn fits(self, g: DisplayGeometry) -> bool {
        &&& self.location.y + self.height <= g.height
        &&& (self.location.x + self.width) * g.bytes_per_pixel <= g.row_stride
        &&& (self.border_thickness > 0 ==> 2 * self.border_thickness < self.width && 2
            * self.border_thickness < self.height)
    }

    /// Reports whether this template fits the display geometry.
    pub fn check_fits(&self, g: &DisplayGeometry) -> (ok: bool)
        requires
            g.bytes_per_pixel >= 1,
        ensures
            ok == self.fits(*g),
    {
        let fits_v = self.height <= g.height && self.location.y <= g.height - self.height;
        let fits_h = match self.location.x.checked_add(self.width) {
            Some(cols) => match cols.checked_mul(g.bytes_per_pixel) {
                Some(bytes) => bytes <= g.row_stride,
                None => false,
            },
            None => false,
        };
        let border_fits = self.border_thickness == 0 || (self.border_thickness < self.width
            && self.width - self.border_thickness > self.border_thickness
            && self.border_thickness < self.height && self.height - self.border_thickness
            > self.border_thickness);
        proof {
            if (self.location.x + self.width) * g.bytes_per_pixel <= g.row_stride {
                lemma_scaled_le(
                    self.location.x + self.width,
                    g.bytes_per_pixel as int,
                    g.row_stride as int,
                );
            }
        }
        fits_v && fits_h && border_fits
    }
}

impl Window {
    /// The window that construction derives from template `t`: either
    /// the bare interior over the full footprint, or four frame
    /// rectangles of thickness `t.border_thickness` around an interior
    /// inset by that thickness on every side.
    pub open spec fn follows_template(self, t: WindowTemplate, g: DisplayGeometry) -> bool {
        let x = t.location.x as int;
        let y = t.location.y as int;
        let h = t.height as int;
        let w = t.width as int;
        let bt = t.border_thickness as int;
        &&& self.width == t.width
        &&& self.height == t.height
        &&& if bt == 0 {
            match self.border {
                None => rect_is(self.main_context, x, y, h, w, g),
                Some(_) => false,
            }
        } else {
            match self.border {
                Some(b) => {
                    &&& rect_is(b.top, x, y, bt, w, g)
                    &&& rect_is(b.bot, x, y + h - bt, bt, w, g)
                    &&& rect_is(b.right, x + w - bt, y + bt, h - 2 * bt, bt, g)
                    &&& rect_is(b.left, x, y + bt, h - 2 * bt, bt, g)
                    &&& rect_is(self.main_context, x + bt, y + bt, h - 2 * bt, w - 2 * bt, g)
                },
                None => false,
            }
        }
    }

    /// Every rectangle of the window can be filled within a buffer of
    /// length `len`.
    pub open spec fn writes_within(self, len: int) -> bool {
        &&& self.main_context.fillable(len)
        &&& match self.border {
            None => true,
            Some(b) => {
                &&& b.top.fillable(len)
                &&& b.bot.fillable(len)
                &&& b.left.fillable(len)
                &&& b.right.fillable(len)
            },
        }
    }

    /// The buffer after filling the border with `rgb`: the four frame
    /// rectangles written in order top, left, right, bottom; the buffer
    /// unchanged when the window has no border.
    pub open spec fn border_fill_result(self, buf: Seq<u8>, rgb: (u8, u8, u8)) -> Seq<u8> {
        match self.border {
            None => buf,
            Some(b) => b.bot.fill_result(
                b.right.fill_result(b.left.fill_result(b.top.fill_result(buf, rgb), rgb), rgb),
                rgb,
            ),
        }
    }

    /// Builds the window a template describes, resolving every pixel
    /// offset against the display geometry.
    pub fn from_template(t: &WindowTemplate, g: &DisplayGeometry) -> (w: Window)
        requires
            g.wf(),
            t.fits(*g),
        ensures
            w.follows_template(*t, *g),
    {
        proof {
            lemma_scaled_le(
                t.location.x + t.width,
                g.bytes_per_pixel as int,
                g.row_stride as int,
            );
        }
        let mut border: Option<Border> = None;
        let mut start_location = t.location;
        let mut context_height = t.height;
        let mut context_width = t.width;
        if t.border_thickness > 0 {
            proof {
                lemma_mul_le(
                    t.location.x + t.border_thickness,
                    t.location.x + t.width,
                    g.bytes_per_pixel as int,
                );
                lemma_mul_le(
                    t.location.x + t.width - t.border_thickness,
                    t.location.x + t.width,
                    g.bytes_per_pixel as int,
                );
            }
            let border_height = t.border_thickness;
            let border_width = t.width;
            let top = Rectangle::from_dimensions(&t.location, border_height, border_width, g);
            let loc = t.location.translate(0, t.height - t.border_thickness);
            let bot = Rectangle::from_dimensions(&loc, border_height, border_width, g);
            let loc = t.location.translate(
                t.width - t.border_thickness,
                t.border_thickness,
            );
            let border_height = t.height - 2 * t.border_thickness;
            let border_width = t.border_thickness;
            let right = Rectangle::from_dimensions(&loc, border_height, border_width, g);
            let loc = t.location.translate(0, t.border_thickness);
            let left = Rectangle::from_dimensions(&loc, border_height, border_width, g);
            border = Some(Border { top, bot, left, right });
            start_location.translate_in_place(t.border_thickness, t.border_thickness);
            context_height = context_height - 2 * t.border_thickness;
            context_width = context_width - 2 * t.border_thickness;
        }
        let main_context = Rectangle::from_dimensions(
            &start_location,
            context_height,
            context_width,
            g,
        );
        Window { border, width: t.width, height: t.height, main_context }
    }

    /// Fills the `Window`'s `main_context` with the given color.
    pub fn fill(&self, buffer: &mut Vec<u8>, rgb: (u8, u8, u8))
        requires
            self.main_context.fillable(old(buffer).len() as int),
        ensures
            final(buffer)@ == self.main_context.fill_result(old(buffer)@, rgb),
            final(buffer).len() == old(buffer).len(),
    {
        self.main_context.fill(buffer, rgb);
    }

    /// Fills the `Window`'s border with the given color; does nothing
    /// when the window has no border.
    pub fn fill_border(&self, buffer: &mut Vec<u8>, rgb: (u8, u8, u8))
        requires
            self.writes_within(old(buffer).len() as int),
        ensures
            final(buffer)@ == self.border_fill_result(old(buffer)@, rgb),
            final(buffer).len() == old(buffer).len(),
    {
        match &self.border {
            Some(br) => {
                br.top.fill(buffer, rgb);
                br.left.fill(buffer, rgb);
                br.right.fill(buffer, rgb);
                br.bot.fill(buffer, rgb);
            },
            _ => {},
        }
    }
}

/// The full coordinate footprint of a bordered window splits exactly
/// into its five regions: top, bottom, left, right, and interior.
proof fn lemma_frame_union(g: DisplayGeometry, x: int, y: int, w: int, h: int, bt: int)
    requires
        0 < bt,
        2 * bt < w,
        2 * bt < h,
    ensures
        region_offsets(g, x, y, w, h) == region_offsets(g, x, y, w, bt) + region_offsets(
            g,
            x,
            y + h - bt,
            w,
            bt,
        ) + region_offsets(g, x, y + bt, bt, h - 2 * bt) + region_offsets(
            g,
            x + w - bt,
            y + bt,
            bt,
            h - 2 * bt,
        ) + region_offsets(g, x + bt, y + bt, w - 2 * bt, h - 2 * bt),
{
    let full = region_offsets(g, x, y, w, h);
    let top = region_offsets(g, x, y, w, bt);
    let bot = region_offsets(g, x, y + h - bt, w, bt);
    let left = region_offsets(g, x, y + bt, bt, h - 2 * bt);
    let right = region_offsets(g, x + w - bt, y + bt, bt, h - 2 * bt);
    let main = region_offsets(g, x + bt, y + bt, w - 2 * bt, h - 2 * bt);
    let u = top + bot + left + right + main;
    assert forall|o: int| full.contains(o) == u.contains(o) by {
        if full.contains(o) {
            let (cx, cy) = choose|cx: int, cy: int|
                x <= cx < x + w && y <= cy < y + h && o == #[trigger] g.offset_at(cx, cy);
            if cy < y + bt {
                assert(top.contains(o));
            } else if cy >= y + h - bt {
                assert(bot.contains(o));
            } else if cx < x + bt {
                assert(left.contains(o));
            } else if cx >= x + w - bt {
                assert(right.contains(o));
            } else {
                assert(main.contains(o));
            }
        }
        if u.contains(o) {
            if top.contains(o) {
                let (cx, cy) = choose|cx: int, cy: int|
                    x <= cx < x + w && y <= cy < y + bt && o == #[trigger] g.offset_at(cx, cy);
                assert(full.contains(o));
            } else if bot.contains(o) {
                let (cx, cy) = choose|cx: int, cy: int|
                    x <= cx < x + w && y + h - bt <= cy < y + h - bt + bt && o
                        == #[trigger] g.offset_at(cx, cy);
                assert(full.contains(o));
            } else if left.contains(o) {
                let (cx, cy) = choose|cx: int, cy: int|
                    x <= cx < x + bt && y + bt <= cy < y + bt + (h - 2 * bt) && o
                        == #[trigger] g.offset_at(cx, cy);
                assert(full.contains(o));
            } else if right.contains(o) {
                let (cx, cy) = choose|cx: int, cy: int|
                    x + w - bt <= cx < x + w - bt + bt && y + bt <= cy < y + bt + (h - 2 * bt) && o
                        == #[trigger] g.offset_at(cx, cy);
                assert(full.contains(o));
            } else {
                assert(main.contains(o));
                let (cx, cy) = choose|cx: int, cy: int|
                    x + bt <= cx < x + bt + (w - 2 * bt) && y + bt <= cy < y + bt + (h - 2 * bt)
                        && o == #[trigger] g.offset_at(cx, cy);
                assert(full.contains(o));
            }
        }
    }
    assert(full =~= u);
}

/// For every window with a border, the offset sets covered by the
/// interior and the four border rectangles are pairwise disjoint, and
/// their union equals the offset set of a rectangle built over the full
/// `width × height` footprint at the window's location.
pub proof fn lemma_border_partitions_footprint(
    w: Window,
    t: WindowTemplate,
    g: DisplayGeometry,
    full: Rectangle,
)
    requires
        g.wf(),
        t.fits(g),
        t.border_thickness > 0,
        w.follows_template(t, g),
        rect_is(full, t.location.x as int, t.location.y as int, t.height as int, t.width as int, g),
    ensures
        ({
            let b = w.border->Some_0;
            &&& w.main_context.offsets().disjoint(b.top.offsets())
            &&& w.main_context.offsets().disjoint(b.bot.offsets())
            &&& w.main_context.offsets().disjoint(b.left.offsets())
            &&& w.main_context.offsets().disjoint(b.right.offsets())
            &&& b.top.offsets().disjoint(b.bot.offsets())
            &&& b.top.offsets().disjoint(b.left.offsets())
            &&& b.top.offsets().disjoint(b.right.offsets())
            &&& b.bot.offsets().disjoint(b.left.offsets())
            &&& b.bot.offsets().disjoint(b.right.offsets())
            &&& b.left.offsets().disjoint(b.right.offsets())
            &&& w.main_context.offsets() + b.top.offsets() + b.bot.offsets() + b.left.offsets()
                + b.right.offsets() == full.offsets()
        }),
{
    let b = w.border->Some_0;
    let x = t.location.x as int;
    let y = t.location.y as int;
    let h = t.height as int;
    let wd = t.width as int;
    let bt = t.border_thickness as int;
    let bpp = g.bytes_per_pixel as int;

    lemma_placed_offsets(w.main_context, g);
    lemma_placed_offsets(b.top, g);
    lemma_placed_offsets(b.bot, g);
    lemma_placed_offsets(b.left, g);
    lemma_placed_offsets(b.right, g);
    lemma_placed_offsets(full, g);

    lemma_mul_le(x + bt, x + wd, bpp);
    lemma_mul_le(x + bt + (wd - 2 * bt), x + wd, bpp);

    // interior against each border rectangle
    lemma_regions_disjoint(g, x + bt, y + bt, wd - 2 * bt, h - 2 * bt, x, y, wd, bt);
    lemma_regions_disjoint(g, x + bt, y + bt, wd - 2 * bt, h - 2 * bt, x, y + h - bt, wd, bt);
    lemma_regions_disjoint(g, x + bt, y + bt, wd - 2 * bt, h - 2 * bt, x, y + bt, bt, h - 2 * bt);
    lemma_regions_disjoint(
        g,
        x + bt,
        y + bt,
        wd - 2 * bt,
        h - 2 * bt,
        x + wd - bt,
        y + bt,
        bt,
        h - 2 * bt,
    );
    // top and bottom against the rest
    lemma_regions_disjoint(g, x, y, wd, bt, x, y + h - bt, wd, bt);
    lemma_regions_disjoint(g, x, y, wd, bt, x, y + bt, bt, h - 2 * bt);
    lemma_regions_disjoint(g, x, y, wd, bt, x + wd - bt, y + bt, bt, h - 2 * bt);
    lemma_regions_disjoint(g, x, y + h - bt, wd, bt, x, y + bt, bt, h - 2 * bt);
    lemma_regions_disjoint(g, x, y + h - bt, wd, bt, x + wd - bt, y + bt, bt, h - 2 * bt);
    // left against right
    lemma_regions_disjoint(g, x, y + bt, bt, h - 2 * bt, x + wd - bt, y + bt, bt, h - 2 * bt);

    lemma_frame_union(g, x, y, wd, h, bt);
    assert(w.main_context.offsets() + b.top.offsets() + b.bot.offsets() + b.left.offsets()
        + b.right.offsets() =~= full.offsets());
}

} // verus!
