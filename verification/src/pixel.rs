use vstd::prelude::*;

verus! {

/// A single addressable location inside the flat buffer: the byte offset
/// of the first of three consecutive color channel bytes.  A `Pixel`
/// owns no memory; it is resolved against a caller-supplied buffer.
#[derive(Clone, Copy, PartialEq, Eq, Structural, Debug)]
pub struct Pixel {
    pub index: usize,
}

/// The buffer `buf` after writing color `(r, g, b)` at channel base
/// `idx`: blue at `idx`, green at `idx + 1`, red at `idx + 2`.  The
/// reversed channel order is the fixed packing convention the display
/// device expects.
pub open spec fn written(buf: Seq<u8>, idx: int, r: u8, g: u8, b: u8) -> Seq<u8> {
    buf.update(idx, b).update(idx + 1, g).update(idx + 2, r)
}

/// The color stored at channel base `idx` of `buf`, as `(r, g, b)`.
pub open spec fn color_at(buf: Seq<u8>, idx: int) -> (u8, u8, u8) {
    (buf[idx + 2], buf[idx + 1], buf[idx])
}

impl Pixel {
    /// Sets the `Pixel` to the given RGB value in the given buffer.
    pub fn set_rgb(&self, buffer: &mut Vec<u8>, r: u8, g: u8, b: u8)
        requires
            self.index + 2 < old(buffer).len(),
        ensures
            final(buffer)@ == written(old(buffer)@, self.index as int, r, g, b),
            final(buffer).len() == old(buffer).len(),
    {
        buffer.set(self.index, b);
        buffer.set(self.index + 1, g);
        buffer.set(self.index + 2, r);
    }

    /// Gets the current color of the `Pixel` from the given buffer.
    pub fn get_rgb(&self, buffer: &Vec<u8>) -> (rgb: (u8, u8, u8))
        requires
            self.index + 2 < buffer.len(),
        ensures
            rgb == color_at(buffer@, self.index as int),
    {
        (buffer[self.index + 2], buffer[self.index + 1], buffer[self.index])
    }
}

/// Writing a color and reading it back at the same channel base returns
/// exactly the color written.
pub proof fn lemma_color_roundtrip(buf: Seq<u8>, idx: int, r: u8, g: u8, b: u8)
    requires
        0 <= idx,
        idx + 2 < buf.len(),
    ensures
        color_at(written(buf, idx, r, g, b), idx) == (r, g, b),
{
}

} // verus!
