use vstd::prelude::*;

use crate::geometry::DisplayGeometry;
use crate::window::Window;
use crate::window::WindowTemplate;

verus! {

/// The failures the manager reports: a window id outside the range of
/// built windows, or a template whose extent exceeds the display
/// geometry, whose border leaves a degenerate interior, or whose id is
/// not its position.
#[derive(Clone, Copy, PartialEq, Eq, Structural, Debug)]
pub enum FbError {
    IndexOutOfRange,
    InvalidTemplate,
}

/// Owns the backing pixel buffer, the display geometry, and the ordered
/// windows built from the templates.  Windows hold only offset
/// metadata; every color write is routed through the manager's buffer.
pub struct FBmanager {
    pub geometry: DisplayGeometry,
    pub buffer: Vec<u8>,
    pub windows: Vec<Window>,
}

impl FBmanager {
    /// Invariant established at construction and preserved by every
    /// fill: the buffer has the geometry's length and every window
    /// writes within it.
    pub open spec fn wf(self) -> bool {
        &&& self.geometry.wf()
        &&& self.buffer.len() == self.geometry.buffer_len()
        &&& forall|i: int|
            0 <= i < self.windows.len() ==> (#[trigger] self.windows[i]).writes_within(
                self.geometry.buffer_len(),
            )
    }

    /// Creates a new `FBmanager` for the given display geometry: a
    /// zero-initialized buffer of the geometry's length and one window
    /// per template, in template order.  The whole set of templates is
    /// rejected when any of them does not fit the geometry or carries
    /// an id other than its position.
    pub fn new(templates: &Vec<WindowTemplate>, geometry: DisplayGeometry) -> (res: Result<
        FBmanager,
        FbError,
    >)
        requires
            geometry.wf(),
        ensures
            res is Ok <==> (forall|i: int|
                0 <= i < templates.len() ==> (#[trigger] templates[i]).fits(geometry)
                    && templates[i].id == i),
            res is Ok ==> ({
                let m = res->Ok_0;
                &&& m.wf()
                &&& m.geometry == geometry
                &&& m.buffer@ == Seq::new(geometry.buffer_len() as nat, |j: int| 0u8)
                &&& m.windows.len() == templates.len()
                &&& forall|i: int|
                    0 <= i < templates.len() ==> (#[trigger] m.windows[i]).follows_template(
                        templates[i],
                        geometry,
                    )
            }),
            res is Err ==> res->Err_0 == FbError::InvalidTemplate,
    {
        let buffer = zeroed_buffer(geometry.row_stride * geometry.height);
        let mut window_holder: Vec<Window> = Vec::new();
        let mut idx: usize = 0;
        while idx < templates.len()
            invariant
                geometry.wf(),
                idx <= templates.len(),
                window_holder.len() == idx,
                forall|i: int|
                    0 <= i < idx ==> (#[trigger] templates[i]).fits(geometry) && templates[i].id
                        == i,
                forall|i: int|
                    0 <= i < idx ==> (#[trigger] window_holder[i]).follows_template(
                        templates[i],
                        geometry,
                    ),
            decreases templates.len() - idx,
        {
            let t = &templates[idx];
            if !t.check_fits(&geometry) || t.id != idx {
                assert(!(templates[idx as int].fits(geometry) && templates[idx as int].id
                    == idx));
                return Err(FbError::InvalidTemplate);
            }
            let window = Window::from_template(t, &geometry);
            window_holder.push(window);
            idx = idx + 1;
        }
        let m = FBmanager { geometry, buffer, windows: window_holder };
        proof {
            assert forall|i: int| 0 <= i < m.windows.len() implies (
            #[trigger] m.windows[i]).writes_within(geometry.buffer_len()) by {
                assert(m.windows[i].follows_template(templates[i], geometry));
            }
        }
        Ok(m)
    }

    /// Fills the window with the given `id` to the given color.  An id
    /// with no window fails with a bounds error and leaves the buffer
    /// untouched.
    pub fn fill(&mut self, id: usize, rgb: (u8, u8, u8)) -> (res: Result<(), FbError>)
        requires
            old(self).wf(),
        ensures
            final(self).wf(),
            final(self).geometry == old(self).geometry,
            final(self).windows == old(self).windows,
            id < old(self).windows.len() ==> res == Ok::<(), FbError>(()) && final(self).buffer@
                == old(self).windows[id as int].main_context.fill_result(old(self).buffer@, rgb),
            id >= old(self).windows.len() ==> res == Err::<(), FbError>(FbError::IndexOutOfRange)
                && final(self).buffer@ == old(self).buffer@,
    {
        if id >= self.windows.len() {
            return Err(FbError::IndexOutOfRange);
        }
        assert(self.windows[id as int].writes_within(self.geometry.buffer_len()));
        let w = &self.windows[id];
        w.fill(&mut self.buffer, rgb);
        Ok(())
    }

    /// Fills the border of the window with the given `id` to the given
    /// color; a window without a border is left as it is.  An id with
    /// no window fails with a bounds error and leaves the buffer
    /// untouched.
    pub fn fill_border(&mut self, id: usize, rgb: (u8, u8, u8)) -> (res: Result<(), FbError>)
        requires
            old(self).wf(),
        ensures
            final(self).wf(),
            final(self).geometry == old(self).geometry,
            final(self).windows == old(self).windows,
            id < old(self).windows.len() ==> res == Ok::<(), FbError>(()) && final(self).buffer@
                == old(self).windows[id as int].border_fill_result(old(self).buffer@, rgb),
            id >= old(self).windows.len() ==> res == Err::<(), FbError>(FbError::IndexOutOfRange)
                && final(self).buffer@ == old(self).buffer@,
    {
        if id >= self.windows.len() {
            return Err(FbError::IndexOutOfRange);
        }
        assert(self.windows[id as int].writes_within(self.geometry.buffer_len()));
        let w = &self.windows[id];
        w.fill_border(&mut self.buffer, rgb);
        Ok(())
    }
}

/// A vector of `n` zero bytes.
fn zeroed_buffer(n: usize) -> (v: Vec<u8>)
    ensures
        v@ == Seq::new(n as nat, |j: int| 0u8),
{
    let mut v: Vec<u8> = Vec::new();
    let mut i: usize = 0;
    while i < n
        invariant
            i <= n,
            v.len() == i,
            forall|j: int| 0 <= j < i ==> v[j] == 0u8,
        decreases n - i,
    {
        v.push(0u8);
        i = i + 1;
    }
    proof {
        assert(v@ =~= Seq::new(n as nat, |j: int| 0u8));
    }
    v
}

} // verus!
