//! A layout and compositing layer over a linear pixel buffer.
//!
//! Rectangular windows, each optionally framed by a border, are resolved
//! against the display geometry into per-pixel byte offsets.  Fill
//! operations write solid colors through those offsets into a backing
//! buffer owned by the manager.

pub mod geometry;
pub mod pixel;
pub mod rect;
pub mod window;
pub mod manager;

pub use geometry::DisplayGeometry;
pub use geometry::Point;
pub use pixel::Pixel;
pub use rect::Rectangle;
pub use window::Border;
pub use window::Window;
pub use window::WindowTemplate;
pub use manager::FBmanager;
pub use manager::FbError;
