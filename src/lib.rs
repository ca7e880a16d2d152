//! Enumeration of display monitors, lookup of the monitor under a point, and
//! conversion of a captured framebuffer into an upright, tightly packed RGBA
//! picture.
mod capture;
mod error;
mod geometry;
mod monitor;

pub use capture::{render, CapturedImage, DisplayOptions, Frame, PixelFormat, Rgba8};
pub use error::{XCapError, XCapResult};
pub use geometry::{Rect, Rotation};
pub use monitor::{Monitor, RawOutput};
