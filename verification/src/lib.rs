//! A verified core for a seamless-texture tool: cyclic pixel shifts for
//! tiling previews, and a batch pipeline that exports an image (or a whole
//! directory of images) at several power-of-two resolutions.
//!
//! The library owns the algorithmic content — wrap-around pixel arithmetic,
//! aspect-ratio-preserving resize planning, file-name construction and batch
//! failure isolation — and proves it against the contracts written here.
//! File decoding, resizing and writing are performed by the `image` and
//! `glob` crates behind small trusted wrappers.

pub mod buffer;
pub mod export;
pub mod naming;
pub mod pathing;
pub mod planner;
pub mod selection;
pub mod shift;
pub mod store;
pub mod text;

pub use buffer::{PixelBuffer, Rgba};
pub use export::{export_directory, export_single, ExportError, ExportOutcome, SkipReason};
pub use planner::{plan, ResizeTarget};
pub use selection::{Axis, Config};
pub use shift::{shift_x, shift_y, Displacement, ShiftError};
pub use store::ImageStore;
