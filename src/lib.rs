//! Asset rendering core of a pixel-art gallery: thumbnail rasterisation,
//! palette ordering for display, and the content age of a file in a
//! first-parent version history.

pub mod color;
pub mod files;
pub mod history;
pub mod palette;
pub mod render;

pub use files::PngFiles;
pub use color::{Hsv, Rgba, sort_key_of};
pub use history::{AgeError, AgeWalk, CommitEntry, UpdateTimeFinder, resolve_age};
pub use palette::sort_for_display;
pub use render::{PixelDocument, RenderError, THUMBNAIL_MIN_SIDE, delay_centiseconds, thumbnail_scale, to_thumbnail_png};
