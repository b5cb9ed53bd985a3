//! A software rasterizer for in-memory pixel buffers.
//!
//! The library draws shapes, bitmap text and images onto a raw RGBA byte
//! buffer.  Every pixel write goes through a single choke point that applies
//! the surface translation, a bounds check, a clip test and straight-alpha
//! "over" compositing.

pub mod clipping;
pub mod collection;
pub mod color;
pub mod compositor;
pub mod coord;
pub mod drawable;
pub mod drawing;
pub mod ellipse;
pub mod font;
pub mod format;
pub mod ici;
pub mod image;
pub mod indexed;
pub mod polygon;
pub mod pos;
pub mod rect;
pub mod rendering;
pub mod shapes;
pub mod text;
pub mod wrapping;

pub use color::Color;
pub use color::ColorError;
pub use coord::Coord;
pub use drawing::Graphics;
pub use drawing::GraphicsError;
pub use rect::Contains;
pub use rect::Rect;
