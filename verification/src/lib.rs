//! Composable monospace canvases: styled characters placed on an integer grid,
//! text boxes, routed connector lines, and the compositor that flattens them
//! into rows of text.

pub mod border;
pub mod canvas;
pub mod error;
pub mod geometry;
pub mod glyph;
pub mod layout;
pub mod parse;
pub mod pixel;
pub mod point_map;
pub mod route_cost;
pub mod router;
pub mod search;
pub mod search_steps;
pub mod straight;
pub mod style;
pub mod text;
pub mod text_box;
pub mod text_path;

pub use geometry::{BoundingBox, Point};
pub use pixel::{Pixel, PixelGroup};
pub use point_map::PointMap;
pub use style::{AnsiColor, Color, Effect, Effects, TextStyle};
