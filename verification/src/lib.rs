//! Extends a PDF document's page boundaries and lays an annotation grid
//! (ruled lines, squares, or dots) into the added margin area.
//!
//! All geometry is computed in integer *subpoints* (1 point = 127,000
//! subpoints), which makes every supported unit conversion exact:
//! 1 inch = 72 pt, 1 mm = 360/127 pt. The surrounding application converts
//! between a document engine's floating-point coordinates and this model.

pub mod color;
pub mod error;
pub mod extend;
pub mod grid;
pub mod number;
pub mod params;
pub mod rect;
pub mod units;

pub use color::{color_parser, Color};
pub use error::ValidationError;
pub use extend::{extend_page, extend_page_rect};
pub use grid::{make_grid, PathElem};
pub use number::parse_length;
pub use params::{Args, ExtendParams, LineType};
pub use rect::Rect;
pub use units::Unit;
