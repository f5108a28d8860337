use crate::color::Color;
use crate::error::ValidationError;
use crate::units::{subpoints_per_milli, to_subpoints, Unit, EXT_MAX, MILLI_MAX};
use vstd::prelude::*;

verus! {

/// The kind of grid drawn into the added margins.
#[derive(Copy, Clone, Debug, PartialEq, Eq, Structural)]
pub enum LineType {
    /// Horizontal rules only.
    Lines,
    /// Horizontal and vertical rules.
    Squares,
    /// A lattice of small filled circles.
    Dots,
}

/// The raw command arguments, after the per-flag parsers ran. Every length
/// is a non-negative count of thousandths of `unit`, at most `MILLI_MAX`.
#[derive(Debug)]
pub struct Args {
    /// Path to the input PDF file.
    pub input: String,
    /// Path to the output PDF file.
    pub output: String,
    /// Extension to the left, in thousandths of `unit`.
    pub left: u64,
    /// Extension to the right, in thousandths of `unit`.
    pub right: u64,
    /// Extension at the top, in thousandths of `unit`.
    pub top: u64,
    /// Extension at the bottom, in thousandths of `unit`.
    pub bottom: u64,
    /// Spacing between grid lines; 5 mm when absent.
    pub spacing: Option<u64>,
    /// Stroke or dot width; 0.1 mm for lines and squares, 0.7 mm for dots,
    /// when absent.
    pub line_width: Option<u64>,
    /// Unit of the numeric arguments.
    pub unit: Unit,
    /// Grid to draw in the extended margins, if any.
    pub grid: Option<LineType>,
    /// Append one grid-only page sized like the last page's new bounds.
    pub extra_page: bool,
    /// Swap left and right extension on pages with odd index.
    pub mirror: bool,
    /// Color of the grid lines.
    pub color: Color,
}

impl Args {
    /// Every length argument respects the sanity bound the parsers enforce.
    pub open spec fn wf(self) -> bool {
        &&& self.left <= MILLI_MAX
        &&& self.right <= MILLI_MAX
        &&& self.top <= MILLI_MAX
        &&& self.bottom <= MILLI_MAX
        &&& (self.spacing matches Some(m) ==> m <= MILLI_MAX)
        &&& (self.line_width matches Some(m) ==> m <= MILLI_MAX)
    }
}

/// Grid spacing in subpoints that an argument set resolves to: the given
/// spacing in the given unit, or 5 mm.
pub open spec fn resolved_spacing(args: Args) -> int {
    match args.spacing {
        Some(m) => m * subpoints_per_milli(args.unit),
        None => (5000 * 360) as int,
    }
}

/// Stroke or dot width in subpoints that an argument set resolves to: the
/// given width in the given unit, or 0.7 mm for dots and 0.1 mm otherwise.
pub open spec fn resolved_line_width(args: Args) -> int {
    match args.line_width {
        Some(m) => m * subpoints_per_milli(args.unit),
        None => if args.grid matches Some(LineType::Dots) {
            (700 * 360) as int
        } else {
            (100 * 360) as int
        },
    }
}

/// The normalized parameter set of one run: all lengths in subpoints.
#[derive(Debug)]
pub struct ExtendParams {
    /// Extension to the left of each page.
    pub extend_left: i64,
    /// Extension to the right of each page.
    pub extend_right: i64,
    /// Extension at the top of each page.
    pub extend_top: i64,
    /// Extension at the bottom of each page.
    pub extend_bottom: i64,
    /// Distance between grid rules or dot rows; positive.
    pub spacing: i64,
    /// Stroke width of rules, or dot diameter; positive.
    pub line_width: i64,
    /// Grid to draw, if any.
    pub grid: Option<LineType>,
    /// Color of the grid.
    pub color: Color,
    /// Whether a trailing grid-only page is appended.
    pub extra_page: bool,
    /// Whether left and right extension swap on odd page indices.
    pub mirror: bool,
}

impl ExtendParams {
    pub open spec fn wf(self) -> bool {
        &&& 0 <= self.extend_left <= EXT_MAX
        &&& 0 <= self.extend_right <= EXT_MAX
        &&& 0 <= self.extend_top <= EXT_MAX
        &&& 0 <= self.extend_bottom <= EXT_MAX
        &&& 1 <= self.spacing <= EXT_MAX
        &&& 1 <= self.line_width <= EXT_MAX
    }

    /// Resolves raw arguments into one normalized parameter set: converts
    /// every length to subpoints and fills in the layered defaults. A
    /// spacing or width that resolves to a zero length is rejected, since
    /// the grid walks the margin in spacing-sized steps.
    pub fn new(args: &Args) -> (r: Result<ExtendParams, ValidationError>)
        requires
            args.wf(),
        ensures
            match r {
                Ok(p) => {
                    &&& resolved_spacing(*args) > 0
                    &&& resolved_line_width(*args) > 0
                    &&& p.extend_left == args.left * subpoints_per_milli(args.unit)
                    &&& p.extend_right == args.right * subpoints_per_milli(args.unit)
                    &&& p.extend_top == args.top * subpoints_per_milli(args.unit)
                    &&& p.extend_bottom == args.bottom * subpoints_per_milli(args.unit)
                    &&& p.spacing == resolved_spacing(*args)
                    &&& p.line_width == resolved_line_width(*args)
                    &&& p.grid == args.grid
                    &&& p.color == args.color
                    &&& p.extra_page == args.extra_page
                    &&& p.mirror == args.mirror
                    &&& p.wf()
                },
                Err(e) => {
                    ||| (e == ValidationError::ZeroSpacing && resolved_spacing(*args) == 0)
                    ||| (e == ValidationError::ZeroLineWidth && resolved_spacing(*args) > 0
                        && resolved_line_width(*args) == 0)
                },
            },
    {
        let spacing = match args.spacing {
            Some(m) => to_subpoints(m, args.unit),
            None => to_subpoints(5000, Unit::Mm),
        };
        if spacing == 0 {
            return Err(ValidationError::ZeroSpacing);
        }
        let line_width = match args.line_width {
            Some(m) => to_subpoints(m, args.unit),
            None => {
                let is_dots = match args.grid {
                    Some(LineType::Dots) => true,
                    _ => false,
                };
                if is_dots {
                    to_subpoints(700, Unit::Mm)
                } else {
                    to_subpoints(100, Unit::Mm)
                }
            },
        };
        if line_width == 0 {
            return Err(ValidationError::ZeroLineWidth);
        }
        Ok(
            ExtendParams {
                extend_left: to_subpoints(args.left, args.unit),
                extend_right: to_subpoints(args.right, args.unit),
                extend_top: to_subpoints(args.top, args.unit),
                extend_bottom: to_subpoints(args.bottom, args.unit),
                spacing,
                line_width,
                grid: args.grid,
                color: args.color,
                extra_page: args.extra_page,
                mirror: args.mirror,
            },
        )
    }
}

} // verus!
