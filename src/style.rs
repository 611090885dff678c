//! Sizes, spacing and colours of the drawing, in pixels.
use vstd::prelude::*;

verus! {

pub const TABLE_WIDTH: i64 = 260;

pub const HEADER_HEIGHT: i64 = 36;

pub const ROW_HEIGHT: i64 = 28;

pub const PADDING_X: i64 = 12;

pub const BORDER_RADIUS: i64 = 4;

pub const FONT_SIZE: i64 = 14;

pub const HEADER_FONT_SIZE: i64 = 15;

/// Horizontal gap between grid columns of the automatic layout.
pub const SPACING_X: i64 = 100;

/// Vertical gap between grid rows of the automatic layout.
pub const SPACING_Y: i64 = 80;

/// Left margin of the automatic layout.
pub const START_X: i64 = 50;

/// Top margin of the automatic layout.
pub const START_Y: i64 = 50;

/// Height given to a grid row that holds no table.
pub const EMPTY_ROW_HEIGHT: i64 = 200;

/// Margin kept right of and below the last table on the canvas.
pub const CANVAS_MARGIN: i64 = 50;

pub const MIN_CANVAS_WIDTH: i64 = 800;

pub const MIN_CANVAS_HEIGHT: i64 = 600;

/// The most columns a table may have for the automatic layout.
pub const MAX_COLUMNS: usize = 1_000_000;

pub const HEADER_BG: &'static str = "#3498db";

pub const HEADER_TEXT: &'static str = "#ffffff";

pub const TABLE_BG: &'static str = "#ffffff";

pub const TABLE_BORDER: &'static str = "#cccccc";

pub const COLUMN_TEXT: &'static str = "#333333";

pub const TYPE_TEXT: &'static str = "#888888";

pub const PK_COLOR: &'static str = "#e74c3c";

pub const RELATION_STROKE: &'static str = "#666666";

pub const RELATION_STROKE_WIDTH: &'static str = "1.5";

pub const CANVAS_BG: &'static str = "#f5f5f5";

/// Height of a table box with `columns` rows.
pub open spec fn box_height(columns: int) -> int {
    HEADER_HEIGHT + columns * ROW_HEIGHT
}

} // verus!
