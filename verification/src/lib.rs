//! Grid-based keyboard control of the mouse pointer: the key layout, the
//! grid geometry, the overlay's per-frame decisions and the command line.
use vstd::prelude::*;

pub mod ascii;
pub mod cli;
pub mod decimal;
pub mod error;
pub mod grid;
pub mod keys;
pub mod overlay;

pub use keys::KeyDistribution;

verus! {

/// Rows of the selection grid.
pub const GRID_HEIGHT: i32 = 13;

/// Columns of the selection grid.
pub const GRID_WIDTH: i32 = 10;

/// Horizontal padding of a cell's letters.
pub const PADDING_W: i32 = 0;

/// Vertical padding of a cell's letters.
pub const PADDING_H: i32 = 0;

/// Default font size.
pub const FONT_SIZE: i32 = 100;

/// Frames per second of the overlay.
pub const TARGET_FPS: u32 = 20;

/// Side of the square that marks a locked cell.
pub const LOCKED_RECT_SIDE: i32 = 30;

/// Pause between closing the overlay and clicking, in milliseconds.
pub const OVERLAY_CLOSE_CLICK_DELAY_MS: u64 = 200;

} // verus!
