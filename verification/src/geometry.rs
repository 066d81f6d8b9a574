//! Terminal grid sizing for a window of a given pixel size.

use vstd::prelude::*;

verus! {

/// Fixed terminal cell width in pixels.
pub const CELL_WIDTH: u32 = 9;
/// Fixed terminal cell height in pixels.
pub const CELL_HEIGHT: u32 = 18;
/// Empty border around the terminal grid in pixels.
pub const PADDING: u32 = 12;
/// Largest value a PTY size field can carry.
pub const SIZE_FIELD_MAX: u32 = 65535;

/// Terminal dimensions in character cells and backing pixels.
#[derive(Clone, Copy, Debug, PartialEq, Eq, Structural)]
pub struct TerminalSize {
    /// Number of terminal rows visible to the shell.
    pub rows: u16,
    /// Number of terminal columns visible to the shell.
    pub cols: u16,
    /// Window width reported to the PTY, capped to the PTY API's `u16` range.
    pub pixel_width: u16,
    /// Window height reported to the PTY, capped to the PTY API's `u16` range.
    pub pixel_height: u16,
}

impl TerminalSize {
    /// A size that a terminal grid can take: at least one row and one column.
    pub open spec fn has_cells(self) -> bool {
        self.rows >= 1 && self.cols >= 1
    }
}

/// The number of whole cells of size `cell` that fit in `extent` pixels once
/// the padding on both sides is taken away, kept within `1 ..= 65535`.
pub open spec fn cells_fitting(extent: int, cell: int) -> int {
    let usable = if extent >= 2 * PADDING { extent - 2 * PADDING } else { 0 };
    let count = usable / cell;
    if count < 1 {
        1
    } else if count > SIZE_FIELD_MAX {
        SIZE_FIELD_MAX as int
    } else {
        count
    }
}

/// A pixel extent capped to the `u16` range of a PTY size field.
pub open spec fn capped_extent(extent: int) -> int {
    if extent > SIZE_FIELD_MAX { SIZE_FIELD_MAX as int } else { extent }
}

/// Converts a window size into terminal cells and PTY pixel dimensions.
///
/// The returned row and column counts always have at least one cell, even when
/// the window is smaller than the configured padding and cell size.
pub fn terminal_size_for_window(width: u32, height: u32) -> (size: TerminalSize)
    ensures
        size.cols == cells_fitting(width as int, CELL_WIDTH as int),
        size.rows == cells_fitting(height as int, CELL_HEIGHT as int),
        size.pixel_width == capped_extent(width as int),
        size.pixel_height == capped_extent(height as int),
        size.has_cells(),
{
    let usable_width = width.saturating_sub(PADDING * 2);
    let usable_height = height.saturating_sub(PADDING * 2);
    let cols = clamp_cell_count(usable_width / CELL_WIDTH);
    let rows = clamp_cell_count(usable_height / CELL_HEIGHT);
    TerminalSize {
        rows,
        cols,
        pixel_width: cap_extent(width),
        pixel_height: cap_extent(height),
    }
}

/// Keeps a cell count within `1 ..= 65535`.
fn clamp_cell_count(count: u32) -> (r: u16)
    ensures
        r == (if count < 1 { 1 } else if count > SIZE_FIELD_MAX { SIZE_FIELD_MAX } else { count }),
{
    let at_least_one = if count < 1 { 1 } else { count };
    let capped = if at_least_one > SIZE_FIELD_MAX { SIZE_FIELD_MAX } else { at_least_one };
    capped as u16
}

/// Caps a pixel extent to the `u16` range.
fn cap_extent(extent: u32) -> (r: u16)
    ensures
        r == capped_extent(extent as int),
{
    let capped = if extent > SIZE_FIELD_MAX { SIZE_FIELD_MAX } else { extent };
    capped as u16
}

} // verus!
