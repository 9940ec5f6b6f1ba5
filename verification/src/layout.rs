use vstd::prelude::*;

use crate::terminal::TerminalSize;

verus! {

/// The size of one terminal cell in pixels.
#[derive(Clone, Copy, Debug, PartialEq, Eq, Structural)]
pub struct CellSize {
    pub width_pixels: u16,
    pub height_pixels: u16,
}

/// `value` raised to at least one.
pub open spec fn at_least_one(value: u16) -> u16 {
    if value == 0 {
        1
    } else {
        value
    }
}

/// `a * b`, or `u16::MAX` where the product does not fit.
pub open spec fn saturating_product(a: u16, b: u16) -> u16 {
    if a * b > u16::MAX {
        u16::MAX
    } else {
        (a * b) as u16
    }
}

impl CellSize {
    pub fn new(width_pixels: u16, height_pixels: u16) -> (size: CellSize)
        ensures
            size == (CellSize { width_pixels, height_pixels }),
    {
        CellSize { width_pixels, height_pixels }
    }

    /// The same cell size with every zero dimension raised to one pixel.
    pub open spec fn spec_sanitized(self) -> CellSize {
        CellSize {
            width_pixels: at_least_one(self.width_pixels),
            height_pixels: at_least_one(self.height_pixels),
        }
    }

    pub fn sanitized(self) -> (size: CellSize)
        ensures
            size == self.spec_sanitized(),
            size.width_pixels >= 1,
            size.height_pixels >= 1,
    {
        CellSize {
            width_pixels: if self.width_pixels == 0 {
                1
            } else {
                self.width_pixels
            },
            height_pixels: if self.height_pixels == 0 {
                1
            } else {
                self.height_pixels
            },
        }
    }
}

/// Where an image sits on the terminal grid; the cursor coordinates are one-based.
#[derive(Clone, Copy, Debug, PartialEq, Eq, Structural)]
pub struct ImagePlacement {
    pub cursor_column: u16,
    pub cursor_row: u16,
    pub columns: u16,
    pub rows: u16,
}

/// The placement of the graphics viewport and the pixel size of its canvas.
#[derive(Clone, Copy, Debug, PartialEq, Eq, Structural)]
pub struct GraphicsLayout {
    pub placement: ImagePlacement,
    pub canvas_width: u16,
    pub canvas_height: u16,
}

/// Whether going from layout `current` to `next` changes the canvas size, so that the
/// scene drawn on it has to be built again.
pub fn canvas_size_changed(current: &GraphicsLayout, next: &GraphicsLayout) -> (changed: bool)
    ensures
        changed == (current.canvas_width != next.canvas_width || current.canvas_height
            != next.canvas_height),
{
    current.canvas_width != next.canvas_width || current.canvas_height != next.canvas_height
}

/// The requested extent clamped to `[1, available]`.
pub open spec fn clamped_extent(requested: u16, available: u16) -> u16 {
    let wanted = at_least_one(requested);
    let limit = at_least_one(available);
    if wanted <= limit {
        wanted
    } else {
        limit
    }
}

/// The placement that centres the clamped request on the terminal.
pub open spec fn spec_centered_image_placement(
    terminal: TerminalSize,
    requested_columns: u16,
    requested_rows: u16,
) -> ImagePlacement {
    let columns = clamped_extent(requested_columns, terminal.width);
    let rows = clamped_extent(requested_rows, terminal.height);
    ImagePlacement {
        cursor_column: ((terminal.width - columns) / 2 + 1) as u16,
        cursor_row: ((terminal.height - rows) / 2 + 1) as u16,
        columns,
        rows,
    }
}

/// The layout whose canvas covers the centred placement at the given cell size.
pub open spec fn spec_graphics_layout(
    terminal: TerminalSize,
    requested_columns: u16,
    requested_rows: u16,
    cell_size: CellSize,
) -> GraphicsLayout {
    let placement = spec_centered_image_placement(terminal, requested_columns, requested_rows);
    let cell = cell_size.spec_sanitized();
    GraphicsLayout {
        placement,
        canvas_width: saturating_product(placement.columns, cell.width_pixels),
        canvas_height: saturating_product(placement.rows, cell.height_pixels),
    }
}

fn clamp_extent(requested: u16, available: u16) -> (extent: u16)
    ensures
        extent == clamped_extent(requested, available),
        1 <= extent,
        available >= 1 ==> extent <= available,
{
    let wanted: u16 = if requested == 0 {
        1
    } else {
        requested
    };
    let limit: u16 = if available == 0 {
        1
    } else {
        available
    };
    if wanted <= limit {
        wanted
    } else {
        limit
    }
}

fn saturating_mul_u16(a: u16, b: u16) -> (product: u16)
    ensures
        product == saturating_product(a, b),
{
    assert((a as u32) * (b as u32) <= 65535 * 65535) by (nonlinear_arith)
        requires
            a <= 65535,
            b <= 65535,
    ;
    let wide: u32 = (a as u32) * (b as u32);
    if wide > 65535 {
        65535
    } else {
        wide as u16
    }
}

/// Centres the requested number of cells on the terminal, clamping the request to
/// between one cell and the terminal's extent in each direction.
pub fn centered_image_placement(
    terminal: TerminalSize,
    requested_columns: u16,
    requested_rows: u16,
) -> (placement: ImagePlacement)
    requires
        terminal.width >= 1,
        terminal.height >= 1,
    ensures
        placement == spec_centered_image_placement(terminal, requested_columns, requested_rows),
        1 <= placement.columns <= terminal.width,
        1 <= placement.rows <= terminal.height,
        placement.cursor_column >= 1,
        placement.cursor_row >= 1,
        placement.cursor_column - 1 + placement.columns <= terminal.width,
        placement.cursor_row - 1 + placement.rows <= terminal.height,
        ({
            let left = placement.cursor_column - 1;
            let right = terminal.width - (left + placement.columns);
            left <= right <= left + 1
        }),
        ({
            let top = placement.cursor_row - 1;
            let bottom = terminal.height - (top + placement.rows);
            top <= bottom <= top + 1
        }),
{
    let columns = clamp_extent(requested_columns, terminal.width);
    let rows = clamp_extent(requested_rows, terminal.height);
    ImagePlacement {
        cursor_column: ((terminal.width - columns) / 2) + 1,
        cursor_row: ((terminal.height - rows) / 2) + 1,
        columns,
        rows,
    }
}

/// The centred placement together with the canvas size in pixels, saturating at
/// `u16::MAX`; a zero cell dimension counts as one pixel.
pub fn graphics_layout(
    terminal: TerminalSize,
    requested_columns: u16,
    requested_rows: u16,
    cell_size: CellSize,
) -> (layout: GraphicsLayout)
    requires
        terminal.width >= 1,
        terminal.height >= 1,
    ensures
        layout == spec_graphics_layout(terminal, requested_columns, requested_rows, cell_size),
{
    let placement = centered_image_placement(terminal, requested_columns, requested_rows);
    let cell = cell_size.sanitized();
    GraphicsLayout {
        placement,
        canvas_width: saturating_mul_u16(placement.columns, cell.width_pixels),
        canvas_height: saturating_mul_u16(placement.rows, cell.height_pixels),
    }
}

} // verus!
