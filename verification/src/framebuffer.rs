use vstd::prelude::*;

use crate::canvas::{lemma_grid_bound, lemma_u16_product};
use crate::text::{append_decimal, append_str, chars_of, decimal};

verus! {

/// A 24-bit terminal colour.
#[derive(Clone, Copy, Debug, PartialEq, Eq, Structural)]
pub struct Color {
    pub r: u8,
    pub g: u8,
    pub b: u8,
}

impl Color {
    pub fn rgb(r: u8, g: u8, b: u8) -> (color: Color)
        ensures
            color == (Color { r, g, b }),
    {
        Color { r, g, b }
    }
}

/// One terminal cell: a glyph with foreground and background colours.
#[derive(Clone, Copy, Debug, PartialEq, Eq, Structural)]
pub struct Cell {
    pub glyph: char,
    pub fg: Color,
    pub bg: Color,
}

impl Cell {
    pub fn new(glyph: char, fg: Color, bg: Color) -> (cell: Cell)
        ensures
            cell == (Cell { glyph, fg, bg }),
    {
        Cell { glyph, fg, bg }
    }

    /// A space in light grey on black.
    pub fn blank() -> (cell: Cell)
        ensures
            cell == (Cell {
                glyph: ' ',
                fg: Color { r: 180, g: 190, b: 200 },
                bg: Color { r: 0, g: 0, b: 0 },
            }),
    {
        Cell::new(' ', Color::rgb(180, 190, 200), Color::rgb(0, 0, 0))
    }
}

/// Ways a framebuffer operation can be refused.
#[derive(Clone, Copy, Debug, PartialEq, Eq, Structural)]
pub enum FramebufferError {
    InvalidSize { width: u16, height: u16 },
    OutOfBounds { x: u16, y: u16 },
    SizeMismatch {
        previous_width: u16,
        previous_height: u16,
        current_width: u16,
        current_height: u16,
    },
}

impl FramebufferError {
    pub open spec fn spec_message(&self) -> Seq<char> {
        match self {
            FramebufferError::InvalidSize { width, height } =>
                "framebuffer size must be non-zero, got "@ + chars_of(decimal(*width as nat)) + "x"@
                + chars_of(decimal(*height as nat)),
            FramebufferError::OutOfBounds { x, y } => "framebuffer coordinate out of bounds: ("@
                + chars_of(decimal(*x as nat)) + ", "@ + chars_of(decimal(*y as nat)) + ")"@,
            FramebufferError::SizeMismatch {
                previous_width,
                previous_height,
                current_width,
                current_height,
            } => "framebuffer sizes differ: previous "@ + chars_of(decimal(*previous_width as nat))
                + "x"@ + chars_of(decimal(*previous_height as nat)) + ", current "@ + chars_of(
                decimal(*current_width as nat),
            ) + "x"@ + chars_of(decimal(*current_height as nat)),
        }
    }

    /// The user-facing description of the error.
    pub fn message(&self) -> (message: String)
        ensures
            message@ == self.spec_message(),
    {
        let mut text = String::new();
        match self {
            FramebufferError::InvalidSize { width, height } => {
                append_str(&mut text, "framebuffer size must be non-zero, got ");
                append_decimal(&mut text, *width as u64);
                append_str(&mut text, "x");
                append_decimal(&mut text, *height as u64);
            },
            FramebufferError::OutOfBounds { x, y } => {
                append_str(&mut text, "framebuffer coordinate out of bounds: (");
                append_decimal(&mut text, *x as u64);
                append_str(&mut text, ", ");
                append_decimal(&mut text, *y as u64);
                append_str(&mut text, ")");
            },
            FramebufferError::SizeMismatch {
                previous_width,
                previous_height,
                current_width,
                current_height,
            } => {
                append_str(&mut text, "framebuffer sizes differ: previous ");
                append_decimal(&mut text, *previous_width as u64);
                append_str(&mut text, "x");
                append_decimal(&mut text, *previous_height as u64);
                append_str(&mut text, ", current ");
                append_decimal(&mut text, *current_width as u64);
                append_str(&mut text, "x");
                append_decimal(&mut text, *current_height as u64);
            },
        }
        proof {
            assert(text@ =~= self.spec_message());
        }
        text
    }
}

/// A grid of terminal cells in row-major order.
#[derive(Clone, Debug, PartialEq, Eq)]
pub struct Framebuffer {
    width: u16,
    height: u16,
    cells: Vec<Cell>,
}

impl Framebuffer {
    pub closed spec fn spec_width(&self) -> int {
        self.width as int
    }

    pub closed spec fn spec_height(&self) -> int {
        self.height as int
    }

    pub closed spec fn spec_cells(&self) -> Seq<Cell> {
        self.cells@
    }

    /// Non-zero size and one cell per coordinate.
    pub closed spec fn wf(&self) -> bool {
        &&& self.width > 0
        &&& self.height > 0
        &&& self.cells@.len() == self.width * self.height
    }

    pub open spec fn in_bounds(&self, x: int, y: int) -> bool {
        0 <= x < self.spec_width() && 0 <= y < self.spec_height()
    }

    /// The cell at column `x`, row `y`.
    pub open spec fn cell_at(&self, x: int, y: int) -> Cell {
        self.spec_cells()[y * self.spec_width() + x]
    }

    pub proof fn lemma_wf(&self)
        requires
            self.wf(),
        ensures
            0 < self.spec_width() <= u16::MAX,
            0 < self.spec_height() <= u16::MAX,
            self.spec_cells().len() == self.spec_width() * self.spec_height(),
    {
    }

    /// A `width` x `height` framebuffer with every cell set to `fill`.
    pub fn new(width: u16, height: u16, fill: Cell) -> (result: Result<Framebuffer, FramebufferError>)
        ensures
            result is Err <==> (width == 0 || height == 0),
            result is Err ==> result == Err::<Framebuffer, FramebufferError>(
                FramebufferError::InvalidSize { width, height },
            ),
            result matches Ok(frame) ==> {
                &&& frame.wf()
                &&& frame.spec_width() == width
                &&& frame.spec_height() == height
                &&& forall|i: int| 0 <= i < frame.spec_cells().len() ==> frame.spec_cells()[i] == fill
            },
    {
        if width == 0 || height == 0 {
            return Err(FramebufferError::InvalidSize { width, height });
        }
        proof {
            lemma_u16_product(width as int, height as int);
        }
        let len = width as usize * height as usize;
        Ok(Framebuffer { width, height, cells: vec![fill; len] })
    }

    pub fn width(&self) -> (width: u16)
        ensures
            width == self.spec_width(),
    {
        self.width
    }

    pub fn height(&self) -> (height: u16)
        ensures
            height == self.spec_height(),
    {
        self.height
    }

    pub fn cells(&self) -> (cells: &[Cell])
        ensures
            cells@ == self.spec_cells(),
    {
        self.cells.as_slice()
    }

    fn index(&self, x: u16, y: u16) -> (index: Option<usize>)
        requires
            self.wf(),
        ensures
            index is Some <==> self.in_bounds(x as int, y as int),
            index matches Some(i) ==> i == y * self.spec_width() + x && i < self.spec_cells().len(),
    {
        if x >= self.width || y >= self.height {
            return None;
        }
        proof {
            lemma_grid_bound(self.width as int, self.height as int, x as int, y as int);
            lemma_u16_product(y as int, self.width as int);
        }
        Some(y as usize * self.width as usize + x as usize)
    }

    /// The cell at `(x, y)`, or `None` outside the framebuffer.
    pub fn get(&self, x: u16, y: u16) -> (cell: Option<&Cell>)
        requires
            self.wf(),
        ensures
            cell is Some <==> self.in_bounds(x as int, y as int),
            cell matches Some(c) ==> *c == self.cell_at(x as int, y as int),
    {
        match self.index(x, y) {
            Some(index) => Some(&self.cells[index]),
            None => None,
        }
    }

    /// Replaces the cell at `(x, y)`; every other cell is kept.
    pub fn set(&mut self, x: u16, y: u16, cell: Cell) -> (result: Result<(), FramebufferError>)
        requires
            old(self).wf(),
        ensures
            final(self).wf(),
            final(self).spec_width() == old(self).spec_width(),
            final(self).spec_height() == old(self).spec_height(),
            result is Ok <==> old(self).in_bounds(x as int, y as int),
            result is Err ==> result == Err::<(), FramebufferError>(
                FramebufferError::OutOfBounds { x, y },
            ) && final(self).spec_cells() == old(self).spec_cells(),
            result is Ok ==> final(self).spec_cells() == old(self).spec_cells().update(
                y * old(self).spec_width() + x,
                cell,
            ),
    {
        let index = match self.index(x, y) {
            Some(index) => index,
            None => {
                return Err(FramebufferError::OutOfBounds { x, y });
            },
        };
        self.cells.set(index, cell);
        Ok(())
    }
}

/// After `set(x, y, cell)` succeeds, reading `(x, y)` gives `cell` and every other
/// in-bounds cell reads as before.
pub proof fn lemma_set_then_get(before: Framebuffer, after: Framebuffer, x: int, y: int, cell: Cell)
    requires
        before.wf(),
        before.in_bounds(x, y),
        after.spec_width() == before.spec_width(),
        after.spec_height() == before.spec_height(),
        after.spec_cells() == before.spec_cells().update(y * before.spec_width() + x, cell),
    ensures
        after.cell_at(x, y) == cell,
        forall|px: int, py: int|
            before.in_bounds(px, py) && (px != x || py != y) ==> #[trigger] after.cell_at(px, py)
                == before.cell_at(px, py),
{
    before.lemma_wf();
    lemma_grid_bound(before.spec_width(), before.spec_height(), x, y);
    assert forall|px: int, py: int|
        before.in_bounds(px, py) && (px != x || py != y) implies #[trigger] after.cell_at(px, py)
            == before.cell_at(px, py) by {
        crate::canvas::lemma_grid_index(before.spec_width(), px, py, x, y);
        lemma_grid_bound(before.spec_width(), before.spec_height(), px, py);
    }
}

} // verus!
