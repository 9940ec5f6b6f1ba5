use vstd::prelude::*;
use vstd::std_specs::convert::FromSpecImpl;
use vstd::utf8::encode_utf8;

use crate::framebuffer::{Cell, Color, Framebuffer, FramebufferError};
use crate::text::{
    append_decimal, append_str, chars_of, decimal, lit, push_char, push_char_utf8, push_decimal,
    push_str, str_equal,
};

verus! {

broadcast use vstd::string::group_string_axioms;

/// A terminal size in character cells.
#[derive(Clone, Copy, Debug, PartialEq, Eq, Structural)]
pub struct TerminalSize {
    pub width: u16,
    pub height: u16,
}

impl TerminalSize {
    pub fn new(width: u16, height: u16) -> (size: TerminalSize)
        ensures
            size == (TerminalSize { width, height }),
    {
        TerminalSize { width, height }
    }
}

impl From<(u16, u16)> for TerminalSize {
    fn from(size: (u16, u16)) -> (converted: TerminalSize) {
        TerminalSize { width: size.0, height: size.1 }
    }
}

impl FromSpecImpl<(u16, u16)> for TerminalSize {
    open spec fn obeys_from_spec() -> bool {
        true
    }

    open spec fn from_spec(size: (u16, u16)) -> TerminalSize {
        TerminalSize { width: size.0, height: size.1 }
    }
}

/// The smallest terminal the runtime accepts.
pub open spec fn spec_minimum_size() -> TerminalSize {
    TerminalSize { width: 80, height: 24 }
}

pub fn minimum_terminal_size() -> (size: TerminalSize)
    ensures
        size == spec_minimum_size(),
{
    TerminalSize { width: 80, height: 24 }
}

/// Why the terminal environment cannot host the runtime.
#[derive(Clone, Copy, Debug, PartialEq, Eq, Structural)]
pub enum TerminalValidationError {
    StdoutNotTerminal,
    TooSmall { actual: TerminalSize, minimum: TerminalSize },
}

impl TerminalValidationError {
    /// The user-facing description of the error.
    pub open spec fn spec_message(self) -> Seq<char> {
        match self {
            TerminalValidationError::StdoutNotTerminal => "stdout is not a terminal; run ecosystem directly in an interactive terminal"@,
            TerminalValidationError::TooSmall { actual, minimum } => "terminal is too small: got "@
                + chars_of(decimal(actual.width as nat)) + "x"@ + chars_of(
                decimal(actual.height as nat),
            ) + ", minimum is "@ + chars_of(decimal(minimum.width as nat)) + "x"@ + chars_of(
                decimal(minimum.height as nat),
            ),
        }
    }

    pub fn message(&self) -> (message: String)
        ensures
            message@ == self.spec_message(),
    {
        let mut text = String::new();
        match self {
            TerminalValidationError::StdoutNotTerminal => {
                append_str(
                    &mut text,
                    "stdout is not a terminal; run ecosystem directly in an interactive terminal",
                );
            },
            TerminalValidationError::TooSmall { actual, minimum } => {
                append_str(&mut text, "terminal is too small: got ");
                append_decimal(&mut text, actual.width as u64);
                append_str(&mut text, "x");
                append_decimal(&mut text, actual.height as u64);
                append_str(&mut text, ", minimum is ");
                append_decimal(&mut text, minimum.width as u64);
                append_str(&mut text, "x");
                append_decimal(&mut text, minimum.height as u64);
            },
        }
        proof {
            assert(text@ =~= self.spec_message());
        }
        text
    }
}

/// Accepts an interactive terminal of at least 80x24 cells.
pub fn validate_terminal_environment(stdout_is_terminal: bool, size: TerminalSize) -> (result:
    Result<(), TerminalValidationError>)
    ensures
        !stdout_is_terminal ==> result == Err::<(), TerminalValidationError>(
            TerminalValidationError::StdoutNotTerminal,
        ),
        stdout_is_terminal && (size.width < 80 || size.height < 24) ==> result == Err::<
            (),
            TerminalValidationError,
        >(TerminalValidationError::TooSmall { actual: size, minimum: spec_minimum_size() }),
        result is Ok <==> (stdout_is_terminal && size.width >= 80 && size.height >= 24),
{
    if !stdout_is_terminal {
        return Err(TerminalValidationError::StdoutNotTerminal);
    }
    let minimum = minimum_terminal_size();
    if size.width < minimum.width || size.height < minimum.height {
        return Err(TerminalValidationError::TooSmall { actual: size, minimum });
    }
    Ok(())
}

/// Whether the terminal advertises 24-bit colour.
#[derive(Clone, Copy, Debug, PartialEq, Eq, Structural)]
pub enum ColorCapability {
    Truecolor,
    Limited,
}

/// The colour-related environment variables seen at startup.
#[derive(Clone, Debug, PartialEq, Eq)]
pub struct TerminalColorEnvironment {
    pub colorterm: Option<String>,
    pub term: Option<String>,
}

pub fn optional_string(value: Option<&str>) -> (owned: Option<String>)
    ensures
        owned is Some <==> value is Some,
        owned matches Some(s) ==> s@ == value->0@,
{
    match value {
        Some(text) => Some(text.to_owned()),
        None => None,
    }
}

impl TerminalColorEnvironment {
    pub fn new(colorterm: Option<&str>, term: Option<&str>) -> (environment:
        TerminalColorEnvironment)
        ensures
            environment.colorterm is Some <==> colorterm is Some,
            environment.colorterm matches Some(s) ==> s@ == colorterm->0@,
            environment.term is Some <==> term is Some,
            environment.term matches Some(s) ==> s@ == term->0@,
    {
        TerminalColorEnvironment { colorterm: optional_string(colorterm), term: optional_string(term) }
    }
}

impl Default for TerminalColorEnvironment {
    fn default() -> (environment: TerminalColorEnvironment)
        ensures
            environment.colorterm is None,
            environment.term is None,
    {
        TerminalColorEnvironment { colorterm: None, term: None }
    }
}

/// `COLORTERM` announces 24-bit colour.
pub open spec fn spec_truecolor_marker(value: Seq<char>) -> bool {
    value == "truecolor"@ || value == "24bit"@
}

/// Truecolor when `COLORTERM` is `truecolor` or `24bit`; limited otherwise.
pub fn detect_color_capability(environment: &TerminalColorEnvironment) -> (capability:
    ColorCapability)
    ensures
        capability == if environment.colorterm is Some && spec_truecolor_marker(
            environment.colorterm->0@,
        ) {
            ColorCapability::Truecolor
        } else {
            ColorCapability::Limited
        },
{
    match &environment.colorterm {
        Some(value) => {
            if str_equal(value.as_str(), "truecolor") || str_equal(value.as_str(), "24bit") {
                ColorCapability::Truecolor
            } else {
                ColorCapability::Limited
            }
        },
        None => ColorCapability::Limited,
    }
}

/// The graphics-related environment seen at startup.
#[derive(Clone, Debug, PartialEq, Eq)]
pub struct TerminalGraphicsEnvironment {
    pub term: Option<String>,
    pub colorterm: Option<String>,
    pub kitty_window_id: bool,
    pub kitty_pid: bool,
}

impl TerminalGraphicsEnvironment {
    pub fn new(
        term: Option<&str>,
        colorterm: Option<&str>,
        kitty_window_id: bool,
        kitty_pid: bool,
    ) -> (environment: TerminalGraphicsEnvironment)
        ensures
            environment.term is Some <==> term is Some,
            environment.term matches Some(s) ==> s@ == term->0@,
            environment.colorterm is Some <==> colorterm is Some,
            environment.colorterm matches Some(s) ==> s@ == colorterm->0@,
            environment.kitty_window_id == kitty_window_id,
            environment.kitty_pid == kitty_pid,
    {
        TerminalGraphicsEnvironment {
            term: optional_string(term),
            colorterm: optional_string(colorterm),
            kitty_window_id,
            kitty_pid,
        }
    }
}

impl Default for TerminalGraphicsEnvironment {
    fn default() -> (environment: TerminalGraphicsEnvironment)
        ensures
            environment.term is None,
            environment.colorterm is None,
            !environment.kitty_window_id,
            !environment.kitty_pid,
    {
        TerminalGraphicsEnvironment { term: None, colorterm: None, kitty_window_id: false, kitty_pid: false }
    }
}

/// Control characters (Unicode category Cc) are shown as `?`.
pub open spec fn spec_sanitized(c: char) -> char {
    if c <= '\u{1f}' || ('\u{7f}' <= c && c <= '\u{9f}') {
        '?'
    } else {
        c
    }
}

pub open spec fn spec_sanitized_value(value: Option<String>) -> Seq<char> {
    match value {
        Some(text) => text@.map_values(|c: char| spec_sanitized(c)),
        None => "unset"@,
    }
}

/// A one-line description of the graphics environment. It names the Kitty protocol as
/// the target but never claims support; control characters in the variables are
/// replaced by `?`.
pub open spec fn spec_graphics_summary(environment: TerminalGraphicsEnvironment) -> Seq<char> {
    "target kitty protocol; TERM="@ + spec_sanitized_value(environment.term) + "; COLORTERM="@
        + spec_sanitized_value(environment.colorterm) + "; kitty env hints "@ + if environment.kitty_window_id
        || environment.kitty_pid {
        "yes"@
    } else {
        "no"@
    } + "; support still requires successful graphics frames"@
}

fn append_sanitized(text: &mut String, value: &Option<String>)
    ensures
        final(text)@ == old(text)@ + spec_sanitized_value(*value),
{
    match value {
        Some(inner) => {
            let ghost start = text@;
            let s = inner.as_str();
            for c in it: s.chars()
                invariant
                    it.seq() == s@,
                    s@ == inner@,
                    text@ == start + s@.take(it.index() as int).map_values(
                        |c: char| spec_sanitized(c),
                    ),
            {
                let shown = if c <= '\u{1f}' || ('\u{7f}' <= c && c <= '\u{9f}') {
                    '?'
                } else {
                    c
                };
                push_char(text, shown);
                proof {
                    assert(s@.take(it.index() as int + 1) == s@.take(it.index() as int).push(c));
                    assert(s@.take(it.index() as int + 1).map_values(|c: char| spec_sanitized(c))
                        =~= s@.take(it.index() as int).map_values(|c: char| spec_sanitized(c)).push(
                        shown,
                    ));
                }
            }
            proof {
                assert(s@.take(s@.len() as int) == s@);
            }
        },
        None => {
            append_str(text, "unset");
        },
    }
}

pub fn summarize_graphics_environment(environment: &TerminalGraphicsEnvironment) -> (summary:
    String)
    ensures
        summary@ == spec_graphics_summary(*environment),
{
    let mut text = String::new();
    append_str(&mut text, "target kitty protocol; TERM=");
    append_sanitized(&mut text, &environment.term);
    append_str(&mut text, "; COLORTERM=");
    append_sanitized(&mut text, &environment.colorterm);
    append_str(&mut text, "; kitty env hints ");
    if environment.kitty_window_id || environment.kitty_pid {
        append_str(&mut text, "yes");
    } else {
        append_str(&mut text, "no");
    }
    append_str(&mut text, "; support still requires successful graphics frames");
    proof {
        assert(text@ =~= spec_graphics_summary(*environment));
    }
    text
}

/// ANSI cursor movement to the 1-based `column` and `row`: `ESC [ row ; column H`.
pub open spec fn spec_move_cursor_to(column: u16, row: u16) -> Seq<u8> {
    lit("\x1b[") + decimal(row as nat) + lit(";") + decimal(column as nat) + lit("H")
}

pub fn move_cursor_to(column: u16, row: u16) -> (bytes: Vec<u8>)
    ensures
        bytes@ == spec_move_cursor_to(column, row),
{
    let mut bytes = Vec::new();
    push_str(&mut bytes, "\x1b[");
    push_decimal(&mut bytes, row as u64);
    push_str(&mut bytes, ";");
    push_decimal(&mut bytes, column as u64);
    push_str(&mut bytes, "H");
    proof {
        assert(bytes@ =~= spec_move_cursor_to(column, row));
    }
    bytes
}

/// Erases the screen and homes the cursor.
pub fn clear_screen() -> (bytes: Vec<u8>)
    ensures
        bytes@ == lit("\x1b[2J\x1b[H"),
{
    let mut bytes = Vec::new();
    push_str(&mut bytes, "\x1b[2J\x1b[H");
    proof {
        assert(bytes@ =~= lit("\x1b[2J\x1b[H"));
    }
    bytes
}

/// The ANSI diff of two framebuffers and how many cells changed.
#[derive(Clone, Debug, PartialEq, Eq)]
pub struct EncodeOutput {
    pub bytes: Vec<u8>,
    pub changed_cells: usize,
}

/// The 24-bit SGR sequence selecting `color` as foreground (`38`) or background (`48`).
pub open spec fn spec_truecolor(selector: &str, color: Color) -> Seq<u8> {
    lit("\x1b[") + lit(selector) + lit(";2;") + decimal(color.r as nat) + lit(";") + decimal(
        color.g as nat,
    ) + lit(";") + decimal(color.b as nat) + lit("m")
}

/// Moves to cell `(x, y)` (0-based), sets both colours and prints the glyph.
pub open spec fn spec_cell_command(x: int, y: int, cell: Cell) -> Seq<u8> {
    spec_move_cursor_to((x + 1) as u16, (y + 1) as u16) + spec_truecolor("38", cell.fg)
        + spec_truecolor("48", cell.bg) + encode_utf8(seq![cell.glyph])
}

/// The commands for the changed cells among the first `count` cells, in row-major order.
pub open spec fn spec_diff_commands(
    previous: Seq<Cell>,
    current: Seq<Cell>,
    width: int,
    count: int,
) -> Seq<u8>
    decreases count,
{
    if count <= 0 {
        Seq::empty()
    } else {
        let index = count - 1;
        let earlier = spec_diff_commands(previous, current, width, count - 1);
        if previous[index] != current[index] {
            earlier + spec_cell_command(index % width, index / width, current[index])
        } else {
            earlier
        }
    }
}

/// How many of the first `count` cells differ.
pub open spec fn spec_changed_count(previous: Seq<Cell>, current: Seq<Cell>, count: int) -> int
    decreases count,
{
    if count <= 0 {
        0
    } else {
        spec_changed_count(previous, current, count - 1) + if previous[count - 1] != current[count
            - 1] {
            1int
        } else {
            0int
        }
    }
}

proof fn lemma_changed_count_bound(previous: Seq<Cell>, current: Seq<Cell>, count: int)
    ensures
        0 <= spec_changed_count(previous, current, count) <= if count < 0 { 0 } else { count },
    decreases count,
{
    if count > 0 {
        lemma_changed_count_bound(previous, current, count - 1);
    }
}

/// Encodes the cells that changed between two framebuffers as ANSI commands.
#[derive(Clone, Copy, Debug, Default)]
pub struct AnsiDiffEncoder;

fn push_truecolor(bytes: &mut Vec<u8>, selector: &str, color: Color)
    ensures
        final(bytes)@ == old(bytes)@ + spec_truecolor(selector, color),
{
    push_str(bytes, "\x1b[");
    push_str(bytes, selector);
    push_str(bytes, ";2;");
    push_decimal(bytes, color.r as u64);
    push_str(bytes, ";");
    push_decimal(bytes, color.g as u64);
    push_str(bytes, ";");
    push_decimal(bytes, color.b as u64);
    push_str(bytes, "m");
    proof {
        assert(final(bytes)@ =~= old(bytes)@ + spec_truecolor(selector, color));
    }
}

fn push_cell(bytes: &mut Vec<u8>, x: u16, y: u16, cell: &Cell)
    requires
        x < u16::MAX,
        y < u16::MAX,
    ensures
        final(bytes)@ == old(bytes)@ + spec_cell_command(x as int, y as int, *cell),
{
    let movement = move_cursor_to(x + 1, y + 1);
    let mut i: usize = 0;
    let ghost start = bytes@;
    while i < movement.len()
        invariant
            i <= movement@.len(),
            bytes@ == start + movement@.subrange(0, i as int),
        decreases movement@.len() - i,
    {
        bytes.push(movement[i]);
        proof {
            assert(movement@.subrange(0, i + 1) == movement@.subrange(0, i as int).push(
                movement@[i as int],
            ));
        }
        i = i + 1;
    }
    proof {
        assert(movement@.subrange(0, movement@.len() as int) == movement@);
    }
    push_truecolor(bytes, "38", cell.fg);
    push_truecolor(bytes, "48", cell.bg);
    push_char_utf8(bytes, cell.glyph);
    proof {
        assert(final(bytes)@ =~= old(bytes)@ + spec_cell_command(x as int, y as int, *cell));
    }
}

impl AnsiDiffEncoder {
    pub fn new() -> (encoder: AnsiDiffEncoder) {
        AnsiDiffEncoder
    }

    /// Moves to, colours and prints every cell of `current` that differs from `previous`,
    /// in row-major order, then resets the attributes when anything was printed.
    pub fn encode_diff(&self, previous: &Framebuffer, current: &Framebuffer) -> (result: Result<
        EncodeOutput,
        FramebufferError,
    >)
        requires
            previous.wf(),
            current.wf(),
        ensures
            result is Err <==> (previous.spec_width() != current.spec_width()
                || previous.spec_height() != current.spec_height()),
            result is Err ==> result == Err::<EncodeOutput, FramebufferError>(
                FramebufferError::SizeMismatch {
                    previous_width: previous.spec_width() as u16,
                    previous_height: previous.spec_height() as u16,
                    current_width: current.spec_width() as u16,
                    current_height: current.spec_height() as u16,
                },
            ),
            result matches Ok(output) ==> {
                let count = current.spec_width() * current.spec_height();
                &&& output.changed_cells == spec_changed_count(
                    previous.spec_cells(),
                    current.spec_cells(),
                    count,
                )
                &&& output.bytes@ == spec_diff_commands(
                    previous.spec_cells(),
                    current.spec_cells(),
                    current.spec_width(),
                    count,
                ) + if output.changed_cells > 0 {
                    lit("\x1b[0m")
                } else {
                    Seq::empty()
                }
            },
    {
        if previous.width() != current.width() || previous.height() != current.height() {
            return Err(
                FramebufferError::SizeMismatch {
                    previous_width: previous.width(),
                    previous_height: previous.height(),
                    current_width: current.width(),
                    current_height: current.height(),
                },
            );
        }
        proof {
            current.lemma_wf();
            previous.lemma_wf();
        }
        let ghost width = current.spec_width();
        let ghost height = current.spec_height();
        let mut bytes: Vec<u8> = Vec::new();
        let mut changed_cells: usize = 0;
        let mut y: u16 = 0;
        while y < current.height()
            invariant
                previous.wf(),
                current.wf(),
                width == current.spec_width(),
                height == current.spec_height(),
                previous.spec_width() == width,
                previous.spec_height() == height,
                0 < width <= u16::MAX,
                0 < height <= u16::MAX,
                y <= height,
                changed_cells == spec_changed_count(
                    previous.spec_cells(),
                    current.spec_cells(),
                    y * width,
                ),
                bytes@ == spec_diff_commands(
                    previous.spec_cells(),
                    current.spec_cells(),
                    width,
                    y * width,
                ),
            decreases height - y,
        {
            let mut x: u16 = 0;
            while x < current.width()
                invariant
                    previous.wf(),
                    current.wf(),
                    width == current.spec_width(),
                    height == current.spec_height(),
                    previous.spec_width() == width,
                    previous.spec_height() == height,
                    0 < width <= u16::MAX,
                    0 < height <= u16::MAX,
                    y < height,
                    x <= width,
                    changed_cells == spec_changed_count(
                        previous.spec_cells(),
                        current.spec_cells(),
                        y * width + x,
                    ),
                    bytes@ == spec_diff_commands(
                        previous.spec_cells(),
                        current.spec_cells(),
                        width,
                        y * width + x,
                    ),
                decreases width - x,
            {
                proof {
                    crate::canvas::lemma_grid_bound(width, height, x as int, y as int);
                    vstd::arithmetic::div_mod::lemma_fundamental_div_mod_converse(
                        y * width + x,
                        width,
                        y as int,
                        x as int,
                    );
                    lemma_changed_count_bound(
                        previous.spec_cells(),
                        current.spec_cells(),
                        y * width + x,
                    );
                    crate::canvas::lemma_u16_product(width, height);
                }
                let previous_cell = previous.get(x, y).unwrap();
                let current_cell = current.get(x, y).unwrap();
                if *previous_cell != *current_cell {
                    changed_cells = changed_cells + 1;
                    push_cell(&mut bytes, x, y, current_cell);
                }
                x = x + 1;
            }
            proof {
                assert((y + 1) * width == y * width + width) by (nonlinear_arith);
            }
            y = y + 1;
        }
        proof {
            assert(height * width == width * height) by (nonlinear_arith);
        }
        if changed_cells > 0 {
            push_str(&mut bytes, "\x1b[0m");
        } else {
            assert(bytes@ + Seq::<u8>::empty() == bytes@);
        }
        Ok(EncodeOutput { bytes, changed_cells })
    }
}

} // verus!
