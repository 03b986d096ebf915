//! The screen of a command: its cells, their colours, and its cursor.
use crate::emulator;
use crate::emulator::{Emulator, VtCell, VtCellView, VtColor};
use crate::model::{Rgb, Theme};
use crate::text;
use crate::text::same;
use crate::theme;
use crate::theme::{theme_preserves_terminal_colors, ThemeView};
use vstd::prelude::*;

verus! {

/// A colour to show.
#[derive(Debug, Clone, Copy, PartialEq, Eq, Structural)]
pub enum DisplayColor {
    Default,
    Indexed(u8),
    Rgb(Rgb),
}

/// A cell to show.
#[derive(Debug, PartialEq, Eq)]
pub struct StyledCell {
    pub text: String,
    pub fg: DisplayColor,
    pub bg: DisplayColor,
    pub bold: bool,
    pub dim: bool,
    pub italic: bool,
    pub underline: bool,
    pub inverse: bool,
    pub wide_continuation: bool,
}

/// What a cell shows.
#[verifier::ext_equal]
pub struct Cell {
    pub text: Seq<char>,
    pub fg: DisplayColor,
    pub bg: DisplayColor,
    pub bold: bool,
    pub dim: bool,
    pub italic: bool,
    pub underline: bool,
    pub inverse: bool,
    pub wide_continuation: bool,
}

impl View for StyledCell {
    type V = Cell;

    open spec fn view(&self) -> Cell {
        Cell {
            text: self.text@,
            fg: self.fg,
            bg: self.bg,
            bold: self.bold,
            dim: self.dim,
            italic: self.italic,
            underline: self.underline,
            inverse: self.inverse,
            wide_continuation: self.wide_continuation,
        }
    }
}

impl Clone for StyledCell {
    fn clone(&self) -> (r: StyledCell)
        ensures
            r@ == self@,
    {
        StyledCell {
            text: self.text.clone(),
            fg: self.fg,
            bg: self.bg,
            bold: self.bold,
            dim: self.dim,
            italic: self.italic,
            underline: self.underline,
            inverse: self.inverse,
            wide_continuation: self.wide_continuation,
        }
    }
}

/// What the cells of a row show.
pub open spec fn row_view(row: Seq<StyledCell>) -> Seq<Cell> {
    row.map_values(|cell: StyledCell| cell@)
}

/// What the cells of a screen show.
pub open spec fn grid(cells: Seq<Vec<StyledCell>>) -> Seq<Seq<Cell>> {
    cells.map_values(|row: Vec<StyledCell>| row_view(row@))
}

/// Where the cursor is, and whether it shows.
#[derive(Debug, Clone, Copy, PartialEq, Eq, Structural)]
pub struct TerminalState {
    pub cursor_row: u16,
    pub cursor_col: u16,
    pub cursor_visible: bool,
}

/// A number, or the last index of a range where that is less.
pub open spec fn within(n: u16, len: u16) -> u16 {
    let last = if len > 0 {
        (len - 1) as u16
    } else {
        0
    };
    if n < last {
        n
    } else {
        last
    }
}

fn hold_within(n: u16, len: u16) -> (r: u16)
    ensures
        r == within(n, len),
{
    let last: u16 = if len > 0 {
        len - 1
    } else {
        0
    };
    if n < last {
        n
    } else {
        last
    }
}

/// The state of a terminal with its cursor at a place, held within some rows and columns.
pub fn terminal_state(cursor: (u16, u16), hidden: bool, rows: u16, cols: u16) -> (r: TerminalState)
    ensures
        r == (TerminalState {
            cursor_row: within(cursor.0, rows),
            cursor_col: within(cursor.1, cols),
            cursor_visible: !hidden,
        }),
{
    TerminalState {
        cursor_row: hold_within(cursor.0, rows),
        cursor_col: hold_within(cursor.1, cols),
        cursor_visible: !hidden,
    }
}

/// Where the cursor is on a terminal of some size, after some chunks of output, held within some
/// rows and columns.
pub open spec fn state_after(size: (u16, u16), input: Seq<Seq<u8>>, rows: u16, cols: u16)
    -> TerminalState {
    let cursor = emulator::cursor_after(size.0, size.1, input);
    TerminalState {
        cursor_row: within(cursor.0, rows),
        cursor_col: within(cursor.1, cols),
        cursor_visible: !emulator::hidden_after(size.0, size.1, input),
    }
}

/// Where the cursor of an emulated terminal is, held within some rows and columns.
pub fn collect_terminal_state(screen: &Emulator, rows: u16, cols: u16) -> (r: TerminalState)
    ensures
        r == state_after(emulator::size_of(*screen), emulator::input_of(*screen), rows, cols),
{
    terminal_state(screen.cursor_position(), screen.hide_cursor(), rows, cols)
}

/// The cursor of a screen with rows and columns is on the screen.
pub proof fn law_cursor_on_screen(cursor: (u16, u16), rows: u16, cols: u16)
    requires
        rows > 0,
        cols > 0,
    ensures
        within(cursor.0, rows) < rows,
        within(cursor.1, cols) < cols,
        cursor.0 < rows ==> within(cursor.0, rows) == cursor.0,
        cursor.1 < cols ==> within(cursor.1, cols) == cursor.1,
{
}

/// What a theme that may be left out says.
pub open spec fn optional_theme(theme: Option<&Theme>) -> Option<ThemeView> {
    match theme {
        Some(inner) => Some(inner@),
        None => None,
    }
}

/// Whether a theme that may be left out leaves every colour as the terminal shows it.
pub open spec fn preserves(theme: Option<ThemeView>) -> bool {
    theme is None || theme->0.transparent()
}

/// Whether a theme that may be left out can be used.
pub open spec fn usable(theme: Option<ThemeView>) -> bool {
    theme is Some ==> theme->0.usable()
}

/// The colour to show for a colour of the emulated terminal.
pub open spec fn shown_color(theme: Option<ThemeView>, color: VtColor, foreground: bool)
    -> DisplayColor {
    if preserves(theme) {
        match color {
            VtColor::Default => DisplayColor::Default,
            VtColor::Idx(idx) => DisplayColor::Indexed(idx),
            VtColor::Rgb(r, g, b) => DisplayColor::Rgb(Rgb(r, g, b)),
        }
    } else {
        DisplayColor::Rgb(replaced_color(theme->0, color, foreground))
    }
}

/// The colour that a theme puts in place of a colour of the emulated terminal.
pub open spec fn replaced_color(theme: ThemeView, color: VtColor, foreground: bool) -> Rgb {
    match color {
        VtColor::Default => if foreground {
            theme.fg()
        } else {
            theme.bg()
        },
        VtColor::Idx(idx) => theme.recolored_index(idx, foreground),
        VtColor::Rgb(r, g, b) => theme.recolored(Rgb(r, g, b), foreground),
    }
}

impl Theme {
    /// The colour that the theme puts in place of a colour of the emulated terminal.
    pub fn map_vt_color(&self, color: VtColor, foreground: bool) -> (r: Rgb)
        requires
            self@.usable(),
        ensures
            r == replaced_color(self@, color, foreground),
    {
        match color {
            VtColor::Default => {
                if foreground {
                    self.default_fg_rgb()
                } else {
                    self.default_bg_rgb()
                }
            },
            VtColor::Idx(idx) => self.map_indexed_color(idx, foreground),
            VtColor::Rgb(r, g, b) => self.map_rgb(Rgb(r, g, b), foreground),
        }
    }
}

/// The colour to show for a colour of the emulated terminal.
pub fn display_vt_color(theme: Option<&Theme>, color: VtColor, foreground: bool) -> (r: DisplayColor)
    requires
        usable(optional_theme(theme)),
    ensures
        r == shown_color(optional_theme(theme), color, foreground),
{
    if let Some(inner) = theme {
        if !theme_preserves_terminal_colors(theme) {
            return DisplayColor::Rgb(inner.map_vt_color(color, foreground));
        }
    }
    match color {
        VtColor::Default => DisplayColor::Default,
        VtColor::Idx(idx) => DisplayColor::Indexed(idx),
        VtColor::Rgb(r, g, b) => DisplayColor::Rgb(Rgb(r, g, b)),
    }
}

/// A cell that shows nothing.
pub open spec fn blank_cell(theme: Option<ThemeView>) -> Cell {
    Cell {
        text: seq![' '],
        fg: if preserves(theme) {
            DisplayColor::Default
        } else {
            DisplayColor::Rgb(theme->0.fg())
        },
        bg: if preserves(theme) {
            DisplayColor::Default
        } else {
            DisplayColor::Rgb(theme->0.bg())
        },
        bold: false,
        dim: false,
        italic: false,
        underline: false,
        inverse: false,
        wide_continuation: false,
    }
}

/// The text of a cell; a blank where the emulated terminal has none.
pub open spec fn text_or_blank(text: Seq<char>) -> Seq<char> {
    if text.len() > 0 {
        text
    } else {
        seq![' ']
    }
}

/// The cell to show for a cell of the emulated terminal that may be missing.
pub open spec fn shown_cell(theme: Option<ThemeView>, found: Option<VtCellView>) -> Cell {
    match found {
        Some(cell) => Cell {
            text: text_or_blank(cell.text),
            fg: shown_color(theme, cell.fg, true),
            bg: shown_color(theme, cell.bg, false),
            bold: cell.bold,
            dim: cell.dim,
            italic: cell.italic,
            underline: cell.underline,
            inverse: cell.inverse,
            wide_continuation: cell.wide_continuation,
        },
        None => blank_cell(theme),
    }
}

impl StyledCell {
    /// A cell that shows nothing.
    pub fn blank(theme: Option<&Theme>) -> (r: StyledCell)
        ensures
            r@ == blank_cell(optional_theme(theme)),
    {
        let mut fg: DisplayColor = DisplayColor::Default;
        let mut bg: DisplayColor = DisplayColor::Default;
        if let Some(inner) = theme {
            if !theme_preserves_terminal_colors(theme) {
                fg = DisplayColor::Rgb(inner.default_fg_rgb());
                bg = DisplayColor::Rgb(inner.default_bg_rgb());
            }
        }
        let r: StyledCell = StyledCell {
            text: crate::noise::one_char(' '),
            fg,
            bg,
            bold: false,
            dim: false,
            italic: false,
            underline: false,
            inverse: false,
            wide_continuation: false,
        };
        r
    }
}

/// The cell to show for a cell of the emulated terminal that may be missing.
pub fn styled_cell(theme: Option<&Theme>, found: Option<VtCell>) -> (r: StyledCell)
    requires
        usable(optional_theme(theme)),
    ensures
        r@ == shown_cell(optional_theme(theme), emulator::optional_cell(found)),
{
    match found {
        Some(cell) => {
            let fg: DisplayColor = display_vt_color(theme, cell.fg, true);
            let bg: DisplayColor = display_vt_color(theme, cell.bg, false);
            let text: String = if same(cell.text.as_str(), "") {
                proof {
                    reveal_strlit("");
                }
                crate::noise::one_char(' ')
            } else {
                proof {
                    reveal_strlit("");
                    if cell.text@.len() == 0 {
                        assert(cell.text@ =~= ""@);
                    }
                }
                cell.text
            };
            StyledCell {
                text,
                fg,
                bg,
                bold: cell.bold,
                dim: cell.dim,
                italic: cell.italic,
                underline: cell.underline,
                inverse: cell.inverse,
                wide_continuation: cell.wide_continuation,
            }
        },
        None => StyledCell::blank(theme),
    }
}

/// The screen to show for an emulated terminal of some size, after some chunks of output.
pub open spec fn shown_screen(
    size: (u16, u16),
    input: Seq<Seq<u8>>,
    rows: u16,
    cols: u16,
    theme: Option<ThemeView>,
) -> Seq<Seq<Cell>> {
    Seq::new(
        rows as nat,
        |row: int|
            Seq::new(
                cols as nat,
                |col: int|
                    shown_cell(
                        theme,
                        emulator::cell_after(size.0, size.1, input, row as u16, col as u16),
                    ),
            ),
    )
}

/// The screen to show for an emulated terminal.
pub fn collect_screen(screen: &Emulator, rows: u16, cols: u16, theme: Option<&Theme>) -> (r: Vec<
    Vec<StyledCell>,
>)
    requires
        usable(optional_theme(theme)),
    ensures
        grid(r@) == shown_screen(
            emulator::size_of(*screen),
            emulator::input_of(*screen),
            rows,
            cols,
            optional_theme(theme),
        ),
{
    let ghost goal = shown_screen(
        emulator::size_of(*screen),
        emulator::input_of(*screen),
        rows,
        cols,
        optional_theme(theme),
    );
    let mut r: Vec<Vec<StyledCell>> = Vec::new();
    let mut row: u16 = 0;
    assert(grid(r@) =~= goal.take(0));
    while row < rows
        invariant
            row <= rows,
            usable(optional_theme(theme)),
            goal == shown_screen(
                emulator::size_of(*screen),
                emulator::input_of(*screen),
                rows,
                cols,
                optional_theme(theme),
            ),
            grid(r@) == goal.take(row as int),
        decreases rows - row,
    {
        let mut line: Vec<StyledCell> = Vec::new();
        let mut col: u16 = 0;
        assert(row_view(line@) =~= goal[row as int].take(0));
        while col < cols
            invariant
                row < rows,
                col <= cols,
                usable(optional_theme(theme)),
                goal == shown_screen(
                emulator::size_of(*screen),
                emulator::input_of(*screen),
                rows,
                cols,
                optional_theme(theme),
            ),
                row_view(line@) == goal[row as int].take(col as int),
            decreases cols - col,
        {
            let ghost before = line@;
            let cell: StyledCell = styled_cell(theme, screen.cell(row, col));
            line.push(cell);
            assert(row_view(line@) =~= row_view(before).push(cell@));
            col = col + 1;
            assert(row_view(line@) =~= goal[row as int].take(col as int));
        }
        assert(goal[row as int].take(cols as int) =~= goal[row as int]);
        let ghost earlier = r@;
        r.push(line);
        assert(grid(r@) =~= grid(earlier).push(row_view(line@)));
        row = row + 1;
        assert(grid(r@) =~= goal.take(row as int));
    }
    assert(goal.take(rows as int) =~= goal);
    r
}

} // verus!
