//! Drawing operations: the text of styled cells, and what is done on the terminal.
use crate::model::Rgb;
use crate::screen;
use crate::screen::{Cell, DisplayColor, StyledCell, TerminalState};
use crate::screen_text;
use crate::screen_text::highlight_color;
use crate::sgr;
use crate::sgr::push_color;
use crate::text;
use crate::text::push_decimal;
use vstd::prelude::*;

verus! {

/// Something that is done on the terminal.
#[derive(Debug, PartialEq, Eq)]
pub enum DrawOp {
    /// Write a text at the cursor.
    Text(String),
    /// Move the cursor to a column and a row.
    MoveTo(u16, u16),
    ScrollUp(u16),
    ScrollDown(u16),
    ClearAll,
    ShowCursor,
    HideCursor,
    Flush,
    /// Wait for some milliseconds.
    Wait(u64),
}

/// Something that is done on the terminal.
pub enum Op {
    Text(Seq<char>),
    MoveTo(u16, u16),
    ScrollUp(u16),
    ScrollDown(u16),
    ClearAll,
    ShowCursor,
    HideCursor,
    Flush,
    Wait(int),
}

impl View for DrawOp {
    type V = Op;

    open spec fn view(&self) -> Op {
        match self {
            DrawOp::Text(text) => Op::Text(text@),
            DrawOp::MoveTo(col, row) => Op::MoveTo(*col, *row),
            DrawOp::ScrollUp(lines) => Op::ScrollUp(*lines),
            DrawOp::ScrollDown(lines) => Op::ScrollDown(*lines),
            DrawOp::ClearAll => Op::ClearAll,
            DrawOp::ShowCursor => Op::ShowCursor,
            DrawOp::HideCursor => Op::HideCursor,
            DrawOp::Flush => Op::Flush,
            DrawOp::Wait(ms) => Op::Wait(*ms as int),
        }
    }
}

/// The contents of some operations.
pub open spec fn ops(list: Seq<DrawOp>) -> Seq<Op> {
    list.map_values(|op: DrawOp| op@)
}

/// Appends an operation.
pub fn push_op(list: &mut Vec<DrawOp>, op: DrawOp)
    ensures
        ops(final(list)@) == ops(old(list)@).push(op@),
{
    list.push(op);
    assert(ops(list@) =~= ops(old(list)@).push(op@));
}

/// Appends some operations.
pub fn push_ops(list: &mut Vec<DrawOp>, more: Vec<DrawOp>)
    ensures
        ops(final(list)@) == ops(old(list)@) + ops(more@),
{
    let mut rest: Vec<DrawOp> = more;
    list.append(&mut rest);
    assert(ops(list@) =~= ops(old(list)@) + ops(more@));
}

/// The look of a cell on the terminal.
#[derive(Debug, Clone, Copy, PartialEq, Eq, Structural)]
pub struct RenderStyle {
    pub fg: DisplayColor,
    pub bg: DisplayColor,
    pub bold: bool,
    pub dim: bool,
    pub italic: bool,
    pub underline: bool,
}

/// The look of a cell. An inverse cell has its colours exchanged.
pub open spec fn style_of(cell: Cell) -> RenderStyle {
    RenderStyle {
        fg: if cell.inverse {
            cell.bg
        } else {
            cell.fg
        },
        bg: if cell.inverse {
            cell.fg
        } else {
            cell.bg
        },
        bold: cell.bold,
        dim: cell.dim,
        italic: cell.italic,
        underline: cell.underline,
    }
}

/// The parameter that sets a colour of the sixteen basic ones.
pub open spec fn basic_parameter(fg: bool, idx: u8) -> int {
    let base: int = if fg {
        30
    } else {
        40
    };
    if idx < 8 {
        base + idx
    } else {
        base + 60 + (idx - 8)
    }
}

/// The sequence that sets the foreground or the background.
pub open spec fn display_code(fg: bool, color: DisplayColor) -> Seq<char> {
    match color {
        DisplayColor::Default => if fg {
            "\x1b[39m"@
        } else {
            "\x1b[49m"@
        },
        DisplayColor::Indexed(idx) => if idx < 16 {
            "\x1b["@ + text::decimal(basic_parameter(fg, idx) as nat) + "m"@
        } else if fg {
            "\x1b[38;5;"@ + text::decimal(idx as nat) + "m"@
        } else {
            "\x1b[48;5;"@ + text::decimal(idx as nat) + "m"@
        },
        DisplayColor::Rgb(rgb) => sgr::color_code(fg, rgb),
    }
}

/// Appends the sequence that sets the foreground or the background.
pub fn write_display_color(out: &mut String, fg: bool, color: DisplayColor)
    ensures
        final(out)@ == old(out)@ + display_code(fg, color),
{
    match color {
        DisplayColor::Default => {
            if fg {
                out.append("\x1b[39m");
            } else {
                out.append("\x1b[49m");
            }
        },
        DisplayColor::Indexed(idx) => {
            if idx < 16 {
                let base: u8 = if fg {
                    30
                } else {
                    40
                };
                let parameter: u8 = if idx < 8 {
                    base + idx
                } else {
                    base + 60 + (idx - 8)
                };
                out.append("\x1b[");
                push_decimal(out, parameter as u128);
            } else {
                if fg {
                    out.append("\x1b[38;5;");
                } else {
                    out.append("\x1b[48;5;");
                }
                push_decimal(out, idx as u128);
            }
            out.append("m");
            assert(out@ =~= old(out)@ + display_code(fg, color));
        },
        DisplayColor::Rgb(rgb) => {
            push_color(out, fg, rgb);
        },
    }
}

/// A sequence where it is wanted, and nothing otherwise.
pub open spec fn when(wanted: bool, code: Seq<char>) -> Seq<char> {
    if wanted {
        code
    } else {
        Seq::empty()
    }
}

/// The sequences that set a look.
#[verifier::opaque]
pub open spec fn style_code(style: RenderStyle) -> Seq<char> {
    "\x1b[0m"@ + display_code(true, style.fg) + display_code(false, style.bg) + when(
        style.bold,
        "\x1b[1m"@,
    ) + when(style.dim, "\x1b[2m"@) + when(style.italic, "\x1b[3m"@) + when(
        style.underline,
        "\x1b[4m"@,
    )
}

fn push_when(out: &mut String, wanted: bool, code: &str)
    ensures
        final(out)@ == old(out)@ + when(wanted, code@),
{
    if wanted {
        out.append(code);
    } else {
        assert(out@ + Seq::<char>::empty() =~= out@);
    }
}

fn push_style(out: &mut String, style: RenderStyle)
    ensures
        final(out)@ == old(out)@ + style_code(style),
{
    out.append("\x1b[0m");
    write_display_color(out, true, style.fg);
    write_display_color(out, false, style.bg);
    push_when(out, style.bold, "\x1b[1m");
    push_when(out, style.dim, "\x1b[2m");
    push_when(out, style.italic, "\x1b[3m");
    push_when(out, style.underline, "\x1b[4m");
    reveal(style_code);
    assert(out@ =~= old(out)@ + style_code(style));
}

/// Appends a text in the look of a cell. The look is set only where it is not set already.
pub fn write_cell(
    out: &mut String,
    cell: &StyledCell,
    text: &str,
    style_state: &mut Option<RenderStyle>,
)
    ensures
        *final(style_state) == Some(style_of(cell@)),
        final(out)@ == old(out)@ + when(
            *old(style_state) != Some(style_of(cell@)),
            style_code(style_of(cell@)),
        ) + text@,
{
    let next: RenderStyle = RenderStyle {
        fg: if cell.inverse {
            cell.bg
        } else {
            cell.fg
        },
        bg: if cell.inverse {
            cell.fg
        } else {
            cell.bg
        },
        bold: cell.bold,
        dim: cell.dim,
        italic: cell.italic,
        underline: cell.underline,
    };
    let set: bool = match style_state {
        Some(style) => *style == next,
        None => false,
    };
    if !set {
        push_style(out, next);
        *style_state = Some(next);
    } else {
        assert(out@ =~= out@ + Seq::<char>::empty());
    }
    out.append(text);
}

/// A text in a look.
#[verifier::ext_equal]
pub struct Glyph {
    pub style: RenderStyle,
    pub text: Seq<char>,
}

/// A text in the look of a cell.
pub open spec fn glyph(cell: Cell, text: Seq<char>) -> Glyph {
    Glyph { style: style_of(cell), text }
}

/// Texts in their looks, one after the other. A look is set where it differs from the one before.
pub open spec fn painted(glyphs: Seq<Glyph>) -> Seq<char>
    decreases glyphs.len(),
{
    if glyphs.len() == 0 {
        Seq::empty()
    } else {
        let before = glyphs.drop_last();
        let last = glyphs.last();
        painted(before) + when(
            before.len() == 0 || before.last().style != last.style,
            style_code(last.style),
        ) + last.text
    }
}

/// The glyphs of the cells of a row from column `from` to the one before `to`; the second half
/// of a wide character has none.
pub open spec fn row_glyphs(
    row: Seq<Cell>,
    show: spec_fn(int) -> Glyph,
    from: int,
    to: int,
) -> Seq<Glyph>
    decreases to - from,
{
    if to <= from {
        Seq::empty()
    } else if row[to - 1].wide_continuation {
        row_glyphs(row, show, from, to - 1)
    } else {
        row_glyphs(row, show, from, to - 1).push(show(to - 1))
    }
}

/// The look of the last of some glyphs.
pub open spec fn last_style(glyphs: Seq<Glyph>) -> Option<RenderStyle> {
    if glyphs.len() == 0 {
        None
    } else {
        Some(glyphs.last().style)
    }
}

/// Writing one more glyph paints the longer list.
pub proof fn lemma_painted(glyphs: Seq<Glyph>, next: Glyph)
    ensures
        painted(glyphs.push(next)) == painted(glyphs) + when(
            last_style(glyphs) != Some(next.style),
            style_code(next.style),
        ) + next.text,
        last_style(glyphs.push(next)) == Some(next.style),
{
    assert(glyphs.push(next).drop_last() =~= glyphs);
}

/// A cell with the colour of a highlight as its background.
pub open spec fn with_highlight(cell: Cell, highlight: Option<Rgb>) -> Cell {
    match highlight {
        Some(rgb) => Cell { bg: DisplayColor::Rgb(rgb), ..cell },
        None => cell,
    }
}

/// A copy of a cell, with the colour of a highlight as its background.
pub fn highlighted(cell: &StyledCell, highlight: Option<Rgb>) -> (r: StyledCell)
    ensures
        r@ == with_highlight(cell@, highlight),
{
    let mut r: StyledCell = cell.clone();
    if let Some(rgb) = highlight {
        r.bg = DisplayColor::Rgb(rgb);
    }
    r
}

/// A row as it is, with its highlights.
pub open spec fn stable_glyphs(
    row: Seq<Cell>,
    r: int,
    colors: Option<Seq<Seq<Option<Rgb>>>>,
    n: int,
) -> Seq<Glyph> {
    row_glyphs(
        row,
        |c: int|
            glyph(
                with_highlight(row[c], screen_text::highlight_at(colors, r, c)),
                row[c].text,
            ),
        0,
        n,
    )
}

/// A row as it is, with its highlights, and the look reset at its end.
pub open spec fn stable_row(
    row: Seq<Cell>,
    r: int,
    colors: Option<Seq<Seq<Option<Rgb>>>>,
) -> Seq<char> {
    painted(stable_glyphs(row, r, colors, row.len() as int)) + "\x1b[0m"@
}

/// Appends a row as it is, with its highlights.
pub fn push_stable_row(
    out: &mut String,
    row: &Vec<StyledCell>,
    r: usize,
    colors: Option<&[Vec<Option<Rgb>>]>,
)
    ensures
        final(out)@ == old(out)@ + stable_row(
            screen::row_view(row@),
            r as int,
            screen_text::optional_colors(colors),
        ),
{
    let ghost view = screen::row_view(row@);
    let ghost marks = screen_text::optional_colors(colors);
    let mut state: Option<RenderStyle> = None;
    let mut c: usize = 0;
    assert(out@ + painted(stable_glyphs(view, r as int, marks, 0)) =~= out@);
    while c < row.len()
        invariant
            c <= row@.len(),
            view == screen::row_view(row@),
            marks == screen_text::optional_colors(colors),
            state == last_style(stable_glyphs(view, r as int, marks, c as int)),
            out@ == old(out)@ + painted(stable_glyphs(view, r as int, marks, c as int)),
        decreases row@.len() - c,
    {
        assert(view[c as int] == row@[c as int]@);
        if !row[c].wide_continuation {
            let ghost before = stable_glyphs(view, r as int, marks, c as int);
            let ghost sent = out@;
            let shown: StyledCell = highlighted(&row[c], highlight_color(colors, r, c));
            write_cell(out, &shown, row[c].text.as_str(), &mut state);
            proof {
                let next = glyph(shown@, row@[c as int].text@);
                lemma_painted(before, next);
                assert(stable_glyphs(view, r as int, marks, c + 1) =~= before.push(next));
                assert(out@ =~= old(out)@ + painted(before.push(next)));
            }
        }
        c = c + 1;
    }
    out.append("\x1b[0m");
    assert(out@ =~= old(out)@ + stable_row(view, r as int, marks));
}

/// The cursor goes where it belongs, and shows or not.
pub open spec fn cursor_ops(state: TerminalState) -> Seq<Op> {
    seq![
        Op::MoveTo(state.cursor_col, state.cursor_row),
        if state.cursor_visible {
            Op::ShowCursor
        } else {
            Op::HideCursor
        },
        Op::Flush,
    ]
}

/// Appends that the cursor goes where it belongs, and shows or not.
pub fn push_cursor(list: &mut Vec<DrawOp>, state: &TerminalState)
    ensures
        ops(final(list)@) == ops(old(list)@) + cursor_ops(*state),
{
    push_op(list, DrawOp::MoveTo(state.cursor_col, state.cursor_row));
    if state.cursor_visible {
        push_op(list, DrawOp::ShowCursor);
    } else {
        push_op(list, DrawOp::HideCursor);
    }
    push_op(list, DrawOp::Flush);
    assert(ops(list@) =~= ops(old(list)@) + cursor_ops(*state));
}

} // verus!
