//! The reveal of a screen, and the splash.
use crate::cli_backend;
use crate::cli_backend::frame_pause_ms;
use crate::cli_frames;
use crate::draw;
use crate::draw::{
    highlighted, push_op, push_stable_row, write_cell, DrawOp, Glyph, Op, RenderStyle,
};
use crate::effects;
use crate::effects::{animated_faded_color, coalesce_text, reveal_text_for_cell};
use crate::model::{EffectKind, Rgb};
use crate::screen;
use crate::screen::{Cell, DisplayColor, StyledCell};
use crate::screen_text;
use crate::screen_text::highlight_color;
use crate::single;
use crate::single::{Number, Single};
use crate::text;
use vstd::prelude::*;

verus! {

/// How a screen is revealed.
#[derive(Debug, Clone, Copy)]
pub struct RevealTuning {
    pub frames: usize,
    pub duration_ms: u64,
    pub effect: EffectKind,
    pub color_fade: bool,
    pub darken_factor: Single,
}

/// Whether no cell of a screen has a colour other than those of the terminal.
pub open spec fn terminal_colors(cells: Seq<Seq<Cell>>) -> bool {
    forall|r: int, c: int|
        #![trigger cells[r][c]]
        0 <= r < cells.len() && 0 <= c < cells[r].len() ==> !(cells[r][c].fg is Rgb)
            && !(cells[r][c].bg is Rgb)
}

fn has_terminal_colors(cells: &[Vec<StyledCell>]) -> (b: bool)
    ensures
        b == terminal_colors(screen::grid(cells@)),
{
    let ghost view = screen::grid(cells@);
    let mut r: usize = 0;
    while r < cells.len()
        invariant
            r <= cells@.len(),
            view == screen::grid(cells@),
            forall|i: int, c: int|
                #![trigger view[i][c]]
                0 <= i < r && 0 <= c < view[i].len() ==> !(view[i][c].fg is Rgb)
                    && !(view[i][c].bg is Rgb),
        decreases cells@.len() - r,
    {
        let mut c: usize = 0;
        assert(view[r as int] == screen::row_view(cells@[r as int]@));
        while c < cells[r].len()
            invariant
                r < cells@.len(),
                c <= cells@[r as int]@.len(),
                view == screen::grid(cells@),
                view[r as int] == screen::row_view(cells@[r as int]@),
                forall|i: int|
                    #![trigger view[r as int][i]]
                    0 <= i < c ==> !(view[r as int][i].fg is Rgb) && !(view[r as int][i].bg is Rgb),
            decreases cells@[r as int]@.len() - c,
        {
            assert(view[r as int][c as int] == cells@[r as int]@[c as int]@);
            if let DisplayColor::Rgb(_) = cells[r][c].fg {
                return false;
            }
            if let DisplayColor::Rgb(_) = cells[r][c].bg {
                return false;
            }
            c = c + 1;
        }
        r = r + 1;
    }
    true
}

/// A cell in a frame of the reveal: its colours come out of the dark, or it is dim at first.
pub open spec fn reveal_cell(
    cell: Cell,
    preserve: bool,
    ratio: Number,
    tuning: RevealTuning,
    highlight: Option<Rgb>,
) -> Cell {
    let animated = if tuning.color_fade && single::less(ratio, Number::Finite(single::unit())) {
        if preserve {
            Cell { dim: single::less(ratio, single::fraction(92, 100)), ..cell }
        } else {
            Cell {
                fg: effects::faded(cell.fg, ratio, tuning.effect, tuning.darken_factor@),
                ..cell
            }
        }
    } else {
        cell
    };
    draw::with_highlight(animated, highlight)
}

/// A cell and its text in a frame of the reveal.
pub open spec fn reveal_glyph(
    row: Seq<Cell>,
    r: int,
    c: int,
    total_rows: usize,
    frame: usize,
    ratio: Number,
    tuning: RevealTuning,
    preserve: bool,
    colors: Option<Seq<Seq<Option<Rgb>>>>,
) -> Glyph {
    draw::glyph(
        reveal_cell(row[c], preserve, ratio, tuning, screen_text::highlight_at(colors, r, c)),
        effects::reveal_text(
            row[c].text,
            r as usize,
            c as usize,
            total_rows,
            frame,
            ratio,
            tuning.effect,
        ),
    )
}

/// The glyphs of the first `n` cells of a row in a frame of the reveal.
pub open spec fn reveal_glyphs(
    row: Seq<Cell>,
    r: int,
    total_rows: usize,
    frame: usize,
    ratio: Number,
    tuning: RevealTuning,
    preserve: bool,
    colors: Option<Seq<Seq<Option<Rgb>>>>,
    n: int,
) -> Seq<Glyph> {
    draw::row_glyphs(
        row,
        |c: int|
            reveal_glyph(row, r, c, total_rows, frame, ratio, tuning, preserve, colors),
        0,
        n,
    )
}

/// The smaller of two numbers.
pub open spec fn smaller(a: int, b: int) -> int {
    if a < b {
        a
    } else {
        b
    }
}

/// What follows a row: the start of the next, if there is one.
pub open spec fn row_end(r: int, rows: u16) -> Seq<char> {
    draw::when(r + 1 < rows, "\r\n"@)
}

/// The first `n` rows of a frame of the reveal.
pub open spec fn reveal_rows(
    cells: Seq<Seq<Cell>>,
    colors: Option<Seq<Seq<Option<Rgb>>>>,
    rows: u16,
    cols: u16,
    tuning: RevealTuning,
    frame: usize,
    ratio: Number,
    n: int,
) -> Seq<char>
    decreases n,
{
    if n <= 0 {
        Seq::empty()
    } else {
        reveal_rows(cells, colors, rows, cols, tuning, frame, ratio, n - 1) + draw::painted(
            reveal_glyphs(
                cells[n - 1],
                n - 1,
                rows as usize,
                frame,
                ratio,
                tuning,
                terminal_colors(cells),
                colors,
                smaller(cells[n - 1].len() as int, cols as int),
            ),
        ) + "\x1b[0m"@ + row_end(n - 1, rows)
    }
}

/// The part of the time at a frame, of so many frames.
pub open spec fn frame_ratio(frame: int, frames: int) -> Number {
    cli_frames::part_of(frame, frames - 1)
}

/// A frame of the reveal of a screen.
pub open spec fn reveal_frame_ops(
    cells: Seq<Seq<Cell>>,
    colors: Option<Seq<Seq<Option<Rgb>>>>,
    rows: u16,
    cols: u16,
    tuning: RevealTuning,
    frame: usize,
) -> Seq<Op> {
    seq![
        Op::MoveTo(0, 0),
        Op::Text(
            reveal_rows(
                cells,
                colors,
                rows,
                cols,
                tuning,
                frame,
                frame_ratio(frame as int, tuning.frames as int),
                smaller(cells.len() as int, rows as int),
            ),
        ),
        Op::Flush,
        Op::Wait(cli_backend::pause_of(tuning.duration_ms as int, tuning.frames as int)),
    ]
}

/// The part of the time at a frame, of so many frames.
pub fn ratio_of_frame(frame: usize, frames: usize) -> (r: Single)
    ensures
        r@ == frame_ratio(frame as int, frames as int),
{
    if frames == 0 {
        cli_frames::ratio_of(frame, 0)
    } else {
        cli_frames::ratio_of(frame, frames - 1)
    }
}

fn reveal_animated(
    cell: &StyledCell,
    preserve: bool,
    ratio: Single,
    tuning: RevealTuning,
    highlight: Option<Rgb>,
) -> (r: StyledCell)
    ensures
        r@ == reveal_cell(cell@, preserve, ratio@, tuning, highlight),
{
    let mut r: StyledCell = highlighted(cell, highlight);
    if tuning.color_fade && ratio.is_less(&Single::one()) {
        if preserve {
            r.dim = ratio.is_less(&Single::from_ratio(92, 100));
        } else {
            r.fg = animated_faded_color(cell.fg, ratio, tuning.effect, tuning.darken_factor);
        }
    }
    r
}

fn push_reveal_row(
    out: &mut String,
    row: &Vec<StyledCell>,
    r: usize,
    rows: u16,
    cols: u16,
    frame: usize,
    ratio: Single,
    tuning: RevealTuning,
    preserve: bool,
    colors: Option<&[Vec<Option<Rgb>>]>,
)
    ensures
        final(out)@ == old(out)@ + draw::painted(
            reveal_glyphs(
                screen::row_view(row@),
                r as int,
                rows as usize,
                frame,
                ratio@,
                tuning,
                preserve,
                screen_text::optional_colors(colors),
                smaller(row@.len() as int, cols as int),
            ),
        ) + "\x1b[0m"@ + row_end(r as int, rows),
{
    let ghost view = screen::row_view(row@);
    let ghost marks = screen_text::optional_colors(colors);
    let ghost show = |n: int|
        reveal_glyphs(view, r as int, rows as usize, frame, ratio@, tuning, preserve, marks, n);
    let width: usize = if row.len() < cols as usize {
        row.len()
    } else {
        cols as usize
    };
    let mut state: Option<RenderStyle> = None;
    let mut c: usize = 0;
    assert(out@ + draw::painted(show(0)) =~= out@);
    while c < width
        invariant
            c <= width <= row@.len(),
            view == screen::row_view(row@),
            marks == screen_text::optional_colors(colors),
            show == (|n: int|
                reveal_glyphs(
                    view,
                    r as int,
                    rows as usize,
                    frame,
                    ratio@,
                    tuning,
                    preserve,
                    marks,
                    n,
                )),
            state == draw::last_style(show(c as int)),
            out@ == old(out)@ + draw::painted(show(c as int)),
        decreases width - c,
    {
        assert(view[c as int] == row@[c as int]@);
        if !row[c].wide_continuation {
            let ghost before = show(c as int);
            let text: String = reveal_text_for_cell(
                &row[c],
                r,
                c,
                rows as usize,
                frame,
                ratio,
                tuning.effect,
            );
            let shown: StyledCell = reveal_animated(
                &row[c],
                preserve,
                ratio,
                tuning,
                highlight_color(colors, r, c),
            );
            write_cell(out, &shown, text.as_str(), &mut state);
            proof {
                let next = draw::glyph(shown@, text@);
                draw::lemma_painted(before, next);
                assert(show(c + 1) =~= before.push(next));
                assert(out@ =~= old(out)@ + draw::painted(before.push(next)));
            }
        } else {
            assert(show(c + 1) =~= show(c as int));
        }
        c = c + 1;
    }
    out.append("\x1b[0m");
    if r < rows as usize && r + 1 < rows as usize {
        out.append("\r\n");
    }
    assert(out@ =~= old(out)@ + draw::painted(show(width as int)) + "\x1b[0m"@ + row_end(
        r as int,
        rows,
    ));
}

/// What is done before the first frame of the reveal: the screen is cleared.
pub fn reveal_opening() -> (r: Vec<DrawOp>)
    ensures
        draw::ops(r@) == seq![Op::ClearAll, Op::MoveTo(0, 0)],
{
    let mut r: Vec<DrawOp> = Vec::new();
    assert(draw::ops(r@) =~= Seq::empty());
    push_op(&mut r, DrawOp::ClearAll);
    push_op(&mut r, DrawOp::MoveTo(0, 0));
    assert(draw::ops(r@) =~= seq![Op::ClearAll, Op::MoveTo(0, 0)]);
    r
}

/// A frame of the reveal of a screen.
pub fn reveal_frame(
    cells: &[Vec<StyledCell>],
    highlight_colors: Option<&[Vec<Option<Rgb>>]>,
    rows: u16,
    cols: u16,
    tuning: RevealTuning,
    frame: usize,
) -> (r: Vec<DrawOp>)
    ensures
        draw::ops(r@) == reveal_frame_ops(
            screen::grid(cells@),
            screen_text::optional_colors(highlight_colors),
            rows,
            cols,
            tuning,
            frame,
        ),
{
    let ghost view = screen::grid(cells@);
    let ghost marks = screen_text::optional_colors(highlight_colors);
    let preserve: bool = has_terminal_colors(cells);
    let ratio: Single = ratio_of_frame(frame, tuning.frames);
    let height: usize = if cells.len() < rows as usize {
        cells.len()
    } else {
        rows as usize
    };
    let mut text: String = String::new();
    let mut n: usize = 0;
    assert(text@ =~= reveal_rows(view, marks, rows, cols, tuning, frame, ratio@, 0));
    while n < height
        invariant
            n <= height <= cells@.len(),
            view == screen::grid(cells@),
            marks == screen_text::optional_colors(highlight_colors),
            preserve == terminal_colors(view),
            text@ == reveal_rows(view, marks, rows, cols, tuning, frame, ratio@, n as int),
        decreases height - n,
    {
        assert(view[n as int] == screen::row_view(cells@[n as int]@));
        let ghost before = text@;
        push_reveal_row(
            &mut text,
            &cells[n],
            n,
            rows,
            cols,
            frame,
            ratio,
            tuning,
            preserve,
            highlight_colors,
        );
        n = n + 1;
        assert(text@ =~= reveal_rows(view, marks, rows, cols, tuning, frame, ratio@, n as int));
    }
    let mut r: Vec<DrawOp> = Vec::new();
    assert(draw::ops(r@) =~= Seq::empty());
    push_op(&mut r, DrawOp::MoveTo(0, 0));
    push_op(&mut r, DrawOp::Text(text));
    push_op(&mut r, DrawOp::Flush);
    push_op(&mut r, DrawOp::Wait(frame_pause_ms(tuning.duration_ms, tuning.frames)));
    assert(draw::ops(r@) =~= reveal_frame_ops(view, marks, rows, cols, tuning, frame));
    r
}

/// The first `n` rows of a screen as they are.
pub open spec fn settled_rows(
    cells: Seq<Seq<Cell>>,
    colors: Option<Seq<Seq<Option<Rgb>>>>,
    rows: u16,
    n: int,
) -> Seq<char>
    decreases n,
{
    if n <= 0 {
        Seq::empty()
    } else {
        settled_rows(cells, colors, rows, n - 1) + draw::stable_row(cells[n - 1], n - 1, colors)
            + row_end(n - 1, rows)
    }
}

/// The end of the reveal: the whole screen as it is.
pub open spec fn reveal_closing_ops(
    cells: Seq<Seq<Cell>>,
    colors: Option<Seq<Seq<Option<Rgb>>>>,
    rows: u16,
) -> Seq<Op> {
    seq![
        Op::MoveTo(0, 0),
        Op::Text(settled_rows(cells, colors, rows, cells.len() as int)),
        Op::Flush,
    ]
}

/// The end of the reveal: the whole screen as it is.
pub fn reveal_closing(
    cells: &[Vec<StyledCell>],
    highlight_colors: Option<&[Vec<Option<Rgb>>]>,
    rows: u16,
) -> (r: Vec<DrawOp>)
    ensures
        draw::ops(r@) == reveal_closing_ops(
            screen::grid(cells@),
            screen_text::optional_colors(highlight_colors),
            rows,
        ),
{
    let ghost view = screen::grid(cells@);
    let ghost marks = screen_text::optional_colors(highlight_colors);
    let mut text: String = String::new();
    let mut n: usize = 0;
    assert(text@ =~= settled_rows(view, marks, rows, 0));
    while n < cells.len()
        invariant
            n <= cells@.len(),
            view == screen::grid(cells@),
            marks == screen_text::optional_colors(highlight_colors),
            text@ == settled_rows(view, marks, rows, n as int),
        decreases cells@.len() - n,
    {
        assert(view[n as int] == screen::row_view(cells@[n as int]@));
        let ghost before = text@;
        push_stable_row(&mut text, &cells[n], n, highlight_colors);
        if n < rows as usize && n + 1 < rows as usize {
            text.append("\r\n");
        }
        n = n + 1;
        assert(text@ =~= settled_rows(view, marks, rows, n as int));
    }
    let mut r: Vec<DrawOp> = Vec::new();
    assert(draw::ops(r@) =~= Seq::empty());
    push_op(&mut r, DrawOp::MoveTo(0, 0));
    push_op(&mut r, DrawOp::Text(text));
    push_op(&mut r, DrawOp::Flush);
    assert(draw::ops(r@) =~= reveal_closing_ops(view, marks, rows));
    r
}

/// A step of the reveal of a screen: the opening, the frames, and the end.
pub open spec fn reveal_step_ops(
    cells: Seq<Seq<Cell>>,
    colors: Option<Seq<Seq<Option<Rgb>>>>,
    rows: u16,
    cols: u16,
    tuning: RevealTuning,
    step: u128,
) -> Option<Seq<Op>> {
    if step == 0 {
        Some(seq![Op::ClearAll, Op::MoveTo(0, 0)])
    } else if step <= tuning.frames {
        Some(reveal_frame_ops(cells, colors, rows, cols, tuning, (step - 1) as usize))
    } else if step == tuning.frames + 1 {
        Some(reveal_closing_ops(cells, colors, rows))
    } else {
        None
    }
}

/// A step of the reveal of a screen; none after the last.
pub fn animate_styled_reveal_in_place(
    cells: &[Vec<StyledCell>],
    highlight_colors: Option<&[Vec<Option<Rgb>>]>,
    rows: u16,
    cols: u16,
    tuning: RevealTuning,
    step: u128,
) -> (r: Option<Vec<DrawOp>>)
    ensures
        match reveal_step_ops(
            screen::grid(cells@),
            screen_text::optional_colors(highlight_colors),
            rows,
            cols,
            tuning,
            step,
        ) {
            Some(list) => r is Some && draw::ops(r->0@) == list,
            None => r is None,
        },
{
    if step == 0 {
        Some(reveal_opening())
    } else if step <= tuning.frames as u128 {
        Some(
            reveal_frame(cells, highlight_colors, rows, cols, tuning, (step - 1) as usize),
        )
    } else if step == tuning.frames as u128 + 1 {
        Some(reveal_closing(cells, highlight_colors, rows))
    } else {
        None
    }
}

/// A frame of the splash: the name comes out of the noise.
pub open spec fn splash_ops(frame: int, frames: int, duration_ms: int, effect: EffectKind) -> Seq<Op> {
    seq![
        Op::MoveTo(0, 0),
        Op::ClearAll,
        Op::Text(
            effects::coalesced_line("baeru"@, frame_ratio(frame, frames), effect) + "\r\n"@
                + "making terminal apps glow up...\r\n"@,
        ),
        Op::Flush,
        Op::Wait(cli_backend::pause_of(duration_ms, frames)),
    ]
}

/// A frame of the splash.
pub fn splash_frame(frame: usize, frames: usize, duration_ms: u64, effect: EffectKind) -> (r: Vec<
    DrawOp,
>)
    ensures
        draw::ops(r@) == splash_ops(frame as int, frames as int, duration_ms as int, effect),
{
    let mut text: String = coalesce_text("baeru", ratio_of_frame(frame, frames), effect);
    text.append("\r\n");
    text.append("making terminal apps glow up...\r\n");
    let mut r: Vec<DrawOp> = Vec::new();
    assert(draw::ops(r@) =~= Seq::empty());
    push_op(&mut r, DrawOp::MoveTo(0, 0));
    push_op(&mut r, DrawOp::ClearAll);
    push_op(&mut r, DrawOp::Text(text));
    push_op(&mut r, DrawOp::Flush);
    push_op(&mut r, DrawOp::Wait(frame_pause_ms(duration_ms, frames)));
    assert(draw::ops(r@) =~= splash_ops(
        frame as int,
        frames as int,
        duration_ms as int,
        effect,
    ));
    r
}

} // verus!
