//! The flash of new highlights.
use crate::draw;
use crate::draw::{
    push_cursor, push_op, push_ops, push_stable_row, write_cell, DrawOp, Glyph, Op, RenderStyle,
};
use crate::live::LiveRenderScene;
use crate::model::Rgb;
use crate::screen;
use crate::screen::{Cell, DisplayColor, StyledCell, TerminalState};
use crate::screen_text;
use vstd::prelude::*;

verus! {

/// A run of highlighted columns, with the free columns beside it that take a marker.
#[derive(Debug, Clone, Copy, PartialEq, Eq, Structural)]
pub struct HighlightSpan {
    pub row: usize,
    pub start: usize,
    pub end: usize,
    pub left_marker: Option<usize>,
    pub right_marker: Option<usize>,
}

/// The column beside an edge of a run, if it can take a marker.
pub open spec fn slot(cells: Seq<Seq<Cell>>, row: int, edge: int, left: bool) -> Option<int> {
    let candidate = if left {
        edge - 1
    } else {
        edge + 1
    };
    if 0 <= row < cells.len() && 0 <= candidate < cells[row].len()
        && !cells[row][candidate].wide_continuation {
        Some(candidate)
    } else {
        None
    }
}

/// The column beside an edge of a run, if it can take a marker.
pub fn marker_slot(cells: &[Vec<StyledCell>], row: usize, edge_col: usize, left_side: bool) -> (r:
    Option<usize>)
    ensures
        match slot(screen::grid(cells@), row as int, edge_col as int, left_side) {
            Some(col) => r == Some(col as usize) && col == (col as usize),
            None => r is None,
        },
{
    if row >= cells.len() {
        return None;
    }
    let ghost view = screen::grid(cells@);
    assert(view[row as int] == screen::row_view(cells@[row as int]@));
    let len: usize = cells[row].len();
    let candidate: usize = if left_side {
        if edge_col == 0 {
            return None;
        }
        edge_col - 1
    } else {
        if edge_col >= len {
            return None;
        }
        edge_col + 1
    };
    if candidate >= len {
        return None;
    }
    assert(view[row as int][candidate as int] == cells@[row as int]@[candidate as int]@);
    if cells[row][candidate].wide_continuation {
        None
    } else {
        Some(candidate)
    }
}

/// The first column from `col` on that is not highlighted.
pub open spec fn run_end(colors: Seq<Option<Rgb>>, col: int) -> int
    decreases colors.len() - col,
{
    if col >= colors.len() || col < 0 || colors[col] is None {
        col
    } else {
        run_end(colors, col + 1)
    }
}

/// A run of highlighted columns: its row, its first and its last column, and its markers.
#[verifier::ext_equal]
pub struct Run {
    pub row: int,
    pub start: int,
    pub end: int,
    pub left_marker: Option<int>,
    pub right_marker: Option<int>,
}

/// The runs of highlighted columns of a row, from a column on.
pub open spec fn runs(
    cells: Seq<Seq<Cell>>,
    colors: Seq<Option<Rgb>>,
    row: int,
    col: int,
) -> Seq<Run>
    decreases colors.len() - col,
{
    if col >= colors.len() || col < 0 {
        Seq::empty()
    } else if colors[col] is None {
        runs(cells, colors, row, col + 1)
    } else {
        let next = run_end(colors, col + 1);
        let run = Run {
            row,
            start: col,
            end: next - 1,
            left_marker: slot(cells, row, col, true),
            right_marker: slot(cells, row, next - 1, false),
        };
        if next <= col || next > colors.len() {
            seq![run]
        } else {
            seq![run] + runs(cells, colors, row, next)
        }
    }
}

/// The runs of highlighted columns of the first `n` rows.
pub open spec fn all_runs(
    cells: Seq<Seq<Cell>>,
    colors: Seq<Seq<Option<Rgb>>>,
    n: int,
) -> Seq<Run>
    decreases n,
{
    if n <= 0 {
        Seq::empty()
    } else {
        all_runs(cells, colors, n - 1) + runs(cells, colors[n - 1], n - 1, 0)
    }
}

/// A column that may be missing.
pub open spec fn optional_column(col: Option<usize>) -> Option<int> {
    match col {
        Some(inner) => Some(inner as int),
        None => None,
    }
}

impl View for HighlightSpan {
    type V = Run;

    open spec fn view(&self) -> Run {
        Run {
            row: self.row as int,
            start: self.start as int,
            end: self.end as int,
            left_marker: optional_column(self.left_marker),
            right_marker: optional_column(self.right_marker),
        }
    }
}

/// The contents of some runs.
pub open spec fn spans_view(list: Seq<HighlightSpan>) -> Seq<Run> {
    list.map_values(|span: HighlightSpan| span@)
}

proof fn lemma_run_end(colors: Seq<Option<Rgb>>, col: int)
    requires
        0 <= col <= colors.len(),
    ensures
        col <= run_end(colors, col) <= colors.len(),
    decreases colors.len() - col,
{
    if col < colors.len() && colors[col] is Some {
        lemma_run_end(colors, col + 1);
    }
}

fn push_runs(
    spans: &mut Vec<HighlightSpan>,
    cells: &[Vec<StyledCell>],
    colors: &Vec<Option<Rgb>>,
    row: usize,
)
    ensures
        spans_view(final(spans)@) == spans_view(old(spans)@) + runs(
            screen::grid(cells@),
            colors@,
            row as int,
            0,
        ),
{
    let ghost grid = screen::grid(cells@);
    let ghost had = spans_view(spans@);
    let ghost all = runs(grid, colors@, row as int, 0);
    let mut col: usize = 0;
    assert(spans_view(spans@) + all =~= had + all);
    while col < colors.len()
        invariant
            col <= colors@.len(),
            grid == screen::grid(cells@),
            all == runs(grid, colors@, row as int, 0),
            spans_view(spans@) + runs(grid, colors@, row as int, col as int) == had + all,
        decreases colors@.len() - col,
    {
        if colors[col].is_none() {
            col = col + 1;
        } else {
            let start: usize = col;
            let ghost before = spans@;
            let mut next: usize = col + 1;
            while next < colors.len() && colors[next].is_some()
                invariant
                    start < next <= colors@.len(),
                    run_end(colors@, start + 1) == run_end(colors@, next as int),
                decreases colors@.len() - next,
            {
                next = next + 1;
            }
            let span: HighlightSpan = HighlightSpan {
                row,
                start,
                end: next - 1,
                left_marker: marker_slot(cells, row, start, true),
                right_marker: marker_slot(cells, row, next - 1, false),
            };
            spans.push(span);
            col = next;
            assert(spans_view(spans@) =~= spans_view(before).push(span@));
            assert(spans_view(before) + (seq![span@] + runs(grid, colors@, row as int, next as int))
                =~= spans_view(spans@) + runs(grid, colors@, row as int, next as int));
        }
    }
    assert(spans_view(spans@) + Seq::<Run>::empty() =~= spans_view(spans@));
}

/// The runs of highlighted columns of a screen.
pub open spec fn scene_runs(
    cells: Seq<Seq<Cell>>,
    colors: Option<Seq<Seq<Option<Rgb>>>>,
) -> Seq<Run> {
    match colors {
        Some(rows) => all_runs(cells, rows, rows.len() as int),
        None => Seq::empty(),
    }
}

/// The runs of highlighted columns of a screen.
pub fn highlight_spans(scene: LiveRenderScene<'_>) -> (r: Vec<HighlightSpan>)
    ensures
        spans_view(r@) == scene_runs(
            screen::grid(scene.cells@),
            screen_text::optional_colors(scene.highlight_colors),
        ),
{
    let mut spans: Vec<HighlightSpan> = Vec::new();
    assert(spans_view(spans@) =~= Seq::empty());
    let colors: &[Vec<Option<Rgb>>] = match scene.highlight_colors {
        Some(colors) => colors,
        None => {
            return spans;
        },
    };
    let ghost grid = screen::grid(scene.cells@);
    let ghost rows = screen_text::optional_colors(scene.highlight_colors)->0;
    let mut n: usize = 0;
    assert(spans_view(spans@) =~= all_runs(grid, rows, 0));
    while n < colors.len()
        invariant
            n <= colors@.len(),
            grid == screen::grid(scene.cells@),
            rows == colors@.map_values(|row: Vec<Option<Rgb>>| row@),
            spans_view(spans@) == all_runs(grid, rows, n as int),
        decreases colors@.len() - n,
    {
        assert(rows[n as int] == colors@[n as int]@);
        push_runs(&mut spans, scene.cells, &colors[n], n);
        n = n + 1;
    }
    spans
}

/// A cell in the colours of a flash.
pub open spec fn flashed(cell: Cell, bg: Rgb, fg: Rgb) -> Cell {
    Cell { bold: true, fg: DisplayColor::Rgb(fg), bg: DisplayColor::Rgb(bg), ..cell }
}

/// The column where the flash of a run starts.
pub open spec fn flash_left(run: Run) -> int {
    match run.left_marker {
        Some(col) => col,
        None => run.start,
    }
}

/// The last column of the flash of a run.
pub open spec fn flash_right(run: Run) -> int {
    match run.right_marker {
        Some(col) => col,
        None => run.end,
    }
}

/// What a column shows in the flash of a run: a star in place of a marker.
pub open spec fn flash_glyph(row: Seq<Cell>, run: Run, bg: Rgb, fg: Rgb, c: int) -> Glyph {
    draw::glyph(
        flashed(row[c], bg, fg),
        if run.left_marker == Some(c) || run.right_marker == Some(c) {
            seq!['✦']
        } else {
            row[c].text
        },
    )
}

/// The glyphs of the columns of a flash before column `n`.
pub open spec fn flash_glyphs(row: Seq<Cell>, run: Run, bg: Rgb, fg: Rgb, n: int) -> Seq<Glyph> {
    draw::row_glyphs(row, |c: int| flash_glyph(row, run, bg, fg, c), flash_left(run), n)
}

/// The flash of a run, in two colours.
pub open spec fn flash_ops(cells: Seq<Seq<Cell>>, run: Run, bg: Rgb, fg: Rgb) -> Seq<Op> {
    if !(0 <= run.row < cells.len()) {
        Seq::empty()
    } else {
        let row = cells[run.row];
        let to = if flash_right(run) + 1 < row.len() {
            flash_right(run) + 1
        } else {
            row.len() as int
        };
        seq![
            Op::MoveTo((flash_left(run) as usize) as u16, (run.row as usize) as u16),
            Op::Text(draw::painted(flash_glyphs(row, run, bg, fg, to)) + "\x1b[0m"@),
        ]
    }
}

/// The flash of a run, in two colours.
pub fn draw_highlight_span_flash(
    scene: LiveRenderScene<'_>,
    span: &HighlightSpan,
    bg: Rgb,
    fg: Rgb,
) -> (list: Vec<DrawOp>)
    ensures
        draw::ops(list@) == flash_ops(screen::grid(scene.cells@), span@, bg, fg),
{
    let ghost grid = screen::grid(scene.cells@);
    let ghost run = span@;
    let mut list: Vec<DrawOp> = Vec::new();
    assert(draw::ops(list@) =~= Seq::empty());
    if span.row >= scene.cells.len() {
        return list;
    }
    let row: &Vec<StyledCell> = &scene.cells[span.row];
    let ghost view = screen::row_view(row@);
    assert(grid[run.row] == view);
    let left: usize = match span.left_marker {
        Some(col) => col,
        None => span.start,
    };
    let right: usize = match span.right_marker {
        Some(col) => col,
        None => span.end,
    };
    let len: usize = row.len();
    let to: usize = if right < len {
        right + 1
    } else {
        len
    };
    let mut out: String = String::new();
    let mut state: Option<RenderStyle> = None;
    let mut c: usize = left;
    assert(out@ =~= draw::painted(flash_glyphs(view, run, bg, fg, left as int)));
    while c < to
        invariant
            left <= c,
            to <= len,
            len == row@.len(),
            run == span@,
            left == flash_left(run),
            view == screen::row_view(row@),
            c <= to || c == left,
            state == draw::last_style(flash_glyphs(view, run, bg, fg, c as int)),
            out@ == draw::painted(flash_glyphs(view, run, bg, fg, c as int)),
        decreases to - c,
    {
        assert(view[c as int] == row@[c as int]@);
        if !row[c].wide_continuation {
            let ghost before = flash_glyphs(view, run, bg, fg, c as int);
            let ghost next = flash_glyph(view, run, bg, fg, c as int);
            let mut shown: StyledCell = row[c].clone();
            shown.bold = true;
            shown.fg = DisplayColor::Rgb(fg);
            shown.bg = DisplayColor::Rgb(bg);
            let marker: bool = (match span.left_marker {
                Some(col) => col == c,
                None => false,
            }) || (match span.right_marker {
                Some(col) => col == c,
                None => false,
            });
            if marker {
                let star: String = crate::noise::one_char('✦');
                write_cell(&mut out, &shown, star.as_str(), &mut state);
                assert(next == draw::glyph(shown@, star@));
            } else {
                write_cell(&mut out, &shown, row[c].text.as_str(), &mut state);
                assert(next == draw::glyph(shown@, row@[c as int].text@));
            }
            proof {
                draw::lemma_painted(before, next);
                assert(flash_glyphs(view, run, bg, fg, c + 1) =~= before.push(next));
            }
        } else {
            assert(flash_glyphs(view, run, bg, fg, c + 1) =~= flash_glyphs(
                view,
                run,
                bg,
                fg,
                c as int,
            ));
        }
        c = c + 1;
    }
    proof {
        if left > to {
            assert(flash_glyphs(view, run, bg, fg, to as int) =~= flash_glyphs(
                view,
                run,
                bg,
                fg,
                left as int,
            ));
        }
    }
    out.append("\x1b[0m");
    push_op(&mut list, DrawOp::MoveTo(left as u16, span.row as u16));
    push_op(&mut list, DrawOp::Text(out));
    assert(draw::ops(list@) =~= flash_ops(grid, run, bg, fg));
    list
}

/// A row of a screen as it is.
pub open spec fn row_ops(
    cells: Seq<Seq<Cell>>,
    colors: Option<Seq<Seq<Option<Rgb>>>>,
    row: int,
) -> Seq<Op> {
    if !(0 <= row < cells.len()) {
        Seq::empty()
    } else {
        seq![
            Op::MoveTo(0, (row as usize) as u16),
            Op::Text(draw::stable_row(cells[row], row, colors)),
        ]
    }
}

/// A row of a screen as it is.
pub fn draw_live_row(scene: LiveRenderScene<'_>, row: usize) -> (list: Vec<DrawOp>)
    ensures
        draw::ops(list@) == row_ops(
            screen::grid(scene.cells@),
            screen_text::optional_colors(scene.highlight_colors),
            row as int,
        ),
{
    let ghost grid = screen::grid(scene.cells@);
    let ghost marks = screen_text::optional_colors(scene.highlight_colors);
    let mut list: Vec<DrawOp> = Vec::new();
    assert(draw::ops(list@) =~= Seq::empty());
    if row >= scene.cells.len() {
        return list;
    }
    assert(grid[row as int] == screen::row_view(scene.cells@[row as int]@));
    let mut out: String = String::new();
    push_stable_row(&mut out, &scene.cells[row], row, scene.highlight_colors);
    assert(out@ =~= draw::stable_row(grid[row as int], row as int, marks));
    push_op(&mut list, DrawOp::MoveTo(0, row as u16));
    push_op(&mut list, DrawOp::Text(out));
    assert(draw::ops(list@) =~= row_ops(grid, marks, row as int));
    list
}

/// The flashes of the first `n` of some runs, in two colours.
pub open spec fn all_flash_ops(
    cells: Seq<Seq<Cell>>,
    list: Seq<Run>,
    bg: Rgb,
    fg: Rgb,
    n: int,
) -> Seq<Op>
    decreases n,
{
    if n <= 0 {
        Seq::empty()
    } else {
        all_flash_ops(cells, list, bg, fg, n - 1) + flash_ops(cells, list[n - 1], bg, fg)
    }
}

/// A phase of the flash: all runs in two colours, for a short time.
pub open spec fn phase_ops(cells: Seq<Seq<Cell>>, list: Seq<Run>, bg: Rgb, fg: Rgb) -> Seq<Op> {
    all_flash_ops(cells, list, bg, fg, list.len() as int) + seq![Op::Flush, Op::Wait(80)]
}

/// The rows of the first `n` of some runs as they are, each once. The runs come row by row.
pub open spec fn restored_ops(
    cells: Seq<Seq<Cell>>,
    colors: Option<Seq<Seq<Option<Rgb>>>>,
    list: Seq<Run>,
    n: int,
) -> Seq<Op>
    decreases n,
{
    if n <= 0 {
        Seq::empty()
    } else {
        let before = restored_ops(cells, colors, list, n - 1);
        if n >= 2 && list[n - 2].row == list[n - 1].row {
            before
        } else {
            before + row_ops(cells, colors, list[n - 1].row)
        }
    }
}

/// The flash of the highlights of a screen; nothing where there are none.
pub open spec fn flash_all_ops(
    cells: Seq<Seq<Cell>>,
    state: TerminalState,
    colors: Option<Seq<Seq<Option<Rgb>>>>,
) -> Seq<Op> {
    let list = scene_runs(cells, colors);
    if list.len() == 0 {
        Seq::empty()
    } else {
        phase_ops(cells, list, Rgb(255, 240, 120), Rgb(20, 12, 0)) + phase_ops(
            cells,
            list,
            Rgb(255, 120, 220),
            Rgb(35, 0, 30),
        ) + restored_ops(cells, colors, list, list.len() as int) + draw::cursor_ops(state)
    }
}

fn push_phase(
    list: &mut Vec<DrawOp>,
    scene: LiveRenderScene<'_>,
    spans: &Vec<HighlightSpan>,
    bg: Rgb,
    fg: Rgb,
)
    ensures
        draw::ops(final(list)@) == draw::ops(old(list)@) + phase_ops(
            screen::grid(scene.cells@),
            spans_view(spans@),
            bg,
            fg,
        ),
{
    let ghost grid = screen::grid(scene.cells@);
    let ghost all = spans_view(spans@);
    let ghost start = draw::ops(list@);
    let mut n: usize = 0;
    assert(start + all_flash_ops(grid, all, bg, fg, 0) =~= start);
    while n < spans.len()
        invariant
            n <= spans@.len(),
            grid == screen::grid(scene.cells@),
            all == spans_view(spans@),
            draw::ops(list@) == start + all_flash_ops(grid, all, bg, fg, n as int),
        decreases spans@.len() - n,
    {
        assert(all[n as int] == spans@[n as int]@);
        let more: Vec<DrawOp> = draw_highlight_span_flash(scene, &spans[n], bg, fg);
        push_ops(list, more);
        n = n + 1;
        assert(draw::ops(list@) =~= start + all_flash_ops(grid, all, bg, fg, n as int));
    }
    push_op(list, DrawOp::Flush);
    push_op(list, DrawOp::Wait(80));
    assert(draw::ops(list@) =~= start + phase_ops(grid, all, bg, fg));
}

/// The flash of the highlights of a screen.
pub fn flash_highlight_markers(scene: LiveRenderScene<'_>) -> (list: Vec<DrawOp>)
    ensures
        draw::ops(list@) == flash_all_ops(
            screen::grid(scene.cells@),
            *scene.state,
            screen_text::optional_colors(scene.highlight_colors),
        ),
{
    let ghost grid = screen::grid(scene.cells@);
    let ghost marks = screen_text::optional_colors(scene.highlight_colors);
    let spans: Vec<HighlightSpan> = highlight_spans(scene);
    let ghost all = spans_view(spans@);
    assert(all.len() == spans@.len());
    let mut list: Vec<DrawOp> = Vec::new();
    assert(draw::ops(list@) =~= Seq::empty());
    if spans.len() == 0 {
        return list;
    }
    push_phase(&mut list, scene, &spans, Rgb(255, 240, 120), Rgb(20, 12, 0));
    push_phase(&mut list, scene, &spans, Rgb(255, 120, 220), Rgb(35, 0, 30));
    let ghost start = draw::ops(list@);
    assert(start =~= phase_ops(grid, all, Rgb(255, 240, 120), Rgb(20, 12, 0)) + phase_ops(
        grid,
        all,
        Rgb(255, 120, 220),
        Rgb(35, 0, 30),
    ));
    let mut n: usize = 0;
    assert(start + restored_ops(grid, marks, all, 0) =~= start);
    while n < spans.len()
        invariant
            n <= spans@.len(),
            grid == screen::grid(scene.cells@),
            marks == screen_text::optional_colors(scene.highlight_colors),
            all == spans_view(spans@),
            draw::ops(list@) == start + restored_ops(grid, marks, all, n as int),
        decreases spans@.len() - n,
    {
        assert(all[n as int] == spans@[n as int]@);
        let again: bool = if n > 0 {
            assert(all[n - 1] == spans@[n - 1]@);
            spans[n - 1].row == spans[n].row
        } else {
            false
        };
        if !again {
            let more: Vec<DrawOp> = draw_live_row(scene, spans[n].row);
            push_ops(&mut list, more);
        }
        n = n + 1;
        assert(draw::ops(list@) =~= start + restored_ops(grid, marks, all, n as int));
    }
    push_cursor(&mut list, scene.state);
    assert(draw::ops(list@) =~= flash_all_ops(grid, *scene.state, marks));
    list
}

/// The runs of a screen come row by row, from the top down. So a row is restored only once.
pub proof fn law_runs_come_row_by_row(
    cells: Seq<Seq<Cell>>,
    colors: Seq<Seq<Option<Rgb>>>,
    n: int,
    i: int,
    j: int,
)
    requires
        0 <= i <= j < all_runs(cells, colors, n).len(),
    ensures
        0 <= all_runs(cells, colors, n)[i].row <= all_runs(cells, colors, n)[j].row < n,
    decreases n,
{
    if n > 0 {
        let before = all_runs(cells, colors, n - 1);
        let now = runs(cells, colors[n - 1], n - 1, 0);
        lemma_runs_row(cells, colors[n - 1], n - 1, 0);
        if j < before.len() {
            law_runs_come_row_by_row(cells, colors, n - 1, i, j);
        } else if i < before.len() {
            law_runs_come_row_by_row(cells, colors, n - 1, i, i);
        }
    }
}

proof fn lemma_runs_row(cells: Seq<Seq<Cell>>, colors: Seq<Option<Rgb>>, row: int, col: int)
    requires
        0 <= col,
    ensures
        forall|i: int|
            0 <= i < runs(cells, colors, row, col).len() ==> (#[trigger] runs(
                cells,
                colors,
                row,
                col,
            )[i]).row == row,
    decreases colors.len() - col,
{
    if col < colors.len() {
        if colors[col] is None {
            lemma_runs_row(cells, colors, row, col + 1);
        } else {
            lemma_run_end(colors, col + 1);
            lemma_runs_row(cells, colors, row, run_end(colors, col + 1));
        }
    }
}

} // verus!
