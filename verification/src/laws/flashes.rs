//! The runs of highlighted columns, and how they flash.
use crate::draw;
use crate::draw::Op;
use crate::flash;
use crate::flash::Run;
use crate::model::Rgb;
use crate::screen::{Cell, DisplayColor, TerminalState};
use vstd::prelude::*;

verus! {

proof fn lemma_run_end(colors: Seq<Option<Rgb>>, col: int)
    requires
        0 <= col <= colors.len(),
    ensures
        ({
            let end = flash::run_end(colors, col);
            &&& col <= end <= colors.len()
            &&& forall|c: int| col <= c < end ==> (#[trigger] colors[c]) is Some
            &&& end < colors.len() ==> colors[end] is None
        }),
    decreases colors.len() - col,
{
    if col < colors.len() && colors[col] is Some {
        lemma_run_end(colors, col + 1);
    }
}

/// A run covers columns that are highlighted, and ends on both sides where none is.
pub open spec fn is_run(colors: Seq<Option<Rgb>>, run: Run) -> bool {
    &&& 0 <= run.start <= run.end < colors.len()
    &&& forall|c: int| run.start <= c <= run.end ==> (#[trigger] colors[c]) is Some
    &&& run.start > 0 ==> colors[run.start - 1] is None
    &&& run.end + 1 < colors.len() ==> colors[run.end + 1] is None
}

proof fn lemma_runs(cells: Seq<Seq<Cell>>, colors: Seq<Option<Rgb>>, row: int, col: int, k: int)
    requires
        0 <= col <= colors.len(),
        col > 0 ==> colors[col - 1] is None || (col < colors.len() && colors[col] is None) || col
            == colors.len(),
        0 <= k < flash::runs(cells, colors, row, col).len(),
    ensures
        ({
            let run = flash::runs(cells, colors, row, col)[k];
            &&& is_run(colors, run)
            &&& run.row == row
            &&& run.start >= col
            &&& run.left_marker == flash::slot(cells, row, run.start, true)
            &&& run.right_marker == flash::slot(cells, row, run.end, false)
        }),
    decreases colors.len() - col,
{
    if col < colors.len() {
        if colors[col] is None {
            lemma_runs(cells, colors, row, col + 1, k);
        } else {
            lemma_run_end(colors, col + 1);
            let next = flash::run_end(colors, col + 1);
            if k > 0 {
                lemma_runs(cells, colors, row, next, k - 1);
            }
        }
    }
}

/// Each run of a row covers highlighted columns and as many of them as stand side by side. Its
/// markers stand beside its ends.
pub proof fn law_runs_are_whole(
    cells: Seq<Seq<Cell>>,
    colors: Seq<Option<Rgb>>,
    row: int,
    k: int,
)
    requires
        0 <= k < flash::runs(cells, colors, row, 0).len(),
    ensures
        ({
            let run = flash::runs(cells, colors, row, 0)[k];
            &&& is_run(colors, run)
            &&& run.row == row
            &&& run.left_marker == flash::slot(cells, row, run.start, true)
            &&& run.right_marker == flash::slot(cells, row, run.end, false)
        }),
{
    lemma_runs(cells, colors, row, 0, k);
}

/// A run of a row that holds a column.
pub open spec fn holds(run: Run, col: int) -> bool {
    run.start <= col <= run.end
}

proof fn lemma_every_column(
    cells: Seq<Seq<Cell>>,
    colors: Seq<Option<Rgb>>,
    row: int,
    from: int,
    col: int,
) -> (k: int)
    requires
        0 <= from <= col < colors.len(),
        colors[col] is Some,
    ensures
        0 <= k < flash::runs(cells, colors, row, from).len(),
        holds(flash::runs(cells, colors, row, from)[k], col),
    decreases colors.len() - from,
{
    if colors[from] is None {
        lemma_every_column(cells, colors, row, from + 1, col)
    } else {
        lemma_run_end(colors, from + 1);
        let next = flash::run_end(colors, from + 1);
        if col < next {
            0
        } else {
            let k = lemma_every_column(cells, colors, row, next, col);
            let rest = flash::runs(cells, colors, row, next);
            assert(flash::runs(cells, colors, row, from)[k + 1] == rest[k]);
            k + 1
        }
    }
}

/// Every highlighted column of a row is in a run.
pub proof fn law_every_highlight_is_in_a_run(
    cells: Seq<Seq<Cell>>,
    colors: Seq<Option<Rgb>>,
    row: int,
    col: int,
)
    requires
        0 <= col < colors.len(),
        colors[col] is Some,
    ensures
        exists|k: int|
            0 <= k < flash::runs(cells, colors, row, 0).len() && holds(
                #[trigger] flash::runs(cells, colors, row, 0)[k],
                col,
            ),
{
    let k = lemma_every_column(cells, colors, row, 0, col);
    assert(holds(flash::runs(cells, colors, row, 0)[k], col));
}

proof fn lemma_runs_in_order(
    cells: Seq<Seq<Cell>>,
    colors: Seq<Option<Rgb>>,
    row: int,
    col: int,
    j: int,
    k: int,
)
    requires
        0 <= col <= colors.len(),
        col > 0 ==> colors[col - 1] is None || (col < colors.len() && colors[col] is None) || col
            == colors.len(),
        0 <= j < k < flash::runs(cells, colors, row, col).len(),
    ensures
        flash::runs(cells, colors, row, col)[j].end + 1 < flash::runs(
            cells,
            colors,
            row,
            col,
        )[k].start,
    decreases colors.len() - col,
{
    if col < colors.len() {
        if colors[col] is None {
            lemma_runs_in_order(cells, colors, row, col + 1, j, k);
        } else {
            lemma_run_end(colors, col + 1);
            let next = flash::run_end(colors, col + 1);
            if j > 0 {
                lemma_runs_in_order(cells, colors, row, next, j - 1, k - 1);
            } else {
                lemma_runs(cells, colors, row, next, k - 1);
                let run = flash::runs(cells, colors, row, next)[k - 1];
                assert(colors[run.start] is Some);
            }
        }
    }
}

/// The runs of a row come from left to right and do not touch.
pub proof fn law_runs_come_from_left_to_right(
    cells: Seq<Seq<Cell>>,
    colors: Seq<Option<Rgb>>,
    row: int,
    j: int,
    k: int,
)
    requires
        0 <= j < k < flash::runs(cells, colors, row, 0).len(),
    ensures
        flash::runs(cells, colors, row, 0)[j].end + 1 < flash::runs(cells, colors, row, 0)[k].start,
{
    lemma_runs_in_order(cells, colors, row, 0, j, k);
}

/// The runs of a screen are those of its rows, one row after the other. Without highlights there
/// are none.
pub proof fn law_runs_of_a_screen(
    cells: Seq<Seq<Cell>>,
    colors: Seq<Seq<Option<Rgb>>>,
    row: Seq<Option<Rgb>>,
)
    ensures
        flash::scene_runs(cells, None).len() == 0,
        flash::scene_runs(cells, Some(Seq::empty())).len() == 0,
        flash::scene_runs(cells, Some(colors.push(row))) == flash::scene_runs(cells, Some(colors))
            + flash::runs(cells, row, colors.len() as int, 0),
{
    lemma_rows_before(cells, colors, colors.push(row), colors.len() as int);
}

proof fn lemma_rows_before(
    cells: Seq<Seq<Cell>>,
    a: Seq<Seq<Option<Rgb>>>,
    b: Seq<Seq<Option<Rgb>>>,
    n: int,
)
    requires
        0 <= n <= a.len(),
        n <= b.len(),
        forall|i: int| 0 <= i < n ==> a[i] == b[i],
    ensures
        flash::all_runs(cells, a, n) == flash::all_runs(cells, b, n),
    decreases n,
{
    if n > 0 {
        lemma_rows_before(cells, a, b, n - 1);
    }
}

/// A marker takes the column next to an edge, on the side that is asked for, where the screen has
/// a cell there that is not the second half of a wide character.
pub proof fn law_places_for_markers(cells: Seq<Seq<Cell>>, row: int, edge: int)
    requires
        0 <= row < cells.len(),
    ensures
        ({
            let left = flash::slot(cells, row, edge, true);
            let right = flash::slot(cells, row, edge, false);
            let width = cells[row].len();
            &&& 1 <= edge <= width && !cells[row][edge - 1].wide_continuation ==> left == Some(
                edge - 1,
            )
            &&& 1 <= edge <= width && cells[row][edge - 1].wide_continuation ==> left is None
            &&& edge < 1 || edge > width ==> left is None
            &&& -1 <= edge < width - 1 && !cells[row][edge + 1].wide_continuation ==> right == Some(
                edge + 1,
            )
            &&& -1 <= edge < width - 1 && cells[row][edge + 1].wide_continuation ==> right is None
            &&& edge < -1 || edge >= width - 1 ==> right is None
        }),
{
}

/// A flash is bold and in its own two colours, and keeps everything else of a cell. A marker shows
/// a star, and the columns of the run their texts.
pub proof fn law_flashed_cells(row: Seq<Cell>, run: Run, bg: Rgb, fg: Rgb, c: int)
    requires
        0 <= c < row.len(),
        !row[c].inverse,
    ensures
        ({
            let shown = flash::flash_glyph(row, run, bg, fg, c);
            &&& shown.style.fg == DisplayColor::Rgb(fg)
            &&& shown.style.bg == DisplayColor::Rgb(bg)
            &&& shown.style.bold
            &&& shown.style.dim == row[c].dim
            &&& shown.style.italic == row[c].italic
            &&& shown.style.underline == row[c].underline
            &&& run.left_marker == Some(c) ==> shown.text == seq!['\u{2726}']
            &&& run.right_marker == Some(c) ==> shown.text == seq!['\u{2726}']
            &&& run.left_marker != Some(c) && run.right_marker != Some(c) ==> shown.text
                == row[c].text
        }),
{
}

/// The flash of a run starts at its left marker or its first column and ends with its right marker
/// or its last column. The cursor is moved there first, and the look is reset in the end.
pub proof fn law_flash_of_a_run(cells: Seq<Seq<Cell>>, run: Run, bg: Rgb, fg: Rgb)
    requires
        0 <= run.row < cells.len(),
        0 <= run.start <= run.end < cells[run.row].len(),
        run.left_marker is Some ==> run.left_marker == Some(run.start - 1) && run.start > 0,
        run.right_marker is Some ==> run.right_marker == Some(run.end + 1) && run.end + 1
            < cells[run.row].len(),
    ensures
        ({
            let from = if run.left_marker is Some {
                run.start - 1
            } else {
                run.start
            };
            let to = if run.right_marker is Some {
                run.end + 2
            } else {
                run.end + 1
            };
            let row = cells[run.row];
            let ops = flash::flash_ops(cells, run, bg, fg);
            let glyphs = draw::row_glyphs(
                row,
                |c: int| flash::flash_glyph(row, run, bg, fg, c),
                from,
                to,
            );
            &&& ops.len() == 2
            &&& ops[0] == Op::MoveTo((from as usize) as u16, (run.row as usize) as u16)
            &&& ops[1] == Op::Text(draw::painted(glyphs) + seq!['\x1b', '[', '0', 'm'])
        }),
{
    reveal_strlit("\x1b[0m");
    assert("\x1b[0m"@ =~= seq!['\x1b', '[', '0', 'm']);
}

/// A row that is restored is drawn as it is, from its first column.
pub proof fn law_restored_rows(
    cells: Seq<Seq<Cell>>,
    colors: Option<Seq<Seq<Option<Rgb>>>>,
    row: int,
)
    ensures
        row < 0 || row >= cells.len() ==> flash::row_ops(cells, colors, row).len() == 0,
        0 <= row < cells.len() ==> flash::row_ops(cells, colors, row) == seq![
            Op::MoveTo(0, (row as usize) as u16),
            Op::Text(draw::stable_row(cells[row], row, colors)),
        ],
{
}

proof fn lemma_flashes_before(
    cells: Seq<Seq<Cell>>,
    a: Seq<Run>,
    b: Seq<Run>,
    bg: Rgb,
    fg: Rgb,
    n: int,
)
    requires
        0 <= n <= a.len(),
        n <= b.len(),
        forall|i: int| 0 <= i < n ==> a[i] == b[i],
    ensures
        flash::all_flash_ops(cells, a, bg, fg, n) == flash::all_flash_ops(cells, b, bg, fg, n),
    decreases n,
{
    if n > 0 {
        lemma_flashes_before(cells, a, b, bg, fg, n - 1);
    }
}

/// All runs flash one after the other. Then it is shown, and stays for eighty milliseconds.
pub proof fn law_phases_of_a_flash(
    cells: Seq<Seq<Cell>>,
    list: Seq<Run>,
    run: Run,
    bg: Rgb,
    fg: Rgb,
)
    ensures
        flash::phase_ops(cells, Seq::empty(), bg, fg) == seq![Op::Flush, Op::Wait(80)],
        flash::phase_ops(cells, list.push(run), bg, fg) == flash::all_flash_ops(
            cells,
            list,
            bg,
            fg,
            list.len() as int,
        ) + flash::flash_ops(cells, run, bg, fg) + seq![Op::Flush, Op::Wait(80)],
        flash::all_flash_ops(cells, list.push(run), bg, fg, list.len() as int + 1)
            == flash::all_flash_ops(cells, list, bg, fg, list.len() as int) + flash::flash_ops(
            cells,
            run,
            bg,
            fg,
        ),
{
    assert(flash::phase_ops(cells, Seq::empty(), bg, fg) =~= seq![Op::Flush, Op::Wait(80)]);
    lemma_flashes_before(cells, list, list.push(run), bg, fg, list.len() as int);
}

proof fn lemma_restored_before(
    cells: Seq<Seq<Cell>>,
    colors: Option<Seq<Seq<Option<Rgb>>>>,
    a: Seq<Run>,
    b: Seq<Run>,
    n: int,
)
    requires
        0 <= n <= a.len(),
        n <= b.len(),
        forall|i: int| 0 <= i < n ==> a[i] == b[i],
    ensures
        flash::restored_ops(cells, colors, a, n) == flash::restored_ops(cells, colors, b, n),
    decreases n,
{
    if n > 0 {
        lemma_restored_before(cells, colors, a, b, n - 1);
    }
}

/// The rows of runs are restored in order, and a row with several runs only once.
pub proof fn law_rows_are_restored(
    cells: Seq<Seq<Cell>>,
    colors: Option<Seq<Seq<Option<Rgb>>>>,
    list: Seq<Run>,
    run: Run,
)
    ensures
        ({
            let n = list.len() as int;
            let before = flash::restored_ops(cells, colors, list, n);
            let after = flash::restored_ops(cells, colors, list.push(run), n + 1);
            &&& flash::restored_ops(cells, colors, Seq::empty(), 0).len() == 0
            &&& n > 0 && list.last().row == run.row ==> after == before
            &&& n == 0 || list.last().row != run.row ==> after == before + flash::row_ops(
                cells,
                colors,
                run.row,
            )
        }),
{
    lemma_restored_before(cells, colors, list, list.push(run), list.len() as int);
}

/// Highlights flash twice, first yellow and then pink. Then their rows are restored and the cursor
/// is put back. Without highlights nothing is done.
pub proof fn law_flashes(
    cells: Seq<Seq<Cell>>,
    state: TerminalState,
    colors: Option<Seq<Seq<Option<Rgb>>>>,
)
    ensures
        ({
            let list = flash::scene_runs(cells, colors);
            let all = flash::flash_all_ops(cells, state, colors);
            &&& list.len() == 0 ==> all.len() == 0
            &&& list.len() > 0 ==> all == flash::phase_ops(
                cells,
                list,
                Rgb(255, 240, 120),
                Rgb(20, 12, 0),
            ) + flash::phase_ops(cells, list, Rgb(255, 120, 220), Rgb(35, 0, 30))
                + flash::restored_ops(cells, colors, list, list.len() as int) + seq![
                Op::MoveTo(state.cursor_col, state.cursor_row),
                if state.cursor_visible {
                    Op::ShowCursor
                } else {
                    Op::HideCursor
                },
                Op::Flush,
            ]
        }),
{
}

} // verus!
