//! What is told of the changes from one screen to the next.
use crate::changes;
use crate::changes::ScrollHint;
use crate::screen::Cell;
use vstd::prelude::*;

verus! {

/// A place is marked as changed just where it has another cell than before, or a cell on one of
/// the screens only. Without an earlier screen every place is marked.
pub proof fn law_changed_places(
    prev: Seq<Seq<Cell>>,
    current: Seq<Seq<Cell>>,
    rows: nat,
    cols: nat,
    row: int,
    col: int,
)
    requires
        0 <= row < rows,
        0 <= col < cols,
    ensures
        ({
            let marks = changes::changed_places(Some(prev), current, rows as int, cols as int);
            let first = changes::changed_places(None, current, rows as int, cols as int);
            let stood = row < prev.len() && col < prev[row].len();
            let stands = row < current.len() && col < current[row].len();
            &&& marks.len() == rows && marks[row].len() == cols
            &&& stood && stands ==> marks[row][col] == (prev[row][col] != current[row][col])
            &&& stood != stands ==> marks[row][col]
            &&& !stood && !stands ==> !marks[row][col]
            &&& first.len() == rows && first[row].len() == cols && first[row][col]
        }),
{
}

/// A row has a change just where one of its places is marked.
pub proof fn law_marked_rows(marks: Seq<Seq<bool>>, row: int, col: int)
    ensures
        0 <= row < marks.len() && 0 <= col < marks[row].len() && marks[row][col] ==> changes::marked(
            marks,
            row,
        ),
        changes::marked(marks, row) ==> 0 <= row < marks.len() && exists|c: int|
            0 <= c < marks[row].len() && #[trigger] marks[row][c],
{
}

proof fn lemma_first_up(
    prev: Seq<Seq<Cell>>,
    current: Seq<Seq<Cell>>,
    rows: int,
    cols: int,
    offset: int,
)
    ensures
        match changes::first_up(prev, current, rows, cols, offset) {
            Some(k) => offset <= k < rows && changes::moved_up(prev, current, rows, cols, k)
                && forall|j: int|
                offset <= j < k ==> !#[trigger] changes::moved_up(prev, current, rows, cols, j),
            None => forall|j: int|
                offset <= j < rows ==> !#[trigger] changes::moved_up(prev, current, rows, cols, j),
        },
    decreases rows - offset,
{
    if offset < rows && !changes::moved_up(prev, current, rows, cols, offset) {
        lemma_first_up(prev, current, rows, cols, offset + 1);
    }
}

proof fn lemma_first_down(
    prev: Seq<Seq<Cell>>,
    current: Seq<Seq<Cell>>,
    rows: int,
    cols: int,
    offset: int,
)
    ensures
        match changes::first_down(prev, current, rows, cols, offset) {
            Some(k) => offset <= k < rows && changes::moved_down(prev, current, rows, cols, k)
                && forall|j: int|
                offset <= j < k ==> !#[trigger] changes::moved_down(prev, current, rows, cols, j),
            None => forall|j: int|
                offset <= j < rows ==> !#[trigger] changes::moved_down(
                    prev,
                    current,
                    rows,
                    cols,
                    j,
                ),
        },
    decreases rows - offset,
{
    if offset < rows && !changes::moved_down(prev, current, rows, cols, offset) {
        lemma_first_down(prev, current, rows, cols, offset + 1);
    }
}

/// Contents have moved up by some lines where each row shows what stood that many rows lower
/// before, as far as the columns go.
pub proof fn law_moved_up(
    prev: Seq<Seq<Cell>>,
    current: Seq<Seq<Cell>>,
    rows: int,
    cols: int,
    lines: int,
)
    requires
        1 <= lines < rows,
        prev.len() == rows,
        current.len() == rows,
        forall|row: int| 0 <= row < rows ==> (#[trigger] prev[row]).len() == cols,
        forall|row: int| 0 <= row < rows ==> (#[trigger] current[row]).len() == cols,
    ensures
        changes::moved_up(prev, current, rows, cols, lines) <==> forall|row: int|
            0 <= row < rows - lines ==> #[trigger] current[row] == prev[row + lines],
        changes::moved_down(prev, current, rows, cols, lines) <==> forall|row: int|
            0 <= row < rows - lines ==> #[trigger] prev[row] == current[row + lines],
{
    if changes::moved_up(prev, current, rows, cols, lines) {
        assert forall|row: int| 0 <= row < rows - lines implies #[trigger] current[row] == prev[row
            + lines] by {
            assert(changes::row_came_from(prev, row + lines, current, row, cols));
        }
    }
    if forall|row: int| 0 <= row < rows - lines ==> #[trigger] current[row] == prev[row + lines] {
        assert forall|row: int| 0 <= row < rows - lines implies #[trigger] changes::row_came_from(
            prev,
            row + lines,
            current,
            row,
            cols,
        ) by {
            assert(current[row] == prev[row + lines]);
        }
    }
    if changes::moved_down(prev, current, rows, cols, lines) {
        assert forall|row: int| 0 <= row < rows - lines implies #[trigger] prev[row] == current[row
            + lines] by {
            assert(changes::row_came_from(prev, (row + lines) - lines, current, row + lines, cols));
        }
    }
    if forall|row: int| 0 <= row < rows - lines ==> #[trigger] prev[row] == current[row + lines] {
        assert forall|row: int| lines <= row < rows implies #[trigger] changes::row_came_from(
            prev,
            row - lines,
            current,
            row,
            cols,
        ) by {
            assert(prev[row - lines] == current[(row - lines) + lines]);
        }
    }
}

/// Scrolling is told of just where contents have moved: up by as few lines as they can have moved
/// up, else down by as few as they can have moved down.
pub proof fn law_scrolling(
    prev: Seq<Seq<Cell>>,
    current: Seq<Seq<Cell>>,
    rows: int,
    cols: int,
    lines: u16,
)
    requires
        2 <= rows <= 65536,
        cols >= 1,
    ensures
        ({
            let hint = changes::scroll_of(Some(prev), current, rows, cols);
            &&& hint == Some(ScrollHint::Up(lines)) <==> 1 <= lines < rows && changes::moved_up(
                prev,
                current,
                rows,
                cols,
                lines as int,
            ) && forall|j: int|
                1 <= j < lines ==> !#[trigger] changes::moved_up(prev, current, rows, cols, j)
            &&& hint == Some(ScrollHint::Down(lines)) <==> 1 <= lines < rows && changes::moved_down(
                prev,
                current,
                rows,
                cols,
                lines as int,
            ) && (forall|j: int|
                1 <= j < lines ==> !#[trigger] changes::moved_down(prev, current, rows, cols, j))
                && forall|j: int|
                1 <= j < rows ==> !#[trigger] changes::moved_up(prev, current, rows, cols, j)
            &&& hint is None <==> forall|j: int|
                #![trigger changes::moved_up(prev, current, rows, cols, j)]
                #![trigger changes::moved_down(prev, current, rows, cols, j)]
                1 <= j < rows ==> !changes::moved_up(prev, current, rows, cols, j)
                    && !changes::moved_down(prev, current, rows, cols, j)
        }),
{
    lemma_first_up(prev, current, rows, cols, 1);
    lemma_first_down(prev, current, rows, cols, 1);
}

/// Without an earlier screen, or on a screen without two rows and a column, nothing scrolls.
pub proof fn law_nothing_to_scroll(
    prev: Option<Seq<Seq<Cell>>>,
    current: Seq<Seq<Cell>>,
    rows: int,
    cols: int,
)
    ensures
        prev is None ==> changes::scroll_of(prev, current, rows, cols) is None,
        rows < 2 ==> changes::scroll_of(prev, current, rows, cols) is None,
        cols < 1 ==> changes::scroll_of(prev, current, rows, cols) is None,
{
}

/// Scrolling up leaves the marks of the rows that come in at the bottom, scrolling down those of
/// the rows that come in at the top, and no other marks on the screen. Without scrolling all
/// marks stay, and so do those beside the screen.
pub proof fn law_marks_after_scrolling(
    marks: Seq<Seq<bool>>,
    lines: u16,
    rows: int,
    cols: int,
    row: int,
    col: int,
)
    requires
        0 <= row < marks.len(),
        0 <= col < marks[row].len(),
    ensures
        ({
            let on_screen = row < rows && col < cols;
            let up = changes::without_scrolled(marks, Some(ScrollHint::Up(lines)), rows, cols);
            let down = changes::without_scrolled(marks, Some(ScrollHint::Down(lines)), rows, cols);
            &&& changes::without_scrolled(marks, None, rows, cols)[row][col] == marks[row][col]
            &&& !on_screen ==> up[row][col] == marks[row][col]
            &&& !on_screen ==> down[row][col] == marks[row][col]
            &&& row + lines >= rows ==> up[row][col] == marks[row][col]
            &&& on_screen && row + lines < rows ==> !up[row][col]
            &&& row < lines ==> down[row][col] == marks[row][col]
            &&& on_screen && row >= lines ==> !down[row][col]
        }),
{
}

/// A mask of a screen has a mark, or none, at each of its cells.
pub proof fn law_whole_masks(cells: Seq<Seq<Cell>>, row: int, col: int)
    requires
        0 <= row < cells.len(),
        0 <= col < cells[row].len(),
    ensures
        changes::uniform(cells, true).len() == cells.len(),
        changes::uniform(cells, true)[row].len() == cells[row].len(),
        changes::uniform(cells, true)[row][col],
        changes::uniform(cells, false).len() == cells.len(),
        changes::uniform(cells, false)[row].len() == cells[row].len(),
        !changes::uniform(cells, false)[row][col],
{
}

} // verus!
