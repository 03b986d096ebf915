//! What changes from one screen to the next.
use crate::screen;
use crate::screen::{Cell, StyledCell};
use crate::text::same;
use vstd::prelude::*;

verus! {

/// The rows of a mask.
pub open spec fn mask(rows: Seq<Vec<bool>>) -> Seq<Seq<bool>> {
    rows.map_values(|row: Vec<bool>| row@)
}

/// How far the contents of a screen have moved.
#[derive(Debug, Clone, Copy, PartialEq, Eq, Structural)]
pub enum ScrollHint {
    Up(u16),
    Down(u16),
}

/// Whether two cells show the same.
pub fn same_cell(a: &StyledCell, b: &StyledCell) -> (r: bool)
    ensures
        r == (a@ == b@),
{
    let texts: bool = same(a.text.as_str(), b.text.as_str());
    texts && a.fg == b.fg && a.bg == b.bg && a.bold == b.bold && a.dim == b.dim && a.italic
        == b.italic && a.underline == b.underline && a.inverse == b.inverse && a.wide_continuation
        == b.wide_continuation
}

/// The cell at a place of a screen, if there is one.
pub open spec fn cell_at(cells: Seq<Seq<Cell>>, row: int, col: int) -> Option<Cell> {
    if 0 <= row < cells.len() && 0 <= col < cells[row].len() {
        Some(cells[row][col])
    } else {
        None
    }
}

fn get_cell(cells: &[Vec<StyledCell>], row: usize, col: usize) -> (r: Option<&StyledCell>)
    ensures
        match cell_at(screen::grid(cells@), row as int, col as int) {
            Some(cell) => r is Some && r->0@ == cell,
            None => r is None,
        },
{
    if row < cells.len() && col < cells[row].len() {
        assert(screen::grid(cells@)[row as int][col as int] == cells@[row as int]@[col as int]@);
        Some(&cells[row][col])
    } else {
        None
    }
}

/// Whether a place shows something else than before. Without an earlier screen all is new.
pub open spec fn differs(
    prev: Option<Seq<Seq<Cell>>>,
    current: Seq<Seq<Cell>>,
    row: int,
    col: int,
) -> bool {
    prev is None || cell_at(prev->0, row, col) != cell_at(current, row, col)
}

/// The places that show something else than before.
pub open spec fn changed_places(
    prev: Option<Seq<Seq<Cell>>>,
    current: Seq<Seq<Cell>>,
    rows: int,
    cols: int,
) -> Seq<Seq<bool>> {
    Seq::new(
        rows as nat,
        |row: int| Seq::new(cols as nat, |col: int| differs(prev, current, row, col)),
    )
}

/// What an earlier screen that may be missing shows.
pub open spec fn optional_grid(cells: Option<&Vec<Vec<StyledCell>>>) -> Option<Seq<Seq<Cell>>> {
    match cells {
        Some(inner) => Some(screen::grid(inner@)),
        None => None,
    }
}

/// The places that show something else than before.
pub fn diff_screen(
    prev: Option<&Vec<Vec<StyledCell>>>,
    current: &[Vec<StyledCell>],
    rows: usize,
    cols: usize,
) -> (r: Vec<Vec<bool>>)
    ensures
        mask(r@) == changed_places(
            optional_grid(prev),
            screen::grid(current@),
            rows as int,
            cols as int,
        ),
{
    let ghost goal = changed_places(
        optional_grid(prev),
        screen::grid(current@),
        rows as int,
        cols as int,
    );
    let mut r: Vec<Vec<bool>> = Vec::new();
    assert(mask(r@) =~= goal.take(0));
    let mut row: usize = 0;
    while row < rows
        invariant
            row <= rows,
            goal == changed_places(
                optional_grid(prev),
                screen::grid(current@),
                rows as int,
                cols as int,
            ),
            mask(r@) == goal.take(row as int),
        decreases rows - row,
    {
        let mut line: Vec<bool> = Vec::new();
        let mut col: usize = 0;
        while col < cols
            invariant
                row < rows,
                col <= cols,
                goal == changed_places(
                    optional_grid(prev),
                    screen::grid(current@),
                    rows as int,
                    cols as int,
                ),
                line@ == goal[row as int].take(col as int),
            decreases cols - col,
        {
            let changed: bool = match prev {
                None => true,
                Some(before) => match (
                    get_cell(before.as_slice(), row, col),
                    get_cell(current, row, col),
                ) {
                    (Some(a), Some(b)) => !same_cell(a, b),
                    (None, None) => false,
                    _ => true,
                },
            };
            line.push(changed);
            col = col + 1;
            assert(line@ =~= goal[row as int].take(col as int));
        }
        assert(goal[row as int].take(cols as int) =~= goal[row as int]);
        let ghost earlier = r@;
        r.push(line);
        assert(mask(r@) =~= mask(earlier).push(line@));
        row = row + 1;
        assert(mask(r@) =~= goal.take(row as int));
    }
    assert(goal.take(rows as int) =~= goal);
    r
}

/// A screen that shows the same as before has no changed place.
pub proof fn law_same_screen_no_change(cells: Seq<Seq<Cell>>, rows: int, cols: int, row: int, col: int)
    requires
        0 <= row < rows,
        0 <= col < cols,
    ensures
        !changed_places(Some(cells), cells, rows, cols)[row][col],
{
}

/// A place that is not marked as changed shows what it showed before.
pub proof fn law_unmarked_places_are_kept(
    prev: Seq<Seq<Cell>>,
    current: Seq<Seq<Cell>>,
    rows: int,
    cols: int,
    row: int,
    col: int,
)
    requires
        0 <= row < rows,
        0 <= col < cols,
        !changed_places(Some(prev), current, rows, cols)[row][col],
    ensures
        cell_at(prev, row, col) == cell_at(current, row, col),
{
}

/// Whether a row of a mask has a mark.
pub open spec fn marked(rows: Seq<Seq<bool>>, row: int) -> bool {
    0 <= row < rows.len() && exists|col: int| 0 <= col < rows[row].len() && #[trigger] rows[row][col]
}

/// Whether a row of a mask has a mark.
pub fn row_has_changes(changed: &[Vec<bool>], row: usize) -> (r: bool)
    ensures
        r == marked(mask(changed@), row as int),
{
    if row >= changed.len() {
        return false;
    }
    let ghost all = mask(changed@);
    assert(all[row as int] == changed@[row as int]@);
    let mut col: usize = 0;
    while col < changed[row].len()
        invariant
            row < changed@.len(),
            all == mask(changed@),
            all[row as int] == changed@[row as int]@,
            col <= changed@[row as int]@.len(),
            forall|c: int| 0 <= c < col ==> !(#[trigger] all[row as int][c]),
        decreases changed@[row as int]@.len() - col,
    {
        if changed[row][col] {
            assert(all[row as int][col as int]);
            return true;
        }
        col = col + 1;
    }
    false
}

/// The first `cols` cells of a row.
pub open spec fn front(row: Seq<Cell>, cols: int) -> Seq<Cell> {
    if cols < row.len() {
        row.take(cols)
    } else {
        row
    }
}

/// Whether the first `cols` cells of two rows show the same.
pub fn rows_equal(a: &[StyledCell], b: &[StyledCell], cols: usize) -> (r: bool)
    ensures
        r == (front(screen::row_view(a@), cols as int) == front(
            screen::row_view(b@),
            cols as int,
        )),
{
    let ghost x = front(screen::row_view(a@), cols as int);
    let ghost y = front(screen::row_view(b@), cols as int);
    let n: usize = if cols < a.len() {
        cols
    } else {
        a.len()
    };
    let m: usize = if cols < b.len() {
        cols
    } else {
        b.len()
    };
    if n != m {
        assert(x.len() != y.len());
        return false;
    }
    let mut i: usize = 0;
    while i < n
        invariant
            i <= n,
            n == x.len(),
            n == y.len(),
            n <= a@.len(),
            n <= b@.len(),
            x == front(screen::row_view(a@), cols as int),
            y == front(screen::row_view(b@), cols as int),
            forall|k: int| 0 <= k < i ==> x[k] == y[k],
        decreases n - i,
    {
        assert(x[i as int] == a@[i as int]@);
        assert(y[i as int] == b@[i as int]@);
        if !same_cell(&a[i], &b[i]) {
            return false;
        }
        i = i + 1;
    }
    assert(x =~= y);
    true
}

/// Whether a row of the screen shows what another row of the earlier screen showed.
pub open spec fn row_came_from(
    prev: Seq<Seq<Cell>>,
    from: int,
    current: Seq<Seq<Cell>>,
    row: int,
    cols: int,
) -> bool {
    &&& 0 <= from < prev.len()
    &&& 0 <= row < current.len()
    &&& front(prev[from], cols) == front(current[row], cols)
}

/// Whether the contents have moved up by `offset` rows.
pub open spec fn moved_up(
    prev: Seq<Seq<Cell>>,
    current: Seq<Seq<Cell>>,
    rows: int,
    cols: int,
    offset: int,
) -> bool {
    forall|row: int|
        0 <= row < rows - offset ==> #[trigger] row_came_from(
            prev,
            row + offset,
            current,
            row,
            cols,
        )
}

/// Whether the contents have moved down by `offset` rows.
pub open spec fn moved_down(
    prev: Seq<Seq<Cell>>,
    current: Seq<Seq<Cell>>,
    rows: int,
    cols: int,
    offset: int,
) -> bool {
    forall|row: int|
        offset <= row < rows ==> #[trigger] row_came_from(
            prev,
            row - offset,
            current,
            row,
            cols,
        )
}

/// The smallest offset from `offset` on by which the contents have moved up.
pub open spec fn first_up(
    prev: Seq<Seq<Cell>>,
    current: Seq<Seq<Cell>>,
    rows: int,
    cols: int,
    offset: int,
) -> Option<int>
    decreases rows - offset,
{
    if offset >= rows {
        None
    } else if moved_up(prev, current, rows, cols, offset) {
        Some(offset)
    } else {
        first_up(prev, current, rows, cols, offset + 1)
    }
}

/// The smallest offset from `offset` on by which the contents have moved down.
pub open spec fn first_down(
    prev: Seq<Seq<Cell>>,
    current: Seq<Seq<Cell>>,
    rows: int,
    cols: int,
    offset: int,
) -> Option<int>
    decreases rows - offset,
{
    if offset >= rows {
        None
    } else if moved_down(prev, current, rows, cols, offset) {
        Some(offset)
    } else {
        first_down(prev, current, rows, cols, offset + 1)
    }
}

/// How far the contents have moved: up, else down, by as little as possible.
pub open spec fn scroll_of(
    prev: Option<Seq<Seq<Cell>>>,
    current: Seq<Seq<Cell>>,
    rows: int,
    cols: int,
) -> Option<ScrollHint> {
    if prev is None || rows < 2 || cols <= 0 {
        None
    } else if first_up(prev->0, current, rows, cols, 1) is Some {
        Some(ScrollHint::Up((first_up(prev->0, current, rows, cols, 1)->0 as usize) as u16))
    } else if first_down(prev->0, current, rows, cols, 1) is Some {
        Some(ScrollHint::Down((first_down(prev->0, current, rows, cols, 1)->0 as usize) as u16))
    } else {
        None
    }
}

fn came_from(
    prev: &Vec<Vec<StyledCell>>,
    from: usize,
    current: &[Vec<StyledCell>],
    row: usize,
    cols: usize,
) -> (r: bool)
    ensures
        r == row_came_from(
            screen::grid(prev@),
            from as int,
            screen::grid(current@),
            row as int,
            cols as int,
        ),
{
    if from >= prev.len() || row >= current.len() {
        return false;
    }
    assert(screen::grid(prev@)[from as int] == screen::row_view(prev@[from as int]@));
    assert(screen::grid(current@)[row as int] == screen::row_view(current@[row as int]@));
    rows_equal(prev[from].as_slice(), current[row].as_slice(), cols)
}

fn has_moved_up(
    prev: &Vec<Vec<StyledCell>>,
    current: &[Vec<StyledCell>],
    rows: usize,
    cols: usize,
    offset: usize,
) -> (r: bool)
    requires
        1 <= offset < rows,
    ensures
        r == moved_up(
            screen::grid(prev@),
            screen::grid(current@),
            rows as int,
            cols as int,
            offset as int,
        ),
{
    let mut row: usize = 0;
    while row < rows - offset
        invariant
            1 <= offset < rows,
            row <= rows - offset,
            forall|k: int|
                0 <= k < row ==> #[trigger] row_came_from(
                    screen::grid(prev@),
                    k + offset,
                    screen::grid(current@),
                    k,
                    cols as int,
                ),
        decreases rows - offset - row,
    {
        if !came_from(prev, row + offset, current, row, cols) {
            assert(!row_came_from(
                screen::grid(prev@),
                row + offset,
                screen::grid(current@),
                row as int,
                cols as int,
            ));
            return false;
        }
        row = row + 1;
    }
    true
}

fn has_moved_down(
    prev: &Vec<Vec<StyledCell>>,
    current: &[Vec<StyledCell>],
    rows: usize,
    cols: usize,
    offset: usize,
) -> (r: bool)
    requires
        1 <= offset < rows,
    ensures
        r == moved_down(
            screen::grid(prev@),
            screen::grid(current@),
            rows as int,
            cols as int,
            offset as int,
        ),
{
    let mut row: usize = offset;
    while row < rows
        invariant
            1 <= offset < rows,
            offset <= row <= rows,
            forall|k: int|
                offset <= k < row ==> #[trigger] row_came_from(
                    screen::grid(prev@),
                    k - offset,
                    screen::grid(current@),
                    k,
                    cols as int,
                ),
        decreases rows - row,
    {
        if !came_from(prev, row - offset, current, row, cols) {
            assert(!row_came_from(
                screen::grid(prev@),
                row - offset,
                screen::grid(current@),
                row as int,
                cols as int,
            ));
            return false;
        }
        row = row + 1;
    }
    true
}

/// How far the contents have moved, if they have.
pub fn detect_scroll_hint(
    prev: Option<&Vec<Vec<StyledCell>>>,
    current: &[Vec<StyledCell>],
    rows: usize,
    cols: usize,
) -> (r: Option<ScrollHint>)
    ensures
        r == scroll_of(
            optional_grid(prev),
            screen::grid(current@),
            rows as int,
            cols as int,
        ),
{
    let before: &Vec<Vec<StyledCell>> = match prev {
        Some(before) => before,
        None => {
            return None;
        },
    };
    if rows < 2 || cols == 0 {
        return None;
    }
    let ghost old_grid = screen::grid(before@);
    let ghost new_grid = screen::grid(current@);
    let mut offset: usize = 1;
    while offset < rows
        invariant
            1 <= offset <= rows,
            2 <= rows,
            0 < cols,
            optional_grid(prev) == Some(old_grid),
            old_grid == screen::grid(before@),
            new_grid == screen::grid(current@),
            first_up(old_grid, new_grid, rows as int, cols as int, 1) == first_up(
                old_grid,
                new_grid,
                rows as int,
                cols as int,
                offset as int,
            ),
        decreases rows - offset,
    {
        if has_moved_up(before, current, rows, cols, offset) {
            return Some(ScrollHint::Up(offset as u16));
        }
        offset = offset + 1;
    }
    offset = 1;
    while offset < rows
        invariant
            1 <= offset <= rows,
            2 <= rows,
            0 < cols,
            optional_grid(prev) == Some(old_grid),
            old_grid == screen::grid(before@),
            new_grid == screen::grid(current@),
            first_up(old_grid, new_grid, rows as int, cols as int, 1) is None,
            first_down(old_grid, new_grid, rows as int, cols as int, 1) == first_down(
                old_grid,
                new_grid,
                rows as int,
                cols as int,
                offset as int,
            ),
        decreases rows - offset,
    {
        if has_moved_down(before, current, rows, cols, offset) {
            return Some(ScrollHint::Down(offset as u16));
        }
        offset = offset + 1;
    }
    None
}

/// A hint to scroll up is right: each row that stays shows what stood that much lower before.
pub proof fn law_scroll_up_is_right(
    prev: Seq<Seq<Cell>>,
    current: Seq<Seq<Cell>>,
    rows: int,
    cols: int,
    lines: u16,
)
    requires
        scroll_of(Some(prev), current, rows, cols) == Some(ScrollHint::Up(lines)),
        rows <= 65536,
    ensures
        1 <= lines < rows,
        moved_up(prev, current, rows, cols, lines as int),
{
    lemma_first_up(prev, current, rows, cols, 1);
}

proof fn lemma_first_up(
    prev: Seq<Seq<Cell>>,
    current: Seq<Seq<Cell>>,
    rows: int,
    cols: int,
    offset: int,
)
    ensures
        match first_up(prev, current, rows, cols, offset) {
            Some(n) => offset <= n < rows && moved_up(prev, current, rows, cols, n),
            None => true,
        },
    decreases rows - offset,
{
    if offset < rows && !moved_up(prev, current, rows, cols, offset) {
        lemma_first_up(prev, current, rows, cols, offset + 1);
    }
}

/// A hint to scroll down is right: each row that stays shows what stood that much higher before.
pub proof fn law_scroll_down_is_right(
    prev: Seq<Seq<Cell>>,
    current: Seq<Seq<Cell>>,
    rows: int,
    cols: int,
    lines: u16,
)
    requires
        scroll_of(Some(prev), current, rows, cols) == Some(ScrollHint::Down(lines)),
        rows <= 65536,
    ensures
        1 <= lines < rows,
        moved_down(prev, current, rows, cols, lines as int),
{
    lemma_first_down(prev, current, rows, cols, 1);
}

proof fn lemma_first_down(
    prev: Seq<Seq<Cell>>,
    current: Seq<Seq<Cell>>,
    rows: int,
    cols: int,
    offset: int,
)
    ensures
        match first_down(prev, current, rows, cols, offset) {
            Some(n) => offset <= n < rows && moved_down(prev, current, rows, cols, n),
            None => true,
        },
    decreases rows - offset,
{
    if offset < rows && !moved_down(prev, current, rows, cols, offset) {
        lemma_first_down(prev, current, rows, cols, offset + 1);
    }
}

/// Whether scrolling brings a row to its place, so that it need not be drawn.
pub open spec fn scrolled_in(hint: Option<ScrollHint>, rows: int, row: int) -> bool {
    match hint {
        None => false,
        Some(ScrollHint::Up(lines)) => row < rows - lines,
        Some(ScrollHint::Down(lines)) => lines <= row < rows,
    }
}

/// A mask without the marks that scrolling makes needless.
pub open spec fn without_scrolled(
    changed: Seq<Seq<bool>>,
    hint: Option<ScrollHint>,
    rows: int,
    cols: int,
) -> Seq<Seq<bool>> {
    changed.map(
        |row: int, line: Seq<bool>|
            line.map(
                |col: int, mark: bool|
                    if scrolled_in(hint, rows, row) && col < cols {
                        false
                    } else {
                        mark
                    },
            ),
    )
}

/// Takes the marks out that scrolling makes needless.
pub fn apply_scroll_hint(
    changed: &mut Vec<Vec<bool>>,
    scroll_hint: Option<ScrollHint>,
    rows: usize,
    cols: usize,
)
    ensures
        mask(final(changed)@) == without_scrolled(
            mask(old(changed)@),
            scroll_hint,
            rows as int,
            cols as int,
        ),
{
    let ghost goal = without_scrolled(mask(changed@), scroll_hint, rows as int, cols as int);
    let mut row: usize = 0;
    while row < changed.len()
        invariant
            row <= changed@.len(),
            changed@.len() == old(changed)@.len(),
            goal == without_scrolled(
                mask(old(changed)@),
                scroll_hint,
                rows as int,
                cols as int,
            ),
            forall|k: int| 0 <= k < row ==> (#[trigger] changed@[k])@ == goal[k],
            forall|k: int| row <= k < changed@.len() ==> changed@[k] == old(changed)@[k],
        decreases changed@.len() - row,
    {
        let away: bool = match scroll_hint {
            None => false,
            Some(ScrollHint::Up(lines)) => (lines as usize) < rows && row < rows - lines as usize,
            Some(ScrollHint::Down(lines)) => lines as usize <= row && row < rows,
        };
        let mut line: Vec<bool> = Vec::new();
        let mut col: usize = 0;
        let ghost before = old(changed)@[row as int]@;
        assert(mask(old(changed)@)[row as int] == before);
        while col < changed[row].len()
            invariant
                row < changed@.len(),
                changed@.len() == old(changed)@.len(),
                changed@[row as int] == old(changed)@[row as int],
                before == old(changed)@[row as int]@,
                mask(old(changed)@)[row as int] == before,
                goal == without_scrolled(
                    mask(old(changed)@),
                    scroll_hint,
                    rows as int,
                    cols as int,
                ),
                away == scrolled_in(scroll_hint, rows as int, row as int),
                col <= before.len(),
                line@ == goal[row as int].take(col as int),
            decreases before.len() - col,
        {
            if away && col < cols {
                line.push(false);
            } else {
                line.push(changed[row][col]);
            }
            col = col + 1;
            assert(line@ =~= goal[row as int].take(col as int));
        }
        assert(goal[row as int].take(col as int) =~= goal[row as int]);
        changed.set(row, line);
        row = row + 1;
    }
    assert(mask(changed@) =~= goal);
}

/// After a hint to scroll up, only the rows that come in at the bottom are marked.
pub proof fn law_only_new_rows_below(
    changed: Seq<Seq<bool>>,
    lines: u16,
    rows: int,
    cols: int,
    row: int,
)
    requires
        0 <= row < changed.len(),
        changed[row].len() <= cols,
        row < rows - lines,
    ensures
        !marked(without_scrolled(changed, Some(ScrollHint::Up(lines)), rows, cols), row),
{
}

/// After a hint to scroll down, only the rows that come in at the top are marked.
pub proof fn law_only_new_rows_above(
    changed: Seq<Seq<bool>>,
    lines: u16,
    rows: int,
    cols: int,
    row: int,
)
    requires
        0 <= row < changed.len(),
        changed[row].len() <= cols,
        lines <= row < rows,
    ensures
        !marked(without_scrolled(changed, Some(ScrollHint::Down(lines)), rows, cols), row),
{
}

/// A mask as large as a screen, with the same mark everywhere.
pub open spec fn uniform(cells: Seq<Seq<Cell>>, value: bool) -> Seq<Seq<bool>> {
    cells.map_values(|row: Seq<Cell>| Seq::new(row.len(), |col: int| value))
}

fn uniform_mask(cells: &[Vec<StyledCell>], value: bool) -> (r: Vec<Vec<bool>>)
    ensures
        mask(r@) == uniform(screen::grid(cells@), value),
{
    let ghost goal = uniform(screen::grid(cells@), value);
    let mut r: Vec<Vec<bool>> = Vec::new();
    let mut row: usize = 0;
    assert(mask(r@) =~= goal.take(0));
    while row < cells.len()
        invariant
            row <= cells@.len(),
            goal == uniform(screen::grid(cells@), value),
            mask(r@) == goal.take(row as int),
        decreases cells@.len() - row,
    {
        let len: usize = cells[row].len();
        let mut line: Vec<bool> = Vec::new();
        while line.len() < len
            invariant
                line@.len() <= len,
                forall|c: int| 0 <= c < line@.len() ==> line@[c] == value,
            decreases len - line@.len(),
        {
            line.push(value);
        }
        assert(screen::grid(cells@)[row as int].len() == len);
        assert(line@ =~= goal[row as int]);
        let ghost earlier = r@;
        r.push(line);
        assert(mask(r@) =~= mask(earlier).push(line@));
        row = row + 1;
        assert(mask(r@) =~= goal.take(row as int));
    }
    assert(goal.take(row as int) =~= goal);
    r
}

/// A mask that marks every cell of a screen.
pub fn full_screen_changed(cells: &[Vec<StyledCell>]) -> (r: Vec<Vec<bool>>)
    ensures
        mask(r@) == uniform(screen::grid(cells@), true),
{
    uniform_mask(cells, true)
}

/// A mask that marks no cell of a screen.
pub fn no_screen_changed(cells: &[Vec<StyledCell>]) -> (r: Vec<Vec<bool>>)
    ensures
        mask(r@) == uniform(screen::grid(cells@), false),
{
    uniform_mask(cells, false)
}

} // verus!
