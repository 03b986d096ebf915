//! What a screen shows, as cells, as text, as a picture and on the terminal.
use crate::draw;
use crate::draw::{DrawOp, Glyph, Op};
use crate::emulator;
use crate::emulator::{VtCellView, VtColor};
use crate::model::Rgb;
use crate::screen;
use crate::screen::{Cell, DisplayColor, StyledCell, TerminalState};
use crate::screen_text;
use crate::text;
use crate::theme;
use crate::theme::ThemeView;
use vstd::prelude::*;

verus! {

/// A cell shows what is written in it.
pub proof fn law_cells_show_what_they_hold(cell: StyledCell)
    ensures
        cell@.text == cell.text@,
        cell@.fg == cell.fg,
        cell@.bg == cell.bg,
        cell@.bold == cell.bold,
        cell@.dim == cell.dim,
        cell@.italic == cell.italic,
        cell@.underline == cell.underline,
        cell@.inverse == cell.inverse,
        cell@.wide_continuation == cell.wide_continuation,
{
}

/// A cell of the emulated terminal is shown with its text and its attributes, whatever the theme
/// is. A cell without a text shows a blank.
pub proof fn law_cells_keep_their_attributes(theme: Option<ThemeView>, cell: VtCellView)
    ensures
        ({
            let shown = screen::shown_cell(theme, Some(cell));
            &&& cell.text.len() > 0 ==> shown.text == cell.text
            &&& cell.text.len() == 0 ==> shown.text == seq![' ']
            &&& shown.bold == cell.bold
            &&& shown.dim == cell.dim
            &&& shown.italic == cell.italic
            &&& shown.underline == cell.underline
            &&& shown.inverse == cell.inverse
            &&& shown.wide_continuation == cell.wide_continuation
        }),
{
}

/// Without a theme, or with one that leaves colours alone, a cell is shown in its own colours.
pub proof fn law_cells_keep_their_colors(theme: Option<ThemeView>, cell: VtCellView, idx: u8, rgb: Rgb)
    requires
        theme is None || theme->0.transparent(),
    ensures
        ({
            let shown = screen::shown_cell(theme, Some(cell));
            &&& cell.fg == VtColor::Default ==> shown.fg == DisplayColor::Default
            &&& cell.bg == VtColor::Default ==> shown.bg == DisplayColor::Default
            &&& cell.fg == VtColor::Idx(idx) ==> shown.fg == DisplayColor::Indexed(idx)
            &&& cell.bg == VtColor::Idx(idx) ==> shown.bg == DisplayColor::Indexed(idx)
            &&& cell.fg == VtColor::Rgb(rgb.0, rgb.1, rgb.2) ==> shown.fg == DisplayColor::Rgb(rgb)
            &&& cell.bg == VtColor::Rgb(rgb.0, rgb.1, rgb.2) ==> shown.bg == DisplayColor::Rgb(rgb)
        }),
{
}

/// With any other theme the text of a cell is recoloured as text and its background as
/// background, and default colours become those of the theme.
pub proof fn law_cells_are_recolored(theme: ThemeView, cell: VtCellView, idx: u8, rgb: Rgb)
    requires
        !theme.transparent(),
    ensures
        ({
            let shown = screen::shown_cell(Some(theme), Some(cell));
            &&& cell.fg == VtColor::Default ==> shown.fg == DisplayColor::Rgb(theme.fg())
            &&& cell.bg == VtColor::Default ==> shown.bg == DisplayColor::Rgb(theme.bg())
            &&& cell.fg == VtColor::Idx(idx) ==> shown.fg == DisplayColor::Rgb(
                theme.recolored_index(idx, true),
            )
            &&& cell.bg == VtColor::Idx(idx) ==> shown.bg == DisplayColor::Rgb(
                theme.recolored_index(idx, false),
            )
            &&& cell.fg == VtColor::Rgb(rgb.0, rgb.1, rgb.2) ==> shown.fg == DisplayColor::Rgb(
                theme.recolored(rgb, true),
            )
            &&& cell.bg == VtColor::Rgb(rgb.0, rgb.1, rgb.2) ==> shown.bg == DisplayColor::Rgb(
                theme.recolored(rgb, false),
            )
        }),
{
}

/// A place without a cell shows a blank in the default colours and without attributes, as a cell
/// without a text would.
pub proof fn law_missing_cells(theme: Option<ThemeView>)
    ensures
        ({
            let shown = screen::shown_cell(theme, None);
            &&& shown.text == seq![' ']
            &&& shown.fg == screen::shown_color(theme, VtColor::Default, true)
            &&& shown.bg == screen::shown_color(theme, VtColor::Default, false)
            &&& !shown.bold && !shown.dim && !shown.italic && !shown.underline && !shown.inverse
            &&& !shown.wide_continuation
            &&& shown == screen::blank_cell(theme)
        }),
{
}

/// A screen has the rows and columns that are asked for, and shows at each place what the emulated
/// terminal has there.
pub proof fn law_screens_have_their_cells(
    size: (u16, u16),
    input: Seq<Seq<u8>>,
    rows: u16,
    cols: u16,
    theme: Option<ThemeView>,
    row: u16,
    col: u16,
)
    requires
        row < rows,
        col < cols,
    ensures
        ({
            let shown = screen::shown_screen(size, input, rows, cols, theme);
            &&& shown.len() == rows
            &&& shown[row as int].len() == cols
            &&& shown[row as int][col as int] == screen::shown_cell(
                theme,
                emulator::cell_after(size.0, size.1, input, row, col),
            )
        }),
{
}

/// The cursor is where the emulated terminal has it, or at the edge of the rows and columns that
/// are asked for where it would lie outside, and it shows unless it is hidden.
pub proof fn law_cursors(size: (u16, u16), input: Seq<Seq<u8>>, rows: u16, cols: u16)
    requires
        rows > 0,
        cols > 0,
    ensures
        ({
            let state = screen::state_after(size, input, rows, cols);
            let cursor = emulator::cursor_after(size.0, size.1, input);
            &&& cursor.0 < rows ==> state.cursor_row == cursor.0
            &&& cursor.0 >= rows ==> state.cursor_row == rows - 1
            &&& cursor.1 < cols ==> state.cursor_col == cursor.1
            &&& cursor.1 >= cols ==> state.cursor_col == cols - 1
            &&& state.cursor_visible == !emulator::hidden_after(size.0, size.1, input)
        }),
{
}

proof fn lemma_row_text_before(a: Seq<Cell>, b: Seq<Cell>, n: int)
    requires
        0 <= n <= a.len(),
        n <= b.len(),
        forall|i: int| 0 <= i < n ==> a[i] == b[i],
    ensures
        screen_text::row_text(a, n) == screen_text::row_text(b, n),
    decreases n,
{
    if n > 0 {
        lemma_row_text_before(a, b, n - 1);
    }
}

/// The text of a row is that of its cells, one after the other. The second half of a wide
/// character adds none.
pub proof fn law_text_of_a_row(row: Seq<Cell>, cell: Cell)
    ensures
        screen_text::row_text(Seq::empty(), 0).len() == 0,
        cell.wide_continuation ==> screen_text::row_text(row.push(cell), row.len() as int + 1)
            == screen_text::row_text(row, row.len() as int),
        !cell.wide_continuation ==> screen_text::row_text(row.push(cell), row.len() as int + 1)
            == screen_text::row_text(row, row.len() as int) + cell.text,
{
    lemma_row_text_before(row, row.push(cell), row.len() as int);
}

/// The line of a row is its text up to the last character that is not white space.
pub proof fn law_line_of_a_row(row: Seq<Cell>)
    ensures
        screen_text::line_of(row) == text::trimmed_end(
            screen_text::row_text(row, row.len() as int),
        ),
{
}

/// Laying a text over a row gives its cells the characters of the text in turn, and leaves alone
/// the second halves of wide characters and the cells for which the text is too short.
pub proof fn law_texts_are_laid_over(row: Seq<Cell>, text: Seq<char>, col: int)
    requires
        0 <= col < row.len(),
    ensures
        ({
            let laid = screen_text::laid_over(row, text);
            let before = screen_text::visible_before(row, col);
            let cell = row[col];
            &&& laid.len() == row.len()
            &&& cell.wide_continuation ==> laid[col] == cell
            &&& !cell.wide_continuation && before >= text.len() ==> laid[col] == cell
            &&& !cell.wide_continuation && before < text.len() ==> laid[col].text == seq![
                text[before],
            ]
            &&& laid[col].fg == cell.fg && laid[col].bg == cell.bg
            &&& laid[col].bold == cell.bold && laid[col].dim == cell.dim
            &&& laid[col].italic == cell.italic && laid[col].underline == cell.underline
            &&& laid[col].inverse == cell.inverse
            &&& laid[col].wide_continuation == cell.wide_continuation
        }),
{
}

/// No cell stands before the first column, and each cell but the second half of a wide character
/// counts as one for those after it.
pub proof fn law_cells_before_a_column(row: Seq<Cell>, col: int)
    requires
        0 <= col < row.len(),
    ensures
        screen_text::visible_before(row, 0) == 0,
        row[col].wide_continuation ==> screen_text::visible_before(row, col + 1)
            == screen_text::visible_before(row, col),
        !row[col].wide_continuation ==> screen_text::visible_before(row, col + 1)
            == screen_text::visible_before(row, col) + 1,
{
}

/// A place is highlighted in the colour that is given for it, and nowhere else.
pub proof fn law_highlighted_places(colors: Seq<Seq<Option<Rgb>>>, row: int, col: int)
    ensures
        screen_text::highlight_at(None, row, col) is None,
        0 <= row < colors.len() && 0 <= col < colors[row].len() ==> screen_text::highlight_at(
            Some(colors),
            row,
            col,
        ) == colors[row][col],
        row < 0 || row >= colors.len() ==> screen_text::highlight_at(Some(colors), row, col)
            is None,
        0 <= row < colors.len() && (col < 0 || col >= colors[row].len())
            ==> screen_text::highlight_at(Some(colors), row, col) is None,
{
}

/// A highlight is the background of a cell, and changes nothing else about it.
pub proof fn law_highlights_are_backgrounds(cell: Cell, rgb: Rgb)
    ensures
        draw::with_highlight(cell, None) == cell,
        ({
            let r = draw::with_highlight(cell, Some(rgb));
            &&& r.bg == DisplayColor::Rgb(rgb)
            &&& r.fg == cell.fg
            &&& r.text == cell.text
            &&& r.bold == cell.bold && r.dim == cell.dim
            &&& r.italic == cell.italic && r.underline == cell.underline
            &&& r.inverse == cell.inverse
            &&& r.wide_continuation == cell.wide_continuation
        }),
{
}

/// In a picture a default colour is light grey, and any other is written in six digits.
pub proof fn law_colors_of_a_picture(idx: u8, rgb: Rgb)
    ensures
        screen_text::picture_color(DisplayColor::Default) == seq!['#', 'd', '0', 'd', '0', 'd', '0'],
        theme::hex_color(screen_text::picture_color(DisplayColor::Rgb(rgb))) == Some(rgb),
        screen_text::picture_color(DisplayColor::Rgb(rgb)).len() == 7,
        screen_text::picture_color(DisplayColor::Indexed(idx)) == screen_text::picture_color(
            DisplayColor::Rgb(theme::basic_color(idx)),
        ),
{
    reveal_strlit("#d0d0d0");
    assert("#d0d0d0"@ =~= seq!['#', 'd', '0', 'd', '0', 'd', '0']);
    screen_text::law_written_colors_read_back(rgb);
}

/// In a picture the characters that would mark up text are written as references, and all others
/// as they are.
pub proof fn law_characters_of_a_picture(text: Seq<char>, ch: char)
    ensures
        screen_text::escaped(Seq::empty()).len() == 0,
        ch == '&' ==> screen_text::escaped(text.push(ch)) == screen_text::escaped(text) + seq![
            '&',
            'a',
            'm',
            'p',
            ';',
        ],
        ch == '<' ==> screen_text::escaped(text.push(ch)) == screen_text::escaped(text) + seq![
            '&',
            'l',
            't',
            ';',
        ],
        ch == '>' ==> screen_text::escaped(text.push(ch)) == screen_text::escaped(text) + seq![
            '&',
            'g',
            't',
            ';',
        ],
        ch != '&' && ch != '<' && ch != '>' ==> screen_text::escaped(text.push(ch))
            == screen_text::escaped(text).push(ch),
{
    reveal_strlit("&amp;");
    reveal_strlit("&lt;");
    reveal_strlit("&gt;");
    assert("&amp;"@ =~= seq!['&', 'a', 'm', 'p', ';']);
    assert("&lt;"@ =~= seq!['&', 'l', 't', ';']);
    assert("&gt;"@ =~= seq!['&', 'g', 't', ';']);
    assert(text.push(ch).drop_last() =~= text);
    assert(screen_text::escaped(text) + seq![ch] =~= screen_text::escaped(text).push(ch));
}

/// A cell of a picture is nine units wide and eighteen high. The size of the picture is that of
/// its cells.
pub proof fn law_size_of_a_picture(width: nat, height: nat)
    ensures
        screen_text::scaled(width as int, 9) == text::decimal(9 * width),
        screen_text::picture_start(width as int, height as int)
            == r#"<svg xmlns="http://www.w3.org/2000/svg" width=""#@ + text::decimal(9 * width)
            + r#"" height=""#@ + text::decimal(18 * height) + r#"" viewBox="0 0 "#@
            + text::decimal(9 * width) + " "@ + text::decimal(18 * height) + r#"">"#@
            + r##"<rect width="100%" height="100%" fill="#101010"/>"##@
            + r#"<g font-family="monospace" font-size="14" dominant-baseline="hanging">"#@,
{
    assert(width as int * 9 == 9 * width);
    assert(height as int * 18 == 18 * height);
}

/// A picture holds the cells of its screen in order, each at its place. A highlight takes the
/// place of the background colour, black backgrounds are left out, and so are the second halves
/// of wide characters.
pub proof fn law_cells_of_a_picture(row: int, col: int, cell: Cell, rgb: Rgb)
    ensures
        ({
            let words = screen_text::picture_text(row, col, cell);
            let none = screen_text::picture_cell(row, col, cell, None);
            let marked = screen_text::picture_cell(row, col, cell, Some(rgb));
            &&& cell.wide_continuation ==> none.len() == 0 && marked.len() == 0
            &&& !cell.wide_continuation ==> none == screen_text::picture_background(
                row,
                col,
                screen_text::picture_color(cell.bg),
            ) + words
            &&& !cell.wide_continuation ==> marked == screen_text::picture_background(
                row,
                col,
                screen_text::picture_color(DisplayColor::Rgb(rgb)),
            ) + words
            &&& words == r#"<text x=""#@ + text::decimal((9 * col) as nat) + r#"" y=""#@
                + text::decimal((18 * row) as nat) + r#"" fill=""#@ + screen_text::picture_color(
                cell.fg,
            ) + r#"">"#@ + screen_text::escaped(cell.text) + "</text>"@
            &&& screen_text::picture_background(row, col, "#000000"@).len() == 0
            &&& forall|fill: Seq<char>|
                fill.len() == 7 && fill != "#000000"@ ==> #[trigger] screen_text::picture_background(
                    row,
                    col,
                    fill,
                ) == r#"<rect x=""#@ + text::decimal((9 * col) as nat) + r#"" y=""#@
                    + text::decimal((18 * row) as nat) + r#"" width="9" height="18" fill=""#@ + fill
                    + r#""/>"#@
        }),
{
    reveal_strlit("#00000000");
    assert(col * 9 == 9 * col);
    assert(row * 18 == 18 * row);
}

proof fn lemma_picture_row_before(
    a: Seq<Cell>,
    b: Seq<Cell>,
    row: int,
    colors: Option<Seq<Seq<Option<Rgb>>>>,
    n: int,
)
    requires
        0 <= n <= a.len(),
        n <= b.len(),
        forall|i: int| 0 <= i < n ==> a[i] == b[i],
    ensures
        screen_text::picture_row(a, row, colors, n) == screen_text::picture_row(b, row, colors, n),
    decreases n,
{
    if n > 0 {
        lemma_picture_row_before(a, b, row, colors, n - 1);
    }
}

/// One more cell of a row comes after the others in a picture, in its own column.
pub proof fn law_rows_of_a_picture(
    cells: Seq<Cell>,
    cell: Cell,
    row: int,
    colors: Option<Seq<Seq<Option<Rgb>>>>,
)
    ensures
        screen_text::picture_row(Seq::empty(), row, colors, 0).len() == 0,
        screen_text::picture_row(cells.push(cell), row, colors, cells.len() as int + 1)
            == screen_text::picture_row(cells, row, colors, cells.len() as int)
            + screen_text::picture_cell(
            row,
            cells.len() as int,
            cell,
            screen_text::highlight_at(colors, row, cells.len() as int),
        ),
{
    lemma_picture_row_before(cells, cells.push(cell), row, colors, cells.len() as int);
}

proof fn lemma_picture_rows_before(
    a: Seq<Seq<Cell>>,
    b: Seq<Seq<Cell>>,
    colors: Option<Seq<Seq<Option<Rgb>>>>,
    n: int,
)
    requires
        0 <= n <= a.len(),
        n <= b.len(),
        forall|i: int| 0 <= i < n ==> a[i] == b[i],
    ensures
        screen_text::picture_rows(a, colors, n) == screen_text::picture_rows(b, colors, n),
    decreases n,
{
    if n > 0 {
        lemma_picture_rows_before(a, b, colors, n - 1);
    }
}

/// One more row comes after the others in a picture, and every picture is closed at its end.
pub proof fn law_pictures(
    cells: Seq<Seq<Cell>>,
    row: Seq<Cell>,
    colors: Option<Seq<Seq<Option<Rgb>>>>,
)
    ensures
        screen_text::picture_rows(Seq::empty(), colors, 0).len() == 0,
        screen_text::picture_rows(cells.push(row), colors, cells.len() as int + 1)
            == screen_text::picture_rows(cells, colors, cells.len() as int)
            + screen_text::picture_row(row, cells.len() as int, colors, row.len() as int),
        screen_text::picture(Seq::empty(), colors) == screen_text::picture_start(0, 0)
            + "</g></svg>"@,
        cells.len() > 0 ==> screen_text::picture(cells, colors) == screen_text::picture_start(
            cells[0].len() as int,
            cells.len() as int,
        ) + screen_text::picture_rows(cells, colors, cells.len() as int) + "</g></svg>"@,
{
    lemma_picture_rows_before(cells, cells.push(row), colors, cells.len() as int);
    assert(screen_text::picture_rows(Seq::empty(), colors, 0) =~= Seq::<char>::empty());
    assert(screen_text::picture(Seq::empty(), colors) =~= screen_text::picture_start(0, 0)
        + "</g></svg>"@);
}

/// A text is written in its look: the look is set before the first text and wherever it changes,
/// and nowhere else, so that each text comes after its own look.
pub proof fn law_looks_are_set_where_they_change(
    before: Seq<Glyph>,
    first: Glyph,
    second: Glyph,
)
    ensures
        draw::painted(Seq::empty()).len() == 0,
        draw::painted(seq![first]) == draw::style_code(first.style) + first.text,
        second.style == first.style ==> draw::painted(before.push(first).push(second))
            == draw::painted(before.push(first)) + second.text,
        second.style != first.style ==> draw::painted(before.push(first).push(second))
            == draw::painted(before.push(first)) + draw::style_code(second.style) + second.text,
{
    draw::lemma_painted(Seq::empty(), first);
    assert(Seq::<Glyph>::empty().push(first) =~= seq![first]);
    assert(draw::painted(Seq::empty()) =~= Seq::<char>::empty());
    assert(draw::painted(seq![first]) =~= draw::style_code(first.style) + first.text);
    draw::lemma_painted(before.push(first), second);
    assert(draw::last_style(before.push(first)) == Some(first.style));
    assert(draw::painted(before.push(first)) + Seq::empty() + second.text =~= draw::painted(
        before.push(first),
    ) + second.text);
}

proof fn lemma_stable_glyphs(
    row: Seq<Cell>,
    r: int,
    colors: Option<Seq<Seq<Option<Rgb>>>>,
    n: int,
    col: int,
)
    requires
        0 <= col < n <= row.len(),
        !row[col].wide_continuation,
    ensures
        draw::stable_glyphs(row, r, colors, n).len() == screen_text::visible_before(row, n),
        0 <= screen_text::visible_before(row, col) < screen_text::visible_before(row, n),
        draw::stable_glyphs(row, r, colors, n)[screen_text::visible_before(row, col)]
            == draw::glyph(
            draw::with_highlight(row[col], screen_text::highlight_at(colors, r, col)),
            row[col].text,
        ),
    decreases n,
{
    lemma_stable_count(row, r, colors, n);
    lemma_stable_count(row, r, colors, col);
    if col < n - 1 {
        lemma_stable_glyphs(row, r, colors, n - 1, col);
    } else {
        lemma_stable_count(row, r, colors, n - 1);
    }
}

proof fn lemma_stable_count(row: Seq<Cell>, r: int, colors: Option<Seq<Seq<Option<Rgb>>>>, n: int)
    requires
        0 <= n <= row.len(),
    ensures
        draw::stable_glyphs(row, r, colors, n).len() == screen_text::visible_before(row, n),
        0 <= screen_text::visible_before(row, n),
    decreases n,
{
    if n > 0 {
        lemma_stable_count(row, r, colors, n - 1);
    }
}

/// A row is drawn cell by cell, each with its own text, its own look and its highlight as its
/// background, but for the second halves of wide characters. The look is reset at its end.
pub proof fn law_rows_are_drawn(
    row: Seq<Cell>,
    r: int,
    colors: Option<Seq<Seq<Option<Rgb>>>>,
    col: int,
)
    requires
        0 <= col < row.len(),
        !row[col].wide_continuation,
        !row[col].inverse,
    ensures
        ({
            let glyphs = draw::stable_glyphs(row, r, colors, row.len() as int);
            let shown = glyphs[screen_text::visible_before(row, col)];
            let mark = screen_text::highlight_at(colors, r, col);
            &&& glyphs.len() == screen_text::visible_before(row, row.len() as int)
            &&& shown.text == row[col].text
            &&& shown.style.fg == row[col].fg
            &&& mark is None ==> shown.style.bg == row[col].bg
            &&& mark is Some ==> shown.style.bg == DisplayColor::Rgb(mark->0)
            &&& shown.style.bold == row[col].bold
            &&& shown.style.dim == row[col].dim
            &&& shown.style.italic == row[col].italic
            &&& shown.style.underline == row[col].underline
            &&& draw::stable_row(row, r, colors) == draw::painted(glyphs) + seq![
                '\x1b',
                '[',
                '0',
                'm',
            ]
        }),
{
    lemma_stable_glyphs(row, r, colors, row.len() as int, col);
    reveal_strlit("\x1b[0m");
    assert("\x1b[0m"@ =~= seq!['\x1b', '[', '0', 'm']);
}

/// The cursor is moved to its column and row, shown or hidden, and all of it is sent.
pub proof fn law_cursors_are_placed(state: TerminalState)
    ensures
        ({
            let list = draw::cursor_ops(state);
            &&& list.len() == 3
            &&& list[0] == Op::MoveTo(state.cursor_col, state.cursor_row)
            &&& state.cursor_visible ==> list[1] == Op::ShowCursor
            &&& !state.cursor_visible ==> list[1] == Op::HideCursor
            &&& list[2] == Op::Flush
        }),
{
}

/// What is done on the terminal is what an operation says.
pub proof fn law_operations(text: String, col: u16, row: u16, ms: u64)
    ensures
        DrawOp::Text(text)@ == Op::Text(text@),
        DrawOp::MoveTo(col, row)@ == Op::MoveTo(col, row),
        DrawOp::ScrollUp(row)@ == Op::ScrollUp(row),
        DrawOp::ScrollDown(row)@ == Op::ScrollDown(row),
        DrawOp::ClearAll@ == Op::ClearAll,
        DrawOp::ShowCursor@ == Op::ShowCursor,
        DrawOp::HideCursor@ == Op::HideCursor,
        DrawOp::Flush@ == Op::Flush,
        DrawOp::Wait(ms)@ == Op::Wait(ms as int),
{
}

} // verus!
