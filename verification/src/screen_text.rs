//! The text of a screen, its transformation, and its picture.
use crate::model::{OutputTransformRule, Rgb};
use crate::screen;
use crate::screen::{Cell, DisplayColor, StyledCell};
use crate::noise::one_char;
use crate::text;
use crate::text::{chars_of, push_decimal, push_hex, same, text_of, trim_end};
use crate::theme;
use crate::theme::indexed_to_rgb;
use crate::transform;
use crate::transform::transform_line;
use vstd::prelude::*;

verus! {

/// The texts of the first `n` cells of a row, put together. The second half of a wide character
/// has none.
pub open spec fn row_text(row: Seq<Cell>, n: int) -> Seq<char>
    decreases n,
{
    if n <= 0 {
        Seq::empty()
    } else if row[n - 1].wide_continuation {
        row_text(row, n - 1)
    } else {
        row_text(row, n - 1) + row[n - 1].text
    }
}

fn text_of_row(row: &[StyledCell]) -> (r: String)
    ensures
        r@ == row_text(screen::row_view(row@), row@.len() as int),
{
    let ghost view = screen::row_view(row@);
    let mut r: String = String::new();
    let mut i: usize = 0;
    assert(r@ =~= row_text(view, 0));
    while i < row.len()
        invariant
            i <= row@.len(),
            view == screen::row_view(row@),
            r@ == row_text(view, i as int),
        decreases row@.len() - i,
    {
        assert(view[i as int] == row@[i as int]@);
        if !row[i].wide_continuation {
            r.append(row[i].text.as_str());
        }
        i = i + 1;
    }
    r
}

/// The text of a row, without white space at its end.
pub open spec fn line_of(row: Seq<Cell>) -> Seq<char> {
    text::trimmed_end(row_text(row, row.len() as int))
}

/// The lines of a screen.
pub fn screen_lines(cells: &[Vec<StyledCell>]) -> (r: Vec<String>)
    ensures
        transform::texts(r@) == screen::grid(cells@).map_values(|row: Seq<Cell>| line_of(row)),
{
    let ghost goal = screen::grid(cells@).map_values(|row: Seq<Cell>| line_of(row));
    let mut r: Vec<String> = Vec::new();
    let mut i: usize = 0;
    assert(transform::texts(r@) =~= goal.take(0));
    while i < cells.len()
        invariant
            i <= cells@.len(),
            goal == screen::grid(cells@).map_values(|row: Seq<Cell>| line_of(row)),
            transform::texts(r@) == goal.take(i as int),
        decreases cells@.len() - i,
    {
        let all: String = text_of_row(cells[i].as_slice());
        let mut chars: Vec<char> = chars_of(all.as_str());
        trim_end(&mut chars);
        let line: String = text_of(chars.as_slice());
        let ghost earlier = r@;
        r.push(line);
        assert(transform::texts(r@) =~= transform::texts(earlier).push(line@));
        assert(screen::grid(cells@)[i as int] == screen::row_view(cells@[i as int]@));
        i = i + 1;
        assert(transform::texts(r@) =~= goal.take(i as int));
    }
    assert(goal.take(i as int) =~= goal);
    r
}

/// The number of cells with a text of their own before a column.
pub open spec fn visible_before(row: Seq<Cell>, col: int) -> int
    decreases col,
{
    if col <= 0 {
        0
    } else if row[col - 1].wide_continuation {
        visible_before(row, col - 1)
    } else {
        visible_before(row, col - 1) + 1
    }
}

/// A cell with another text.
pub open spec fn with_text(cell: Cell, text: Seq<char>) -> Cell {
    Cell { text, ..cell }
}

/// A row with a text laid over it: each cell with a text of its own takes the next character,
/// as far as they go.
pub open spec fn laid_over(row: Seq<Cell>, text: Seq<char>) -> Seq<Cell> {
    row.map(
        |col: int, cell: Cell|
            if cell.wide_continuation || visible_before(row, col) >= text.len() {
                cell
            } else {
                with_text(cell, seq![text[visible_before(row, col)]])
            },
    )
}

/// A row after some rules.
pub open spec fn transformed_row(row: Seq<Cell>, rules: Seq<OutputTransformRule>) -> Seq<Cell> {
    laid_over(
        row,
        transform::transformed(row_text(row, row.len() as int), rules, rules.len() as int),
    )
}

/// Lays a text over a row.
pub fn lay_over(row: &Vec<StyledCell>, text: &str) -> (r: Vec<StyledCell>)
    ensures
        screen::row_view(r@) == laid_over(screen::row_view(row@), text@),
{
    let chars: Vec<char> = chars_of(text);
    let ghost view = screen::row_view(row@);
    let ghost goal = laid_over(view, text@);
    let mut r: Vec<StyledCell> = Vec::new();
    let mut next: usize = 0;
    let mut col: usize = 0;
    assert(screen::row_view(r@) =~= goal.take(0));
    while col < row.len()
        invariant
            col <= row@.len(),
            chars@ == text@,
            view == screen::row_view(row@),
            goal == laid_over(view, text@),
            next <= col,
            next == visible_before(view, col as int),
            screen::row_view(r@) == goal.take(col as int),
        decreases row@.len() - col,
    {
        assert(view[col as int] == row@[col as int]@);
        let mut cell: StyledCell = row[col].clone();
        if !cell.wide_continuation {
            if next < chars.len() {
                cell.text = one_char(chars[next]);
            }
            next = next + 1;
        }
        assert(cell@ == goal[col as int]);
        let ghost earlier = r@;
        r.push(cell);
        assert(screen::row_view(r@) =~= screen::row_view(earlier).push(cell@));
        col = col + 1;
        assert(screen::row_view(r@) =~= goal.take(col as int));
    }
    assert(goal.take(col as int) =~= goal);
    r
}

/// Applies rules to each row of a screen.
pub fn apply_transforms_to_cells(cells: &mut Vec<Vec<StyledCell>>, rules: &[OutputTransformRule])
    ensures
        screen::grid(final(cells)@) == (if rules@.len() == 0 {
            screen::grid(old(cells)@)
        } else {
            screen::grid(old(cells)@).map_values(|row: Seq<Cell>| transformed_row(row, rules@))
        }),
{
    if rules.len() == 0 {
        return;
    }
    let ghost goal = screen::grid(cells@).map_values(|row: Seq<Cell>| transformed_row(row, rules@));
    let mut i: usize = 0;
    while i < cells.len()
        invariant
            i <= cells@.len(),
            cells@.len() == old(cells)@.len(),
            goal == screen::grid(old(cells)@).map_values(
                |row: Seq<Cell>| transformed_row(row, rules@),
            ),
            forall|k: int|
                0 <= k < i ==> screen::row_view((#[trigger] cells@[k])@) == goal[k],
            forall|k: int| i <= k < cells@.len() ==> cells@[k] == old(cells)@[k],
        decreases cells@.len() - i,
    {
        let plain: String = text_of_row(cells[i].as_slice());
        let changed: String = transform_line(plain.as_str(), rules);
        let row: Vec<StyledCell> = lay_over(&cells[i], changed.as_str());
        assert(screen::grid(old(cells)@)[i as int] == screen::row_view(
            old(cells)@[i as int]@,
        ));
        cells.set(i, row);
        i = i + 1;
    }
    assert(screen::grid(cells@) =~= goal);
}

/// Rules leave the shape of a screen, its colours and its attributes as they are.
pub proof fn law_rules_change_only_text(row: Seq<Cell>, rules: Seq<OutputTransformRule>, col: int)
    requires
        0 <= col < row.len(),
    ensures
        transformed_row(row, rules).len() == row.len(),
        transformed_row(row, rules)[col] == with_text(
            row[col],
            transformed_row(row, rules)[col].text,
        ),
{
}

proof fn lemma_visible_grows(row: Seq<Cell>, m: int, n: int)
    requires
        0 <= m <= n,
    ensures
        0 <= visible_before(row, m) <= visible_before(row, n),
    decreases n,
{
    if m < n {
        lemma_visible_grows(row, m, n - 1);
    } else if m > 0 {
        lemma_visible_grows(row, m - 1, n - 1);
    }
}

/// Whether each cell with a text of its own holds one character.
pub open spec fn one_char_each(row: Seq<Cell>) -> bool {
    forall|col: int|
        0 <= col < row.len() && !(#[trigger] row[col]).wide_continuation ==> row[col].text.len()
            == 1
}

proof fn lemma_row_text_length(row: Seq<Cell>, n: int)
    requires
        0 <= n <= row.len(),
        one_char_each(row),
    ensures
        row_text(row, n).len() == visible_before(row, n),
    decreases n,
{
    if n > 0 {
        lemma_row_text_length(row, n - 1);
    }
}

proof fn lemma_laid_over_text(row: Seq<Cell>, text: Seq<char>, n: int)
    requires
        0 <= n <= row.len(),
        visible_before(row, row.len() as int) <= text.len(),
    ensures
        row_text(laid_over(row, text), n) == text.take(visible_before(row, n)),
    decreases n,
{
    lemma_visible_grows(row, n, row.len() as int);
    let laid = laid_over(row, text);
    if n > 0 {
        lemma_laid_over_text(row, text, n - 1);
        lemma_visible_grows(row, n - 1, n);
        assert(laid[n - 1].wide_continuation == row[n - 1].wide_continuation);
        if !row[n - 1].wide_continuation {
            let k = visible_before(row, n - 1);
            assert(laid[n - 1].text == seq![text[k]]);
            assert(text.take(k) + seq![text[k]] =~= text.take(k + 1));
        }
    } else {
        assert(text.take(0) =~= Seq::empty());
    }
}

/// Where each cell holds one character, the text of a row after some rules is what the rules make
/// of its text.
pub proof fn law_rules_act_on_the_text(row: Seq<Cell>, rules: Seq<OutputTransformRule>)
    requires
        one_char_each(row),
    ensures
        row_text(transformed_row(row, rules), row.len() as int) == transform::transformed(
            row_text(row, row.len() as int),
            rules,
            rules.len() as int,
        ),
{
    let n = row.len() as int;
    let text = transform::transformed(row_text(row, n), rules, rules.len() as int);
    lemma_row_text_length(row, n);
    transform::law_width_is_kept(row_text(row, n), rules, rules.len() as int);
    lemma_laid_over_text(row, text, n);
    assert(text.take(visible_before(row, n)) =~= text);
}

/// A colour as `#rrggbb`.
pub open spec fn hex_text(rgb: Rgb) -> Seq<char> {
    seq!['#'] + text::hex_byte(rgb.0) + text::hex_byte(rgb.1) + text::hex_byte(rgb.2)
}

/// A colour as `#rrggbb`.
pub fn rgb_hex(rgb: Rgb) -> (r: String)
    ensures
        r@ == hex_text(rgb),
{
    let mut r: String = one_char('#');
    push_hex(&mut r, rgb.0);
    push_hex(&mut r, rgb.1);
    push_hex(&mut r, rgb.2);
    r
}

/// Reading a colour gives back the colour that was written.
pub proof fn law_written_colors_read_back(rgb: Rgb)
    ensures
        theme::hex_color(hex_text(rgb)) == Some(rgb),
{
    let written = hex_text(rgb);
    let hex = written.skip(1);
    assert(hex.len() == 6);
    assert(hex[0] == text::hex_digit(rgb.0 as int / 16));
    assert(hex[1] == text::hex_digit(rgb.0 as int % 16));
    assert(hex[2] == text::hex_digit(rgb.1 as int / 16));
    assert(hex[3] == text::hex_digit(rgb.1 as int % 16));
    assert(hex[4] == text::hex_digit(rgb.2 as int / 16));
    assert(hex[5] == text::hex_digit(rgb.2 as int % 16));
    lemma_digit_reads_back(rgb.0 as int / 16);
    lemma_digit_reads_back(rgb.0 as int % 16);
    lemma_digit_reads_back(rgb.1 as int / 16);
    lemma_digit_reads_back(rgb.1 as int % 16);
    lemma_digit_reads_back(rgb.2 as int / 16);
    lemma_digit_reads_back(rgb.2 as int % 16);
}

proof fn lemma_digit_reads_back(n: int)
    requires
        0 <= n < 16,
    ensures
        text::hex_value(text::hex_digit(n)) == Some(n),
{
}

/// The colour of a picture for a colour to show.
pub open spec fn picture_color(color: DisplayColor) -> Seq<char> {
    match color {
        DisplayColor::Default => "#d0d0d0"@,
        DisplayColor::Indexed(idx) => hex_text(theme::basic_color(idx)),
        DisplayColor::Rgb(rgb) => hex_text(rgb),
    }
}

/// The colour of a picture for a colour to show.
pub fn display_color_hex(color: DisplayColor) -> (r: String)
    ensures
        r@ == picture_color(color),
{
    match color {
        DisplayColor::Default => "#d0d0d0".to_owned(),
        DisplayColor::Indexed(idx) => rgb_hex(indexed_to_rgb(idx)),
        DisplayColor::Rgb(rgb) => rgb_hex(rgb),
    }
}

/// A character inside the text of a picture.
pub open spec fn escaped_char(ch: char) -> Seq<char> {
    if ch == '&' {
        "&amp;"@
    } else if ch == '<' {
        "&lt;"@
    } else if ch == '>' {
        "&gt;"@
    } else {
        seq![ch]
    }
}

/// A text inside a picture.
pub open spec fn escaped(text: Seq<char>) -> Seq<char>
    decreases text.len(),
{
    if text.len() == 0 {
        Seq::empty()
    } else {
        escaped(text.drop_last()) + escaped_char(text.last())
    }
}

/// No text opens or closes an element of a picture.
pub proof fn law_escaped_text_has_no_tags(text: Seq<char>)
    ensures
        !escaped(text).contains('<'),
        !escaped(text).contains('>'),
    decreases text.len(),
{
    if text.len() > 0 {
        law_escaped_text_has_no_tags(text.drop_last());
        let before = escaped(text.drop_last());
        let last = escaped_char(text.last());
        reveal_strlit("&amp;");
        reveal_strlit("&lt;");
        reveal_strlit("&gt;");
        assert forall|i: int| 0 <= i < escaped(text).len() implies escaped(text)[i] != '<'
            && escaped(text)[i] != '>' by {
            if i < before.len() {
                assert(before.contains(before[i]));
            } else {
                assert(escaped(text)[i] == last[i - before.len()]);
            }
        }
    }
}

/// Escapes the characters that mean something in a picture.
pub fn svg_escape(text: &str) -> (r: String)
    ensures
        r@ == escaped(text@),
{
    let chars: Vec<char> = chars_of(text);
    let mut r: String = String::new();
    let mut i: usize = 0;
    assert(chars@.take(0) =~= Seq::empty());
    assert(r@ =~= escaped(chars@.take(0)));
    while i < chars.len()
        invariant
            i <= chars@.len(),
            r@ == escaped(chars@.take(i as int)),
        decreases chars@.len() - i,
    {
        let ch: char = chars[i];
        let ghost next = chars@.take(i + 1);
        assert(next.drop_last() =~= chars@.take(i as int));
        assert(next.last() == ch);
        let ghost before = r@;
        if ch == '&' {
            r.append("&amp;");
        } else if ch == '<' {
            r.append("&lt;");
        } else if ch == '>' {
            r.append("&gt;");
        } else {
            r.push(ch);
            assert(r@ =~= before + seq![ch]);
        }
        i = i + 1;
    }
    assert(chars@.take(i as int) =~= text@);
    r
}

/// The colour that highlights a place, if any does.
pub open spec fn highlight_at(colors: Option<Seq<Seq<Option<Rgb>>>>, row: int, col: int) -> Option<
    Rgb,
> {
    match colors {
        Some(rows) => if 0 <= row < rows.len() && 0 <= col < rows[row].len() {
            rows[row][col]
        } else {
            None
        },
        None => None,
    }
}

/// The colours of highlights that may be missing.
pub open spec fn optional_colors(colors: Option<&[Vec<Option<Rgb>>]>) -> Option<
    Seq<Seq<Option<Rgb>>>,
> {
    match colors {
        Some(rows) => Some(rows@.map_values(|row: Vec<Option<Rgb>>| row@)),
        None => None,
    }
}

/// The colour that highlights a place, if any does.
pub fn highlight_color(colors: Option<&[Vec<Option<Rgb>>]>, row: usize, col: usize) -> (r: Option<
    Rgb,
>)
    ensures
        r == highlight_at(optional_colors(colors), row as int, col as int),
{
    match colors {
        Some(rows) => {
            if row < rows.len() {
                assert(optional_colors(colors)->0[row as int] == rows@[row as int]@);
                if col < rows[row].len() {
                    return rows[row][col];
                }
            }
            None
        },
        None => None,
    }
}

/// The number of something, times its size, in decimal digits.
pub open spec fn scaled(n: int, size: int) -> Seq<char> {
    text::decimal((n * size) as nat)
}

/// The start of a picture.
pub open spec fn picture_start(width: int, height: int) -> Seq<char> {
    r#"<svg xmlns="http://www.w3.org/2000/svg" width=""#@ + scaled(width, 9) + r#"" height=""#@
        + scaled(height, 18) + r#"" viewBox="0 0 "#@ + scaled(width, 9) + " "@ + scaled(height, 18)
        + r#"">"#@ + r##"<rect width="100%" height="100%" fill="#101010"/>"##@
        + r#"<g font-family="monospace" font-size="14" dominant-baseline="hanging">"#@
}

/// The background of a cell in a picture: none for black.
pub open spec fn picture_background(row: int, col: int, fill: Seq<char>) -> Seq<char> {
    if fill == "#00000000"@ || fill == "#000000"@ {
        Seq::empty()
    } else {
        r#"<rect x=""#@ + scaled(col, 9) + r#"" y=""#@ + scaled(row, 18)
            + r#"" width="9" height="18" fill=""#@ + fill + r#""/>"#@
    }
}

/// The text of a cell in a picture.
pub open spec fn picture_text(row: int, col: int, cell: Cell) -> Seq<char> {
    r#"<text x=""#@ + scaled(col, 9) + r#"" y=""#@ + scaled(row, 18) + r#"" fill=""#@
        + picture_color(cell.fg) + r#"">"#@ + escaped(cell.text) + "</text>"@
}

/// A cell in a picture. A highlight takes the place of the background colour.
pub open spec fn picture_cell(
    row: int,
    col: int,
    cell: Cell,
    highlight: Option<Rgb>,
) -> Seq<char> {
    if cell.wide_continuation {
        Seq::empty()
    } else {
        let fill = match highlight {
            Some(rgb) => hex_text(rgb),
            None => picture_color(cell.bg),
        };
        picture_background(row, col, fill) + picture_text(row, col, cell)
    }
}

/// The first `n` cells of a row in a picture.
pub open spec fn picture_row(
    cells: Seq<Cell>,
    row: int,
    colors: Option<Seq<Seq<Option<Rgb>>>>,
    n: int,
) -> Seq<char>
    decreases n,
{
    if n <= 0 {
        Seq::empty()
    } else {
        picture_row(cells, row, colors, n - 1) + picture_cell(
            row,
            n - 1,
            cells[n - 1],
            highlight_at(colors, row, n - 1),
        )
    }
}

/// The first `n` rows of a picture.
pub open spec fn picture_rows(
    cells: Seq<Seq<Cell>>,
    colors: Option<Seq<Seq<Option<Rgb>>>>,
    n: int,
) -> Seq<char>
    decreases n,
{
    if n <= 0 {
        Seq::empty()
    } else {
        picture_rows(cells, colors, n - 1) + picture_row(
            cells[n - 1],
            n - 1,
            colors,
            cells[n - 1].len() as int,
        )
    }
}

/// The picture of a screen.
pub open spec fn picture(cells: Seq<Seq<Cell>>, colors: Option<Seq<Seq<Option<Rgb>>>>) -> Seq<char> {
    let width = if cells.len() > 0 {
        cells[0].len() as int
    } else {
        0
    };
    picture_start(width, cells.len() as int) + picture_rows(cells, colors, cells.len() as int)
        + "</g></svg>"@
}

fn push_scaled(out: &mut String, n: usize, size: u8)
    ensures
        final(out)@ == old(out)@ + scaled(n as int, size as int),
{
    proof {
        assert(0 <= n * size <= 0xffff_ffff_ffff_ffff * 255) by (nonlinear_arith)
            requires
                0 <= n <= 0xffff_ffff_ffff_ffff,
                0 <= size <= 255,
        ;
    }
    push_decimal(out, n as u128 * size as u128);
}

fn push_picture_background(out: &mut String, row: usize, col: usize, fill: &str)
    ensures
        final(out)@ == old(out)@ + picture_background(row as int, col as int, fill@),
{
    if !same(fill, "#00000000") && !same(fill, "#000000") {
        out.append(r#"<rect x=""#);
        push_scaled(out, col, 9);
        out.append(r#"" y=""#);
        push_scaled(out, row, 18);
        out.append(r#"" width="9" height="18" fill=""#);
        out.append(fill);
        out.append(r#""/>"#);
    }
    assert(out@ =~= old(out)@ + picture_background(row as int, col as int, fill@));
}

fn push_picture_text(out: &mut String, row: usize, col: usize, cell: &StyledCell)
    ensures
        final(out)@ == old(out)@ + picture_text(row as int, col as int, cell@),
{
    out.append(r#"<text x=""#);
    push_scaled(out, col, 9);
    out.append(r#"" y=""#);
    push_scaled(out, row, 18);
    out.append(r#"" fill=""#);
    let color: String = display_color_hex(cell.fg);
    out.append(color.as_str());
    out.append(r#"">"#);
    let inner: String = svg_escape(cell.text.as_str());
    out.append(inner.as_str());
    out.append("</text>");
    assert(out@ =~= old(out)@ + picture_text(row as int, col as int, cell@));
}

fn push_picture_cell(
    out: &mut String,
    row: usize,
    col: usize,
    cell: &StyledCell,
    highlight: Option<Rgb>,
)
    ensures
        final(out)@ == old(out)@ + picture_cell(row as int, col as int, cell@, highlight),
{
    if cell.wide_continuation {
        assert(out@ + Seq::<char>::empty() =~= out@);
        return;
    }
    let fill: String = match highlight {
        Some(rgb) => rgb_hex(rgb),
        None => display_color_hex(cell.bg),
    };
    push_picture_background(out, row, col, fill.as_str());
    push_picture_text(out, row, col, cell);
    assert(out@ =~= old(out)@ + picture_cell(row as int, col as int, cell@, highlight));
}

/// The picture of a screen, in SVG.
pub fn screen_to_svg(
    cells: &[Vec<StyledCell>],
    highlight_colors: Option<&[Vec<Option<Rgb>>]>,
) -> (r: String)
    ensures
        r@ == picture(screen::grid(cells@), optional_colors(highlight_colors)),
{
    let ghost view = screen::grid(cells@);
    let ghost colors = optional_colors(highlight_colors);
    let height: usize = cells.len();
    let width: usize = if height > 0 {
        assert(view[0].len() == cells@[0]@.len());
        cells[0].len()
    } else {
        0
    };
    let mut svg: String = String::new();
    svg.append(r#"<svg xmlns="http://www.w3.org/2000/svg" width=""#);
    push_scaled(&mut svg, width, 9);
    svg.append(r#"" height=""#);
    push_scaled(&mut svg, height, 18);
    svg.append(r#"" viewBox="0 0 "#);
    push_scaled(&mut svg, width, 9);
    svg.append(" ");
    push_scaled(&mut svg, height, 18);
    svg.append(r#"">"#);
    svg.append(r##"<rect width="100%" height="100%" fill="#101010"/>"##);
    svg.append(r#"<g font-family="monospace" font-size="14" dominant-baseline="hanging">"#);
    let ghost start = svg@;
    assert(start =~= picture_start(width as int, height as int));
    let mut row: usize = 0;
    assert(svg@ =~= start + picture_rows(view, colors, 0));
    while row < cells.len()
        invariant
            row <= cells@.len(),
            view == screen::grid(cells@),
            colors == optional_colors(highlight_colors),
            svg@ == start + picture_rows(view, colors, row as int),
        decreases cells@.len() - row,
    {
        let ghost line = view[row as int];
        assert(line == screen::row_view(cells@[row as int]@));
        let ghost before = svg@;
        let mut col: usize = 0;
        assert(svg@ =~= before + picture_row(line, row as int, colors, 0));
        while col < cells[row].len()
            invariant
                row < cells@.len(),
                col <= cells@[row as int]@.len(),
                line == screen::row_view(cells@[row as int]@),
                colors == optional_colors(highlight_colors),
                svg@ == before + picture_row(line, row as int, colors, col as int),
            decreases cells@[row as int]@.len() - col,
        {
            assert(line[col as int] == cells@[row as int]@[col as int]@);
            let highlight: Option<Rgb> = highlight_color(highlight_colors, row, col);
            push_picture_cell(&mut svg, row, col, &cells[row][col], highlight);
            col = col + 1;
            assert(svg@ =~= before + picture_row(line, row as int, colors, col as int));
        }
        row = row + 1;
        assert(svg@ =~= start + picture_rows(view, colors, row as int));
    }
    svg.append("</g></svg>");
    svg
}

} // verus!
