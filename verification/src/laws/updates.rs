//! What is drawn of a screen as it is revealed, and as it changes.
use crate::changes;
use crate::changes::ScrollHint;
use crate::cli_backend;
use crate::draw;
use crate::draw::{Glyph, Op};
use crate::effects;
use crate::highlight;
use crate::live;
use crate::live::Step;
use crate::model::{EffectKind, Feature, HighlightRule, OutputTransformRule, Rgb, Runtime};
use crate::passthrough;
use crate::render;
use crate::render::RevealTuning;
use crate::screen;
use crate::screen::{Cell, DisplayColor, TerminalState};
use crate::screen_text;
use crate::session;
use crate::session::LiveModel;
use crate::single;
use crate::single::Number;
use crate::text;
use crate::triggers;
use vstd::prelude::*;

verus! {

/// A cell that is drawn with an effect is bold, and its text comes out of the dark while colours
/// fade. Where the colours of the terminal are kept, neither is done. Everything else about the
/// cell stays, but for a highlight as its background.
pub proof fn law_cells_with_an_effect(cell: Cell, mark: Option<Rgb>, step: Step)
    ensures
        ({
            let r = live::live_cell(cell, mark, step);
            let on_its_way = single::less(step.ratio, Number::Finite(single::unit()));
            &&& !step.preserve ==> r.bold
            &&& step.preserve ==> r.bold == cell.bold && r.fg == cell.fg
            &&& !step.preserve && step.color_fade && on_its_way ==> r.fg == effects::faded(
                cell.fg,
                step.ratio,
                step.effect,
                step.darken_factor,
            )
            &&& !step.color_fade || !on_its_way ==> r.fg == cell.fg
            &&& mark is Some ==> r.bg == DisplayColor::Rgb(mark->0)
            &&& mark is None ==> r.bg == cell.bg
            &&& r.text == cell.text
            &&& r.dim == cell.dim && r.italic == cell.italic && r.underline == cell.underline
            &&& r.inverse == cell.inverse && r.wide_continuation == cell.wide_continuation
        }),
{
}

/// A cell that has changed is drawn with the effect, unless it is blank, and any other as it is.
pub proof fn law_changed_cells(
    row: Seq<Cell>,
    r: usize,
    c: usize,
    changed: bool,
    colors: Option<Seq<Seq<Option<Rgb>>>>,
    step: Step,
)
    requires
        c < row.len(),
    ensures
        ({
            let cell = row[c as int];
            let mark = screen_text::highlight_at(colors, r as int, c as int);
            let shown = live::live_glyph(row, r as int, c as int, changed, colors, step);
            let moved = changed && !text::blank(cell.text);
            &&& moved ==> shown.text == effects::live_text(
                cell.text,
                r,
                c,
                step.total_rows,
                step.frame,
                step.ratio,
                step.color_fade,
                step.effect,
            )
            &&& moved ==> shown.style == draw::style_of(live::live_cell(cell, mark, step))
            &&& !moved ==> shown.text == cell.text
            &&& !moved ==> shown.style == draw::style_of(draw::with_highlight(cell, mark))
        }),
{
}

proof fn lemma_glyphs(row: Seq<Cell>, show: spec_fn(int) -> Glyph, from: int, to: int, col: int)
    requires
        from <= col < to,
        !row[col].wide_continuation,
    ensures
        ({
            let all = draw::row_glyphs(row, show, from, to);
            let before = draw::row_glyphs(row, show, from, col);
            before.len() < all.len() && all[before.len() as int] == show(col)
        }),
    decreases to - col,
{
    if col < to - 1 {
        lemma_glyphs(row, show, from, to - 1, col);
    }
}

/// The cells of a part of a row are drawn in order, each once, but for the second halves of wide
/// characters.
pub proof fn law_cells_in_order(row: Seq<Cell>, show: spec_fn(int) -> Glyph, from: int, col: int)
    requires
        from <= col,
    ensures
        draw::row_glyphs(row, show, from, from).len() == 0,
        row[col].wide_continuation ==> draw::row_glyphs(row, show, from, col + 1)
            == draw::row_glyphs(row, show, from, col),
        !row[col].wide_continuation ==> draw::row_glyphs(row, show, from, col + 1)
            == draw::row_glyphs(row, show, from, col).push(show(col)),
{
}

/// A changed row is drawn from its first column, cell by cell, and the look is reset at its end.
pub proof fn law_changed_rows(
    row: Seq<Cell>,
    r: usize,
    changed: Seq<bool>,
    colors: Option<Seq<Seq<Option<Rgb>>>>,
    step: Step,
    col: int,
)
    requires
        0 <= col < row.len(),
        !row[col].wide_continuation,
        r <= 65535,
    ensures
        ({
            let ops = live::live_row_ops(row, r as int, changed, colors, step);
            let glyphs = live::live_glyphs(row, r as int, changed, colors, step, row.len() as int);
            let before = live::live_glyphs(row, r as int, changed, colors, step, col);
            &&& ops == seq![
                Op::MoveTo(0, r as u16),
                Op::Text(draw::painted(glyphs) + seq!['\x1b', '[', '0', 'm']),
            ]
            &&& before.len() < glyphs.len()
            &&& glyphs[before.len() as int] == live::live_glyph(
                row,
                r as int,
                col,
                changed[col],
                colors,
                step,
            )
        }),
{
    reveal_strlit("\x1b[0m");
    assert("\x1b[0m"@ =~= seq!['\x1b', '[', '0', 'm']);
    lemma_glyphs(
        row,
        |c: int| live::live_glyph(row, r as int, c, changed[c], colors, step),
        0,
        row.len() as int,
        col,
    );
}

/// A row is drawn after those above it, and only where it has a mark.
pub proof fn law_marked_rows_are_drawn(
    cells: Seq<Seq<Cell>>,
    colors: Option<Seq<Seq<Option<Rgb>>>>,
    redraw: Seq<Seq<bool>>,
    changed: Seq<Seq<bool>>,
    step: Step,
    r: int,
)
    requires
        0 <= r < cells.len(),
    ensures
        ({
            let above = live::live_rows_ops(cells, colors, redraw, changed, step, r);
            let all = live::live_rows_ops(cells, colors, redraw, changed, step, r + 1);
            &&& live::live_rows_ops(cells, colors, redraw, changed, step, 0).len() == 0
            &&& changes::marked(redraw, r) ==> all == above + live::live_row_ops(
                cells[r],
                r,
                changed[r],
                colors,
                step,
            )
            &&& !changes::marked(redraw, r) ==> all == above
        }),
{
}

/// A step first scrolls the terminal as far as the contents have moved and in that direction, then
/// draws the rows, and then puts the cursor in its place.
pub proof fn law_steps_on_the_live_screen(
    cells: Seq<Seq<Cell>>,
    state: TerminalState,
    colors: Option<Seq<Seq<Option<Rgb>>>>,
    lines: u16,
    redraw: Seq<Seq<bool>>,
    changed: Seq<Seq<bool>>,
    step: Step,
)
    ensures
        ({
            let rows = live::live_rows_ops(
                cells,
                colors,
                redraw,
                changed,
                step,
                cells.len() as int,
            );
            let cursor = draw::cursor_ops(state);
            let up = Some(ScrollHint::Up(lines));
            let down = Some(ScrollHint::Down(lines));
            &&& live::live_ops(cells, state, colors, None, redraw, changed, step) == rows + cursor
            &&& live::live_ops(cells, state, colors, up, redraw, changed, step) == seq![
                Op::ScrollUp(lines),
            ] + rows + cursor
            &&& live::live_ops(cells, state, colors, down, redraw, changed, step) == seq![
                Op::ScrollDown(lines),
            ] + rows + cursor
        }),
{
    let rows = live::live_rows_ops(cells, colors, redraw, changed, step, cells.len() as int);
    let cursor = draw::cursor_ops(state);
    assert(Seq::<Op>::empty() + rows + cursor =~= rows + cursor);
}

/// The terminal scrolls in the first step of an update only. The last step draws all of the screen
/// as it is, and those before it what has changed. Each step is drawn at its own time and in a
/// frame of its own.
pub proof fn law_steps_of_an_update(
    cells: Seq<Seq<Cell>>,
    state: TerminalState,
    colors: Option<Seq<Seq<Option<Rgb>>>>,
    hint: Option<ScrollHint>,
    redraw: Seq<Seq<bool>>,
    changed: Seq<Seq<bool>>,
    first: Step,
    idx: usize,
)
    requires
        idx < effects::live_ratios(first.effect).len(),
    ensures
        ({
            let ratios = effects::live_ratios(first.effect);
            let ops = live::update_step_ops(
                cells,
                state,
                colors,
                hint,
                redraw,
                changed,
                first,
                idx as int,
            );
            let step = Step {
                frame: first.frame.wrapping_add(idx),
                ratio: ratios[idx as int],
                ..first
            };
            let scroll = if idx == 0 {
                hint
            } else {
                None
            };
            &&& idx + 1 < ratios.len() ==> ops == live::live_ops(
                cells,
                state,
                colors,
                scroll,
                redraw,
                changed,
                step,
            )
            &&& idx + 1 == ratios.len() ==> ops == live::live_ops(
                cells,
                state,
                colors,
                scroll,
                changes::uniform(cells, true),
                changes::uniform(cells, false),
                step,
            )
        }),
{
}

/// The steps of an update come one after the other, with a pause between them and none at the end.
pub proof fn law_updates(
    cells: Seq<Seq<Cell>>,
    state: TerminalState,
    colors: Option<Seq<Seq<Option<Rgb>>>>,
    hint: Option<ScrollHint>,
    redraw: Seq<Seq<bool>>,
    changed: Seq<Seq<bool>>,
    first: Step,
    duration_ms: int,
    idx: int,
)
    requires
        0 <= idx < effects::live_ratios(first.effect).len(),
    ensures
        ({
            let before = live::update_ops(
                cells,
                state,
                colors,
                hint,
                redraw,
                changed,
                first,
                duration_ms,
                idx,
            );
            let step = live::update_step_ops(
                cells,
                state,
                colors,
                hint,
                redraw,
                changed,
                first,
                idx,
            );
            let after = live::update_ops(
                cells,
                state,
                colors,
                hint,
                redraw,
                changed,
                first,
                duration_ms,
                idx + 1,
            );
            let pause = Op::Wait(effects::live_pause(duration_ms, first.effect));
            &&& idx == 0 ==> before.len() == 0
            &&& idx + 1 < effects::live_ratios(first.effect).len() ==> after == before + step
                + seq![pause]
            &&& idx + 1 == effects::live_ratios(first.effect).len() ==> after == before + step
        }),
{
    let before = live::update_ops(
        cells,
        state,
        colors,
        hint,
        redraw,
        changed,
        first,
        duration_ms,
        idx,
    );
    let step = live::update_step_ops(cells, state, colors, hint, redraw, changed, first, idx);
    let pause = Op::Wait(effects::live_pause(duration_ms, first.effect));
    assert((before + step).push(pause) =~= before + step + seq![pause]);
}

/// Rows that have settled are drawn as they are, each at its own place and below the one before.
pub proof fn law_settled_rows(
    cells: Seq<Seq<Cell>>,
    colors: Option<Seq<Seq<Option<Rgb>>>>,
    r: u16,
)
    requires
        r < cells.len(),
    ensures
        live::settled_ops(cells, colors, 0).len() == 0,
        live::settled_ops(cells, colors, r + 1) == live::settled_ops(cells, colors, r as int)
            + seq![
            Op::MoveTo(0, r),
            Op::Text(draw::stable_row(cells[r as int], r as int, colors)),
        ],
{
}

/// In a reveal with fading colours, a cell comes out of the dark until the end. Where the screen
/// has only the terminal's own colours, it is dim until 92 hundredths of the time instead.
/// Otherwise it is shown as it is. A highlight is its background.
pub proof fn law_cells_of_a_reveal(
    cell: Cell,
    preserve: bool,
    ratio: Number,
    tuning: RevealTuning,
    mark: Option<Rgb>,
)
    ensures
        ({
            let r = render::reveal_cell(cell, preserve, ratio, tuning, mark);
            let on_its_way = tuning.color_fade && single::less(
                ratio,
                Number::Finite(single::unit()),
            );
            &&& on_its_way && !preserve ==> r.fg == effects::faded(
                cell.fg,
                ratio,
                tuning.effect,
                tuning.darken_factor@,
            ) && r.dim == cell.dim
            &&& on_its_way && preserve ==> r.fg == cell.fg && r.dim == single::less(
                ratio,
                single::fraction(92, 100),
            )
            &&& !on_its_way ==> r.fg == cell.fg && r.dim == cell.dim
            &&& mark is Some ==> r.bg == DisplayColor::Rgb(mark->0)
            &&& mark is None ==> r.bg == cell.bg
            &&& r.text == cell.text && r.bold == cell.bold
            &&& r.italic == cell.italic && r.underline == cell.underline
            &&& r.inverse == cell.inverse && r.wide_continuation == cell.wide_continuation
        }),
{
}

/// A screen has only the terminal's own colours where no text and no background is red, green and
/// blue.
pub proof fn law_colors_of_the_terminal(cells: Seq<Seq<Cell>>, r: int, c: int, rgb: Rgb)
    requires
        0 <= r < cells.len(),
        0 <= c < cells[r].len(),
    ensures
        cells[r][c].fg == DisplayColor::Rgb(rgb) ==> !render::terminal_colors(cells),
        cells[r][c].bg == DisplayColor::Rgb(rgb) ==> !render::terminal_colors(cells),
        render::terminal_colors(seq![
            seq![
                Cell { fg: DisplayColor::Default, bg: DisplayColor::Indexed(rgb.0), ..cells[r][c] },
            ],
        ]),
{
}

/// A row of a reveal shows its cells with the effect, as far as there are columns. It ends with a
/// reset, and with a new line unless it is the last row of the terminal.
pub proof fn law_rows_of_a_reveal(
    cells: Seq<Seq<Cell>>,
    colors: Option<Seq<Seq<Option<Rgb>>>>,
    rows: u16,
    cols: u16,
    tuning: RevealTuning,
    frame: usize,
    ratio: Number,
    r: int,
)
    requires
        0 <= r < cells.len(),
    ensures
        ({
            let above = render::reveal_rows(cells, colors, rows, cols, tuning, frame, ratio, r);
            let all = render::reveal_rows(cells, colors, rows, cols, tuning, frame, ratio, r + 1);
            let width = if cells[r].len() < cols {
                cells[r].len() as int
            } else {
                cols as int
            };
            let shown = draw::painted(
                render::reveal_glyphs(
                    cells[r],
                    r,
                    rows as usize,
                    frame,
                    ratio,
                    tuning,
                    render::terminal_colors(cells),
                    colors,
                    width,
                ),
            ) + seq!['\x1b', '[', '0', 'm'];
            &&& render::reveal_rows(cells, colors, rows, cols, tuning, frame, ratio, 0).len() == 0
            &&& r + 1 < rows ==> all == above + shown + seq!['\r', '\n']
            &&& r + 1 >= rows ==> all == above + shown
        }),
{
    reveal_strlit("\x1b[0m");
    reveal_strlit("\r\n");
    assert("\x1b[0m"@ =~= seq!['\x1b', '[', '0', 'm']);
    assert("\r\n"@ =~= seq!['\r', '\n']);
    let above = render::reveal_rows(cells, colors, rows, cols, tuning, frame, ratio, r);
    let all = render::reveal_rows(cells, colors, rows, cols, tuning, frame, ratio, r + 1);
    let width = render::smaller(cells[r].len() as int, cols as int);
    let painted = draw::painted(
        render::reveal_glyphs(
            cells[r],
            r,
            rows as usize,
            frame,
            ratio,
            tuning,
            render::terminal_colors(cells),
            colors,
            width,
        ),
    );
    let reset = seq!['\x1b', '[', '0', 'm'];
    if r + 1 < rows {
        assert(all =~= above + (painted + reset) + seq!['\r', '\n']);
    } else {
        assert(all =~= above + (painted + reset));
    }
}

/// A cell of a reveal shows what the effect makes of its text, in the look that it has then.
pub proof fn law_texts_of_a_reveal(
    row: Seq<Cell>,
    r: usize,
    c: usize,
    total_rows: usize,
    frame: usize,
    ratio: Number,
    tuning: RevealTuning,
    preserve: bool,
    colors: Option<Seq<Seq<Option<Rgb>>>>,
    n: int,
)
    requires
        c < n <= row.len(),
        !row[c as int].wide_continuation,
    ensures
        ({
            let all = render::reveal_glyphs(
                row,
                r as int,
                total_rows,
                frame,
                ratio,
                tuning,
                preserve,
                colors,
                n,
            );
            let before = render::reveal_glyphs(
                row,
                r as int,
                total_rows,
                frame,
                ratio,
                tuning,
                preserve,
                colors,
                c as int,
            );
            let shown = all[before.len() as int];
            &&& before.len() < all.len()
            &&& shown.text == effects::reveal_text(
                row[c as int].text,
                r,
                c,
                total_rows,
                frame,
                ratio,
                tuning.effect,
            )
            &&& shown.style == draw::style_of(
                render::reveal_cell(
                    row[c as int],
                    preserve,
                    ratio,
                    tuning,
                    screen_text::highlight_at(colors, r as int, c as int),
                ),
            )
        }),
{
    lemma_glyphs(
        row,
        |k: int|
            render::reveal_glyph(
                row,
                r as int,
                k,
                total_rows,
                frame,
                ratio,
                tuning,
                preserve,
                colors,
            ),
        0,
        n,
        c as int,
    );
}

/// The time of a frame is its share of the frames after the first, so that the first is at the
/// start. A single frame counts as if there were two.
pub proof fn law_times_of_frames(frame: int, frames: int)
    ensures
        frames >= 2 ==> render::frame_ratio(frame, frames) == single::quotient(
            single::whole(frame),
            single::whole(frames - 1),
        ),
        frames < 2 ==> render::frame_ratio(frame, frames) == single::quotient(
            single::whole(frame),
            single::whole(1),
        ),
{
}

/// A reveal clears the terminal, shows its frames from the top, each for its share of the time,
/// and ends with all of the screen as it is. Then there is nothing more to do.
pub proof fn law_steps_of_a_reveal(
    cells: Seq<Seq<Cell>>,
    colors: Option<Seq<Seq<Option<Rgb>>>>,
    rows: u16,
    cols: u16,
    tuning: RevealTuning,
    frame: usize,
)
    requires
        cells.len() == rows,
        frame < tuning.frames,
    ensures
        ({
            let n = tuning.frames;
            let first = render::reveal_step_ops(cells, colors, rows, cols, tuning, 0);
            let one = render::reveal_step_ops(
                cells,
                colors,
                rows,
                cols,
                tuning,
                (frame + 1) as u128,
            );
            let last = render::reveal_step_ops(cells, colors, rows, cols, tuning, (n + 1) as u128);
            let end = render::reveal_step_ops(cells, colors, rows, cols, tuning, (n + 2) as u128);
            &&& first == Some(seq![Op::ClearAll, Op::MoveTo(0, 0)])
            &&& one == Some(
                seq![
                    Op::MoveTo(0, 0),
                    Op::Text(
                        render::reveal_rows(
                            cells,
                            colors,
                            rows,
                            cols,
                            tuning,
                            frame,
                            render::frame_ratio(frame as int, n as int),
                            rows as int,
                        ),
                    ),
                    Op::Flush,
                    Op::Wait(cli_backend::pause_of(tuning.duration_ms as int, n as int)),
                ],
            )
            &&& last == Some(
                seq![
                    Op::MoveTo(0, 0),
                    Op::Text(render::settled_rows(cells, colors, rows, rows as int)),
                    Op::Flush,
                ],
            )
            &&& end is None
        }),
{
}

/// The end of a reveal shows each row as it is, on a line of its own.
pub proof fn law_end_of_a_reveal(
    cells: Seq<Seq<Cell>>,
    colors: Option<Seq<Seq<Option<Rgb>>>>,
    rows: u16,
    r: int,
)
    requires
        0 <= r < cells.len(),
    ensures
        ({
            let above = render::settled_rows(cells, colors, rows, r);
            let all = render::settled_rows(cells, colors, rows, r + 1);
            let row = draw::stable_row(cells[r], r, colors);
            &&& render::settled_rows(cells, colors, rows, 0).len() == 0
            &&& r + 1 < rows ==> all == above + row + seq!['\r', '\n']
            &&& r + 1 >= rows ==> all == above + row
        }),
{
    reveal_strlit("\r\n");
    assert("\r\n"@ =~= seq!['\r', '\n']);
    let above = render::settled_rows(cells, colors, rows, r);
    let row = draw::stable_row(cells[r], r, colors);
    assert(above + row + Seq::empty() =~= above + row);
}

/// The splash shows the name of the program on a cleared terminal, with the effect, above a line
/// that stays.
pub proof fn law_splash(frame: int, frames: int, duration_ms: int, effect: EffectKind)
    ensures
        ({
            let ops = render::splash_ops(frame, frames, duration_ms, effect);
            let name = seq!['b', 'a', 'e', 'r', 'u'];
            &&& ops.len() == 5
            &&& ops[0] == Op::MoveTo(0, 0)
            &&& ops[1] == Op::ClearAll
            &&& ops[2] == Op::Text(
                effects::coalesced_line(name, render::frame_ratio(frame, frames), effect) + seq![
                    '\r',
                    '\n',
                ] + "making terminal apps glow up...\r\n"@,
            )
            &&& ops[3] == Op::Flush
            &&& ops[4] == Op::Wait(cli_backend::pause_of(duration_ms, frames))
        }),
{
    reveal_strlit("baeru");
    reveal_strlit("\r\n");
    assert("baeru"@ =~= seq!['b', 'a', 'e', 'r', 'u']);
    assert("\r\n"@ =~= seq!['\r', '\n']);
}

/// Colours are replaced after a reveal where that is a feature of the run, unless the theme is to
/// end with the reveal.
pub proof fn law_themes_after_a_reveal(rt: Runtime)
    ensures
        rt.no_theme_after_reveal ==> !session::themed_reveal(rt),
        !rt.no_theme_after_reveal ==> session::themed_reveal(rt) == rt.features@.contains(
            Feature::LiveColor,
        ),
{
}

/// Rules are applied to each row of a screen by itself. Without rules the screen stays as it is.
pub proof fn law_rules_row_by_row(
    cells: Seq<Seq<Cell>>,
    rules: Seq<OutputTransformRule>,
    r: int,
)
    requires
        0 <= r < cells.len(),
    ensures
        session::ruled(cells, rules).len() == cells.len(),
        rules.len() > 0 ==> session::ruled(cells, rules)[r] == screen_text::transformed_row(
            cells[r],
            rules,
        ),
        rules.len() == 0 ==> session::ruled(cells, rules) == cells,
{
}

/// The highlights of a screen are those of its lines, row by row, and its triggers those that its
/// lines set off.
pub proof fn law_highlights_of_a_screen(
    cells: Seq<Seq<Cell>>,
    rules: Seq<HighlightRule>,
    r: int,
)
    requires
        0 <= r < cells.len(),
    ensures
        ({
            let lines = session::lines_of(cells);
            &&& lines.len() == cells.len()
            &&& lines[r] == screen_text::line_of(cells[r])
            &&& session::colors_of(cells, rules).len() == cells.len()
            &&& session::colors_of(cells, rules)[r] == highlight::line_colors(
                lines[r],
                rules,
                rules.len() as int,
            )
            &&& session::triggers_of(cells, rules) == highlight::rule_triggers(
                rules,
                lines,
                rules.len() as int,
            )
        }),
{
}

/// The live screen shows the cells of the emulated terminal in the colours of the theme, after the
/// rules, in the size of the terminal.
pub proof fn law_cells_of_the_live_screen(
    size: (u16, u16),
    input: Seq<Seq<u8>>,
    rt: Runtime,
)
    ensures
        ({
            let plain = screen::shown_screen(size, input, size.0, size.1, Some(rt.theme@));
            &&& rt.output_transforms@.len() == 0 ==> session::live_cells(size, input, rt) == plain
            &&& session::live_cells(size, input, rt) == session::ruled(plain, rt.output_transforms@)
            &&& session::live_cells(size, input, rt).len() == size.0
        }),
{
}

/// The effect of an update is that of the run, but plain where mouse reports are on and the user
/// has just moved the screen.
pub proof fn law_effects_of_updates(rt: Runtime, mouse: bool, recent: bool)
    ensures
        mouse && recent ==> session::update_effect(rt, mouse, recent) == EffectKind::Plain,
        !mouse || !recent ==> session::update_effect(rt, mouse, recent) == rt.effect,
{
}

/// A terminal of another size starts afresh, with nothing drawn and no output, but with the
/// triggers that were seen, the modes that are on and the number of the update. A terminal of the
/// same size, or of one that is not known, goes on.
pub proof fn law_sizes_of_the_live_screen(model: LiveModel, size: (u16, u16))
    ensures
        session::at_size(model, None) == model,
        session::at_size(model, Some(model.size)) == model,
        size != model.size ==> ({
            let r = session::at_size(model, Some(size));
            &&& r.size == size
            &&& r.input.len() == 0
            &&& r.prev is None
            &&& r.seen == model.seen && r.frame == model.frame
            &&& r.pending == model.pending && r.mouse == model.mouse
        }),
        session::resized(model.size, Some(size)) <==> size != model.size,
        !session::resized(model.size, None),
{
}

/// After a chunk the live screen has taken it in, has seen its triggers, remembers what it has
/// drawn, and counts the update.
pub proof fn law_live_screen_remembers(model: LiveModel, rt: Runtime, chunk: Seq<u8>)
    ensures
        ({
            let after = session::model_after(model, rt, chunk);
            let cells = session::live_cells(model.size, model.input.push(chunk), rt);
            let found = session::triggers_of(cells, rt.highlight_rules@);
            let passed = passthrough::fed(model.pending, model.mouse, chunk);
            &&& after.size == model.size
            &&& after.input == model.input.push(chunk)
            &&& after.prev == Some(cells)
            &&& model.frame < usize::MAX ==> after.frame == model.frame + 1
            &&& after.seen == triggers::seen_after(model.seen, found, found.len() as int)
            &&& after.pending == passed.pending && after.mouse == passed.mouse
        }),
{
}

/// What is drawn after a chunk is the update of the places that differ from what was drawn before,
/// without those that scrolling brings, with the scrolling, the highlights, the cursor, the effect
/// and the time of the run.
pub proof fn law_live_screen_is_updated(
    model: LiveModel,
    rt: Runtime,
    chunk: Seq<u8>,
    recent: bool,
)
    ensures
        ({
            let size = model.size;
            let rows = size.0 as int;
            let cols = size.1 as int;
            let input = model.input.push(chunk);
            let cells = session::live_cells(size, input, rt);
            let hint = changes::scroll_of(model.prev, cells, rows, cols);
            let marks = changes::without_scrolled(
                changes::changed_places(model.prev, cells, rows, cols),
                hint,
                rows,
                cols,
            );
            let passed = passthrough::fed(model.pending, model.mouse, chunk);
            let effect = if passed.mouse && recent {
                EffectKind::Plain
            } else {
                rt.effect
            };
            let step = session::run_step(rt, effect, model.frame, cells.len() as int);
            &&& session::ops_after(model, rt, chunk, recent) == live::update_ops(
                cells,
                screen::state_after(size, input, size.0, size.1),
                Some(session::colors_of(cells, rt.highlight_rules@)),
                hint,
                marks,
                marks,
                step,
                rt.live_render_duration_ms as int,
                effects::live_ratios(effect).len() as int,
            )
            &&& step.effect == effect && step.frame == model.frame
            &&& step.color_fade == rt.animation_color_fade
            &&& step.darken_factor == rt.animation_color_darken_factor@
            &&& step.preserve == rt.theme@.transparent()
            &&& step.total_rows == size.0
        }),
{
    let cells = session::live_cells(model.size, model.input.push(chunk), rt);
    assert(cells.len() == model.size.0);
}

} // verus!
