//! The live screen: what has changed is drawn with an effect.
use crate::changes;
use crate::changes::{full_screen_changed, no_screen_changed, row_has_changes, ScrollHint};
use crate::draw;
use crate::draw::{
    highlighted, push_cursor, push_op, push_ops, write_cell, DrawOp, Glyph, Op, RenderStyle,
};
use crate::effects;
use crate::effects::{
    animated_faded_color, live_render_effect_ratios, live_render_per_frame_ms,
    live_render_text_for_cell, CellAnimCtx,
};
use crate::model::{EffectKind, Rgb, Theme};
use crate::screen;
use crate::screen::{Cell, StyledCell, TerminalState};
use crate::screen_text;
use crate::screen_text::highlight_color;
use crate::single;
use crate::single::{Number, Single};
use crate::text;
use crate::text::is_blank;
use crate::theme::theme_preserves_terminal_colors;
use vstd::prelude::*;

verus! {

/// A screen to draw.
#[derive(Debug, Clone, Copy)]
pub struct LiveRenderScene<'a> {
    pub cells: &'a [Vec<StyledCell>],
    pub state: &'a TerminalState,
    pub highlight_colors: Option<&'a [Vec<Option<Rgb>>]>,
    pub theme: &'a Theme,
}

/// A step of an effect.
#[derive(Debug, Clone, Copy)]
pub struct LiveRenderFrame {
    pub scroll_hint: Option<ScrollHint>,
    pub effect: EffectKind,
    pub frame: usize,
    pub ratio: Single,
}

/// How the live screen is drawn.
#[derive(Debug, Clone, Copy)]
pub struct LiveRenderTuning {
    pub duration_ms: u64,
    pub color_fade: bool,
    pub darken_factor: Single,
}

/// Which rows are drawn, and which cells are drawn with the effect.
#[derive(Debug, Clone, Copy)]
pub struct RedrawMasks<'a> {
    pub redraw: &'a [Vec<bool>],
    pub highlight: &'a [Vec<bool>],
}

/// A step of an effect, on a screen of so many rows, under a theme that keeps the colours of the
/// terminal or not.
pub struct Step {
    pub effect: EffectKind,
    pub frame: usize,
    pub ratio: Number,
    pub color_fade: bool,
    pub darken_factor: Number,
    pub total_rows: usize,
    pub preserve: bool,
}

/// A cell that is drawn with the effect: bold, and with its colour coming out of the dark, unless
/// the colours of the terminal are kept.
pub open spec fn live_cell(cell: Cell, highlight: Option<Rgb>, step: Step) -> Cell {
    let bold = Cell { bold: cell.bold || !step.preserve, ..cell };
    let fading = if step.color_fade && !step.preserve && single::less(
        step.ratio,
        Number::Finite(single::unit()),
    ) {
        Cell {
            fg: effects::faded(cell.fg, step.ratio, step.effect, step.darken_factor),
            ..bold
        }
    } else {
        bold
    };
    draw::with_highlight(fading, highlight)
}

/// A cell and its text: with the effect where it has changed and is not blank, and as it is
/// elsewhere.
pub open spec fn live_glyph(
    row: Seq<Cell>,
    r: int,
    c: int,
    changed: bool,
    colors: Option<Seq<Seq<Option<Rgb>>>>,
    step: Step,
) -> Glyph {
    let cell = row[c];
    let highlight = screen_text::highlight_at(colors, r, c);
    if changed && !text::blank(cell.text) {
        draw::glyph(
            live_cell(cell, highlight, step),
            effects::live_text(
                cell.text,
                r as usize,
                c as usize,
                step.total_rows,
                step.frame,
                step.ratio,
                step.color_fade,
                step.effect,
            ),
        )
    } else {
        draw::glyph(draw::with_highlight(cell, highlight), cell.text)
    }
}

/// The glyphs of the first `n` cells of a row.
pub open spec fn live_glyphs(
    row: Seq<Cell>,
    r: int,
    changed: Seq<bool>,
    colors: Option<Seq<Seq<Option<Rgb>>>>,
    step: Step,
    n: int,
) -> Seq<Glyph> {
    draw::row_glyphs(row, |c: int| live_glyph(row, r, c, changed[c], colors, step), 0, n)
}

/// A row that is drawn anew.
pub open spec fn live_row_ops(
    row: Seq<Cell>,
    r: int,
    changed: Seq<bool>,
    colors: Option<Seq<Seq<Option<Rgb>>>>,
    step: Step,
) -> Seq<Op> {
    seq![
        Op::MoveTo(0, (r as usize) as u16),
        Op::Text(
            draw::painted(live_glyphs(row, r, changed, colors, step, row.len() as int))
                + "\x1b[0m"@,
        ),
    ]
}

/// Those of the first `n` rows that are drawn anew: the rows with a mark.
pub open spec fn live_rows_ops(
    cells: Seq<Seq<Cell>>,
    colors: Option<Seq<Seq<Option<Rgb>>>>,
    redraw: Seq<Seq<bool>>,
    changed: Seq<Seq<bool>>,
    step: Step,
    n: int,
) -> Seq<Op>
    decreases n,
{
    if n <= 0 {
        Seq::empty()
    } else {
        let before = live_rows_ops(cells, colors, redraw, changed, step, n - 1);
        if changes::marked(redraw, n - 1) {
            before + live_row_ops(cells[n - 1], n - 1, changed[n - 1], colors, step)
        } else {
            before
        }
    }
}

/// The terminal scrolls first, where the contents have moved.
pub open spec fn scroll_ops(hint: Option<ScrollHint>) -> Seq<Op> {
    match hint {
        Some(ScrollHint::Up(lines)) => seq![Op::ScrollUp(lines)],
        Some(ScrollHint::Down(lines)) => seq![Op::ScrollDown(lines)],
        None => Seq::empty(),
    }
}

/// A step of an effect on the live screen.
pub open spec fn live_ops(
    cells: Seq<Seq<Cell>>,
    state: TerminalState,
    colors: Option<Seq<Seq<Option<Rgb>>>>,
    hint: Option<ScrollHint>,
    redraw: Seq<Seq<bool>>,
    changed: Seq<Seq<bool>>,
    step: Step,
) -> Seq<Op> {
    scroll_ops(hint) + live_rows_ops(cells, colors, redraw, changed, step, cells.len() as int)
        + draw::cursor_ops(state)
}

/// Whether a mask has a mark or none for each cell that is drawn.
pub open spec fn covers(
    changed: Seq<Seq<bool>>,
    redraw: Seq<Seq<bool>>,
    cells: Seq<Seq<Cell>>,
) -> bool {
    forall|r: int, c: int|
        #![trigger cells[r][c]]
        0 <= r < cells.len() && 0 <= c < cells[r].len() && changes::marked(redraw, r)
            && !cells[r][c].wide_continuation ==> r < changed.len() && c < changed[r].len()
}

spec fn step_of(
    scene: LiveRenderScene<'_>,
    tuning: LiveRenderTuning,
    animation: LiveRenderFrame,
) -> Step {
    Step {
        effect: animation.effect,
        frame: animation.frame,
        ratio: animation.ratio@,
        color_fade: tuning.color_fade,
        darken_factor: tuning.darken_factor@,
        total_rows: scene.cells@.len() as usize,
        preserve: scene.theme@.transparent(),
    }
}

fn live_animated(
    cell: &StyledCell,
    highlight: Option<Rgb>,
    preserve: bool,
    tuning: LiveRenderTuning,
    animation: LiveRenderFrame,
    Ghost(step): Ghost<Step>,
) -> (r: StyledCell)
    requires
        step.effect == animation.effect,
        step.ratio == animation.ratio@,
        step.color_fade == tuning.color_fade,
        step.darken_factor == tuning.darken_factor@,
        step.preserve == preserve,
    ensures
        r@ == live_cell(cell@, highlight, step),
{
    let mut r: StyledCell = highlighted(cell, highlight);
    if !preserve {
        r.bold = true;
        if tuning.color_fade && animation.ratio.is_less(&Single::one()) {
            r.fg = animated_faded_color(
                cell.fg,
                animation.ratio,
                animation.effect,
                tuning.darken_factor,
            );
        }
    }
    r
}

fn draw_row(
    scene: &LiveRenderScene<'_>,
    tuning: LiveRenderTuning,
    animation: LiveRenderFrame,
    masks: &RedrawMasks<'_>,
    r: usize,
    preserve: bool,
) -> (list: Vec<DrawOp>)
    requires
        r < scene.cells@.len(),
        preserve == scene.theme@.transparent(),
        changes::marked(changes::mask(masks.redraw@), r as int),
        covers(
            changes::mask(masks.highlight@),
            changes::mask(masks.redraw@),
            screen::grid(scene.cells@),
        ),
    ensures
        draw::ops(list@) == live_row_ops(
            screen::grid(scene.cells@)[r as int],
            r as int,
            changes::mask(masks.highlight@)[r as int],
            screen_text::optional_colors(scene.highlight_colors),
            step_of(*scene, tuning, animation),
        ),
{
    let ghost grid = screen::grid(scene.cells@);
    let ghost view = screen::row_view(scene.cells@[r as int]@);
    let ghost marks = screen_text::optional_colors(scene.highlight_colors);
    let ghost changed = changes::mask(masks.highlight@)[r as int];
    let ghost step = step_of(*scene, tuning, animation);
    let row: &Vec<StyledCell> = &scene.cells[r];
    let total_rows: usize = scene.cells.len();
    assert(grid[r as int] == view);
    let mut out: String = String::new();
    let mut state: Option<RenderStyle> = None;
    let mut c: usize = 0;
    assert(out@ =~= draw::painted(live_glyphs(view, r as int, changed, marks, step, 0)));
    while c < row.len()
        invariant
            r < scene.cells@.len(),
            row@ == scene.cells@[r as int]@,
            c <= row@.len(),
            total_rows == scene.cells@.len(),
            preserve == scene.theme@.transparent(),
            changes::marked(changes::mask(masks.redraw@), r as int),
            grid == screen::grid(scene.cells@),
            grid[r as int] == view,
            covers(changes::mask(masks.highlight@), changes::mask(masks.redraw@), grid),
            view == screen::row_view(row@),
            marks == screen_text::optional_colors(scene.highlight_colors),
            changed == changes::mask(masks.highlight@)[r as int],
            step == step_of(*scene, tuning, animation),
            state == draw::last_style(
                live_glyphs(view, r as int, changed, marks, step, c as int),
            ),
            out@ == draw::painted(live_glyphs(view, r as int, changed, marks, step, c as int)),
        decreases row@.len() - c,
    {
        assert(view[c as int] == row@[c as int]@);
        assert(grid[r as int][c as int] == row@[c as int]@);
        if !row[c].wide_continuation {
            let ghost before = live_glyphs(view, r as int, changed, marks, step, c as int);
            let ghost next = live_glyph(view, r as int, c as int, changed[c as int], marks, step);
            assert(changed == masks.highlight@[r as int]@);
            let highlight: Option<Rgb> = highlight_color(scene.highlight_colors, r, c);
            if masks.highlight[r][c] && !is_blank(row[c].text.as_str()) {
                let shown: StyledCell = live_animated(
                    &row[c],
                    highlight,
                    preserve,
                    tuning,
                    animation,
                    Ghost(step),
                );
                let text: String = live_render_text_for_cell(
                    &row[c],
                    CellAnimCtx {
                        row: r,
                        col: c,
                        total_rows,
                        frame: animation.frame,
                        ratio: animation.ratio,
                        color_fade: tuning.color_fade,
                        effect: animation.effect,
                    },
                );
                write_cell(&mut out, &shown, text.as_str(), &mut state);
                assert(next == draw::glyph(shown@, text@));
            } else {
                let shown: StyledCell = highlighted(&row[c], highlight);
                write_cell(&mut out, &shown, row[c].text.as_str(), &mut state);
                assert(next == draw::glyph(shown@, row@[c as int].text@));
            }
            proof {
                draw::lemma_painted(before, next);
                assert(live_glyphs(view, r as int, changed, marks, step, c + 1) =~= before.push(
                    next,
                ));
            }
        } else {
            assert(live_glyphs(view, r as int, changed, marks, step, c + 1) =~= live_glyphs(
                view,
                r as int,
                changed,
                marks,
                step,
                c as int,
            ));
        }
        c = c + 1;
    }
    out.append("\x1b[0m");
    let mut list: Vec<DrawOp> = Vec::new();
    assert(draw::ops(list@) =~= Seq::empty());
    push_op(&mut list, DrawOp::MoveTo(0, r as u16));
    push_op(&mut list, DrawOp::Text(out));
    assert(draw::ops(list@) =~= live_row_ops(view, r as int, changed, marks, step));
    list
}

/// A step of an effect on the live screen.
pub fn draw_live_screen(
    scene: LiveRenderScene<'_>,
    tuning: LiveRenderTuning,
    animation: LiveRenderFrame,
    masks: RedrawMasks<'_>,
) -> (list: Vec<DrawOp>)
    requires
        covers(
            changes::mask(masks.highlight@),
            changes::mask(masks.redraw@),
            screen::grid(scene.cells@),
        ),
    ensures
        draw::ops(list@) == live_ops(
            screen::grid(scene.cells@),
            *scene.state,
            screen_text::optional_colors(scene.highlight_colors),
            animation.scroll_hint,
            changes::mask(masks.redraw@),
            changes::mask(masks.highlight@),
            (Step {
                effect: animation.effect,
                frame: animation.frame,
                ratio: animation.ratio@,
                color_fade: tuning.color_fade,
                darken_factor: tuning.darken_factor@,
                total_rows: scene.cells@.len() as usize,
                preserve: scene.theme@.transparent(),
            }),
        ),
{
    let ghost grid = screen::grid(scene.cells@);
    let ghost marks = screen_text::optional_colors(scene.highlight_colors);
    let ghost redraw = changes::mask(masks.redraw@);
    let ghost changed = changes::mask(masks.highlight@);
    let ghost step = step_of(scene, tuning, animation);
    let preserve: bool = theme_preserves_terminal_colors(Some(scene.theme));
    let mut list: Vec<DrawOp> = Vec::new();
    match animation.scroll_hint {
        Some(ScrollHint::Up(lines)) => {
            push_op(&mut list, DrawOp::ScrollUp(lines));
        },
        Some(ScrollHint::Down(lines)) => {
            push_op(&mut list, DrawOp::ScrollDown(lines));
        },
        None => {},
    }
    let ghost start = scroll_ops(animation.scroll_hint);
    assert(draw::ops(list@) =~= start);
    let mut r: usize = 0;
    assert(start + live_rows_ops(grid, marks, redraw, changed, step, 0) =~= start);
    while r < scene.cells.len()
        invariant
            r <= scene.cells@.len(),
            grid == screen::grid(scene.cells@),
            marks == screen_text::optional_colors(scene.highlight_colors),
            redraw == changes::mask(masks.redraw@),
            changed == changes::mask(masks.highlight@),
            step == step_of(scene, tuning, animation),
            preserve == scene.theme@.transparent(),
            covers(changed, redraw, grid),
            draw::ops(list@) == start + live_rows_ops(
                grid,
                marks,
                redraw,
                changed,
                step,
                r as int,
            ),
        decreases scene.cells@.len() - r,
    {
        let ghost before = draw::ops(list@);
        if row_has_changes(masks.redraw, r) {
            let more: Vec<DrawOp> = draw_row(&scene, tuning, animation, &masks, r, preserve);
            push_ops(&mut list, more);
        }
        r = r + 1;
        assert(draw::ops(list@) =~= start + live_rows_ops(
            grid,
            marks,
            redraw,
            changed,
            step,
            r as int,
        ));
    }
    push_cursor(&mut list, scene.state);
    list
}

/// Step `idx` of the effect of an update. The last step draws the whole screen as it is.
pub open spec fn update_step_ops(
    cells: Seq<Seq<Cell>>,
    state: TerminalState,
    colors: Option<Seq<Seq<Option<Rgb>>>>,
    hint: Option<ScrollHint>,
    redraw: Seq<Seq<bool>>,
    changed: Seq<Seq<bool>>,
    first: Step,
    idx: int,
) -> Seq<Op> {
    let ratios = effects::live_ratios(first.effect);
    let last = idx + 1 == ratios.len();
    live_ops(
        cells,
        state,
        colors,
        if idx == 0 {
            hint
        } else {
            None
        },
        if last {
            changes::uniform(cells, true)
        } else {
            redraw
        },
        if last {
            changes::uniform(cells, false)
        } else {
            changed
        },
        (Step {
            frame: first.frame.wrapping_add(idx as usize),
            ratio: ratios[idx],
            ..first
        }),
    )
}

/// The first `n` steps of the effect of an update, with the pauses between them.
pub open spec fn update_ops(
    cells: Seq<Seq<Cell>>,
    state: TerminalState,
    colors: Option<Seq<Seq<Option<Rgb>>>>,
    hint: Option<ScrollHint>,
    redraw: Seq<Seq<bool>>,
    changed: Seq<Seq<bool>>,
    first: Step,
    duration_ms: int,
    n: int,
) -> Seq<Op>
    decreases n,
{
    if n <= 0 {
        Seq::empty()
    } else {
        let before = update_ops(
            cells,
            state,
            colors,
            hint,
            redraw,
            changed,
            first,
            duration_ms,
            n - 1,
        );
        let now = before + update_step_ops(
            cells,
            state,
            colors,
            hint,
            redraw,
            changed,
            first,
            n - 1,
        );
        if n < effects::live_ratios(first.effect).len() {
            now.push(Op::Wait(effects::live_pause(duration_ms, first.effect)))
        } else {
            now
        }
    }
}

/// An update of the live screen, with its effect.
pub fn animate_live_render_update(
    scene: LiveRenderScene<'_>,
    base_frame: LiveRenderFrame,
    tuning: LiveRenderTuning,
    masks: RedrawMasks<'_>,
) -> (list: Vec<DrawOp>)
    requires
        covers(
            changes::mask(masks.highlight@),
            changes::mask(masks.redraw@),
            screen::grid(scene.cells@),
        ),
    ensures
        draw::ops(list@) == update_ops(
            screen::grid(scene.cells@),
            *scene.state,
            screen_text::optional_colors(scene.highlight_colors),
            base_frame.scroll_hint,
            changes::mask(masks.redraw@),
            changes::mask(masks.highlight@),
            (Step {
                effect: base_frame.effect,
                frame: base_frame.frame,
                ratio: base_frame.ratio@,
                color_fade: tuning.color_fade,
                darken_factor: tuning.darken_factor@,
                total_rows: scene.cells@.len() as usize,
                preserve: scene.theme@.transparent(),
            }),
            tuning.duration_ms as int,
            effects::live_ratios(base_frame.effect).len() as int,
        ),
{
    let ghost grid = screen::grid(scene.cells@);
    let ghost marks = screen_text::optional_colors(scene.highlight_colors);
    let ghost redraw = changes::mask(masks.redraw@);
    let ghost changed = changes::mask(masks.highlight@);
    let ghost first = step_of(scene, tuning, base_frame);
    let ghost state = *scene.state;
    let ratios: Vec<Single> = live_render_effect_ratios(base_frame.effect);
    let ghost all = effects::live_ratios(base_frame.effect);
    assert(ratios@.map_values(|ratio: Single| ratio@) == all);
    let pause: u64 = live_render_per_frame_ms(tuning.duration_ms, base_frame.effect);
    let full: Vec<Vec<bool>> = full_screen_changed(scene.cells);
    let none: Vec<Vec<bool>> = no_screen_changed(scene.cells);
    proof {
        assert(covers(changes::mask(none@), changes::mask(full@), grid)) by {
            assert forall|r: int, c: int|
                #![trigger grid[r][c]]
                0 <= r < grid.len() && 0 <= c < grid[r].len() && changes::marked(
                    changes::mask(full@),
                    r,
                ) && !grid[r][c].wide_continuation implies r < changes::mask(none@).len() && c
                < changes::mask(none@)[r].len() by {}
        }
    }
    let mut list: Vec<DrawOp> = Vec::new();
    let mut idx: usize = 0;
    assert(draw::ops(list@) =~= update_ops(
        grid,
        state,
        marks,
        base_frame.scroll_hint,
        redraw,
        changed,
        first,
        tuning.duration_ms as int,
        0,
    ));
    while idx < ratios.len()
        invariant
            idx <= ratios@.len(),
            grid == screen::grid(scene.cells@),
            marks == screen_text::optional_colors(scene.highlight_colors),
            redraw == changes::mask(masks.redraw@),
            changed == changes::mask(masks.highlight@),
            first == step_of(scene, tuning, base_frame),
            state == *scene.state,
            all == effects::live_ratios(base_frame.effect),
            ratios@.map_values(|ratio: Single| ratio@) == all,
            pause == effects::live_pause(tuning.duration_ms as int, base_frame.effect),
            changes::mask(full@) == changes::uniform(grid, true),
            changes::mask(none@) == changes::uniform(grid, false),
            covers(changed, redraw, grid),
            covers(changes::mask(none@), changes::mask(full@), grid),
            draw::ops(list@) == update_ops(
                grid,
                state,
                marks,
                base_frame.scroll_hint,
                redraw,
                changed,
                first,
                tuning.duration_ms as int,
                idx as int,
            ),
        decreases ratios@.len() - idx,
    {
        assert(all[idx as int] == ratios@[idx as int]@);
        let ghost before = draw::ops(list@);
        let last: bool = idx == ratios.len() - 1;
        let animation: LiveRenderFrame = LiveRenderFrame {
            scroll_hint: if idx == 0 {
                base_frame.scroll_hint
            } else {
                None
            },
            effect: base_frame.effect,
            frame: base_frame.frame.wrapping_add(idx),
            ratio: ratios[idx],
        };
        let more: Vec<DrawOp> = if last {
            draw_live_screen(
                scene,
                tuning,
                animation,
                RedrawMasks { redraw: full.as_slice(), highlight: none.as_slice() },
            )
        } else {
            draw_live_screen(scene, tuning, animation, masks)
        };
        push_ops(&mut list, more);
        let ghost now = draw::ops(list@);
        assert(now == before + update_step_ops(
            grid,
            state,
            marks,
            base_frame.scroll_hint,
            redraw,
            changed,
            first,
            idx as int,
        ));
        if !last {
            push_op(&mut list, DrawOp::Wait(pause));
        }
        idx = idx + 1;
    }
    list
}

/// The first `n` rows of a screen as they are, with their highlights.
pub open spec fn settled_ops(
    cells: Seq<Seq<Cell>>,
    colors: Option<Seq<Seq<Option<Rgb>>>>,
    n: int,
) -> Seq<Op>
    decreases n,
{
    if n <= 0 {
        Seq::empty()
    } else {
        settled_ops(cells, colors, n - 1) + seq![
            Op::MoveTo(0, ((n - 1) as usize) as u16),
            Op::Text(draw::stable_row(cells[n - 1], n - 1, colors)),
        ]
    }
}

proof fn lemma_unchanged_glyphs(
    row: Seq<Cell>,
    r: int,
    changed: Seq<bool>,
    colors: Option<Seq<Seq<Option<Rgb>>>>,
    step: Step,
    n: int,
)
    requires
        n <= row.len(),
        forall|c: int| 0 <= c < row.len() ==> !#[trigger] changed[c],
    ensures
        live_glyphs(row, r, changed, colors, step, n) == draw::stable_glyphs(row, r, colors, n),
    decreases n,
{
    if n > 0 {
        lemma_unchanged_glyphs(row, r, changed, colors, step, n - 1);
        assert(!changed[n - 1]);
    }
}

proof fn lemma_unchanged_rows(
    cells: Seq<Seq<Cell>>,
    colors: Option<Seq<Seq<Option<Rgb>>>>,
    step: Step,
    n: int,
)
    requires
        n <= cells.len(),
        forall|r: int| 0 <= r < cells.len() ==> (#[trigger] cells[r]).len() > 0,
    ensures
        live_rows_ops(
            cells,
            colors,
            changes::uniform(cells, true),
            changes::uniform(cells, false),
            step,
            n,
        ) == settled_ops(cells, colors, n),
    decreases n,
{
    if n > 0 {
        lemma_unchanged_rows(cells, colors, step, n - 1);
        let full = changes::uniform(cells, true);
        let none = changes::uniform(cells, false);
        let row = cells[n - 1];
        assert(row.len() > 0);
        assert(full[n - 1][0]);
        assert(changes::marked(full, n - 1));
        lemma_unchanged_glyphs(row, n - 1, none[n - 1], colors, step, row.len() as int);
    }
}

/// However an update is animated, it ends with all rows drawn as they are, and the cursor put in
/// its place. A row without cells is not drawn at all.
pub proof fn law_updates_settle(
    cells: Seq<Seq<Cell>>,
    state: TerminalState,
    colors: Option<Seq<Seq<Option<Rgb>>>>,
    hint: Option<ScrollHint>,
    redraw: Seq<Seq<bool>>,
    changed: Seq<Seq<bool>>,
    first: Step,
    duration_ms: int,
)
    requires
        forall|r: int| 0 <= r < cells.len() ==> (#[trigger] cells[r]).len() > 0,
    ensures
        ({
            let count = effects::live_ratios(first.effect).len() as int;
            let all = update_ops(
                cells,
                state,
                colors,
                hint,
                redraw,
                changed,
                first,
                duration_ms,
                count,
            );
            let end = settled_ops(cells, colors, cells.len() as int) + draw::cursor_ops(state);
            all.len() >= end.len() && all.skip(all.len() - end.len()) == end
        }),
{
    let count = effects::live_ratios(first.effect).len() as int;
    let before = update_ops(
        cells,
        state,
        colors,
        hint,
        redraw,
        changed,
        first,
        duration_ms,
        count - 1,
    );
    let all = update_ops(cells, state, colors, hint, redraw, changed, first, duration_ms, count);
    let end = settled_ops(cells, colors, cells.len() as int) + draw::cursor_ops(state);
    let step = Step {
        frame: first.frame.wrapping_add((count - 1) as usize),
        ratio: effects::live_ratios(first.effect)[count - 1],
        ..first
    };
    lemma_unchanged_rows(cells, colors, step, cells.len() as int);
    let scroll = scroll_ops(
        if count == 1 {
            hint
        } else {
            None
        },
    );
    assert(all == before + (scroll + settled_ops(cells, colors, cells.len() as int)
        + draw::cursor_ops(state)));
    assert(all =~= (before + scroll) + end);
    assert(all.skip(all.len() - end.len()) =~= end);
}

} // verus!
