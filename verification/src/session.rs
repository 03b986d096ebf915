//! Sessions with a command on the screen: what is done with each chunk of its output.
use crate::changes;
use crate::changes::{
    apply_scroll_hint, detect_scroll_hint, diff_screen, full_screen_changed, no_screen_changed,
    ScrollHint,
};
use crate::draw;
use crate::draw::{DrawOp, Op};
use crate::emulator;
use crate::emulator::Emulator;
use crate::flash;
use crate::flash::flash_highlight_markers;
use crate::highlight;
use crate::highlight::{evaluate_lines, HighlightEvaluation, HighlightTrigger, TriggerView};
use crate::live;
use crate::live::{
    animate_live_render_update, draw_live_screen, LiveRenderFrame, LiveRenderScene,
    LiveRenderTuning, RedrawMasks, Step,
};
use crate::model::{EffectKind, Feature, FeatureSet, HighlightRule, OutputTransformRule, Rgb, Runtime, Theme};
use crate::passthrough;
use crate::passthrough::{
    contains_alt_screen_enter_sequence, strip_alt_screen_enter_sequences, LivePassthrough,
};
use crate::screen;
use crate::screen::{collect_screen, collect_terminal_state, Cell, StyledCell, TerminalState};
use crate::screen_text;
use crate::screen_text::{apply_transforms_to_cells, screen_lines, screen_to_svg};
use crate::sgr;
use crate::sgr::SgrRewriter;
use crate::single;
use crate::single::{Number, Single};
use crate::theme::{builtin_theme, ThemeView};
use crate::transform;
use crate::triggers;
use crate::triggers::{filter_new_triggers, TriggerState};
use vstd::prelude::*;

verus! {

/// How a command on the screen is run.
#[derive(Debug, Clone, Copy, PartialEq, Eq, Structural)]
pub enum TuiPlan {
    LiveRender,
    Splash,
    Reveal,
    /// Output passes through, recoloured or not, and typed keys are mapped or not.
    Passthrough { themed: bool, mapped: bool },
}

/// How a command on the screen is run: the first of these features that is on decides.
pub fn tui_plan(features: &FeatureSet) -> (r: TuiPlan)
    ensures
        r == (if features@.contains(Feature::LiveRender) {
            TuiPlan::LiveRender
        } else if features@.contains(Feature::Splash) {
            TuiPlan::Splash
        } else if features@.contains(Feature::Reveal) {
            TuiPlan::Reveal
        } else {
            TuiPlan::Passthrough {
                themed: features@.contains(Feature::LiveColor),
                mapped: features@.contains(Feature::Keymap),
            }
        }),
{
    if features.contains(&Feature::LiveRender) {
        TuiPlan::LiveRender
    } else if features.contains(&Feature::Splash) {
        TuiPlan::Splash
    } else if features.contains(&Feature::Reveal) {
        TuiPlan::Reveal
    } else {
        TuiPlan::Passthrough {
            themed: features.contains(&Feature::LiveColor),
            mapped: features.contains(&Feature::Keymap),
        }
    }
}

/// Whether colours are replaced in and after the reveal.
pub open spec fn themed_reveal(rt: Runtime) -> bool {
    !rt.no_theme_after_reveal && rt.features@.contains(Feature::LiveColor)
}

/// Whether colours are replaced in and after the reveal.
pub fn reveals_with_theme(rt: &Runtime) -> (r: bool)
    ensures
        r == themed_reveal(*rt),
{
    !rt.no_theme_after_reveal && rt.features.contains(&Feature::LiveColor)
}

/// What was captured, without the sequences that enter the alternate screen where there are any.
pub fn initial_output(captured: &Vec<u8>) -> (r: Vec<u8>)
    ensures
        r@ == (if passthrough::has_any(captured@, passthrough::alt_screen_enter()) {
            passthrough::without_all(captured@, passthrough::alt_screen_enter(), 3)
        } else {
            captured@
        }),
{
    if contains_alt_screen_enter_sequence(captured.as_slice()) {
        strip_alt_screen_enter_sequences(captured.as_slice())
    } else {
        let r: Vec<u8> = crate::bytes::part(captured.as_slice(), 0, captured.len());
        assert(r@ =~= captured@);
        r
    }
}

/// A screen that was looked at: its cells, the colours of its highlights, its triggers, and its
/// picture.
#[derive(Debug)]
pub struct Observation {
    pub cells: Vec<Vec<StyledCell>>,
    pub colors: Vec<Vec<Option<Rgb>>>,
    pub triggers: Vec<HighlightTrigger>,
    pub picture: String,
}

/// The cells of a screen after some rules.
pub open spec fn ruled(cells: Seq<Seq<Cell>>, rules: Seq<OutputTransformRule>) -> Seq<Seq<Cell>> {
    if rules.len() == 0 {
        cells
    } else {
        cells.map_values(|row: Seq<Cell>| screen_text::transformed_row(row, rules))
    }
}

/// The lines of a screen.
pub open spec fn lines_of(cells: Seq<Seq<Cell>>) -> Seq<Seq<char>> {
    cells.map_values(|row: Seq<Cell>| screen_text::line_of(row))
}

/// The colours of the highlights of a screen.
pub open spec fn colors_of(cells: Seq<Seq<Cell>>, rules: Seq<HighlightRule>) -> Seq<
    Seq<Option<Rgb>>,
> {
    lines_of(cells).map_values(
        |line: Seq<char>| highlight::line_colors(line, rules, rules.len() as int),
    )
}

/// The triggers of a screen.
pub open spec fn triggers_of(cells: Seq<Seq<Cell>>, rules: Seq<HighlightRule>) -> Seq<TriggerView> {
    highlight::rule_triggers(rules, lines_of(cells), rules.len() as int)
}

impl Observation {
    /// Whether this is what is seen on a screen with these cells.
    pub open spec fn shows(self, cells: Seq<Seq<Cell>>, rules: Seq<HighlightRule>) -> bool {
        &&& screen::grid(self.cells@) == cells
        &&& highlight::color_rows(self.colors@) == colors_of(cells, rules)
        &&& highlight::triggers_view(self.triggers@) == triggers_of(cells, rules)
        &&& self.picture@ == screen_text::picture(cells, Some(colors_of(cells, rules)))
    }
}

/// Looks at cells: evaluates the highlights and takes the picture.
pub fn look_at(cells: Vec<Vec<StyledCell>>, rules: &[HighlightRule]) -> (r: Observation)
    ensures
        r.shows(screen::grid(cells@), rules@),
{
    let lines: Vec<String> = screen_lines(cells.as_slice());
    let evaluation: HighlightEvaluation = evaluate_lines(lines.as_slice(), rules);
    let HighlightEvaluation { colors, triggers } = evaluation;
    let picture: String = screen_to_svg(cells.as_slice(), Some(colors.as_slice()));
    let r: Observation = Observation { cells, colors, triggers, picture };
    proof {
        let grid = screen::grid(cells@);
        assert(transform::texts(lines@) == lines_of(grid));
        assert(highlight::color_rows(colors@) =~= colors_of(grid, rules@));
    }
    r
}

/// What is done at the start of a reveal, after the first output was captured.
#[derive(Debug)]
pub struct RevealOpening {
    /// Whether to enter the alternate screen, and to leave it at the end.
    pub alt_screen: bool,
    /// Whether colours are replaced in the reveal and after it.
    pub themed: bool,
    /// The screen to reveal. All of its triggers are acted on.
    pub observation: Observation,
    /// The output to pass through once the screen was revealed.
    pub initial: Vec<u8>,
}

/// Starts a reveal on an emulated terminal that has taken in what was captured.
pub fn start_reveal(rt: &Runtime, screen: &Emulator, captured: &Vec<u8>) -> (r: RevealOpening)
    requires
        themed_reveal(*rt) ==> rt.theme@.usable(),
        screen.well_formed(),
    ensures
        r.alt_screen == passthrough::has_any(captured@, passthrough::alt_screen_enter()),
        r.themed == themed_reveal(*rt),
        ({
            let size = emulator::size_of(*screen);
            let theme = if themed_reveal(*rt) {
                Some(rt.theme@)
            } else {
                None
            };
            let cells = screen::shown_screen(
                size,
                emulator::input_of(*screen),
                size.0,
                size.1,
                theme,
            );
            r.observation.shows(ruled(cells, rt.output_transforms@), rt.highlight_rules@)
        }),
        r.initial@ == (if r.alt_screen {
            passthrough::without_all(captured@, passthrough::alt_screen_enter(), 3)
        } else {
            captured@
        }),
{
    let size: (u16, u16) = screen.size();
    let themed: bool = reveals_with_theme(rt);
    let theme: Option<&Theme> = if themed {
        Some(&rt.theme)
    } else {
        None
    };
    let mut cells: Vec<Vec<StyledCell>> = collect_screen(screen, size.0, size.1, theme);
    apply_transforms_to_cells(&mut cells, rt.output_transforms.as_slice());
    let observation: Observation = look_at(cells, rt.highlight_rules.as_slice());
    RevealOpening {
        alt_screen: contains_alt_screen_enter_sequence(captured.as_slice()),
        themed,
        observation,
        initial: initial_output(captured),
    }
}

/// The cells of the live screen: those of the emulated terminal, recoloured, after the rules.
pub open spec fn live_cells(size: (u16, u16), input: Seq<Seq<u8>>, rt: Runtime) -> Seq<Seq<Cell>> {
    ruled(
        screen::shown_screen(size, input, size.0, size.1, Some(rt.theme@)),
        rt.output_transforms@,
    )
}

proof fn lemma_live_cells_shape(size: (u16, u16), input: Seq<Seq<u8>>, rt: Runtime)
    ensures
        live_cells(size, input, rt).len() == size.0,
        forall|r: int|
            0 <= r < size.0 ==> (#[trigger] live_cells(size, input, rt)[r]).len() == size.1,
{
}

/// What the live screen remembers.
#[verifier::ext_equal]
pub struct LiveModel {
    /// The rows and columns of the terminal.
    pub size: (u16, u16),
    /// The output since the terminal has this size.
    pub input: Seq<Seq<u8>>,
    /// The end of the output that may be the start of a sequence to pass on.
    pub pending: Seq<u8>,
    /// Whether mouse reports are on.
    pub mouse: bool,
    /// The triggers that were seen.
    pub seen: Map<Seq<char>, u64>,
    /// What was drawn last.
    pub prev: Option<Seq<Seq<Cell>>>,
    /// The number of the update.
    pub frame: usize,
}

/// A live screen.
pub struct LiveSession {
    pub emulator: Emulator,
    pub size: (u16, u16),
    pub passthrough: LivePassthrough,
    pub seen: TriggerState,
    pub prev: Option<Vec<Vec<StyledCell>>>,
    pub frame: usize,
}

/// What an earlier screen that may be missing shows.
pub open spec fn optional_screen(cells: Option<Vec<Vec<StyledCell>>>) -> Option<Seq<Seq<Cell>>> {
    match cells {
        Some(inner) => Some(screen::grid(inner@)),
        None => None,
    }
}

impl LiveSession {
    /// What the live screen remembers.
    pub open spec fn model(self) -> LiveModel {
        LiveModel {
            size: self.size,
            input: emulator::input_of(self.emulator),
            pending: self.passthrough.pending@,
            mouse: self.passthrough.mouse_reporting_active,
            seen: self.seen@,
            prev: optional_screen(self.prev),
            frame: self.frame,
        }
    }

    /// The emulated terminal has the size that is remembered.
    pub open spec fn well_formed(self) -> bool {
        self.emulator.well_formed() && emulator::size_of(self.emulator) == self.size
    }
}

/// A step of an effect on the live screen of a run.
pub open spec fn run_step(rt: Runtime, effect: EffectKind, frame: usize, rows: int) -> Step {
    Step {
        effect,
        frame,
        ratio: Number::Finite(single::unit()),
        color_fade: rt.animation_color_fade,
        darken_factor: rt.animation_color_darken_factor@,
        total_rows: rows as usize,
        preserve: rt.theme@.transparent(),
    }
}

/// What is done at the start of a live screen, after its first output was captured.
#[derive(Debug)]
pub struct LiveOpening {
    /// Whether to enter the alternate screen.
    pub alt_screen: bool,
    /// The triggers to act on.
    pub triggers: Vec<HighlightTrigger>,
    /// The picture of the screen.
    pub picture: String,
    /// The colours of the highlights.
    pub colors: Vec<Vec<Option<Rgb>>>,
    /// The sequences to pass on to the terminal, once the screen was revealed.
    pub passed_on: Vec<u8>,
    /// What is drawn then.
    pub ops: Vec<DrawOp>,
}

/// Starts a live screen on an emulated terminal that has taken in what was captured.
pub fn start_live(rt: &Runtime, screen: Emulator, captured: &Vec<u8>) -> (r: (
    LiveSession,
    LiveOpening,
))
    requires
        rt.theme@.usable(),
        screen.well_formed(),
    ensures
        r.0.well_formed(),
        ({
            let size = emulator::size_of(screen);
            let input = emulator::input_of(screen);
            let cells = live_cells(size, input, *rt);
            let colors = colors_of(cells, rt.highlight_rules@);
            let found = triggers_of(cells, rt.highlight_rules@);
            let count = found.len() as int;
            let passed = passthrough::fed(Seq::empty(), false, captured@);
            let state = screen::state_after(size, input, size.0, size.1);
            &&& r.0.model() == (LiveModel {
                size,
                input,
                pending: passed.pending,
                mouse: passed.mouse,
                seen: triggers::seen_after(Map::empty(), found, count),
                prev: Some(cells),
                frame: 0,
            })
            &&& r.1.alt_screen == passthrough::has_any(
                captured@,
                passthrough::alt_screen_enter(),
            )
            &&& highlight::triggers_view(r.1.triggers@) == triggers::fresh(
                Map::empty(),
                found,
                count,
            )
            &&& r.1.picture@ == screen_text::picture(cells, Some(colors))
            &&& highlight::color_rows(r.1.colors@) == colors
            &&& r.1.passed_on@ == passed.out
            &&& draw::ops(r.1.ops@) == live::live_ops(
                cells,
                state,
                Some(colors),
                None,
                changes::uniform(cells, true),
                changes::uniform(cells, false),
                run_step(*rt, EffectKind::Plain, 0, cells.len() as int),
            )
        }),
{
    let size: (u16, u16) = screen.size();
    let ghost input = emulator::input_of(screen);
    let alt_screen: bool = contains_alt_screen_enter_sequence(captured.as_slice());
    let mut cells: Vec<Vec<StyledCell>> = collect_screen(&screen, size.0, size.1, Some(&rt.theme));
    apply_transforms_to_cells(&mut cells, rt.output_transforms.as_slice());
    let ghost view = live_cells(size, input, *rt);
    assert(screen::grid(cells@) == view);
    let state: TerminalState = collect_terminal_state(&screen, size.0, size.1);
    let seen_now: Observation = look_at(cells, rt.highlight_rules.as_slice());
    let Observation { cells, colors, triggers, picture } = seen_now;
    let mut seen: TriggerState = TriggerState::new();
    let fresh: Vec<HighlightTrigger> = filter_new_triggers(&mut seen, triggers);
    let mut passthrough: LivePassthrough = LivePassthrough::new();
    let mut passed_on: Vec<u8> = Vec::new();
    let _ = passthrough.feed(&mut passed_on, captured.as_slice());
    proof {
        let passed = passthrough::fed(Seq::empty(), false, captured@);
        assert(Seq::<u8>::empty() + passed.out =~= passed.out);
    }
    let full: Vec<Vec<bool>> = full_screen_changed(cells.as_slice());
    let none: Vec<Vec<bool>> = no_screen_changed(cells.as_slice());
    let ops: Vec<DrawOp> = draw_live_screen(
        LiveRenderScene {
            cells: cells.as_slice(),
            state: &state,
            highlight_colors: Some(colors.as_slice()),
            theme: &rt.theme,
        },
        LiveRenderTuning {
            duration_ms: rt.live_render_duration_ms,
            color_fade: rt.animation_color_fade,
            darken_factor: rt.animation_color_darken_factor,
        },
        LiveRenderFrame {
            scroll_hint: None,
            effect: EffectKind::Plain,
            frame: 0,
            ratio: Single::one(),
        },
        RedrawMasks { redraw: full.as_slice(), highlight: none.as_slice() },
    );
    let session: LiveSession = LiveSession {
        emulator: screen,
        size,
        passthrough,
        seen,
        prev: Some(cells),
        frame: 0,
    };
    let opening: LiveOpening = LiveOpening {
        alt_screen,
        triggers: fresh,
        picture,
        colors,
        passed_on,
        ops,
    };
    (session, opening)
}

/// What is done about a chunk of output on a live screen.
#[derive(Debug)]
pub struct LiveUpdate {
    /// Whether to clear the terminal first, because its size has changed.
    pub clear: bool,
    /// The sequences to pass on to the terminal.
    pub passed_on: Vec<u8>,
    /// The triggers to act on.
    pub triggers: Vec<HighlightTrigger>,
    /// The picture of the screen.
    pub picture: String,
    /// What is drawn.
    pub ops: Vec<DrawOp>,
}

/// Whether the terminal has another size than before.
pub open spec fn resized(before: (u16, u16), now: Option<(u16, u16)>) -> bool {
    now is Some && now->0 != before
}

/// What a live screen remembers of its terminal when a chunk arrives. A new size starts afresh.
pub open spec fn at_size(model: LiveModel, now: Option<(u16, u16)>) -> LiveModel {
    if resized(model.size, now) {
        LiveModel { size: now->0, input: Seq::empty(), prev: None, ..model }
    } else {
        model
    }
}

/// The cells of the live screen after a chunk.
pub open spec fn cells_after(model: LiveModel, rt: Runtime, chunk: Seq<u8>) -> Seq<Seq<Cell>> {
    live_cells(model.size, model.input.push(chunk), rt)
}

/// What a live screen remembers after a chunk, on a terminal of the same size.
pub open spec fn model_after(model: LiveModel, rt: Runtime, chunk: Seq<u8>) -> LiveModel {
    let cells = cells_after(model, rt, chunk);
    let found = triggers_of(cells, rt.highlight_rules@);
    let passed = passthrough::fed(model.pending, model.mouse, chunk);
    LiveModel {
        size: model.size,
        input: model.input.push(chunk),
        pending: passed.pending,
        mouse: passed.mouse,
        seen: triggers::seen_after(model.seen, found, found.len() as int),
        prev: Some(cells),
        frame: model.frame.wrapping_add(1),
    }
}

/// The effect of an update: none while the mouse is reported and has moved the screen a moment
/// ago.
pub open spec fn update_effect(rt: Runtime, mouse: bool, recent: bool) -> EffectKind {
    if mouse && recent {
        EffectKind::Plain
    } else {
        rt.effect
    }
}

/// What is drawn after a chunk, on a terminal of the same size.
pub open spec fn ops_after(model: LiveModel, rt: Runtime, chunk: Seq<u8>, recent: bool) -> Seq<Op> {
    let cells = cells_after(model, rt, chunk);
    let rows = model.size.0 as int;
    let cols = model.size.1 as int;
    let hint = changes::scroll_of(model.prev, cells, rows, cols);
    let changed = changes::without_scrolled(
        changes::changed_places(model.prev, cells, rows, cols),
        hint,
        rows,
        cols,
    );
    let passed = passthrough::fed(model.pending, model.mouse, chunk);
    let effect = update_effect(rt, passed.mouse, recent);
    live::update_ops(
        cells,
        screen::state_after(model.size, model.input.push(chunk), model.size.0, model.size.1),
        Some(colors_of(cells, rt.highlight_rules@)),
        hint,
        changed,
        changed,
        run_step(rt, effect, model.frame, cells.len() as int),
        rt.live_render_duration_ms as int,
        crate::effects::live_ratios(effect).len() as int,
    )
}

impl LiveSession {
    /// Takes in a chunk of output, and says what to do. `now` is the size of the terminal, as far
    /// as it is known; `recent` says whether the user has moved the screen a moment ago.
    pub fn update(&mut self, rt: &Runtime, chunk: &[u8], now: Option<(u16, u16)>, recent: bool) -> (r:
        LiveUpdate)
        requires
            rt.theme@.usable(),
            old(self).well_formed(),
            resized(old(self).size, now) ==> emulator::emulates((now->0).0, (now->0).1),
        ensures
            final(self).well_formed(),
            r.clear == resized(old(self).size, now),
            ({
                let model = at_size(old(self).model(), now);
                let cells = cells_after(model, *rt, chunk@);
                let found = triggers_of(cells, rt.highlight_rules@);
                &&& final(self).model() == model_after(model, *rt, chunk@)
                &&& r.passed_on@ == passthrough::fed(model.pending, model.mouse, chunk@).out
                &&& highlight::triggers_view(r.triggers@) == triggers::fresh(
                    model.seen,
                    found,
                    found.len() as int,
                )
                &&& r.picture@ == screen_text::picture(
                    cells,
                    Some(colors_of(cells, rt.highlight_rules@)),
                )
                &&& draw::ops(r.ops@) == ops_after(model, *rt, chunk@, recent)
            }),
    {
        let ghost model = at_size(self.model(), now);
        let mut clear: bool = false;
        if let Some(size) = now {
            if size.0 != self.size.0 || size.1 != self.size.1 {
                if let Some(screen) = Emulator::open(size.0, size.1) {
                    self.emulator = screen;
                }
                self.size = size;
                self.prev = None;
                clear = true;
            }
        }
        assert(self.model() =~= model);
        assert(clear == resized(old(self).size, now));
        let rows: u16 = self.size.0;
        let cols: u16 = self.size.1;
        let mut passed_on: Vec<u8> = Vec::new();
        let _ = self.passthrough.feed(&mut passed_on, chunk);
        self.emulator.feed(chunk);
        let mut cells: Vec<Vec<StyledCell>> = collect_screen(
            &self.emulator,
            rows,
            cols,
            Some(&rt.theme),
        );
        apply_transforms_to_cells(&mut cells, rt.output_transforms.as_slice());
        let ghost view = cells_after(model, *rt, chunk@);
        assert(screen::grid(cells@) == view);
        let observed: Observation = look_at(cells, rt.highlight_rules.as_slice());
        let Observation { cells, colors, triggers, picture } = observed;
        let fresh: Vec<HighlightTrigger> = filter_new_triggers(&mut self.seen, triggers);
        let state: TerminalState = collect_terminal_state(&self.emulator, rows, cols);
        let hint: Option<ScrollHint> = detect_scroll_hint(
            self.prev.as_ref(),
            cells.as_slice(),
            rows as usize,
            cols as usize,
        );
        let mut changed: Vec<Vec<bool>> = diff_screen(
            self.prev.as_ref(),
            cells.as_slice(),
            rows as usize,
            cols as usize,
        );
        apply_scroll_hint(&mut changed, hint, rows as usize, cols as usize);
        let effect: EffectKind = if self.passthrough.mouse_reporting_active && recent {
            EffectKind::Plain
        } else {
            rt.effect
        };
        proof {
            lemma_live_cells_shape(model.size, model.input.push(chunk@), *rt);
            lemma_changed_shape(model.prev, view, rows as int, cols as int, hint);
        }
        let ops: Vec<DrawOp> = animate_live_render_update(
            LiveRenderScene {
                cells: cells.as_slice(),
                state: &state,
                highlight_colors: Some(colors.as_slice()),
                theme: &rt.theme,
            },
            LiveRenderFrame {
                scroll_hint: hint,
                effect,
                frame: self.frame,
                ratio: Single::one(),
            },
            LiveRenderTuning {
                duration_ms: rt.live_render_duration_ms,
                color_fade: rt.animation_color_fade,
                darken_factor: rt.animation_color_darken_factor,
            },
            RedrawMasks { redraw: changed.as_slice(), highlight: changed.as_slice() },
        );
        self.prev = Some(cells);
        self.frame = self.frame.wrapping_add(1);
        LiveUpdate { clear, passed_on, triggers: fresh, picture, ops }
    }
}

proof fn lemma_changed_shape(
    prev: Option<Seq<Seq<Cell>>>,
    cells: Seq<Seq<Cell>>,
    rows: int,
    cols: int,
    hint: Option<ScrollHint>,
)
    requires
        0 <= rows,
        0 <= cols,
        cells.len() == rows,
        forall|r: int| 0 <= r < rows ==> (#[trigger] cells[r]).len() == cols,
    ensures
        ({
            let changed = changes::without_scrolled(
                changes::changed_places(prev, cells, rows, cols),
                hint,
                rows,
                cols,
            );
            live::covers(changed, changed, cells)
        }),
{
}

/// What is remembered of output that passes through.
#[verifier::ext_equal]
pub struct PassModel {
    /// The rows and columns of the emulated terminal, if there is one.
    pub size: Option<(u16, u16)>,
    /// The output so far, where there is an emulated terminal.
    pub input: Seq<Seq<u8>>,
    /// The theme, if colours are replaced.
    pub theme: Option<ThemeView>,
    /// The bytes of a colour sequence that is not complete.
    pub pending: Seq<u8>,
    /// The triggers that were seen.
    pub seen: Map<Seq<char>, u64>,
}

/// Output that passes through, recoloured or not, and is watched for highlights.
pub struct PassthroughSession {
    pub emulator: Option<Emulator>,
    pub rewriter: Option<SgrRewriter>,
    pub seen: TriggerState,
}

impl PassthroughSession {
    /// What is remembered.
    pub open spec fn model(self) -> PassModel {
        PassModel {
            size: match self.emulator {
                Some(screen) => Some(emulator::size_of(screen)),
                None => None,
            },
            input: match self.emulator {
                Some(screen) => emulator::input_of(screen),
                None => Seq::empty(),
            },
            theme: match self.rewriter {
                Some(rewriter) => Some(rewriter.theme()),
                None => None,
            },
            pending: match self.rewriter {
                Some(rewriter) => rewriter.pending(),
                None => Seq::empty(),
            },
            seen: self.seen@,
        }
    }

    /// The emulated terminal has a size that can be emulated, and the theme can be used.
    pub open spec fn well_formed(self) -> bool {
        &&& self.emulator is Some ==> self.emulator->0.well_formed()
        &&& self.rewriter is Some ==> self.rewriter->0.theme().usable()
    }
}

/// What the highlights of a screen call for.
#[derive(Debug)]
pub struct Alert {
    /// The triggers to act on.
    pub triggers: Vec<HighlightTrigger>,
    /// The picture of the screen.
    pub picture: String,
    /// The flash of the highlights; nothing where no trigger is new.
    pub ops: Vec<DrawOp>,
}

/// What is done about a chunk of output that passes through.
#[derive(Debug)]
pub struct PassthroughUpdate {
    /// What the highlights call for. Comes before the output.
    pub alert: Option<Alert>,
    /// The output.
    pub out: Vec<u8>,
}

/// The cells of the screen under output that passes through.
pub open spec fn passing_cells(model: PassModel) -> Seq<Seq<Cell>> {
    let size = model.size->0;
    screen::shown_screen(size, model.input, size.0, size.1, model.theme)
}

impl Alert {
    /// Whether this is what a screen calls for, with what was seen before.
    pub open spec fn answers(self, model: PassModel, rules: Seq<HighlightRule>) -> bool {
        let cells = passing_cells(model);
        let size = model.size->0;
        let found = triggers_of(cells, rules);
        let news = triggers::fresh(model.seen, found, found.len() as int);
        let colors = colors_of(cells, rules);
        &&& highlight::triggers_view(self.triggers@) == news
        &&& self.picture@ == screen_text::picture(cells, Some(colors))
        &&& draw::ops(self.ops@) == if news.len() == 0 {
            Seq::empty()
        } else {
            flash::flash_all_ops(
                cells,
                screen::state_after(size, model.input, size.0, size.1),
                Some(colors),
            )
        }
    }
}

/// Looks at the screen under output that passes through, and says what its highlights call for.
fn watch(
    screen: &Emulator,
    theme: Option<&Theme>,
    rules: &[HighlightRule],
    seen: &mut TriggerState,
) -> (r: Alert)
    requires
        screen.well_formed(),
        screen::usable(screen::optional_theme(theme)),
    ensures
        ({
            let model = PassModel {
                size: Some(emulator::size_of(*screen)),
                input: emulator::input_of(*screen),
                theme: screen::optional_theme(theme),
                pending: Seq::empty(),
                seen: old(seen)@,
            };
            let found = triggers_of(passing_cells(model), rules@);
            &&& r.answers(model, rules@)
            &&& final(seen)@ == triggers::seen_after(old(seen)@, found, found.len() as int)
        }),
{
    let size: (u16, u16) = screen.size();
    let cells: Vec<Vec<StyledCell>> = collect_screen(screen, size.0, size.1, theme);
    let observed: Observation = look_at(cells, rules);
    let Observation { cells, colors, triggers, picture } = observed;
    let fresh: Vec<HighlightTrigger> = filter_new_triggers(seen, triggers);
    let state: TerminalState = collect_terminal_state(screen, size.0, size.1);
    let ops: Vec<DrawOp> = if fresh.len() == 0 {
        let none: Vec<DrawOp> = Vec::new();
        assert(draw::ops(none@) =~= Seq::empty());
        none
    } else {
        let plain: Theme = builtin_theme("default");
        flash_highlight_markers(
            LiveRenderScene {
                cells: cells.as_slice(),
                state: &state,
                highlight_colors: Some(colors.as_slice()),
                theme: match theme {
                    Some(inner) => inner,
                    None => &plain,
                },
            },
        )
    };
    assert(highlight::triggers_view(fresh@).len() == fresh@.len());
    Alert { triggers: fresh, picture, ops }
}

impl PassthroughSession {
    /// Output that passes through a terminal. The highlights are watched if the size of the
    /// terminal is known.
    pub fn start(theme: Option<Theme>, size: Option<(u16, u16)>) -> (r: PassthroughSession)
        requires
            theme is Some ==> theme->0@.usable(),
            size is Some ==> emulator::emulates((size->0).0, (size->0).1),
        ensures
            r.well_formed(),
            r.model() == (PassModel {
                size,
                input: Seq::empty(),
                theme: match theme {
                    Some(inner) => Some(inner@),
                    None => None,
                },
                pending: Seq::empty(),
                seen: Map::empty(),
            }),
    {
        let emulator: Option<Emulator> = match size {
            Some(known) => Emulator::open(known.0, known.1),
            None => None,
        };
        let rewriter: Option<SgrRewriter> = match theme {
            Some(inner) => Some(SgrRewriter::new(inner)),
            None => None,
        };
        PassthroughSession { emulator, rewriter, seen: TriggerState::new() }
    }

    /// Takes in a chunk of output, and says what to do. The highlights are looked at after the
    /// chunk, and only where there are rules.
    pub fn update(&mut self, rules: &[HighlightRule], chunk: &[u8]) -> (r: PassthroughUpdate)
        requires
            old(self).well_formed(),
        ensures
            final(self).well_formed(),
            final(self).model().size == old(self).model().size,
            final(self).model().theme == old(self).model().theme,
            final(self).model().input == if old(self).model().size is Some {
                old(self).model().input.push(chunk@)
            } else {
                Seq::empty()
            },
            match old(self).model().theme {
                Some(theme) => (final(self).model().pending, r.out@) == sgr::rewritten(
                    theme,
                    old(self).model().pending,
                    chunk@,
                ),
                None => final(self).model().pending == Seq::<u8>::empty() && r.out@ == chunk@,
            },
            r.alert is Some <==> old(self).model().size is Some && rules@.len() > 0,
            match r.alert {
                Some(alert) => {
                    let model = PassModel {
                        input: final(self).model().input,
                        ..old(self).model()
                    };
                    let found = triggers_of(passing_cells(model), rules@);
                    &&& alert.answers(model, rules@)
                    &&& final(self).model().seen == triggers::seen_after(
                        old(self).model().seen,
                        found,
                        found.len() as int,
                    )
                },
                None => final(self).model().seen == old(self).model().seen,
            },
    {
        let mut alert: Option<Alert> = None;
        if let Some(mut screen) = self.emulator.take() {
            screen.feed(chunk);
            if rules.len() > 0 {
                let theme: Option<&Theme> = match &self.rewriter {
                    Some(rewriter) => Some(rewriter.theme_ref()),
                    None => None,
                };
                alert = Some(watch(&screen, theme, rules, &mut self.seen));
            }
            self.emulator = Some(screen);
        }
        let out: Vec<u8> = if let Some(mut rewriter) = self.rewriter.take() {
            let bytes: Vec<u8> = rewriter.feed(chunk);
            self.rewriter = Some(rewriter);
            bytes
        } else {
            let bytes: Vec<u8> = crate::bytes::part(chunk, 0, chunk.len());
            assert(bytes@ =~= chunk@);
            bytes
        };
        PassthroughUpdate { alert, out }
    }
}

/// After each chunk of output, whatever the effect, the live screen ends up as the screen of the
/// emulated terminal, recoloured and after the rules, with its highlights and its cursor.
pub proof fn law_live_screen_settles(model: LiveModel, rt: Runtime, chunk: Seq<u8>, recent: bool)
    requires
        model.size.1 > 0,
    ensures
        ({
            let cells = cells_after(model, rt, chunk);
            let colors = colors_of(cells, rt.highlight_rules@);
            let all = ops_after(model, rt, chunk, recent);
            let end = live::settled_ops(cells, Some(colors), cells.len() as int)
                + draw::cursor_ops(
                screen::state_after(
                    model.size,
                    model.input.push(chunk),
                    model.size.0,
                    model.size.1,
                ),
            );
            all.len() >= end.len() && all.skip(all.len() - end.len()) == end
        }),
{
    let cells = cells_after(model, rt, chunk);
    let rows = model.size.0 as int;
    let cols = model.size.1 as int;
    let hint = changes::scroll_of(model.prev, cells, rows, cols);
    let changed = changes::without_scrolled(
        changes::changed_places(model.prev, cells, rows, cols),
        hint,
        rows,
        cols,
    );
    let passed = passthrough::fed(model.pending, model.mouse, chunk);
    let effect = update_effect(rt, passed.mouse, recent);
    lemma_live_cells_shape(model.size, model.input.push(chunk), rt);
    assert forall|r: int| 0 <= r < cells.len() implies (#[trigger] cells[r]).len() > 0 by {
        assert(live_cells(model.size, model.input.push(chunk), rt)[r].len() == model.size.1);
    }
    live::law_updates_settle(
        cells,
        screen::state_after(model.size, model.input.push(chunk), model.size.0, model.size.1),
        Some(colors_of(cells, rt.highlight_rules@)),
        hint,
        changed,
        changed,
        run_step(rt, effect, model.frame, cells.len() as int),
        rt.live_render_duration_ms as int,
    );
}

} // verus!
