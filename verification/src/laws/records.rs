//! What is read out of the records that the library works on, and what sessions do with them.
use crate::changes;
use crate::config;
use crate::config::{ConfigError, ConfigFault, ConfigPlace, Surroundings};
use crate::draw;
use crate::draw::DrawOp;
use crate::emulator;
use crate::emulator::VtCell;
use crate::flash;
use crate::flash::HighlightSpan;
use crate::highlight;
use crate::highlight::HighlightTrigger;
use crate::keymap;
use crate::laws::wishes;
use crate::model::{HighlightRule, OutputTransformRule, Rgb, Runtime, Theme};
use crate::rules;
use crate::rules::{HighlightWish, RuleError, RuleFault, TransformWish};
use crate::screen;
use crate::screen::StyledCell;
use crate::screen_text;
use crate::session;
use crate::session::{Alert, LiveSession, Observation, PassModel};
use crate::settings::{Cli, Profile};
use crate::theme::ThemeView;
use crate::transform;
use crate::triggers;
use crate::triggers::{ValueView, VariableValue};
use regex::Regex;
use vstd::prelude::*;

verus! {

/// What a theme says is what is written in it.
pub proof fn law_themes_say_what_they_hold(theme: Theme, i: int, idx: u8)
    ensures
        wishes::same_text(theme@.name, theme.name),
        wishes::same_text(theme@.default_fg, theme.default_fg),
        wishes::same_text(theme@.default_bg, theme.default_bg),
        theme@.force_default == theme.force_default,
        theme@.foreground.len() == theme.foreground@.len(),
        theme@.background.len() == theme.background@.len(),
        0 <= i < theme.foreground@.len() ==> theme@.foreground[i].at == theme.foreground@[i].at@
            && theme@.foreground[i].color == theme.foreground@[i].color@,
        0 <= i < theme.background@.len() ==> theme@.background[i].at == theme.background@[i].at@
            && theme@.background[i].color == theme.background@[i].color@,
        theme@.palette.contains_key(idx) == theme.palette_map@.contains_key(idx),
        theme@.palette.contains_key(idx) ==> theme@.palette[idx] == theme.palette_map@[idx]@,
        theme@.background_palette.contains_key(idx) == theme.background_palette_map@.contains_key(
            idx,
        ),
        theme@.background_palette.contains_key(idx) ==> theme@.background_palette[idx]
            == theme.background_palette_map@[idx]@,
{
}

/// The cells of a screen are those of its rows, in their order.
pub proof fn law_screens_hold_their_cells(cells: Seq<Vec<StyledCell>>, row: int, col: int)
    requires
        0 <= row < cells.len(),
        0 <= col < cells[row]@.len(),
    ensures
        screen::grid(cells).len() == cells.len(),
        screen::grid(cells)[row].len() == cells[row]@.len(),
        screen::grid(cells)[row][col] == cells[row]@[col]@,
        screen::row_view(cells[row]@)[col] == cells[row]@[col]@,
{
}

/// Marks and colours are those of their rows, in their order, and so are operations.
pub proof fn law_rows_hold_their_marks(
    marks: Seq<Vec<bool>>,
    colors: Seq<Vec<Option<Rgb>>>,
    list: Seq<DrawOp>,
    i: int,
)
    ensures
        changes::mask(marks).len() == marks.len(),
        0 <= i < marks.len() ==> changes::mask(marks)[i] == marks[i]@,
        highlight::color_rows(colors).len() == colors.len(),
        0 <= i < colors.len() ==> highlight::color_rows(colors)[i] == colors[i]@,
        draw::ops(list).len() == list.len(),
        0 <= i < list.len() ==> draw::ops(list)[i] == list[i]@,
{
}

/// A cell of the emulated terminal shows what is written in it.
pub proof fn law_emulated_cells(cell: VtCell)
    ensures
        cell@.text == cell.text@,
        cell@.fg == cell.fg && cell@.bg == cell.bg,
        cell@.bold == cell.bold && cell@.dim == cell.dim,
        cell@.italic == cell.italic && cell@.underline == cell.underline,
        cell@.inverse == cell.inverse && cell@.wide_continuation == cell.wide_continuation,
        emulator::optional_cell(Some(cell)) == Some(cell@),
        emulator::optional_cell(None) is None,
{
}

/// A terminal that can be emulated has at least two rows and three columns. More rows do not
/// matter, and neither do more columns, but for the widest eight.
pub proof fn law_emulated_sizes(rows: u16, cols: u16)
    ensures
        emulator::emulates(rows, cols) ==> rows >= 2 && cols >= 3 && cols + 8 <= 65535,
        rows >= 2 && cols >= 3 && cols + 8 <= 65535 ==> emulator::emulates(rows, cols),
{
}

/// A trigger says what is written in it.
pub proof fn law_triggers_say_what_they_hold(trigger: HighlightTrigger)
    ensures
        trigger@.key == trigger.key@,
        trigger@.pattern == trigger.pattern@,
        wishes::same_words(trigger@.matched_texts, trigger.matched_texts@),
        trigger@.command is Some <==> trigger.command is Some,
        trigger.command is Some ==> wishes::same_words(trigger@.command->0, trigger.command->0@),
        trigger@.capture_cli_text == trigger.capture_cli_text,
        trigger@.capture_tui_screenshot == trigger.capture_tui_screenshot,
        wishes::same_text(trigger@.output_dir, trigger.output_dir),
        wishes::same_text(trigger@.output_prefix, trigger.output_prefix),
        trigger@.fingerprint == trigger.fingerprint,
{
}

/// Lists of triggers, of variables and of pairs of keys are read in their order.
pub proof fn law_lists_are_read_in_order(
    found: Seq<HighlightTrigger>,
    values: Seq<(String, VariableValue)>,
    pairs: Seq<(String, String)>,
    words: Seq<String>,
    i: int,
)
    ensures
        highlight::triggers_view(found).len() == found.len(),
        0 <= i < found.len() ==> highlight::triggers_view(found)[i] == found[i]@,
        triggers::variables_view(values).len() == values.len(),
        0 <= i < values.len() ==> triggers::variables_view(values)[i].0 == values[i].0@,
        0 <= i < values.len() ==> triggers::variables_view(values)[i].1 == values[i].1@,
        keymap::pairs_view(pairs).len() == pairs.len(),
        0 <= i < pairs.len() ==> keymap::pairs_view(pairs)[i].0 == pairs[i].0@,
        0 <= i < pairs.len() ==> keymap::pairs_view(pairs)[i].1 == pairs[i].1@,
        transform::texts(words).len() == words.len(),
        0 <= i < words.len() ==> transform::texts(words)[i] == words[i]@,
{
}

/// The value of a variable is a text, or stands for one of the two paths.
pub proof fn law_values_of_variables(text: String)
    ensures
        VariableValue::Text(text)@ == ValueView::Text(text@),
        VariableValue::ManifestPath@ == ValueView::ManifestPath,
        VariableValue::CapturePath@ == ValueView::CapturePath,
{
}

/// A run of highlighted columns is what is written in it.
pub proof fn law_runs_say_what_they_hold(span: HighlightSpan, spans: Seq<HighlightSpan>, i: int)
    ensures
        span@.row == span.row && span@.start == span.start && span@.end == span.end,
        span.left_marker is None <==> span@.left_marker is None,
        span.right_marker is None <==> span@.right_marker is None,
        span.left_marker is Some ==> span@.left_marker->0 == span.left_marker->0,
        span.right_marker is Some ==> span@.right_marker->0 == span.right_marker->0,
        flash::spans_view(spans).len() == spans.len(),
        0 <= i < spans.len() ==> flash::spans_view(spans)[i] == spans[i]@,
{
}

/// What is asked of a rule is what is written in the wish.
pub proof fn law_wishes_say_what_they_hold(wish: HighlightWish, other: TransformWish)
    ensures
        wish@.key == wish.key@ && wish@.pattern == wish.pattern@,
        wish.color is Ok ==> wish@.color == Ok::<Rgb, Seq<char>>(wish.color->Ok_0),
        wish.color is Err ==> wish@.color == Err::<Rgb, Seq<char>>(wish.color->Err_0.raw@),
        wish@.capture_tui_screenshot == wish.capture_tui_screenshot,
        wish@.capture_cli_text == wish.capture_cli_text,
        wishes::same_text(wish@.output_dir, wish.output_dir),
        wishes::same_text(wish@.output_prefix, wish.output_prefix),
        other@.pattern == other.pattern@ && other@.masks == other.masks,
        other.kind is Err ==> other@.kind == Err::<rules::KindView, RuleFault>(
            other.kind->Err_0@,
        ),
        other.kind is Ok ==> other@.kind == Ok::<rules::KindView, RuleFault>(
            rules::kind_view(other.kind->Ok_0),
        ),
{
}

/// The patterns of rules are compiled in the order of the rules.
pub proof fn law_patterns_of_rules(
    wished: Seq<rules::RuleView>,
    others: Seq<rules::TransformView>,
    i: int,
)
    ensures
        rules::rule_patterns(wished).len() == wished.len(),
        0 <= i < wished.len() ==> rules::rule_patterns(wished)[i] == wished[i].pattern,
        rules::transform_patterns(others).len() == others.len(),
        0 <= i < others.len() ==> rules::transform_patterns(others)[i] == others[i].pattern,
{
}

/// An error about a rule says what is wrong, with the pattern or the colour that it is about and
/// with the reason that was given.
pub proof fn law_errors_about_rules(pattern: String, reason: regex::Error, error: RuleError)
    ensures
        (RuleError::HighlightRegex { pattern, reason })@ == RuleFault::HighlightRegex(
            pattern@,
            reason,
        ),
        (RuleError::ReplaceRegex { pattern, reason })@ == RuleFault::ReplaceRegex(pattern@, reason),
        (RuleError::MaskRegex { pattern, reason })@ == RuleFault::MaskRegex(pattern@, reason),
        error == RuleError::ReplacePairs ==> error@ == RuleFault::ReplacePairs,
        error == RuleError::EmptyMaskChar ==> error@ == RuleFault::EmptyMaskChar,
        error == RuleError::LongMaskChar ==> error@ == RuleFault::LongMaskChar,
        ConfigError::Highlight(error)@ == ConfigFault::Highlight(error@),
        ConfigError::Transform(error)@ == ConfigFault::Transform(error@),
        ConfigError::CommandRequired@ == ConfigFault::CommandRequired,
{
}

/// A place for the config file is a directory and the names to go through, as they are written.
pub proof fn law_places_say_what_they_hold(list: Seq<ConfigPlace>, i: int)
    requires
        0 <= i < list.len(),
    ensures
        config::places_view(list).len() == list.len(),
        config::places_view(list)[i].base == list[i].base,
        wishes::same_words(config::places_view(list)[i].parts, list[i].parts@),
{
}

/// Slashes and single dots at the end of a path do not change its last component. A path that ends
/// in two dots has none, and neither has one without any component.
pub proof fn law_last_components(path: Seq<char>)
    ensures
        config::last_component(path.push('/')) == config::last_component(path),
        config::last_component(path.push('/').push('.')) == config::last_component(path),
        config::last_component(path.push('/').push('.').push('.')) is None,
        config::last_component(Seq::empty()) is None,
        config::last_component(seq!['.']) is None,
        config::last_component(seq!['.', '.']) is None,
{
    let a = path.push('/');
    let b = a.push('.');
    let c = b.push('.');
    assert(a.drop_last() =~= path);
    assert(b.drop_last() =~= a);
    let n = path.len() as int;
    assert(config::last_start(b, n + 1) == n + 1);
    assert(config::last_start(b, n + 2) == n + 1);
    assert(config::last_part(b) =~= seq!['.']);
    assert(config::last_start(c, n + 1) == n + 1);
    assert(config::last_start(c, n + 2) == n + 1);
    assert(config::last_start(c, n + 3) == n + 1);
    assert(config::last_part(c) =~= seq!['.', '.']);
    assert(c.last() == '.');
    assert(seq!['.', '.'].len() == 2 && seq!['.'].len() == 1);
    let one = seq!['.'];
    assert(config::last_start(one, 0) == 0);
    assert(config::last_start(one, 1) == 0);
    assert(config::last_part(one) =~= one);
    let two = seq!['.', '.'];
    assert(config::last_start(two, 0) == 0);
    assert(config::last_start(two, 1) == 0);
    assert(config::last_start(two, 2) == 0);
    assert(config::last_part(two) =~= two);
}

/// A command goes by the last component of its path, or by its text where there is none.
pub proof fn law_names_of_commands(text: Seq<char>, name: Seq<char>)
    ensures
        config::last_component(text) is Some ==> config::name_of(text) == config::last_component(
            text,
        )->0,
        config::last_component(text) is None ==> config::name_of(text) == text,
        config::ordinary_path(text) ==> (config::can_be_named(text, name) <==> name
            == config::name_of(text)),
        !text.contains('\\') && !text.contains(':') && !text.contains('/')
            ==> config::ordinary_path(text),
        config::ordinary_path(text) ==> !text.contains('\\') && !text.contains(':'),
{
}

/// A run is set up where nothing is wrong, with the rules that were made for it, and refused with
/// what is wrong otherwise.
pub proof fn law_runs_are_assembled(
    r: Result<Runtime, ConfigError>,
    cli: Cli,
    profile: Profile,
    around: Surroundings,
    loaded: Option<ThemeView>,
    file: Seq<(Seq<char>, Seq<char>)>,
    highlight: Result<Vec<HighlightRule>, RuleError>,
    transform: Result<Vec<OutputTransformRule>, RuleError>,
)
    requires
        config::assembled(r, cli, profile, around, loaded, file, highlight, transform),
    ensures
        ({
            let fault = config::setup_fault(cli, profile, around, file, highlight, transform);
            &&& r is Ok <==> fault is None
            &&& r is Err ==> fault == Some(r->Err_0@)
            &&& r is Ok ==> config::set_up(r->Ok_0, cli, profile, around, loaded, file)
            &&& r is Ok ==> highlight == Ok::<Vec<HighlightRule>, RuleError>(
                r->Ok_0.highlight_rules,
            )
            &&& r is Ok ==> transform == Ok::<Vec<OutputTransformRule>, RuleError>(
                r->Ok_0.output_transforms,
            )
        }),
{
}

/// The rules of a run are as many as are asked for, in the order in which they are asked for. Rules
/// that replace or mask are refused for their arguments before a pattern is looked at.
pub proof fn law_rules_of_a_run(
    cli: Cli,
    profile: Profile,
    highlight: Result<Vec<HighlightRule>, RuleError>,
    transform: Result<Vec<OutputTransformRule>, RuleError>,
    i: int,
)
    requires
        config::highlight_can_be(highlight, cli, profile),
        config::transform_can_be(transform, cli, profile),
    ensures
        ({
            let wished = config::run_rules(cli, profile);
            let others = config::run_transforms(cli, profile);
            let fault = rules::arguments_fault(cli.transform.replace@, cli.transform.mask_char@);
            &&& highlight is Ok ==> highlight->Ok_0@.len() == wished.len()
            &&& highlight is Ok && 0 <= i < wished.len() ==> highlight->Ok_0@[i].pattern@
                == wished[i].pattern && crate::matching::source(highlight->Ok_0@[i].regex)
                == wished[i].pattern && wished[i].color == Ok::<Rgb, Seq<char>>(
                highlight->Ok_0@[i].color,
            )
            &&& fault is Some ==> transform is Err && Some(transform->Err_0@) == fault
            &&& transform is Ok ==> fault is None && transform->Ok_0@.len() == others.len()
            &&& transform is Ok && 0 <= i < others.len() ==> crate::matching::source(
                transform->Ok_0@[i].regex,
            ) == others[i].pattern && others[i].kind == Ok::<rules::KindView, RuleFault>(
                rules::kind_view(transform->Ok_0@[i].kind),
            )
        }),
{
    let wished = config::run_rules(cli, profile);
    let compiled = choose|compiled: Seq<Result<Regex, regex::Error>>|
        rules::fits(compiled, rules::rule_patterns(wished)) && #[trigger] rules::rules_answer(
            highlight,
            wished,
            compiled,
        );
    if highlight is Ok {
        wishes::law_highlights_are_compiled(highlight, wished, compiled);
        if 0 <= i < wished.len() {
            let rule = highlight->Ok_0@[i];
            assert(compiled[i] == Ok::<Regex, regex::Error>(rule.regex));
            assert(rules::rule_patterns(wished)[i] == wished[i].pattern);
        }
    }
    let others = config::run_transforms(cli, profile);
    if rules::arguments_fault(cli.transform.replace@, cli.transform.mask_char@) is None {
        let made = choose|made: Seq<Result<Regex, regex::Error>>|
            rules::fits(made, rules::transform_patterns(others))
                && #[trigger] rules::transforms_answer(transform, others, made);
        if transform is Ok && 0 <= i < others.len() {
            wishes::law_transforms_are_compiled(transform, others, made);
            let rule = transform->Ok_0@[i];
            assert(made[i] == Ok::<Regex, regex::Error>(rule.regex));
            assert(rules::transform_patterns(others)[i] == others[i].pattern);
        }
    }
}

/// A profile that says nothing is for no command, and leaves every setting to the command line.
pub proof fn law_empty_profiles(profile: Profile)
    requires
        profile.says_nothing(),
    ensures
        profile.name is None,
        profile.matching.command is None && profile.matching.path is None,
        profile.matching.args_prefix@.len() == 0,
        profile.backend is None && profile.mode is None && profile.effect is None,
        profile.features@.len() == 0 && profile.keymap@.len() == 0,
        profile.theme_file is None && profile.palette is None && profile.keymap_file is None,
        profile.capture_ms is None && profile.duration_ms is None && profile.frames is None,
        profile.live_render_duration_ms is None && profile.live_render_mouse_quiet_ms is None,
        profile.animation_color_fade is None && profile.animation_color_darken_factor is None,
        profile.max_lines is None && profile.max_bytes is None,
        profile.animate_over_limit is None,
        profile.cli_animation_color is None && profile.cli_settled_color is None,
        profile.cli_gradient_start is None && profile.cli_gradient_end is None,
        profile.highlight_color is None,
        profile.highlight_rules@.len() == 0 && profile.replace_rules@.len() == 0,
        profile.mask_rules@.len() == 0,
{
}

/// What is seen of a screen is its cells, the colours of its highlights, its triggers, and its
/// picture with those highlights.
pub proof fn law_observations(
    seen: Observation,
    cells: Seq<Seq<screen::Cell>>,
    list: Seq<HighlightRule>,
)
    requires
        seen.shows(cells, list),
    ensures
        screen::grid(seen.cells@) == cells,
        highlight::color_rows(seen.colors@) == session::colors_of(cells, list),
        highlight::triggers_view(seen.triggers@) == session::triggers_of(cells, list),
        seen.picture@ == screen_text::picture(cells, Some(session::colors_of(cells, list))),
{
}

/// Under output that passes through, new triggers are acted on and their highlights flash. Where no
/// trigger is new nothing is drawn.
pub proof fn law_alerts(alert: Alert, model: PassModel, list: Seq<HighlightRule>)
    requires
        alert.answers(model, list),
        model.size is Some,
    ensures
        ({
            let size = model.size->0;
            let cells = screen::shown_screen(size, model.input, size.0, size.1, model.theme);
            let found = session::triggers_of(cells, list);
            let colors = session::colors_of(cells, list);
            let state = screen::state_after(size, model.input, size.0, size.1);
            &&& highlight::triggers_view(alert.triggers@) == triggers::fresh(
                model.seen,
                found,
                found.len() as int,
            )
            &&& alert.triggers@.len() == 0 ==> draw::ops(alert.ops@).len() == 0
            &&& alert.triggers@.len() > 0 ==> draw::ops(alert.ops@) == flash::flash_all_ops(
                cells,
                state,
                Some(colors),
            )
            &&& alert.picture@ == screen_text::picture(cells, Some(colors))
        }),
{
    assert(highlight::triggers_view(alert.triggers@).len() == alert.triggers@.len());
}

/// A live screen remembers what is written in it.
pub proof fn law_live_screens_remember_what_they_hold(live: LiveSession)
    ensures
        live.model().size == live.size,
        live.model().input == emulator::input_of(live.emulator),
        live.model().pending == live.passthrough.pending@,
        live.model().mouse == live.passthrough.mouse_reporting_active,
        live.model().seen == live.seen@,
        live.model().frame == live.frame,
        live.prev is None <==> live.model().prev is None,
        live.prev is Some ==> live.model().prev == Some(screen::grid(live.prev->0@)),
{
}

} // verus!
