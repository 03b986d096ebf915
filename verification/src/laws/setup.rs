//! Which file, profile, path, features and settings a run is given.
use crate::config;
use crate::config::{
    ColorSetting, ConfigBase, ConfigFault, FileSource, PlaceView, Surroundings,
};
use crate::keymap;
use crate::model::{
    Backend, CommandWord, EffectKind, Feature, FeatureSet, HighlightRule, Mode,
    OutputTransformRule, Runtime,
};
use crate::rules::RuleError;
use crate::settings::{Cli, MatchSpec, Profile};
use crate::single;
use crate::theme;
use crate::theme::ThemeView;
use vstd::prelude::*;

verus! {

/// The config file is looked for in the current directory, then below the directory for
/// configuration, then below the home directory, in two places there. A directory that is not
/// known is passed over, and changes nothing about the others.
pub proof fn law_config_places(cwd: bool, xdg: bool, home: bool)
    ensures
        config::places(cwd, xdg, home) == config::places(cwd, false, false) + config::places(
            false,
            xdg,
            false,
        ) + config::places(false, false, home),
        config::places(false, false, false).len() == 0,
        config::places(true, false, false) == seq![
            PlaceView { base: ConfigBase::CurrentDir, parts: seq!["baeru.yml"@] },
        ],
        config::places(false, true, false) == seq![
            PlaceView { base: ConfigBase::XdgConfigHome, parts: seq!["baeru"@, "baeru.yml"@] },
        ],
        config::places(false, false, true) == seq![
            PlaceView {
                base: ConfigBase::Home,
                parts: seq![".config"@, "baeru"@, "baeru.yml"@],
            },
            PlaceView { base: ConfigBase::Home, parts: seq![".baeru.yml"@] },
        ],
{
    assert(config::places(cwd, xdg, home) =~= config::places(cwd, false, false) + config::places(
        false,
        xdg,
        false,
    ) + config::places(false, false, home));
    assert(config::places(true, false, false) =~= seq![
        PlaceView { base: ConfigBase::CurrentDir, parts: seq!["baeru.yml"@] },
    ]);
    assert(config::places(false, true, false) =~= seq![
        PlaceView { base: ConfigBase::XdgConfigHome, parts: seq!["baeru"@, "baeru.yml"@] },
    ]);
    assert(config::places(false, false, true) =~= seq![
        PlaceView { base: ConfigBase::Home, parts: seq![".config"@, "baeru"@, "baeru.yml"@] },
        PlaceView { base: ConfigBase::Home, parts: seq![".baeru.yml"@] },
    ]);
}

proof fn lemma_first_present(present: Seq<bool>, i: int)
    requires
        0 <= i <= present.len(),
    ensures
        match config::first_present(present, i) {
            Some(k) => i <= k < present.len() && present[k] && forall|j: int|
                i <= j < k ==> !#[trigger] present[j],
            None => forall|j: int| i <= j < present.len() ==> !#[trigger] present[j],
        },
    decreases present.len() - i,
{
    if i < present.len() && !present[i] {
        lemma_first_present(present, i + 1);
    }
}

/// The config file is at a place that is there, and at none before it. There is no config file
/// only where no place is there.
pub proof fn law_first_config_file(present: Seq<bool>)
    ensures
        match config::first_present(present, 0) {
            Some(k) => 0 <= k < present.len() && present[k] && forall|j: int|
                0 <= j < k ==> !#[trigger] present[j],
            None => forall|j: int| 0 <= j < present.len() ==> !#[trigger] present[j],
        },
{
    lemma_first_present(present, 0);
}

/// A profile is for a command that it names, by its text, by the last part of its path or by its
/// path, as long as it asks for no words after it.
pub proof fn law_profiles_name_commands(
    spec: MatchSpec,
    command: Seq<CommandWord>,
    name: Seq<char>,
)
    requires
        command.len() > 0,
        spec.args_prefix@.len() == 0,
    ensures
        spec.command is Some && spec.command->0@ == name ==> config::profile_is_for(
            spec,
            command,
            name,
        ),
        spec.command is Some && spec.command->0@ == command[0].text@ ==> config::profile_is_for(
            spec,
            command,
            name,
        ),
        spec.path is Some && command[0].exact && spec.path->0@ == command[0].text@
            ==> config::profile_is_for(spec, command, name),
        spec.command is None && spec.path is None ==> !config::profile_is_for(spec, command, name),
        spec.path is None && spec.command is Some && spec.command->0@ != name && spec.command->0@
            != command[0].text@ ==> !config::profile_is_for(spec, command, name),
        spec.command is None && spec.path is Some && (spec.path->0@ != command[0].text@
            || !command[0].exact) ==> !config::profile_is_for(spec, command, name),
{
}

/// A profile that asks for words after the command is for no other command than it would be for
/// without them, and for that one just where those words follow.
pub proof fn law_profiles_ask_for_words(
    spec: MatchSpec,
    plain: MatchSpec,
    command: Seq<CommandWord>,
    name: Seq<char>,
)
    requires
        command.len() > 0,
        plain.command == spec.command,
        plain.path == spec.path,
        plain.args_prefix@.len() == 0,
    ensures
        config::profile_is_for(spec, command, name) ==> config::profile_is_for(
            plain,
            command,
            name,
        ),
        config::profile_is_for(plain, command, name) ==> (config::profile_is_for(
            spec,
            command,
            name,
        ) <==> (spec.args_prefix@.len() < command.len() && forall|i: int|
            0 <= i < spec.args_prefix@.len() ==> (#[trigger] spec.args_prefix@[i])@ == command[i
                + 1].text@)),
{
}

/// No profile is for a run without a command.
pub proof fn law_no_command_no_profile(spec: MatchSpec, name: Seq<char>)
    ensures
        !config::profile_is_for(spec, Seq::empty(), name),
{
}

proof fn lemma_first_profile(
    profiles: Seq<Profile>,
    command: Seq<CommandWord>,
    name: Seq<char>,
    i: int,
)
    requires
        0 <= i <= profiles.len(),
    ensures
        match config::first_profile(profiles, command, name, i) {
            Some(k) => i <= k < profiles.len() && config::profile_is_for(
                profiles[k].matching,
                command,
                name,
            ) && forall|j: int|
                i <= j < k ==> !config::profile_is_for(
                    (#[trigger] profiles[j]).matching,
                    command,
                    name,
                ),
            None => forall|j: int|
                i <= j < profiles.len() ==> !config::profile_is_for(
                    (#[trigger] profiles[j]).matching,
                    command,
                    name,
                ),
        },
    decreases profiles.len() - i,
{
    if i < profiles.len() && !config::profile_is_for(profiles[i].matching, command, name) {
        lemma_first_profile(profiles, command, name, i + 1);
    }
}

/// The profile of a command is one that is for it, with none before it. There is no profile only
/// where none is for the command.
pub proof fn law_first_profile(
    r: Option<&Profile>,
    profiles: Seq<Profile>,
    command: Seq<CommandWord>,
    name: Seq<char>,
)
    requires
        config::chosen_profile(r, profiles, command, name),
    ensures
        match r {
            Some(profile) => exists|k: int|
                0 <= k < profiles.len() && *profile == #[trigger] profiles[k]
                    && config::profile_is_for(profiles[k].matching, command, name) && forall|j: int|
                    0 <= j < k ==> !config::profile_is_for(
                        (#[trigger] profiles[j]).matching,
                        command,
                        name,
                    ),
            None => forall|j: int|
                0 <= j < profiles.len() ==> !config::profile_is_for(
                    (#[trigger] profiles[j]).matching,
                    command,
                    name,
                ),
        },
{
    lemma_first_profile(profiles, command, name, 0);
}

/// A path that is asked for is used, and one is always decided on.
pub proof fn law_paths_that_are_asked_for(
    requested: Backend,
    has_command: bool,
    stdin_is_tty: bool,
    stdout_is_tty: bool,
    term_is_dumb: bool,
)
    ensures
        ({
            let r = config::backend_for(
                requested,
                has_command,
                stdin_is_tty,
                stdout_is_tty,
                term_is_dumb,
            );
            &&& r != Backend::Auto
            &&& requested != Backend::Auto ==> r == requested
            &&& requested == Backend::Auto && !stdout_is_tty ==> r == Backend::Raw
            &&& requested == Backend::Auto && term_is_dumb ==> r == Backend::Raw
            &&& requested == Backend::Auto && stdout_is_tty && !term_is_dumb && has_command ==> r
                == Backend::Tui
            &&& requested == Backend::Auto && stdout_is_tty && !term_is_dumb && stdin_is_tty ==> r
                == Backend::Tui
            &&& requested == Backend::Auto && stdout_is_tty && !term_is_dumb && !has_command
                && !stdin_is_tty ==> r == Backend::Cli
        }),
{
}

/// Each mode stands for one feature, no two for the same.
pub proof fn law_modes()
    ensures
        config::feature_of(Mode::Reveal) == Feature::Reveal,
        config::feature_of(Mode::ColorLive) == Feature::LiveColor,
        config::feature_of(Mode::Splash) == Feature::Splash,
        config::feature_of(Mode::LiveRender) == Feature::LiveRender,
{
}

/// What a set of features holds is what is set in it, one by one.
pub proof fn law_sets_of_features(set: FeatureSet)
    ensures
        set@.contains(Feature::Reveal) == set.reveal,
        set@.contains(Feature::LiveColor) == set.live_color,
        set@.contains(Feature::Keymap) == set.keymap,
        set@.contains(Feature::InlineAnimation) == set.inline_animation,
        set@.contains(Feature::Splash) == set.splash,
        set@.contains(Feature::LiveRender) == set.live_render,
{
}

/// The features of a profile are those of a run, and the mode of the command line adds its own.
/// The mode of a profile counts only where the profile lists no features.
pub proof fn law_features_that_are_asked_for(
    profile: Profile,
    cli_mode: Option<Mode>,
    backend: Backend,
    feature: Feature,
)
    ensures
        ({
            let features = config::features_for(profile, cli_mode, backend);
            let by_cli = cli_mode is Some && config::feature_of(cli_mode->0) == feature;
            let by_mode = profile.mode is Some && config::feature_of(profile.mode->0) == feature;
            &&& profile.features@.len() > 0 ==> (features.contains(feature) <==> (
            profile.features@.contains(feature) || by_cli))
            &&& profile.features@.len() == 0 && (profile.mode is Some || cli_mode is Some) ==> (
            features.contains(feature) <==> (by_mode || by_cli))
        }),
{
    let asked = config::asked_features(profile, cli_mode);
    if profile.features@.len() > 0 {
        let first = profile.features@[0];
        assert(profile.features@.contains(first));
        assert(profile.features@.to_set().contains(first));
        assert(asked.contains(first));
        assert(asked != Set::<Feature>::empty());
    } else {
        if cli_mode is Some {
            assert(asked.contains(config::feature_of(cli_mode->0)));
        }
        if profile.mode is Some {
            assert(asked.contains(config::feature_of(profile.mode->0)));
        }
    }
}

/// Where no features are asked for, the screen is revealed and coloured, and the output of a
/// command is animated. Nothing else is done.
pub proof fn law_usual_features(profile: Profile, backend: Backend, feature: Feature)
    requires
        profile.features@.len() == 0,
        profile.mode is None,
    ensures
        config::features_for(profile, None, backend).contains(feature) <==> ({
            ||| backend == Backend::Tui && (feature == Feature::Reveal || feature
                == Feature::LiveColor)
            ||| backend == Backend::Cli && feature == Feature::InlineAnimation
        }),
{
    assert(config::asked_features(profile, None) =~= Set::<Feature>::empty());
}

/// A terminal takes features away and adds none. Where nothing can be shown, keys are still
/// mapped, and without colours everything but colouring stays.
pub proof fn law_features_on_a_terminal(
    features: Set<Feature>,
    stdout_is_tty: bool,
    term_is_dumb: bool,
    no_color: bool,
    feature: Feature,
)
    ensures
        ({
            let left = config::shown_features(features, stdout_is_tty, term_is_dumb, no_color);
            &&& left.contains(feature) ==> features.contains(feature)
            &&& left.contains(Feature::Keymap) == features.contains(Feature::Keymap)
            &&& no_color ==> !left.contains(Feature::LiveColor)
            &&& !stdout_is_tty && feature != Feature::Keymap ==> !left.contains(feature)
            &&& term_is_dumb && feature != Feature::Keymap ==> !left.contains(feature)
            &&& stdout_is_tty && !term_is_dumb && feature != Feature::LiveColor ==> left.contains(
                feature,
            ) == features.contains(feature)
            &&& stdout_is_tty && !term_is_dumb && !no_color ==> left.contains(feature)
                == features.contains(feature)
        }),
{
}

/// Where no effect is asked for, a screen fades in, output coalesces, and nothing else is done.
pub proof fn law_usual_effects()
    ensures
        config::usual_effect(Backend::Tui) == EffectKind::Fade,
        config::usual_effect(Backend::Cli) == EffectKind::Coalesce,
        config::usual_effect(Backend::Raw) == EffectKind::Plain,
        config::usual_effect(Backend::Auto) == EffectKind::Plain,
{
}

/// A theme is used where a screen is revealed, coloured or rendered and where output is animated,
/// and nowhere else.
pub proof fn law_where_themes_are_used(backend: Backend, features: Set<Feature>)
    ensures
        backend == Backend::Raw || backend == Backend::Auto ==> !config::needs_theme(
            backend,
            features,
        ),
        backend == Backend::Cli ==> config::needs_theme(backend, features) == features.contains(
            Feature::InlineAnimation,
        ),
        backend == Backend::Tui && features.contains(Feature::Reveal) ==> config::needs_theme(
            backend,
            features,
        ),
        backend == Backend::Tui && features.contains(Feature::LiveColor) ==> config::needs_theme(
            backend,
            features,
        ),
        backend == Backend::Tui && features.contains(Feature::LiveRender) ==> config::needs_theme(
            backend,
            features,
        ),
        backend == Backend::Tui && !features.contains(Feature::Reveal) && !features.contains(
            Feature::LiveColor,
        ) && !features.contains(Feature::LiveRender) ==> !config::needs_theme(backend, features),
{
}

/// The theme file of the command line is read rather than that of the profile, and the key map
/// file of the profile rather than that of the command line. A file that is not needed is not
/// read, and one that is named and needed is.
pub proof fn law_files_to_read(cli: Cli, profile: Profile, around: Surroundings)
    ensures
        ({
            let backend = config::run_backend(cli, profile, around);
            let features = config::run_features(cli, profile, around);
            let themed = config::needs_theme(backend, features);
            let mapped = features.contains(Feature::Keymap);
            let theme_file = config::theme_source(cli, profile, around);
            let keymap_file = config::keymap_source(cli, profile, around);
            &&& theme_file == Some(FileSource::CommandLine) <==> themed && cli.files.theme_file
                is Some
            &&& theme_file == Some(FileSource::Profile) <==> themed && cli.files.theme_file is None
                && profile.theme_file is Some
            &&& keymap_file == Some(FileSource::Profile) <==> mapped && profile.keymap_file is Some
            &&& keymap_file == Some(FileSource::CommandLine) <==> mapped && profile.keymap_file
                is None && cli.files.keymap_file is Some
        }),
{
}

proof fn lemma_pushed(
    list: Seq<(Seq<char>, Seq<char>)>,
    last: (Seq<char>, Seq<char>),
    pair: (Seq<char>, Seq<char>),
)
    ensures
        list.push(last).contains(pair) <==> list.contains(pair) || pair == last,
{
    if list.contains(pair) {
        let i = choose|i: int| 0 <= i < list.len() && list[i] == pair;
        assert(list.push(last)[i] == pair);
    }
    if pair == last {
        assert(list.push(last)[list.len() as int] == pair);
    }
}

proof fn lemma_not_replaced(
    pairs: Seq<(Seq<char>, Seq<char>)>,
    others: Seq<(Seq<char>, Seq<char>)>,
    n: int,
    pair: (Seq<char>, Seq<char>),
)
    requires
        0 <= n <= pairs.len(),
    ensures
        config::not_replaced(pairs, others, n).contains(pair) <==> pairs.take(n).contains(pair)
            && forall|i: int| 0 <= i < others.len() ==> (#[trigger] others[i]).0 != pair.0,
    decreases n,
{
    if n > 0 {
        lemma_not_replaced(pairs, others, n - 1, pair);
        assert(pairs.take(n) =~= pairs.take(n - 1).push(pairs[n - 1]));
        lemma_pushed(pairs.take(n - 1), pairs[n - 1], pair);
        lemma_pushed(config::not_replaced(pairs, others, n - 1), pairs[n - 1], pair);
    } else {
        assert(pairs.take(0) =~= Seq::empty());
        assert(config::not_replaced(pairs, others, n) =~= Seq::empty());
    }
}

/// Key names of a profile are all used, those of a file only where the profile does not type the
/// same key, and there are no others.
pub proof fn law_key_names_are_merged(
    file: Seq<(Seq<char>, Seq<char>)>,
    profile: Seq<(Seq<char>, Seq<char>)>,
    pair: (Seq<char>, Seq<char>),
)
    ensures
        config::merged(file, profile).contains(pair) <==> profile.contains(pair) || (file.contains(
            pair,
        ) && forall|i: int| 0 <= i < profile.len() ==> (#[trigger] profile[i]).0 != pair.0),
{
    lemma_not_replaced(file, profile, file.len() as int, pair);
    assert(file.take(file.len() as int) =~= file);
    let kept = config::not_replaced(file, profile, file.len() as int);
    let all = kept + profile;
    if kept.contains(pair) {
        let i = choose|i: int| 0 <= i < kept.len() && kept[i] == pair;
        assert(all[i] == pair);
    }
    if profile.contains(pair) {
        let i = choose|i: int| 0 <= i < profile.len() && profile[i] == pair;
        assert(all[kept.len() + i] == pair);
    }
    if all.contains(pair) {
        let i = choose|i: int| 0 <= i < all.len() && all[i] == pair;
        if i < kept.len() {
            assert(kept[i] == pair);
        } else {
            assert(profile[i - kept.len()] == pair);
        }
    }
}

/// A value of the profile counts, and that of the command line where the profile leaves it out.
pub open spec fn profile_first<T>(r: T, profile: Option<T>, cli: T) -> bool {
    &&& forall|value: T| profile == Some(value) ==> r == value
    &&& profile is None ==> r == cli
}

/// The numbers of a run are those of the profile, and those of the command line where the profile
/// leaves them out. There is at least one frame.
pub proof fn law_numbers_of_a_run(
    rt: Runtime,
    cli: Cli,
    profile: Profile,
    around: Surroundings,
    loaded: Option<ThemeView>,
    file: Seq<(Seq<char>, Seq<char>)>,
)
    requires
        config::set_up(rt, cli, profile, around, loaded, file),
    ensures
        profile_first(rt.capture_ms, profile.capture_ms, cli.animation.capture_ms),
        profile_first(rt.duration_ms, profile.duration_ms, cli.animation.duration_ms),
        profile_first(
            rt.live_render_duration_ms,
            profile.live_render_duration_ms,
            cli.animation.live_render_duration_ms,
        ),
        profile_first(
            rt.live_render_mouse_quiet_ms,
            profile.live_render_mouse_quiet_ms,
            cli.animation.live_render_mouse_quiet_ms,
        ),
        profile_first(
            rt.animation_color_fade,
            profile.animation_color_fade,
            cli.animation.animation_color_fade,
        ),
        profile_first(rt.max_lines, profile.max_lines, cli.cli_render.max_lines),
        profile_first(rt.max_bytes, profile.max_bytes, cli.cli_render.max_bytes),
        profile_first(
            rt.animate_over_limit,
            profile.animate_over_limit,
            cli.cli_render.animate_over_limit,
        ),
        rt.frames >= 1,
        profile.frames is Some && profile.frames->0 >= 1 ==> rt.frames == profile.frames->0,
        profile.frames is None && cli.animation.frames >= 1 ==> rt.frames == cli.animation.frames,
        profile.frames == Some(0usize) ==> rt.frames == 1,
        profile.frames is None && cli.animation.frames == 0 ==> rt.frames == 1,
        rt.no_theme_after_reveal == cli.animation.no_theme_after_reveal,
        rt.command == cli.command,
{
}

/// The effect of a run is that of the command line, then that of the profile, then the usual one.
/// Its path is that of the command line, then that of the profile, unless they leave it open.
pub proof fn law_looks_of_a_run(
    rt: Runtime,
    cli: Cli,
    profile: Profile,
    around: Surroundings,
    loaded: Option<ThemeView>,
    file: Seq<(Seq<char>, Seq<char>)>,
)
    requires
        config::set_up(rt, cli, profile, around, loaded, file),
    ensures
        cli.selection.effect is Some ==> rt.effect == cli.selection.effect->0,
        cli.selection.effect is None && profile.effect is Some ==> rt.effect == profile.effect->0,
        cli.selection.effect is None && profile.effect is None && rt.backend == Backend::Tui
            ==> rt.effect == EffectKind::Fade,
        cli.selection.effect is None && profile.effect is None && rt.backend == Backend::Cli
            ==> rt.effect == EffectKind::Coalesce,
        cli.selection.effect is None && profile.effect is None && rt.backend == Backend::Raw
            ==> rt.effect == EffectKind::Plain,
        forall|path: Backend|
            path != Backend::Auto && cli.selection.backend == Some(path) ==> rt.backend == path,
        forall|path: Backend|
            path != Backend::Auto && cli.selection.backend is None && profile.backend == Some(path)
                ==> rt.backend == path,
        rt.backend != Backend::Auto,
{
}

/// A run that needs a theme has the one that was read, or the built-in one that the profile names,
/// or that the command line names.
pub proof fn law_theme_of_a_run(
    rt: Runtime,
    cli: Cli,
    profile: Profile,
    around: Surroundings,
    loaded: Option<ThemeView>,
    file: Seq<(Seq<char>, Seq<char>)>,
)
    requires
        config::set_up(rt, cli, profile, around, loaded, file),
        config::needs_theme(rt.backend, rt.features@),
    ensures
        cli.files.theme_file is Some || profile.theme_file is Some ==> rt.theme@ == loaded->0,
        cli.files.theme_file is None && profile.theme_file is None && profile.palette is Some
            ==> rt.theme@ == theme::builtin(profile.palette->0@),
        cli.files.theme_file is None && profile.theme_file is None && profile.palette is None
            ==> rt.theme@ == theme::builtin(cli.files.palette@),
{
}

/// A run that does not map keys has no keys, whatever files and profiles say.
pub proof fn law_keys_of_a_run(
    cli: Cli,
    profile: Profile,
    around: Surroundings,
    file: Seq<(Seq<char>, Seq<char>)>,
)
    ensures
        !config::run_features(cli, profile, around).contains(Feature::Keymap) ==> config::run_pairs(
            cli,
            profile,
            around,
            file,
        ).len() == 0,
        config::run_features(cli, profile, around).contains(Feature::Keymap) ==> config::run_pairs(
            cli,
            profile,
            around,
            file,
        ) == config::merged(file, keymap::pairs_view(profile.keymap@)),
{
}

/// The colours of a run are those that the profile writes, each in its place.
pub proof fn law_colors_of_a_run(
    rt: Runtime,
    cli: Cli,
    profile: Profile,
    around: Surroundings,
    loaded: Option<ThemeView>,
    file: Seq<(Seq<char>, Seq<char>)>,
)
    requires
        config::set_up(rt, cli, profile, around, loaded, file),
    ensures
        profile.cli_animation_color is None ==> rt.cli_animation_color is None,
        profile.cli_animation_color is Some ==> rt.cli_animation_color == theme::hex_color(
            profile.cli_animation_color->0@,
        ),
        profile.cli_settled_color is None ==> rt.cli_settled_color is None,
        profile.cli_settled_color is Some ==> rt.cli_settled_color == theme::hex_color(
            profile.cli_settled_color->0@,
        ),
        profile.cli_gradient_start is None ==> rt.cli_gradient_start is None,
        profile.cli_gradient_start is Some ==> rt.cli_gradient_start == theme::hex_color(
            profile.cli_gradient_start->0@,
        ),
        profile.cli_gradient_end is None ==> rt.cli_gradient_end is None,
        profile.cli_gradient_end is Some ==> rt.cli_gradient_end == theme::hex_color(
            profile.cli_gradient_end->0@,
        ),
        profile.animation_color_darken_factor is Some ==> rt.animation_color_darken_factor@
            == single::clamped(profile.animation_color_darken_factor->0@),
        profile.animation_color_darken_factor is None ==> rt.animation_color_darken_factor@
            == single::clamped(cli.animation.animation_color_darken_factor@),
{
}

/// A run is refused for what is wrong: a missing command, a colour that is none under the setting
/// that it was written for, or rules that were refused. Nothing wrong is passed over.
pub proof fn law_runs_are_refused_for_what_is_wrong(
    cli: Cli,
    profile: Profile,
    around: Surroundings,
    file: Seq<(Seq<char>, Seq<char>)>,
    highlight: Result<Vec<HighlightRule>, RuleError>,
    transform: Result<Vec<OutputTransformRule>, RuleError>,
)
    ensures
        ({
            let fault = config::setup_fault(cli, profile, around, file, highlight, transform);
            let written = config::run_highlight_color(cli, profile);
            &&& fault == Some(ConfigFault::CommandRequired) <==> cli.command@.len() == 0
                && around.stdin_is_tty
            &&& fault is None ==> highlight is Ok && transform is Ok && keymap::first_fault(
                config::run_pairs(cli, profile, around, file),
                0,
            ) is None
            &&& fault is None ==> (profile.cli_animation_color is Some ==> theme::hex_color(
                profile.cli_animation_color->0@,
            ) is Some)
            &&& fault is None ==> (profile.cli_settled_color is Some ==> theme::hex_color(
                profile.cli_settled_color->0@,
            ) is Some)
            &&& fault is None ==> (profile.cli_gradient_start is Some ==> theme::hex_color(
                profile.cli_gradient_start->0@,
            ) is Some)
            &&& fault is None ==> (profile.cli_gradient_end is Some ==> theme::hex_color(
                profile.cli_gradient_end->0@,
            ) is Some)
            &&& fault is None ==> (written is Some ==> theme::hex_color(written->0@) is Some)
            &&& forall|raw: Seq<char>|
                fault == Some(ConfigFault::Color(ColorSetting::CliAnimationColor, raw))
                    ==> profile.cli_animation_color is Some && profile.cli_animation_color->0@
                    == raw && theme::hex_color(raw) is None
            &&& forall|raw: Seq<char>|
                fault == Some(ConfigFault::Color(ColorSetting::CliSettledColor, raw))
                    ==> profile.cli_settled_color is Some && profile.cli_settled_color->0@ == raw
                    && theme::hex_color(raw) is None
            &&& forall|raw: Seq<char>|
                fault == Some(ConfigFault::Color(ColorSetting::CliGradientStart, raw))
                    ==> profile.cli_gradient_start is Some && profile.cli_gradient_start->0@ == raw
                    && theme::hex_color(raw) is None
            &&& forall|raw: Seq<char>|
                fault == Some(ConfigFault::Color(ColorSetting::CliGradientEnd, raw))
                    ==> profile.cli_gradient_end is Some && profile.cli_gradient_end->0@ == raw
                    && theme::hex_color(raw) is None
            &&& forall|raw: Seq<char>|
                fault == Some(ConfigFault::Color(ColorSetting::HighlightColor, raw)) ==> written
                    is Some && written->0@ == raw && theme::hex_color(raw) is None
            &&& fault matches Some(ConfigFault::Highlight(inner)) ==> highlight is Err
                && highlight->Err_0@ == inner
            &&& fault matches Some(ConfigFault::Transform(inner)) ==> transform is Err && highlight
                is Ok && transform->Err_0@ == inner
        }),
{
}

/// The colour of the highlights is that of the profile, then that of the command line.
pub proof fn law_highlight_color_of_a_run(cli: Cli, profile: Profile)
    ensures
        profile.highlight_color is Some ==> config::run_highlight_color(cli, profile)
            == profile.highlight_color,
        profile.highlight_color is None ==> config::run_highlight_color(cli, profile)
            == cli.highlight.highlight_color,
{
}

} // verus!
