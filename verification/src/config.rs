//! How a run is set up from the command line, the profile of the command, and the terminal.
use crate::keymap;
use crate::keymap::{compile_keymap, KeyError, KeyFault, Keymap};
use crate::model::{
    Backend, CommandWord, EffectKind, Feature, FeatureSet, HighlightRule, Mode,
    OutputTransformRule, Rgb, Runtime, Theme,
};
use crate::rules;
use crate::rules::{
    compile_highlight_rules, compile_output_transform_rules, parse_highlight_color,
    CliHighlightRuleOptions, RuleError, RuleFault,
};
use crate::settings::{Cli, ConfigFile, MatchSpec, Profile};
use crate::single;
use crate::single::Single;
use crate::text::same;
use crate::theme;
use crate::theme::{builtin_theme, parse_optional_rgb, InvalidColor, ThemeView};
use crate::transform;
use regex::Regex;
use vstd::prelude::*;

verus! {

/// A setting that is a colour.
#[derive(Debug, Clone, Copy, PartialEq, Eq, Structural)]
pub enum ColorSetting {
    CliAnimationColor,
    CliSettledColor,
    CliGradientStart,
    CliGradientEnd,
    HighlightColor,
}

impl ColorSetting {
    /// The name of the setting.
    pub open spec fn label(self) -> Seq<char> {
        match self {
            ColorSetting::CliAnimationColor => "cli_animation_color"@,
            ColorSetting::CliSettledColor => "cli_settled_color"@,
            ColorSetting::CliGradientStart => "cli_gradient_start"@,
            ColorSetting::CliGradientEnd => "cli_gradient_end"@,
            ColorSetting::HighlightColor => "highlight_color"@,
        }
    }

    fn name(&self) -> (r: &'static str)
        ensures
            r@ == self.label(),
    {
        match self {
            ColorSetting::CliAnimationColor => "cli_animation_color",
            ColorSetting::CliSettledColor => "cli_settled_color",
            ColorSetting::CliGradientStart => "cli_gradient_start",
            ColorSetting::CliGradientEnd => "cli_gradient_end",
            ColorSetting::HighlightColor => "highlight_color",
        }
    }
}

/// Why a run cannot be set up.
#[derive(Debug)]
pub enum ConfigError {
    /// There is no command, and nothing is piped in either.
    CommandRequired,
    /// A key name is refused.
    Key(KeyError),
    /// A colour cannot be read.
    Color { setting: ColorSetting, error: InvalidColor },
    /// A highlight rule is refused.
    Highlight(RuleError),
    /// A rule that replaces or masks is refused.
    Transform(RuleError),
}

/// What an error says. A pattern that is refused comes with what is wrong with it.
pub enum ConfigFault {
    CommandRequired,
    Key(Seq<char>, KeyFault),
    Color(ColorSetting, Seq<char>),
    Highlight(RuleFault),
    Transform(RuleFault),
}

impl View for ConfigError {
    type V = ConfigFault;

    open spec fn view(&self) -> ConfigFault {
        match self {
            ConfigError::CommandRequired => ConfigFault::CommandRequired,
            ConfigError::Key(error) => ConfigFault::Key(error.key@, error.fault),
            ConfigError::Color { setting, error } => ConfigFault::Color(*setting, error.raw@),
            ConfigError::Highlight(error) => ConfigFault::Highlight(error@),
            ConfigError::Transform(error) => ConfigFault::Transform(error@),
        }
    }
}

impl ConfigFault {
    /// The message for the user, but for what is wrong with a pattern.
    pub open spec fn text(self) -> Seq<char> {
        match self {
            ConfigFault::CommandRequired => "command is required"@,
            ConfigFault::Key(key, fault) => fault.reason() + key,
            ConfigFault::Color(setting, raw) => "invalid "@ + setting.label() + ": "@
                + ("expected #RRGGBB, got: "@ + raw),
            ConfigFault::Highlight(fault) => "failed to compile highlight rules: "@ + fault.text(),
            ConfigFault::Transform(fault) => "failed to compile output transform rules: "@
                + fault.text(),
        }
    }

    /// What is wrong with the pattern, where a pattern is refused.
    pub open spec fn why(self) -> Option<regex::Error> {
        match self {
            ConfigFault::Highlight(fault) => fault.why(),
            ConfigFault::Transform(fault) => fault.why(),
            _ => None,
        }
    }
}

impl ConfigError {
    /// The message for the user, but for what is wrong with a pattern.
    pub fn message(&self) -> (r: String)
        ensures
            r@ == self@.text(),
    {
        let mut r: String = String::new();
        match self {
            ConfigError::CommandRequired => {
                r.append("command is required");
            },
            ConfigError::Key(error) => {
                r.append(error.message().as_str());
            },
            ConfigError::Color { setting, error } => {
                r.append("invalid ");
                r.append(setting.name());
                r.append(": ");
                r.append(error.message().as_str());
            },
            ConfigError::Highlight(error) => {
                r.append("failed to compile highlight rules: ");
                r.append(error.message().as_str());
            },
            ConfigError::Transform(error) => {
                r.append("failed to compile output transform rules: ");
                r.append(error.message().as_str());
            },
        }
        assert(r@ =~= self@.text());
        r
    }

    /// What is wrong with the pattern, where a pattern is refused.
    pub fn reason(&self) -> (r: Option<&regex::Error>)
        ensures
            match r {
                Some(reason) => self@.why() == Some(*reason),
                None => self@.why() is None,
            },
    {
        match self {
            ConfigError::Highlight(error) => error.reason(),
            ConfigError::Transform(error) => error.reason(),
            _ => None,
        }
    }
}

/// The first of two values that is there.
pub open spec fn either<T>(first: Option<T>, second: Option<T>) -> Option<T> {
    match first {
        Some(_) => first,
        None => second,
    }
}

/// A value, or another where it is left out.
pub open spec fn or_else<T>(first: Option<T>, second: T) -> T {
    match first {
        Some(value) => value,
        None => second,
    }
}

fn pick<T: Copy>(first: Option<T>, second: T) -> (r: T)
    ensures
        r == or_else(first, second),
{
    match first {
        Some(value) => value,
        None => second,
    }
}

/// Where a place for the config file is looked for.
#[derive(Debug, Clone, Copy, PartialEq, Eq, Structural)]
pub enum ConfigBase {
    CurrentDir,
    XdgConfigHome,
    Home,
}

/// A place for the config file: a directory, and the names to go through from there.
#[derive(Debug)]
pub struct ConfigPlace {
    pub base: ConfigBase,
    pub parts: Vec<String>,
}

/// A place for the config file.
#[verifier::ext_equal]
pub struct PlaceView {
    pub base: ConfigBase,
    pub parts: Seq<Seq<char>>,
}

impl View for ConfigPlace {
    type V = PlaceView;

    open spec fn view(&self) -> PlaceView {
        PlaceView { base: self.base, parts: transform::texts(self.parts@) }
    }
}

/// Some places for the config file.
pub open spec fn places_view(list: Seq<ConfigPlace>) -> Seq<PlaceView> {
    list.map_values(|place: ConfigPlace| place@)
}

/// The places for the config file, the first one first, with the directories that are known.
pub open spec fn places(cwd: bool, xdg: bool, home: bool) -> Seq<PlaceView> {
    (if cwd {
        seq![PlaceView { base: ConfigBase::CurrentDir, parts: seq!["baeru.yml"@] }]
    } else {
        Seq::empty()
    }) + (if xdg {
        seq![PlaceView { base: ConfigBase::XdgConfigHome, parts: seq!["baeru"@, "baeru.yml"@] }]
    } else {
        Seq::empty()
    }) + (if home {
        seq![
            PlaceView {
                base: ConfigBase::Home,
                parts: seq![".config"@, "baeru"@, "baeru.yml"@],
            },
            PlaceView { base: ConfigBase::Home, parts: seq![".baeru.yml"@] },
        ]
    } else {
        Seq::empty()
    })
}

fn place(base: ConfigBase, names: &[&str]) -> (r: ConfigPlace)
    ensures
        r@ == (PlaceView { base, parts: names@.map_values(|name: &str| name@) }),
{
    let mut parts: Vec<String> = Vec::new();
    let ghost goal = names@.map_values(|name: &str| name@);
    let mut i: usize = 0;
    assert(transform::texts(parts@) =~= goal.take(0));
    while i < names.len()
        invariant
            i <= names@.len(),
            goal == names@.map_values(|name: &str| name@),
            transform::texts(parts@) == goal.take(i as int),
        decreases names@.len() - i,
    {
        let ghost before = parts@;
        let name: String = names[i].to_owned();
        parts.push(name);
        i = i + 1;
        assert(transform::texts(parts@) =~= transform::texts(before).push(goal[i - 1]));
        assert(transform::texts(parts@) =~= goal.take(i as int));
    }
    assert(goal.take(i as int) =~= goal);
    ConfigPlace { base, parts }
}

fn push_place(list: &mut Vec<ConfigPlace>, next: ConfigPlace)
    ensures
        places_view(final(list)@) == places_view(old(list)@).push(next@),
{
    list.push(next);
    assert(places_view(list@) =~= places_view(old(list)@).push(next@));
}

/// The places for the config file, the first one first, with the directories that are known.
pub fn config_places(cwd: bool, xdg: bool, home: bool) -> (r: Vec<ConfigPlace>)
    ensures
        places_view(r@) == places(cwd, xdg, home),
{
    let mut r: Vec<ConfigPlace> = Vec::new();
    assert(places_view(r@) =~= Seq::empty());
    if cwd {
        let next: ConfigPlace = place(ConfigBase::CurrentDir, &["baeru.yml"]);
        assert(next@.parts =~= seq!["baeru.yml"@]);
        push_place(&mut r, next);
    }
    if xdg {
        let next: ConfigPlace = place(ConfigBase::XdgConfigHome, &["baeru", "baeru.yml"]);
        assert(next@.parts =~= seq!["baeru"@, "baeru.yml"@]);
        push_place(&mut r, next);
    }
    if home {
        let next: ConfigPlace = place(ConfigBase::Home, &[".config", "baeru", "baeru.yml"]);
        assert(next@.parts =~= seq![".config"@, "baeru"@, "baeru.yml"@]);
        push_place(&mut r, next);
        let last: ConfigPlace = place(ConfigBase::Home, &[".baeru.yml"]);
        assert(last@.parts =~= seq![".baeru.yml"@]);
        push_place(&mut r, last);
    }
    assert(places_view(r@) =~= places(cwd, xdg, home));
    r
}

/// The config file to read.
#[derive(Debug, Clone, Copy, PartialEq, Eq, Structural)]
pub enum ConfigChoice {
    /// The one that the command line names.
    Explicit,
    /// The one at a place, by its number.
    Place(usize),
}

/// The first place from `i` on that is there.
pub open spec fn first_present(present: Seq<bool>, i: int) -> Option<int>
    decreases present.len() - i,
{
    if i < 0 || i >= present.len() {
        None
    } else if present[i] {
        Some(i)
    } else {
        first_present(present, i + 1)
    }
}

/// Which config file to read: the one that the command line names, whether it is there or not,
/// else the first place that is there. `present` says of each place whether it is there.
pub fn resolve_config_path_from(explicit: bool, present: &Vec<bool>) -> (r: Option<ConfigChoice>)
    ensures
        r == (if explicit {
            Some(ConfigChoice::Explicit)
        } else {
            match first_present(present@, 0) {
                Some(i) => Some(ConfigChoice::Place(i as usize)),
                None => None,
            }
        }),
{
    if explicit {
        return Some(ConfigChoice::Explicit);
    }
    let mut i: usize = 0;
    while i < present.len()
        invariant
            i <= present@.len(),
            !explicit,
            first_present(present@, 0) == first_present(present@, i as int),
        decreases present@.len() - i,
    {
        if present[i] {
            return Some(ConfigChoice::Place(i));
        }
        i = i + 1;
    }
    None
}

/// Whether a text stands somewhere in another.
pub open spec fn part_of(text: Seq<char>, name: Seq<char>) -> bool {
    exists|i: int|
        0 <= i && i + name.len() <= text.len() && #[trigger] text.subrange(i, i + name.len())
            == name
}

/// Where the last part of a path starts: after the last slash of its first `n` characters.
pub open spec fn last_start(path: Seq<char>, n: int) -> int
    decreases n,
{
    if n <= 0 {
        0
    } else if path[n - 1] == '/' {
        n
    } else {
        last_start(path, n - 1)
    }
}

/// What follows the last slash of a path.
pub open spec fn last_part(path: Seq<char>) -> Seq<char> {
    path.skip(last_start(path, path.len() as int))
}

/// The last component of a path whose components are parted by slashes. Slashes at the end do not
/// count, and neither does a part that is a dot, but for the first. A path that is a dot or ends
/// in two dots has no last component.
pub open spec fn last_component(path: Seq<char>) -> Option<Seq<char>>
    decreases path.len(),
{
    let part = last_part(path);
    if path.len() == 0 {
        None
    } else if path.last() == '/' || (part == seq!['.'] && path.len() > 1) {
        last_component(path.drop_last())
    } else if part == seq!['.'] || part == seq!['.', '.'] {
        None
    } else {
        Some(part)
    }
}

/// Whether slashes and nothing else part the components of a path, on every machine: it holds no
/// backslash and no colon, and does not start with two slashes.
pub open spec fn ordinary_path(path: Seq<char>) -> bool {
    &&& !path.contains('\\')
    &&& !path.contains(':')
    &&& !(path.len() >= 2 && path[0] == '/' && path[1] == '/')
}

/// `std::path::Path::file_name`: the last component of a path, if there is one. Of a path with a
/// backslash, a colon or two slashes at its start, what parts the components depends on the
/// machine: there it is only stated that what is returned stands in the path.
#[verifier::external_body]
fn file_name(path: &str) -> (r: Option<String>)
    ensures
        r is Some ==> (r->0)@.len() > 0 && part_of(path@, (r->0)@),
        ordinary_path(path@) ==> theme::optional_text(r) == last_component(path@),
{
    std::path::Path::new(path).file_name().map(|name| name.to_string_lossy().to_string())
}

/// Whether the first words of a command after its name are these.
pub open spec fn args_match(prefix: Seq<String>, command: Seq<CommandWord>) -> bool {
    &&& prefix.len() <= command.len() - 1
    &&& forall|i: int| 0 <= i < prefix.len() ==> (#[trigger] prefix[i])@ == command[i + 1].text@
}

/// Whether a profile is for a command with a name: it has the path of the command, its text or
/// its name, and the first words after it.
pub open spec fn profile_is_for(
    spec: MatchSpec,
    command: Seq<CommandWord>,
    name: Seq<char>,
) -> bool {
    &&& command.len() > 0
    &&& ({
        ||| spec.path is Some && command[0].exact && spec.path->0@ == command[0].text@
        ||| spec.command is Some && (spec.command->0@ == name || spec.command->0@
            == command[0].text@)
    })
    &&& spec.args_prefix@.len() == 0 || args_match(spec.args_prefix@, command)
}

/// The number of the first profile from `i` on that is for a command with a name.
pub open spec fn first_profile(
    profiles: Seq<Profile>,
    command: Seq<CommandWord>,
    name: Seq<char>,
    i: int,
) -> Option<int>
    decreases profiles.len() - i,
{
    if i < 0 || i >= profiles.len() {
        None
    } else if profile_is_for(profiles[i].matching, command, name) {
        Some(i)
    } else {
        first_profile(profiles, command, name, i + 1)
    }
}

/// Whether this is the profile for a command with a name.
pub open spec fn chosen_profile(
    r: Option<&Profile>,
    profiles: Seq<Profile>,
    command: Seq<CommandWord>,
    name: Seq<char>,
) -> bool {
    match first_profile(profiles, command, name, 0) {
        Some(i) => r is Some && *(r->0) == profiles[i],
        None => r is None,
    }
}

fn is_for(spec: &MatchSpec, command: &Vec<CommandWord>, name: &str) -> (r: bool)
    requires
        command@.len() > 0,
    ensures
        r == profile_is_for(*spec, command@, name@),
{
    let by_path: bool = match &spec.path {
        Some(path) => command[0].exact && same(path.as_str(), command[0].text.as_str()),
        None => false,
    };
    let by_command: bool = match &spec.command {
        Some(wanted) => same(wanted.as_str(), name) || same(
            wanted.as_str(),
            command[0].text.as_str(),
        ),
        None => false,
    };
    if !(by_path || by_command) {
        return false;
    }
    let count: usize = spec.args_prefix.len();
    if count == 0 {
        return true;
    }
    if count > command.len() - 1 {
        return false;
    }
    let mut i: usize = 0;
    while i < count
        invariant
            i <= count,
            count == spec.args_prefix@.len(),
            0 < count <= command@.len() - 1,
            profile_is_for(*spec, command@, name@) == args_match(spec.args_prefix@, command@),
            forall|j: int|
                0 <= j < i ==> (#[trigger] spec.args_prefix@[j])@ == command@[j + 1].text@,
        decreases count - i,
    {
        if !same(spec.args_prefix[i].as_str(), command[i + 1].text.as_str()) {
            assert(spec.args_prefix@[i as int]@ != command@[i + 1].text@);
            return false;
        }
        i = i + 1;
    }
    true
}

/// The first profile that is for a command with a name.
pub fn find_profile_named<'a>(
    config: &'a ConfigFile,
    command: &Vec<CommandWord>,
    name: &str,
) -> (r: Option<&'a Profile>)
    ensures
        chosen_profile(r, config.profiles@, command@, name@),
{
    if command.len() == 0 {
        proof {
            lemma_no_command_no_profile(config.profiles@, command@, name@, 0);
        }
        return None;
    }
    let mut i: usize = 0;
    while i < config.profiles.len()
        invariant
            i <= config.profiles@.len(),
            command@.len() > 0,
            first_profile(config.profiles@, command@, name@, 0) == first_profile(
                config.profiles@,
                command@,
                name@,
                i as int,
            ),
        decreases config.profiles@.len() - i,
    {
        if is_for(&config.profiles[i].matching, command, name) {
            return Some(&config.profiles[i]);
        }
        i = i + 1;
    }
    None
}

proof fn lemma_no_command_no_profile(
    profiles: Seq<Profile>,
    command: Seq<CommandWord>,
    name: Seq<char>,
    i: int,
)
    requires
        command.len() == 0,
    ensures
        first_profile(profiles, command, name, i) is None,
    decreases profiles.len() - i,
{
    if 0 <= i < profiles.len() {
        lemma_no_command_no_profile(profiles, command, name, i + 1);
    }
}

/// The name that a command with an ordinary path goes by: the last component of its path, or its
/// text where there is none.
pub open spec fn name_of(text: Seq<char>) -> Seq<char> {
    match last_component(text) {
        Some(part) => part,
        None => text,
    }
}

/// Whether a command can go by a name: by the last component of its path, or by its text where
/// there is none.
pub open spec fn can_be_named(text: Seq<char>, name: Seq<char>) -> bool {
    if ordinary_path(text) {
        name == name_of(text)
    } else {
        name == text || (part_of(text, name) && name.len() > 0)
    }
}

/// The first profile that is for a command. The command goes by the last component of its path,
/// or by its text where there is none.
pub fn find_profile<'a>(config: &'a ConfigFile, command: &Vec<CommandWord>) -> (r: Option<
    &'a Profile,
>)
    ensures
        command@.len() == 0 ==> r is None,
        command@.len() > 0 ==> exists|name: Seq<char>| #[trigger]
            can_be_named(command@[0].text@, name) && chosen_profile(
                r,
                config.profiles@,
                command@,
                name,
            ),
        command@.len() > 0 && ordinary_path(command@[0].text@) ==> chosen_profile(
            r,
            config.profiles@,
            command@,
            name_of(command@[0].text@),
        ),
{
    if command.len() == 0 {
        return None;
    }
    let name: String = match file_name(command[0].text.as_str()) {
        Some(name) => name,
        None => command[0].text.clone(),
    };
    assert(can_be_named(command@[0].text@, name@));
    find_profile_named(config, command, name.as_str())
}

/// A command goes by what follows the last slash of its path, if that is anything but one or two
/// dots.
pub proof fn law_commands_go_by_their_last_part(text: Seq<char>)
    requires
        last_part(text).len() > 0,
        last_part(text) != seq!['.'],
        last_part(text) != seq!['.', '.'],
    ensures
        name_of(text) == last_part(text),
{
    lemma_last_start(text, text.len() as int);
    if text.last() == '/' {
        assert(last_part(text).len() == 0);
    }
}

/// A command without a slash goes by its word.
pub proof fn law_plain_commands_go_by_their_word(text: Seq<char>)
    requires
        !text.contains('/'),
    ensures
        name_of(text) == text,
{
    lemma_no_slash(text, text.len() as int);
    assert(last_part(text) =~= text);
    if text.len() > 0 {
        assert(text.contains(text.last()));
    }
    if text.len() > 1 {
        assert(seq!['.'].len() == 1);
    }
}

proof fn lemma_last_start(text: Seq<char>, n: int)
    requires
        0 <= n <= text.len(),
    ensures
        0 <= last_start(text, n) <= n,
    decreases n,
{
    if n > 0 && text[n - 1] != '/' {
        lemma_last_start(text, n - 1);
    }
}

proof fn lemma_no_slash(text: Seq<char>, n: int)
    requires
        0 <= n <= text.len(),
        !text.contains('/'),
    ensures
        last_start(text, n) == 0,
    decreases n,
{
    if n > 0 {
        assert(text.contains(text[n - 1]));
        lemma_no_slash(text, n - 1);
    }
}

/// Whether a run has something to work on: a command, or what is piped in.
pub fn check_command(command: &Vec<CommandWord>, stdin_is_tty: bool) -> (r: Result<(), ConfigError>)
    ensures
        r is Ok <==> !(command@.len() == 0 && stdin_is_tty),
        r is Err ==> r->Err_0@ == ConfigFault::CommandRequired,
{
    if command.len() == 0 && stdin_is_tty {
        Err(ConfigError::CommandRequired)
    } else {
        Ok(())
    }
}

/// The execution path of a run. Where it is left open, output that does not go to a capable
/// terminal is left alone, what is piped in is treated as the output of a command, and a command
/// runs on the screen.
pub open spec fn backend_for(
    requested: Backend,
    has_command: bool,
    stdin_is_tty: bool,
    stdout_is_tty: bool,
    term_is_dumb: bool,
) -> Backend {
    if requested != Backend::Auto {
        requested
    } else if !stdout_is_tty || term_is_dumb {
        Backend::Raw
    } else if !has_command && !stdin_is_tty {
        Backend::Cli
    } else {
        Backend::Tui
    }
}

/// The execution path of a run.
pub fn resolve_backend(
    requested: Backend,
    command: &Vec<CommandWord>,
    stdin_is_tty: bool,
    stdout_is_tty: bool,
    term_is_dumb: bool,
) -> (r: Backend)
    ensures
        r == backend_for(
            requested,
            command@.len() > 0,
            stdin_is_tty,
            stdout_is_tty,
            term_is_dumb,
        ),
        r != Backend::Auto,
{
    match requested {
        Backend::Tui => Backend::Tui,
        Backend::Cli => Backend::Cli,
        Backend::Raw => Backend::Raw,
        Backend::Auto => {
            if !stdout_is_tty || term_is_dumb {
                Backend::Raw
            } else if command.len() == 0 && !stdin_is_tty {
                Backend::Cli
            } else {
                Backend::Tui
            }
        },
    }
}

/// The feature that a mode stands for.
pub open spec fn feature_of(mode: Mode) -> Feature {
    match mode {
        Mode::Reveal => Feature::Reveal,
        Mode::ColorLive => Feature::LiveColor,
        Mode::Splash => Feature::Splash,
        Mode::LiveRender => Feature::LiveRender,
    }
}

/// The features that a mode stands for.
pub fn mode_to_features(mode: Mode) -> (r: Vec<Feature>)
    ensures
        r@ == seq![feature_of(mode)],
{
    let feature: Feature = match mode {
        Mode::Reveal => Feature::Reveal,
        Mode::ColorLive => Feature::LiveColor,
        Mode::Splash => Feature::Splash,
        Mode::LiveRender => Feature::LiveRender,
    };
    let mut r: Vec<Feature> = Vec::new();
    r.push(feature);
    assert(r@ =~= seq![feature_of(mode)]);
    r
}

/// The features of a mode that may be left out.
pub open spec fn features_of(mode: Option<Mode>) -> Set<Feature> {
    match mode {
        Some(inner) => Set::empty().insert(feature_of(inner)),
        None => Set::empty(),
    }
}

/// The features that a profile and the mode of the command line ask for. The features of a
/// profile count, and its mode only where it has none.
pub open spec fn asked_features(profile: Profile, cli_mode: Option<Mode>) -> Set<Feature> {
    (if profile.features@.len() > 0 {
        profile.features@.to_set()
    } else {
        features_of(profile.mode)
    }).union(features_of(cli_mode))
}

/// The features of a path where none are asked for.
pub open spec fn usual_features(backend: Backend) -> Set<Feature> {
    match backend {
        Backend::Tui => Set::empty().insert(Feature::Reveal).insert(Feature::LiveColor),
        Backend::Cli => Set::empty().insert(Feature::InlineAnimation),
        Backend::Raw => Set::empty(),
        Backend::Auto => Set::empty(),
    }
}

/// The features of a run, before the terminal is looked at.
pub open spec fn features_for(profile: Profile, cli_mode: Option<Mode>, backend: Backend) -> Set<
    Feature,
> {
    let asked = asked_features(profile, cli_mode);
    if asked == Set::<Feature>::empty() {
        usual_features(backend)
    } else {
        asked
    }
}

fn add_features(set: &mut FeatureSet, list: &Vec<Feature>)
    ensures
        final(set)@ == old(set)@.union(list@.to_set()),
{
    let mut i: usize = 0;
    assert(list@.take(0).to_set() =~= Set::empty());
    assert(set@ =~= old(set)@.union(list@.take(0).to_set()));
    while i < list.len()
        invariant
            i <= list@.len(),
            set@ == old(set)@.union(list@.take(i as int).to_set()),
        decreases list@.len() - i,
    {
        let ghost before = set@;
        set.insert(list[i]);
        proof {
            let now = list@.take(i + 1);
            let earlier = list@.take(i as int);
            assert(now =~= earlier.push(list@[i as int]));
            assert forall|feature: Feature|
                before.insert(list@[i as int]).contains(feature) == old(set)@.union(
                    now.to_set(),
                ).contains(feature) by {
                if now.contains(feature) {
                    let k = choose|k: int| 0 <= k < now.len() && now[k] == feature;
                    if k < i {
                        assert(earlier[k] == feature);
                    }
                }
                if earlier.contains(feature) {
                    let k = choose|k: int| 0 <= k < earlier.len() && earlier[k] == feature;
                    assert(now[k] == feature);
                }
                assert(now[i as int] == list@[i as int]);
            }
        }
        i = i + 1;
        assert(set@ =~= old(set)@.union(list@.take(i as int).to_set()));
    }
    assert(list@.take(i as int) =~= list@);
}

/// The features of a run, before the terminal is looked at.
pub fn resolve_features(profile: &Profile, cli_mode: Option<Mode>, backend: Backend) -> (r:
    FeatureSet)
    ensures
        r@ == features_for(*profile, cli_mode, backend),
{
    let mut features: FeatureSet = FeatureSet::new();
    if profile.features.len() > 0 {
        add_features(&mut features, &profile.features);
    } else if let Some(mode) = profile.mode {
        add_features(&mut features, &mode_to_features(mode));
    }
    let ghost first = if profile.features@.len() > 0 {
        profile.features@.to_set()
    } else {
        features_of(profile.mode)
    };
    proof {
        if profile.features@.len() == 0 && profile.mode is Some {
            lemma_one_feature(feature_of(profile.mode->0));
        }
        assert(features@ =~= first);
    }
    if let Some(mode) = cli_mode {
        add_features(&mut features, &mode_to_features(mode));
        proof {
            lemma_one_feature(feature_of(mode));
        }
    }
    assert(features@ =~= asked_features(*profile, cli_mode));
    if features.is_empty() {
        match backend {
            Backend::Tui => {
                features.insert(Feature::Reveal);
                features.insert(Feature::LiveColor);
            },
            Backend::Cli => {
                features.insert(Feature::InlineAnimation);
            },
            Backend::Raw => {},
            Backend::Auto => {},
        }
    }
    features
}

proof fn lemma_one_feature(feature: Feature)
    ensures
        seq![feature].to_set() == Set::<Feature>::empty().insert(feature),
{
    let one = seq![feature];
    assert forall|other: Feature| one.to_set().contains(other) == Set::<Feature>::empty().insert(
        feature,
    ).contains(other) by {
        assert(one[0] == feature);
    }
    assert(one.to_set() =~= Set::<Feature>::empty().insert(feature));
}

/// The features that are left on a terminal. Nothing is shown where the output does not go to a
/// capable terminal, and colours are left alone where none are wanted.
pub open spec fn shown_features(
    features: Set<Feature>,
    stdout_is_tty: bool,
    term_is_dumb: bool,
    no_color: bool,
) -> Set<Feature> {
    let shown = if !stdout_is_tty || term_is_dumb {
        features.intersect(Set::empty().insert(Feature::Keymap))
    } else {
        features
    };
    if no_color {
        shown.remove(Feature::LiveColor)
    } else {
        shown
    }
}

/// The features that are left on a terminal.
pub fn features_on_terminal(
    features: FeatureSet,
    stdout_is_tty: bool,
    term_is_dumb: bool,
    no_color: bool,
) -> (r: FeatureSet)
    ensures
        r@ == shown_features(features@, stdout_is_tty, term_is_dumb, no_color),
{
    let mut r: FeatureSet = features;
    if !stdout_is_tty || term_is_dumb {
        r.remove(&Feature::Reveal);
        r.remove(&Feature::InlineAnimation);
        r.remove(&Feature::LiveColor);
        r.remove(&Feature::Splash);
        r.remove(&Feature::LiveRender);
        assert(r@ =~= features@.intersect(Set::empty().insert(Feature::Keymap)));
    }
    if no_color {
        r.remove(&Feature::LiveColor);
    }
    r
}

/// The effect of a path where none is asked for.
pub open spec fn usual_effect(backend: Backend) -> EffectKind {
    match backend {
        Backend::Tui => EffectKind::Fade,
        Backend::Cli => EffectKind::Coalesce,
        Backend::Raw => EffectKind::Plain,
        Backend::Auto => EffectKind::Plain,
    }
}

/// The effect of a path where none is asked for. The features do not matter.
pub fn default_effect_for_backend(backend: Backend, _features: &FeatureSet) -> (r: EffectKind)
    ensures
        r == usual_effect(backend),
{
    match backend {
        Backend::Tui => EffectKind::Fade,
        Backend::Cli => EffectKind::Coalesce,
        Backend::Raw => EffectKind::Plain,
        Backend::Auto => EffectKind::Plain,
    }
}

/// What is known of the terminal.
#[derive(Debug, Clone, Copy, PartialEq, Eq, Structural)]
pub struct Surroundings {
    pub stdin_is_tty: bool,
    pub stdout_is_tty: bool,
    pub term_is_dumb: bool,
    pub no_color: bool,
}

/// The execution path of a run.
pub open spec fn run_backend(cli: Cli, profile: Profile, around: Surroundings) -> Backend {
    backend_for(
        or_else(either(cli.selection.backend, profile.backend), Backend::Auto),
        cli.command@.len() > 0,
        around.stdin_is_tty,
        around.stdout_is_tty,
        around.term_is_dumb,
    )
}

/// The features of a run.
pub open spec fn run_features(cli: Cli, profile: Profile, around: Surroundings) -> Set<Feature> {
    shown_features(
        features_for(profile, cli.selection.mode, run_backend(cli, profile, around)),
        around.stdout_is_tty,
        around.term_is_dumb,
        around.no_color,
    )
}

/// Whether a run uses a theme.
pub open spec fn needs_theme(backend: Backend, features: Set<Feature>) -> bool {
    ||| backend == Backend::Tui && (features.contains(Feature::Reveal) || features.contains(
        Feature::LiveColor,
    ) || features.contains(Feature::LiveRender))
    ||| backend == Backend::Cli && features.contains(Feature::InlineAnimation)
}

/// A file to read.
#[derive(Debug, Clone, Copy, PartialEq, Eq, Structural)]
pub enum FileSource {
    /// The one that the command line names.
    CommandLine,
    /// The one that the profile names.
    Profile,
}

/// Which theme file to read: where a theme is used, the one of the command line counts before the
/// one of the profile.
pub open spec fn theme_source(cli: Cli, profile: Profile, around: Surroundings) -> Option<
    FileSource,
> {
    if !needs_theme(run_backend(cli, profile, around), run_features(cli, profile, around)) {
        None
    } else if cli.files.theme_file is Some {
        Some(FileSource::CommandLine)
    } else if profile.theme_file is Some {
        Some(FileSource::Profile)
    } else {
        None
    }
}

/// Which key map file to read: where keys are mapped, the one of the profile counts before the
/// one of the command line.
pub open spec fn keymap_source(cli: Cli, profile: Profile, around: Surroundings) -> Option<
    FileSource,
> {
    if !run_features(cli, profile, around).contains(Feature::Keymap) {
        None
    } else if profile.keymap_file is Some {
        Some(FileSource::Profile)
    } else if cli.files.keymap_file is Some {
        Some(FileSource::CommandLine)
    } else {
        None
    }
}

/// The path and the features of a run, and the files that it needs.
#[derive(Debug, Clone, Copy)]
pub struct RunPlan {
    pub backend: Backend,
    pub features: FeatureSet,
    pub theme_file: Option<FileSource>,
    pub keymap_file: Option<FileSource>,
}

/// Plans a run: its path, its features, and the files to read for it.
pub fn plan_run(cli: &Cli, profile: &Profile, around: Surroundings) -> (r: RunPlan)
    ensures
        r.backend == run_backend(*cli, *profile, around),
        r.backend != Backend::Auto,
        r.features@ == run_features(*cli, *profile, around),
        r.theme_file == theme_source(*cli, *profile, around),
        r.keymap_file == keymap_source(*cli, *profile, around),
{
    let requested: Backend = match cli.selection.backend {
        Some(backend) => backend,
        None => pick(profile.backend, Backend::Auto),
    };
    let backend: Backend = resolve_backend(
        requested,
        &cli.command,
        around.stdin_is_tty,
        around.stdout_is_tty,
        around.term_is_dumb,
    );
    let features: FeatureSet = features_on_terminal(
        resolve_features(profile, cli.selection.mode, backend),
        around.stdout_is_tty,
        around.term_is_dumb,
        around.no_color,
    );
    let themed: bool = (backend == Backend::Tui && (features.contains(&Feature::Reveal)
        || features.contains(&Feature::LiveColor) || features.contains(&Feature::LiveRender))) || (
    backend == Backend::Cli && features.contains(&Feature::InlineAnimation));
    let theme_file: Option<FileSource> = if !themed {
        None
    } else if cli.files.theme_file.is_some() {
        Some(FileSource::CommandLine)
    } else if profile.theme_file.is_some() {
        Some(FileSource::Profile)
    } else {
        None
    };
    let keymap_file: Option<FileSource> = if !features.contains(&Feature::Keymap) {
        None
    } else if profile.keymap_file.is_some() {
        Some(FileSource::Profile)
    } else if cli.files.keymap_file.is_some() {
        Some(FileSource::CommandLine)
    } else {
        None
    };
    RunPlan { backend, features, theme_file, keymap_file }
}

/// Whether a key is typed in one of some pairs.
pub open spec fn typed_in(pairs: Seq<(Seq<char>, Seq<char>)>, key: Seq<char>) -> bool {
    exists|i: int| 0 <= i < pairs.len() && (#[trigger] pairs[i]).0 == key
}

/// Those of the first `n` pairs whose key is not typed in any of others.
pub open spec fn not_replaced(
    pairs: Seq<(Seq<char>, Seq<char>)>,
    others: Seq<(Seq<char>, Seq<char>)>,
    n: int,
) -> Seq<(Seq<char>, Seq<char>)>
    decreases n,
{
    if n <= 0 {
        Seq::empty()
    } else {
        let before = not_replaced(pairs, others, n - 1);
        if typed_in(others, pairs[n - 1].0) {
            before
        } else {
            before.push(pairs[n - 1])
        }
    }
}

/// The pairs of a file and those of a profile. Those of the profile count where both type a key.
pub open spec fn merged(file: Seq<(Seq<char>, Seq<char>)>, profile: Seq<(Seq<char>, Seq<char>)>)
    -> Seq<(Seq<char>, Seq<char>)> {
    not_replaced(file, profile, file.len() as int) + profile
}

fn is_typed(pairs: &Vec<(String, String)>, key: &str) -> (r: bool)
    ensures
        r == typed_in(keymap::pairs_view(pairs@), key@),
{
    let ghost names = keymap::pairs_view(pairs@);
    let mut i: usize = 0;
    while i < pairs.len()
        invariant
            i <= pairs@.len(),
            names == keymap::pairs_view(pairs@),
            forall|j: int| 0 <= j < i ==> (#[trigger] names[j]).0 != key@,
        decreases pairs@.len() - i,
    {
        assert(names[i as int].0 == pairs@[i as int].0@);
        if same(pairs[i].0.as_str(), key) {
            return true;
        }
        i = i + 1;
    }
    false
}

fn push_pair(list: &mut Vec<(String, String)>, pair: &(String, String))
    ensures
        keymap::pairs_view(final(list)@) == keymap::pairs_view(old(list)@).push(
            (pair.0@, pair.1@),
        ),
{
    list.push((pair.0.clone(), pair.1.clone()));
    assert(keymap::pairs_view(list@) =~= keymap::pairs_view(old(list)@).push((pair.0@, pair.1@)));
}

/// The pairs of a file and those of a profile. Those of the profile count where both type a key.
pub fn merge_keymaps(file: &Vec<(String, String)>, profile: &Vec<(String, String)>) -> (r: Vec<
    (String, String),
>)
    ensures
        keymap::pairs_view(r@) == merged(
            keymap::pairs_view(file@),
            keymap::pairs_view(profile@),
        ),
{
    let ghost base = keymap::pairs_view(file@);
    let ghost over = keymap::pairs_view(profile@);
    let mut r: Vec<(String, String)> = Vec::new();
    let mut i: usize = 0;
    assert(keymap::pairs_view(r@) =~= not_replaced(base, over, 0));
    while i < file.len()
        invariant
            i <= file@.len(),
            base == keymap::pairs_view(file@),
            over == keymap::pairs_view(profile@),
            keymap::pairs_view(r@) == not_replaced(base, over, i as int),
        decreases file@.len() - i,
    {
        assert(base[i as int] == (file@[i as int].0@, file@[i as int].1@));
        if !is_typed(profile, file[i].0.as_str()) {
            push_pair(&mut r, &file[i]);
        }
        i = i + 1;
    }
    let ghost kept = not_replaced(base, over, file@.len() as int);
    let mut j: usize = 0;
    assert(kept =~= kept + over.take(0));
    while j < profile.len()
        invariant
            j <= profile@.len(),
            over == keymap::pairs_view(profile@),
            keymap::pairs_view(r@) == kept + over.take(j as int),
        decreases profile@.len() - j,
    {
        assert(over[j as int] == (profile@[j as int].0@, profile@[j as int].1@));
        push_pair(&mut r, &profile[j]);
        j = j + 1;
        assert(keymap::pairs_view(r@) =~= kept + over.take(j as int));
    }
    assert(over.take(j as int) =~= over);
    r
}

/// The colour of a setting that may be left out.
pub open spec fn color_of(value: Option<String>) -> Option<Rgb> {
    match value {
        Some(raw) => theme::hex_color(raw@),
        None => None,
    }
}

/// Why the colour of a setting is refused.
pub open spec fn color_fault(setting: ColorSetting, value: Option<String>) -> Option<ConfigFault> {
    match value {
        Some(raw) => if theme::hex_color(raw@) is None {
            Some(ConfigFault::Color(setting, raw@))
        } else {
            None
        },
        None => None,
    }
}

fn read_color(setting: ColorSetting, value: &Option<String>) -> (r: Result<
    Option<Rgb>,
    ConfigError,
>)
    ensures
        match color_fault(setting, *value) {
            Some(fault) => r is Err && r->Err_0@ == fault,
            None => r == Ok::<Option<Rgb>, ConfigError>(color_of(*value)),
        },
{
    let raw: Option<&str> = match value {
        Some(inner) => Some(inner.as_str()),
        None => None,
    };
    match parse_optional_rgb(raw) {
        Ok(color) => Ok(color),
        Err(error) => Err(ConfigError::Color { setting, error }),
    }
}

/// The theme of a run, with the theme that was read from a file.
pub open spec fn run_theme(
    cli: Cli,
    profile: Profile,
    around: Surroundings,
    loaded: Option<ThemeView>,
) -> ThemeView {
    if !needs_theme(run_backend(cli, profile, around), run_features(cli, profile, around)) {
        theme::builtin("default"@)
    } else if theme_source(cli, profile, around) is Some {
        loaded->0
    } else {
        theme::builtin(
            match profile.palette {
                Some(name) => name@,
                None => cli.files.palette@,
            },
        )
    }
}

/// The key names of a run, with those that were read from a file.
pub open spec fn run_pairs(
    cli: Cli,
    profile: Profile,
    around: Surroundings,
    file: Seq<(Seq<char>, Seq<char>)>,
) -> Seq<(Seq<char>, Seq<char>)> {
    if run_features(cli, profile, around).contains(Feature::Keymap) {
        merged(file, keymap::pairs_view(profile.keymap@))
    } else {
        Seq::empty()
    }
}

/// The colour of the highlights of the command line, where it is not left out.
pub open spec fn run_highlight_color(cli: Cli, profile: Profile) -> Option<String> {
    either(profile.highlight_color, cli.highlight.highlight_color)
}

/// Why a run cannot be set up, with what became of its rules.
pub open spec fn setup_fault(
    cli: Cli,
    profile: Profile,
    around: Surroundings,
    file: Seq<(Seq<char>, Seq<char>)>,
    highlight: Result<Vec<HighlightRule>, RuleError>,
    transform: Result<Vec<OutputTransformRule>, RuleError>,
) -> Option<ConfigFault> {
    let key = keymap::first_fault(run_pairs(cli, profile, around, file), 0);
    let animation = color_fault(ColorSetting::CliAnimationColor, profile.cli_animation_color);
    let settled = color_fault(ColorSetting::CliSettledColor, profile.cli_settled_color);
    let start = color_fault(ColorSetting::CliGradientStart, profile.cli_gradient_start);
    let end = color_fault(ColorSetting::CliGradientEnd, profile.cli_gradient_end);
    let color = color_fault(ColorSetting::HighlightColor, run_highlight_color(cli, profile));
    if cli.command@.len() == 0 && around.stdin_is_tty {
        Some(ConfigFault::CommandRequired)
    } else if key is Some {
        Some(ConfigFault::Key((key->0).0, (key->0).1))
    } else if animation is Some {
        animation
    } else if settled is Some {
        settled
    } else if start is Some {
        start
    } else if end is Some {
        end
    } else if color is Some {
        color
    } else if highlight is Err {
        Some(ConfigFault::Highlight(highlight->Err_0@))
    } else if transform is Err {
        Some(ConfigFault::Transform(transform->Err_0@))
    } else {
        None
    }
}

/// Whether a run is set up as the command line and the profile ask. What the profile says counts
/// before what the command line says, but for the path, the effect and the theme file.
pub open spec fn set_up(
    rt: Runtime,
    cli: Cli,
    profile: Profile,
    around: Surroundings,
    loaded: Option<ThemeView>,
    file: Seq<(Seq<char>, Seq<char>)>,
) -> bool {
    let backend = run_backend(cli, profile, around);
    let pairs = run_pairs(cli, profile, around, file);
    let frames = or_else(profile.frames, cli.animation.frames);
    &&& rt.backend == backend
    &&& rt.features@ == run_features(cli, profile, around)
    &&& rt.effect == or_else(either(cli.selection.effect, profile.effect), usual_effect(backend))
    &&& rt.command == cli.command
    &&& rt.theme@ == run_theme(cli, profile, around, loaded)
    &&& rt.keymap@ == keymap::compiled(pairs, pairs.len() as int)
    &&& rt.capture_ms == or_else(profile.capture_ms, cli.animation.capture_ms)
    &&& rt.duration_ms == or_else(profile.duration_ms, cli.animation.duration_ms)
    &&& rt.frames == if frames == 0 {
        1
    } else {
        frames
    }
    &&& rt.live_render_duration_ms == or_else(
        profile.live_render_duration_ms,
        cli.animation.live_render_duration_ms,
    )
    &&& rt.live_render_mouse_quiet_ms == or_else(
        profile.live_render_mouse_quiet_ms,
        cli.animation.live_render_mouse_quiet_ms,
    )
    &&& rt.animation_color_fade == or_else(
        profile.animation_color_fade,
        cli.animation.animation_color_fade,
    )
    &&& rt.animation_color_darken_factor@ == single::clamped(
        or_else(
            profile.animation_color_darken_factor,
            cli.animation.animation_color_darken_factor,
        )@,
    )
    &&& rt.max_lines == or_else(profile.max_lines, cli.cli_render.max_lines)
    &&& rt.max_bytes == or_else(profile.max_bytes, cli.cli_render.max_bytes)
    &&& rt.animate_over_limit == or_else(
        profile.animate_over_limit,
        cli.cli_render.animate_over_limit,
    )
    &&& rt.cli_animation_color == color_of(profile.cli_animation_color)
    &&& rt.cli_settled_color == color_of(profile.cli_settled_color)
    &&& rt.cli_gradient_start == color_of(profile.cli_gradient_start)
    &&& rt.cli_gradient_end == color_of(profile.cli_gradient_end)
    &&& rt.no_theme_after_reveal == cli.animation.no_theme_after_reveal
}

/// Whether this is what becomes of a run, with what became of its rules.
pub open spec fn assembled(
    r: Result<Runtime, ConfigError>,
    cli: Cli,
    profile: Profile,
    around: Surroundings,
    loaded: Option<ThemeView>,
    file: Seq<(Seq<char>, Seq<char>)>,
    highlight: Result<Vec<HighlightRule>, RuleError>,
    transform: Result<Vec<OutputTransformRule>, RuleError>,
) -> bool {
    match setup_fault(cli, profile, around, file, highlight, transform) {
        Some(fault) => r is Err && r->Err_0@ == fault,
        None => {
            &&& r is Ok
            &&& set_up(r->Ok_0, cli, profile, around, loaded, file)
            &&& r->Ok_0.highlight_rules == highlight->Ok_0
            &&& r->Ok_0.output_transforms == transform->Ok_0
        },
    }
}

/// What a theme that may be missing says.
pub open spec fn loaded_view(theme: Option<Theme>) -> Option<ThemeView> {
    match theme {
        Some(inner) => Some(inner@),
        None => None,
    }
}

/// Sets up a run, with what became of its rules. `theme` is what was read from the theme file,
/// and `file` the pairs of the key map file, if the plan of the run names such files.
pub fn assemble_runtime(
    cli: Cli,
    profile: &Profile,
    around: Surroundings,
    theme: Option<Theme>,
    file: &Vec<(String, String)>,
    highlight: Result<Vec<HighlightRule>, RuleError>,
    transform: Result<Vec<OutputTransformRule>, RuleError>,
) -> (r: Result<Runtime, ConfigError>)
    requires
        theme_source(cli, *profile, around) is Some ==> theme is Some,
    ensures
        assembled(
            r,
            cli,
            *profile,
            around,
            loaded_view(theme),
            keymap::pairs_view(file@),
            highlight,
            transform,
        ),
        r is Ok && (theme is Some ==> theme->0@.usable()) ==> r->Ok_0.theme@.usable(),
{
    match check_command(&cli.command, around.stdin_is_tty) {
        Ok(()) => {},
        Err(error) => {
            return Err(error);
        },
    }
    let plan: RunPlan = plan_run(&cli, profile, around);
    let effect: EffectKind = match cli.selection.effect {
        Some(effect) => effect,
        None => pick(profile.effect, default_effect_for_backend(plan.backend, &plan.features)),
    };
    let themed: bool = (plan.backend == Backend::Tui && (plan.features.contains(&Feature::Reveal)
        || plan.features.contains(&Feature::LiveColor) || plan.features.contains(
        &Feature::LiveRender,
    ))) || (plan.backend == Backend::Cli && plan.features.contains(&Feature::InlineAnimation));
    let theme: Theme = if !themed {
        builtin_theme("default")
    } else if plan.theme_file.is_some() {
        match theme {
            Some(inner) => inner,
            None => builtin_theme("default"),
        }
    } else {
        match &profile.palette {
            Some(name) => builtin_theme(name.as_str()),
            None => builtin_theme(cli.files.palette.as_str()),
        }
    };
    let keymap: Keymap = if plan.features.contains(&Feature::Keymap) {
        let pairs: Vec<(String, String)> = merge_keymaps(file, &profile.keymap);
        match compile_keymap(&pairs) {
            Ok(keymap) => keymap,
            Err(error) => {
                return Err(ConfigError::Key(error));
            },
        }
    } else {
        Keymap::new()
    };
    let cli_animation_color: Option<Rgb> = match read_color(
        ColorSetting::CliAnimationColor,
        &profile.cli_animation_color,
    ) {
        Ok(color) => color,
        Err(error) => {
            return Err(error);
        },
    };
    let cli_settled_color: Option<Rgb> = match read_color(
        ColorSetting::CliSettledColor,
        &profile.cli_settled_color,
    ) {
        Ok(color) => color,
        Err(error) => {
            return Err(error);
        },
    };
    let cli_gradient_start: Option<Rgb> = match read_color(
        ColorSetting::CliGradientStart,
        &profile.cli_gradient_start,
    ) {
        Ok(color) => color,
        Err(error) => {
            return Err(error);
        },
    };
    let cli_gradient_end: Option<Rgb> = match read_color(
        ColorSetting::CliGradientEnd,
        &profile.cli_gradient_end,
    ) {
        Ok(color) => color,
        Err(error) => {
            return Err(error);
        },
    };
    let wanted: &Option<String> = if profile.highlight_color.is_some() {
        &profile.highlight_color
    } else {
        &cli.highlight.highlight_color
    };
    match read_color(ColorSetting::HighlightColor, wanted) {
        Ok(_) => {},
        Err(error) => {
            return Err(error);
        },
    }
    let highlight_rules: Vec<HighlightRule> = match highlight {
        Ok(list) => list,
        Err(error) => {
            return Err(ConfigError::Highlight(error));
        },
    };
    let output_transforms: Vec<OutputTransformRule> = match transform {
        Ok(list) => list,
        Err(error) => {
            return Err(ConfigError::Transform(error));
        },
    };
    let frames: usize = pick(profile.frames, cli.animation.frames);
    let factor: Single = pick(
        profile.animation_color_darken_factor,
        cli.animation.animation_color_darken_factor,
    );
    Ok(
        Runtime {
            backend: plan.backend,
            features: plan.features,
            effect,
            theme,
            keymap,
            capture_ms: pick(profile.capture_ms, cli.animation.capture_ms),
            duration_ms: pick(profile.duration_ms, cli.animation.duration_ms),
            frames: if frames == 0 {
                1
            } else {
                frames
            },
            live_render_duration_ms: pick(
                profile.live_render_duration_ms,
                cli.animation.live_render_duration_ms,
            ),
            live_render_mouse_quiet_ms: pick(
                profile.live_render_mouse_quiet_ms,
                cli.animation.live_render_mouse_quiet_ms,
            ),
            animation_color_fade: pick(
                profile.animation_color_fade,
                cli.animation.animation_color_fade,
            ),
            animation_color_darken_factor: factor.clamp_to_one(),
            max_lines: pick(profile.max_lines, cli.cli_render.max_lines),
            max_bytes: pick(profile.max_bytes, cli.cli_render.max_bytes),
            animate_over_limit: pick(
                profile.animate_over_limit,
                cli.cli_render.animate_over_limit,
            ),
            cli_animation_color,
            cli_settled_color,
            cli_gradient_start,
            cli_gradient_end,
            no_theme_after_reveal: cli.animation.no_theme_after_reveal,
            highlight_rules,
            output_transforms,
            command: cli.command,
        },
    )
}

/// The highlight rules of the command line, in a colour.
pub open spec fn highlight_options<'a>(cli: &'a Cli, color: Rgb) -> CliHighlightRuleOptions<'a> {
    CliHighlightRuleOptions {
        patterns: &cli.highlight.highlight,
        command: &cli.highlight.highlight_command,
        capture_tui_screenshot: cli.highlight.highlight_capture_tui_screenshot,
        capture_cli_text: cli.highlight.highlight_capture_cli_text,
        output_dir: &cli.highlight.highlight_output_dir,
        output_prefix: &cli.highlight.highlight_output_prefix,
        default_color: color,
    }
}

/// The highlight rules that are asked for. Those of the command line are yellow where no colour is
/// set, or where it cannot be read.
pub open spec fn run_rules(cli: Cli, profile: Profile) -> Seq<rules::RuleView> {
    let color = or_else(color_of(run_highlight_color(cli, profile)), Rgb(255, 255, 0));
    rules::wished_rules(highlight_options(&cli, color), profile.highlight_rules@)
}

/// Whether this can become of the highlight rules that are asked for, when their patterns are
/// compiled.
pub open spec fn highlight_can_be(
    highlight: Result<Vec<HighlightRule>, RuleError>,
    cli: Cli,
    profile: Profile,
) -> bool {
    let wished = run_rules(cli, profile);
    exists|compiled: Seq<Result<Regex, regex::Error>>|
        rules::fits(compiled, rules::rule_patterns(wished)) && #[trigger] rules::rules_answer(
            highlight,
            wished,
            compiled,
        )
}

/// The rules that replace or mask that are asked for.
pub open spec fn run_transforms(cli: Cli, profile: Profile) -> Seq<rules::TransformView> {
    rules::wished_transforms(
        cli.transform.replace@,
        cli.transform.mask@,
        cli.transform.mask_char@,
        profile.replace_rules@,
        profile.mask_rules@,
    )
}

/// Whether this can become of the rules that replace or mask, when their patterns are compiled.
pub open spec fn transform_can_be(
    transform: Result<Vec<OutputTransformRule>, RuleError>,
    cli: Cli,
    profile: Profile,
) -> bool {
    match rules::arguments_fault(cli.transform.replace@, cli.transform.mask_char@) {
        Some(fault) => transform is Err && transform->Err_0@ == fault,
        None => {
            let wished = run_transforms(cli, profile);
            exists|compiled: Seq<Result<Regex, regex::Error>>|
                rules::fits(compiled, rules::transform_patterns(wished))
                    && #[trigger] rules::transforms_answer(transform, wished, compiled)
        },
    }
}

/// Sets up a run. `theme` is what was read from the theme file, and `file` the pairs of the key
/// map file, if the plan of the run names such files. Which patterns compile is decided when they
/// are compiled; all else is as the command line, the profile and the terminal say.
pub fn build_runtime_with_env(
    cli: Cli,
    profile: &Profile,
    around: Surroundings,
    theme: Option<Theme>,
    file: &Vec<(String, String)>,
) -> (r: Result<Runtime, ConfigError>)
    requires
        theme_source(cli, *profile, around) is Some ==> theme is Some,
    ensures
        exists|
            highlight: Result<Vec<HighlightRule>, RuleError>,
            transform: Result<Vec<OutputTransformRule>, RuleError>,
        |
            highlight_can_be(highlight, cli, *profile) && transform_can_be(transform, cli, *profile)
                && #[trigger] assembled(
                r,
                cli,
                *profile,
                around,
                loaded_view(theme),
                keymap::pairs_view(file@),
                highlight,
                transform,
            ),
        r is Ok && (theme is Some ==> theme->0@.usable()) ==> r->Ok_0.theme@.usable(),
{
    let wanted: Option<&str> = match &profile.highlight_color {
        Some(raw) => Some(raw.as_str()),
        None => match &cli.highlight.highlight_color {
            Some(raw) => Some(raw.as_str()),
            None => None,
        },
    };
    let default_color: Rgb = match parse_highlight_color(wanted) {
        Ok(rgb) => rgb,
        Err(_) => Rgb(255, 255, 0),
    };
    let highlight: Result<Vec<HighlightRule>, RuleError> = compile_highlight_rules(
        &CliHighlightRuleOptions {
            patterns: &cli.highlight.highlight,
            command: &cli.highlight.highlight_command,
            capture_tui_screenshot: cli.highlight.highlight_capture_tui_screenshot,
            capture_cli_text: cli.highlight.highlight_capture_cli_text,
            output_dir: &cli.highlight.highlight_output_dir,
            output_prefix: &cli.highlight.highlight_output_prefix,
            default_color,
        },
        &profile.highlight_rules,
    );
    let transform: Result<Vec<OutputTransformRule>, RuleError> = compile_output_transform_rules(
        &cli.transform.replace,
        &cli.transform.mask,
        cli.transform.mask_char.as_str(),
        &profile.replace_rules,
        &profile.mask_rules,
    );
    proof {
        let color = or_else(color_of(run_highlight_color(cli, *profile)), Rgb(255, 255, 0));
        assert(default_color == color);
        let wished = run_rules(cli, *profile);
        let compiled = choose|compiled: Seq<Result<Regex, regex::Error>>|
            rules::fits(compiled, rules::rule_patterns(wished)) && #[trigger] rules::rules_answer(
                highlight,
                wished,
                compiled,
            );
        assert(rules::rules_answer(highlight, wished, compiled));
        if rules::arguments_fault(cli.transform.replace@, cli.transform.mask_char@) is None {
            let asked = run_transforms(cli, *profile);
            let outcome = choose|outcome: Seq<Result<Regex, regex::Error>>|
                rules::fits(outcome, rules::transform_patterns(asked))
                    && #[trigger] rules::transforms_answer(transform, asked, outcome);
            assert(rules::transforms_answer(transform, asked, outcome));
        }
    }
    assert(highlight_can_be(highlight, cli, *profile));
    assert(transform_can_be(transform, cli, *profile));
    assemble_runtime(cli, profile, around, theme, file, highlight, transform)
}

/// Where the output does not go to a capable terminal, nothing is shown: only keys can be mapped.
pub proof fn law_nothing_is_shown_without_a_terminal(
    cli: Cli,
    profile: Profile,
    around: Surroundings,
    feature: Feature,
)
    requires
        !around.stdout_is_tty || around.term_is_dumb,
        run_features(cli, profile, around).contains(feature),
    ensures
        feature == Feature::Keymap,
{
}

/// Where no colours are wanted, they are not replaced.
pub proof fn law_no_color_is_heard(cli: Cli, profile: Profile, around: Surroundings)
    requires
        around.no_color,
    ensures
        !run_features(cli, profile, around).contains(Feature::LiveColor),
{
}

/// A path that the command line names is taken, whatever the profile and the terminal are.
pub proof fn law_named_backend_is_taken(cli: Cli, profile: Profile, around: Surroundings)
    requires
        cli.selection.backend is Some,
        cli.selection.backend != Some(Backend::Auto),
    ensures
        Some(run_backend(cli, profile, around)) == cli.selection.backend,
{
}

/// A run without rules is set up whatever patterns compile, if there is something to work on and
/// all keys and colours can be read.
pub proof fn law_runs_without_rules_are_set_up(
    r: Result<Runtime, ConfigError>,
    cli: Cli,
    profile: Profile,
    around: Surroundings,
    loaded: Option<ThemeView>,
    file: Seq<(Seq<char>, Seq<char>)>,
    highlight: Result<Vec<HighlightRule>, RuleError>,
    transform: Result<Vec<OutputTransformRule>, RuleError>,
)
    requires
        assembled(r, cli, profile, around, loaded, file, highlight, transform),
        highlight_can_be(highlight, cli, profile),
        transform_can_be(transform, cli, profile),
        cli.command@.len() > 0 || !around.stdin_is_tty,
        keymap::first_fault(run_pairs(cli, profile, around, file), 0) is None,
        color_fault(ColorSetting::CliAnimationColor, profile.cli_animation_color) is None,
        color_fault(ColorSetting::CliSettledColor, profile.cli_settled_color) is None,
        color_fault(ColorSetting::CliGradientStart, profile.cli_gradient_start) is None,
        color_fault(ColorSetting::CliGradientEnd, profile.cli_gradient_end) is None,
        color_fault(ColorSetting::HighlightColor, run_highlight_color(cli, profile)) is None,
        cli.highlight.highlight@.len() == 0,
        profile.highlight_rules@.len() == 0,
        cli.transform.replace@.len() == 0,
        cli.transform.mask@.len() == 0,
        cli.transform.mask_char@.len() == 1,
        profile.replace_rules@.len() == 0,
        profile.mask_rules@.len() == 0,
    ensures
        r is Ok,
{
    assert(run_rules(cli, profile).len() == 0);
    assert(run_transforms(cli, profile).len() == 0);
}

} // verus!
