//! What the user asks for: the arguments of the command line, and the profiles of a config file.
use crate::model::{Backend, CommandWord, EffectKind, Feature, Mode};
use crate::single::Single;
use vstd::prelude::*;

verus! {

/// Which path, mode and effect to use.
#[derive(Debug)]
pub struct SelectionArgs {
    pub backend: Option<Backend>,
    pub mode: Option<Mode>,
    pub effect: Option<EffectKind>,
}

/// The files to read, by their paths.
#[derive(Debug)]
pub struct FileArgs {
    pub config_file: Option<String>,
    pub theme_file: Option<String>,
    pub palette: String,
    pub keymap_file: Option<String>,
}

/// The times and colours of animations.
#[derive(Debug)]
pub struct AnimationArgs {
    pub capture_ms: u64,
    pub duration_ms: u64,
    pub frames: usize,
    pub live_render_duration_ms: u64,
    pub live_render_mouse_quiet_ms: u64,
    pub animation_color_fade: bool,
    pub animation_color_darken_factor: Single,
    pub no_theme_after_reveal: bool,
}

/// Which output is too long to be animated.
#[derive(Debug)]
pub struct CliRenderArgs {
    pub max_lines: usize,
    pub max_bytes: usize,
    pub animate_over_limit: bool,
}

/// What to highlight, and what to do about it.
#[derive(Debug)]
pub struct HighlightArgs {
    pub highlight: Vec<String>,
    pub highlight_color: Option<String>,
    pub highlight_command: Vec<String>,
    pub highlight_capture_cli_text: bool,
    pub highlight_capture_tui_screenshot: bool,
    pub highlight_output_dir: Option<String>,
    pub highlight_output_prefix: Option<String>,
}

/// What to replace and what to mask.
#[derive(Debug)]
pub struct TransformArgs {
    /// Patterns, each followed by the text that replaces what it matches.
    pub replace: Vec<String>,
    pub mask: Vec<String>,
    pub mask_char: String,
}

/// The arguments of the command line.
#[derive(Debug)]
pub struct Cli {
    pub selection: SelectionArgs,
    pub files: FileArgs,
    pub animation: AnimationArgs,
    pub cli_render: CliRenderArgs,
    pub highlight: HighlightArgs,
    pub transform: TransformArgs,
    pub command: Vec<CommandWord>,
}

/// A config file.
#[derive(Debug)]
pub struct ConfigFile {
    pub profiles: Vec<Profile>,
}

/// Which commands a profile is for.
#[derive(Debug)]
pub struct MatchSpec {
    pub command: Option<String>,
    pub path: Option<String>,
    pub args_prefix: Vec<String>,
}

/// A highlight rule of a profile.
#[derive(Debug)]
pub struct HighlightRuleConfig {
    pub key: Option<String>,
    pub pattern: String,
    pub color: Option<String>,
    pub command: Option<Vec<String>>,
    pub capture_tui_screenshot: bool,
    pub capture_cli_text: bool,
    pub output_dir: Option<String>,
    pub output_prefix: Option<String>,
}

/// A rule of a profile that replaces matching text.
#[derive(Debug)]
pub struct ReplaceRuleConfig {
    pub pattern: String,
    pub replacement: String,
}

/// A rule of a profile that masks matching text.
#[derive(Debug)]
pub struct MaskRuleConfig {
    pub pattern: String,
    pub mask_char: Option<String>,
}

/// The settings for some commands. What is left out is taken from the command line.
#[derive(Debug)]
pub struct Profile {
    pub name: Option<String>,
    pub matching: MatchSpec,
    pub backend: Option<Backend>,
    pub features: Vec<Feature>,
    pub mode: Option<Mode>,
    pub effect: Option<EffectKind>,
    pub theme_file: Option<String>,
    pub palette: Option<String>,
    pub keymap_file: Option<String>,
    /// Pairs of key names: the key that is typed, and the key that is sent. No key is typed in
    /// two of them.
    pub keymap: Vec<(String, String)>,
    pub capture_ms: Option<u64>,
    pub duration_ms: Option<u64>,
    pub frames: Option<usize>,
    pub live_render_duration_ms: Option<u64>,
    pub live_render_mouse_quiet_ms: Option<u64>,
    pub animation_color_fade: Option<bool>,
    pub animation_color_darken_factor: Option<Single>,
    pub max_lines: Option<usize>,
    pub max_bytes: Option<usize>,
    pub animate_over_limit: Option<bool>,
    pub cli_animation_color: Option<String>,
    pub cli_settled_color: Option<String>,
    pub cli_gradient_start: Option<String>,
    pub cli_gradient_end: Option<String>,
    pub highlight_color: Option<String>,
    pub highlight_rules: Vec<HighlightRuleConfig>,
    pub replace_rules: Vec<ReplaceRuleConfig>,
    pub mask_rules: Vec<MaskRuleConfig>,
}

impl Profile {
    /// Whether the profile leaves everything out.
    pub open spec fn says_nothing(self) -> bool {
        &&& self.name is None
        &&& self.matching.command is None
        &&& self.matching.path is None
        &&& self.matching.args_prefix@.len() == 0
        &&& self.backend is None
        &&& self.features@.len() == 0
        &&& self.mode is None
        &&& self.effect is None
        &&& self.theme_file is None
        &&& self.palette is None
        &&& self.keymap_file is None
        &&& self.keymap@.len() == 0
        &&& self.capture_ms is None
        &&& self.duration_ms is None
        &&& self.frames is None
        &&& self.live_render_duration_ms is None
        &&& self.live_render_mouse_quiet_ms is None
        &&& self.animation_color_fade is None
        &&& self.animation_color_darken_factor is None
        &&& self.max_lines is None
        &&& self.max_bytes is None
        &&& self.animate_over_limit is None
        &&& self.cli_animation_color is None
        &&& self.cli_settled_color is None
        &&& self.cli_gradient_start is None
        &&& self.cli_gradient_end is None
        &&& self.highlight_color is None
        &&& self.highlight_rules@.len() == 0
        &&& self.replace_rules@.len() == 0
        &&& self.mask_rules@.len() == 0
    }
}

impl Default for Profile {
    fn default() -> (r: Profile)
        ensures
            r.says_nothing(),
    {
        Profile {
            name: None,
            matching: MatchSpec { command: None, path: None, args_prefix: Vec::new() },
            backend: None,
            features: Vec::new(),
            mode: None,
            effect: None,
            theme_file: None,
            palette: None,
            keymap_file: None,
            keymap: Vec::new(),
            capture_ms: None,
            duration_ms: None,
            frames: None,
            live_render_duration_ms: None,
            live_render_mouse_quiet_ms: None,
            animation_color_fade: None,
            animation_color_darken_factor: None,
            max_lines: None,
            max_bytes: None,
            animate_over_limit: None,
            cli_animation_color: None,
            cli_settled_color: None,
            cli_gradient_start: None,
            cli_gradient_end: None,
            highlight_color: None,
            highlight_rules: Vec::new(),
            replace_rules: Vec::new(),
            mask_rules: Vec::new(),
        }
    }
}

} // verus!
