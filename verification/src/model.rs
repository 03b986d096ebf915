//! The data that configuration, themes and rules are made of.
use crate::keymap::Keymap;
use crate::single::Single;
use regex::Regex;
use std::collections::HashMap;
use vstd::prelude::*;

verus! {

/// A compiled regular expression.
#[verifier::external_type_specification]
#[verifier::external_body]
pub struct ExRegex(regex::Regex);

/// The execution path of a run.
#[derive(Debug, Clone, Copy, PartialEq, Eq, Structural)]
pub enum Backend {
    Auto,
    Tui,
    Cli,
    Raw,
}

/// A behaviour layered over the target command.
#[derive(Debug, Clone, Copy, PartialEq, Eq, Structural)]
pub enum Feature {
    Reveal,
    LiveColor,
    Keymap,
    InlineAnimation,
    Splash,
    LiveRender,
}

/// A named choice of features.
#[derive(Debug, Clone, Copy, PartialEq, Eq, Structural)]
pub enum Mode {
    Reveal,
    ColorLive,
    Splash,
    /// Rebuild the live screen from the emulated terminal and flash changed cells.
    LiveRender,
}

/// The look of an animation.
#[derive(Debug, Clone, Copy, PartialEq, Eq, Structural)]
pub enum EffectKind {
    Coalesce,
    Glitch,
    Matrix,
    Scanline,
    Scatter,
    Sweep,
    Wipe,
    Fade,
    Plain,
}

/// A colour: red, green and blue.
#[derive(Debug, Clone, Copy, PartialEq, Eq, Structural)]
pub struct Rgb(pub u8, pub u8, pub u8);

/// A set of features.
#[derive(Debug, Clone, Copy, PartialEq, Eq, Structural)]
pub struct FeatureSet {
    pub reveal: bool,
    pub live_color: bool,
    pub keymap: bool,
    pub inline_animation: bool,
    pub splash: bool,
    pub live_render: bool,
}

impl View for FeatureSet {
    type V = Set<Feature>;

    open spec fn view(&self) -> Set<Feature> {
        Set::new(|feature: Feature| self.holds(feature))
    }
}

impl FeatureSet {
    /// Whether a feature is in the set.
    pub open spec fn holds(&self, feature: Feature) -> bool {
        match feature {
            Feature::Reveal => self.reveal,
            Feature::LiveColor => self.live_color,
            Feature::Keymap => self.keymap,
            Feature::InlineAnimation => self.inline_animation,
            Feature::Splash => self.splash,
            Feature::LiveRender => self.live_render,
        }
    }

    /// The set without features.
    pub fn new() -> (r: FeatureSet)
        ensures
            r@ == Set::<Feature>::empty(),
    {
        let r: FeatureSet = FeatureSet {
            reveal: false,
            live_color: false,
            keymap: false,
            inline_animation: false,
            splash: false,
            live_render: false,
        };
        assert(r@ =~= Set::<Feature>::empty());
        r
    }

    /// Whether a feature is in the set.
    pub fn contains(&self, feature: &Feature) -> (r: bool)
        ensures
            r == self@.contains(*feature),
    {
        match feature {
            Feature::Reveal => self.reveal,
            Feature::LiveColor => self.live_color,
            Feature::Keymap => self.keymap,
            Feature::InlineAnimation => self.inline_animation,
            Feature::Splash => self.splash,
            Feature::LiveRender => self.live_render,
        }
    }

    /// Whether the set has no feature.
    pub fn is_empty(&self) -> (r: bool)
        ensures
            r == (self@ == Set::<Feature>::empty()),
    {
        let none: bool = !(self.reveal || self.live_color || self.keymap || self.inline_animation
            || self.splash || self.live_render);
        proof {
            if none {
                assert(self@ =~= Set::<Feature>::empty());
            } else {
                assert(self@.contains(Feature::Reveal) || self@.contains(Feature::LiveColor)
                    || self@.contains(Feature::Keymap) || self@.contains(Feature::InlineAnimation)
                    || self@.contains(Feature::Splash) || self@.contains(Feature::LiveRender));
            }
        }
        none
    }

    fn set(&mut self, feature: Feature, value: bool)
        ensures
            forall|other: Feature| #[trigger]
                final(self).holds(other) == (if other == feature {
                    value
                } else {
                    old(self).holds(other)
                }),
    {
        match feature {
            Feature::Reveal => {
                self.reveal = value;
            },
            Feature::LiveColor => {
                self.live_color = value;
            },
            Feature::Keymap => {
                self.keymap = value;
            },
            Feature::InlineAnimation => {
                self.inline_animation = value;
            },
            Feature::Splash => {
                self.splash = value;
            },
            Feature::LiveRender => {
                self.live_render = value;
            },
        }
    }

    /// Puts a feature into the set.
    pub fn insert(&mut self, feature: Feature)
        ensures
            final(self)@ == old(self)@.insert(feature),
    {
        self.set(feature, true);
        assert(self@ =~= old(self)@.insert(feature));
    }

    /// Takes a feature out of the set.
    pub fn remove(&mut self, feature: &Feature)
        ensures
            final(self)@ == old(self)@.remove(*feature),
    {
        self.set(*feature, false);
        assert(self@ =~= old(self)@.remove(*feature));
    }
}

/// A colour at a position of a gradient.
#[derive(Debug, Clone)]
pub struct ColorStop {
    pub at: Single,
    pub color: String,
}

/// How the colours of a command are replaced.
#[derive(Debug, Clone)]
pub struct Theme {
    pub name: Option<String>,
    pub default_fg: Option<String>,
    pub default_bg: Option<String>,
    pub force_default: bool,
    pub palette_map: HashMap<u8, String>,
    pub background_palette_map: HashMap<u8, String>,
    pub foreground: Vec<ColorStop>,
    pub background: Vec<ColorStop>,
}

/// A rule that recolours matching text and can start a command.
#[derive(Debug)]
pub struct HighlightRule {
    pub key: String,
    pub pattern: String,
    pub regex: Regex,
    pub color: Rgb,
    pub command: Option<Vec<String>>,
    pub capture_tui_screenshot: bool,
    pub capture_cli_text: bool,
    pub output_dir: Option<String>,
    pub output_prefix: Option<String>,
}

/// What becomes of matching text.
#[derive(Debug, Clone)]
pub enum OutputTransformKind {
    Replace(String),
    Mask(char),
}

/// A rule that replaces or masks matching text.
#[derive(Debug)]
pub struct OutputTransformRule {
    pub regex: Regex,
    pub kind: OutputTransformKind,
}

/// A word of the command line: its text, and whether the word is nothing but that text. It is
/// not where something in the word cannot be written as text.
#[derive(Debug, PartialEq, Eq)]
pub struct CommandWord {
    pub text: String,
    pub exact: bool,
}

/// All that a run needs to know.
pub struct Runtime {
    pub backend: Backend,
    pub features: FeatureSet,
    pub effect: EffectKind,
    pub command: Vec<CommandWord>,
    pub theme: Theme,
    pub keymap: Keymap,
    pub capture_ms: u64,
    pub duration_ms: u64,
    pub frames: usize,
    pub live_render_duration_ms: u64,
    pub live_render_mouse_quiet_ms: u64,
    pub animation_color_fade: bool,
    pub animation_color_darken_factor: Single,
    pub max_lines: usize,
    pub max_bytes: usize,
    pub animate_over_limit: bool,
    pub cli_animation_color: Option<Rgb>,
    pub cli_settled_color: Option<Rgb>,
    pub cli_gradient_start: Option<Rgb>,
    pub cli_gradient_end: Option<Rgb>,
    pub no_theme_after_reveal: bool,
    pub highlight_rules: Vec<HighlightRule>,
    pub output_transforms: Vec<OutputTransformRule>,
}

} // verus!
