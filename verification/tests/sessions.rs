use baeru::config::{assemble_runtime, Surroundings};
use baeru::draw::DrawOp;
use baeru::emulator::Emulator;
use baeru::model::{
    Backend, CommandWord, EffectKind, Feature, FeatureSet, HighlightRule, OutputTransformKind,
    OutputTransformRule, Rgb, Runtime,
};
use baeru::session::{
    initial_output, look_at, reveals_with_theme, start_live, start_reveal, tui_plan,
    PassthroughSession, TuiPlan,
};
use baeru::settings::{
    AnimationArgs, Cli, CliRenderArgs, FileArgs, HighlightArgs, Profile, SelectionArgs,
    TransformArgs,
};
use baeru::single::Single;
use baeru::theme::builtin_theme;
use regex::Regex;

fn run(features: Vec<Feature>, effect: EffectKind, rules: Vec<HighlightRule>) -> Runtime {
    let cli = Cli {
        selection: SelectionArgs { backend: Some(Backend::Tui), mode: None, effect: Some(effect) },
        files: FileArgs {
            config_file: None,
            theme_file: None,
            palette: "default".to_string(),
            keymap_file: None,
        },
        animation: AnimationArgs {
            capture_ms: 360,
            duration_ms: 720,
            frames: 24,
            live_render_duration_ms: 90,
            live_render_mouse_quiet_ms: 180,
            animation_color_fade: false,
            animation_color_darken_factor: Single { bits: 0.25f32.to_bits() },
            no_theme_after_reveal: false,
        },
        cli_render: CliRenderArgs {
            max_lines: 200,
            max_bytes: 1_000_000,
            animate_over_limit: false,
        },
        highlight: HighlightArgs {
            highlight: vec![],
            highlight_color: None,
            highlight_command: vec![],
            highlight_capture_cli_text: false,
            highlight_capture_tui_screenshot: false,
            highlight_output_dir: None,
            highlight_output_prefix: None,
        },
        transform: TransformArgs { replace: vec![], mask: vec![], mask_char: "*".to_string() },
        command: vec![CommandWord { text: "htop".to_string(), exact: true }],
    };
    let around = Surroundings {
        stdin_is_tty: true,
        stdout_is_tty: true,
        term_is_dumb: false,
        no_color: false,
    };
    let profile = Profile { features, ..Profile::default() };
    let masks = vec![OutputTransformRule {
        regex: Regex::new("secret").expect("regex should compile"),
        kind: OutputTransformKind::Mask('*'),
    }];
    assemble_runtime(cli, &profile, around, None, &vec![], Ok(rules), Ok(masks))
        .ok()
        .expect("runtime should build")
}

fn rule(pattern: &str) -> HighlightRule {
    HighlightRule {
        key: pattern.to_string(),
        pattern: pattern.to_string(),
        regex: Regex::new(pattern).expect("regex should compile"),
        color: Rgb(255, 255, 0),
        command: None,
        capture_tui_screenshot: false,
        capture_cli_text: false,
        output_dir: None,
        output_prefix: None,
    }
}

fn text_of(ops: &[DrawOp]) -> String {
    ops.iter()
        .map(|op| match op {
            DrawOp::Text(text) => text.as_str(),
            _ => "",
        })
        .collect()
}

#[test]
fn the_first_feature_decides_the_plan() {
    let mut features = FeatureSet::new();
    assert_eq!(tui_plan(&features), TuiPlan::Passthrough { themed: false, mapped: false });
    features.insert(Feature::Keymap);
    features.insert(Feature::LiveColor);
    assert_eq!(tui_plan(&features), TuiPlan::Passthrough { themed: true, mapped: true });
    features.insert(Feature::Reveal);
    assert_eq!(tui_plan(&features), TuiPlan::Reveal);
    features.insert(Feature::Splash);
    assert_eq!(tui_plan(&features), TuiPlan::Splash);
    features.insert(Feature::LiveRender);
    assert_eq!(tui_plan(&features), TuiPlan::LiveRender);
}

#[test]
fn reveals_use_the_theme_with_live_color() {
    let both = vec![Feature::Reveal, Feature::LiveColor];
    let mut rt = run(both, EffectKind::Plain, vec![]);
    assert!(reveals_with_theme(&rt));
    rt.no_theme_after_reveal = true;
    assert!(!reveals_with_theme(&rt));
}

#[test]
fn captured_output_is_shown_without_the_alternate_screen() {
    assert_eq!(initial_output(&b"\x1b[?1049hab".to_vec()), b"ab".to_vec());
    assert_eq!(initial_output(&b"ab\x1b[1m".to_vec()), b"ab\x1b[1m".to_vec());
}

#[test]
fn a_screen_is_looked_at_with_its_rules() {
    let mut screen = Emulator::open(2, 8).expect("the size can be emulated");
    screen.feed(b"an error");
    let cells = baeru::screen::collect_screen(&screen, 2, 8, None);
    let seen = look_at(cells, &[rule("error")]);
    assert_eq!(seen.triggers.len(), 1);
    assert_eq!(seen.colors[0][3], Some(Rgb(255, 255, 0)));
    assert_eq!(seen.colors[0][0], None);
    assert!(seen.picture.contains(">e</text>"));
}

#[test]
fn a_reveal_starts_from_what_was_captured() {
    let rt = run(vec![Feature::Reveal], EffectKind::Fade, vec![rule("error")]);
    let captured = b"\x1b[?1049han error, secret".to_vec();
    let mut screen = Emulator::open(2, 20).expect("the size can be emulated");
    screen.feed(&captured);
    let opening = start_reveal(&rt, &screen, &captured);
    assert!(opening.alt_screen);
    assert!(!opening.themed);
    assert_eq!(opening.initial, b"an error, secret".to_vec());
    assert_eq!(opening.observation.triggers.len(), 1);
    let line: String =
        opening.observation.cells[0].iter().map(|cell| cell.text.as_str()).collect();
    assert!(line.starts_with("an error, ******"));
}

#[test]
fn a_live_screen_follows_the_output() {
    let rt = run(vec![Feature::LiveRender], EffectKind::Fade, vec![rule("error")]);
    let captured = b"\x1b[?1049h\x1b[?1000hhello".to_vec();
    let mut screen = Emulator::open(2, 12).expect("the size can be emulated");
    screen.feed(&captured);
    let (mut live, opening) = start_live(&rt, screen, &captured);
    assert!(opening.alt_screen);
    assert!(opening.triggers.is_empty());
    assert_eq!(opening.passed_on, b"\x1b[?1000h".to_vec());
    assert!(text_of(&opening.ops).contains("hello"));

    let update = live.update(&rt, b"\x1b[2;1Herror secret", None, false);
    assert!(!update.clear);
    assert_eq!(update.triggers.len(), 1);
    assert!(update.passed_on.is_empty());
    let drawn = text_of(&update.ops);
    assert!(drawn.ends_with("\x1b[0m"));
    assert!(drawn.contains("error"));
    assert!(!drawn.contains("secret"));
    assert!(update.ops.contains(&DrawOp::Wait(45)));

    let quiet = live.update(&rt, b"\x1b[1;1Hjello", None, true);
    assert!(quiet.triggers.is_empty());
    assert!(!quiet.ops.contains(&DrawOp::Wait(45)));

    let resized = live.update(&rt, b"new", Some((3, 10)), false);
    assert!(resized.clear);
    assert_eq!(live.size, (3, 10));
    assert!(text_of(&resized.ops).contains("new"));
    let same = live.update(&rt, b"", Some((3, 10)), false);
    assert!(!same.clear);
}

#[test]
fn output_passes_through_and_is_watched() {
    let rules = vec![rule("error")];
    let mut plain = PassthroughSession::start(None, Some((2, 10)));
    let update = plain.update(&rules, b"\x1b[31man error");
    assert_eq!(update.out, b"\x1b[31man error".to_vec());
    let alert = update.alert.expect("the screen is watched");
    assert_eq!(alert.triggers.len(), 1);
    assert!(!alert.ops.is_empty());
    let again = plain.update(&rules, b"\r\n").alert.expect("the screen is watched");
    assert!(again.triggers.is_empty());
    assert!(again.ops.is_empty());

    let mut unwatched = PassthroughSession::start(None, None);
    assert!(unwatched.update(&rules, b"error").alert.is_none());
    assert!(plain.update(&[], b"error").alert.is_none());

    let theme = builtin_theme("matrix");
    let red = theme.map_indexed_color(1, true);
    let mut themed = PassthroughSession::start(Some(theme), Some((2, 10)));
    let out = themed.update(&[], b"\x1b[31mx").out;
    let expected = format!("\x1b[38;2;{};{};{}mx", red.0, red.1, red.2);
    assert_eq!(String::from_utf8(out).expect("valid utf8"), expected);
}
