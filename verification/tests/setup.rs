use baeru::config::{
    assemble_runtime, build_runtime_with_env, check_command, config_places,
    default_effect_for_backend, features_on_terminal, find_profile, find_profile_named,
    merge_keymaps, mode_to_features, plan_run, resolve_backend, resolve_config_path_from,
    resolve_features, ColorSetting, ConfigBase, ConfigChoice, ConfigError, FileSource,
    Surroundings,
};
use baeru::model::{
    Backend, ColorStop, CommandWord, EffectKind, Feature, Mode, OutputTransformKind, Rgb, Runtime,
    Theme,
};
use baeru::rules::{
    compile_highlight_rules, compile_output_transform_rules, parse_highlight_color,
    parse_mask_char, CliHighlightRuleOptions, RuleError,
};
use baeru::settings::{
    AnimationArgs, Cli, CliRenderArgs, ConfigFile, FileArgs, HighlightArgs, HighlightRuleConfig,
    MaskRuleConfig, MatchSpec, Profile, ReplaceRuleConfig, SelectionArgs, TransformArgs,
};
use baeru::single::Single;
use std::collections::HashMap;

fn value(x: f32) -> Single {
    Single { bits: x.to_bits() }
}

fn words(list: &[&str]) -> Vec<CommandWord> {
    list.iter().map(|text| CommandWord { text: text.to_string(), exact: true }).collect()
}

fn texts(list: &[&str]) -> Vec<String> {
    list.iter().map(|text| text.to_string()).collect()
}

fn selection(
    backend: Option<Backend>,
    mode: Option<Mode>,
    effect: Option<EffectKind>,
) -> SelectionArgs {
    SelectionArgs { backend, mode, effect }
}

fn arguments(selection: SelectionArgs, palette: &str, command: &[&str]) -> Cli {
    Cli {
        selection,
        files: FileArgs {
            config_file: None,
            theme_file: None,
            palette: palette.to_string(),
            keymap_file: None,
        },
        animation: AnimationArgs {
            capture_ms: 360,
            duration_ms: 720,
            frames: 24,
            live_render_duration_ms: 90,
            live_render_mouse_quiet_ms: 180,
            animation_color_fade: false,
            animation_color_darken_factor: value(0.25),
            no_theme_after_reveal: false,
        },
        cli_render: CliRenderArgs {
            max_lines: 200,
            max_bytes: 1_000_000,
            animate_over_limit: false,
        },
        highlight: HighlightArgs {
            highlight: vec![],
            highlight_color: None,
            highlight_command: vec![],
            highlight_capture_cli_text: false,
            highlight_capture_tui_screenshot: false,
            highlight_output_dir: None,
            highlight_output_prefix: None,
        },
        transform: TransformArgs { replace: vec![], mask: vec![], mask_char: "*".to_string() },
        command: words(command),
    }
}

fn around(stdin_is_tty: bool, stdout_is_tty: bool, no_color: bool) -> Surroundings {
    Surroundings { stdin_is_tty, stdout_is_tty, term_is_dumb: false, no_color }
}

fn build(cli: Cli, profile: &Profile, around: Surroundings) -> Result<Runtime, ConfigError> {
    build_runtime_with_env(cli, profile, around, None, &vec![])
}

fn message(result: Result<Runtime, ConfigError>) -> String {
    match result {
        Ok(_) => String::from("no error"),
        Err(error) => error.message(),
    }
}

#[test]
fn find_profile_matches_command_and_args_prefix() {
    let config = ConfigFile {
        profiles: vec![
            Profile {
                name: Some("git-status".to_string()),
                matching: MatchSpec {
                    command: Some("git".to_string()),
                    path: None,
                    args_prefix: vec!["status".to_string()],
                },
                backend: Some(Backend::Cli),
                ..Profile::default()
            },
            Profile {
                name: Some("git-generic".to_string()),
                matching: MatchSpec {
                    command: Some("git".to_string()),
                    path: None,
                    args_prefix: vec![],
                },
                backend: Some(Backend::Tui),
                ..Profile::default()
            },
        ],
    };

    let command = words(&["git", "status", "--short"]);

    let profile = find_profile(&config, &command).expect("profile should match");
    assert_eq!(profile.name.as_deref(), Some("git-status"));
    assert_eq!(profile.backend, Some(Backend::Cli));

    let other = find_profile(&config, &words(&["/usr/bin/git", "log"])).expect("by its name");
    assert_eq!(other.name.as_deref(), Some("git-generic"));
    assert!(find_profile(&config, &words(&["hg"])).is_none());
    assert!(find_profile(&config, &words(&[])).is_none());
    let named = find_profile_named(&config, &words(&["anything"]), "git");
    assert_eq!(named.expect("by the name").name.as_deref(), Some("git-generic"));
}

#[test]
fn commands_go_by_the_last_part_of_their_path() {
    let config = |name: &str| ConfigFile {
        profiles: vec![Profile {
            matching: MatchSpec {
                command: Some(name.to_string()),
                path: None,
                args_prefix: vec![],
            },
            ..Profile::default()
        }],
    };
    let found = |name: &str, text: &str| find_profile(&config(name), &words(&[text])).is_some();
    assert!(found("g++", "/usr/bin/g++"));
    assert!(found("python3.11", "python3.11"));
    assert!(found("run.sh", "./run.sh"));
    assert!(found("my tool", "../a b/my tool"));
    assert!(found("tool", "/opt//tool/"));
    assert!(found("tool", "tool/."));
    assert!(found("..", ".."));
    assert!(found("a/..", "a/.."));
    assert!(found("/", "/"));
    assert!(found("./.", "./."));
    assert!(!found("a", "a/.."));
    assert!(!found("bin", "/usr/bin/g++"));
    assert!(!found("g", "/usr/bin/g++"));
    assert!(!found(".", "./run.sh"));
}

#[test]
fn profiles_are_found_by_their_path() {
    let config = ConfigFile {
        profiles: vec![Profile {
            matching: MatchSpec {
                command: None,
                path: Some("/opt/tool".to_string()),
                args_prefix: vec![],
            },
            ..Profile::default()
        }],
    };
    assert!(find_profile(&config, &words(&["/opt/tool"])).is_some());
    assert!(find_profile(&config, &words(&["tool"])).is_none());
    let lossy = vec![CommandWord { text: "/opt/tool".to_string(), exact: false }];
    assert!(find_profile(&config, &lossy).is_none());
}

#[test]
fn resolve_features_defaults_by_backend() {
    let profile = Profile::default();

    let cli_features = resolve_features(&profile, None, Backend::Cli);
    assert!(cli_features.contains(&Feature::InlineAnimation));

    let tui_features = resolve_features(&profile, None, Backend::Tui);
    assert!(tui_features.contains(&Feature::Reveal));
    assert!(tui_features.contains(&Feature::LiveColor));
}

#[test]
fn default_effect_is_fade_for_tui() {
    let profile = Profile::default();
    let features = resolve_features(&profile, None, Backend::Tui);

    assert_eq!(
        default_effect_for_backend(Backend::Tui, &features),
        EffectKind::Fade
    );
}

#[test]
fn cli_mode_adds_live_color_feature() {
    let profile = Profile::default();
    let features = resolve_features(&profile, Some(Mode::ColorLive), Backend::Tui);

    assert!(features.contains(&Feature::LiveColor));
}

#[test]
fn reveal_mode_does_not_imply_live_color_feature() {
    let profile = Profile::default();
    let features = resolve_features(&profile, Some(Mode::Reveal), Backend::Tui);

    assert!(features.contains(&Feature::Reveal));
    assert!(!features.contains(&Feature::LiveColor));
}

#[test]
fn build_runtime_with_env_applies_cli_profile_and_colors() {
    let theme = Theme {
        name: Some("fixture".to_string()),
        default_fg: Some("#eeeeee".to_string()),
        default_bg: Some("#111111".to_string()),
        force_default: true,
        palette_map: HashMap::new(),
        background_palette_map: HashMap::new(),
        foreground: vec![
            ColorStop { at: value(0.0), color: "#001122".to_string() },
            ColorStop { at: value(1.0), color: "#ddeeff".to_string() },
        ],
        background: vec![
            ColorStop { at: value(0.0), color: "#000000".to_string() },
            ColorStop { at: value(1.0), color: "#ffffff".to_string() },
        ],
    };
    let profile = Profile {
        name: Some("ls-inline".to_string()),
        matching: MatchSpec { command: Some("ls".to_string()), path: None, args_prefix: vec![] },
        backend: Some(Backend::Cli),
        features: vec![Feature::InlineAnimation],
        effect: Some(EffectKind::Sweep),
        theme_file: Some("theme.yml".to_string()),
        cli_settled_color: Some("#b6ffd0".to_string()),
        cli_gradient_start: Some("#004d26".to_string()),
        cli_gradient_end: Some("#eafff2".to_string()),
        animation_color_fade: Some(true),
        animation_color_darken_factor: Some(value(0.2)),
        duration_ms: Some(900),
        frames: Some(20),
        ..Profile::default()
    };
    let config = ConfigFile { profiles: vec![profile] };
    let cli = arguments(selection(None, None, None), "jirai-pink", &["ls"]);
    let profile = find_profile(&config, &cli.command).expect("profile should match");
    let here = around(true, true, false);
    let plan = plan_run(&cli, profile, here);
    assert_eq!(plan.theme_file, Some(FileSource::Profile));
    assert_eq!(plan.keymap_file, None);

    let runtime = build_runtime_with_env(cli, profile, here, Some(theme), &vec![])
        .ok()
        .expect("runtime should build");

    assert_eq!(runtime.backend, Backend::Cli);
    assert!(runtime.features.contains(&Feature::InlineAnimation));
    assert_eq!(runtime.effect, EffectKind::Sweep);
    assert_eq!(runtime.frames, 20);
    assert_eq!(runtime.duration_ms, 900);
    assert!(runtime.animation_color_fade);
    assert_eq!(f32::from_bits(runtime.animation_color_darken_factor.bits), 0.2);
    assert_eq!(runtime.cli_settled_color, Some(Rgb(0xb6, 0xff, 0xd0)));
    assert_eq!(runtime.cli_gradient_start, Some(Rgb(0x00, 0x4d, 0x26)));
    assert_eq!(runtime.cli_gradient_end, Some(Rgb(0xea, 0xff, 0xf2)));
    assert_eq!(runtime.theme.name.as_deref(), Some("fixture"));
}

#[test]
fn build_runtime_with_env_disables_live_color_for_no_color() {
    let runtime = build(
        arguments(
            selection(Some(Backend::Tui), Some(Mode::Reveal), None),
            "jirai-pink",
            &["htop"],
        ),
        &Profile::default(),
        around(true, true, true),
    )
    .ok()
    .expect("runtime should build");

    assert!(runtime.features.contains(&Feature::Reveal));
    assert!(!runtime.features.contains(&Feature::LiveColor));
}

#[test]
fn build_runtime_with_env_errors_when_tty_has_no_command() {
    let result = build(
        arguments(selection(None, None, None), "default", &[]),
        &Profile::default(),
        around(true, true, false),
    );

    assert_eq!(message(result), "command is required");
}

#[test]
fn build_runtime_with_env_applies_cli_highlight_actions() {
    let mut cli =
        arguments(selection(Some(Backend::Cli), None, None), "default", &["journalctl"]);
    cli.highlight = HighlightArgs {
        highlight: vec!["error".to_string()],
        highlight_color: Some("#ffcc00".to_string()),
        highlight_command: vec!["echo".to_string(), "matched".to_string()],
        highlight_capture_cli_text: true,
        highlight_capture_tui_screenshot: true,
        highlight_output_dir: Some("./captures".to_string()),
        highlight_output_prefix: Some("alerts-{key}-".to_string()),
    };
    let runtime = build(cli, &Profile::default(), around(true, true, false))
        .ok()
        .expect("runtime should build");

    let rule = runtime
        .highlight_rules
        .first()
        .expect("cli highlight rule should exist");
    assert_eq!(
        rule.command.as_ref().expect("command should exist").len(),
        2
    );
    assert!(rule.capture_cli_text);
    assert!(rule.capture_tui_screenshot);
    assert_eq!(rule.output_dir.as_deref(), Some("./captures"));
    assert_eq!(rule.output_prefix.as_deref(), Some("alerts-{key}-"));
    assert_eq!(rule.color, Rgb(0xff, 0xcc, 0x00));
    assert!(rule.regex.is_match("an error"));
}

#[test]
fn resolve_config_path_prefers_explicit_then_local_then_xdg_then_home() {
    fn resolved(explicit: bool, dirs: (bool, bool, bool), there: &[&str]) -> String {
        let places = config_places(dirs.0, dirs.1, dirs.2);
        let paths: Vec<String> = places
            .iter()
            .map(|place| {
                let base = match place.base {
                    ConfigBase::CurrentDir => "cwd",
                    ConfigBase::XdgConfigHome => "xdg",
                    ConfigBase::Home => "home",
                };
                format!("{base}/{}", place.parts.join("/"))
            })
            .collect();
        let present: Vec<bool> =
            paths.iter().map(|path| there.contains(&path.as_str())).collect();
        match resolve_config_path_from(explicit, &present) {
            Some(ConfigChoice::Explicit) => String::from("explicit.yml"),
            Some(ConfigChoice::Place(i)) => paths[i].clone(),
            None => String::from("none"),
        }
    }
    let (local, xdg_path, home_config, home_dot) = (
        "cwd/baeru.yml",
        "xdg/baeru/baeru.yml",
        "home/.config/baeru/baeru.yml",
        "home/.baeru.yml",
    );

    assert_eq!(resolved(false, (true, false, true), &[]), "none");
    assert_eq!(resolved(false, (true, false, true), &[home_dot]), home_dot);
    assert_eq!(
        resolved(false, (true, false, true), &[home_dot, home_config]),
        home_config
    );
    assert_eq!(
        resolved(false, (true, true, true), &[home_dot, home_config, xdg_path]),
        xdg_path
    );
    assert_eq!(
        resolved(false, (true, true, true), &[home_dot, home_config, xdg_path, local]),
        local
    );
    assert_eq!(
        resolved(true, (true, true, true), &[home_dot, home_config, xdg_path, local]),
        "explicit.yml"
    );
}

#[test]
fn backends_are_resolved_from_the_terminal() {
    let with = words(&["ls"]);
    let without = words(&[]);
    assert_eq!(resolve_backend(Backend::Auto, &with, true, false, false), Backend::Raw);
    assert_eq!(resolve_backend(Backend::Auto, &with, true, true, true), Backend::Raw);
    assert_eq!(resolve_backend(Backend::Auto, &without, false, true, false), Backend::Cli);
    assert_eq!(resolve_backend(Backend::Auto, &with, true, true, false), Backend::Tui);
    assert_eq!(resolve_backend(Backend::Cli, &with, true, false, true), Backend::Cli);
    assert!(check_command(&without, true).is_err());
    assert!(check_command(&without, false).is_ok());
    assert_eq!(mode_to_features(Mode::Splash), vec![Feature::Splash]);
}

#[test]
fn nothing_is_shown_without_a_terminal() {
    let profile = Profile {
        features: vec![
            Feature::Reveal,
            Feature::LiveColor,
            Feature::Keymap,
            Feature::InlineAnimation,
            Feature::Splash,
            Feature::LiveRender,
        ],
        ..Profile::default()
    };
    let all = resolve_features(&profile, None, Backend::Tui);
    let left = features_on_terminal(all, false, false, false);
    assert!(left.contains(&Feature::Keymap));
    assert!(!left.contains(&Feature::Reveal) && !left.contains(&Feature::LiveRender));
    let colorless = features_on_terminal(all, true, false, true);
    assert!(!colorless.contains(&Feature::LiveColor) && colorless.contains(&Feature::Splash));
}

#[test]
fn the_profile_counts_before_the_command_line() {
    let profile = Profile {
        capture_ms: Some(1),
        max_lines: Some(2),
        max_bytes: Some(3),
        animate_over_limit: Some(true),
        frames: Some(0),
        live_render_duration_ms: Some(4),
        live_render_mouse_quiet_ms: Some(5),
        animation_color_darken_factor: Some(value(7.0)),
        effect: Some(EffectKind::Matrix),
        backend: Some(Backend::Raw),
        ..Profile::default()
    };
    let cli = arguments(
        selection(Some(Backend::Tui), None, Some(EffectKind::Glitch)),
        "matrix",
        &["ls"],
    );
    let rt = assemble_runtime(
        cli,
        &profile,
        around(true, true, false),
        None,
        &vec![],
        Ok(vec![]),
        Ok(vec![]),
    )
    .ok()
    .expect("runtime should build");
    assert_eq!((rt.capture_ms, rt.max_lines, rt.max_bytes), (1, 2, 3));
    assert!(rt.animate_over_limit);
    assert_eq!(rt.frames, 1);
    assert_eq!((rt.live_render_duration_ms, rt.live_render_mouse_quiet_ms), (4, 5));
    assert_eq!(f32::from_bits(rt.animation_color_darken_factor.bits), 1.0);
    assert_eq!(rt.effect, EffectKind::Glitch);
    assert_eq!(rt.backend, Backend::Tui);
    assert_eq!(rt.theme.name.as_deref(), Some("matrix-green"));
}

#[test]
fn keys_of_the_profile_replace_those_of_the_file() {
    let pairs = |list: &[(&str, &str)]| -> Vec<(String, String)> {
        list.iter().map(|(a, b)| (a.to_string(), b.to_string())).collect()
    };
    let file = pairs(&[("j", "broken name"), ("k", "up")]);
    let profile = Profile {
        features: vec![Feature::Keymap],
        keymap: pairs(&[("j", "down")]),
        keymap_file: Some("keys.yml".to_string()),
        ..Profile::default()
    };
    assert_eq!(merge_keymaps(&file, &profile.keymap), pairs(&[("k", "up"), ("j", "down")]));
    let cli = arguments(selection(Some(Backend::Tui), None, None), "default", &["htop"]);
    let here = around(true, true, false);
    assert_eq!(plan_run(&cli, &profile, here).keymap_file, Some(FileSource::Profile));
    let rt = build_runtime_with_env(cli, &profile, here, None, &file)
        .ok()
        .expect("runtime should build");
    assert_eq!(rt.keymap.get(b"j").cloned(), Some(b"\x1b[B".to_vec()));
    assert_eq!(rt.keymap.get(b"k").cloned(), Some(b"\x1b[A".to_vec()));
}

#[test]
fn each_fault_has_its_message() {
    let tui = || arguments(selection(Some(Backend::Tui), None, None), "default", &["htop"]);
    let here = around(true, true, false);
    let bad_key = Profile {
        features: vec![Feature::Keymap],
        keymap: vec![("meta-x".to_string(), "up".to_string())],
        ..Profile::default()
    };
    assert_eq!(message(build(tui(), &bad_key, here)), "unsupported key syntax: meta-x");
    let bad_color = Profile { cli_gradient_end: Some("red".to_string()), ..Profile::default() };
    assert_eq!(
        message(build(tui(), &bad_color, here)),
        "invalid cli_gradient_end: expected #RRGGBB, got: red"
    );
    let bad_highlight = Profile { highlight_color: Some("x".to_string()), ..Profile::default() };
    match build(tui(), &bad_highlight, here) {
        Err(ConfigError::Color { setting, .. }) => {
            assert_eq!(setting, ColorSetting::HighlightColor)
        }
        _ => panic!("the colour should be refused"),
    }
    let mut bad_regex = tui();
    bad_regex.highlight.highlight = texts(&["("]);
    let error = build(bad_regex, &Profile::default(), here).err().expect("no such pattern");
    assert_eq!(
        error.message(),
        "failed to compile highlight rules: invalid highlight regex: ("
    );
    assert!(error.reason().is_some());
    let mut odd = tui();
    odd.transform.replace = texts(&["a"]);
    assert_eq!(
        message(build(odd, &Profile::default(), here)),
        "failed to compile output transform rules: --replace expects PATTERN TEXT pairs"
    );
}

#[test]
fn highlight_rules_come_from_both_places() {
    let patterns = texts(&["error"]);
    let none = vec![];
    let options = CliHighlightRuleOptions {
        patterns: &patterns,
        command: &none,
        capture_tui_screenshot: false,
        capture_cli_text: true,
        output_dir: &None,
        output_prefix: &None,
        default_color: Rgb(1, 2, 3),
    };
    let rule = |key: Option<&str>, pattern: &str, color: Option<&str>| HighlightRuleConfig {
        key: key.map(|text| text.to_string()),
        pattern: pattern.to_string(),
        color: color.map(|text| text.to_string()),
        command: None,
        capture_tui_screenshot: true,
        capture_cli_text: false,
        output_dir: None,
        output_prefix: None,
    };
    let rules =
        compile_highlight_rules(&options, &vec![rule(None, "warn", None), rule(Some("k"), "x", Some("#00ff00"))])
            .ok()
            .expect("rules should compile");
    assert_eq!(rules.len(), 3);
    assert_eq!((rules[0].key.as_str(), rules[0].color), ("error", Rgb(1, 2, 3)));
    assert!(rules[0].command.is_none() && rules[0].capture_cli_text);
    assert_eq!((rules[1].key.as_str(), rules[1].color), ("warn", Rgb(255, 255, 0)));
    assert_eq!((rules[2].key.as_str(), rules[2].color), ("k", Rgb(0, 255, 0)));
    assert!(rules[1].regex.is_match("a warning"));

    let error = compile_highlight_rules(&options, &vec![rule(None, "(", Some("red"))])
        .err()
        .expect("the colour should be refused first");
    assert!(matches!(error, RuleError::HighlightColor(_)));
    assert_eq!(error.message(), "expected #RRGGBB, got: red");
    assert_eq!(parse_highlight_color(None), Ok(Rgb(255, 255, 0)));
    assert!(parse_highlight_color(Some("red")).is_err());
}

#[test]
fn transform_rules_come_in_their_order() {
    let replace = texts(&["a", "A", "b", "B"]);
    let mask = texts(&["c"]);
    let profile_replace =
        vec![ReplaceRuleConfig { pattern: "d".to_string(), replacement: "D".to_string() }];
    let profile_mask = vec![
        MaskRuleConfig { pattern: "e".to_string(), mask_char: None },
        MaskRuleConfig { pattern: "f".to_string(), mask_char: Some("#".to_string()) },
    ];
    let rules =
        compile_output_transform_rules(&replace, &mask, "x", &profile_replace, &profile_mask)
            .ok()
            .expect("rules should compile");
    let kinds: Vec<String> = rules
        .iter()
        .map(|rule| match &rule.kind {
            OutputTransformKind::Replace(text) => format!("{}={}", rule.regex.as_str(), text),
            OutputTransformKind::Mask(ch) => format!("{}~{}", rule.regex.as_str(), ch),
        })
        .collect();
    assert_eq!(kinds, texts(&["a=A", "b=B", "c~x", "d=D", "e~*", "f~#"]));
}

#[test]
fn transform_rules_are_refused_with_a_reason() {
    let none = vec![];
    let refused = |replace: &[&str], mask: &[&str], ch: &str| -> RuleError {
        compile_output_transform_rules(&texts(replace), &texts(mask), ch, &vec![], &vec![])
            .err()
            .expect("should be refused")
    };
    assert_eq!(refused(&[], &[], "").message(), "mask char must not be empty");
    assert_eq!(refused(&["a"], &[], "xy").message(), "mask char must be a single character");
    assert_eq!(refused(&["a"], &[], "x").message(), "--replace expects PATTERN TEXT pairs");
    let replace = refused(&["(", "b"], &["["], "x");
    assert_eq!(replace.message(), "invalid replace regex: (");
    assert_eq!(replace.reason(), regex::Regex::new("(").err().as_ref());
    let mask = refused(&[], &["["], "x");
    assert_eq!(mask.message(), "invalid mask regex: [");
    let second = refused(&["a", "b", "[", "c"], &["("], "x");
    assert_eq!(second.message(), "invalid replace regex: [");
    assert_eq!(second.reason(), regex::Regex::new("[").err().as_ref());
    assert!(refused(&["a"], &["("], "x").reason().is_none());
    let profile_mask =
        vec![MaskRuleConfig { pattern: "(".to_string(), mask_char: Some(String::new()) }];
    let error = compile_output_transform_rules(&none, &none, "*", &vec![], &profile_mask)
        .err()
        .expect("should be refused");
    assert!(matches!(error, RuleError::EmptyMaskChar));
    assert_eq!(parse_mask_char("ä").ok(), Some('ä'));
    assert!(matches!(parse_mask_char("äö"), Err(RuleError::LongMaskChar)));
}
