use baeru::cli_backend::{
    animate_cli_output, animates, cli_frame_fg, frame_pause_ms, split_lines_preserve_tail,
    strip_ansi_for_animation, write_cli_colored_line, Burst, CliAnimation,
};
use baeru::cli_frames::{
    cli_coalesce_frame, cli_fade_frame, cli_glitch_frame, cli_matrix_frame, cli_scanline_frame,
    cli_sweep_frame, cli_wipe_frame, ratio_of, render_cli_frame, scramble, weight_of_row,
};
use baeru::config::{assemble_runtime, Surroundings};
use baeru::model::{Backend, CommandWord, EffectKind, Rgb, Runtime};
use baeru::settings::{
    AnimationArgs, Cli, CliRenderArgs, FileArgs, HighlightArgs, Profile, SelectionArgs,
    TransformArgs,
};
use baeru::single::Single;

fn value(x: f32) -> Single {
    Single { bits: x.to_bits() }
}

fn run(effect: EffectKind, frames: usize, profile: Profile) -> Runtime {
    let cli = Cli {
        selection: SelectionArgs { backend: Some(Backend::Cli), mode: None, effect: Some(effect) },
        files: FileArgs {
            config_file: None,
            theme_file: None,
            palette: "default".to_string(),
            keymap_file: None,
        },
        animation: AnimationArgs {
            capture_ms: 360,
            duration_ms: 720,
            frames,
            live_render_duration_ms: 90,
            live_render_mouse_quiet_ms: 180,
            animation_color_fade: false,
            animation_color_darken_factor: value(0.25),
            no_theme_after_reveal: false,
        },
        cli_render: CliRenderArgs {
            max_lines: 200,
            max_bytes: 10,
            animate_over_limit: false,
        },
        highlight: HighlightArgs {
            highlight: vec![],
            highlight_color: None,
            highlight_command: vec![],
            highlight_capture_cli_text: false,
            highlight_capture_tui_screenshot: false,
            highlight_output_dir: None,
            highlight_output_prefix: None,
        },
        transform: TransformArgs { replace: vec![], mask: vec![], mask_char: "*".to_string() },
        command: vec![CommandWord { text: "ls".to_string(), exact: true }],
    };
    let around = Surroundings {
        stdin_is_tty: true,
        stdout_is_tty: true,
        term_is_dumb: false,
        no_color: false,
    };
    assemble_runtime(cli, &profile, around, None, &vec![], Ok(vec![]), Ok(vec![]))
        .ok()
        .expect("runtime should build")
}

#[test]
fn split_lines_preserve_tail_keeps_trailing_newline() {
    let lines = split_lines_preserve_tail("a\nb\n");

    assert_eq!(lines, vec!["a".to_string(), "b".to_string(), String::new()]);
}

#[test]
fn split_lines_preserve_tail_gives_one_line_for_no_text() {
    assert_eq!(split_lines_preserve_tail(""), vec![String::new()]);
    assert_eq!(split_lines_preserve_tail("a"), vec!["a".to_string()]);
    assert_eq!(split_lines_preserve_tail("a\r\nb"), vec!["a".to_string(), "b".to_string()]);
}

#[test]
fn lines_joined_by_line_feeds_are_the_text() {
    for text in ["", "\n", "a\nb\n", "a\rb\n\nc\r", "no end"] {
        let lines = split_lines_preserve_tail(text);
        assert_eq!(lines.join("\n"), text);
        assert!(lines.iter().all(|line| !line.contains('\n')));
    }
}

#[test]
fn strip_ansi_for_animation_removes_csi_and_osc_sequences() {
    let input = "\x1b[31mred\x1b[0m plain \x1b]0;title\x07tail";
    let stripped = strip_ansi_for_animation(input);

    assert_eq!(stripped, "red plain tail");
}

#[test]
fn strip_ansi_for_animation_ends_a_title_at_a_string_terminator() {
    assert_eq!(strip_ansi_for_animation("a\x1b]0;t\x1b\\b"), "ab");
}

#[test]
fn stripped_text_has_no_escape_and_plain_text_is_kept() {
    assert!(!strip_ansi_for_animation("\x1b[1mx\x1b").contains('\x1b'));
    assert_eq!(strip_ansi_for_animation("plain ä text"), "plain ä text");
}

#[test]
fn stripping_leaves_out_and_adds_nothing() {
    for text in ["a\x1b[1mb\x1b", "\x1b]0;t\x07x", "\x1b\x1b[[y", "\x1b[31", "z"] {
        let once = strip_ansi_for_animation(text);
        let mut rest = text.chars();
        assert!(once.chars().all(|ch| rest.any(|other| other == ch)));
        assert_eq!(once == text, !text.contains('\x1b'));
        assert_eq!(strip_ansi_for_animation(&once), once);
    }
}

#[test]
fn cli_coalesce_frame_preserves_whitespace() {
    let rendered = cli_coalesce_frame("a b", 0, 0, 10);
    let chars: Vec<char> = rendered.chars().collect();

    assert_eq!(chars[1], ' ');
}

#[test]
fn cli_matrix_frame_preserves_whitespace() {
    let rendered = cli_matrix_frame("a b", 0, 0, 3, 10);
    let chars: Vec<char> = rendered.chars().collect();

    assert_eq!(chars[1], ' ');
}

#[test]
fn cli_glitch_frame_preserves_whitespace() {
    let rendered = cli_glitch_frame("a b", 0, 0, 10);
    let chars: Vec<char> = rendered.chars().collect();

    assert_eq!(chars[1], ' ');
}

#[test]
fn cli_scanline_frame_preserves_whitespace() {
    let rendered = cli_scanline_frame("a b", 0, 0, 3, 10);
    let chars: Vec<char> = rendered.chars().collect();

    assert_eq!(chars[1], ' ');
}

#[test]
fn frames_keep_the_width_of_a_line() {
    for effect in [
        EffectKind::Coalesce,
        EffectKind::Glitch,
        EffectKind::Matrix,
        EffectKind::Scanline,
        EffectKind::Scatter,
        EffectKind::Sweep,
        EffectKind::Wipe,
        EffectKind::Fade,
        EffectKind::Plain,
    ] {
        for frame in 0..=6 {
            let shown = render_cli_frame("some ä text", frame, 1, 3, 6, effect);
            assert_eq!(shown.chars().count(), 11, "{effect:?} {frame}");
        }
    }
}

#[test]
fn scattered_and_plain_lines_are_shown_as_they_are() {
    assert_eq!(render_cli_frame("text", 0, 0, 1, 6, EffectKind::Scatter), "text");
    assert_eq!(render_cli_frame("text", 0, 0, 1, 6, EffectKind::Plain), "text");
}

#[test]
fn last_frames_show_the_line() {
    assert_eq!(cli_wipe_frame("text", 6, 0, 1, 6), "text");
    assert_eq!(cli_sweep_frame("text", 6, 6), "text");
    assert_eq!(cli_fade_frame("text", 6, 6), "text");
    assert_eq!(cli_coalesce_frame("text", 6, 0, 6), "text");
    assert_eq!(cli_glitch_frame("text", 6, 0, 6), "text");
    let effects = [
        EffectKind::Plain,
        EffectKind::Wipe,
        EffectKind::Sweep,
        EffectKind::Fade,
        EffectKind::Coalesce,
        EffectKind::Glitch,
        EffectKind::Matrix,
        EffectKind::Scanline,
        EffectKind::Scatter,
    ];
    let line = "a line of text, \u{4e2d} ".repeat(40);
    for effect in effects {
        for (row, rows) in [(0, 1), (0, 7), (6, 7), (65534, 65535)] {
            for frames in [1, 3, 24, 10_000, usize::MAX] {
                assert_eq!(render_cli_frame(&line, frames, row, rows, frames, effect), line);
            }
        }
    }
}

#[test]
fn a_sweep_shows_half_of_a_line_halfway() {
    assert_eq!(cli_sweep_frame("abcdef", 3, 6), "abc   ");
}

#[test]
fn ratios_and_weights_are_native_quotients() {
    assert_eq!(f32::from_bits(ratio_of(1, 3).bits), 1.0 / 3.0);
    assert_eq!(f32::from_bits(ratio_of(5, 0).bits), 5.0);
    assert_eq!(f32::from_bits(weight_of_row(2, 7).bits), 2.0 / 6.0);
    assert_eq!(f32::from_bits(weight_of_row(2, 1).bits), 0.0);
}

#[test]
fn scramble_gives_one_of_the_symbols() {
    let symbols = [
        '░', '▒', '▓', '█', '◆', '◇', '○', '●', '◌', '◍', '·', '*', '+', '#', '%', '@', '/', '\\',
        '|', '-',
    ];
    assert!(symbols.contains(&scramble(1, 2, 3)));
    assert!(symbols.contains(&scramble(usize::MAX, usize::MAX, usize::MAX)));
}

#[test]
fn colored_lines_end_with_a_reset() {
    let mut out = String::from(">");
    write_cli_colored_line(&mut out, "hi", Rgb(1, 2, 3));
    assert_eq!(out, ">\x1b[38;2;1;2;3mhi\x1b[0m\r\n");
}

#[test]
fn frame_pauses_are_at_least_a_millisecond() {
    assert_eq!(frame_pause_ms(720, 24), 30);
    assert_eq!(frame_pause_ms(5, 24), 1);
    assert_eq!(frame_pause_ms(7, 0), 7);
}

#[test]
fn output_is_animated_only_where_it_can_be() {
    let rt = run(EffectKind::Sweep, 4, Profile::default());
    assert!(animates(&rt, true, false, "text"));
    assert!(!animates(&rt, false, false, "text"));
    assert!(!animates(&rt, true, true, "text"));
    assert!(!animates(&rt, true, false, ""));
    assert!(!animates(&rt, true, false, "more than ten"));
    let plain = run(EffectKind::Plain, 4, Profile::default());
    assert!(!animates(&plain, true, false, "text"));
}

#[test]
fn an_animation_settles_on_the_lines() {
    let profile = Profile {
        cli_settled_color: Some("#0a0b0c".to_string()),
        cli_gradient_start: Some("#000000".to_string()),
        cli_gradient_end: Some("#ffffff".to_string()),
        ..Profile::default()
    };
    let rt = run(EffectKind::Sweep, 2, profile);
    let animation = animate_cli_output("one\ntwo\nthree", &rt, 3).expect("there is room");
    assert_eq!(animation.from, 1);
    assert_eq!(
        animation.opening(&rt),
        Burst {
            text: "\x1b[38;2;10;11;12mone\x1b[0m\r\n\x1b[?25l\n\n".to_string(),
            pause_ms: 0
        }
    );
    assert_eq!(
        animation.frame(&rt, 2),
        Burst {
            text: "\x1b[2A\x1b[38;2;10;11;12mtwo\x1b[0m\r\n\x1b[38;2;10;11;12mthree\x1b[0m\r\n"
                .to_string(),
            pause_ms: 240
        }
    );
    assert_eq!(f32::from_bits(ratio_of(1, 2).bits), 0.5);
    assert_eq!(cli_frame_fg(&rt, value(0.5)), Rgb(128, 128, 128));
    assert_eq!(CliAnimation::closing().text, "\x1b[?25h");
}

#[test]
fn there_is_no_animation_without_room() {
    let rt = run(EffectKind::Sweep, 2, Profile::default());
    assert!(animate_cli_output("text", &rt, 1).is_none());
}
