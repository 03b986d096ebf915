use baeru::changes::{
    apply_scroll_hint, detect_scroll_hint, diff_screen, full_screen_changed, no_screen_changed,
    row_has_changes, rows_equal, same_cell, ScrollHint,
};
use baeru::draw::{write_cell, write_display_color, DrawOp, RenderStyle};
use baeru::effects::{
    animated_faded_color, coalesce_text, live_render_effect_ratios, live_render_per_frame_ms,
    live_render_text_for_cell, reveal_text_for_cell, CellAnimCtx,
};
use baeru::emulator::{can_emulate, Emulator, VtColor};
use baeru::flash::{flash_highlight_markers, highlight_spans, marker_slot, HighlightSpan};
use baeru::live::LiveRenderScene;
use baeru::model::{EffectKind, OutputTransformKind, OutputTransformRule, Rgb};
use baeru::noise::{
    matrix_cell_state, matrix_noise_symbol, pseudo_random_01, reveal_noise_symbol, MatrixState,
};
use baeru::render::{animate_styled_reveal_in_place, splash_frame, RevealTuning};
use baeru::screen::{
    collect_screen, collect_terminal_state, display_vt_color, terminal_state, DisplayColor,
    StyledCell, TerminalState,
};
use baeru::screen_text::{
    apply_transforms_to_cells, display_color_hex, rgb_hex, screen_lines, screen_to_svg, svg_escape,
};
use baeru::single::Single;
use baeru::theme::{builtin_theme, parse_hex, theme_preserves_terminal_colors};
use baeru::transform::transform_line;
use regex::Regex;

fn value(x: f32) -> Single {
    Single { bits: x.to_bits() }
}

fn natives(list: Vec<Single>) -> Vec<f32> {
    list.iter().map(|item| f32::from_bits(item.bits)).collect()
}

fn cell_with(text: &str, blank: &StyledCell) -> StyledCell {
    let mut cell = blank.clone();
    cell.text = text.to_string();
    cell
}

fn row_of(text: &str) -> Vec<StyledCell> {
    let blank = StyledCell::blank(None);
    text.chars().map(|ch| cell_with(&ch.to_string(), &blank)).collect()
}

fn ctx(frame: usize, ratio: f32, color_fade: bool, effect: EffectKind) -> CellAnimCtx {
    CellAnimCtx {
        row: 0,
        col: 0,
        total_rows: 1,
        frame,
        ratio: value(ratio),
        color_fade,
        effect,
    }
}

const ALL: [EffectKind; 9] = [
    EffectKind::Coalesce,
    EffectKind::Glitch,
    EffectKind::Matrix,
    EffectKind::Scanline,
    EffectKind::Scatter,
    EffectKind::Sweep,
    EffectKind::Wipe,
    EffectKind::Fade,
    EffectKind::Plain,
];

#[test]
fn row_has_changes_detects_dirty_rows() {
    let changed = vec![vec![false, true, false], vec![false, false, false]];

    assert!(row_has_changes(&changed, 0));
    assert!(!row_has_changes(&changed, 1));
    assert!(!row_has_changes(&changed, 2));
}

#[test]
fn live_render_effect_ratios_match_effect_style() {
    assert_eq!(natives(live_render_effect_ratios(EffectKind::Plain)), &[1.0]);
    assert_eq!(natives(live_render_effect_ratios(EffectKind::Fade)), &[0.35, 1.0]);
    assert_eq!(
        natives(live_render_effect_ratios(EffectKind::Wipe)),
        &[0.2, 0.55, 1.0]
    );
    assert_eq!(
        natives(live_render_effect_ratios(EffectKind::Sweep)),
        &[0.25, 0.65, 1.0]
    );
    assert_eq!(
        natives(live_render_effect_ratios(EffectKind::Coalesce)),
        &[0.12, 0.38, 0.72, 1.0]
    );
    assert_eq!(
        natives(live_render_effect_ratios(EffectKind::Glitch)),
        &[0.08, 0.16, 0.32, 0.55, 1.0]
    );
    assert_eq!(
        natives(live_render_effect_ratios(EffectKind::Matrix)),
        &[0.08, 0.24, 0.45, 0.72, 1.0]
    );
    assert_eq!(
        natives(live_render_effect_ratios(EffectKind::Scanline)),
        &[0.12, 0.35, 0.68, 1.0]
    );
    assert_eq!(
        natives(live_render_effect_ratios(EffectKind::Scatter)),
        &[0.1, 0.28, 0.58, 1.0]
    );
}

#[test]
fn live_render_per_frame_ms_uses_configured_duration_without_tight_clamp() {
    assert_eq!(live_render_per_frame_ms(8000, EffectKind::Coalesce), 2000);
    assert_eq!(live_render_per_frame_ms(90, EffectKind::Fade), 45);
}

#[test]
fn live_render_coalesce_uses_noise_before_settling() {
    let cell = cell_with("X", &StyledCell::blank(None));

    let early = live_render_text_for_cell(&cell, ctx(0, 0.12, false, EffectKind::Coalesce));
    let late = live_render_text_for_cell(&cell, ctx(3, 1.0, false, EffectKind::Coalesce));

    assert_ne!(early, " ");
    assert_eq!(late, "X");
}

#[test]
fn live_render_matrix_uses_noise_before_settling() {
    let cell = cell_with("X", &StyledCell::blank(None));

    let early = live_render_text_for_cell(&cell, ctx(0, 0.08, false, EffectKind::Matrix));
    let late = live_render_text_for_cell(&cell, ctx(4, 1.0, false, EffectKind::Matrix));

    assert_ne!(early, " ");
    assert_eq!(late, "X");
}

#[test]
fn live_render_coalesce_with_color_fade_shows_original_char_earlier() {
    let cell = cell_with("X", &StyledCell::blank(None));

    let mid = live_render_text_for_cell(&cell, ctx(1, 0.5, true, EffectKind::Coalesce));

    assert_eq!(mid, "X");
}

#[test]
fn reveal_fade_keeps_original_text_visible() {
    let cell = cell_with("X", &StyledCell::blank(None));

    let early = reveal_text_for_cell(&cell, 0, 0, 1, 0, value(0.1), EffectKind::Fade);
    let late = reveal_text_for_cell(&cell, 0, 0, 1, 3, value(1.0), EffectKind::Fade);

    assert_eq!(early, "X");
    assert_eq!(late, "X");
}

#[test]
fn reveal_scatter_settles_from_random_position_order() {
    let cell = cell_with("X", &StyledCell::blank(None));

    let early = reveal_text_for_cell(&cell, 0, 0, 2, 0, value(0.0), EffectKind::Scatter);
    let late = reveal_text_for_cell(&cell, 0, 0, 2, 3, value(1.0), EffectKind::Scatter);

    assert_ne!(early, "X");
    assert_eq!(late, "X");
}

#[test]
fn all_effects_settle_on_the_text() {
    let cell = cell_with("X", &StyledCell::blank(None));
    for effect in ALL {
        for (row, col) in [(0, 0), (7, 3), (23, 79), (23, 500)] {
            let shown = live_render_text_for_cell(
                &cell,
                CellAnimCtx {
                    row,
                    col,
                    total_rows: 24,
                    frame: 5,
                    ratio: value(1.0),
                    color_fade: false,
                    effect,
                },
            );
            assert_eq!(shown, "X", "{effect:?} {row} {col}");
            let revealed = reveal_text_for_cell(&cell, row, col, 24, 5, value(1.0), effect);
            assert_eq!(revealed, "X", "{effect:?} {row} {col}");
        }
        assert_eq!(coalesce_text("making ä text", value(1.0), effect), "making ä text");
    }
}

#[test]
fn full_screen_changed_marks_every_cell_dirty() {
    let blank = StyledCell::blank(None);
    let cells = vec![
        vec![cell_with("a", &blank), cell_with("b", &blank)],
        vec![cell_with("c", &blank)],
    ];

    let changed = full_screen_changed(&cells);

    assert_eq!(changed, vec![vec![true, true], vec![true]]);
}

#[test]
fn no_screen_changed_marks_every_cell_clean() {
    let blank = StyledCell::blank(None);
    let cells = vec![
        vec![cell_with("a", &blank), cell_with("b", &blank)],
        vec![cell_with("c", &blank)],
    ];

    let changed = no_screen_changed(&cells);

    assert_eq!(changed, vec![vec![false, false], vec![false]]);
}

#[test]
fn animated_faded_color_recovers_target_color() {
    let target = DisplayColor::Rgb(Rgb(200, 100, 50));

    let faded = animated_faded_color(target, value(0.2), EffectKind::Matrix, value(0.25));
    let settled = animated_faded_color(target, value(1.0), EffectKind::Matrix, value(0.25));

    assert_ne!(faded, target);
    assert_eq!(settled, target);
}

#[test]
fn default_theme_preserves_terminal_default_and_indexed_colors() {
    let theme = builtin_theme("default");

    assert_eq!(
        display_vt_color(Some(&theme), VtColor::Default, true),
        DisplayColor::Default
    );
    assert_eq!(
        display_vt_color(Some(&theme), VtColor::Idx(6), true),
        DisplayColor::Indexed(6)
    );
}

#[test]
fn themed_palette_maps_to_rgb_for_live_render() {
    let theme = builtin_theme("matrix-green");

    assert_eq!(
        display_vt_color(Some(&theme), VtColor::Default, false),
        DisplayColor::Rgb(theme.default_bg_rgb())
    );
    assert!(matches!(
        display_vt_color(Some(&theme), VtColor::Idx(2), true),
        DisplayColor::Rgb(_)
    ));
}

#[test]
fn default_theme_live_render_highlight_keeps_original_cell_color() {
    let theme = builtin_theme("default");
    let mut cell = StyledCell::blank(Some(&theme));
    cell.text = "X".to_string();
    cell.fg = DisplayColor::Indexed(6);

    let mut highlighted = cell.clone();
    if !theme_preserves_terminal_colors(Some(&theme)) {
        highlighted.bold = true;
        highlighted.fg = DisplayColor::Rgb(theme.default_fg_rgb());
    }

    assert_eq!(highlighted.fg, DisplayColor::Indexed(6));
    assert!(!highlighted.bold);
}

#[test]
fn detect_scroll_hint_finds_single_line_up_scroll() {
    let prev = vec![row_of("aa"), row_of("bb"), row_of("cc")];
    let current = vec![row_of("bb"), row_of("cc"), row_of("dd")];

    assert_eq!(
        detect_scroll_hint(Some(&prev), &current, 3, 2),
        Some(ScrollHint::Up(1))
    );
}

#[test]
fn apply_scroll_hint_keeps_only_new_edge_row_dirty() {
    let mut changed = vec![vec![true; 3], vec![true; 3], vec![true; 3]];

    apply_scroll_hint(&mut changed, Some(ScrollHint::Up(1)), 3, 3);

    assert_eq!(changed[0], vec![false; 3]);
    assert_eq!(changed[1], vec![false; 3]);
    assert_eq!(changed[2], vec![true; 3]);
}

#[test]
fn detect_scroll_hint_finds_multi_line_up_scroll() {
    let prev = vec![row_of("a"), row_of("b"), row_of("c"), row_of("d")];
    let current = vec![row_of("c"), row_of("d"), row_of("x"), row_of("y")];

    assert_eq!(
        detect_scroll_hint(Some(&prev), &current, 4, 1),
        Some(ScrollHint::Up(2))
    );
}

#[test]
fn detect_scroll_hint_finds_a_scroll_down_and_nothing_else() {
    let prev = vec![row_of("aa"), row_of("bb"), row_of("cc")];
    let down = vec![row_of("xx"), row_of("aa"), row_of("bb")];
    assert_eq!(detect_scroll_hint(Some(&prev), &down, 3, 2), Some(ScrollHint::Down(1)));
    let other = vec![row_of("aa"), row_of("xx"), row_of("cc")];
    assert_eq!(detect_scroll_hint(Some(&prev), &other, 3, 2), None);
    assert_eq!(detect_scroll_hint(None, &other, 3, 2), None);
}

#[test]
fn collect_terminal_state_clamps_cursor_to_screen_bounds() {
    let mut parser = Emulator::open(2, 3).expect("the size can be emulated");
    parser.feed(b"\x1b[99;99H");
    parser.feed(b"\x1b[?25l");

    let state = collect_terminal_state(&parser, 2, 3);

    assert_eq!(state.cursor_row, 1);
    assert_eq!(state.cursor_col, 2);
    assert!(!state.cursor_visible);
}

#[test]
fn cursors_are_held_on_the_screen() {
    assert_eq!(
        terminal_state((9, 9), false, 4, 5),
        TerminalState { cursor_row: 3, cursor_col: 4, cursor_visible: true }
    );
    assert_eq!(
        terminal_state((9, 9), true, 0, 0),
        TerminalState { cursor_row: 0, cursor_col: 0, cursor_visible: false }
    );
}

#[test]
fn emulated_output_shows_in_its_cells() {
    let mut parser = Emulator::open(2, 6).expect("the size can be emulated");
    parser.feed(b"\x1b[1;4;31mhi\x1b[0m \xe4\xb8\xad\r\n\x1b[48;2;1;2;3mx");
    let cells = collect_screen(&parser, 2, 6, None);
    assert_eq!(cells.len(), 2);
    assert_eq!(cells[0].len(), 6);
    assert_eq!(cells[0][0].text, "h");
    assert!(cells[0][0].bold && cells[0][0].underline && !cells[0][0].italic);
    assert_eq!(cells[0][3].text, "中");
    assert!(cells[0][4].wide_continuation);
    assert_eq!(cells[1][0].bg, DisplayColor::Rgb(Rgb(1, 2, 3)));
    assert_eq!(screen_lines(&cells), vec!["hi 中".to_string(), "x".to_string()]);
    let state = collect_terminal_state(&parser, 2, 6);
    assert_eq!((state.cursor_row, state.cursor_col), (1, 1));
    assert!(state.cursor_visible);
}

#[test]
fn only_some_sizes_are_emulated() {
    assert!(can_emulate(2, 3));
    assert!(can_emulate(24, 65527));
    assert!(!can_emulate(0, 80));
    assert!(!can_emulate(1, 80));
    assert!(!can_emulate(24, 1));
    assert!(!can_emulate(24, 2));
    assert!(!can_emulate(24, 65528));
    assert!(Emulator::open(0, 80).is_none());
}

#[test]
fn the_smallest_terminals_take_what_comes() {
    let mut screen = Emulator::open(2, 3).expect("the size can be emulated");
    screen.feed("abcdefghi\u{17d8}\u{4e2d}\t\u{17d8}\u{301}".as_bytes());
    screen.feed("\x1b[1;3H\u{17d8}\x1b[2;3Hxyz\x1b[L\x1b[M\x1b[@\x1b[P\x1bM\x1b[r".as_bytes());
    screen.feed("\x1b[?1049h\u{4e2d}\u{4e2d}\u{4e2d}\u{4e2d}\x1b[1;2H\x1b[2@\x1b[Pq".as_bytes());
    assert_eq!(screen_lines(&collect_screen(&screen, 2, 3, None)).len(), 2);
}

#[test]
fn the_same_screen_has_no_changes() {
    let cells = vec![row_of("ab"), row_of("cd")];
    assert_eq!(
        diff_screen(Some(&cells), &cells, 2, 2),
        vec![vec![false, false], vec![false, false]]
    );
    assert_eq!(diff_screen(None, &cells, 2, 2), vec![vec![true, true], vec![true, true]]);
    let other = vec![row_of("ab"), row_of("cx")];
    assert_eq!(
        diff_screen(Some(&cells), &other, 2, 2),
        vec![vec![false, false], vec![false, true]]
    );
    assert!(rows_equal(&cells[0], &other[0], 2));
    assert!(!rows_equal(&cells[1], &other[1], 2));
    assert!(same_cell(&cells[0][0], &other[0][0]));
}

#[test]
fn rules_change_only_the_text_of_cells() {
    let mut cells = vec![row_of("id=42 x")];
    cells[0][3].bold = true;
    let rules = [OutputTransformRule {
        regex: Regex::new(r"\d+").expect("regex should compile"),
        kind: OutputTransformKind::Mask('#'),
    }];
    apply_transforms_to_cells(&mut cells, &rules);
    assert_eq!(screen_lines(&cells), vec!["id=## x".to_string()]);
    assert!(cells[0][3].bold);
}

#[test]
fn rules_act_on_the_text_of_a_row_with_wide_characters() {
    let mut cells = vec![row_of("a\u{4e2d}?7\u{4e2d}")];
    cells[0][2].wide_continuation = true;
    let rules = [OutputTransformRule {
        regex: Regex::new("7|\u{4e2d}").expect("regex should compile"),
        kind: OutputTransformKind::Replace("xy".to_string()),
    }];
    let plain = screen_lines(&cells)[0].clone();
    assert_eq!(plain, "a\u{4e2d}7\u{4e2d}");
    apply_transforms_to_cells(&mut cells, &rules);
    assert_eq!(screen_lines(&cells)[0], transform_line(&plain, &rules));
    assert_eq!(cells[0][2].text, "?");
}

#[test]
fn colors_are_written_and_read_back() {
    assert_eq!(rgb_hex(Rgb(10, 11, 255)), "#0a0bff");
    assert_eq!(parse_hex(&rgb_hex(Rgb(10, 11, 255))), Some(Rgb(10, 11, 255)));
    assert_eq!(display_color_hex(DisplayColor::Rgb(Rgb(1, 2, 3))), "#010203");
}

#[test]
fn pictures_escape_their_text() {
    assert_eq!(svg_escape("a<b>&\"'"), "a&lt;b&gt;&amp;\"'");
    let svg = screen_to_svg(&[row_of("<")], None);
    assert!(svg.starts_with("<svg"));
    assert!(svg.contains("&lt;</text>"));
    assert!(svg.ends_with("</svg>"));
}

#[test]
fn looks_are_set_only_where_they_change() {
    let mut out = String::new();
    let mut last: Option<RenderStyle> = None;
    let cell = StyledCell::blank(None);
    write_cell(&mut out, &cell, "a", &mut last);
    let first = out.len();
    write_cell(&mut out, &cell, "b", &mut last);
    assert_eq!(out.len(), first + 1);
    let mut color = String::new();
    write_display_color(&mut color, true, DisplayColor::Rgb(Rgb(1, 2, 3)));
    assert_eq!(color, "\x1b[38;2;1;2;3m");
}

#[test]
fn noise_is_the_native_formula() {
    fn native(a: u64, b: u64) -> f32 {
        let mut x = a.wrapping_mul(0x9E37_79B9_7F4A_7C15) ^ b.wrapping_mul(0xBF58_476D_1CE4_E5B9);
        x ^= x >> 30;
        x = x.wrapping_mul(0xBF58_476D_1CE4_E5B9);
        x ^= x >> 27;
        x = x.wrapping_mul(0x94D0_49BB_1331_11EB);
        x ^= x >> 31;
        (x % 10_000) as f32 / 10_000.0
    }
    for (a, b) in [(0, 0), (1, 13), (79, 29), (u64::MAX, 97)] {
        assert_eq!(f32::from_bits(pseudo_random_01(a, b).bits), native(a, b));
    }
}

#[test]
fn falling_noise_passes_a_cell() {
    assert_eq!(matrix_cell_state(5, 3, 24, value(0.0)), MatrixState::Ahead);
    assert_eq!(matrix_cell_state(5, 3, 24, value(1.0)), MatrixState::Settled);
    assert_eq!(matrix_noise_symbol(0, 0, 0).to_string().chars().count(), 1);
    assert_eq!(reveal_noise_symbol(1, 2, 3).chars().count(), 1);
}

#[test]
fn a_reveal_opens_shows_its_frames_and_closes() {
    let cells = vec![row_of("ab"), row_of("cd")];
    let tuning = RevealTuning {
        frames: 2,
        duration_ms: 10,
        effect: EffectKind::Wipe,
        color_fade: false,
        darken_factor: value(0.25),
    };
    let opening = animate_styled_reveal_in_place(&cells, None, 2, 2, tuning, 0);
    assert_eq!(opening, Some(vec![DrawOp::ClearAll, DrawOp::MoveTo(0, 0)]));
    let frame = animate_styled_reveal_in_place(&cells, None, 2, 2, tuning, 1).expect("a frame");
    assert!(frame.contains(&DrawOp::Wait(5)));
    let closing = animate_styled_reveal_in_place(&cells, None, 2, 2, tuning, 3).expect("closing");
    let text: String = closing
        .iter()
        .map(|op| match op {
            DrawOp::Text(text) => text.as_str(),
            _ => "",
        })
        .collect();
    assert!(text.contains("ab") && text.contains("cd"));
    assert_eq!(animate_styled_reveal_in_place(&cells, None, 2, 2, tuning, 4), None);
}

#[test]
fn the_splash_ends_with_the_name() {
    let ops = splash_frame(5, 6, 60, EffectKind::Sweep);
    assert_eq!(ops[0], DrawOp::MoveTo(0, 0));
    assert_eq!(
        ops[2],
        DrawOp::Text("baeru\r\nmaking terminal apps glow up...\r\n".to_string())
    );
    assert_eq!(ops[4], DrawOp::Wait(10));
}

#[test]
fn highlights_are_flashed_run_by_run() {
    let cells = vec![row_of("abcd"), row_of("efgh")];
    let yellow = Some(Rgb(255, 255, 0));
    let colors = vec![vec![None, yellow, yellow, None], vec![yellow, None, None, None]];
    let state = TerminalState { cursor_row: 1, cursor_col: 2, cursor_visible: true };
    let theme = builtin_theme("default");
    let scene = LiveRenderScene {
        cells: &cells,
        state: &state,
        highlight_colors: Some(&colors),
        theme: &theme,
    };
    assert_eq!(
        highlight_spans(scene),
        vec![
            HighlightSpan {
                row: 0,
                start: 1,
                end: 2,
                left_marker: Some(0),
                right_marker: Some(3)
            },
            HighlightSpan { row: 1, start: 0, end: 0, left_marker: None, right_marker: Some(1) },
        ]
    );
    assert_eq!(marker_slot(&cells, 0, 3, false), None);
    assert!(!flash_highlight_markers(scene).is_empty());
    let unlit = LiveRenderScene { highlight_colors: None, ..scene };
    assert!(flash_highlight_markers(unlit).is_empty());
}
