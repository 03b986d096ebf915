use baeru::model::{ColorStop, Rgb, Theme};
use baeru::sgr::{parse_parameters, rewrite_sgr, sgr_rgb, SgrRewriter};
use baeru::single::Single;
use baeru::theme::{
    builtin_theme, darken, gradient, indexed_color, indexed_to_rgb, intensity, lerp, lerp_rgb,
    parse_hex, parse_optional_rgb, theme_preserves_terminal_colors,
};
use std::collections::HashMap;

fn value(x: f32) -> Single {
    Single { bits: x.to_bits() }
}

fn stop(at: f32, color: &str) -> ColorStop {
    ColorStop { at: value(at), color: color.to_string() }
}

fn test_theme() -> Theme {
    Theme {
        name: Some("test".to_string()),
        default_fg: Some("#ffffff".to_string()),
        default_bg: Some("#000000".to_string()),
        force_default: true,
        palette_map: HashMap::from([(2u8, "#112233".to_string())]),
        background_palette_map: HashMap::from([(4u8, "#445566".to_string())]),
        foreground: vec![stop(0.0, "#000000"), stop(1.0, "#ffffff")],
        background: vec![stop(0.0, "#000000"), stop(1.0, "#ffffff")],
    }
}

#[test]
fn map_indexed_color_prefers_palette_override() {
    let theme = test_theme();

    assert_eq!(theme.map_indexed_color(2, true), Rgb(0x11, 0x22, 0x33));
    assert_eq!(theme.map_indexed_color(4, false), Rgb(0x44, 0x55, 0x66));
}

#[test]
fn parse_optional_rgb_rejects_invalid_hex() {
    let result = parse_optional_rgb(Some("oops"));

    assert!(result.is_err());
}

#[test]
fn colors_that_cannot_be_read_are_named() {
    let error = parse_optional_rgb(Some("#12345")).expect_err("five digits");
    assert_eq!(error.message(), "expected #RRGGBB, got: #12345");
    assert_eq!(parse_optional_rgb(None), Ok(None));
    assert_eq!(parse_optional_rgb(Some("#0a0B0c")), Ok(Some(Rgb(10, 11, 12))));
    assert_eq!(parse_hex("#ää"), None);
}

#[test]
fn sgr_rewriter_rewrites_basic_indexed_colors() {
    let mut rewriter = SgrRewriter::new(test_theme());
    let bytes = rewriter.feed(b"\x1b[32mhello\x1b[44m!");
    let output = String::from_utf8(bytes).expect("valid utf8");

    assert!(output.contains("\x1b[38;2;17;34;51mhello"));
    assert!(output.contains("\x1b[48;2;68;85;102m!"));
}

#[test]
fn sgr_rewriter_rewrites_256_color_sequences() {
    let mut rewriter = SgrRewriter::new(test_theme());
    let bytes = rewriter.feed(b"\x1b[38;5;2mgreen\x1b[48;5;4mblue");
    let output = String::from_utf8(bytes).expect("valid utf8");

    assert!(output.contains("\x1b[38;2;17;34;51mgreen"));
    assert!(output.contains("\x1b[48;2;68;85;102mblue"));
}

#[test]
fn chunks_of_colored_output_do_not_matter() {
    let all: &[u8] = b"a\x1b[32mb\x1b[0;1;48;2;1;2;3mc\x1b]0;t\x07\x1b[2J\x1b[38;5;4md";
    let mut whole = SgrRewriter::new(test_theme());
    let expected = whole.feed(all);
    for cut in 0..=all.len() {
        let mut parts = SgrRewriter::new(test_theme());
        let mut out = parts.feed(&all[..cut]);
        out.extend(parts.feed(&all[cut..]));
        assert_eq!(out, expected, "cut at {cut}");
    }
}

#[test]
fn bytes_without_escapes_and_other_sequences_pass() {
    let mut rewriter = SgrRewriter::new(test_theme());
    assert_eq!(rewriter.feed(b"plain \xff text\n"), b"plain \xff text\n".to_vec());
    assert_eq!(rewriter.feed(b"\x1b[2J\x1b[10;20H"), b"\x1b[2J\x1b[10;20H".to_vec());
}

#[test]
fn color_sequences_are_replaced_by_what_the_theme_says() {
    let theme = test_theme();
    let mut rewriter = SgrRewriter::new(test_theme());
    let mut expected = rewrite_sgr(&theme, b"1;31");
    assert_eq!(rewriter.feed(b"\x1b[1;31m"), expected);
    expected = rewrite_sgr(&theme, b"");
    assert_eq!(rewriter.feed(b"\x1b[m"), expected);
    assert_eq!(parse_parameters(b"1;;31"), vec![1, 0, 31]);
}

#[test]
fn color_codes_name_their_channels() {
    assert_eq!(sgr_rgb(true, Rgb(1, 20, 255)), "\x1b[38;2;1;20;255m");
    assert_eq!(sgr_rgb(false, Rgb(0, 0, 9)), "\x1b[48;2;0;0;9m");
}

#[test]
fn indexed_colors_follow_the_cube_and_the_greys() {
    assert_eq!(indexed_to_rgb(1), indexed_color(1));
    assert_eq!(indexed_color(16), Rgb(0, 0, 0));
    assert_eq!(indexed_color(231), Rgb(255, 255, 255));
    assert_eq!(indexed_color(232), Rgb(8, 8, 8));
    assert_eq!(indexed_color(255), Rgb(238, 238, 238));
}

#[test]
fn mixes_start_and_end_with_the_colors() {
    let (a, b) = (Rgb(3, 200, 77), Rgb(250, 10, 78));
    assert_eq!(lerp_rgb(a, b, value(0.0)), a);
    assert_eq!(lerp_rgb(a, b, value(1.0)), b);
    assert_eq!(lerp(0, 255, value(0.5)), 128);
    assert_eq!(darken(Rgb(200, 100, 50), value(0.25)), Rgb(50, 25, 13));
}

#[test]
fn gradients_are_put_in_order() {
    let stops = [stop(1.0, "#ffffff"), stop(0.0, "#000000"), stop(0.5, "oops")];
    assert_eq!(gradient(&stops, value(0.25)), Some(Rgb(64, 64, 64)));
    assert_eq!(gradient(&stops, value(-1.0)), Some(Rgb(0, 0, 0)));
    assert_eq!(gradient(&stops, value(2.0)), Some(Rgb(255, 255, 255)));
    assert_eq!(gradient(&[], value(0.5)), None);
}

#[test]
fn brightness_is_the_native_formula() {
    let expected = ((10.0f32 * 0.299 + 20.0 * 0.587 + 30.0 * 0.114) / 255.0).clamp(0.0, 1.0);
    assert_eq!(f32::from_bits(intensity(Rgb(10, 20, 30)).bits), expected);
}

#[test]
fn a_gradient_with_an_undefined_position_cannot_be_used() {
    let mut theme = test_theme();
    assert!(theme.is_usable());
    theme.foreground[0].at = value(f32::NAN);
    assert!(!theme.is_usable());
    theme.foreground.pop();
    assert!(theme.is_usable());
}

#[test]
fn built_in_themes_go_by_their_names() {
    assert!(theme_preserves_terminal_colors(Some(&builtin_theme("default"))));
    assert!(!theme_preserves_terminal_colors(Some(&builtin_theme("matrix"))));
    assert!(!theme_preserves_terminal_colors(Some(&builtin_theme("jirai-pink"))));
    assert_eq!(builtin_theme("matrix").name, builtin_theme("matrix-green").name);
}
