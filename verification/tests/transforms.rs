use baeru::matching::char_range;
use baeru::model::{OutputTransformKind, OutputTransformRule};
use baeru::transform::{
    apply_output_transforms, fit_to_width, replace_spans, transform_line, width_preserving_text,
};
use regex::Regex;

fn replace_rule(pattern: &str, replacement: &str) -> OutputTransformRule {
    OutputTransformRule {
        regex: Regex::new(pattern).expect("regex should compile"),
        kind: OutputTransformKind::Replace(replacement.to_string()),
    }
}

fn mask_rule(pattern: &str, mask_char: char) -> OutputTransformRule {
    OutputTransformRule {
        regex: Regex::new(pattern).expect("regex should compile"),
        kind: OutputTransformKind::Mask(mask_char),
    }
}

#[test]
fn replace_rule_pads_to_match_width() {
    let out = transform_line("token=abcdef", &[replace_rule("abcdef", "ok")]);
    assert_eq!(out, "token=ok    ");
}

#[test]
fn replace_rule_truncates_to_match_width() {
    let out = transform_line("token=abc", &[replace_rule("abc", "REDACTED")]);
    assert_eq!(out, "token=RED");
}

#[test]
fn mask_rule_preserves_width() {
    let out = transform_line("secret-1234", &[mask_rule(r"1234", '*')]);
    assert_eq!(out, "secret-****");
}

#[test]
fn multiple_rules_apply_in_order() {
    let out = transform_line(
        "user=alice token=abcdef",
        &[mask_rule("alice", 'x'), replace_rule("abcdef", "ok")],
    );
    assert_eq!(out, "user=xxxxx token=ok    ");
}

#[test]
fn every_match_in_every_line_is_covered() {
    let lines = vec!["ä1ä22".to_string(), "none".to_string()];
    let out = apply_output_transforms(&lines, &[mask_rule(r"\d+", '#')]);
    assert_eq!(out, vec!["ä#ä##".to_string(), "none".to_string()]);
}

#[test]
fn spans_decide_what_is_replaced() {
    let kind = OutputTransformKind::Mask('*');
    assert_eq!(replace_spans("abcd", &vec![(1, 3)], &kind), "a**d");
    assert_eq!(replace_spans("abcd", &vec![], &kind), "abcd");
    assert_eq!(char_range("äbc", (2, 4)), (1, 3));
}

#[test]
fn text_is_fit_to_a_width() {
    assert_eq!(fit_to_width("ab", 4), vec!['a', 'b', ' ', ' ']);
    assert_eq!(fit_to_width("abcd", 2), vec!['a', 'b']);
    assert_eq!(
        width_preserving_text("äbc", &OutputTransformKind::Mask('x')),
        vec!['x', 'x', 'x']
    );
}
