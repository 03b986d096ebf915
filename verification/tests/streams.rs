use baeru::bytes::strip_byte_sequence;
use baeru::passthrough::{
    alt_screen_enter_sequences, contains_alt_screen_enter_sequence,
    contains_mouse_scroll_or_drag, contains_noise_suppression_input, contains_up_down_input,
    live_passthrough_match, live_render_input_mode_disable_sequences,
    live_render_input_mode_enable_sequences, live_render_mouse_disable_sequences,
    live_render_mouse_enable_sequences, live_render_paste_mode_disable_sequences,
    live_render_paste_mode_enable_sequences, longest_live_passthrough_suffix,
    mouse_activity_recent, reset_live_passthrough_sequences, strip_alt_screen_enter_sequences,
    LivePassthrough,
};

fn found_in(patterns: Vec<Vec<u8>>, bytes: &[u8]) -> Vec<Vec<u8>> {
    let mut found = Vec::new();
    for pattern in patterns {
        for _ in bytes
            .windows(pattern.len())
            .filter(|window| *window == pattern.as_slice())
        {
            found.push(pattern.clone());
        }
    }
    found
}

#[test]
fn tui_backend_detects_alternate_screen_sequences() {
    assert!(contains_alt_screen_enter_sequence(b"\x1b[?1049hhello"));
    assert!(contains_alt_screen_enter_sequence(b"\x1b[?47hhello"));
    assert!(!contains_alt_screen_enter_sequence(b"\x1b[31mhello"));
}

#[test]
fn tui_backend_strips_alternate_screen_sequences_from_capture() {
    let stripped = strip_alt_screen_enter_sequences(b"\x1b[?1049habc\x1b[?47hdef");

    assert_eq!(stripped, b"abcdef".to_vec());
}

#[test]
fn tui_backend_strip_byte_sequence_removes_all_occurrences() {
    let stripped = strip_byte_sequence(b"xxSTARTmiddlexxSTARTtail", b"START");

    assert_eq!(stripped, b"xxmiddlexxtail".to_vec());
}

#[test]
fn stripping_shortens_where_there_is_something_to_strip() {
    let nested: &[u8] = b"\x1b[?10\x1b[?1049h49hx";
    for bytes in [&b"plain"[..], b"\x1b[?1047hx", nested, b"\x1b[?47h\x1b[?47h", b""] {
        let left = strip_alt_screen_enter_sequences(bytes);
        let mut rest = bytes.iter();
        assert!(left.iter().all(|byte| rest.any(|other| other == byte)));
        let found = contains_alt_screen_enter_sequence(bytes);
        assert_eq!(left.as_slice() == bytes, !found);
        assert_eq!(left.len() < bytes.len(), found);
    }
}

#[test]
fn mod_detects_alternate_screen_sequences() {
    assert!(contains_alt_screen_enter_sequence(b"\x1b[?1049hhello"));
    assert!(contains_alt_screen_enter_sequence(b"\x1b[?47hhello"));
    assert!(!contains_alt_screen_enter_sequence(b"\x1b[31mhello"));
}

#[test]
fn mod_strips_alternate_screen_sequences_from_capture() {
    let stripped = strip_alt_screen_enter_sequences(b"\x1b[?1049habc\x1b[?47hdef");

    assert_eq!(stripped, b"abcdef".to_vec());
}

#[test]
fn mod_strip_byte_sequence_removes_all_occurrences() {
    let stripped = strip_byte_sequence(b"xxSTARTmiddlexxSTARTtail", b"START");

    assert_eq!(stripped, b"xxmiddlexxtail".to_vec());
}

#[test]
fn live_render_passthrough_detects_mouse_enable_sequences() {
    let bytes = b"\x1b[?1002hhello\x1b[?1006h";

    let found = found_in(live_render_mouse_enable_sequences(), bytes);

    assert!(found.contains(&b"\x1b[?1002h".to_vec()));
    assert!(found.contains(&b"\x1b[?1006h".to_vec()));
}

#[test]
fn live_render_passthrough_detects_mouse_disable_sequences() {
    let bytes = b"\x1b[?1002lhello\x1b[?1006l";

    let found = found_in(live_render_mouse_disable_sequences(), bytes);

    assert!(found.contains(&b"\x1b[?1002l".to_vec()));
    assert!(found.contains(&b"\x1b[?1006l".to_vec()));
}

#[test]
fn live_render_passthrough_detects_input_mode_sequences() {
    let bytes = b"\x1b[?1hhello\x1b=\x1b[?1l\x1b>";

    let found_enable = found_in(live_render_input_mode_enable_sequences(), bytes);
    let found_disable = found_in(live_render_input_mode_disable_sequences(), bytes);

    assert!(found_enable.contains(&b"\x1b[?1h".to_vec()));
    assert!(found_enable.contains(&b"\x1b=".to_vec()));
    assert!(found_disable.contains(&b"\x1b[?1l".to_vec()));
    assert!(found_disable.contains(&b"\x1b>".to_vec()));
}

#[test]
fn live_render_passthrough_detects_bracketed_paste_mode_sequences() {
    let bytes = b"\x1b[?2004hhello\x1b[?2004l";

    let found_enable = found_in(live_render_paste_mode_enable_sequences(), bytes);
    let found_disable = found_in(live_render_paste_mode_disable_sequences(), bytes);

    assert!(found_enable.contains(&b"\x1b[?2004h".to_vec()));
    assert!(found_disable.contains(&b"\x1b[?2004l".to_vec()));
}

#[test]
fn live_passthrough_tracks_split_mouse_enable_sequence() {
    let mut passthrough = LivePassthrough::new();
    let mut out = Vec::new();

    let _ = passthrough.feed(&mut out, b"\x1b[?10");
    assert!(!passthrough.mouse_reporting_active);
    let _ = passthrough.feed(&mut out, b"00h");

    assert!(passthrough.mouse_reporting_active);
}

#[test]
fn live_passthrough_keeps_partial_suffix_for_next_chunk() {
    assert_eq!(longest_live_passthrough_suffix(b"\x1b[?10"), 5);
    assert_eq!(longest_live_passthrough_suffix(b"hello"), 0);
}

#[test]
fn noise_suppression_input_matches_up_down_and_wheel_or_drag() {
    assert!(contains_noise_suppression_input(b"\x1b[A"));
    assert!(contains_noise_suppression_input(b"\x1b[B"));
    assert!(contains_noise_suppression_input(b"\x1b[<64;10;5M"));
    assert!(contains_noise_suppression_input(b"\x1b[<32;10;5M"));
    assert!(contains_noise_suppression_input(b"\x1b[M`!!"));
    assert!(contains_noise_suppression_input(b"\x1b[M@!!"));
    assert!(!contains_noise_suppression_input(b"\x1b[C"));
    assert!(!contains_noise_suppression_input(b"\x1b[<0;10;5M"));
}

#[test]
fn only_modes_are_passed_on_and_the_last_mouse_mode_counts() {
    let mut passthrough = LivePassthrough::new();
    let mut out = Vec::new();
    assert!(passthrough.feed(&mut out, b"text\x1b[?1000h\x1b[31m\x1b=x"));
    assert_eq!(out, b"\x1b[?1000h\x1b=".to_vec());
    assert!(passthrough.mouse_reporting_active);
    assert!(passthrough.feed(&mut out, b"\x1b[?1000l"));
    assert!(!passthrough.mouse_reporting_active);
    assert!(!passthrough.feed(&mut out, b"plain"));
}

#[test]
fn cuts_of_the_output_do_not_matter() {
    let all: &[u8] = b"a\x1b[?1002hb\x1b[?1l\x1b[?2004hc\x1b[?1002l";
    let mut whole = LivePassthrough::new();
    let mut expected = Vec::new();
    let _ = whole.feed(&mut expected, all);
    for cut in 0..=all.len() {
        let mut parts = LivePassthrough::new();
        let mut out = Vec::new();
        let _ = parts.feed(&mut out, &all[..cut]);
        let _ = parts.feed(&mut out, &all[cut..]);
        assert_eq!(out, expected, "cut at {cut}");
        assert_eq!(parts.pending, whole.pending);
        assert_eq!(parts.mouse_reporting_active, whole.mouse_reporting_active);
    }
}

#[test]
fn matches_say_whether_the_mouse_is_reported() {
    assert_eq!(
        live_passthrough_match(b"\x1b[?1003hx"),
        Some((b"\x1b[?1003h".to_vec(), Some(true)))
    );
    assert_eq!(
        live_passthrough_match(b"\x1b[?1003l"),
        Some((b"\x1b[?1003l".to_vec(), Some(false)))
    );
    assert_eq!(live_passthrough_match(b"\x1b>"), Some((b"\x1b>".to_vec(), None)));
    assert_eq!(live_passthrough_match(b"x\x1b>"), None);
}

#[test]
fn resetting_turns_all_modes_off() {
    assert_eq!(
        reset_live_passthrough_sequences(),
        b"\x1b[?1000l\x1b[?1002l\x1b[?1003l\x1b[?1005l\x1b[?1006l\x1b[?1007l\x1b[?1015l\x1b[?1l\x1b>\x1b[?2004l"
            .to_vec()
    );
}

#[test]
fn sequences_that_enter_the_alternate_screen_are_all_stripped() {
    assert_eq!(alt_screen_enter_sequences().len(), 3);
    for sequence in alt_screen_enter_sequences() {
        assert!(contains_alt_screen_enter_sequence(&sequence));
        assert!(strip_alt_screen_enter_sequences(&sequence).is_empty());
    }
    assert_eq!(strip_alt_screen_enter_sequences(b"none"), b"none".to_vec());
    assert_eq!(strip_byte_sequence(b"abc", b""), b"abc".to_vec());
}

#[test]
fn activity_is_recent_within_the_window() {
    assert!(mouse_activity_recent(Some(5), 5));
    assert!(!mouse_activity_recent(Some(6), 5));
    assert!(!mouse_activity_recent(None, 5));
}

#[test]
fn arrows_and_drags_are_told_apart() {
    assert!(contains_up_down_input(b"\x1bOA"));
    assert!(!contains_up_down_input(b"\x1bOC"));
    assert!(contains_mouse_scroll_or_drag(b"\x1b[<35;1;1M"));
    assert!(!contains_mouse_scroll_or_drag(b"\x1b[M"));
}
