use baeru::keymap::{
    compile_keymap, key_to_bytes, parse_hex_bytes, KeyFault, KeyMapper, Keymap,
};
use baeru::passthrough::{forward_input, InputEvent, InputStep};

fn keymap(pairs: &[(&[u8], &[u8])]) -> Keymap {
    let mut map = Keymap::new();
    for (key, value) in pairs {
        map.insert(key.to_vec(), value.to_vec());
    }
    map
}

fn names(pairs: &[(&str, &str)]) -> Vec<(String, String)> {
    pairs.iter().map(|(a, b)| (a.to_string(), b.to_string())).collect()
}

#[test]
fn compile_keymap_supports_control_and_function_keys() {
    let map = names(&[("ctrl-j", "down"), ("f5", "r")]);

    let compiled = compile_keymap(&map).expect("keymap should compile");

    assert_eq!(compiled.get(&vec![10]).cloned(), Some(b"\x1b[B".to_vec()));
    assert_eq!(
        compiled.get(b"\x1b[15~".as_slice()).cloned(),
        Some(b"r".to_vec())
    );
}

#[test]
fn key_mapper_prefers_longest_match() {
    let mut mapper = KeyMapper::new(keymap(&[(b"\x1b", b"E"), (b"\x1b[A", b"UP")]));

    let mapped = mapper.push_bytes(b"\x1b[A");

    assert_eq!(mapped, b"UP".to_vec());
}

#[test]
fn key_mapper_waits_for_split_escape_sequence() {
    let mut mapper = KeyMapper::new(keymap(&[(b"\x1b[A", b"UP")]));

    let first = mapper.push_bytes(b"\x1b");
    let second = mapper.push_bytes(b"[A");

    assert!(first.is_empty());
    assert_eq!(second, b"UP".to_vec());
}

#[test]
fn key_mapper_flushes_ambiguous_escape_as_shorter_match() {
    let mut mapper = KeyMapper::new(keymap(&[(b"\x1b", b"ESC"), (b"\x1b[A", b"UP")]));

    let partial = mapper.push_bytes(b"\x1b");
    let flushed = mapper.flush_pending();

    assert!(partial.is_empty());
    assert_eq!(flushed, b"ESC".to_vec());
}

#[test]
fn key_mapper_passthroughs_escape_sequences_without_escape_rules() {
    let mut mapper = KeyMapper::new(keymap(&[(b"j", b"\x1b[B")]));

    let mapped = mapper.push_bytes(b"\x1b[A");

    assert_eq!(mapped, b"\x1b[A".to_vec());
}

#[test]
fn key_mapper_flushes_pending_before_passthrough_escape_sequence() {
    let mut mapper = KeyMapper::new(keymap(&[(b"jj", b"X")]));

    let first = mapper.push_bytes(b"j");
    let second = mapper.push_bytes(b"\x1b[A");

    assert!(first.is_empty());
    assert_eq!(second, b"j\x1b[A".to_vec());
}

#[test]
fn key_mapper_passthroughs_split_escape_sequences_without_escape_rules() {
    let mut mapper = KeyMapper::new(keymap(&[(b"j", b"\x1b[B")]));

    let first = mapper.push_bytes(b"\x1b");
    let second = mapper.push_bytes(b"OA");

    assert!(first.is_empty());
    assert_eq!(second, b"\x1bOA".to_vec());
}

#[test]
fn compile_keymap_rejects_unsupported_key() {
    let map = names(&[("meta-x", "down")]);

    let result = compile_keymap(&map);

    assert!(result.is_err());
}

#[test]
fn key_names_give_their_bytes() {
    let cases: [(&str, &[u8]); 12] = [
        ("up", b"\x1b[A"),
        ("down", b"\x1b[B"),
        ("left", b"\x1b[D"),
        ("right", b"\x1b[C"),
        ("home", b"\x1b[H"),
        ("end", b"\x1b[F"),
        ("page-up", b"\x1b[5~"),
        ("page-down", b"\x1b[6~"),
        ("ctrl-a", b"\x01"),
        ("ctrl-z", b"\x1a"),
        ("/", b"/"),
        ("ä", "ä".as_bytes()),
    ];
    for (name, bytes) in cases {
        assert_eq!(key_to_bytes(name).expect(name), bytes.to_vec(), "{name}");
    }
}

#[test]
fn a_single_character_is_a_key_even_if_it_starts_other_names() {
    assert_eq!(key_to_bytes("f").expect("f is a key"), b"f".to_vec());
    assert_eq!(key_to_bytes("j").expect("j is a key"), b"j".to_vec());
}

#[test]
fn refused_key_names_say_why() {
    let cases = [
        ("ctrl-1", KeyFault::Control, "unsupported control key: ctrl-1"),
        ("fx", KeyFault::FunctionNumber, "invalid function key: fx"),
        ("f99", KeyFault::Function, "unsupported function key: f99"),
        ("\\x1", KeyFault::Hex, "invalid hex byte string: \\x1"),
        ("meta-x", KeyFault::Syntax, "unsupported key syntax: meta-x"),
    ];
    for (name, fault, message) in cases {
        let error = key_to_bytes(name).expect_err(name);
        assert_eq!(error.fault, fault, "{name}");
        assert_eq!(error.message(), message);
    }
}

#[test]
fn hex_bytes_are_read_in_pairs() {
    assert_eq!(parse_hex_bytes("1b5b41").expect("hex"), b"\x1b[A".to_vec());
    assert!(parse_hex_bytes("1b5").is_err());
    assert!(parse_hex_bytes("zz").is_err());
    assert_eq!(parse_hex_bytes("\\x1b\\x4f").expect("hex"), b"\x1bO".to_vec());
    assert_eq!(parse_hex_bytes("+f").expect("a sign is read"), vec![15]);
}

#[test]
fn of_two_names_for_a_key_the_last_counts() {
    let compiled = compile_keymap(&names(&[("ctrl-i", "a"), ("tab", "b")])).expect("keymap");
    assert_eq!(compiled.get(b"\t").cloned(), Some(b"b".to_vec()));
}

#[test]
fn without_keys_input_is_not_changed() {
    let mut mapper = KeyMapper::new(Keymap::new());
    assert_eq!(mapper.push_bytes(b"abc"), b"abc".to_vec());
    assert_eq!(mapper.flush_pending(), Vec::<u8>::new());
}

#[test]
fn a_flush_leaves_nothing_behind() {
    let mut mapper = KeyMapper::new(keymap(&[(b"jj", b"X")]));
    assert!(mapper.push_bytes(b"j").is_empty());
    assert_eq!(mapper.flush_pending(), b"j".to_vec());
    assert_eq!(mapper.flush_pending(), Vec::<u8>::new());
}

#[test]
fn input_is_forwarded_and_watched() {
    let mut mapper = KeyMapper::new(keymap(&[(b"jj", b"X")]));
    assert_eq!(
        forward_input(&mut mapper, InputEvent::Chunk(b"j".to_vec()), true),
        InputStep { send: vec![], note_activity: false, stop: false }
    );
    assert_eq!(
        forward_input(&mut mapper, InputEvent::Pause, true),
        InputStep { send: b"j".to_vec(), note_activity: false, stop: false }
    );
    assert_eq!(
        forward_input(&mut mapper, InputEvent::Chunk(b"\x1b[A".to_vec()), true),
        InputStep { send: b"\x1b[A".to_vec(), note_activity: true, stop: false }
    );
    assert_eq!(
        forward_input(&mut mapper, InputEvent::Chunk(b"\x1b[A".to_vec()), false),
        InputStep { send: b"\x1b[A".to_vec(), note_activity: false, stop: false }
    );
    assert_eq!(
        forward_input(&mut mapper, InputEvent::Closed, true),
        InputStep { send: vec![], note_activity: false, stop: true }
    );
}
