//! Key names, key maps and the rewriting of typed bytes.
use crate::bytes;
use crate::bytes::{append_all, ascii_bytes, is_at, part};
use crate::text;
use crate::text::{chars_of, lowercase, parse_small, same, text_of};
use crate::theme;
use vstd::prelude::*;
use vstd::utf8::*;

verus! {

/// Why a key name is refused.
#[derive(Debug, Clone, Copy, PartialEq, Eq, Structural)]
pub enum KeyFault {
    Control,
    FunctionNumber,
    Function,
    Hex,
    Syntax,
}

/// A key name that is refused.
#[derive(Debug, PartialEq, Eq)]
pub struct KeyError {
    pub fault: KeyFault,
    pub key: String,
}

impl KeyFault {
    /// What the message for the user starts with.
    pub open spec fn reason(self) -> Seq<char> {
        match self {
            KeyFault::Control => "unsupported control key: "@,
            KeyFault::FunctionNumber => "invalid function key: "@,
            KeyFault::Function => "unsupported function key: "@,
            KeyFault::Hex => "invalid hex byte string: "@,
            KeyFault::Syntax => "unsupported key syntax: "@,
        }
    }
}

impl KeyError {
    /// The message for the user.
    pub fn message(&self) -> (r: String)
        ensures
            r@ == self.fault.reason() + self.key@,
    {
        let reason: &str = match self.fault {
            KeyFault::Control => "unsupported control key: ",
            KeyFault::FunctionNumber => "invalid function key: ",
            KeyFault::Function => "unsupported function key: ",
            KeyFault::Hex => "invalid hex byte string: ",
            KeyFault::Syntax => "unsupported key syntax: ",
        };
        let mut r: String = String::new();
        r.append(reason);
        r.append(self.key.as_str());
        assert(r@ =~= self.fault.reason() + self.key@);
        r
    }
}

/// The bytes of a key with a name of its own.
pub open spec fn named_key(name: Seq<char>) -> Option<Seq<u8>> {
    if name == "up"@ {
        Some(bytes::ascii("\x1b[A"@))
    } else if name == "down"@ {
        Some(bytes::ascii("\x1b[B"@))
    } else if name == "right"@ {
        Some(bytes::ascii("\x1b[C"@))
    } else if name == "left"@ {
        Some(bytes::ascii("\x1b[D"@))
    } else if name == "home"@ {
        Some(bytes::ascii("\x1b[H"@))
    } else if name == "end"@ {
        Some(bytes::ascii("\x1b[F"@))
    } else if name == "page-up"@ {
        Some(bytes::ascii("\x1b[5~"@))
    } else if name == "page-down"@ {
        Some(bytes::ascii("\x1b[6~"@))
    } else if name == "enter"@ {
        Some(seq![0x0du8])
    } else if name == "esc"@ {
        Some(seq![0x1bu8])
    } else if name == "tab"@ {
        Some(seq![0x09u8])
    } else if name == "backspace"@ {
        Some(seq![0x7fu8])
    } else {
        None
    }
}

/// The bytes of a function key.
pub open spec fn function_key(n: int) -> Option<Seq<u8>> {
    if n == 1 {
        Some(bytes::ascii("\x1bOP"@))
    } else if n == 2 {
        Some(bytes::ascii("\x1bOQ"@))
    } else if n == 3 {
        Some(bytes::ascii("\x1bOR"@))
    } else if n == 4 {
        Some(bytes::ascii("\x1bOS"@))
    } else if n == 5 {
        Some(bytes::ascii("\x1b[15~"@))
    } else if n == 6 {
        Some(bytes::ascii("\x1b[17~"@))
    } else if n == 7 {
        Some(bytes::ascii("\x1b[18~"@))
    } else if n == 8 {
        Some(bytes::ascii("\x1b[19~"@))
    } else if n == 9 {
        Some(bytes::ascii("\x1b[20~"@))
    } else if n == 10 {
        Some(bytes::ascii("\x1b[21~"@))
    } else {
        None
    }
}

/// A text without the `\x` in it, taken from left to right.
pub open spec fn unmarked(text: Seq<char>) -> Seq<char>
    decreases text.len(),
{
    if text.len() == 0 {
        text
    } else if text.len() >= 2 && text[0] == '\\' && text[1] == 'x' {
        unmarked(text.skip(2))
    } else {
        seq![text[0]] + unmarked(text.skip(1))
    }
}

/// The bytes that pairs of hexadecimal digits stand for.
pub open spec fn hex_pairs(digits: Seq<char>) -> Option<Seq<u8>>
    decreases digits.len(),
{
    if digits.len() == 0 {
        Some(Seq::empty())
    } else if digits.len() == 1 {
        None
    } else {
        let n = digits.len() as int;
        match (
            hex_pairs(digits.take(n - 2)),
            theme::pair_value(digits[n - 2], digits[n - 1]),
        ) {
            (Some(before), Some(byte)) => Some(before.push(byte)),
            _ => None,
        }
    }
}

/// Whether a lower-case key name is that of a control key.
pub open spec fn names_control(name: Seq<char>) -> bool {
    name.len() == 6 && name.take(5) == "ctrl-"@ && name[5] <= '\u{7f}'
}

/// The bytes of a key: a named key, a control key, a function key, bytes in hexadecimal, or a
/// single character. Letter case matters only for the last two.
pub open spec fn key_bytes(key: Seq<char>) -> Result<Seq<u8>, KeyFault> {
    let name = text::lowered(key);
    if named_key(name) is Some {
        Ok(named_key(name)->0)
    } else if names_control(name) {
        if 'a' <= name[5] <= 'z' {
            Ok(seq![(name[5] as int - 96) as u8])
        } else {
            Err(KeyFault::Control)
        }
    } else if key.len() == 1 {
        Ok(encode_utf8(key))
    } else if name.len() > 0 && name[0] == 'f' {
        match text::small_number(name.skip(1)) {
            None => Err(KeyFault::FunctionNumber),
            Some(n) => match function_key(n) {
                Some(found) => Ok(found),
                None => Err(KeyFault::Function),
            },
        }
    } else if key.len() >= 2 && key[0] == '\\' && key[1] == 'x' {
        match hex_pairs(unmarked(key)) {
            Some(found) => Ok(found),
            None => Err(KeyFault::Hex),
        }
    } else {
        Err(KeyFault::Syntax)
    }
}

fn named_key_bytes(name: &str) -> (r: Option<Vec<u8>>)
    ensures
        r is Some <==> named_key(name@) is Some,
        r is Some ==> r->0@ == named_key(name@)->0,
{
    if same(name, "up") {
        Some(ascii_bytes("\x1b[A"))
    } else if same(name, "down") {
        Some(ascii_bytes("\x1b[B"))
    } else if same(name, "right") {
        Some(ascii_bytes("\x1b[C"))
    } else if same(name, "left") {
        Some(ascii_bytes("\x1b[D"))
    } else if same(name, "home") {
        Some(ascii_bytes("\x1b[H"))
    } else if same(name, "end") {
        Some(ascii_bytes("\x1b[F"))
    } else if same(name, "page-up") {
        Some(ascii_bytes("\x1b[5~"))
    } else if same(name, "page-down") {
        Some(ascii_bytes("\x1b[6~"))
    } else if same(name, "enter") {
        Some(vec![0x0d])
    } else if same(name, "esc") {
        Some(vec![0x1b])
    } else if same(name, "tab") {
        Some(vec![0x09])
    } else if same(name, "backspace") {
        Some(vec![0x7f])
    } else {
        None
    }
}

fn function_key_bytes(n: u8) -> (r: Option<Vec<u8>>)
    ensures
        r is Some <==> function_key(n as int) is Some,
        r is Some ==> r->0@ == function_key(n as int)->0,
{
    match n {
        1 => Some(ascii_bytes("\x1bOP")),
        2 => Some(ascii_bytes("\x1bOQ")),
        3 => Some(ascii_bytes("\x1bOR")),
        4 => Some(ascii_bytes("\x1bOS")),
        5 => Some(ascii_bytes("\x1b[15~")),
        6 => Some(ascii_bytes("\x1b[17~")),
        7 => Some(ascii_bytes("\x1b[18~")),
        8 => Some(ascii_bytes("\x1b[19~")),
        9 => Some(ascii_bytes("\x1b[20~")),
        10 => Some(ascii_bytes("\x1b[21~")),
        _ => None,
    }
}

fn refused(fault: KeyFault, key: &str) -> (r: KeyError)
    ensures
        r.fault == fault,
        r.key@ == key@,
{
    KeyError { fault, key: key.to_owned() }
}

/// Reads bytes written in hexadecimal, such as `\x1b\x5b`.
pub fn parse_hex_bytes(s: &str) -> (r: Result<Vec<u8>, KeyError>)
    ensures
        match hex_pairs(unmarked(s@)) {
            Some(found) => r is Ok && r->Ok_0@ == found,
            None => r is Err && r->Err_0.fault == KeyFault::Hex && r->Err_0.key@ == s@,
        },
{
    let chars: Vec<char> = chars_of(s);
    let mut digits: Vec<char> = Vec::new();
    let mut i: usize = 0;
    assert(chars@.skip(0) =~= chars@);
    assert(digits@ + unmarked(chars@) =~= unmarked(chars@));
    while i < chars.len()
        invariant
            i <= chars@.len(),
            digits@ + unmarked(chars@.skip(i as int)) == unmarked(chars@),
        decreases chars@.len() - i,
    {
        let ghost rest = chars@.skip(i as int);
        let ghost done = digits@;
        if chars.len() - i >= 2 && chars[i] == '\\' && chars[i + 1] == 'x' {
            assert(rest.skip(2) =~= chars@.skip(i + 2));
            i = i + 2;
        } else {
            assert(rest.skip(1) =~= chars@.skip(i + 1));
            digits.push(chars[i]);
            i = i + 1;
            assert(done + (seq![rest[0]] + unmarked(chars@.skip(i as int))) =~= digits@ + unmarked(
                chars@.skip(i as int),
            ));
        }
    }
    assert(chars@.skip(i as int) =~= Seq::<char>::empty());
    assert(digits@ =~= unmarked(chars@));
    let mut out: Vec<u8> = Vec::new();
    let mut j: usize = 0;
    assert(digits@.take(0) =~= Seq::empty());
    assert(out@ =~= Seq::empty());
    while digits.len() - j >= 2
        invariant
            j <= digits@.len(),
            j % 2 == 0,
            digits@ == unmarked(s@),
            hex_pairs(digits@.take(j as int)) == Some(out@),
        decreases digits@.len() - j,
    {
        let ghost next = digits@.take(j + 2);
        assert(next.take(j as int) =~= digits@.take(j as int));
        match theme::hex_pair(digits[j], digits[j + 1]) {
            Some(byte) => {
                out.push(byte);
            },
            None => {
                proof {
                    lemma_broken_pairs(digits@, j + 2);
                }
                return Err(refused(KeyFault::Hex, s));
            },
        }
        j = j + 2;
    }
    if j < digits.len() {
        proof {
            lemma_even_pairs(digits@.take(j as int));
            lemma_even_pairs(digits@);
        }
        return Err(refused(KeyFault::Hex, s));
    }
    assert(digits@.take(j as int) =~= digits@);
    Ok(out)
}

proof fn lemma_even_pairs(digits: Seq<char>)
    ensures
        hex_pairs(digits) is Some ==> digits.len() % 2 == 0,
    decreases digits.len(),
{
    if digits.len() >= 2 {
        lemma_even_pairs(digits.take(digits.len() - 2));
    }
}

proof fn lemma_broken_pairs(digits: Seq<char>, n: int)
    requires
        0 <= n <= digits.len(),
        n % 2 == 0,
        hex_pairs(digits.take(n)) is None,
    ensures
        hex_pairs(digits) is None,
    decreases digits.len(),
{
    lemma_even_pairs(digits);
    if n == digits.len() {
        assert(digits.take(n) =~= digits);
    } else if digits.len() % 2 == 0 {
        let shorter = digits.take(digits.len() - 2);
        assert(shorter.take(n) =~= digits.take(n));
        lemma_broken_pairs(shorter, n);
    }
}

/// The bytes of a key.
pub fn key_to_bytes(s: &str) -> (r: Result<Vec<u8>, KeyError>)
    ensures
        match key_bytes(s@) {
            Ok(found) => r is Ok && r->Ok_0@ == found,
            Err(fault) => r is Err && r->Err_0.fault == fault && r->Err_0.key@ == s@,
        },
{
    let chars: Vec<char> = chars_of(s);
    let lower: Vec<char> = lowercase(&chars);
    let name: String = text_of(lower.as_slice());
    if let Some(found) = named_key_bytes(name.as_str()) {
        return Ok(found);
    }
    if lower.len() == 6 {
        let mut front: Vec<char> = Vec::new();
        front.push(lower[0]);
        front.push(lower[1]);
        front.push(lower[2]);
        front.push(lower[3]);
        front.push(lower[4]);
        assert(front@ =~= lower@.take(5));
        let start: String = text_of(front.as_slice());
        if same(start.as_str(), "ctrl-") && lower[5] <= '\u{7f}' {
            let c: char = lower[5];
            if 'a' <= c && c <= 'z' {
                let code: u8 = (c as u8) - 96;
                return Ok(vec![code]);
            }
            return Err(refused(KeyFault::Control, s));
        }
    }
    if chars.len() == 1 {
        let mut out: Vec<u8> = Vec::new();
        append_all(&mut out, s.as_bytes());
        assert(out@ =~= encode_utf8(s@));
        return Ok(out);
    }
    if lower.len() > 0 && lower[0] == 'f' {
        return match parse_small(&lower, 1) {
            None => Err(refused(KeyFault::FunctionNumber, s)),
            Some(n) => match function_key_bytes(n) {
                Some(found) => Ok(found),
                None => Err(refused(KeyFault::Function, s)),
            },
        };
    }
    if chars.len() >= 2 && chars[0] == '\\' && chars[1] == 'x' {
        return parse_hex_bytes(s);
    }
    Err(refused(KeyFault::Syntax, s))
}

/// The entries of a list of keys and values, put in one after the other.
pub open spec fn table(entries: Seq<(Vec<u8>, Vec<u8>)>) -> Map<Seq<u8>, Seq<u8>>
    decreases entries.len(),
{
    if entries.len() == 0 {
        Map::empty()
    } else {
        table(entries.drop_last()).insert(entries.last().0@, entries.last().1@)
    }
}

/// What keys are replaced by: a map from the bytes of a key to the bytes that take their place.
pub struct Keymap {
    entries: Vec<(Vec<u8>, Vec<u8>)>,
}

impl View for Keymap {
    type V = Map<Seq<u8>, Seq<u8>>;

    closed spec fn view(&self) -> Map<Seq<u8>, Seq<u8>> {
        table(self.entries@)
    }
}

proof fn lemma_table_entry(entries: Seq<(Vec<u8>, Vec<u8>)>, i: int)
    requires
        0 <= i < entries.len(),
    ensures
        table(entries).contains_key(entries[i].0@),
    decreases entries.len(),
{
    if i < entries.len() - 1 {
        lemma_table_entry(entries.drop_last(), i);
    }
}

proof fn lemma_table_source(entries: Seq<(Vec<u8>, Vec<u8>)>, key: Seq<u8>) -> (i: int)
    requires
        table(entries).contains_key(key),
    ensures
        0 <= i < entries.len(),
        entries[i].0@ == key,
        entries[i].1@ == table(entries)[key],
        forall|j: int| i < j < entries.len() ==> (#[trigger] entries[j]).0@ != key,
    decreases entries.len(),
{
    if entries.last().0@ == key {
        entries.len() - 1
    } else {
        let front = entries.drop_last();
        let i = lemma_table_source(front, key);
        assert forall|j: int| i < j < entries.len() implies (#[trigger] entries[j]).0@ != key by {
            if j < front.len() {
                assert(front[j] == entries[j]);
            }
        }
        i
    }
}

impl Keymap {
    /// The empty map.
    pub fn new() -> (r: Keymap)
        ensures
            r@ == Map::<Seq<u8>, Seq<u8>>::empty(),
    {
        Keymap { entries: Vec::new() }
    }

    /// Maps a key to a value, in place of an earlier value.
    pub fn insert(&mut self, key: Vec<u8>, value: Vec<u8>)
        ensures
            final(self)@ == old(self)@.insert(key@, value@),
    {
        self.entries.push((key, value));
        assert(self.entries@.drop_last() =~= old(self).entries@);
    }

    /// The value of a key.
    pub fn get(&self, key: &[u8]) -> (r: Option<&Vec<u8>>)
        ensures
            r is Some <==> self@.contains_key(key@),
            r is Some ==> r->0@ == self@[key@],
    {
        let mut i: usize = self.entries.len();
        while i > 0
            invariant
                i <= self.entries@.len(),
                forall|j: int| i <= j < self.entries@.len() ==> (#[trigger] self.entries@[j]).0@ != key@,
            decreases i,
        {
            i = i - 1;
            let from: &Vec<u8> = &self.entries[i].0;
            if from.len() == key.len() && is_at(from.as_slice(), key, 0) {
                proof {
                    assert(from@.subrange(0, key@.len() as int) =~= from@);
                    lemma_table_entry(self.entries@, i as int);
                    let k = lemma_table_source(self.entries@, key@);
                    assert(k == i);
                }
                return Some(&self.entries[i].1);
            }
            proof {
                if from@ == key@ {
                    assert(from@.subrange(0, key@.len() as int) =~= from@);
                }
            }
        }
        proof {
            if self@.contains_key(key@) {
                let k = lemma_table_source(self.entries@, key@);
            }
        }
        None
    }
}

/// The length of the longest key that `typed` starts with, if there is one of at most `n` bytes.
pub open spec fn longest_key(map: Map<Seq<u8>, Seq<u8>>, typed: Seq<u8>, n: int) -> Option<int>
    decreases n,
{
    if n <= 0 {
        None
    } else if n <= typed.len() && map.contains_key(typed.take(n)) {
        Some(n)
    } else {
        longest_key(map, typed, n - 1)
    }
}

/// Whether more bytes can complete `typed` to a longer key.
pub open spec fn may_grow(map: Map<Seq<u8>, Seq<u8>>, typed: Seq<u8>) -> bool {
    exists|key: Seq<u8>| #[trigger]
        map.contains_key(key) && key.len() > typed.len() && key.take(typed.len() as int) == typed
}

/// What becomes of typed bytes: the bytes that are held back, and those that are put out. The
/// longest key goes first. Bytes that can grow to a longer key wait, unless all are flushed.
pub open spec fn drained(map: Map<Seq<u8>, Seq<u8>>, typed: Seq<u8>, flush: bool) -> (
    Seq<u8>,
    Seq<u8>,
)
    decreases typed.len(),
{
    if typed.len() == 0 {
        (typed, Seq::empty())
    } else if !flush && may_grow(map, typed) {
        (typed, Seq::empty())
    } else {
        match longest_key(map, typed, typed.len() as int) {
            Some(n) => if 0 < n <= typed.len() {
                let rest = drained(map, typed.skip(n), flush);
                (rest.0, map[typed.take(n)] + rest.1)
            } else {
                (typed, Seq::empty())
            },
            None => {
                let rest = drained(map, typed.skip(1), flush);
                (rest.0, seq![typed[0]] + rest.1)
            },
        }
    }
}

/// Whether a key starts with an escape.
pub open spec fn has_escape_key(map: Map<Seq<u8>, Seq<u8>>) -> bool {
    exists|key: Seq<u8>| #[trigger] map.contains_key(key) && key.len() > 0 && key[0] == 0x1b
}

/// What becomes of a chunk of typed bytes, after `pending`. Where no key starts with an escape,
/// escape sequences pass as they are.
pub open spec fn pushed(map: Map<Seq<u8>, Seq<u8>>, pending: Seq<u8>, input: Seq<u8>) -> (
    Seq<u8>,
    Seq<u8>,
) {
    if has_escape_key(map) {
        drained(map, pending + input, false)
    } else if pending == seq![0x1bu8] {
        drained(map, pending + input, true)
    } else if input.len() > 0 && input[0] == 0x1b {
        let before = drained(map, pending, true);
        if input.len() == 1 {
            (before.0 + input, before.1)
        } else {
            (before.0, before.1 + input)
        }
    } else {
        drained(map, pending + input, false)
    }
}

/// Rewrites typed bytes by a key map. Bytes that may still become a key are held back.
pub struct KeyMapper {
    map: Keymap,
    pending: Vec<u8>,
    has_escape_rules: bool,
}

proof fn lemma_longest_key(map: Map<Seq<u8>, Seq<u8>>, typed: Seq<u8>, n: int, found: int)
    requires
        0 < found <= n,
        found <= typed.len(),
        map.contains_key(typed.take(found)),
        forall|m: int|
            found < m <= n && m <= typed.len() ==> !map.contains_key(#[trigger] typed.take(m)),
    ensures
        longest_key(map, typed, n) == Some(found),
    decreases n,
{
    if n != found {
        lemma_longest_key(map, typed, n - 1, found);
    }
}

proof fn lemma_no_key(map: Map<Seq<u8>, Seq<u8>>, typed: Seq<u8>, n: int)
    requires
        forall|m: int|
            0 < m <= n && m <= typed.len() ==> !map.contains_key(#[trigger] typed.take(m)),
    ensures
        longest_key(map, typed, n) is None,
    decreases n,
{
    if n > 0 {
        lemma_no_key(map, typed, n - 1);
    }
}

impl KeyMapper {
    /// The key map.
    pub closed spec fn map(self) -> Map<Seq<u8>, Seq<u8>> {
        self.map@
    }

    /// The bytes that are held back.
    pub closed spec fn pending(self) -> Seq<u8> {
        self.pending@
    }

    /// No key is empty, and it is noted whether a key starts with an escape.
    pub closed spec fn well_formed(self) -> bool {
        &&& !self.map@.contains_key(Seq::empty())
        &&& self.has_escape_rules == has_escape_key(self.map@)
    }

    /// A mapper that holds nothing back.
    pub fn new(map: Keymap) -> (r: KeyMapper)
        requires
            !map@.contains_key(Seq::<u8>::empty()),
        ensures
            r.well_formed(),
            r.map() == map@,
            r.pending() == Seq::<u8>::empty(),
    {
        let mut has_escape_rules: bool = false;
        let mut i: usize = 0;
        while i < map.entries.len()
            invariant
                i <= map.entries@.len(),
                has_escape_rules <==> exists|j: int|
                    0 <= j < i && (#[trigger] map.entries@[j]).0@.len() > 0
                        && map.entries@[j].0@[0] == 0x1b,
            decreases map.entries@.len() - i,
        {
            let from: &Vec<u8> = &map.entries[i].0;
            if from.len() > 0 && from[0] == 0x1b {
                has_escape_rules = true;
            }
            i = i + 1;
        }
        proof {
            if has_escape_rules {
                let j = choose|j: int|
                    0 <= j < map.entries@.len() && (#[trigger] map.entries@[j]).0@.len() > 0
                        && map.entries@[j].0@[0] == 0x1b;
                lemma_table_entry(map.entries@, j);
                assert(map@.contains_key(map.entries@[j].0@));
            }
            if has_escape_key(map@) {
                let key = choose|key: Seq<u8>| #[trigger]
                    map@.contains_key(key) && key.len() > 0 && key[0] == 0x1b;
                let j = lemma_table_source(map.entries@, key);
                assert(map.entries@[j].0@[0] == 0x1b);
            }
        }
        let r: KeyMapper = KeyMapper { map, pending: Vec::new(), has_escape_rules };
        assert(r.pending() =~= Seq::<u8>::empty());
        r
    }

    /// The length of the longest key that the held bytes start with.
    fn longest(&self) -> (r: Option<usize>)
        requires
            self.well_formed(),
        ensures
            match longest_key(self.map(), self.pending(), self.pending().len() as int) {
                Some(n) => r == Some(n as usize) && 0 < n <= self.pending().len()
                    && self.map().contains_key(self.pending().take(n)),
                None => r is None,
            },
    {
        let mut best: usize = 0;
        let mut i: usize = 0;
        let ghost typed = self.pending@;
        while i < self.map.entries.len()
            invariant
                i <= self.map.entries@.len(),
                self.well_formed(),
                typed == self.pending@,
                best <= typed.len(),
                best > 0 ==> self.map@.contains_key(typed.take(best as int)),
                forall|j: int|
                    0 <= j < i && bytes::starts(typed, (#[trigger] self.map.entries@[j]).0@)
                        ==> self.map.entries@[j].0@.len() <= best,
            decreases self.map.entries@.len() - i,
        {
            let from: &Vec<u8> = &self.map.entries[i].0;
            if from.len() > best && is_at(self.pending.as_slice(), from.as_slice(), 0) {
                best = from.len();
                proof {
                    lemma_table_entry(self.map.entries@, i as int);
                    assert(typed.take(best as int) =~= from@);
                }
            }
            i = i + 1;
        }
        proof {
            assert forall|m: int|
                best < m <= typed.len() implies !self.map@.contains_key(
                #[trigger] typed.take(m),
            ) by {
                if self.map@.contains_key(typed.take(m)) {
                    let j = lemma_table_source(self.map.entries@, typed.take(m));
                    assert(typed.subrange(0, m) =~= typed.take(m));
                    assert(bytes::starts(typed, self.map.entries@[j].0@));
                }
            }
            if best > 0 {
                lemma_longest_key(self.map@, typed, typed.len() as int, best as int);
            } else {
                lemma_no_key(self.map@, typed, typed.len() as int);
            }
        }
        if best > 0 {
            Some(best)
        } else {
            None
        }
    }

    /// Whether more bytes can complete the held bytes to a longer key.
    fn can_grow(&self) -> (r: bool)
        ensures
            r == may_grow(self.map(), self.pending()),
    {
        let mut i: usize = 0;
        let ghost typed = self.pending@;
        while i < self.map.entries.len()
            invariant
                i <= self.map.entries@.len(),
                typed == self.pending@,
                forall|j: int|
                    0 <= j < i ==> !((#[trigger] self.map.entries@[j]).0@.len() > typed.len()
                        && self.map.entries@[j].0@.take(typed.len() as int) == typed),
            decreases self.map.entries@.len() - i,
        {
            let from: &Vec<u8> = &self.map.entries[i].0;
            if from.len() > self.pending.len() && is_at(
                from.as_slice(),
                self.pending.as_slice(),
                0,
            ) {
                proof {
                    lemma_table_entry(self.map.entries@, i as int);
                    assert(from@.take(typed.len() as int) =~= from@.subrange(
                        0,
                        typed.len() as int,
                    ));
                    assert(self.map@.contains_key(from@));
                }
                return true;
            }
            proof {
                if from@.len() > typed.len() {
                    assert(from@.take(typed.len() as int) =~= from@.subrange(
                        0,
                        typed.len() as int,
                    ));
                }
            }
            i = i + 1;
        }
        proof {
            if may_grow(self.map@, typed) {
                let key = choose|key: Seq<u8>| #[trigger]
                    self.map@.contains_key(key) && key.len() > typed.len() && key.take(
                        typed.len() as int,
                    ) == typed;
                let j = lemma_table_source(self.map.entries@, key);
                assert(self.map.entries@[j].0@ == key);
            }
        }
        false
    }

    /// Puts out what can be put out of the held bytes; all of it, where they are flushed.
    pub fn drain_ready(&mut self, flush_ambiguous: bool) -> (r: Vec<u8>)
        requires
            old(self).well_formed(),
        ensures
            final(self).well_formed(),
            final(self).map() == old(self).map(),
            (final(self).pending(), r@) == drained(
                old(self).map(),
                old(self).pending(),
                flush_ambiguous,
            ),
    {
        let mut out: Vec<u8> = Vec::new();
        let ghost goal = drained(self.map@, self.pending@, flush_ambiguous);
        assert(out@ + goal.1 =~= goal.1);
        while self.pending.len() > 0
            invariant
                self.well_formed(),
                self.map@ == old(self).map(),
                drained(self.map@, self.pending@, flush_ambiguous).0 == goal.0,
                out@ + drained(self.map@, self.pending@, flush_ambiguous).1 == goal.1,
            ensures
                self.well_formed(),
                self.map@ == old(self).map(),
                self.pending@ == goal.0,
                out@ == goal.1,
            decreases self.pending@.len(),
        {
            let ghost typed = self.pending@;
            let ghost sent = out@;
            if !flush_ambiguous && self.can_grow() {
                assert(out@ + Seq::<u8>::empty() =~= out@);
                break ;
            }
            let len: usize = self.pending.len();
            match self.longest() {
                Some(n) => {
                    let key: Vec<u8> = part(self.pending.as_slice(), 0, n);
                    assert(key@ =~= typed.take(n as int));
                    if let Some(to) = self.map.get(key.as_slice()) {
                        append_all(&mut out, to.as_slice());
                    }
                    self.pending = part(self.pending.as_slice(), n, len);
                    assert(self.pending@ =~= typed.skip(n as int));
                    let ghost rest = drained(self.map@, typed.skip(n as int), flush_ambiguous);
                    assert(sent + (self.map@[typed.take(n as int)] + rest.1) =~= out@ + rest.1);
                },
                None => {
                    out.push(self.pending[0]);
                    self.pending = part(self.pending.as_slice(), 1, len);
                    assert(self.pending@ =~= typed.skip(1));
                    let ghost rest = drained(self.map@, typed.skip(1), flush_ambiguous);
                    assert(sent + (seq![typed[0]] + rest.1) =~= out@ + rest.1);
                },
            }
        }
        proof {
            assert(out@ + Seq::<u8>::empty() =~= out@);
        }
        out
    }

    /// Takes a chunk of typed bytes and returns the bytes to send.
    pub fn push_bytes(&mut self, input: &[u8]) -> (r: Vec<u8>)
        requires
            old(self).well_formed(),
        ensures
            final(self).well_formed(),
            final(self).map() == old(self).map(),
            (final(self).pending(), r@) == pushed(old(self).map(), old(self).pending(), input@),
    {
        if !self.has_escape_rules {
            if self.pending.len() == 1 && self.pending[0] == 0x1b {
                assert(self.pending@ =~= seq![0x1bu8]);
                append_all(&mut self.pending, input);
                return self.drain_ready(true);
            }
            if input.len() > 0 && input[0] == 0x1b {
                let mut out: Vec<u8> = self.drain_ready(true);
                if input.len() == 1 {
                    append_all(&mut self.pending, input);
                } else {
                    append_all(&mut out, input);
                }
                return out;
            }
        }
        append_all(&mut self.pending, input);
        self.drain_ready(false)
    }

    /// Puts out all held bytes, after a pause in typing.
    pub fn flush_pending(&mut self) -> (r: Vec<u8>)
        requires
            old(self).well_formed(),
        ensures
            final(self).well_formed(),
            final(self).map() == old(self).map(),
            final(self).pending() == Seq::<u8>::empty(),
            r@ == drained(old(self).map(), old(self).pending(), true).1,
    {
        proof {
            law_flush_empties(self.map@, self.pending@);
        }
        self.drain_ready(true)
    }
}

/// A flush holds nothing back.
pub proof fn law_flush_empties(map: Map<Seq<u8>, Seq<u8>>, typed: Seq<u8>)
    ensures
        drained(map, typed, true).0 == Seq::<u8>::empty(),
    decreases typed.len(),
{
    if typed.len() == 0 {
        assert(typed =~= Seq::<u8>::empty());
    } else {
        lemma_longest_range(map, typed, typed.len() as int);
        match longest_key(map, typed, typed.len() as int) {
            Some(n) => {
                law_flush_empties(map, typed.skip(n));
            },
            None => {
                law_flush_empties(map, typed.skip(1));
            },
        }
    }
}

proof fn lemma_longest_range(map: Map<Seq<u8>, Seq<u8>>, typed: Seq<u8>, n: int)
    ensures
        match longest_key(map, typed, n) {
            Some(m) => 0 < m <= n && m <= typed.len() && map.contains_key(typed.take(m)) && (forall|
                k: int,
            |
                m < k <= n && k <= typed.len() ==> !map.contains_key(#[trigger] typed.take(k))),
            None => forall|k: int|
                0 < k <= n && k <= typed.len() ==> !map.contains_key(#[trigger] typed.take(k)),
        },
    decreases n,
{
    if n > 0 {
        lemma_longest_range(map, typed, n - 1);
    }
}

/// Bytes are held back only while more bytes can make them a longer key.
pub proof fn law_held_bytes_may_grow(map: Map<Seq<u8>, Seq<u8>>, typed: Seq<u8>)
    ensures
        drained(map, typed, false).0.len() == 0 || may_grow(map, drained(map, typed, false).0),
    decreases typed.len(),
{
    if typed.len() > 0 && !may_grow(map, typed) {
        lemma_longest_range(map, typed, typed.len() as int);
        match longest_key(map, typed, typed.len() as int) {
            Some(n) => {
                law_held_bytes_may_grow(map, typed.skip(n));
            },
            None => {
                law_held_bytes_may_grow(map, typed.skip(1));
            },
        }
    }
}

/// Of the keys that typed bytes start with, the longest is the one that is replaced.
pub proof fn law_longest_key_wins(
    map: Map<Seq<u8>, Seq<u8>>,
    typed: Seq<u8>,
    n: int,
    flush: bool,
)
    requires
        0 < n <= typed.len(),
        map.contains_key(typed.take(n)),
        forall|m: int| n < m <= typed.len() ==> !map.contains_key(#[trigger] typed.take(m)),
        flush || !may_grow(map, typed),
    ensures
        drained(map, typed, flush) == (
            drained(map, typed.skip(n), flush).0,
            map[typed.take(n)] + drained(map, typed.skip(n), flush).1,
        ),
{
    lemma_longest_key(map, typed, typed.len() as int, n);
}

/// Without keys, every chunk but a lone escape passes as it is, and nothing is held back.
pub proof fn law_no_keys_no_change(input: Seq<u8>)
    requires
        input != seq![0x1bu8],
    ensures
        pushed(Map::empty(), Seq::empty(), input) == (Seq::<u8>::empty(), input),
{
    let map = Map::<Seq<u8>, Seq<u8>>::empty();
    assert(Seq::<u8>::empty() + input =~= input);
    assert(Seq::<u8>::empty() != seq![0x1bu8]) by {
        assert(seq![0x1bu8].len() == 1);
    }
    if input.len() == 1 && input[0] == 0x1b {
        assert(input =~= seq![0x1bu8]);
    }
    lemma_nothing_mapped(input);
}

proof fn lemma_nothing_mapped(input: Seq<u8>)
    ensures
        drained(Map::empty(), input, false) == (Seq::<u8>::empty(), input),
    decreases input.len(),
{
    let map = Map::<Seq<u8>, Seq<u8>>::empty();
    if input.len() == 0 {
        assert(input =~= Seq::<u8>::empty());
    } else {
        lemma_no_key(map, input, input.len() as int);
        lemma_nothing_mapped(input.skip(1));
        assert(seq![input[0]] + input.skip(1) =~= input);
    }
}

/// Pairs of key names.
pub open spec fn pairs_view(pairs: Seq<(String, String)>) -> Seq<(Seq<char>, Seq<char>)> {
    pairs.map_values(|pair: (String, String)| (pair.0@, pair.1@))
}

/// The compiled form of the first `n` of some pairs of key names.
pub open spec fn compiled(pairs: Seq<(Seq<char>, Seq<char>)>, n: int) -> Map<Seq<u8>, Seq<u8>>
    decreases n,
{
    if n <= 0 {
        Map::empty()
    } else {
        compiled(pairs, n - 1).insert(
            key_bytes(pairs[n - 1].0)->Ok_0,
            key_bytes(pairs[n - 1].1)->Ok_0,
        )
    }
}

/// Why pairs of key names cannot be compiled: the first name that is refused, and its fault.
pub open spec fn first_fault(pairs: Seq<(Seq<char>, Seq<char>)>, i: int) -> Option<
    (Seq<char>, KeyFault),
>
    decreases pairs.len() - i,
{
    if i >= pairs.len() || i < 0 {
        None
    } else if key_bytes(pairs[i].0) is Err {
        Some((pairs[i].0, key_bytes(pairs[i].0)->Err_0))
    } else if key_bytes(pairs[i].1) is Err {
        Some((pairs[i].1, key_bytes(pairs[i].1)->Err_0))
    } else {
        first_fault(pairs, i + 1)
    }
}

/// Compiles pairs of key names. Of pairs that name the same key, the last counts.
pub fn compile_keymap(pairs: &Vec<(String, String)>) -> (r: Result<Keymap, KeyError>)
    ensures
        match first_fault(pairs_view(pairs@), 0) {
            None => r is Ok && r->Ok_0@ == compiled(pairs_view(pairs@), pairs@.len() as int),
            Some(fault) => r is Err && r->Err_0.key@ == fault.0 && r->Err_0.fault == fault.1,
        },
{
    let ghost names = pairs_view(pairs@);
    let mut out: Keymap = Keymap::new();
    let mut i: usize = 0;
    while i < pairs.len()
        invariant
            i <= pairs@.len(),
            names == pairs_view(pairs@),
            first_fault(names, 0) == first_fault(names, i as int),
            out@ == compiled(names, i as int),
        decreases pairs@.len() - i,
    {
        assert(names[i as int] == (pairs@[i as int].0@, pairs@[i as int].1@));
        let key: Vec<u8> = match key_to_bytes(pairs[i].0.as_str()) {
            Ok(found) => found,
            Err(error) => {
                return Err(error);
            },
        };
        let value: Vec<u8> = match key_to_bytes(pairs[i].1.as_str()) {
            Ok(found) => found,
            Err(error) => {
                return Err(error);
            },
        };
        out.insert(key, value);
        i = i + 1;
    }
    Ok(out)
}

} // verus!
