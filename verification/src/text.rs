//! Text helpers: characters, digits, white space and UTF-8 lengths.
use vstd::prelude::*;
use vstd::utf8::*;

verus! {

/// `String::push` appends one character.
pub assume_specification[ String::push ](s: &mut String, ch: char)
    ensures
        final(s)@ == old(s)@.push(ch),
;

/// The characters of a text, one by one.
pub fn chars_of(text: &str) -> (r: Vec<char>)
    ensures
        r@ == text@,
{
    let mut r: Vec<char> = Vec::new();
    for ch in it: text.chars()
        invariant
            r@ == it.seq().take(it.index() as int),
            it.seq() == text@,
    {
        r.push(ch);
    }
    assert(text@.take(text@.len() as int) == text@);
    r
}

/// The text made of some characters.
pub fn text_of(chars: &[char]) -> (r: String)
    ensures
        r@ == chars@,
{
    let mut r: String = String::new();
    let mut i: usize = 0;
    while i < chars.len()
        invariant
            i <= chars@.len(),
            r@ == chars@.take(i as int),
        decreases chars@.len() - i,
    {
        r.push(chars[i]);
        i = i + 1;
    }
    assert(chars@.take(chars@.len() as int) == chars@);
    r
}

/// Whether two texts are equal.
pub fn same(a: &str, b: &str) -> (r: bool)
    ensures
        r == (a@ == b@),
{
    let x: Vec<char> = chars_of(a);
    let y: Vec<char> = chars_of(b);
    if x.len() != y.len() {
        return false;
    }
    let mut i: usize = 0;
    while i < x.len()
        invariant
            i <= x@.len(),
            x@ == a@,
            y@ == b@,
            x@.len() == y@.len(),
            forall|j: int| 0 <= j < i ==> x@[j] == y@[j],
        decreases x@.len() - i,
    {
        if x[i] != y[i] {
            return false;
        }
        i = i + 1;
    }
    assert(x@ =~= y@);
    true
}

/// Whether a character is white space: the `White_Space` characters of Unicode.
pub open spec fn white(ch: char) -> bool {
    ||| '\u{9}' <= ch <= '\u{d}'
    ||| ch == ' '
    ||| ch == '\u{85}'
    ||| ch == '\u{a0}'
    ||| ch == '\u{1680}'
    ||| '\u{2000}' <= ch <= '\u{200a}'
    ||| ch == '\u{2028}'
    ||| ch == '\u{2029}'
    ||| ch == '\u{202f}'
    ||| ch == '\u{205f}'
    ||| ch == '\u{3000}'
}

/// Whether a character is white space.
pub fn is_white(ch: char) -> (r: bool)
    ensures
        r == white(ch),
{
    ('\u{9}' <= ch && ch <= '\u{d}') || ch == ' ' || ch == '\u{85}' || ch == '\u{a0}' || ch
        == '\u{1680}' || ('\u{2000}' <= ch && ch <= '\u{200a}') || ch == '\u{2028}' || ch
        == '\u{2029}' || ch == '\u{202f}' || ch == '\u{205f}' || ch == '\u{3000}'
}

/// Whether a text holds nothing but white space.
pub open spec fn blank(text: Seq<char>) -> bool {
    forall|i: int| 0 <= i < text.len() ==> white(#[trigger] text[i])
}

/// Whether a text holds nothing but white space.
pub fn is_blank(text: &str) -> (r: bool)
    ensures
        r == blank(text@),
{
    let chars: Vec<char> = chars_of(text);
    let mut i: usize = 0;
    while i < chars.len()
        invariant
            i <= chars@.len(),
            chars@ == text@,
            forall|j: int| 0 <= j < i ==> white(#[trigger] text@[j]),
        decreases chars@.len() - i,
    {
        if !is_white(chars[i]) {
            return false;
        }
        i = i + 1;
    }
    true
}

/// A text without the white space at its end.
pub open spec fn trimmed_end(text: Seq<char>) -> Seq<char>
    decreases text.len(),
{
    if text.len() > 0 && white(text.last()) {
        trimmed_end(text.drop_last())
    } else {
        text
    }
}

/// Drops the white space at the end of some characters.
pub fn trim_end(chars: &mut Vec<char>)
    ensures
        final(chars)@ == trimmed_end(old(chars)@),
{
    while chars.len() > 0 && is_white(chars[chars.len() - 1])
        invariant
            trimmed_end(chars@) == trimmed_end(old(chars)@),
        decreases chars@.len(),
    {
        chars.pop();
    }
}

/// The digit with a value below ten.
pub open spec fn digit(n: int) -> char {
    (n + 48) as char
}

/// The decimal digits of a number.
pub open spec fn decimal(n: nat) -> Seq<char>
    decreases n,
{
    if n < 10 {
        seq![digit(n as int)]
    } else {
        decimal(n / 10).push(digit((n % 10) as int))
    }
}

/// The decimal digits of an integer, after a sign where it is negative.
pub open spec fn signed_decimal(n: int) -> Seq<char> {
    if n < 0 {
        seq!['-'] + decimal((-n) as nat)
    } else {
        decimal(n as nat)
    }
}

/// Appends the decimal digits of a number.
pub fn push_decimal(out: &mut String, n: u128)
    ensures
        final(out)@ == old(out)@ + decimal(n as nat),
    decreases n,
{
    if n >= 10 {
        push_decimal(out, n / 10);
    }
    let d: u8 = (n % 10) as u8 + 48;
    out.push(d as char);
    assert(out@ =~= old(out)@ + decimal(n as nat));
}

/// Appends the decimal digits of an integer.
pub fn push_signed(out: &mut String, n: i32)
    ensures
        final(out)@ == old(out)@ + signed_decimal(n as int),
{
    if n < 0 {
        out.push('-');
        push_decimal(out, (-(n as i64)) as u128);
        assert(out@ =~= old(out)@ + signed_decimal(n as int));
    } else {
        push_decimal(out, n as u128);
    }
}

/// The lower-case hexadecimal digit with a value below sixteen.
pub open spec fn hex_digit(n: int) -> char {
    if n < 10 {
        (n + 48) as char
    } else {
        (n + 87) as char
    }
}

/// The two hexadecimal digits of a byte.
pub open spec fn hex_byte(b: u8) -> Seq<char> {
    seq![hex_digit(b as int / 16), hex_digit(b as int % 16)]
}

/// Appends the two hexadecimal digits of a byte.
pub fn push_hex(out: &mut String, b: u8)
    ensures
        final(out)@ == old(out)@ + hex_byte(b),
{
    let hi: u8 = b / 16;
    let lo: u8 = b % 16;
    let h: u8 = if hi < 10 {
        hi + 48
    } else {
        hi + 87
    };
    let l: u8 = if lo < 10 {
        lo + 48
    } else {
        lo + 87
    };
    out.push(h as char);
    out.push(l as char);
    assert(out@ =~= old(out)@ + hex_byte(b));
}

/// The value of a hexadecimal digit of either case.
pub open spec fn hex_value(ch: char) -> Option<int> {
    if '0' <= ch <= '9' {
        Some(ch as int - 48)
    } else if 'a' <= ch <= 'f' {
        Some(ch as int - 87)
    } else if 'A' <= ch <= 'F' {
        Some(ch as int - 55)
    } else {
        None
    }
}

/// The value of a hexadecimal digit of either case.
pub fn hex_digit_value(ch: char) -> (r: Option<u8>)
    ensures
        r is Some <==> hex_value(ch) is Some,
        r is Some ==> r->0 == hex_value(ch)->0 && r->0 < 16,
{
    let c: u32 = ch as u32;
    if '0' <= ch && ch <= '9' {
        Some((c - 48) as u8)
    } else if 'a' <= ch && ch <= 'f' {
        Some((c - 87) as u8)
    } else if 'A' <= ch && ch <= 'F' {
        Some((c - 55) as u8)
    } else {
        None
    }
}

/// The number of bytes that encode a character.
pub open spec fn width(ch: char) -> nat {
    if '\u{7f}' >= ch {
        1
    } else if '\u{7ff}' >= ch {
        2
    } else if '\u{ffff}' >= ch {
        3
    } else {
        4
    }
}

/// The number of bytes that encode a character.
pub fn width_of(ch: char) -> (r: usize)
    ensures
        r == width(ch),
{
    if '\u{7f}' >= ch {
        1
    } else if '\u{7ff}' >= ch {
        2
    } else if '\u{ffff}' >= ch {
        3
    } else {
        4
    }
}

/// The number of bytes that encode the first `n` characters of a text.
pub open spec fn offset(text: Seq<char>, n: int) -> nat
    decreases n,
{
    if n <= 0 {
        0
    } else {
        offset(text, n - 1) + width(text[n - 1])
    }
}

/// The length of an encoded text is the sum of the widths of its characters.
pub proof fn lemma_encoded_length(text: Seq<char>)
    ensures
        encode_utf8(text).len() == offset(text, text.len() as int),
    decreases text.len(),
{
    if text.len() > 0 {
        lemma_encoded_length(text.drop_first());
        lemma_offset_first(text, text.len() as int);
        lemma_width(text[0]);
        assert(encode_utf8(text) == encode_scalar(text[0] as u32) + encode_utf8(text.drop_first()));
    }
}

proof fn lemma_width(ch: char)
    ensures
        encode_scalar(ch as u32).len() == width(ch),
{
    char_is_scalar(ch);
}

proof fn lemma_offset_first(text: Seq<char>, n: int)
    requires
        1 <= n <= text.len(),
    ensures
        offset(text, n) == width(text[0]) + offset(text.drop_first(), n - 1),
    decreases n,
{
    if n > 1 {
        lemma_offset_first(text, n - 1);
    } else {
        assert(offset(text, 0) == 0);
    }
}

/// Offsets grow with the number of characters.
pub proof fn lemma_offset_grows(text: Seq<char>, m: int, n: int)
    requires
        0 <= m < n,
    ensures
        offset(text, m) < offset(text, n),
    decreases n - m,
{
    if m < n - 1 {
        lemma_offset_grows(text, m, n - 1);
    }
}

/// Whether a byte position lies between two characters of a text, or at one of its ends.
pub open spec fn boundary(text: Seq<char>, byte: int) -> bool {
    exists|n: int| 0 <= n <= text.len() && #[trigger] offset(text, n) == byte
}

/// The number of characters before a byte position that lies on a boundary.
pub open spec fn chars_before(text: Seq<char>, byte: int) -> int {
    choose|n: int| 0 <= n <= text.len() && #[trigger] offset(text, n) == byte
}

/// The number of bytes of a text, or `byte` where that is less.
pub open spec fn held_within(text: Seq<char>, byte: int) -> int {
    if byte < offset(text, text.len() as int) {
        byte
    } else {
        offset(text, text.len() as int) as int
    }
}

/// The number of characters before a byte position; a position beyond the end counts as the end.
pub fn byte_to_char_idx(text: &str, byte_idx: usize) -> (r: usize)
    requires
        boundary(text@, held_within(text@, byte_idx as int)),
    ensures
        r <= text@.len(),
        r == chars_before(text@, held_within(text@, byte_idx as int)),
        offset(text@, r as int) == held_within(text@, byte_idx as int),
{
    let chars: Vec<char> = chars_of(text);
    let ghost n = chars_before(text@, held_within(text@, byte_idx as int));
    let mut at: usize = 0;
    let mut i: usize = 0;
    while i < chars.len() && at < byte_idx
        invariant
            chars@ == text@,
            0 <= i <= n <= text@.len(),
            at == offset(text@, i as int),
            offset(text@, n) == held_within(text@, byte_idx as int),
        ensures
            0 <= i <= n <= text@.len(),
            at == offset(text@, i as int),
            i == text@.len() || at >= byte_idx,
        decreases chars@.len() - i,
    {
        proof {
            if i == n {
                lemma_offset_grows(text@, i as int, text@.len() as int);
            }
            if i + 1 < n {
                lemma_offset_grows(text@, i + 1, n);
            }
            assert(offset(text@, i + 1) <= byte_idx);
        }
        at = at + width_of(chars[i]);
        i = i + 1;
    }
    proof {
        if i < n {
            lemma_offset_grows(text@, i as int, n);
        }
    }
    i
}

/// An ASCII capital letter as the small one; any other character as it is.
pub open spec fn lower(ch: char) -> char {
    if 'A' <= ch <= 'Z' {
        (ch as int + 32) as char
    } else {
        ch
    }
}

/// A text with its ASCII capital letters made small.
pub open spec fn lowered(text: Seq<char>) -> Seq<char> {
    text.map_values(|ch: char| lower(ch))
}

/// Some characters with the ASCII capital letters made small.
pub fn lowercase(chars: &Vec<char>) -> (r: Vec<char>)
    ensures
        r@ == lowered(chars@),
{
    let mut r: Vec<char> = Vec::new();
    let mut i: usize = 0;
    while i < chars.len()
        invariant
            i <= chars@.len(),
            r@ == lowered(chars@.take(i as int)),
        decreases chars@.len() - i,
    {
        let ch: char = chars[i];
        if 'A' <= ch && ch <= 'Z' {
            let small: u8 = (ch as u8) + 32;
            r.push(small as char);
        } else {
            r.push(ch);
        }
        i = i + 1;
        assert(r@ =~= lowered(chars@.take(i as int)));
    }
    assert(chars@.take(chars@.len() as int) =~= chars@);
    r
}

/// Whether a character is a decimal digit.
pub open spec fn is_digit(ch: char) -> bool {
    '0' <= ch <= '9'
}

/// The number that a row of digits stands for.
pub open spec fn digits_number(digits: Seq<char>) -> Option<int>
    decreases digits.len(),
{
    if digits.len() == 0 {
        Some(0)
    } else {
        match digits_number(digits.drop_last()) {
            Some(v) => if is_digit(digits.last()) {
                Some(10 * v + (digits.last() as int - 48))
            } else {
                None
            },
            None => None,
        }
    }
}

/// The number below 256 that a text stands for: digits, with a plus sign before them or not.
pub open spec fn small_number(text: Seq<char>) -> Option<int> {
    let digits = if text.len() > 0 && text[0] == '+' {
        text.skip(1)
    } else {
        text
    };
    if digits.len() == 0 {
        None
    } else {
        match digits_number(digits) {
            Some(v) => if v <= 255 {
                Some(v)
            } else {
                None
            },
            None => None,
        }
    }
}

proof fn lemma_digits_grow(digits: Seq<char>, n: int)
    requires
        0 <= n <= digits.len(),
        digits_number(digits) is Some,
    ensures
        digits_number(digits.take(n)) is Some,
        0 <= digits_number(digits.take(n))->0 <= digits_number(digits)->0,
    decreases digits.len(),
{
    if n < digits.len() {
        lemma_digits_grow(digits.drop_last(), n);
        assert(digits.drop_last().take(n) =~= digits.take(n));
    } else {
        assert(digits.take(n) =~= digits);
        if n > 0 {
            lemma_digits_grow(digits.drop_last(), n - 1);
            assert(digits.drop_last().take(n - 1) =~= digits.drop_last());
        }
    }
}

/// Reads a number below 256 from the characters from index `from` on.
#[verifier::loop_isolation(false)]
pub fn parse_small(chars: &Vec<char>, from: usize) -> (r: Option<u8>)
    requires
        from <= chars@.len(),
    ensures
        r is Some <==> small_number(chars@.skip(from as int)) is Some,
        r is Some ==> r->0 == small_number(chars@.skip(from as int))->0,
{
    let ghost whole = chars@.skip(from as int);
    let start: usize = if from < chars.len() && chars[from] == '+' {
        from + 1
    } else {
        from
    };
    let ghost digits = chars@.skip(start as int);
    assert(start > from ==> whole.skip(1) =~= digits);
    if start == chars.len() {
        return None;
    }
    let mut value: u32 = 0;
    let mut i: usize = start;
    assert(digits.take(0) =~= Seq::empty());
    while i < chars.len()
        invariant
            start <= i <= chars@.len(),
            0 <= value <= 255,
            digits_number(digits.take(i - start)) == Some(value as int),
        decreases chars@.len() - i,
    {
        let ch: char = chars[i];
        assert(digits.take(i + 1 - start).drop_last() =~= digits.take(i - start));
        assert(digits.take(i + 1 - start).last() == ch);
        if !('0' <= ch && ch <= '9') {
            proof {
                if digits_number(digits) is Some {
                    lemma_digits_grow(digits, i + 1 - start);
                }
            }
            return None;
        }
        value = value * 10 + (ch as u32 - 48);
        i = i + 1;
        if value > 255 {
            proof {
                if digits_number(digits) is Some {
                    lemma_digits_grow(digits, i - start);
                }
            }
            return None;
        }
    }
    assert(digits.take(i - start) =~= digits);
    Some(value as u8)
}

} // verus!
