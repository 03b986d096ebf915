//! What is written of numbers and read of texts.
use crate::bytes;
use crate::sgr;
use crate::text;
use crate::theme;
use vstd::prelude::*;

verus! {

/// The decimal digits of a number end with its last digit, after those of the rest.
pub proof fn law_decimal_digits(n: nat, d: nat)
    requires
        d < 10,
    ensures
        text::decimal(d) == seq![(0x30 + d) as char],
        n > 0 ==> text::decimal(10 * n + d) == text::decimal(n).push((0x30 + d) as char),
{
    assert((10 * n + d) / 10 == n && (10 * n + d) % 10 == d);
}

/// Nothing but digits is written of a number, without a zero at the start of several.
pub proof fn law_decimal_is_digits(n: nat)
    ensures
        text::decimal(n).len() > 0,
        forall|i: int| 0 <= i < text::decimal(n).len() ==> '0' <= #[trigger] text::decimal(n)[i] <= '9',
        n > 0 ==> text::decimal(n)[0] != '0',
    decreases n,
{
    let last = (0x30 + n % 10) as char;
    assert('0' <= last <= '9');
    if n >= 10 {
        law_decimal_is_digits(n / 10);
        let front = text::decimal(n / 10);
        assert forall|i: int| 0 <= i < text::decimal(n).len() implies '0' <= #[trigger] text::decimal(
            n,
        )[i] <= '9' by {
            if i < front.len() {
                assert(text::decimal(n)[i] == front[i]);
            }
        }
        assert(text::decimal(n)[0] == front[0]);
    }
}

/// What is written of a number is read as that number.
pub proof fn law_decimals_are_read_back(n: nat)
    ensures
        text::digits_number(text::decimal(n)) == Some(n as int),
        sgr::digits_value(bytes::ascii(text::decimal(n))) == Some(n as int),
        n <= 255 ==> text::small_number(text::decimal(n)) == Some(n as int),
        n <= 0x7fff_ffff ==> sgr::parameter(bytes::ascii(text::decimal(n))) == n,
    decreases n,
{
    let all = text::decimal(n);
    let codes = bytes::ascii(all);
    law_decimal_is_digits(n);
    if n >= 10 {
        law_decimals_are_read_back(n / 10);
        assert(all.drop_last() =~= text::decimal(n / 10));
        assert(codes.drop_last() =~= bytes::ascii(text::decimal(n / 10)));
        assert(n == 10 * (n / 10) + n % 10);
    } else {
        assert(all.drop_last() =~= Seq::empty());
        assert(codes.drop_last() =~= Seq::empty());
        assert(text::digits_number(Seq::empty()) == Some(0int));
        assert(sgr::digits_value(Seq::empty()) == Some(0int));
    }
    assert(all.last() as int == 0x30 + n % 10);
    assert(codes.last() == 0x30 + n % 10);
    assert('0' <= all[0] <= '9');
    assert(codes[0] == all[0] as u8);
}

/// The integer with a sign before its digits is written and read alike.
pub proof fn law_signed_decimals(n: nat)
    requires
        n > 0,
    ensures
        text::signed_decimal(n as int) == text::decimal(n),
        text::signed_decimal(-n) == seq!['-'] + text::decimal(n),
        text::signed_decimal(0) == text::decimal(0),
        n <= 0x8000_0000 ==> sgr::parameter(bytes::ascii(text::signed_decimal(-n))) == -n,
{
    let field = bytes::ascii(text::signed_decimal(-n));
    law_decimals_are_read_back(n);
    law_decimal_is_digits(n);
    assert(field.skip(1) =~= bytes::ascii(text::decimal(n)));
}

/// The hexadecimal digits of both cases, and no other character, have their values.
pub proof fn law_hexadecimal_digits(ch: char, k: int)
    ensures
        0 <= k < 10 ==> text::hex_value((0x30 + k) as char) == Some(k),
        0 <= k < 6 ==> text::hex_value((0x61 + k) as char) == Some(10 + k) && text::hex_value(
            (0x41 + k) as char,
        ) == Some(10 + k),
        text::hex_value(ch) is Some ==> 0 <= text::hex_value(ch)->0 < 16,
        text::hex_value(ch) is Some <==> (0x30 <= ch as int <= 0x39 || 0x41 <= ch as int <= 0x46
            || 0x61 <= ch as int <= 0x66),
{
}

/// The two digits that are written of a byte are read as that byte, the high one first.
pub proof fn law_bytes_are_read_back(b: u8)
    ensures
        text::hex_byte(b).len() == 2,
        text::hex_value(text::hex_byte(b)[0]) == Some(b as int / 16),
        text::hex_value(text::hex_byte(b)[1]) == Some(b as int % 16),
        theme::pair_value(text::hex_byte(b)[0], text::hex_byte(b)[1]) == Some(b),
{
    assert(b == 16 * (b as int / 16) + b as int % 16);
}

/// The value of two digits is sixteen times the first and the second; what is no digit is refused.
pub proof fn law_pairs_of_digits(a: char, b: char)
    ensures
        text::hex_value(a) is Some && text::hex_value(b) is Some ==> theme::pair_value(a, b)
            is Some && theme::pair_value(a, b)->0 == 16 * text::hex_value(a)->0
            + text::hex_value(b)->0,
        text::hex_value(b) is None ==> theme::pair_value(a, b) is None,
        text::hex_value(a) is None && a != '+' ==> theme::pair_value(a, b) is None,
{
}

/// Blanks, tabs and line ends are white space, and what is printed in ASCII is not.
pub proof fn law_white_space(ch: char)
    ensures
        ch == ' ' || ch == '\t' || ch == '\n' || ch == '\r' || ch == '\u{b}' || ch == '\u{c}'
            ==> text::white(ch),
        ch == '\u{85}' || ch == '\u{a0}' || ch == '\u{2003}' || ch == '\u{2028}' || ch == '\u{3000}'
            ==> text::white(ch),
        '!' <= ch <= '~' ==> !text::white(ch),
        ch <= '\u{8}' || '\u{e}' <= ch <= '\u{1f}' ==> !text::white(ch),
        '\u{3001}' <= ch ==> !text::white(ch),
{
}

/// A text is trimmed at its end by white space alone, and by all of it.
pub proof fn law_trimmed_end(line: Seq<char>)
    ensures
        ({
            let kept = text::trimmed_end(line);
            &&& kept.len() <= line.len()
            &&& kept == line.take(kept.len() as int)
            &&& forall|i: int| kept.len() <= i < line.len() ==> text::white(#[trigger] line[i])
            &&& kept.len() > 0 ==> !text::white(kept.last())
        }),
    decreases line.len(),
{
    if line.len() > 0 && text::white(line.last()) {
        let front = line.drop_last();
        law_trimmed_end(front);
        let kept = text::trimmed_end(line);
        assert(front.take(kept.len() as int) =~= line.take(kept.len() as int));
        assert forall|i: int| kept.len() <= i < line.len() implies text::white(
            #[trigger] line[i],
        ) by {
            if i < front.len() {
                assert(front[i] == line[i]);
            }
        }
    } else {
        assert(line.take(line.len() as int) =~= line);
    }
}

/// Only the ASCII capital letters are made small.
pub proof fn law_lowered(line: Seq<char>, i: int)
    requires
        0 <= i < line.len(),
    ensures
        text::lowered(line).len() == line.len(),
        0x41 <= line[i] as int <= 0x5a ==> text::lowered(line)[i] as int == line[i] as int + 32,
        !(0x41 <= line[i] as int <= 0x5a) ==> text::lowered(line)[i] == line[i],
{
}

/// A text is blank just where each of its characters is white space.
pub proof fn law_blank_texts(line: Seq<char>, i: int)
    ensures
        text::blank(Seq::empty()),
        0 <= i < line.len() && !text::white(line[i]) ==> !text::blank(line),
        !text::blank(line) ==> exists|k: int|
            0 <= k < line.len() && !text::white(#[trigger] line[k]),
{
}

} // verus!
