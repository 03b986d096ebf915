//! What keys are called, which bytes they are, and what becomes of typed bytes.
use crate::bytes;
use crate::keymap;
use crate::keymap::KeyFault;
use crate::laws::texts;
use crate::text;
use crate::theme;
use vstd::prelude::*;
use vstd::utf8::*;

verus! {

proof fn lemma_names()
    ensures
        keymap::named_key("up"@) == Some(seq![0x1bu8, 0x5bu8, 0x41u8]),
        keymap::named_key("down"@) == Some(seq![0x1bu8, 0x5bu8, 0x42u8]),
        keymap::named_key("right"@) == Some(seq![0x1bu8, 0x5bu8, 0x43u8]),
        keymap::named_key("left"@) == Some(seq![0x1bu8, 0x5bu8, 0x44u8]),
        keymap::named_key("home"@) == Some(seq![0x1bu8, 0x5bu8, 0x48u8]),
        keymap::named_key("end"@) == Some(seq![0x1bu8, 0x5bu8, 0x46u8]),
        keymap::named_key("page-up"@) == Some(seq![0x1bu8, 0x5bu8, 0x35u8, 0x7eu8]),
        keymap::named_key("page-down"@) == Some(seq![0x1bu8, 0x5bu8, 0x36u8, 0x7eu8]),
        keymap::named_key("enter"@) == Some(seq![0x0du8]),
        keymap::named_key("esc"@) == Some(seq![0x1bu8]),
        keymap::named_key("tab"@) == Some(seq![0x09u8]),
        keymap::named_key("backspace"@) == Some(seq![0x7fu8]),
{
    lemma_reveal_names();
    reveal_strlit("\x1b[A");
    reveal_strlit("\x1b[B");
    reveal_strlit("\x1b[C");
    reveal_strlit("\x1b[D");
    reveal_strlit("\x1b[H");
    reveal_strlit("\x1b[F");
    reveal_strlit("\x1b[5~");
    reveal_strlit("\x1b[6~");
    assert(bytes::ascii("\x1b[A"@) =~= seq![0x1bu8, 0x5bu8, 0x41u8]);
    assert(bytes::ascii("\x1b[B"@) =~= seq![0x1bu8, 0x5bu8, 0x42u8]);
    assert(bytes::ascii("\x1b[C"@) =~= seq![0x1bu8, 0x5bu8, 0x43u8]);
    assert(bytes::ascii("\x1b[D"@) =~= seq![0x1bu8, 0x5bu8, 0x44u8]);
    assert(bytes::ascii("\x1b[H"@) =~= seq![0x1bu8, 0x5bu8, 0x48u8]);
    assert(bytes::ascii("\x1b[F"@) =~= seq![0x1bu8, 0x5bu8, 0x46u8]);
    assert(bytes::ascii("\x1b[5~"@) =~= seq![0x1bu8, 0x5bu8, 0x35u8, 0x7eu8]);
    assert(bytes::ascii("\x1b[6~"@) =~= seq![0x1bu8, 0x5bu8, 0x36u8, 0x7eu8]);
}

/// The names differ in their length and their first three characters.
proof fn lemma_reveal_names()
    ensures
        "up"@.len() == 2 && "up"@[0] == 'u' && "up"@[1] == 'p',
        "down"@.len() == 4 && "down"@[0] == 'd',
        "right"@.len() == 5 && "right"@[0] == 'r',
        "left"@.len() == 4 && "left"@[0] == 'l',
        "home"@.len() == 4 && "home"@[0] == 'h',
        "end"@.len() == 3 && "end"@[0] == 'e' && "end"@[1] == 'n',
        "page-up"@.len() == 7 && "page-up"@[0] == 'p',
        "page-down"@.len() == 9 && "page-down"@[0] == 'p',
        "enter"@.len() == 5 && "enter"@[0] == 'e',
        "esc"@.len() == 3 && "esc"@[0] == 'e' && "esc"@[1] == 's',
        "tab"@.len() == 3 && "tab"@[0] == 't',
        "backspace"@.len() == 9 && "backspace"@[0] == 'b',
{
    reveal_strlit("up");
    reveal_strlit("down");
    reveal_strlit("right");
    reveal_strlit("left");
    reveal_strlit("home");
    reveal_strlit("end");
    reveal_strlit("page-up");
    reveal_strlit("page-down");
    reveal_strlit("enter");
    reveal_strlit("esc");
    reveal_strlit("tab");
    reveal_strlit("backspace");
}

proof fn lemma_small_letters()
    ensures
        text::lowered("up"@) == "up"@,
        text::lowered("down"@) == "down"@,
        text::lowered("right"@) == "right"@,
        text::lowered("left"@) == "left"@,
        text::lowered("home"@) == "home"@,
        text::lowered("end"@) == "end"@,
        text::lowered("page-up"@) == "page-up"@,
        text::lowered("page-down"@) == "page-down"@,
        text::lowered("enter"@) == "enter"@,
        text::lowered("esc"@) == "esc"@,
        text::lowered("tab"@) == "tab"@,
        text::lowered("backspace"@) == "backspace"@,
{
    reveal_strlit("up");
    reveal_strlit("down");
    reveal_strlit("right");
    reveal_strlit("left");
    reveal_strlit("home");
    reveal_strlit("end");
    reveal_strlit("page-up");
    reveal_strlit("page-down");
    reveal_strlit("enter");
    reveal_strlit("esc");
    reveal_strlit("tab");
    reveal_strlit("backspace");
    assert(text::lowered("up"@) =~= "up"@);
    assert(text::lowered("down"@) =~= "down"@);
    assert(text::lowered("right"@) =~= "right"@);
    assert(text::lowered("left"@) =~= "left"@);
    assert(text::lowered("home"@) =~= "home"@);
    assert(text::lowered("end"@) =~= "end"@);
    assert(text::lowered("page-up"@) =~= "page-up"@);
    assert(text::lowered("page-down"@) =~= "page-down"@);
    assert(text::lowered("enter"@) =~= "enter"@);
    assert(text::lowered("esc"@) =~= "esc"@);
    assert(text::lowered("tab"@) =~= "tab"@);
    assert(text::lowered("backspace"@) =~= "backspace"@);
}

/// The named keys, in letters of any case, are what a terminal sends for them.
pub proof fn law_named_keys(key: Seq<char>)
    ensures
        text::lowered(key) == "up"@ ==> keymap::key_bytes(key) == Ok::<Seq<u8>, KeyFault>(
            seq![0x1bu8, 0x5bu8, 0x41u8],
        ),
        text::lowered(key) == "down"@ ==> keymap::key_bytes(key) == Ok::<Seq<u8>, KeyFault>(
            seq![0x1bu8, 0x5bu8, 0x42u8],
        ),
        text::lowered(key) == "right"@ ==> keymap::key_bytes(key) == Ok::<Seq<u8>, KeyFault>(
            seq![0x1bu8, 0x5bu8, 0x43u8],
        ),
        text::lowered(key) == "left"@ ==> keymap::key_bytes(key) == Ok::<Seq<u8>, KeyFault>(
            seq![0x1bu8, 0x5bu8, 0x44u8],
        ),
        text::lowered(key) == "home"@ ==> keymap::key_bytes(key) == Ok::<Seq<u8>, KeyFault>(
            seq![0x1bu8, 0x5bu8, 0x48u8],
        ),
        text::lowered(key) == "end"@ ==> keymap::key_bytes(key) == Ok::<Seq<u8>, KeyFault>(
            seq![0x1bu8, 0x5bu8, 0x46u8],
        ),
        text::lowered(key) == "page-up"@ ==> keymap::key_bytes(key) == Ok::<Seq<u8>, KeyFault>(
            seq![0x1bu8, 0x5bu8, 0x35u8, 0x7eu8],
        ),
        text::lowered(key) == "page-down"@ ==> keymap::key_bytes(key) == Ok::<Seq<u8>, KeyFault>(
            seq![0x1bu8, 0x5bu8, 0x36u8, 0x7eu8],
        ),
        text::lowered(key) == "enter"@ ==> keymap::key_bytes(key) == Ok::<Seq<u8>, KeyFault>(
            seq![0x0du8],
        ),
        text::lowered(key) == "esc"@ ==> keymap::key_bytes(key) == Ok::<Seq<u8>, KeyFault>(
            seq![0x1bu8],
        ),
        text::lowered(key) == "tab"@ ==> keymap::key_bytes(key) == Ok::<Seq<u8>, KeyFault>(
            seq![0x09u8],
        ),
        text::lowered(key) == "backspace"@ ==> keymap::key_bytes(key) == Ok::<Seq<u8>, KeyFault>(
            seq![0x7fu8],
        ),
{
    lemma_names();
    lemma_small_letters();
}

/// Letter case does not matter for names of more than one character.
pub proof fn law_case_of_names(one: Seq<char>, other: Seq<char>)
    requires
        text::lowered(one) == text::lowered(other),
        one.len() > 1,
        one[0] != '\\',
    ensures
        keymap::key_bytes(one) == keymap::key_bytes(other),
{
    assert(text::lowered(one).len() == one.len());
    assert(text::lowered(other).len() == other.len());
    assert(text::lowered(one)[0] == text::lower(one[0]));
    assert(text::lowered(other)[0] == text::lower(other[0]));
}

proof fn lemma_not_named(name: Seq<char>)
    requires
        name.len() == 0 || name[0] == 'f' || name[0] == 'c' || name[0] == '\\' || name.len() == 1,
    ensures
        keymap::named_key(name) is None,
{
    lemma_reveal_names();
}

/// Control and a letter is the number of the letter in the alphabet.
pub proof fn law_control_keys(k: int)
    requires
        0 <= k < 26,
    ensures
        keymap::key_bytes(seq!['c', 't', 'r', 'l', '-', (0x61 + k) as char]) == Ok::<
            Seq<u8>,
            KeyFault,
        >(seq![(k + 1) as u8]),
        keymap::key_bytes(seq!['C', 't', 'r', 'l', '-', (0x41 + k) as char]) == Ok::<
            Seq<u8>,
            KeyFault,
        >(seq![(k + 1) as u8]),
{
    let key = seq!['c', 't', 'r', 'l', '-', (0x61 + k) as char];
    let capital = seq!['C', 't', 'r', 'l', '-', (0x41 + k) as char];
    reveal_strlit("ctrl-");
    assert(text::lowered(key) =~= key);
    assert(text::lowered(capital) =~= key);
    assert(key.take(5) =~= "ctrl-"@);
    lemma_not_named(key);
}

/// A single character stands for itself, as it is encoded.
pub proof fn law_single_characters(ch: char)
    ensures
        keymap::key_bytes(seq![ch]) == Ok::<Seq<u8>, KeyFault>(encode_utf8(seq![ch])),
{
    lemma_not_named(text::lowered(seq![ch]));
}

proof fn lemma_function_name(n: nat)
    requires
        n <= 255,
    ensures
        keymap::key_bytes(seq!['f'] + text::decimal(n)) == match keymap::function_key(n as int) {
            Some(found) => Ok::<Seq<u8>, KeyFault>(found),
            None => Err(KeyFault::Function),
        },
{
    let key = seq!['f'] + text::decimal(n);
    texts::law_decimal_is_digits(n);
    texts::law_decimals_are_read_back(n);
    assert(text::lowered(key) =~= key) by {
        assert forall|i: int| 0 <= i < key.len() implies text::lowered(key)[i] == key[i] by {
            if i > 0 {
                assert(key[i] == text::decimal(n)[i - 1]);
            }
        }
    }
    lemma_not_named(key);
    assert(key.skip(1) =~= text::decimal(n));
    assert(!keymap::names_control(key)) by {
        if key.len() == 6 {
            reveal_strlit("ctrl-");
            assert(key.take(5)[0] == 'f');
        }
    }
}

/// The function keys: the first four are ESC O and the letters from P on, the fifth is ESC [ 15 ~,
/// and the number rises from 17 on for the others. There are ten of them.
pub proof fn law_function_keys(n: nat)
    requires
        n <= 255,
    ensures
        ({
            let found = keymap::key_bytes(seq!['f'] + text::decimal(n));
            &&& 1 <= n <= 4 ==> found == Ok::<Seq<u8>, KeyFault>(
                seq![0x1bu8, 0x4fu8, (0x4f + n) as u8],
            )
            &&& n == 5 ==> found == Ok::<Seq<u8>, KeyFault>(
                seq![0x1bu8, 0x5bu8, 0x31u8, 0x35u8, 0x7eu8],
            )
            &&& 6 <= n <= 8 ==> found == Ok::<Seq<u8>, KeyFault>(
                seq![0x1bu8, 0x5bu8, 0x31u8, (0x31 + n) as u8, 0x7eu8],
            )
            &&& 9 <= n <= 10 ==> found == Ok::<Seq<u8>, KeyFault>(
                seq![0x1bu8, 0x5bu8, 0x32u8, (0x27 + n) as u8, 0x7eu8],
            )
            &&& n == 0 || n > 10 ==> found == Err::<Seq<u8>, KeyFault>(KeyFault::Function)
        }),
{
    lemma_function_name(n);
    lemma_function_codes();
}

proof fn lemma_function_codes()
    ensures
        keymap::function_key(1) == Some(seq![0x1bu8, 0x4fu8, 0x50u8]),
        keymap::function_key(2) == Some(seq![0x1bu8, 0x4fu8, 0x51u8]),
        keymap::function_key(3) == Some(seq![0x1bu8, 0x4fu8, 0x52u8]),
        keymap::function_key(4) == Some(seq![0x1bu8, 0x4fu8, 0x53u8]),
        keymap::function_key(5) == Some(seq![0x1bu8, 0x5bu8, 0x31u8, 0x35u8, 0x7eu8]),
        keymap::function_key(6) == Some(seq![0x1bu8, 0x5bu8, 0x31u8, 0x37u8, 0x7eu8]),
        keymap::function_key(7) == Some(seq![0x1bu8, 0x5bu8, 0x31u8, 0x38u8, 0x7eu8]),
        keymap::function_key(8) == Some(seq![0x1bu8, 0x5bu8, 0x31u8, 0x39u8, 0x7eu8]),
        keymap::function_key(9) == Some(seq![0x1bu8, 0x5bu8, 0x32u8, 0x30u8, 0x7eu8]),
        keymap::function_key(10) == Some(seq![0x1bu8, 0x5bu8, 0x32u8, 0x31u8, 0x7eu8]),
{
    reveal_strlit("\x1bOP");
    reveal_strlit("\x1bOQ");
    reveal_strlit("\x1bOR");
    reveal_strlit("\x1bOS");
    reveal_strlit("\x1b[15~");
    reveal_strlit("\x1b[17~");
    reveal_strlit("\x1b[18~");
    reveal_strlit("\x1b[19~");
    reveal_strlit("\x1b[20~");
    reveal_strlit("\x1b[21~");
    assert(keymap::function_key(1)->0 =~= seq![0x1bu8, 0x4fu8, 0x50u8]);
    assert(keymap::function_key(2)->0 =~= seq![0x1bu8, 0x4fu8, 0x51u8]);
    assert(keymap::function_key(3)->0 =~= seq![0x1bu8, 0x4fu8, 0x52u8]);
    assert(keymap::function_key(4)->0 =~= seq![0x1bu8, 0x4fu8, 0x53u8]);
    assert(keymap::function_key(5)->0 =~= seq![0x1bu8, 0x5bu8, 0x31u8, 0x35u8, 0x7eu8]);
    assert(keymap::function_key(6)->0 =~= seq![0x1bu8, 0x5bu8, 0x31u8, 0x37u8, 0x7eu8]);
    assert(keymap::function_key(7)->0 =~= seq![0x1bu8, 0x5bu8, 0x31u8, 0x38u8, 0x7eu8]);
    assert(keymap::function_key(8)->0 =~= seq![0x1bu8, 0x5bu8, 0x31u8, 0x39u8, 0x7eu8]);
    assert(keymap::function_key(9)->0 =~= seq![0x1bu8, 0x5bu8, 0x32u8, 0x30u8, 0x7eu8]);
    assert(keymap::function_key(10)->0 =~= seq![0x1bu8, 0x5bu8, 0x32u8, 0x31u8, 0x7eu8]);
}

/// The names of the function keys, and the bytes that a terminal sends for them.
pub proof fn law_function_key_names()
    ensures
        keymap::key_bytes("f1"@) == Ok::<Seq<u8>, KeyFault>(seq![0x1bu8, 0x4fu8, 0x50u8]),
        keymap::key_bytes("f2"@) == Ok::<Seq<u8>, KeyFault>(seq![0x1bu8, 0x4fu8, 0x51u8]),
        keymap::key_bytes("f3"@) == Ok::<Seq<u8>, KeyFault>(seq![0x1bu8, 0x4fu8, 0x52u8]),
        keymap::key_bytes("f4"@) == Ok::<Seq<u8>, KeyFault>(seq![0x1bu8, 0x4fu8, 0x53u8]),
        keymap::key_bytes("f5"@) == Ok::<Seq<u8>, KeyFault>(
            seq![0x1bu8, 0x5bu8, 0x31u8, 0x35u8, 0x7eu8],
        ),
        keymap::key_bytes("f6"@) == Ok::<Seq<u8>, KeyFault>(
            seq![0x1bu8, 0x5bu8, 0x31u8, 0x37u8, 0x7eu8],
        ),
        keymap::key_bytes("f7"@) == Ok::<Seq<u8>, KeyFault>(
            seq![0x1bu8, 0x5bu8, 0x31u8, 0x38u8, 0x7eu8],
        ),
        keymap::key_bytes("f8"@) == Ok::<Seq<u8>, KeyFault>(
            seq![0x1bu8, 0x5bu8, 0x31u8, 0x39u8, 0x7eu8],
        ),
        keymap::key_bytes("f9"@) == Ok::<Seq<u8>, KeyFault>(
            seq![0x1bu8, 0x5bu8, 0x32u8, 0x30u8, 0x7eu8],
        ),
        keymap::key_bytes("f10"@) == Ok::<Seq<u8>, KeyFault>(
            seq![0x1bu8, 0x5bu8, 0x32u8, 0x31u8, 0x7eu8],
        ),
{
    reveal_strlit("f1");
    reveal_strlit("f2");
    reveal_strlit("f3");
    reveal_strlit("f4");
    reveal_strlit("f5");
    reveal_strlit("f6");
    reveal_strlit("f7");
    reveal_strlit("f8");
    reveal_strlit("f9");
    reveal_strlit("f10");
    texts::law_decimal_digits(1, 0);
    texts::law_decimal_digits(1, 1);
    texts::law_decimal_digits(1, 2);
    texts::law_decimal_digits(1, 3);
    texts::law_decimal_digits(1, 4);
    texts::law_decimal_digits(1, 5);
    texts::law_decimal_digits(1, 6);
    texts::law_decimal_digits(1, 7);
    texts::law_decimal_digits(1, 8);
    texts::law_decimal_digits(1, 9);
    law_function_keys(1);
    law_function_keys(2);
    law_function_keys(3);
    law_function_keys(4);
    law_function_keys(5);
    law_function_keys(6);
    law_function_keys(7);
    law_function_keys(8);
    law_function_keys(9);
    law_function_keys(10);
    assert("f1"@ =~= seq!['f'] + text::decimal(1));
    assert("f2"@ =~= seq!['f'] + text::decimal(2));
    assert("f3"@ =~= seq!['f'] + text::decimal(3));
    assert("f4"@ =~= seq!['f'] + text::decimal(4));
    assert("f5"@ =~= seq!['f'] + text::decimal(5));
    assert("f6"@ =~= seq!['f'] + text::decimal(6));
    assert("f7"@ =~= seq!['f'] + text::decimal(7));
    assert("f8"@ =~= seq!['f'] + text::decimal(8));
    assert("f9"@ =~= seq!['f'] + text::decimal(9));
    assert("f10"@ =~= seq!['f'] + text::decimal(10));
}

/// Bytes written in hexadecimal, each after `\x`.
pub open spec fn marked(list: Seq<u8>) -> Seq<char>
    decreases list.len(),
{
    if list.len() == 0 {
        Seq::empty()
    } else {
        seq!['\\', 'x'] + text::hex_byte(list[0]) + marked(list.skip(1))
    }
}

/// The digits of some bytes.
spec fn digits_of(list: Seq<u8>) -> Seq<char>
    decreases list.len(),
{
    if list.len() == 0 {
        Seq::empty()
    } else {
        text::hex_byte(list[0]) + digits_of(list.skip(1))
    }
}

proof fn lemma_marks(list: Seq<u8>)
    ensures
        keymap::unmarked(marked(list)) == digits_of(list),
        list.len() > 0 ==> marked(list).len() >= 4 && marked(list)[0] == '\\' && marked(list)[1]
            == 'x',
    decreases list.len(),
{
    if list.len() > 0 {
        let rest = marked(list.skip(1));
        lemma_marks(list.skip(1));
        texts::law_bytes_are_read_back(list[0]);
        let hex = text::hex_byte(list[0]);
        assert(marked(list).skip(2) =~= hex + rest);
        assert(hex[0] != '\\' && hex[1] != '\\');
        assert((hex + rest).skip(1) =~= seq![hex[1]] + rest);
        assert((seq![hex[1]] + rest).skip(1) =~= rest);
        assert(keymap::unmarked(seq![hex[1]] + rest) == seq![hex[1]] + keymap::unmarked(rest));
        assert(keymap::unmarked(hex + rest) == seq![hex[0]] + (seq![hex[1]] + keymap::unmarked(
            rest,
        )));
        assert(seq![hex[0]] + (seq![hex[1]] + digits_of(list.skip(1))) =~= digits_of(list));
    }
}

proof fn lemma_digit_pairs(list: Seq<u8>)
    ensures
        keymap::hex_pairs(digits_of(list)) == Some(list),
        digits_of(list).len() == 2 * list.len(),
    decreases list.len(),
{
    if list.len() == 0 {
        assert(list =~= Seq::empty());
    } else {
        let front = list.drop_last();
        lemma_digit_pairs(front);
        lemma_digits_end(list);
        let hex = text::hex_byte(list.last());
        let all = digits_of(list);
        assert(all.take(all.len() - 2) =~= digits_of(front));
        texts::law_bytes_are_read_back(list.last());
        assert(all[all.len() - 2] == hex[0] && all[all.len() - 1] == hex[1]);
        assert(front.push(list.last()) =~= list);
    }
}

proof fn lemma_digits_end(list: Seq<u8>)
    requires
        list.len() > 0,
    ensures
        digits_of(list) == digits_of(list.drop_last()) + text::hex_byte(list.last()),
    decreases list.len(),
{
    let hex = text::hex_byte(list[0]);
    if list.len() == 1 {
        assert(list.skip(1) =~= Seq::empty());
        assert(list.drop_last() =~= Seq::empty());
        assert(hex + Seq::<char>::empty() =~= Seq::<char>::empty() + hex);
    } else {
        lemma_digits_end(list.skip(1));
        assert(list.skip(1).drop_last() =~= list.drop_last().skip(1));
        assert(digits_of(list) =~= digits_of(list.drop_last()) + text::hex_byte(list.last()));
    }
}

/// Bytes in hexadecimal, each after `\x`, stand for themselves.
pub proof fn law_hexadecimal_keys(list: Seq<u8>)
    requires
        list.len() > 0,
    ensures
        keymap::key_bytes(marked(list)) == Ok::<Seq<u8>, KeyFault>(list),
{
    let key = marked(list);
    let name = text::lowered(key);
    lemma_marks(list);
    lemma_digit_pairs(list);
    assert(name.len() == key.len());
    assert(name[0] == '\\');
    lemma_not_named(name);
    assert(!keymap::names_control(name)) by {
        reveal_strlit("ctrl-");
        if name.len() == 6 {
            assert(name.take(5)[0] == '\\');
        }
    }
}

/// The bytes that a name of a pair stands for.
pub open spec fn named(name: Seq<char>) -> Seq<u8> {
    keymap::key_bytes(name)->Ok_0
}

/// A key of some pairs is replaced by what the last pair for it says.
pub proof fn law_pairs_are_mapped(pairs: Seq<(Seq<char>, Seq<char>)>, i: int, n: int)
    requires
        0 <= i < n <= pairs.len(),
        forall|j: int| i < j < n ==> named((#[trigger] pairs[j]).0) != named(pairs[i].0),
    ensures
        keymap::compiled(pairs, n).contains_key(named(pairs[i].0)),
        keymap::compiled(pairs, n)[named(pairs[i].0)] == named(pairs[i].1),
    decreases n,
{
    if i < n - 1 {
        law_pairs_are_mapped(pairs, i, n - 1);
        assert(named(pairs[n - 1].0) != named(pairs[i].0));
    }
}

/// A key that no pair names is not replaced.
pub proof fn law_other_keys_are_not_mapped(
    pairs: Seq<(Seq<char>, Seq<char>)>,
    key: Seq<u8>,
    n: int,
)
    requires
        0 <= n <= pairs.len(),
        forall|j: int| 0 <= j < n ==> named((#[trigger] pairs[j]).0) != key,
    ensures
        !keymap::compiled(pairs, n).contains_key(key),
    decreases n,
{
    if n > 0 {
        law_other_keys_are_not_mapped(pairs, key, n - 1);
        assert(named(pairs[n - 1].0) != key);
    }
}

/// Pairs are compiled exactly if every name in them is one.
pub proof fn law_faults_of_pairs(pairs: Seq<(Seq<char>, Seq<char>)>, from: int)
    requires
        0 <= from <= pairs.len(),
    ensures
        keymap::first_fault(pairs, from) is None <==> forall|i: int|
            from <= i < pairs.len() ==> keymap::key_bytes((#[trigger] pairs[i]).0) is Ok
                && keymap::key_bytes(pairs[i].1) is Ok,
        keymap::first_fault(pairs, from) is Some ==> keymap::key_bytes(
            (keymap::first_fault(pairs, from)->0).0,
        ) == Err::<Seq<u8>, KeyFault>((keymap::first_fault(pairs, from)->0).1),
    decreases pairs.len() - from,
{
    if from < pairs.len() {
        law_faults_of_pairs(pairs, from + 1);
    }
}

/// A typed key that no longer key starts with is replaced by what it is mapped to.
pub proof fn law_typed_keys_are_replaced(map: Map<Seq<u8>, Seq<u8>>, key: Seq<u8>)
    requires
        key.len() > 0,
        map.contains_key(key),
        forall|other: Seq<u8>| #[trigger]
            map.contains_key(other) && other.len() > key.len() ==> other.take(key.len() as int)
                != key,
    ensures
        keymap::pushed(map, Seq::empty(), key) == (Seq::<u8>::empty(), map[key]),
        keymap::drained(map, key, true) == (Seq::<u8>::empty(), map[key]),
{
    let none = Seq::<u8>::empty();
    assert(key.take(key.len() as int) =~= key);
    assert(key.skip(key.len() as int) =~= none);
    assert(none + key =~= key);
    assert(none != seq![0x1bu8]) by {
        assert(seq![0x1bu8].len() == 1);
    }
    assert(map[key] + none =~= map[key]);
    keymap::law_longest_key_wins(map, key, key.len() as int, false);
    keymap::law_longest_key_wins(map, key, key.len() as int, true);
    if key[0] == 0x1b {
        assert(keymap::has_escape_key(map));
    }
}

/// Bytes that start no key pass as they are, and none is held back.
pub proof fn law_other_bytes_pass(map: Map<Seq<u8>, Seq<u8>>, typed: Seq<u8>, flush: bool)
    requires
        !map.contains_key(Seq::<u8>::empty()),
        forall|key: Seq<u8>, i: int| #[trigger]
            map.contains_key(key) && 0 <= i < typed.len() ==> key[0] != #[trigger] typed[i],
    ensures
        keymap::drained(map, typed, flush) == (Seq::<u8>::empty(), typed),
    decreases typed.len(),
{
    if typed.len() == 0 {
        assert(typed =~= Seq::empty());
    } else {
        let rest = typed.skip(1);
        assert forall|key: Seq<u8>, i: int| #[trigger]
            map.contains_key(key) && 0 <= i < rest.len() implies key[0] != #[trigger] rest[i] by {
            assert(rest[i] == typed[i + 1]);
        }
        law_other_bytes_pass(map, rest, flush);
        assert(!keymap::may_grow(map, typed)) by {
            if keymap::may_grow(map, typed) {
                let key = choose|key: Seq<u8>| #[trigger]
                    map.contains_key(key) && key.len() > typed.len() && key.take(
                        typed.len() as int,
                    ) == typed;
                assert(key.take(typed.len() as int)[0] == key[0]);
                assert(key[0] != typed[0]);
            }
        }
        lemma_starts_no_key(map, typed, typed.len() as int);
        assert(seq![typed[0]] + rest =~= typed);
    }
}

proof fn lemma_starts_no_key(map: Map<Seq<u8>, Seq<u8>>, typed: Seq<u8>, n: int)
    requires
        typed.len() > 0,
        forall|key: Seq<u8>, i: int| #[trigger]
            map.contains_key(key) && 0 <= i < typed.len() ==> key[0] != #[trigger] typed[i],
    ensures
        keymap::longest_key(map, typed, n) is None,
    decreases n,
{
    if n > 0 {
        lemma_starts_no_key(map, typed, n - 1);
        if n <= typed.len() && map.contains_key(typed.take(n)) {
            assert(typed.take(n)[0] == typed[0]);
        }
    }
}

/// The start of a key is held back until it is one, or until a pause.
pub proof fn law_starts_of_keys_wait(map: Map<Seq<u8>, Seq<u8>>, key: Seq<u8>, n: int)
    requires
        map.contains_key(key),
        0 < n < key.len(),
    ensures
        keymap::drained(map, key.take(n), false) == (key.take(n), Seq::<u8>::empty()),
        key[0] == 0x1b ==> keymap::pushed(map, Seq::empty(), key.take(n)) == (
            key.take(n),
            Seq::<u8>::empty(),
        ),
{
    let start = key.take(n);
    assert(key.take(start.len() as int) =~= start);
    assert(keymap::may_grow(map, start));
    assert(Seq::<u8>::empty() + start =~= start);
}

/// Where no key starts with an escape, sequences that do pass as they are; a lone escape waits.
pub proof fn law_escape_sequences_pass(map: Map<Seq<u8>, Seq<u8>>, typed: Seq<u8>)
    requires
        forall|key: Seq<u8>| #[trigger] map.contains_key(key) && key.len() > 0 ==> key[0] != 0x1b,
        typed.len() > 0,
        typed[0] == 0x1b,
    ensures
        typed.len() > 1 ==> keymap::pushed(map, Seq::empty(), typed) == (
            Seq::<u8>::empty(),
            typed,
        ),
        typed.len() == 1 ==> keymap::pushed(map, Seq::empty(), typed) == (
            typed,
            Seq::<u8>::empty(),
        ),
{
    let none = Seq::<u8>::empty();
    assert(!keymap::has_escape_key(map));
    assert(none != seq![0x1bu8]) by {
        assert(seq![0x1bu8].len() == 1);
    }
    assert(none + typed =~= typed);
}

/// The pairs of hexadecimal digits of a key are read one after the other.
pub proof fn law_hexadecimal_pairs(front: Seq<char>, a: char, b: char)
    requires
        keymap::hex_pairs(front) is Some,
        theme::pair_value(a, b) is Some,
    ensures
        keymap::hex_pairs(front.push(a).push(b)) == Some(
            (keymap::hex_pairs(front)->0).push(theme::pair_value(a, b)->0),
        ),
        keymap::hex_pairs(seq![a]) is None,
{
    let all = front.push(a).push(b);
    assert(all.take(all.len() - 2) =~= front);
}

} // verus!
