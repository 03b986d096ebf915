//! The sequences that are found, removed and passed on in the streams to and from a command.
use crate::bytes;
use crate::passthrough;
use vstd::prelude::*;

verus! {

/// Some bytes stand in others just where those are made of something, those bytes, and something.
pub proof fn law_occurrences(hay: Seq<u8>, needle: Seq<u8>, front: Seq<u8>, back: Seq<u8>)
    ensures
        bytes::occurs(front + needle + back, needle),
        bytes::starts(needle + back, needle),
        bytes::occurs(hay, needle) ==> exists|at: int|
            0 <= at && at + needle.len() <= hay.len() && hay == hay.take(at) + needle
                + #[trigger] hay.skip(at + needle.len()),
{
    let whole = front + needle + back;
    assert(whole.subrange(front.len() as int, front.len() as int + needle.len()) =~= needle);
    assert(bytes::stands_at(whole, needle, front.len() as int));
    assert((needle + back).subrange(0, needle.len() as int) =~= needle);
    if bytes::occurs(hay, needle) {
        let at = choose|at: int| bytes::stands_at(hay, needle, at);
        assert(hay =~= hay.take(at) + hay.subrange(at, at + needle.len()) + hay.skip(
            at + needle.len(),
        ));
    }
}

/// Removing a sequence takes it away where it stands first, and otherwise keeps the first byte.
pub proof fn law_removal(list: Seq<u8>, needle: Seq<u8>)
    requires
        needle.len() > 0,
    ensures
        bytes::without(needle + list, needle) == bytes::without(list, needle),
        list.len() > 0 && !bytes::starts(list, needle) ==> bytes::without(list, needle)
            == seq![list[0]] + bytes::without(list.skip(1), needle),
        bytes::without(Seq::empty(), needle).len() == 0,
{
    assert((needle + list).subrange(0, needle.len() as int) =~= needle);
    assert((needle + list).skip(needle.len() as int) =~= list);
}

/// No byte is an escape.
pub open spec fn no_escape(list: Seq<u8>) -> bool {
    forall|i: int| 0 <= i < list.len() ==> #[trigger] list[i] != 0x1b
}

/// A sequence that turns a mode on or off: an escape, a bracket, a question mark, the digits of
/// its number, and a letter.
pub open spec fn mode(digits: Seq<u8>, on: bool) -> Seq<u8> {
    seq![0x1bu8, 0x5b, 0x3f] + digits + seq![
        if on {
            0x68u8
        } else {
            0x6c
        },
    ]
}

/// The digits of a number between 1000 and 1019.
pub open spec fn thousand_and(n: int) -> Seq<u8> {
    seq![0x31u8, 0x30, (0x30 + n / 10) as u8, (0x30 + n % 10) as u8]
}

/// Three sequences enter the alternate screen.
pub proof fn law_alternate_screens()
    ensures
        passthrough::alt_screen_enter() == seq![
            mode(seq![0x31u8, 0x30, 0x34, 0x39], true),
            mode(seq![0x31u8, 0x30, 0x34, 0x37], true),
            mode(seq![0x34u8, 0x37], true),
        ],
{
    reveal_strlit("\x1b[?1049h");
    reveal_strlit("\x1b[?1047h");
    reveal_strlit("\x1b[?47h");
    assert(bytes::ascii("\x1b[?1049h"@) =~= mode(seq![0x31u8, 0x30, 0x34, 0x39], true));
    assert(bytes::ascii("\x1b[?1047h"@) =~= mode(seq![0x31u8, 0x30, 0x34, 0x37], true));
    assert(bytes::ascii("\x1b[?47h"@) =~= mode(seq![0x34u8, 0x37], true));
}

proof fn lemma_no_escape_no_sequence(list: Seq<u8>, needle: Seq<u8>)
    requires
        no_escape(list),
        needle.len() > 0,
        needle[0] == 0x1b,
    ensures
        !bytes::occurs(list, needle),
        bytes::without(list, needle) == list,
{
    assert forall|at: int| !bytes::stands_at(list, needle, at) by {
        if bytes::stands_at(list, needle, at) {
            assert(list.subrange(at, at + needle.len())[0] == list[at]);
        }
    }
    bytes::lemma_without_absent(list, needle);
}

proof fn lemma_without_front(front: Seq<u8>, list: Seq<u8>, needle: Seq<u8>)
    requires
        no_escape(front),
        needle.len() > 0,
        needle[0] == 0x1b,
    ensures
        bytes::without(front + list, needle) == front + bytes::without(list, needle),
    decreases front.len(),
{
    let all = front + list;
    if front.len() > 0 {
        assert(all[0] == front[0]);
        if bytes::starts(all, needle) {
            assert(all.subrange(0, needle.len() as int)[0] == all[0]);
        }
        lemma_without_front(front.skip(1), list, needle);
        assert(all.skip(1) =~= front.skip(1) + list);
        assert(seq![front[0]] + (front.skip(1) + bytes::without(list, needle)) =~= front
            + bytes::without(list, needle));
    } else {
        assert(all =~= list);
        assert(front + bytes::without(list, needle) =~= bytes::without(list, needle));
    }
}

proof fn lemma_without_other(
    front: Seq<u8>,
    other: Seq<u8>,
    back: Seq<u8>,
    needle: Seq<u8>,
    k: int,
)
    requires
        no_escape(front),
        no_escape(back),
        needle.len() > 0,
        needle[0] == 0x1b,
        other.len() > 0,
        no_escape(other.skip(1)),
        0 <= k < needle.len(),
        k < other.len(),
        needle[k] != other[k],
    ensures
        bytes::without(front + other + back, needle) == front + other + back,
{
    let list = other + back;
    assert(front + other + back =~= front + list);
    lemma_without_front(front, list, needle);
    if bytes::starts(list, needle) {
        assert(list.subrange(0, needle.len() as int)[k] == list[k]);
    }
    let rest = list.skip(1);
    assert(rest =~= other.skip(1) + back);
    assert(no_escape(rest));
    lemma_no_escape_no_sequence(rest, needle);
    assert(seq![list[0]] + rest =~= list);
}

proof fn lemma_without_one(front: Seq<u8>, back: Seq<u8>, needle: Seq<u8>)
    requires
        no_escape(front),
        no_escape(back),
        needle.len() > 0,
        needle[0] == 0x1b,
    ensures
        bytes::without(front + needle + back, needle) == front + back,
{
    assert(front + needle + back =~= front + (needle + back));
    lemma_without_front(front, needle + back, needle);
    law_removal(back, needle);
    lemma_no_escape_no_sequence(back, needle);
}

/// Each of the sequences that enter the alternate screen is found and removed where it stands,
/// with nothing around it changed.
pub proof fn law_alternate_screens_are_removed(front: Seq<u8>, back: Seq<u8>, i: int)
    requires
        0 <= i < 3,
        no_escape(front),
        no_escape(back),
    ensures
        ({
            let list = passthrough::alt_screen_enter();
            let whole = front + list[i] + back;
            &&& passthrough::has_any(whole, list)
            &&& passthrough::without_all(whole, list, 3) == front + back
            &&& !passthrough::has_any(front, list)
        }),
{
    law_alternate_screens();
    let list = passthrough::alt_screen_enter();
    let a = list[0];
    let b = list[1];
    let c = list[2];
    assert(a[6] == 0x39 && b[6] == 0x37 && a[3] == 0x31 && b[3] == 0x31 && c[3] == 0x34);
    assert(no_escape(a.skip(1)) && no_escape(b.skip(1)) && no_escape(c.skip(1)));
    let whole = front + list[i] + back;
    law_occurrences(whole, list[i], front, back);
    reveal_with_fuel(passthrough::without_all, 4);
    assert(no_escape(front + back));
    lemma_no_escape_no_sequence(front + back, a);
    lemma_no_escape_no_sequence(front + back, b);
    lemma_no_escape_no_sequence(front + back, c);
    lemma_no_escape_no_sequence(front, a);
    lemma_no_escape_no_sequence(front, b);
    lemma_no_escape_no_sequence(front, c);
    if i == 0 {
        lemma_without_one(front, back, a);
    } else if i == 1 {
        lemma_without_other(front, b, back, a, 6);
        lemma_without_one(front, back, b);
    } else {
        lemma_without_other(front, c, back, a, 3);
        lemma_without_other(front, c, back, b, 3);
        lemma_without_one(front, back, c);
    }
}

/// The sequences that are passed on to the terminal: those for seven kinds of mouse reports, on
/// and off, for the keys of the cursor and of the keypad, on and off, and for bracketed paste, on
/// and off.
pub open spec fn terminal_mode(i: int) -> Seq<u8> {
    if i == 0 || i == 7 {
        mode(thousand_and(0), i < 7)
    } else if i == 1 || i == 8 {
        mode(thousand_and(2), i < 7)
    } else if i == 2 || i == 9 {
        mode(thousand_and(3), i < 7)
    } else if i == 3 || i == 10 {
        mode(thousand_and(5), i < 7)
    } else if i == 4 || i == 11 {
        mode(thousand_and(6), i < 7)
    } else if i == 5 || i == 12 {
        mode(thousand_and(7), i < 7)
    } else if i == 6 || i == 13 {
        mode(thousand_and(15), i < 7)
    } else if i == 14 || i == 16 {
        mode(seq![0x31u8], i == 14)
    } else if i == 15 {
        seq![0x1bu8, 0x3d]
    } else if i == 17 {
        seq![0x1bu8, 0x3e]
    } else {
        mode(seq![0x32u8, 0x30, 0x30, 0x34], i == 18)
    }
}

/// These sequences are passed on to the terminal.
pub proof fn law_terminal_modes(i: int)
    requires
        0 <= i < 20,
    ensures
        passthrough::live_patterns().len() == 20,
        passthrough::live_patterns()[i] == terminal_mode(i),
{
    reveal_strlit("\x1b[?1000h");
    reveal_strlit("\x1b[?1002h");
    reveal_strlit("\x1b[?1003h");
    reveal_strlit("\x1b[?1005h");
    reveal_strlit("\x1b[?1006h");
    reveal_strlit("\x1b[?1007h");
    reveal_strlit("\x1b[?1015h");
    reveal_strlit("\x1b[?1000l");
    reveal_strlit("\x1b[?1002l");
    reveal_strlit("\x1b[?1003l");
    reveal_strlit("\x1b[?1005l");
    reveal_strlit("\x1b[?1006l");
    reveal_strlit("\x1b[?1007l");
    reveal_strlit("\x1b[?1015l");
    reveal_strlit("\x1b[?1h");
    reveal_strlit("\x1b=");
    reveal_strlit("\x1b[?1l");
    reveal_strlit("\x1b>");
    reveal_strlit("\x1b[?2004h");
    reveal_strlit("\x1b[?2004l");
    assert(passthrough::live_patterns()[i] =~= terminal_mode(i));
}

proof fn lemma_modes_differ(i: int, j: int, rest: Seq<u8>)
    requires
        0 <= i < 20,
        0 <= j < 20,
        i != j,
    ensures
        !bytes::starts(terminal_mode(i) + rest, terminal_mode(j)),
{
    let a = terminal_mode(i);
    let b = terminal_mode(j);
    if bytes::starts(a + rest, b) {
        let cut = (a + rest).subrange(0, b.len() as int);
        assert(forall|k: int| 0 <= k < b.len() && k < a.len() ==> #[trigger] cut[k] == a[k]);
        assert(cut[1] == a[1]);
        if a.len() > 4 && b.len() > 4 {
            assert(cut[3] == a[3]);
            assert(cut[4] == a[4]);
            if a.len() > 7 && b.len() > 7 {
                assert(cut[5] == a[5]);
                assert(cut[6] == a[6]);
                assert(cut[7] == a[7]);
            }
        }
    }
}

proof fn lemma_mode_is_found(i: int, from: int, rest: Seq<u8>)
    requires
        0 <= from <= i < 20,
    ensures
        passthrough::pattern_index(terminal_mode(i) + rest, from) == Some(i),
    decreases i - from,
{
    law_terminal_modes(from);
    if from < i {
        lemma_modes_differ(i, from, rest);
        lemma_mode_is_found(i, from + 1, rest);
    } else {
        law_occurrences(rest, terminal_mode(i), Seq::empty(), rest);
    }
}

/// A sequence that is passed on is passed on whole, and what follows it as if it stood alone. The
/// sequences for mouse reports say whether these are on, and the others leave that as it is.
pub proof fn law_modes_are_passed_on(i: int, rest: Seq<u8>, before: bool)
    requires
        0 <= i < 20,
    ensures
        ({
            let whole = terminal_mode(i) + rest;
            &&& passthrough::passed_on(whole) == terminal_mode(i) + passthrough::passed_on(rest)
            &&& i < 7 ==> passthrough::mouse_after(whole, before) == passthrough::mouse_after(
                rest,
                true,
            )
            &&& 7 <= i < 14 ==> passthrough::mouse_after(whole, before) == passthrough::mouse_after(
                rest,
                false,
            )
            &&& i >= 14 ==> passthrough::mouse_after(whole, before) == passthrough::mouse_after(
                rest,
                before,
            )
        }),
{
    law_terminal_modes(i);
    lemma_mode_is_found(i, 0, rest);
    assert((terminal_mode(i) + rest).skip(terminal_mode(i).len() as int) =~= rest);
}

/// A byte at which no such sequence starts is not passed on, and changes nothing.
pub proof fn law_other_bytes_are_not_passed_on(list: Seq<u8>, before: bool)
    requires
        list.len() > 0,
        forall|i: int| 0 <= i < 20 ==> !bytes::starts(list, #[trigger] terminal_mode(i)),
    ensures
        passthrough::passed_on(list) == passthrough::passed_on(list.skip(1)),
        passthrough::mouse_after(list, before) == passthrough::mouse_after(list.skip(1), before),
        passthrough::passed_on(Seq::empty()).len() == 0,
        passthrough::mouse_after(Seq::empty(), before) == before,
{
    passthrough::lemma_pattern_index(list, 0);
    if passthrough::pattern_index(list, 0) is Some {
        let k = passthrough::pattern_index(list, 0)->0;
        law_terminal_modes(0);
        law_terminal_modes(k);
    }
}

proof fn lemma_nothing_kept(list: Seq<u8>)
    requires
        forall|m: int| 0 <= m < 7 && m < list.len() ==> #[trigger] list[list.len() - 1 - m] != 0x1b,
    ensures
        passthrough::kept(list) == 0,
{
    passthrough::lemma_kept(list);
    let n = passthrough::kept(list);
    if n > 0 {
        let end = list.skip(list.len() - n);
        let i = choose|i: int|
            0 <= i < passthrough::live_patterns().len() && bytes::starts(
                #[trigger] passthrough::live_patterns()[i],
                end,
            );
        let p = passthrough::live_patterns()[i];
        passthrough::lemma_pattern_shape(i);
        assert(p.subrange(0, end.len() as int)[0] == p[0]);
        assert(end[0] == list[list.len() - 1 - (n - 1)]);
    }
}

/// A sequence of eight bytes that arrives whole is passed on at once, and nothing is held back.
pub proof fn law_whole_sequences(i: int, mouse: bool)
    requires
        0 <= i < 14 || 18 <= i < 20,
    ensures
        ({
            let step = passthrough::fed(Seq::empty(), mouse, terminal_mode(i));
            &&& step.out == terminal_mode(i)
            &&& step.pending.len() == 0
            &&& i < 7 ==> step.mouse
            &&& 7 <= i < 14 ==> !step.mouse
            &&& i >= 14 ==> step.mouse == mouse
        }),
{
    let p = terminal_mode(i);
    law_terminal_modes(i);
    passthrough::lemma_pattern_shape(i);
    assert(p.len() == 8);
    lemma_nothing_kept(p);
    let all = Seq::<u8>::empty() + p;
    assert(all =~= p);
    assert(all.take(all.len() as int) =~= p);
    law_modes_are_passed_on(i, Seq::empty(), mouse);
    assert(p + Seq::<u8>::empty() =~= p);
    assert(p + passthrough::passed_on(Seq::empty()) =~= p);
}

/// The start of such a sequence is held back until something follows it, and so is a short
/// sequence as a whole.
pub proof fn law_starts_of_sequences(i: int, n: int, mouse: bool)
    requires
        0 <= i < 20,
        0 < n <= terminal_mode(i).len(),
        n <= 7,
    ensures
        ({
            let start = terminal_mode(i).take(n);
            let step = passthrough::fed(Seq::empty(), mouse, start);
            &&& step.pending == start
            &&& step.out.len() == 0
            &&& step.mouse == mouse
        }),
{
    law_terminal_modes(i);
    let p = terminal_mode(i);
    passthrough::lemma_pattern_shape(i);
    let start = p.take(n);
    passthrough::lemma_kept(start);
    assert(start.skip(0) =~= start);
    assert(bytes::starts(p, start)) by {
        assert(p.subrange(0, start.len() as int) =~= start);
    }
    assert(passthrough::begins_pattern(start)) by {
        assert(bytes::starts(passthrough::live_patterns()[i], start));
    }
    if passthrough::kept(start) < n {
        assert(passthrough::begins_pattern(start.skip(start.len() - n)));
    }
    let all = Seq::<u8>::empty() + start;
    assert(all =~= start);
    assert(all.take(0) =~= Seq::<u8>::empty());
    assert(all.skip(0) =~= start);
}

/// Bytes without an escape are neither passed on nor held back.
pub proof fn law_plain_bytes(list: Seq<u8>, mouse: bool)
    requires
        no_escape(list),
    ensures
        ({
            let step = passthrough::fed(Seq::empty(), mouse, list);
            &&& step.pending.len() == 0
            &&& step.out.len() == 0
            &&& step.mouse == mouse
        }),
{
    lemma_nothing_kept(list);
    lemma_plain_bytes(list, mouse);
    let all = Seq::<u8>::empty() + list;
    assert(all =~= list);
    assert(all.take(all.len() as int) =~= list);
}

proof fn lemma_plain_bytes(list: Seq<u8>, mouse: bool)
    requires
        no_escape(list),
    ensures
        passthrough::passed_on(list).len() == 0,
        passthrough::mouse_after(list, mouse) == mouse,
    decreases list.len(),
{
    if list.len() > 0 {
        assert forall|i: int| 0 <= i < 20 implies !bytes::starts(
            list,
            #[trigger] terminal_mode(i),
        ) by {
            law_terminal_modes(i);
            passthrough::lemma_pattern_shape(i);
            if bytes::starts(list, terminal_mode(i)) {
                assert(list.subrange(0, terminal_mode(i).len() as int)[0] == list[0]);
            }
        }
        law_other_bytes_are_not_passed_on(list, mouse);
        lemma_plain_bytes(list.skip(1), mouse);
    }
}

/// The buttons of the wheel, and those of a drag.
pub open spec fn wheel_or_drag(code: int) -> bool {
    code == 64 || code == 65 || 32 <= code <= 35
}

/// The start of a mouse report: an escape, a bracket, a less-than sign, a button of two digits and
/// a semicolon.
pub open spec fn report_start(code: int) -> Seq<u8> {
    seq![0x1bu8, 0x5b, 0x3c, (0x30 + code / 10) as u8, (0x30 + code % 10) as u8, 0x3b]
}

/// A report of a button in the older form stands at a place: an escape, a bracket, an M, a byte for
/// the button, and two more.
pub open spec fn old_report(list: Seq<u8>, at: int, code: int) -> bool {
    &&& 0 <= at && at + 6 <= list.len()
    &&& list[at] == 0x1b && list[at + 1] == 0x5b && list[at + 2] == 0x4d
    &&& list[at + 3] == code + 32
}

proof fn lemma_report_starts()
    ensures
        passthrough::wheel_or_drag_starts() == seq![
            report_start(64),
            report_start(65),
            report_start(32),
            report_start(33),
            report_start(34),
            report_start(35),
        ],
{
    reveal_strlit("\x1b[<64;");
    reveal_strlit("\x1b[<65;");
    reveal_strlit("\x1b[<32;");
    reveal_strlit("\x1b[<33;");
    reveal_strlit("\x1b[<34;");
    reveal_strlit("\x1b[<35;");
    assert(bytes::ascii("\x1b[<64;"@) =~= report_start(64));
    assert(bytes::ascii("\x1b[<65;"@) =~= report_start(65));
    assert(bytes::ascii("\x1b[<32;"@) =~= report_start(32));
    assert(bytes::ascii("\x1b[<33;"@) =~= report_start(33));
    assert(bytes::ascii("\x1b[<34;"@) =~= report_start(34));
    assert(bytes::ascii("\x1b[<35;"@) =~= report_start(35));
}

/// A report of the wheel or of a drag is found wherever it stands, in decimal numbers or in the
/// older form, and nothing else is taken for one.
pub proof fn law_wheels_and_drags(list: Seq<u8>, front: Seq<u8>, back: Seq<u8>, code: int)
    ensures
        wheel_or_drag(code) ==> passthrough::has_wheel_or_drag(front + report_start(code) + back),
        wheel_or_drag(code) && back.len() >= 2 ==> passthrough::has_wheel_or_drag(
            front + seq![0x1bu8, 0x5b, 0x4d, (code + 32) as u8] + back,
        ),
        passthrough::has_wheel_or_drag(list) ==> (exists|at: int, c: int|
            wheel_or_drag(c) && #[trigger] bytes::stands_at(list, report_start(c), at)) || (exists|
            at: int,
            c: int,
        |
            wheel_or_drag(c) && #[trigger] old_report(list, at, c)),
{
    lemma_report_starts();
    let starts = passthrough::wheel_or_drag_starts();
    if wheel_or_drag(code) {
        let whole = front + report_start(code) + back;
        law_occurrences(whole, report_start(code), front, back);
        let i: int = if code == 64 {
            0
        } else if code == 65 {
            1
        } else {
            code - 30
        };
        assert(starts[i] == report_start(code));
        if back.len() >= 2 {
            let old = front + seq![0x1bu8, 0x5b, 0x4d, (code + 32) as u8] + back;
            assert(passthrough::old_report_at(old, front.len() as int));
        }
    }
    if passthrough::has_wheel_or_drag(list) {
        if passthrough::has_any(list, starts) {
            let i = choose|i: int|
                0 <= i < starts.len() && bytes::occurs(list, #[trigger] starts[i]);
            let at = choose|at: int| bytes::stands_at(list, starts[i], at);
            let c: int = if i == 0 {
                64
            } else if i == 1 {
                65
            } else {
                30 + i
            };
            assert(starts[i] == report_start(c));
            assert(bytes::stands_at(list, report_start(c), at));
        } else {
            let at = choose|at: int| passthrough::old_report_at(list, at);
            let c = list[at + 3] - 32;
            assert(wheel_or_drag(c));
            assert(old_report(list, at, c));
        }
    }
}

/// Typed bytes move the screen where the keys up or down stand in them, in either form, or a
/// report of the wheel or of a drag.
pub proof fn law_input_that_moves_the_screen(list: Seq<u8>, front: Seq<u8>, back: Seq<u8>)
    ensures
        passthrough::suppresses_noise(front + seq![0x1bu8, 0x5b, 0x41] + back),
        passthrough::suppresses_noise(front + seq![0x1bu8, 0x5b, 0x42] + back),
        passthrough::suppresses_noise(front + seq![0x1bu8, 0x4f, 0x41] + back),
        passthrough::suppresses_noise(front + seq![0x1bu8, 0x4f, 0x42] + back),
        passthrough::has_wheel_or_drag(list) ==> passthrough::suppresses_noise(list),
        no_escape(list) ==> !passthrough::suppresses_noise(list),
{
    reveal_strlit("\x1b[A");
    reveal_strlit("\x1b[B");
    reveal_strlit("\x1bOA");
    reveal_strlit("\x1bOB");
    let a = bytes::ascii("\x1b[A"@);
    let b = bytes::ascii("\x1b[B"@);
    let c = bytes::ascii("\x1bOA"@);
    let d = bytes::ascii("\x1bOB"@);
    assert(a =~= seq![0x1bu8, 0x5b, 0x41]);
    assert(b =~= seq![0x1bu8, 0x5b, 0x42]);
    assert(c =~= seq![0x1bu8, 0x4f, 0x41]);
    assert(d =~= seq![0x1bu8, 0x4f, 0x42]);
    law_occurrences(list, a, front, back);
    law_occurrences(list, b, front, back);
    law_occurrences(list, c, front, back);
    law_occurrences(list, d, front, back);
    if no_escape(list) {
        lemma_no_escape_no_sequence(list, a);
        lemma_no_escape_no_sequence(list, b);
        lemma_no_escape_no_sequence(list, c);
        lemma_no_escape_no_sequence(list, d);
        law_wheels_and_drags(list, front, back, 0);
        if passthrough::has_wheel_or_drag(list) {
            if exists|at: int, c: int|
                wheel_or_drag(c) && #[trigger] bytes::stands_at(list, report_start(c), at) {
                let (at, code) = choose|at: int, c: int|
                    wheel_or_drag(c) && #[trigger] bytes::stands_at(list, report_start(c), at);
                assert(list.subrange(at, at + 6)[0] == list[at]);
            } else {
                let (at, code) = choose|at: int, c: int|
                    wheel_or_drag(c) && #[trigger] old_report(list, at, c);
                assert(list[at] == 0x1b);
            }
        }
    }
}

} // verus!
