//! Escape sequences that are recognised in the streams to and from a command.
use crate::bytes;
use crate::bytes::{append_all, ascii_bytes, has, is_at, part, strip_byte_sequence};
use crate::keymap;
use crate::keymap::KeyMapper;
use crate::sequences;
use vstd::prelude::*;

verus! {

/// The sequences that enter the alternate screen.
pub open spec fn alt_screen_enter() -> Seq<Seq<u8>> {
    seq![
        bytes::ascii("\x1b[?1049h"@),
        bytes::ascii("\x1b[?1047h"@),
        bytes::ascii("\x1b[?47h"@),
    ]
}

/// The sequences that turn mouse reports on.
pub open spec fn mouse_enable() -> Seq<Seq<u8>> {
    seq![
        bytes::ascii("\x1b[?1000h"@),
        bytes::ascii("\x1b[?1002h"@),
        bytes::ascii("\x1b[?1003h"@),
        bytes::ascii("\x1b[?1005h"@),
        bytes::ascii("\x1b[?1006h"@),
        bytes::ascii("\x1b[?1007h"@),
        bytes::ascii("\x1b[?1015h"@),
    ]
}

/// The sequences that turn mouse reports off.
pub open spec fn mouse_disable() -> Seq<Seq<u8>> {
    seq![
        bytes::ascii("\x1b[?1000l"@),
        bytes::ascii("\x1b[?1002l"@),
        bytes::ascii("\x1b[?1003l"@),
        bytes::ascii("\x1b[?1005l"@),
        bytes::ascii("\x1b[?1006l"@),
        bytes::ascii("\x1b[?1007l"@),
        bytes::ascii("\x1b[?1015l"@),
    ]
}

/// The sequences that change the input mode.
pub open spec fn input_mode_enable() -> Seq<Seq<u8>> {
    seq![bytes::ascii("\x1b[?1h"@), bytes::ascii("\x1b="@)]
}

/// The sequences that change the input mode back.
pub open spec fn input_mode_disable() -> Seq<Seq<u8>> {
    seq![bytes::ascii("\x1b[?1l"@), bytes::ascii("\x1b>"@)]
}

/// The sequences that turn bracketed paste on.
pub open spec fn paste_mode_enable() -> Seq<Seq<u8>> {
    seq![bytes::ascii("\x1b[?2004h"@)]
}

/// The sequences that turn bracketed paste off.
pub open spec fn paste_mode_disable() -> Seq<Seq<u8>> {
    seq![bytes::ascii("\x1b[?2004l"@)]
}

/// The sequences that enter the alternate screen.
pub fn alt_screen_enter_sequences() -> (r: Vec<Vec<u8>>)
    ensures
        bytes::contents(r@) == alt_screen_enter(),
{
    let r: Vec<Vec<u8>> = vec![
        ascii_bytes("\x1b[?1049h"),
        ascii_bytes("\x1b[?1047h"),
        ascii_bytes("\x1b[?47h"),
    ];
    assert(bytes::contents(r@) =~= alt_screen_enter());
    r
}

/// The sequences that turn mouse reports on.
pub fn live_render_mouse_enable_sequences() -> (r: Vec<Vec<u8>>)
    ensures
        bytes::contents(r@) == mouse_enable(),
{
    let r: Vec<Vec<u8>> = vec![
        ascii_bytes("\x1b[?1000h"),
        ascii_bytes("\x1b[?1002h"),
        ascii_bytes("\x1b[?1003h"),
        ascii_bytes("\x1b[?1005h"),
        ascii_bytes("\x1b[?1006h"),
        ascii_bytes("\x1b[?1007h"),
        ascii_bytes("\x1b[?1015h"),
    ];
    assert(bytes::contents(r@) =~= mouse_enable());
    r
}

/// The sequences that turn mouse reports off.
pub fn live_render_mouse_disable_sequences() -> (r: Vec<Vec<u8>>)
    ensures
        bytes::contents(r@) == mouse_disable(),
{
    let r: Vec<Vec<u8>> = vec![
        ascii_bytes("\x1b[?1000l"),
        ascii_bytes("\x1b[?1002l"),
        ascii_bytes("\x1b[?1003l"),
        ascii_bytes("\x1b[?1005l"),
        ascii_bytes("\x1b[?1006l"),
        ascii_bytes("\x1b[?1007l"),
        ascii_bytes("\x1b[?1015l"),
    ];
    assert(bytes::contents(r@) =~= mouse_disable());
    r
}

/// The sequences that change the input mode.
pub fn live_render_input_mode_enable_sequences() -> (r: Vec<Vec<u8>>)
    ensures
        bytes::contents(r@) == input_mode_enable(),
{
    let r: Vec<Vec<u8>> = vec![ascii_bytes("\x1b[?1h"), ascii_bytes("\x1b=")];
    assert(bytes::contents(r@) =~= input_mode_enable());
    r
}

/// The sequences that change the input mode back.
pub fn live_render_input_mode_disable_sequences() -> (r: Vec<Vec<u8>>)
    ensures
        bytes::contents(r@) == input_mode_disable(),
{
    let r: Vec<Vec<u8>> = vec![ascii_bytes("\x1b[?1l"), ascii_bytes("\x1b>")];
    assert(bytes::contents(r@) =~= input_mode_disable());
    r
}

/// The sequences that turn bracketed paste on.
pub fn live_render_paste_mode_enable_sequences() -> (r: Vec<Vec<u8>>)
    ensures
        bytes::contents(r@) == paste_mode_enable(),
{
    let r: Vec<Vec<u8>> = vec![ascii_bytes("\x1b[?2004h")];
    assert(bytes::contents(r@) =~= paste_mode_enable());
    r
}

/// The sequences that turn bracketed paste off.
pub fn live_render_paste_mode_disable_sequences() -> (r: Vec<Vec<u8>>)
    ensures
        bytes::contents(r@) == paste_mode_disable(),
{
    let r: Vec<Vec<u8>> = vec![ascii_bytes("\x1b[?2004l")];
    assert(bytes::contents(r@) =~= paste_mode_disable());
    r
}

/// Whether one of some sequences stands anywhere in some bytes.
pub open spec fn has_any(bytes: Seq<u8>, list: Seq<Seq<u8>>) -> bool {
    exists|i: int| 0 <= i < list.len() && bytes::occurs(bytes, #[trigger] list[i])
}

fn holds_any(bytes: &[u8], list: &Vec<Vec<u8>>) -> (r: bool)
    ensures
        r == has_any(bytes@, bytes::contents(list@)),
{
    let ghost all = bytes::contents(list@);
    let mut i: usize = 0;
    while i < list.len()
        invariant
            i <= list@.len(),
            all == bytes::contents(list@),
            forall|j: int| 0 <= j < i ==> !bytes::occurs(bytes@, #[trigger] all[j]),
        decreases list@.len() - i,
    {
        assert(all[i as int] == list@[i as int]@);
        if has(bytes, list[i].as_slice()) {
            return true;
        }
        i = i + 1;
    }
    false
}

/// Whether a sequence that enters the alternate screen stands in some bytes.
pub fn contains_alt_screen_enter_sequence(bytes: &[u8]) -> (r: bool)
    ensures
        r == has_any(bytes@, alt_screen_enter()),
{
    holds_any(bytes, &alt_screen_enter_sequences())
}

/// Some bytes without the first `n` of some sequences, removed one after the other.
pub open spec fn without_all(bytes: Seq<u8>, list: Seq<Seq<u8>>, n: int) -> Seq<u8>
    decreases n,
{
    if n <= 0 {
        bytes
    } else {
        bytes::without(without_all(bytes, list, n - 1), list[n - 1])
    }
}

/// Removes the sequences that enter the alternate screen, one kind after the other.
pub fn strip_alt_screen_enter_sequences(bytes: &[u8]) -> (r: Vec<u8>)
    ensures
        r@ == without_all(bytes@, alt_screen_enter(), 3),
{
    let list: Vec<Vec<u8>> = alt_screen_enter_sequences();
    let ghost all = bytes::contents(list@);
    let mut out: Vec<u8> = Vec::new();
    append_all(&mut out, bytes);
    assert(out@ =~= bytes@);
    let mut i: usize = 0;
    while i < list.len()
        invariant
            i <= list@.len(),
            all == bytes::contents(list@),
            out@ == without_all(bytes@, all, i as int),
        decreases list@.len() - i,
    {
        assert(all[i as int] == list@[i as int]@);
        out = strip_byte_sequence(out.as_slice(), list[i].as_slice());
        i = i + 1;
    }
    assert(all.len() == 3);
    out
}

/// Where no sequence enters the alternate screen, the removal changes nothing.
pub proof fn law_strip_without_sequences(bytes: Seq<u8>)
    requires
        !has_any(bytes, alt_screen_enter()),
    ensures
        without_all(bytes, alt_screen_enter(), 3) == bytes,
{
    let list = alt_screen_enter();
    bytes::lemma_without_absent(bytes, list[0]);
    bytes::lemma_without_absent(bytes, list[1]);
    bytes::lemma_without_absent(bytes, list[2]);
    assert(without_all(bytes, list, 0) == bytes);
    assert(without_all(bytes, list, 1) == bytes);
    assert(without_all(bytes, list, 2) == bytes);
}

/// The removal leaves a subsequence. It changes something exactly where a sequence enters the
/// alternate screen, and what is left is then shorter.
pub proof fn law_strip_removes_sequences(bytes: Seq<u8>)
    ensures
        ({
            let left = without_all(bytes, alt_screen_enter(), 3);
            &&& sequences::subsequence(left, bytes)
            &&& left == bytes <==> !has_any(bytes, alt_screen_enter())
            &&& has_any(bytes, alt_screen_enter()) ==> left.len() < bytes.len()
        }),
{
    let list = alt_screen_enter();
    reveal_strlit("\x1b[?1049h");
    reveal_strlit("\x1b[?1047h");
    reveal_strlit("\x1b[?47h");
    let one = bytes::without(bytes, list[0]);
    let two = bytes::without(one, list[1]);
    let three = bytes::without(two, list[2]);
    assert(without_all(bytes, list, 0) == bytes);
    assert(without_all(bytes, list, 1) == one);
    assert(without_all(bytes, list, 2) == two);
    assert(without_all(bytes, list, 3) == three);
    bytes::lemma_without_part(bytes, list[0]);
    bytes::lemma_without_part(one, list[1]);
    bytes::lemma_without_part(two, list[2]);
    sequences::lemma_twice(two, one, bytes);
    sequences::lemma_twice(three, two, bytes);
    if has_any(bytes, list) {
        if !bytes::occurs(bytes, list[0]) {
            bytes::lemma_without_absent(bytes, list[0]);
            if !bytes::occurs(bytes, list[1]) {
                bytes::lemma_without_absent(bytes, list[1]);
            }
        }
    } else {
        law_strip_without_sequences(bytes);
    }
}

/// The sequences that are passed on to the terminal, in the order in which they are tried.
pub open spec fn live_patterns() -> Seq<Seq<u8>> {
    mouse_enable() + mouse_disable() + input_mode_enable() + input_mode_disable()
        + paste_mode_enable() + paste_mode_disable()
}

/// What the sequence with an index says of mouse reports.
pub open spec fn mouse_effect(i: int) -> Option<bool> {
    if i < 7 {
        Some(true)
    } else if i < 14 {
        Some(false)
    } else {
        None
    }
}

/// The index of the first of the sequences, from index `i` on, that some bytes start with.
pub open spec fn pattern_index(bytes: Seq<u8>, i: int) -> Option<int>
    decreases live_patterns().len() - i,
{
    if i >= live_patterns().len() || i < 0 {
        None
    } else if bytes::starts(bytes, live_patterns()[i]) {
        Some(i)
    } else {
        pattern_index(bytes, i + 1)
    }
}

/// The sequences that are passed on to the terminal.
pub fn live_passthrough_patterns() -> (r: Vec<Vec<u8>>)
    ensures
        bytes::contents(r@) == live_patterns(),
{
    let mut r: Vec<Vec<u8>> = live_render_mouse_enable_sequences();
    push_patterns(&mut r, live_render_mouse_disable_sequences());
    push_patterns(&mut r, live_render_input_mode_enable_sequences());
    push_patterns(&mut r, live_render_input_mode_disable_sequences());
    push_patterns(&mut r, live_render_paste_mode_enable_sequences());
    push_patterns(&mut r, live_render_paste_mode_disable_sequences());
    r
}

fn push_patterns(list: &mut Vec<Vec<u8>>, more: Vec<Vec<u8>>)
    ensures
        bytes::contents(final(list)@) == bytes::contents(old(list)@) + bytes::contents(more@),
{
    let mut rest: Vec<Vec<u8>> = more;
    list.append(&mut rest);
    assert(bytes::contents(list@) =~= bytes::contents(old(list)@) + bytes::contents(more@));
}

/// The first of the sequences that some bytes start with, and what it says of mouse reports.
pub fn live_passthrough_match(bytes: &[u8]) -> (r: Option<(Vec<u8>, Option<bool>)>)
    ensures
        match pattern_index(bytes@, 0) {
            None => r is None,
            Some(i) => r is Some && (r->0).0@ == live_patterns()[i] && (r->0).1
                == mouse_effect(i),
        },
{
    let list: Vec<Vec<u8>> = live_passthrough_patterns();
    match match_at(&list, bytes, 0) {
        None => {
            proof {
                assert(bytes@.skip(0) =~= bytes@);
            }
            None
        },
        Some(i) => {
            proof {
                assert(bytes@.skip(0) =~= bytes@);
                assert(bytes::contents(list@)[i as int] == list@[i as int]@);
            }
            let pattern: Vec<u8> = part(list[i].as_slice(), 0, list[i].len());
            assert(pattern@ =~= list@[i as int]@);
            Some((pattern, effect_of(i)))
        },
    }
}

fn effect_of(i: usize) -> (r: Option<bool>)
    ensures
        r == mouse_effect(i as int),
{
    if i < 7 {
        Some(true)
    } else if i < 14 {
        Some(false)
    } else {
        None
    }
}

fn match_at(list: &Vec<Vec<u8>>, bytes: &[u8], at: usize) -> (r: Option<usize>)
    requires
        bytes::contents(list@) == live_patterns(),
        at <= bytes@.len(),
    ensures
        match pattern_index(bytes@.skip(at as int), 0) {
            None => r is None,
            Some(i) => r == Some(i as usize) && 0 <= i < list@.len() && bytes::starts(
                bytes@.skip(at as int),
                list@[i]@,
            ),
        },
{
    let ghost rest = bytes@.skip(at as int);
    let mut i: usize = 0;
    while i < list.len()
        invariant
            i <= list@.len(),
            at <= bytes@.len(),
            rest == bytes@.skip(at as int),
            bytes::contents(list@) == live_patterns(),
            pattern_index(rest, 0) == pattern_index(rest, i as int),
        decreases list@.len() - i,
    {
        proof {
            assert(live_patterns()[i as int] == list@[i as int]@);
            bytes::lemma_stands_in_rest(bytes@, list@[i as int]@, at as int);
        }
        if is_at(bytes, list[i].as_slice(), at) {
            return Some(i);
        }
        i = i + 1;
    }
    None
}

/// Whether some bytes are the start of one of the sequences, or all of it.
pub open spec fn begins_pattern(start: Seq<u8>) -> bool {
    exists|i: int|
        0 <= i < live_patterns().len() && bytes::starts(#[trigger] live_patterns()[i], start)
}

/// The length of the longest end of some bytes, of `n` bytes at most, that begins one of the
/// sequences.
pub open spec fn longest_begin(bytes: Seq<u8>, n: int) -> int
    decreases n,
{
    if n <= 0 {
        0
    } else if begins_pattern(bytes.skip(bytes.len() - n)) {
        n
    } else {
        longest_begin(bytes, n - 1)
    }
}

/// The number of bytes at the end that may be the start of one of the sequences. No sequence is
/// longer than eight bytes.
#[verifier::opaque]
pub open spec fn kept(bytes: Seq<u8>) -> int {
    longest_begin(
        bytes,
        if bytes.len() < 7 {
            bytes.len() as int
        } else {
            7
        },
    )
}

fn is_begin(list: &Vec<Vec<u8>>, start: &[u8]) -> (r: bool)
    requires
        bytes::contents(list@) == live_patterns(),
    ensures
        r == begins_pattern(start@),
{
    let mut i: usize = 0;
    while i < list.len()
        invariant
            i <= list@.len(),
            bytes::contents(list@) == live_patterns(),
            forall|j: int| 0 <= j < i ==> !bytes::starts(#[trigger] live_patterns()[j], start@),
        decreases list@.len() - i,
    {
        assert(live_patterns()[i as int] == list@[i as int]@);
        if is_at(list[i].as_slice(), start, 0) {
            return true;
        }
        i = i + 1;
    }
    false
}

/// The number of bytes at the end that may be the start of one of the sequences.
pub fn longest_live_passthrough_suffix(bytes: &[u8]) -> (r: usize)
    ensures
        r == kept(bytes@),
        r <= bytes@.len(),
{
    let list: Vec<Vec<u8>> = live_passthrough_patterns();
    let len: usize = bytes.len();
    let most: usize = if len < 7 {
        len
    } else {
        7
    };
    let mut n: usize = most;
    proof {
        reveal(kept);
    }
    while n > 0
        invariant
            n <= most <= len,
            len == bytes@.len(),
            bytes::contents(list@) == live_patterns(),
            kept(bytes@) == longest_begin(bytes@, n as int),
        decreases n,
    {
        let end: Vec<u8> = part(bytes, len - n, len);
        assert(end@ =~= bytes@.skip(len - n));
        if is_begin(&list, end.as_slice()) {
            return n;
        }
        n = n - 1;
    }
    0
}

/// What is passed on of some bytes: the sequences that stand in them.
pub open spec fn passed_on(scan: Seq<u8>) -> Seq<u8>
    decreases scan.len(),
{
    if scan.len() == 0 {
        Seq::empty()
    } else {
        match pattern_index(scan, 0) {
            Some(i) => if 0 <= i < live_patterns().len() && 0 < live_patterns()[i].len()
                <= scan.len() {
                live_patterns()[i] + passed_on(scan.skip(live_patterns()[i].len() as int))
            } else {
                Seq::empty()
            },
            None => passed_on(scan.skip(1)),
        }
    }
}

/// Whether mouse reports are on after some bytes.
pub open spec fn mouse_after(scan: Seq<u8>, before: bool) -> bool
    decreases scan.len(),
{
    if scan.len() == 0 {
        before
    } else {
        match pattern_index(scan, 0) {
            Some(i) => if 0 <= i < live_patterns().len() && 0 < live_patterns()[i].len()
                <= scan.len() {
                let now = match mouse_effect(i) {
                    Some(on) => on,
                    None => before,
                };
                mouse_after(scan.skip(live_patterns()[i].len() as int), now)
            } else {
                before
            },
            None => mouse_after(scan.skip(1), before),
        }
    }
}

/// What comes of a chunk: the bytes that are held back, those that are passed on, and whether
/// mouse reports are on.
#[verifier::ext_equal]
pub struct Fed {
    pub pending: Seq<u8>,
    pub out: Seq<u8>,
    pub mouse: bool,
}

/// What comes of a chunk, after `pending`.
pub open spec fn fed(pending: Seq<u8>, mouse: bool, chunk: Seq<u8>) -> Fed {
    let all = pending + chunk;
    let scan = all.take(all.len() - kept(all));
    Fed {
        pending: all.skip(all.len() - kept(all)),
        out: passed_on(scan),
        mouse: mouse_after(scan, mouse),
    }
}

/// Passes mouse, input and paste modes on to the terminal, in a stream that arrives in chunks.
pub struct LivePassthrough {
    /// The bytes at the end of the stream that may be the start of a sequence.
    pub pending: Vec<u8>,
    /// Whether mouse reports are on.
    pub mouse_reporting_active: bool,
}

proof fn lemma_pattern_lengths(i: int)
    requires
        0 <= i < live_patterns().len(),
    ensures
        2 <= live_patterns()[i].len() <= 8,
{
    lemma_pattern_shape(i);
}

impl LivePassthrough {
    /// The start of a stream, with mouse reports off.
    pub fn new() -> (r: LivePassthrough)
        ensures
            r.pending@ == Seq::<u8>::empty(),
            !r.mouse_reporting_active,
    {
        let r: LivePassthrough = LivePassthrough {
            pending: Vec::new(),
            mouse_reporting_active: false,
        };
        assert(r.pending@ =~= Seq::<u8>::empty());
        r
    }

    /// Takes a chunk, appends what is passed on of it, and says whether that was anything.
    pub fn feed(&mut self, out: &mut Vec<u8>, bytes: &[u8]) -> (r: bool)
        ensures
            ({
                let step = fed(old(self).pending@, old(self).mouse_reporting_active, bytes@);
                &&& final(self).pending@ == step.pending
                &&& final(self).mouse_reporting_active == step.mouse
                &&& final(out)@ == old(out)@ + step.out
                &&& r == (step.out.len() > 0)
            }),
    {
        append_all(&mut self.pending, bytes);
        let ghost all = self.pending@;
        let len: usize = self.pending.len();
        let keep: usize = longest_live_passthrough_suffix(self.pending.as_slice());
        let split_at: usize = len - keep;
        let scan: Vec<u8> = part(self.pending.as_slice(), 0, split_at);
        self.pending = part(self.pending.as_slice(), split_at, len);
        assert(scan@ =~= all.take(split_at as int));
        assert(self.pending@ =~= all.skip(split_at as int));
        let list: Vec<Vec<u8>> = live_passthrough_patterns();
        let before: usize = out.len();
        let ghost sent = out@;
        let mut i: usize = 0;
        assert(scan@.skip(0) =~= scan@);
        assert(out@ + passed_on(scan@) =~= sent + passed_on(scan@));
        while i < scan.len()
            invariant
                i <= scan@.len(),
                bytes::contents(list@) == live_patterns(),
                self.pending@ == all.skip(split_at as int),
                out@ + passed_on(scan@.skip(i as int)) == sent + passed_on(scan@),
                mouse_after(scan@.skip(i as int), self.mouse_reporting_active) == mouse_after(
                    scan@,
                    old(self).mouse_reporting_active,
                ),
            decreases scan@.len() - i,
        {
            let ghost rest = scan@.skip(i as int);
            let ghost earlier = out@;
            match match_at(&list, scan.as_slice(), i) {
                Some(k) => {
                    proof {
                        assert(live_patterns()[k as int] == list@[k as int]@);
                        lemma_pattern_lengths(k as int);
                        assert(rest.skip(list@[k as int]@.len() as int) =~= scan@.skip(
                            i + list@[k as int]@.len(),
                        ));
                    }
                    append_all(out, list[k].as_slice());
                    if let Some(on) = effect_of(k) {
                        self.mouse_reporting_active = on;
                    }
                    i = i + list[k].len();
                    assert(earlier + (list@[k as int]@ + passed_on(scan@.skip(i as int))) =~= out@
                        + passed_on(scan@.skip(i as int)));
                },
                None => {
                    assert(rest.skip(1) =~= scan@.skip(i + 1));
                    i = i + 1;
                },
            }
        }
        assert(scan@.skip(i as int) =~= Seq::<u8>::empty());
        assert(out@ =~= sent + passed_on(scan@));
        out.len() > before
    }
}

/// Whether a sequence is short, starts with an escape and holds no other.
pub open spec fn shaped(pattern: Seq<u8>) -> bool {
    &&& 2 <= pattern.len() <= 8
    &&& pattern[0] == 0x1b
    &&& forall|k: int| 1 <= k < pattern.len() ==> pattern[k] != 0x1b
}

/// Each sequence is short, starts with an escape and holds no other.
pub proof fn lemma_pattern_shape(i: int)
    requires
        0 <= i < live_patterns().len(),
    ensures
        shaped(live_patterns()[i]),
{
    reveal_strlit("\x1b[?1000h");
    reveal_strlit("\x1b[?1002h");
    reveal_strlit("\x1b[?1003h");
    reveal_strlit("\x1b[?1005h");
    reveal_strlit("\x1b[?1006h");
    reveal_strlit("\x1b[?1007h");
    reveal_strlit("\x1b[?1015h");
    reveal_strlit("\x1b[?1000l");
    reveal_strlit("\x1b[?1002l");
    reveal_strlit("\x1b[?1003l");
    reveal_strlit("\x1b[?1005l");
    reveal_strlit("\x1b[?1006l");
    reveal_strlit("\x1b[?1007l");
    reveal_strlit("\x1b[?1015l");
    reveal_strlit("\x1b[?1h");
    reveal_strlit("\x1b=");
    reveal_strlit("\x1b[?1l");
    reveal_strlit("\x1b>");
    reveal_strlit("\x1b[?2004h");
    reveal_strlit("\x1b[?2004l");
    assert(live_patterns().len() == 20);
}

proof fn lemma_longest_begin(bytes: Seq<u8>, n: int)
    requires
        0 <= n <= bytes.len(),
    ensures
        0 <= longest_begin(bytes, n) <= n,
        longest_begin(bytes, n) > 0 ==> begins_pattern(
            bytes.skip(bytes.len() - longest_begin(bytes, n)),
        ),
        forall|m: int|
            longest_begin(bytes, n) < m <= n ==> !begins_pattern(
                #[trigger] bytes.skip(bytes.len() - m),
            ),
    decreases n,
{
    if n > 0 {
        lemma_longest_begin(bytes, n - 1);
        assert forall|m: int| longest_begin(bytes, n) < m <= n implies !begins_pattern(
            #[trigger] bytes.skip(bytes.len() - m),
        ) by {}
    }
}

/// What is kept is the longest end, of seven bytes at most, that begins a sequence.
pub proof fn lemma_kept(bytes: Seq<u8>)
    ensures
        0 <= kept(bytes) <= bytes.len(),
        kept(bytes) <= 7,
        kept(bytes) > 0 ==> begins_pattern(bytes.skip(bytes.len() - kept(bytes))),
        forall|m: int|
            kept(bytes) < m <= 7 && m <= bytes.len() ==> !begins_pattern(
                #[trigger] bytes.skip(bytes.len() - m),
            ),
{
    reveal(kept);
    lemma_longest_begin(
        bytes,
        if bytes.len() < 7 {
            bytes.len() as int
        } else {
            7
        },
    );
}

proof fn lemma_shorter_begin(start: Seq<u8>, n: int)
    requires
        begins_pattern(start),
        0 <= n <= start.len(),
    ensures
        begins_pattern(start.take(n)),
{
    let i = choose|i: int|
        0 <= i < live_patterns().len() && bytes::starts(#[trigger] live_patterns()[i], start);
    let pattern = live_patterns()[i];
    assert(pattern.subrange(0, start.len() as int) == start);
    assert(pattern.subrange(0, n) =~= start.take(n));
    assert(bytes::starts(live_patterns()[i], start.take(n)));
}

proof fn lemma_begin_escape(start: Seq<u8>)
    requires
        begins_pattern(start),
        start.len() > 0,
    ensures
        start[0] == 0x1b,
{
    let i = choose|i: int|
        0 <= i < live_patterns().len() && bytes::starts(#[trigger] live_patterns()[i], start);
    lemma_pattern_shape(i);
    assert(live_patterns()[i].subrange(0, start.len() as int)[0] == live_patterns()[i][0]);
}

/// A sequence that is found is one of the list, and the bytes start with it.
pub proof fn lemma_pattern_index(bytes: Seq<u8>, i: int)
    requires
        0 <= i,
    ensures
        match pattern_index(bytes, i) {
            Some(k) => i <= k < live_patterns().len() && bytes::starts(bytes, live_patterns()[k]),
            None => true,
        },
    decreases live_patterns().len() - i,
{
    if i < live_patterns().len() && !bytes::starts(bytes, live_patterns()[i]) {
        lemma_pattern_index(bytes, i + 1);
    }
}

/// Bytes that follow do not matter for a sequence that stands before them.
proof fn lemma_index_before(u: Seq<u8>, v: Seq<u8>, i: int)
    requires
        0 <= i,
        match pattern_index(u + v, i) {
            Some(k) => live_patterns()[k].len() <= u.len(),
            None => true,
        },
    ensures
        pattern_index(u, i) == pattern_index(u + v, i),
    decreases live_patterns().len() - i,
{
    if i < live_patterns().len() {
        let pattern = live_patterns()[i];
        let n = pattern.len() as int;
        if n <= u.len() {
            assert((u + v).subrange(0, n) =~= u.subrange(0, n));
        }
        if !bytes::starts(u + v, pattern) {
            lemma_index_before(u, v, i + 1);
        }
    }
}

/// Whether no sequence in `u + v` starts in `u` and ends in `v`.
spec fn parted(u: Seq<u8>, v: Seq<u8>) -> bool {
    forall|i: int|
        0 <= i < u.len() ==> match pattern_index(#[trigger] (u + v).skip(i), 0) {
            Some(k) => i + live_patterns()[k].len() <= u.len(),
            None => true,
        }
}

proof fn lemma_parted(u: Seq<u8>, v: Seq<u8>, mouse: bool)
    requires
        parted(u, v),
    ensures
        passed_on(u + v) == passed_on(u) + passed_on(v),
        mouse_after(u + v, mouse) == mouse_after(v, mouse_after(u, mouse)),
    decreases u.len(),
{
    if u.len() == 0 {
        assert(u + v =~= v);
        assert(passed_on(u) + passed_on(v) =~= passed_on(v));
    } else {
        assert((u + v).skip(0) =~= u + v);
        lemma_index_before(u, v, 0);
        lemma_pattern_index(u, 0);
        let n = match pattern_index(u, 0) {
            Some(k) => live_patterns()[k].len() as int,
            None => 1,
        };
        if pattern_index(u, 0) is Some {
            lemma_pattern_shape(pattern_index(u, 0)->0);
        }
        let now = match pattern_index(u, 0) {
            Some(k) => match mouse_effect(k) {
                Some(on) => on,
                None => mouse,
            },
            None => mouse,
        };
        let rest = u.skip(n);
        assert((u + v).skip(n) =~= rest + v);
        assert forall|i: int| 0 <= i < rest.len() implies match pattern_index(
            #[trigger] (rest + v).skip(i),
            0,
        ) {
            Some(k) => i + live_patterns()[k].len() <= rest.len(),
            None => true,
        } by {
            assert((rest + v).skip(i) =~= (u + v).skip(i + n));
        }
        lemma_parted(rest, v, now);
        if pattern_index(u, 0) is Some {
            let pattern = live_patterns()[pattern_index(u, 0)->0];
            assert(pattern + (passed_on(rest) + passed_on(v)) =~= (pattern + passed_on(rest))
                + passed_on(v));
        }
    }
}

/// However a stream is cut into chunks, the same sequences are passed on, the same bytes are held
/// back, and mouse reports are on or off alike.
pub proof fn law_cuts_do_not_matter(
    pending: Seq<u8>,
    mouse: bool,
    first: Seq<u8>,
    second: Seq<u8>,
)
    ensures
        ({
            let one = fed(pending, mouse, first);
            let two = fed(one.pending, one.mouse, second);
            fed(pending, mouse, first + second) == (Fed {
                pending: two.pending,
                out: one.out + two.out,
                mouse: two.mouse,
            })
        }),
{
    let x = pending + first;
    let q = x.skip(x.len() - kept(x));
    let s = x.take(x.len() - kept(x));
    let whole = pending + (first + second);
    let rest = q + second;
    lemma_kept(x);
    assert(whole =~= x + second);
    assert(whole =~= s + rest);
    lemma_same_kept(x, second);
    lemma_kept(whole);
    lemma_kept(rest);
    let k = kept(whole);
    let t = rest.take(rest.len() - k);
    assert(whole.skip(whole.len() - k) =~= rest.skip(rest.len() - k));
    assert(whole.take(whole.len() - k) =~= s + t);
    lemma_no_straddle(x, second, t);
    lemma_parted(s, t, mouse);
}

proof fn lemma_same_kept(x: Seq<u8>, b: Seq<u8>)
    ensures
        kept(x.skip(x.len() - kept(x)) + b) == kept(x + b),
{
    let q = x.skip(x.len() - kept(x));
    let whole = x + b;
    let rest = q + b;
    lemma_kept(x);
    lemma_kept(whole);
    lemma_kept(rest);
    let k = kept(whole);
    let j = kept(rest);
    assert(k >= j) by {
        if j > 0 {
            assert(whole.skip(whole.len() - j) =~= rest.skip(rest.len() - j));
        }
    }
    if k > j {
        if k <= rest.len() {
            assert(whole.skip(whole.len() - k) =~= rest.skip(rest.len() - k));
        } else {
            let m = k - b.len();
            lemma_shorter_begin(whole.skip(whole.len() - k), m);
            assert(whole.skip(whole.len() - k).take(m) =~= x.skip(x.len() - m));
        }
        assert(false);
    }
}

proof fn lemma_no_straddle(x: Seq<u8>, b: Seq<u8>, t: Seq<u8>)
    requires
        ({
            let rest = x.skip(x.len() - kept(x)) + b;
            t.len() <= rest.len() && t == rest.take(t.len() as int)
        }),
    ensures
        parted(x.take(x.len() - kept(x)), t),
{
    lemma_kept(x);
    let n = x.len() - kept(x);
    let s = x.take(n);
    let q = x.skip(n);
    let rest = q + b;
    assert forall|i: int| 0 <= i < s.len() implies match pattern_index(
        #[trigger] (s + t).skip(i),
        0,
    ) {
        Some(k) => i + live_patterns()[k].len() <= s.len(),
        None => true,
    } by {
        let cut = (s + t).skip(i);
        lemma_pattern_index(cut, 0);
        if pattern_index(cut, 0) is Some {
            let k = pattern_index(cut, 0)->0;
            let pattern = live_patterns()[k];
            lemma_pattern_shape(k);
            assert(cut.subrange(0, pattern.len() as int) == pattern);
            if i + pattern.len() > s.len() {
                if i + pattern.len() <= x.len() {
                    lemma_begin_escape(q);
                    assert(pattern[n - i] == cut[n - i]);
                    assert(cut[n - i] == t[0]);
                    assert(t[0] == rest[0]);
                    assert(rest[0] == q[0]);
                } else {
                    let m = x.len() - i;
                    assert(x.skip(i) =~= pattern.subrange(0, m)) by {
                        assert forall|c: int| 0 <= c < m implies x[i + c] == pattern[c] by {
                            assert(pattern[c] == cut[c]);
                            if i + c >= n {
                                assert(cut[c] == t[i + c - n]);
                                assert(t[i + c - n] == rest[i + c - n]);
                            }
                        }
                    }
                    assert(bytes::starts(live_patterns()[k], x.skip(i)));
                    assert(x.skip(x.len() - m) =~= x.skip(i));
                }
            }
        }
    }
}

/// Whether one of the arrow keys up and down stands in typed bytes.
pub fn contains_up_down_input(bytes: &[u8]) -> (r: bool)
    ensures
        r == (bytes::occurs(bytes@, bytes::ascii("\x1b[A"@)) || bytes::occurs(
            bytes@,
            bytes::ascii("\x1b[B"@),
        ) || bytes::occurs(bytes@, bytes::ascii("\x1bOA"@)) || bytes::occurs(
            bytes@,
            bytes::ascii("\x1bOB"@),
        )),
{
    has(bytes, ascii_bytes("\x1b[A").as_slice()) || has(bytes, ascii_bytes("\x1b[B").as_slice())
        || has(bytes, ascii_bytes("\x1bOA").as_slice()) || has(
        bytes,
        ascii_bytes("\x1bOB").as_slice(),
    )
}

/// The starts of the reports of wheel and drag in the mouse mode with decimal numbers.
pub open spec fn wheel_or_drag_starts() -> Seq<Seq<u8>> {
    seq![
        bytes::ascii("\x1b[<64;"@),
        bytes::ascii("\x1b[<65;"@),
        bytes::ascii("\x1b[<32;"@),
        bytes::ascii("\x1b[<33;"@),
        bytes::ascii("\x1b[<34;"@),
        bytes::ascii("\x1b[<35;"@),
    ]
}

/// Whether a report of wheel or drag in the older mouse mode, of six bytes, stands at `at`.
pub open spec fn old_report_at(bytes: Seq<u8>, at: int) -> bool {
    &&& 0 <= at
    &&& at + 6 <= bytes.len()
    &&& bytes[at] == 0x1b && bytes[at + 1] == 0x5b && bytes[at + 2] == 0x4d
    &&& bytes[at + 3] == 96 || bytes[at + 3] == 97 || 64 <= bytes[at + 3] <= 67
}

/// Whether a report of the wheel or of a drag stands in typed bytes.
pub open spec fn has_wheel_or_drag(bytes: Seq<u8>) -> bool {
    has_any(bytes, wheel_or_drag_starts()) || exists|at: int| old_report_at(bytes, at)
}

/// Whether a report of the wheel or of a drag stands in typed bytes.
pub fn contains_mouse_scroll_or_drag(bytes: &[u8]) -> (r: bool)
    ensures
        r == has_wheel_or_drag(bytes@),
{
    let starts: Vec<Vec<u8>> = vec![
        ascii_bytes("\x1b[<64;"),
        ascii_bytes("\x1b[<65;"),
        ascii_bytes("\x1b[<32;"),
        ascii_bytes("\x1b[<33;"),
        ascii_bytes("\x1b[<34;"),
        ascii_bytes("\x1b[<35;"),
    ];
    assert(bytes::contents(starts@) =~= wheel_or_drag_starts());
    if holds_any(bytes, &starts) {
        return true;
    }
    let len: usize = bytes.len();
    let mut at: usize = 0;
    while at < len && len - at >= 6
        invariant
            at <= len,
            len == bytes@.len(),
            forall|j: int| 0 <= j < at ==> !old_report_at(bytes@, j),
        decreases len - at,
    {
        let code: u8 = bytes[at + 3];
        if bytes[at] == 0x1b && bytes[at + 1] == 0x5b && bytes[at + 2] == 0x4d && (code == 96
            || code == 97 || (64 <= code && code <= 67)) {
            assert(old_report_at(bytes@, at as int));
            return true;
        }
        at = at + 1;
    }
    false
}

/// Whether typed bytes move the screen so much that effects would be noise.
pub fn contains_noise_suppression_input(bytes: &[u8]) -> (r: bool)
    ensures
        r == suppresses_noise(bytes@),
{
    contains_up_down_input(bytes) || contains_mouse_scroll_or_drag(bytes)
}

/// Whether typed bytes move the screen so much that effects would be noise.
pub open spec fn suppresses_noise(bytes: Seq<u8>) -> bool {
    bytes::occurs(bytes, bytes::ascii("\x1b[A"@)) || bytes::occurs(
        bytes,
        bytes::ascii("\x1b[B"@),
    ) || bytes::occurs(bytes, bytes::ascii("\x1bOA"@)) || bytes::occurs(
        bytes,
        bytes::ascii("\x1bOB"@),
    ) || has_wheel_or_drag(bytes)
}

/// Whether such bytes were typed within the quiet time. Times are in nanoseconds.
pub fn mouse_activity_recent(elapsed: Option<u128>, quiet_window: u128) -> (r: bool)
    ensures
        r == (elapsed is Some && elapsed->0 <= quiet_window),
{
    match elapsed {
        Some(time) => time <= quiet_window,
        None => false,
    }
}

/// What turns all modes off that are passed on to the terminal.
pub fn reset_live_passthrough_sequences() -> (r: Vec<u8>)
    ensures
        r@ == bytes::ascii(
            "\x1b[?1000l\x1b[?1002l\x1b[?1003l\x1b[?1005l\x1b[?1006l\x1b[?1007l\x1b[?1015l\x1b[?1l\x1b>\x1b[?2004l"@,
        ),
{
    ascii_bytes(
        "\x1b[?1000l\x1b[?1002l\x1b[?1003l\x1b[?1005l\x1b[?1006l\x1b[?1007l\x1b[?1015l\x1b[?1l\x1b>\x1b[?2004l",
    )
}

/// What happens on the side of the user.
#[derive(Debug, PartialEq, Eq)]
pub enum InputEvent {
    /// Bytes were typed.
    Chunk(Vec<u8>),
    /// Nothing was typed for a while.
    Pause,
    /// Nothing will be typed any more.
    Closed,
}

/// What is done about it.
#[derive(Debug, PartialEq, Eq)]
pub struct InputStep {
    /// The bytes to send to the command.
    pub send: Vec<u8>,
    /// Whether to note the time, because the screen will move.
    pub note_activity: bool,
    /// Whether to stop.
    pub stop: bool,
}

/// Takes what happens on the side of the user, and says what to do. `watch` says whether it
/// matters that the screen will move.
pub fn forward_input(mapper: &mut KeyMapper, event: InputEvent, watch: bool) -> (r: InputStep)
    requires
        old(mapper).well_formed(),
    ensures
        final(mapper).well_formed(),
        final(mapper).map() == old(mapper).map(),
        match event {
            InputEvent::Chunk(chunk) => (final(mapper).pending(), r.send@) == keymap::pushed(
                old(mapper).map(),
                old(mapper).pending(),
                chunk@,
            ) && r.note_activity == (watch && suppresses_noise(chunk@)) && !r.stop,
            _ => final(mapper).pending() == Seq::<u8>::empty() && r.send@ == keymap::drained(
                old(mapper).map(),
                old(mapper).pending(),
                true,
            ).1 && !r.note_activity && r.stop == (event is Closed),
        },
{
    match event {
        InputEvent::Chunk(chunk) => {
            let note_activity: bool = watch && contains_noise_suppression_input(chunk.as_slice());
            let send: Vec<u8> = mapper.push_bytes(chunk.as_slice());
            InputStep { send, note_activity, stop: false }
        },
        InputEvent::Pause => {
            let send: Vec<u8> = mapper.flush_pending();
            InputStep { send, note_activity: false, stop: false }
        },
        InputEvent::Closed => {
            let send: Vec<u8> = mapper.flush_pending();
            InputStep { send, note_activity: false, stop: true }
        },
    }
}

} // verus!
