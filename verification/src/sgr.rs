//! Rewriting of the colour sequences (SGR) in terminal output.
use crate::bytes;
use crate::bytes::{append_all, ascii_bytes};
use crate::model::{Rgb, Theme};
use crate::text;
use crate::text::{push_decimal, push_signed};
use crate::theme::ThemeView;
use vstd::prelude::*;

verus! {

/// The sequence that sets the foreground or the background to a colour.
pub open spec fn color_code(fg: bool, rgb: Rgb) -> Seq<char> {
    let start = if fg {
        "\x1b[38;2;"@
    } else {
        "\x1b[48;2;"@
    };
    start + text::decimal(rgb.0 as nat) + ";"@ + text::decimal(rgb.1 as nat) + ";"@
        + text::decimal(rgb.2 as nat) + "m"@
}

/// The sequence with one parameter.
pub open spec fn plain_code(p: int) -> Seq<char> {
    "\x1b["@ + text::signed_decimal(p) + "m"@
}

/// The sequence that sets the foreground or the background to a colour.
pub fn sgr_rgb(fg: bool, rgb: Rgb) -> (r: String)
    ensures
        r@ == color_code(fg, rgb),
{
    let mut r: String = String::new();
    push_color(&mut r, fg, rgb);
    assert(r@ =~= color_code(fg, rgb));
    r
}

/// Appends the sequence that sets the foreground or the background to a colour.
pub fn push_color(out: &mut String, fg: bool, rgb: Rgb)
    ensures
        final(out)@ == old(out)@ + color_code(fg, rgb),
{
    if fg {
        out.append("\x1b[38;2;");
    } else {
        out.append("\x1b[48;2;");
    }
    push_decimal(out, rgb.0 as u128);
    out.append(";");
    push_decimal(out, rgb.1 as u128);
    out.append(";");
    push_decimal(out, rgb.2 as u128);
    out.append("m");
    assert(out@ =~= old(out)@ + color_code(fg, rgb));
}

/// The fields of a parameter list, which semicolons separate.
pub open spec fn fields(body: Seq<u8>) -> Seq<Seq<u8>>
    decreases body.len(),
{
    if body.len() == 0 {
        seq![Seq::empty()]
    } else {
        let before = fields(body.drop_last());
        if body.last() == 0x3b {
            before.push(Seq::empty())
        } else {
            before.drop_last().push(before.last().push(body.last()))
        }
    }
}

/// The number that a row of digits stands for.
pub open spec fn digits_value(digits: Seq<u8>) -> Option<int>
    decreases digits.len(),
{
    if digits.len() == 0 {
        Some(0)
    } else {
        match digits_value(digits.drop_last()) {
            Some(v) => if 0x30 <= digits.last() <= 0x39 {
                Some(10 * v + (digits.last() - 0x30))
            } else {
                None
            },
            None => None,
        }
    }
}

/// The 32-bit integer that a field stands for: digits, with a sign before them or not.
pub open spec fn integer(field: Seq<u8>) -> Option<int> {
    let negative = field.len() > 0 && field[0] == 0x2d;
    let digits = if negative || (field.len() > 0 && field[0] == 0x2b) {
        field.skip(1)
    } else {
        field
    };
    if digits.len() == 0 {
        None
    } else {
        match digits_value(digits) {
            Some(v) => {
                let signed = if negative {
                    -v
                } else {
                    v
                };
                if i32::MIN <= signed <= i32::MAX {
                    Some(signed)
                } else {
                    None
                }
            },
            None => None,
        }
    }
}

/// The parameter of a field: zero where it is empty, minus one where it is not an integer.
pub open spec fn parameter(field: Seq<u8>) -> int {
    if field.len() == 0 {
        0
    } else {
        match integer(field) {
            Some(v) => v,
            None => -1,
        }
    }
}

/// The parameters of a sequence.
pub open spec fn parameters(body: Seq<u8>) -> Seq<int> {
    fields(body).map_values(|field: Seq<u8>| parameter(field))
}

proof fn lemma_digits_grow(digits: Seq<u8>, n: int)
    requires
        0 <= n <= digits.len(),
        digits_value(digits) is Some,
    ensures
        digits_value(digits.take(n)) is Some,
        0 <= digits_value(digits.take(n))->0 <= digits_value(digits)->0,
    decreases digits.len() - n, digits.len(),
{
    if n < digits.len() {
        lemma_digits_grow(digits.drop_last(), n);
        assert(digits.drop_last().take(n) =~= digits.take(n));
        lemma_digits_nonnegative(digits.drop_last());
    } else {
        assert(digits.take(n) =~= digits);
        lemma_digits_nonnegative(digits);
    }
}

proof fn lemma_digits_nonnegative(digits: Seq<u8>)
    ensures
        digits_value(digits) is Some ==> digits_value(digits)->0 >= 0,
    decreases digits.len(),
{
    if digits.len() > 0 {
        lemma_digits_nonnegative(digits.drop_last());
    }
}

proof fn lemma_no_digit(digits: Seq<u8>, n: int)
    requires
        0 <= n < digits.len(),
        !(0x30 <= digits[n] <= 0x39),
    ensures
        digits_value(digits) is None,
{
    if digits_value(digits) is Some {
        lemma_digits_grow(digits, n + 1);
        assert(digits.take(n + 1).last() == digits[n]);
    }
}

/// Reads a 32-bit integer: digits, with a sign before them or not.
#[verifier::loop_isolation(false)]
pub fn parse_integer(field: &[u8]) -> (r: Option<i32>)
    ensures
        r is Some <==> integer(field@) is Some,
        r is Some ==> r->0 == integer(field@)->0,
{
    let negative: bool = field.len() > 0 && field[0] == 0x2d;
    let from: usize = if negative || (field.len() > 0 && field[0] == 0x2b) {
        1
    } else {
        0
    };
    let ghost digits = field@.skip(from as int);
    assert(from == 0 ==> digits =~= field@);
    if from == field.len() {
        return None;
    }
    let mut value: i64 = 0;
    let mut i: usize = from;
    assert(digits.take(0) =~= Seq::empty());
    while i < field.len()
        invariant
            from <= i <= field@.len(),
            digits == field@.skip(from as int),
            0 <= value <= 0x8000_0000,
            digits_value(digits.take(i - from)) == Some(value as int),
        decreases field@.len() - i,
    {
        let b: u8 = field[i];
        assert(digits[i - from] == b);
        assert(digits.take(i + 1 - from).drop_last() =~= digits.take(i - from));
        assert(digits.take(i + 1 - from).last() == b);
        if !(0x30 <= b && b <= 0x39) {
            proof {
                lemma_no_digit(digits, i - from);
            }
            return None;
        }
        value = value * 10 + (b - 0x30) as i64;
        i = i + 1;
        if value > 0x8000_0000 {
            proof {
                if digits_value(digits) is Some {
                    lemma_digits_grow(digits, i - from);
                }
            }
            return None;
        }
    }
    assert(digits.take(i - from) =~= digits);
    if negative {
        Some((-value) as i32)
    } else if value == 0x8000_0000 {
        None
    } else {
        Some(value as i32)
    }
}

fn parameter_of(field: &[u8]) -> (r: i32)
    ensures
        r == parameter(field@),
{
    if field.len() == 0 {
        return 0;
    }
    match parse_integer(field) {
        Some(v) => v,
        None => -1,
    }
}

spec fn ints(list: Seq<i32>) -> Seq<int> {
    list.map_values(|p: i32| p as int)
}

/// Reads the parameters of a sequence.
pub fn parse_parameters(body: &[u8]) -> (r: Vec<i32>)
    ensures
        r@.map_values(|p: i32| p as int) == parameters(body@),
{
    let mut done: Vec<i32> = Vec::new();
    let mut current: Vec<u8> = Vec::new();
    let mut i: usize = 0;
    assert(body@.take(0) =~= Seq::empty());
    assert(ints(done@) =~= parameters(body@.take(0)).drop_last());
    assert(current@ =~= fields(body@.take(0)).last());
    while i < body.len()
        invariant
            i <= body@.len(),
            fields(body@.take(i as int)).len() >= 1,
            ints(done@) == parameters(body@.take(i as int)).drop_last(),
            current@ == fields(body@.take(i as int)).last(),
        decreases body@.len() - i,
    {
        let ghost before = fields(body@.take(i as int));
        assert(body@.take(i + 1).drop_last() =~= body@.take(i as int));
        assert(body@.take(i + 1).last() == body@[i as int]);
        let ghost next = body@.take(i + 1);
        let ghost prior = parameters(body@.take(i as int));
        if body[i] == 0x3b {
            let ghost earlier = done@;
            let value: i32 = parameter_of(current.as_slice());
            done.push(value);
            current = Vec::new();
            assert(ints(done@) =~= ints(earlier).push(value as int));
            assert(prior.last() == parameter(before.last()));
            assert(prior =~= prior.drop_last().push(prior.last()));
            assert(parameters(next).drop_last() =~= prior);
        } else {
            current.push(body[i]);
            assert(ints(done@) =~= parameters(next).drop_last());
        }
        i = i + 1;
    }
    assert(body@.take(body@.len() as int) =~= body@);
    let ghost earlier = done@;
    let ghost all = parameters(body@);
    let value: i32 = parameter_of(current.as_slice());
    done.push(value);
    assert(ints(done@) =~= ints(earlier).push(value as int));
    assert(all.last() == parameter(fields(body@).last()));
    assert(all =~= all.drop_last().push(all.last()));
    done
}

/// A parameter held between 0 and 255.
pub open spec fn held(p: int) -> u8 {
    if p < 0 {
        0
    } else if p > 255 {
        255
    } else {
        p as u8
    }
}

fn hold(p: i32) -> (r: u8)
    ensures
        r == held(p as int),
{
    if p < 0 {
        0
    } else if p > 255 {
        255
    } else {
        p as u8
    }
}

/// The index of a basic colour that a parameter selects, counted from the parameter `base` for
/// the dark eight and `base + 60` for the bright eight.
pub open spec fn basic_index(p: int, base: int) -> Option<u8> {
    if base <= p <= base + 7 {
        Some((p - base) as u8)
    } else if base + 60 <= p <= base + 67 {
        Some((p - base - 60 + 8) as u8)
    } else {
        None
    }
}

/// The number of parameters, from index `i` on, that say one thing together.
pub open spec fn group_length(ps: Seq<int>, i: int) -> int {
    if ps[i] != 38 && ps[i] != 48 {
        1
    } else if i + 2 < ps.len() && ps[i + 1] == 5 {
        3
    } else if i + 4 < ps.len() && ps[i + 1] == 2 {
        5
    } else {
        1
    }
}

/// What replaces the parameters from index `i` on that say one thing together.
pub open spec fn group_code(theme: ThemeView, ps: Seq<int>, i: int) -> Seq<char> {
    let p = ps[i];
    if p == 0 {
        if theme.force_default {
            "\x1b[0m"@ + color_code(true, theme.fg()) + color_code(false, theme.bg())
        } else {
            "\x1b[0m"@
        }
    } else if basic_index(p, 30) is Some {
        color_code(true, theme.recolored_index(basic_index(p, 30)->0, true))
    } else if basic_index(p, 40) is Some {
        color_code(false, theme.recolored_index(basic_index(p, 40)->0, false))
    } else if p == 39 {
        color_code(true, theme.fg())
    } else if p == 49 {
        color_code(false, theme.bg())
    } else if group_length(ps, i) == 3 {
        color_code(p == 38, theme.recolored_index(held(ps[i + 2]), p == 38))
    } else if group_length(ps, i) == 5 {
        color_code(
            p == 38,
            theme.recolored(Rgb(held(ps[i + 2]), held(ps[i + 3]), held(ps[i + 4])), p == 38),
        )
    } else {
        plain_code(p)
    }
}

/// What replaces the parameters from index `i` on.
pub open spec fn codes(theme: ThemeView, ps: Seq<int>, i: int) -> Seq<char>
    decreases ps.len() - i,
{
    if i >= ps.len() || i < 0 {
        Seq::empty()
    } else {
        group_code(theme, ps, i) + codes(theme, ps, i + group_length(ps, i))
    }
}

fn basic_index_of(p: i32, base: i32) -> (r: Option<u8>)
    requires
        0 <= base <= 100,
    ensures
        r == basic_index(p as int, base as int),
{
    if base <= p && p <= base + 7 {
        Some((p - base) as u8)
    } else if base + 60 <= p && p <= base + 67 {
        Some((p - base - 60 + 8) as u8)
    } else {
        None
    }
}

/// Writes what replaces the parameters from index `i` on that say one thing together, and
/// returns their number.
fn push_group(theme: &Theme, ps: &Vec<i32>, i: usize, out: &mut String) -> (r: usize)
    requires
        theme@.usable(),
        i < ps@.len(),
    ensures
        final(out)@ == old(out)@ + group_code(theme@, ints(ps@), i as int),
        r == group_length(ints(ps@), i as int),
        i + r <= ps@.len(),
{
    let p: i32 = ps[i];
    let ghost all = ints(ps@);
    let len: usize = ps.len();
    assert(all[i as int] == p);
    if p == 0 {
        out.append("\x1b[0m");
        if theme.force_default {
            push_color(out, true, theme.default_fg_rgb());
            push_color(out, false, theme.default_bg_rgb());
        }
        assert(out@ =~= old(out)@ + group_code(theme@, all, i as int));
        return 1;
    }
    if let Some(idx) = basic_index_of(p, 30) {
        push_color(out, true, theme.map_indexed_color(idx, true));
        return 1;
    }
    if let Some(idx) = basic_index_of(p, 40) {
        push_color(out, false, theme.map_indexed_color(idx, false));
        return 1;
    }
    if p == 39 {
        push_color(out, true, theme.default_fg_rgb());
        return 1;
    }
    if p == 49 {
        push_color(out, false, theme.default_bg_rgb());
        return 1;
    }
    if p == 38 || p == 48 {
        let fg: bool = p == 38;
        if len - i > 2 && ps[i + 1] == 5 {
            assert(all[i + 1] == ps@[i + 1]);
            assert(all[i + 2] == ps@[i + 2]);
            push_color(out, fg, theme.map_indexed_color(hold(ps[i + 2]), fg));
            return 3;
        }
        if len - i > 4 && ps[i + 1] == 2 {
            assert(all[i + 1] == ps@[i + 1]);
            assert(all[i + 2] == ps@[i + 2]);
            assert(all[i + 3] == ps@[i + 3]);
            assert(all[i + 4] == ps@[i + 4]);
            let original: Rgb = Rgb(hold(ps[i + 2]), hold(ps[i + 3]), hold(ps[i + 4]));
            push_color(out, fg, theme.map_rgb(original, fg));
            return 5;
        }
        proof {
            if i + 1 < len {
                assert(all[i + 1] == ps@[i + 1]);
            }
        }
    }
    out.append("\x1b[");
    push_signed(out, p);
    out.append("m");
    assert(out@ =~= old(out)@ + group_code(theme@, all, i as int));
    1
}

/// What replaces a colour sequence with this parameter list.
pub fn rewrite_sgr(theme: &Theme, body: &[u8]) -> (r: Vec<u8>)
    requires
        theme@.usable(),
    ensures
        r@ == bytes::ascii(codes(theme@, parameters(body@), 0)),
{
    let ps: Vec<i32> = parse_parameters(body);
    let ghost all = ints(ps@);
    let mut out: String = String::new();
    let mut i: usize = 0;
    assert(out@ + codes(theme@, all, 0) =~= codes(theme@, all, 0));
    while i < ps.len()
        invariant
            i <= ps@.len(),
            theme@.usable(),
            all == ints(ps@),
            out@ + codes(theme@, all, i as int) == codes(theme@, all, 0),
        decreases ps@.len() - i,
    {
        let ghost before = out@;
        let n: usize = push_group(theme, &ps, i, &mut out);
        assert(before + (group_code(theme@, all, i as int) + codes(theme@, all, i + n)) =~= out@
            + codes(theme@, all, i + n));
        i = i + n;
    }
    assert(out@ =~= codes(theme@, all, 0));
    ascii_bytes(out.as_str())
}

/// What becomes of one more byte, after the bytes of a sequence that is not complete: the bytes
/// that are then held back, and those that are put out.
pub open spec fn step(theme: ThemeView, pending: Seq<u8>, byte: u8) -> (Seq<u8>, Seq<u8>) {
    let longer = pending.push(byte);
    if pending.len() == 0 {
        if byte == 0x1b {
            (longer, Seq::empty())
        } else {
            (Seq::empty(), longer)
        }
    } else if pending.len() == 1 {
        if byte == 0x5b {
            (longer, Seq::empty())
        } else {
            (Seq::empty(), longer)
        }
    } else if 0x40 <= byte <= 0x7e {
        if byte == 0x6d {
            (
                Seq::empty(),
                bytes::ascii(codes(theme, parameters(pending.skip(2)), 0)),
            )
        } else {
            (Seq::empty(), longer)
        }
    } else {
        (longer, Seq::empty())
    }
}

/// What becomes of some bytes, after the bytes of a sequence that is not complete.
pub open spec fn rewritten(theme: ThemeView, pending: Seq<u8>, input: Seq<u8>) -> (
    Seq<u8>,
    Seq<u8>,
)
    decreases input.len(),
{
    if input.len() == 0 {
        (pending, Seq::empty())
    } else {
        let before = rewritten(theme, pending, input.drop_last());
        let last = step(theme, before.0, input.last());
        (last.0, before.1 + last.1)
    }
}

/// Rewrites colour sequences in a stream that arrives in chunks.
pub struct SgrRewriter {
    theme: Theme,
    pending: Vec<u8>,
}

impl SgrRewriter {
    /// The theme of the rewriter.
    pub closed spec fn theme(self) -> ThemeView {
        self.theme@
    }

    /// The bytes of a sequence that is not complete.
    pub closed spec fn pending(self) -> Seq<u8> {
        self.pending@
    }

    /// A rewriter at the start of a stream.
    pub fn new(theme: Theme) -> (r: SgrRewriter)
        ensures
            r.theme() == theme@,
            r.pending() == Seq::<u8>::empty(),
    {
        let r: SgrRewriter = SgrRewriter { theme, pending: Vec::new() };
        assert(r.pending() =~= Seq::<u8>::empty());
        r
    }

    /// The theme of the rewriter.
    pub fn theme_ref(&self) -> (r: &Theme)
        ensures
            r@ == self.theme(),
    {
        &self.theme
    }

    /// Takes the next chunk of the stream and returns what is put out for it.
    pub fn feed(&mut self, input: &[u8]) -> (r: Vec<u8>)
        requires
            old(self).theme().usable(),
        ensures
            final(self).theme() == old(self).theme(),
            (final(self).pending(), r@) == rewritten(
                old(self).theme(),
                old(self).pending(),
                input@,
            ),
    {
        let mut out: Vec<u8> = Vec::new();
        let mut i: usize = 0;
        assert(input@.take(0) =~= Seq::empty());
        assert(out@ =~= Seq::empty());
        while i < input.len()
            invariant
                i <= input@.len(),
                self.theme() == old(self).theme(),
                self.theme().usable(),
                (self.pending(), out@) == rewritten(
                    old(self).theme(),
                    old(self).pending(),
                    input@.take(i as int),
                ),
            decreases input@.len() - i,
        {
            let ghost held_back = self.pending();
            let ghost sent = out@;
            let ghost next = input@.take(i + 1);
            assert(next.drop_last() =~= input@.take(i as int));
            assert(next.last() == input@[i as int]);
            let byte: u8 = input[i];
            let count: usize = self.pending.len();
            if count == 0 {
                if byte == 0x1b {
                    self.pending.push(byte);
                } else {
                    out.push(byte);
                    assert(self.pending() =~= Seq::empty());
                    assert(out@ =~= sent + held_back.push(byte));
                }
            } else if count == 1 {
                self.pending.push(byte);
                if byte != 0x5b {
                    append_all(&mut out, self.pending.as_slice());
                    self.pending = Vec::new();
                    assert(self.pending() =~= Seq::empty());
                }
            } else if 0x40 <= byte && byte <= 0x7e {
                if byte == 0x6d {
                    let body: Vec<u8> = bytes::part(self.pending.as_slice(), 2, count);
                    assert(body@ =~= held_back.skip(2));
                    let code: Vec<u8> = rewrite_sgr(&self.theme, body.as_slice());
                    append_all(&mut out, code.as_slice());
                } else {
                    self.pending.push(byte);
                    append_all(&mut out, self.pending.as_slice());
                }
                self.pending = Vec::new();
                assert(self.pending() =~= Seq::empty());
            } else {
                self.pending.push(byte);
            }
            let ghost now = step(self.theme(), held_back, byte);
            assert(self.pending() =~= now.0);
            assert(out@ =~= sent + now.1);
            i = i + 1;
        }
        assert(input@.take(input@.len() as int) =~= input@);
        out
    }
}

/// However a stream is cut into chunks, the same is put out.
pub proof fn law_chunks_do_not_matter(
    theme: ThemeView,
    pending: Seq<u8>,
    first: Seq<u8>,
    second: Seq<u8>,
)
    ensures
        ({
            let one = rewritten(theme, pending, first);
            let two = rewritten(theme, one.0, second);
            rewritten(theme, pending, first + second) == (two.0, one.1 + two.1)
        }),
    decreases second.len(),
{
    let one = rewritten(theme, pending, first);
    if second.len() == 0 {
        assert(first + second =~= first);
        assert(one.1 + Seq::<u8>::empty() =~= one.1);
    } else {
        law_chunks_do_not_matter(theme, pending, first, second.drop_last());
        assert((first + second).drop_last() =~= first + second.drop_last());
        let two = rewritten(theme, one.0, second.drop_last());
        let last = step(theme, two.0, second.last());
        assert((one.1 + two.1) + last.1 =~= one.1 + (two.1 + last.1));
    }
}

/// Bytes without an escape pass through as they are.
pub proof fn law_plain_bytes_pass(theme: ThemeView, input: Seq<u8>)
    requires
        !input.contains(0x1b),
    ensures
        rewritten(theme, Seq::empty(), input) == (Seq::<u8>::empty(), input),
    decreases input.len(),
{
    if input.len() > 0 {
        let front = input.drop_last();
        assert forall|b: u8| front.contains(b) implies input.contains(b) by {
            let i = choose|i: int| 0 <= i < front.len() && front[i] == b;
            assert(input[i] == b);
        }
        law_plain_bytes_pass(theme, front);
        assert(input[input.len() - 1] == input.last());
        assert(Seq::<u8>::empty().push(input.last()) =~= seq![input.last()]);
        assert(front + Seq::<u8>::empty().push(input.last()) =~= input);
    }
}

/// A complete sequence that does not set colours passes through as it is.
pub proof fn law_other_sequences_pass(theme: ThemeView, body: Seq<u8>, end: u8)
    requires
        forall|i: int| 0 <= i < body.len() ==> !(0x40 <= #[trigger] body[i] <= 0x7e),
        0x40 <= end <= 0x7e,
        end != 0x6d,
    ensures
        ({
            let sequence = seq![0x1bu8, 0x5bu8] + body + seq![end];
            rewritten(theme, Seq::empty(), sequence) == (Seq::<u8>::empty(), sequence)
        }),
{
    let start = seq![0x1bu8, 0x5bu8];
    let sequence = start + body + seq![end];
    lemma_held_back(theme, body);
    assert(sequence.drop_last() =~= start + body);
    assert((start + body).push(end) =~= sequence);
    assert(Seq::<u8>::empty() + sequence =~= sequence);
}

/// A colour sequence is replaced by the codes of its parameters.
pub proof fn law_color_sequences_are_replaced(theme: ThemeView, body: Seq<u8>)
    requires
        forall|i: int| 0 <= i < body.len() ==> !(0x40 <= #[trigger] body[i] <= 0x7e),
    ensures
        rewritten(theme, Seq::empty(), seq![0x1bu8, 0x5bu8] + body + seq![0x6du8]) == (
            Seq::<u8>::empty(),
            bytes::ascii(codes(theme, parameters(body), 0)),
        ),
{
    let start = seq![0x1bu8, 0x5bu8];
    let sequence = start + body + seq![0x6du8];
    lemma_held_back(theme, body);
    assert(sequence.drop_last() =~= start + body);
    assert((start + body).skip(2) =~= body);
    let code = bytes::ascii(codes(theme, parameters(body), 0));
    assert(Seq::<u8>::empty() + code =~= code);
}

proof fn lemma_held_back(theme: ThemeView, body: Seq<u8>)
    requires
        forall|i: int| 0 <= i < body.len() ==> !(0x40 <= #[trigger] body[i] <= 0x7e),
    ensures
        rewritten(theme, Seq::empty(), seq![0x1bu8, 0x5bu8] + body) == (
            seq![0x1bu8, 0x5bu8] + body,
            Seq::<u8>::empty(),
        ),
    decreases body.len(),
{
    let start = seq![0x1bu8, 0x5bu8];
    if body.len() == 0 {
        let escape = seq![0x1bu8];
        assert(escape.drop_last() =~= Seq::empty());
        assert(Seq::<u8>::empty().push(0x1b) =~= escape);
        assert(Seq::<u8>::empty() + Seq::<u8>::empty() =~= Seq::<u8>::empty());
        assert(rewritten(theme, Seq::empty(), Seq::empty()) == (
            Seq::<u8>::empty(),
            Seq::<u8>::empty(),
        ));
        assert(rewritten(theme, Seq::empty(), escape) == (escape, Seq::<u8>::empty()));
        assert(start.drop_last() =~= escape);
        assert(escape.push(0x5b) =~= start);
        assert(start + body =~= start);
    } else {
        let front = body.drop_last();
        assert forall|i: int| 0 <= i < front.len() implies !(0x40 <= #[trigger] front[i]
            <= 0x7e) by {
            assert(front[i] == body[i]);
        }
        lemma_held_back(theme, front);
        assert((start + body).drop_last() =~= start + front);
        assert((start + front).push(body.last()) =~= start + body);
        assert(body[body.len() - 1] == body.last());
        assert(Seq::<u8>::empty() + Seq::<u8>::empty() =~= Seq::<u8>::empty());
    }
}

} // verus!
