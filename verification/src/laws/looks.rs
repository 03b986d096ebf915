//! How looks are set on a terminal, and how colour sequences are replaced.
use crate::bytes;
use crate::draw;
use crate::draw::RenderStyle;
use crate::laws::texts;
use crate::model::Rgb;
use crate::screen::{Cell, DisplayColor};
use crate::sgr;
use crate::text;
use crate::theme::ThemeView;
use vstd::prelude::*;

verus! {

/// Some numbers in decimal, with semicolons between them.
pub open spec fn listed(ps: Seq<nat>) -> Seq<char>
    decreases ps.len(),
{
    if ps.len() == 0 {
        Seq::empty()
    } else if ps.len() == 1 {
        text::decimal(ps[0])
    } else {
        listed(ps.drop_last()).push(';') + text::decimal(ps.last())
    }
}

/// The sequence that sets looks, with some parameters.
pub open spec fn sequence(ps: Seq<nat>) -> Seq<char> {
    seq!['\u{1b}', '['] + listed(ps) + seq!['m']
}

proof fn lemma_listed_no_end(ps: Seq<nat>)
    ensures
        forall|i: int|
            0 <= i < listed(ps).len() ==> #[trigger] listed(ps)[i] == ';' || '0' <= listed(ps)[i]
                <= '9',
    decreases ps.len(),
{
    if ps.len() > 0 {
        texts::law_decimal_is_digits(ps.last());
        if ps.len() > 1 {
            lemma_listed_no_end(ps.drop_last());
            let front = listed(ps.drop_last());
            assert forall|i: int| 0 <= i < listed(ps).len() implies #[trigger] listed(ps)[i] == ';'
                || '0' <= listed(ps)[i] <= '9' by {
                if i < front.len() {
                    assert(listed(ps)[i] == front[i]);
                } else if i > front.len() {
                    assert(listed(ps)[i] == text::decimal(ps.last())[i - front.len() - 1]);
                }
            }
        }
    }
}

/// A list of parameters holds no byte that ends a sequence.
pub proof fn lemma_listed_bytes(ps: Seq<nat>)
    ensures
        forall|i: int|
            0 <= i < bytes::ascii(listed(ps)).len() ==> !(0x40 <= #[trigger] bytes::ascii(
                listed(ps),
            )[i] <= 0x7e),
{
    lemma_listed_no_end(ps);
    assert forall|i: int| 0 <= i < bytes::ascii(listed(ps)).len() implies !(0x40
        <= #[trigger] bytes::ascii(listed(ps))[i] <= 0x7e) by {
        assert(bytes::ascii(listed(ps))[i] == listed(ps)[i] as u8);
    }
}

proof fn lemma_field(front: Seq<u8>, field: Seq<u8>)
    requires
        !field.contains(0x3b),
    ensures
        sgr::fields(field) == seq![field],
        sgr::fields(front.push(0x3b) + field) == sgr::fields(front).push(field),
    decreases field.len(),
{
    let whole = front.push(0x3b) + field;
    if field.len() == 0 {
        assert(whole =~= front.push(0x3b));
        assert(whole.drop_last() =~= front);
        assert(field =~= Seq::empty());
        assert(sgr::fields(field) =~= seq![field]);
    } else {
        let shorter = field.drop_last();
        assert(field.contains(field.last()));
        assert(!shorter.contains(0x3b)) by {
            if shorter.contains(0x3b) {
                let i = choose|i: int| 0 <= i < shorter.len() && shorter[i] == 0x3b;
                assert(field[i] == 0x3b);
            }
        }
        lemma_field(front, shorter);
        assert(whole.drop_last() =~= front.push(0x3b) + shorter);
        assert(shorter.push(field.last()) =~= field);
        assert(seq![shorter].drop_last().push(field) =~= seq![field]);
        let before = sgr::fields(front).push(shorter);
        assert(before.drop_last().push(before.last().push(field.last())) =~= sgr::fields(
            front,
        ).push(field));
    }
}

proof fn lemma_number_field(n: nat)
    ensures
        !bytes::ascii(text::decimal(n)).contains(0x3b),
{
    texts::law_decimal_is_digits(n);
    let field = bytes::ascii(text::decimal(n));
    if field.contains(0x3b) {
        let i = choose|i: int| 0 <= i < field.len() && field[i] == 0x3b;
        assert('0' <= text::decimal(n)[i] <= '9');
        assert(field[i] == text::decimal(n)[i] as u8);
    }
}

/// The parameters of a list are read as they are written.
pub proof fn law_parameters_are_read_back(ps: Seq<nat>)
    requires
        ps.len() > 0,
        forall|i: int| 0 <= i < ps.len() ==> #[trigger] ps[i] <= 0x7fff_ffff,
    ensures
        sgr::parameters(bytes::ascii(listed(ps))) == ps.map_values(|p: nat| p as int),
    decreases ps.len(),
{
    let last = bytes::ascii(text::decimal(ps.last()));
    lemma_number_field(ps.last());
    texts::law_decimals_are_read_back(ps.last());
    let goal = ps.map_values(|p: nat| p as int);
    if ps.len() == 1 {
        lemma_field(Seq::empty(), last);
        assert(sgr::parameters(bytes::ascii(listed(ps))) =~= goal);
    } else {
        let front = ps.drop_last();
        law_parameters_are_read_back(front);
        let start = bytes::ascii(listed(front));
        lemma_field(start, last);
        assert(bytes::ascii(listed(ps)) =~= start.push(0x3b) + last);
        let fields = sgr::fields(start);
        assert(sgr::parameters(start).len() == fields.len());
        assert(fields.len() == front.len());
        assert forall|i: int| 0 <= i < front.len() implies #[trigger] sgr::parameter(fields[i])
            == front[i] by {
            assert(sgr::parameters(start)[i] == front.map_values(|p: nat| p as int)[i]);
        }
        assert(sgr::parameters(bytes::ascii(listed(ps))) =~= goal);
    }
}

/// Parameters that are left out are zero, and what is no number is minus one.
pub proof fn law_missing_parameters(body: Seq<u8>)
    ensures
        sgr::parameters(Seq::empty()) == seq![0int],
        sgr::parameters(body.push(0x3b)) == sgr::parameters(body).push(0),
        sgr::parameters(body.push(0x3b).push(0x41)) == sgr::parameters(body).push(-1),
{
    let none = Seq::<u8>::empty();
    lemma_field(body, none);
    assert(body.push(0x3b) + none =~= body.push(0x3b));
    assert(sgr::parameters(none) =~= seq![0int]);
    assert(sgr::parameters(body.push(0x3b)) =~= sgr::parameters(body).push(0));
    let word = seq![0x41u8];
    assert(!word.contains(0x3b));
    lemma_field(body, word);
    assert(body.push(0x3b) + word =~= body.push(0x3b).push(0x41));
    assert(word.drop_last() =~= none);
    assert(sgr::digits_value(none) == Some(0int));
    assert(sgr::parameter(word) == -1);
    assert(sgr::parameters(body.push(0x3b).push(0x41)) =~= sgr::parameters(body).push(-1));
}

proof fn lemma_digits(n: nat)
    requires
        n < 1000,
    ensures
        n < 10 ==> text::decimal(n) == seq![(0x30 + n) as char],
        10 <= n < 100 ==> text::decimal(n) == seq![(0x30 + n / 10) as char, (0x30 + n % 10) as char],
        n >= 100 ==> text::decimal(n) == seq![
            (0x30 + n / 100) as char,
            (0x30 + (n / 10) % 10) as char,
            (0x30 + n % 10) as char,
        ],
{
    texts::law_decimal_digits(n / 10, n % 10);
    texts::law_decimal_digits(n / 100, (n / 10) % 10);
    texts::law_decimal_digits(0, n / 100);
    assert(n == 10 * (n / 10) + n % 10);
    assert(n / 10 == 10 * (n / 100) + (n / 10) % 10);
    texts::law_decimal_digits(0, (n / 10) % 10);
    if n >= 100 {
        assert(text::decimal(n) =~= seq![
            (0x30 + n / 100) as char,
            (0x30 + (n / 10) % 10) as char,
            (0x30 + n % 10) as char,
        ]);
    } else if n >= 10 {
        assert(text::decimal(n) =~= seq![(0x30 + n / 10) as char, (0x30 + n % 10) as char]);
    }
}

/// The parameters that set the foreground or the background to a colour.
pub open spec fn setting(fg: bool, color: DisplayColor) -> Seq<nat> {
    let shift: nat = if fg {
        0
    } else {
        10
    };
    match color {
        DisplayColor::Default => seq![39 + shift],
        DisplayColor::Indexed(idx) => if idx < 8 {
            seq![(30 + shift + idx) as nat]
        } else if idx < 16 {
            seq![(90 + shift + (idx - 8)) as nat]
        } else {
            seq![38 + shift, 5, idx as nat]
        },
        DisplayColor::Rgb(rgb) => seq![
            38 + shift,
            2,
            rgb.0 as nat,
            rgb.1 as nat,
            rgb.2 as nat,
        ],
    }
}

proof fn lemma_listed_more(ps: Seq<nat>, p: nat)
    requires
        ps.len() > 0,
    ensures
        listed(ps.push(p)) == listed(ps).push(';') + text::decimal(p),
{
    assert(ps.push(p).drop_last() =~= ps);
}

/// The sequence for a true colour has the parameters 38 or 48, 2, and the red, green and blue
/// parts of the colour.
pub proof fn law_true_colors(fg: bool, rgb: Rgb)
    ensures
        sgr::color_code(fg, rgb) == sequence(setting(fg, DisplayColor::Rgb(rgb))),
{
    reveal_strlit("\x1b[38;2;");
    reveal_strlit("\x1b[48;2;");
    reveal_strlit(";");
    reveal_strlit("m");
    lemma_digits(38);
    lemma_digits(48);
    lemma_digits(2);
    let first: nat = if fg {
        38
    } else {
        48
    };
    let one = seq![first];
    let two = one.push(2);
    let three = two.push(rgb.0 as nat);
    let four = three.push(rgb.1 as nat);
    let five = four.push(rgb.2 as nat);
    lemma_listed_more(one, 2);
    lemma_listed_more(two, rgb.0 as nat);
    lemma_listed_more(three, rgb.1 as nat);
    lemma_listed_more(four, rgb.2 as nat);
    assert(five =~= setting(fg, DisplayColor::Rgb(rgb)));
    let start = if fg {
        "\x1b[38;2;"@
    } else {
        "\x1b[48;2;"@
    };
    assert(start =~= seq!['\u{1b}', '['] + listed(two).push(';'));
    assert(";"@ =~= seq![';']);
    assert("m"@ =~= seq!['m']);
    lemma_three_parts(
        listed(two),
        text::decimal(rgb.0 as nat),
        text::decimal(rgb.1 as nat),
        text::decimal(rgb.2 as nat),
    );
}

proof fn lemma_three_parts(l: Seq<char>, a: Seq<char>, b: Seq<char>, c: Seq<char>)
    ensures
        seq!['\u{1b}', '['] + l.push(';') + a + seq![';'] + b + seq![';'] + c + seq!['m'] == seq![
            '\u{1b}',
            '[',
        ] + ((((l.push(';') + a).push(';')) + b).push(';') + c) + seq!['m'],
{
    assert(seq!['\u{1b}', '['] + l.push(';') + a + seq![';'] + b + seq![';'] + c + seq!['m'] =~= seq![
        '\u{1b}',
        '[',
    ] + ((((l.push(';') + a).push(';')) + b).push(';') + c) + seq!['m']);
}

/// The sequence for a colour of a cell: 39 and 49 for the terminal's own, 30 to 37, 90 to 97 and
/// ten more for the basic ones, 38 or 48 and 5 for the other indexes, and true colours.
pub proof fn law_display_codes(fg: bool, color: DisplayColor)
    ensures
        draw::display_code(fg, color) == sequence(setting(fg, color)),
{
    match color {
        DisplayColor::Default => {
            reveal_strlit("\x1b[39m");
            reveal_strlit("\x1b[49m");
            lemma_digits(39);
            lemma_digits(49);
            assert(draw::display_code(fg, color) =~= sequence(setting(fg, color)));
        },
        DisplayColor::Indexed(idx) => {
            reveal_strlit("\x1b[");
            reveal_strlit("m");
            if idx < 16 {
                assert(setting(fg, color) =~= seq![draw::basic_parameter(fg, idx) as nat]);
                assert(draw::display_code(fg, color) =~= sequence(setting(fg, color)));
            } else {
                reveal_strlit("\x1b[38;5;");
                reveal_strlit("\x1b[48;5;");
                lemma_digits(38);
                lemma_digits(48);
                lemma_digits(5);
                let first: nat = if fg {
                    38
                } else {
                    48
                };
                lemma_listed_more(seq![first], 5);
                lemma_listed_more(seq![first].push(5), idx as nat);
                assert(seq![first].push(5).push(idx as nat) =~= setting(fg, color));
                assert(draw::display_code(fg, color) =~= sequence(setting(fg, color)));
            }
        },
        DisplayColor::Rgb(rgb) => {
            law_true_colors(fg, rgb);
        },
    }
}

/// A look is set from scratch: a reset, the two colours, and a sequence for each attribute.
pub proof fn law_look_codes(style: RenderStyle)
    ensures
        draw::style_code(style) == sequence(seq![0]) + sequence(setting(true, style.fg)) + sequence(
            setting(false, style.bg),
        ) + (if style.bold {
            sequence(seq![1])
        } else {
            Seq::empty()
        }) + (if style.dim {
            sequence(seq![2])
        } else {
            Seq::empty()
        }) + (if style.italic {
            sequence(seq![3])
        } else {
            Seq::empty()
        }) + (if style.underline {
            sequence(seq![4])
        } else {
            Seq::empty()
        }),
{
    reveal(draw::style_code);
    reveal_strlit("\x1b[0m");
    reveal_strlit("\x1b[1m");
    reveal_strlit("\x1b[2m");
    reveal_strlit("\x1b[3m");
    reveal_strlit("\x1b[4m");
    lemma_digits(0);
    lemma_digits(1);
    lemma_digits(2);
    lemma_digits(3);
    lemma_digits(4);
    law_display_codes(true, style.fg);
    law_display_codes(false, style.bg);
    assert("\x1b[0m"@ =~= sequence(seq![0]));
    assert("\x1b[1m"@ =~= sequence(seq![1]));
    assert("\x1b[2m"@ =~= sequence(seq![2]));
    assert("\x1b[3m"@ =~= sequence(seq![3]));
    assert("\x1b[4m"@ =~= sequence(seq![4]));
}

/// Two sequences that texts start with, up to the first `m`, are the same where the texts are.
proof fn lemma_same_start(a: Seq<nat>, b: Seq<nat>, x: Seq<char>, y: Seq<char>)
    requires
        sequence(a) + x == sequence(b) + y,
    ensures
        listed(a) == listed(b),
        x == y,
{
    lemma_listed_no_end(a);
    lemma_listed_no_end(b);
    let one = sequence(a) + x;
    let other = sequence(b) + y;
    let m = listed(a).len() as int;
    let n = listed(b).len() as int;
    assert(one[m + 2] == 'm');
    assert(other[n + 2] == 'm');
    if m < n {
        assert(other[m + 2] == listed(b)[m]);
    } else if n < m {
        assert(one[n + 2] == listed(a)[n]);
    }
    assert forall|i: int| 0 <= i < m implies listed(a)[i] == listed(b)[i] by {
        assert(one[i + 2] == listed(a)[i]);
        assert(other[i + 2] == listed(b)[i]);
    }
    assert(listed(a) =~= listed(b));
    assert(x =~= one.skip(m + 3));
    assert(y =~= other.skip(n + 3));
}

proof fn lemma_settings_differ(fg: bool, a: DisplayColor, b: DisplayColor)
    requires
        listed(setting(fg, a)) == listed(setting(fg, b)),
    ensures
        a == b,
{
    law_parameters_are_read_back(setting(fg, a));
    law_parameters_are_read_back(setting(fg, b));
    let x = setting(fg, a);
    let y = setting(fg, b);
    let p = x.map_values(|p: nat| p as int);
    let q = y.map_values(|p: nat| p as int);
    assert(p == q);
    assert(x.len() == y.len());
    assert forall|i: int| 0 <= i < x.len() implies x[i] == y[i] by {
        assert(p[i] == x[i] as int && q[i] == y[i] as int);
    }
    assert(x[0] == y[0]);
    if x.len() == 3 {
        assert(x[2] == y[2]);
    }
    if x.len() == 5 {
        assert(x[2] == y[2] && x[3] == y[3] && x[4] == y[4]);
    }
}

/// A cell shows in its own two colours, and an inverse cell with the two exchanged. Its other
/// attributes stay.
pub proof fn law_inverse_cells(cell: Cell)
    ensures
        ({
            let style = draw::style_of(cell);
            &&& cell.inverse ==> style.fg == cell.bg && style.bg == cell.fg
            &&& !cell.inverse ==> style.fg == cell.fg && style.bg == cell.bg
            &&& style.bold == cell.bold
            &&& style.dim == cell.dim
            &&& style.italic == cell.italic
            &&& style.underline == cell.underline
        }),
{
}

/// Two cells that differ only in whether they are inverse show each other's colours, and the codes
/// that are written for them differ where the colours do.
pub proof fn law_inverse_shows(cell: Cell)
    ensures
        ({
            let one = draw::style_of(Cell { inverse: true, ..cell });
            let other = draw::style_of(Cell { inverse: false, ..cell });
            &&& one.fg == other.bg && one.bg == other.fg
            &&& cell.fg != cell.bg ==> draw::style_code(one) != draw::style_code(other)
        }),
{
    let one = draw::style_of(Cell { inverse: true, ..cell });
    let other = draw::style_of(Cell { inverse: false, ..cell });
    if draw::style_code(one) == draw::style_code(other) {
        law_looks_are_told_apart(one, other);
    }
}

spec fn mark(wanted: bool, p: nat) -> Seq<char> {
    if wanted {
        sequence(seq![p])
    } else {
        Seq::empty()
    }
}

/// Whether a text is empty or starts with a sequence of a parameter from `q` on.
spec fn later(x: Seq<char>, q: nat) -> bool {
    x.len() == 0 || (x.len() > 2 && 0x30 + q <= x[2] as int)
}

proof fn lemma_mark(a: bool, b: bool, p: nat, x: Seq<char>, y: Seq<char>, q: nat)
    requires
        p < q <= 5,
        mark(a, p) + x == mark(b, p) + y,
        later(x, q),
        later(y, q),
    ensures
        a == b,
        x == y,
{
    lemma_digits(p);
    let s = sequence(seq![p]);
    assert(s.len() == 4 && s[2] == (0x30 + p) as char);
    let l = mark(a, p) + x;
    let r = mark(b, p) + y;
    if a && !b {
        assert(r =~= y);
        assert(l[2] == (0x30 + p) as char);
    } else if b && !a {
        assert(l =~= x);
        assert(r[2] == (0x30 + p) as char);
    }
    if a {
        assert(x =~= l.skip(4));
        assert(y =~= r.skip(4));
    } else {
        assert(x =~= l);
        assert(y =~= r);
    }
}

/// The sequences of the attributes of a look.
spec fn attributes(style: RenderStyle) -> Seq<char> {
    mark(style.bold, 1) + (mark(style.dim, 2) + (mark(style.italic, 3) + mark(style.underline, 4)))
}

proof fn lemma_look_parts(style: RenderStyle)
    ensures
        draw::style_code(style) == sequence(seq![0]) + (sequence(setting(true, style.fg)) + (
        sequence(setting(false, style.bg)) + attributes(style))),
{
    law_look_codes(style);
    let a = sequence(seq![0]);
    let b = sequence(setting(true, style.fg));
    let c = sequence(setting(false, style.bg));
    lemma_regrouped(
        a,
        b,
        c,
        mark(style.bold, 1),
        mark(style.dim, 2),
        mark(style.italic, 3),
        mark(style.underline, 4),
    );
}

proof fn lemma_regrouped(
    a: Seq<char>,
    b: Seq<char>,
    c: Seq<char>,
    d: Seq<char>,
    e: Seq<char>,
    f: Seq<char>,
    g: Seq<char>,
)
    ensures
        a + b + c + d + e + f + g == a + (b + (c + (d + (e + (f + g))))),
{
    assert(a + b + c + d + e + f + g =~= a + (b + (c + (d + (e + (f + g))))));
}

proof fn lemma_attributes(one: RenderStyle, other: RenderStyle)
    requires
        attributes(one) == attributes(other),
    ensures
        one.bold == other.bold,
        one.dim == other.dim,
        one.italic == other.italic,
        one.underline == other.underline,
{
    let a4 = mark(one.underline, 4);
    let b4 = mark(other.underline, 4);
    let a3 = mark(one.italic, 3) + a4;
    let b3 = mark(other.italic, 3) + b4;
    let a2 = mark(one.dim, 2) + a3;
    let b2 = mark(other.dim, 2) + b3;
    let none = Seq::<char>::empty();
    lemma_third(one.dim, one.italic, one.underline);
    lemma_third(other.dim, other.italic, other.underline);
    lemma_mark(one.bold, other.bold, 1, a2, b2, 2);
    lemma_mark(one.dim, other.dim, 2, a3, b3, 3);
    lemma_mark(one.italic, other.italic, 3, a4, b4, 4);
    assert(a4 + none =~= a4);
    assert(b4 + none =~= b4);
    lemma_mark(one.underline, other.underline, 4, none, none, 5);
}

/// Looks that differ are set by codes that differ.
pub proof fn law_looks_are_told_apart(one: RenderStyle, other: RenderStyle)
    requires
        draw::style_code(one) == draw::style_code(other),
    ensures
        one == other,
{
    lemma_look_parts(one);
    lemma_look_parts(other);
    let ab = sequence(setting(false, one.bg)) + attributes(one);
    let bb = sequence(setting(false, other.bg)) + attributes(other);
    let af = sequence(setting(true, one.fg)) + ab;
    let bf = sequence(setting(true, other.fg)) + bb;
    lemma_same_start(seq![0], seq![0], af, bf);
    lemma_same_start(setting(true, one.fg), setting(true, other.fg), ab, bb);
    lemma_settings_differ(true, one.fg, other.fg);
    lemma_same_start(
        setting(false, one.bg),
        setting(false, other.bg),
        attributes(one),
        attributes(other),
    );
    lemma_settings_differ(false, one.bg, other.bg);
    lemma_attributes(one, other);
}

/// What follows a mark is nothing, or starts with a later one.
proof fn lemma_third(dim: bool, italic: bool, underline: bool)
    ensures
        ({
            let x4 = mark(underline, 4);
            let x3 = mark(italic, 3) + x4;
            let x2 = mark(dim, 2) + x3;
            &&& later(x4, 4)
            &&& later(x3, 3)
            &&& later(x2, 2)
        }),
{
    lemma_digits(2);
    lemma_digits(3);
    lemma_digits(4);
    let x4 = mark(underline, 4);
    let x3 = mark(italic, 3) + x4;
    let x2 = mark(dim, 2) + x3;
    if underline {
        assert(x4[2] == '4');
    }
    if italic {
        assert(x3[2] == '3');
    } else {
        assert(x3 =~= x4);
    }
    if dim {
        assert(x2[2] == '2');
    } else {
        assert(x2 =~= x3);
    }
}

} // verus!
