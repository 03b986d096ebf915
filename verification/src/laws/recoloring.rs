//! How a theme replaces colours.
use crate::bytes;
use crate::laws::looks;
use crate::laws::texts;
use crate::model::Rgb;
use crate::screen::DisplayColor;
use crate::screen_text;
use crate::sgr;
use crate::single;
use crate::single::Number;
use crate::text;
use crate::theme;
use crate::theme::{Stop, ThemeView};
use vstd::prelude::*;

verus! {

/// The sequence that sets the foreground or the background to a colour.
pub open spec fn sets(foreground: bool, rgb: Rgb) -> Seq<char> {
    looks::sequence(looks::setting(foreground, DisplayColor::Rgb(rgb)))
}

/// What a theme puts in place of one parameter.
pub open spec fn of_one(theme: ThemeView, p: int) -> Seq<char> {
    sgr::codes(theme, seq![p], 0)
}

proof fn lemma_one(theme: ThemeView, p: int)
    ensures
        of_one(theme, p) == sgr::group_code(theme, seq![p], 0),
{
    let ps = seq![p];
    assert(sgr::group_length(ps, 0) == 1);
    assert(sgr::codes(theme, ps, 1) =~= Seq::empty());
    assert(sgr::group_code(theme, ps, 0) + Seq::<char>::empty() =~= sgr::group_code(theme, ps, 0));
}

/// The default foreground is that of the theme, and so is the default background. They are white
/// and black where the theme says nothing that can be read.
pub proof fn law_default_colors(theme: ThemeView)
    ensures
        of_one(theme, 39) == sets(true, theme.fg()),
        of_one(theme, 49) == sets(false, theme.bg()),
        theme.default_fg is None ==> theme.fg() == Rgb(255, 255, 255),
        theme.default_bg is None ==> theme.bg() == Rgb(0, 0, 0),
        theme.default_fg is Some && theme::hex_color(theme.default_fg->0) is Some ==> Some(theme.fg())
            == theme::hex_color(theme.default_fg->0),
        theme.default_bg is Some && theme::hex_color(theme.default_bg->0) is Some ==> Some(theme.bg())
            == theme::hex_color(theme.default_bg->0),
        theme.default_fg is Some && theme::hex_color(theme.default_fg->0) is None ==> theme.fg()
            == Rgb(255, 255, 255),
        theme.default_bg is Some && theme::hex_color(theme.default_bg->0) is None ==> theme.bg()
            == Rgb(0, 0, 0),
{
    lemma_one(theme, 39);
    lemma_one(theme, 49);
    looks::law_true_colors(true, theme.fg());
    looks::law_true_colors(false, theme.bg());
}

/// A reset stays one. A theme that forces its defaults sets them again after it.
pub proof fn law_resets(theme: ThemeView)
    ensures
        theme.force_default ==> of_one(theme, 0) == looks::sequence(seq![0]) + of_one(theme, 39)
            + of_one(theme, 49),
        !theme.force_default ==> of_one(theme, 0) == looks::sequence(seq![0]),
{
    lemma_one(theme, 0);
    law_default_colors(theme);
    looks::law_true_colors(true, theme.fg());
    looks::law_true_colors(false, theme.bg());
    reveal_strlit("\x1b[0m");
    texts::law_decimal_digits(0, 0);
    assert("\x1b[0m"@ =~= looks::sequence(seq![0]));
}

/// The parameters 30 to 37 and 90 to 97 select the sixteen basic colours for the foreground, those
/// that are larger by ten for the background.
pub proof fn law_basic_colors(theme: ThemeView, idx: u8)
    requires
        idx < 8,
    ensures
        of_one(theme, 30 + idx) == sets(true, theme.recolored_index(idx, true)),
        of_one(theme, 90 + idx) == sets(true, theme.recolored_index((idx + 8) as u8, true)),
        of_one(theme, 40 + idx) == sets(false, theme.recolored_index(idx, false)),
        of_one(theme, 100 + idx) == sets(false, theme.recolored_index((idx + 8) as u8, false)),
{
    lemma_one(theme, 30 + idx);
    lemma_one(theme, 90 + idx);
    lemma_one(theme, 40 + idx);
    lemma_one(theme, 100 + idx);
    looks::law_true_colors(true, theme.recolored_index(idx, true));
    looks::law_true_colors(true, theme.recolored_index((idx + 8) as u8, true));
    looks::law_true_colors(false, theme.recolored_index(idx, false));
    looks::law_true_colors(false, theme.recolored_index((idx + 8) as u8, false));
}

/// Whether a parameter selects no colour and is no reset.
pub open spec fn no_color(p: int) -> bool {
    p != 0 && !(30 <= p <= 39) && !(40 <= p <= 49) && !(90 <= p <= 97) && !(100 <= p <= 107)
}

/// Parameters that select no colour stay as they are.
pub proof fn law_other_parameters(theme: ThemeView, p: nat)
    requires
        p > 0,
    ensures
        no_color(p as int) ==> of_one(theme, p as int) == looks::sequence(seq![p]),
        of_one(theme, 38) == looks::sequence(seq![38]),
        of_one(theme, 48) == looks::sequence(seq![48]),
{
    lemma_one(theme, p as int);
    lemma_one(theme, 38);
    lemma_one(theme, 48);
    texts::law_signed_decimals(p);
    texts::law_signed_decimals(38);
    texts::law_signed_decimals(48);
    reveal_strlit("\x1b[");
    reveal_strlit("m");
    assert(sgr::plain_code(p as int) =~= looks::sequence(seq![p]));
    assert(sgr::plain_code(38) =~= looks::sequence(seq![38]));
    assert(sgr::plain_code(48) =~= looks::sequence(seq![48]));
}

/// What a parameter of a colour counts as: between 0 and 255.
pub open spec fn within_byte(p: int) -> u8 {
    if p <= 0 {
        0
    } else if p >= 255 {
        255
    } else {
        p as u8
    }
}

/// Indexed colours are replaced by what the theme makes of their index, true colours by what it
/// makes of them; 38 is for the foreground, 48 for the background. The rest of the parameters goes
/// on behind them.
pub proof fn law_extended_colors(theme: ThemeView, foreground: bool, ps: Seq<int>)
    requires
        ps.len() > 0,
        ps[0] == if foreground {
            38int
        } else {
            48int
        },
    ensures
        ps.len() >= 3 && ps[1] == 5 ==> sgr::codes(theme, ps, 0) == sets(
            foreground,
            theme.recolored_index(within_byte(ps[2]), foreground),
        ) + sgr::codes(theme, ps.skip(3), 0),
        ps.len() >= 5 && ps[1] == 2 ==> sgr::codes(theme, ps, 0) == sets(
            foreground,
            theme.recolored(
                Rgb(within_byte(ps[2]), within_byte(ps[3]), within_byte(ps[4])),
                foreground,
            ),
        ) + sgr::codes(theme, ps.skip(5), 0),
{
    if ps.len() >= 3 && ps[1] == 5 {
        looks::law_true_colors(foreground, theme.recolored_index(within_byte(ps[2]), foreground));
        lemma_codes_skip(theme, ps, 3, 3);
    }
    if ps.len() >= 5 && ps[1] == 2 {
        looks::law_true_colors(
            foreground,
            theme.recolored(
                Rgb(within_byte(ps[2]), within_byte(ps[3]), within_byte(ps[4])),
                foreground,
            ),
        );
        lemma_codes_skip(theme, ps, 5, 5);
    }
}

/// Other parameters are replaced one after the other.
pub proof fn law_parameters_in_turn(theme: ThemeView, ps: Seq<int>)
    requires
        ps.len() > 0,
        ps[0] != 38,
        ps[0] != 48,
    ensures
        sgr::codes(theme, ps, 0) == of_one(theme, ps[0]) + sgr::codes(theme, ps.skip(1), 0),
{
    lemma_one(theme, ps[0]);
    lemma_codes_skip(theme, ps, 1, 1);
}

proof fn lemma_codes_skip(theme: ThemeView, ps: Seq<int>, n: int, i: int)
    requires
        0 <= n <= i,
        n <= ps.len(),
    ensures
        sgr::codes(theme, ps, i) == sgr::codes(theme, ps.skip(n), i - n),
    decreases ps.len() - i,
{
    let rest = ps.skip(n);
    if i < ps.len() {
        assert(rest[i - n] == ps[i]);
        if i + 1 < ps.len() {
            assert(rest[i + 1 - n] == ps[i + 1]);
        }
        if i + 2 < ps.len() {
            assert(rest[i + 2 - n] == ps[i + 2]);
        }
        if i + 3 < ps.len() {
            assert(rest[i + 3 - n] == ps[i + 3]);
        }
        if i + 4 < ps.len() {
            assert(rest[i + 4 - n] == ps[i + 4]);
        }
        assert(sgr::group_length(ps, i) == sgr::group_length(rest, i - n));
        assert(sgr::group_code(theme, ps, i) == sgr::group_code(theme, rest, i - n));
        lemma_codes_skip(theme, ps, n, i + sgr::group_length(ps, i));
    }
}

/// A sequence in a stream is replaced by what the theme makes of its parameters, and what stands
/// around it stays.
pub proof fn law_sequences_in_a_stream(
    theme: ThemeView,
    before: Seq<u8>,
    ps: Seq<nat>,
    after: Seq<u8>,
)
    requires
        !before.contains(0x1b),
        !after.contains(0x1b),
        ps.len() > 0,
        forall|i: int| 0 <= i < ps.len() ==> #[trigger] ps[i] <= 0x7fff_ffff,
    ensures
        sgr::rewritten(
            theme,
            Seq::empty(),
            before + (bytes::ascii(looks::sequence(ps)) + after),
        ) == (
            Seq::<u8>::empty(),
            before + (bytes::ascii(sgr::codes(theme, ps.map_values(|p: nat| p as int), 0)) + after),
        ),
{
    let none = Seq::<u8>::empty();
    let body = bytes::ascii(looks::listed(ps));
    let middle = bytes::ascii(looks::sequence(ps));
    let code = bytes::ascii(sgr::codes(theme, ps.map_values(|p: nat| p as int), 0));
    looks::law_parameters_are_read_back(ps);
    looks::lemma_listed_bytes(ps);
    assert(middle =~= seq![0x1bu8, 0x5bu8] + body + seq![0x6du8]);
    sgr::law_color_sequences_are_replaced(theme, body);
    sgr::law_plain_bytes_pass(theme, before);
    sgr::law_plain_bytes_pass(theme, after);
    sgr::law_chunks_do_not_matter(theme, none, middle, after);
    sgr::law_chunks_do_not_matter(theme, none, before, middle + after);
}

/// A colour is read as it is written, with or without `#`, in digits of either case.
pub proof fn law_colors_are_read(rgb: Rgb)
    ensures
        theme::hex_color(seq!['#'] + text::hex_byte(rgb.0) + text::hex_byte(rgb.1) + text::hex_byte(
            rgb.2,
        )) == Some(rgb),
        theme::hex_color(
            text::hex_byte(rgb.0) + text::hex_byte(rgb.1) + text::hex_byte(rgb.2),
        ) == Some(rgb),
        screen_text::hex_text(rgb) == seq!['#'] + text::hex_byte(rgb.0) + text::hex_byte(rgb.1)
            + text::hex_byte(rgb.2),
{
    texts::law_bytes_are_read_back(rgb.0);
    texts::law_bytes_are_read_back(rgb.1);
    texts::law_bytes_are_read_back(rgb.2);
    let digits = text::hex_byte(rgb.0) + text::hex_byte(rgb.1) + text::hex_byte(rgb.2);
    let marked = seq!['#'] + text::hex_byte(rgb.0) + text::hex_byte(rgb.1) + text::hex_byte(rgb.2);
    assert(marked.skip(1) =~= digits);
    assert(digits[0] == text::hex_byte(rgb.0)[0]);
    assert(digits[1] == text::hex_byte(rgb.0)[1]);
    assert(digits[2] == text::hex_byte(rgb.1)[0]);
    assert(digits[3] == text::hex_byte(rgb.1)[1]);
    assert(digits[4] == text::hex_byte(rgb.2)[0]);
    assert(digits[5] == text::hex_byte(rgb.2)[1]);
}

/// Only texts of six digits, with or without `#`, are colours.
pub proof fn law_other_texts_are_no_colors(s: Seq<char>)
    ensures
        theme::hex_color(s) is Some ==> s.len() == 6 || (s.len() == 7 && s[0] == '#'),
{
}

/// An entry of the palette replaces its index. For a background the background palette comes
/// first; for a foreground it does not count. Without an entry that can be read, the index is
/// replaced like the colour it stands for.
pub proof fn law_palette_entries(theme: ThemeView, idx: u8, foreground: bool, rgb: Rgb)
    ensures
        theme.palette.contains_key(idx) && theme::hex_color(theme.palette[idx]) == Some(rgb) && (
        foreground || !theme.background_palette.contains_key(idx)) ==> theme.recolored_index(
            idx,
            foreground,
        ) == rgb,
        theme.background_palette.contains_key(idx) && theme::hex_color(
            theme.background_palette[idx],
        ) == Some(rgb) ==> theme.recolored_index(idx, false) == rgb,
        !theme.palette.contains_key(idx) && (foreground || !theme.background_palette.contains_key(
            idx,
        )) ==> theme.recolored_index(idx, foreground) == theme.recolored(
            theme::palette_color(idx),
            foreground,
        ),
{
}

/// Without gradients a theme leaves true colours as they are.
pub proof fn law_no_gradient_no_change(theme: ThemeView, rgb: Rgb)
    ensures
        theme.foreground.len() == 0 ==> theme.recolored(rgb, true) == rgb,
        theme.background.len() == 0 ==> theme.recolored(rgb, false) == rgb,
{
}

/// A foreground colour depends on the foreground gradient alone, and a background colour on the
/// background gradient alone: on each, the colour at the brightness of the colour that is replaced.
pub proof fn law_gradients_by_side(theme: ThemeView, rgb: Rgb)
    ensures
        theme::gradient_color(theme.foreground, theme::brightness(rgb)) is Some ==> Some(
            theme.recolored(rgb, true),
        ) == theme::gradient_color(theme.foreground, theme::brightness(rgb)),
        theme::gradient_color(theme.background, theme::brightness(rgb)) is Some ==> Some(
            theme.recolored(rgb, false),
        ) == theme::gradient_color(theme.background, theme::brightness(rgb)),
{
}

/// The colours of the indexes from 16 on: a cube with six levels for red, green and blue, where a
/// step is forty but for the first, and then twenty-four greys, with a step of ten.
pub proof fn law_palette(r: int, g: int, b: int, k: int)
    requires
        0 <= r < 6,
        0 <= g < 6,
        0 <= b < 6,
        0 <= k < 24,
    ensures
        ({
            let color = theme::palette_color((16 + 36 * r + 6 * g + b) as u8);
            &&& color.0 == if r == 0 {
                0
            } else {
                55 + 40 * r
            }
            &&& color.1 == if g == 0 {
                0
            } else {
                55 + 40 * g
            }
            &&& color.2 == if b == 0 {
                0
            } else {
                55 + 40 * b
            }
        }),
        theme::palette_color((232 + k) as u8) == Rgb(
            (8 + 10 * k) as u8,
            (8 + 10 * k) as u8,
            (8 + 10 * k) as u8,
        ),
{
    let n = 36 * r + 6 * g + b;
    assert(n / 36 == r && (n % 36) / 6 == g && n % 6 == b) by (nonlinear_arith)
        requires
            n == 36 * r + 6 * g + b,
            0 <= r < 6,
            0 <= g < 6,
            0 <= b < 6,
    ;
}

/// The sixteen basic colours.
pub proof fn law_basic_palette()
    ensures
        theme::palette_color(0) == Rgb(0, 0, 0),
        theme::palette_color(1) == Rgb(205, 49, 49),
        theme::palette_color(2) == Rgb(13, 188, 121),
        theme::palette_color(3) == Rgb(229, 229, 16),
        theme::palette_color(4) == Rgb(36, 114, 200),
        theme::palette_color(5) == Rgb(188, 63, 188),
        theme::palette_color(6) == Rgb(17, 168, 205),
        theme::palette_color(7) == Rgb(229, 229, 229),
        theme::palette_color(8) == Rgb(102, 102, 102),
        theme::palette_color(9) == Rgb(241, 76, 76),
        theme::palette_color(10) == Rgb(35, 209, 139),
        theme::palette_color(11) == Rgb(245, 245, 67),
        theme::palette_color(12) == Rgb(59, 142, 234),
        theme::palette_color(13) == Rgb(214, 112, 214),
        theme::palette_color(14) == Rgb(41, 184, 219),
        theme::palette_color(15) == Rgb(255, 255, 255),
{
}

/// A stop at a position in hundredths.
pub open spec fn stop(hundredths: int, color: Seq<char>) -> Stop {
    Stop { at: single::nearest(hundredths * single::unit(), 100), color }
}

/// The built-in themes: the one that leaves the terminal's colours, the green one with its two
/// names, and the pink one for every other name.
pub proof fn law_builtin_themes(name: Seq<char>)
    ensures
        theme::builtin("default"@).transparent(),
        name == "matrix"@ || name == "matrix-green"@ ==> theme::builtin(name) == (ThemeView {
            name: Some("matrix-green"@),
            default_fg: Some("#b6ffd0"@),
            default_bg: Some("#001008"@),
            force_default: true,
            palette: Map::empty(),
            background_palette: Map::empty(),
            foreground: seq![
                stop(0, "#004d26"@),
                stop(35, "#00aa55"@),
                stop(70, "#33ff99"@),
                stop(100, "#eafff2"@),
            ],
            background: seq![stop(0, "#001008"@), stop(50, "#003018"@), stop(100, "#006633"@)],
        }),
        name != "default"@ && name != "matrix"@ && name != "matrix-green"@ ==> theme::builtin(name)
            == (ThemeView {
            name: Some("jirai-pink"@),
            default_fg: Some("#ffcdeb"@),
            default_bg: Some("#120018"@),
            force_default: true,
            palette: Map::empty(),
            background_palette: Map::empty(),
            foreground: seq![
                stop(0, "#84205c"@),
                stop(30, "#ff45ac"@),
                stop(62, "#ff8fd6"@),
                stop(84, "#ffcdeb"@),
                stop(100, "#fff2fa"@),
            ],
            background: seq![
                stop(0, "#120018"@),
                stop(28, "#26002a"@),
                stop(55, "#570a41"@),
                stop(78, "#962369"@),
                stop(100, "#ff8fcf"@),
            ],
        }),
{
    reveal_strlit("default");
    reveal_strlit("matrix");
    reveal_strlit("matrix-green");
    assert("default"@.len() == 7);
    assert("matrix"@.len() == 6);
    assert("matrix-green"@.len() == 12);
    assert(theme::builtin("matrix"@) == theme::builtin("matrix-green"@));
    assert(theme::builtin("matrix-green"@).foreground =~= seq![
        stop(0, "#004d26"@),
        stop(35, "#00aa55"@),
        stop(70, "#33ff99"@),
        stop(100, "#eafff2"@),
    ]);
    assert(theme::builtin("matrix-green"@).background =~= seq![
        stop(0, "#001008"@),
        stop(50, "#003018"@),
        stop(100, "#006633"@),
    ]);
}

/// A theme leaves the terminal's colours exactly if it says nothing of them.
pub proof fn law_transparent_themes(theme: ThemeView)
    ensures
        theme.transparent() ==> !theme.force_default && theme.foreground.len() == 0
            && theme.background.len() == 0 && (forall|idx: u8|
            !(#[trigger] theme.palette.contains_key(idx))) && (forall|idx: u8|
            !(#[trigger] theme.background_palette.contains_key(idx))),
        theme.force_default || theme.foreground.len() > 0 || theme.background.len() > 0
            ==> !theme.transparent(),
        !theme.force_default && theme.foreground.len() == 0 && theme.background.len() == 0 && (
        forall|idx: u8|
            !(#[trigger] theme.palette.contains_key(idx)) && !theme.background_palette.contains_key(
                idx,
            )) ==> theme.transparent(),
{
    if forall|idx: u8|
        !(#[trigger] theme.palette.contains_key(idx)) && !theme.background_palette.contains_key(
            idx,
        ) {
        assert forall|idx: u8| !(#[trigger] theme.background_palette.contains_key(idx)) by {
            assert(!theme.palette.contains_key(idx));
        }
        assert(theme.palette =~= Map::<u8, Seq<char>>::empty());
        assert(theme.background_palette =~= Map::<u8, Seq<char>>::empty());
    }
}

/// A gradient of two stops has the colour of the lower stop up to its position, and that of the
/// higher stop beyond its position, in whichever order they are given.
pub proof fn law_gradient_of_two(low: Stop, high: Stop, a: Rgb, b: Rgb, t: Number)
    requires
        low.at is Finite,
        high.at is Finite,
        low.at->0 < high.at->0,
        theme::hex_color(low.color) == Some(a),
        theme::hex_color(high.color) == Some(b),
    ensures
        single::at_most(t, low.at) ==> theme::gradient_color(seq![low, high], t) == Some(a)
            && theme::gradient_color(seq![high, low], t) == Some(a),
        single::less(high.at, t) ==> theme::gradient_color(seq![low, high], t) == Some(b)
            && theme::gradient_color(seq![high, low], t) == Some(b),
        theme::gradient_color(seq![high, low], t) == theme::gradient_color(seq![low, high], t),
{
    let x = (low.at, a);
    let y = (high.at, b);
    lemma_readable_two(low, high, a, b);
    lemma_readable_two(high, low, b, a);
    lemma_order_two(x, y);
    let items = seq![x, y];
    assert(theme::color_from(items, t, 2) == items.last().1);
    assert(items.last() == y);
    assert(single::less(high.at, t) ==> !single::at_most(t, high.at));
    assert(single::less(high.at, t) ==> !single::at_most(t, low.at));
}

proof fn lemma_readable_two(low: Stop, high: Stop, a: Rgb, b: Rgb)
    requires
        theme::hex_color(low.color) == Some(a),
        theme::hex_color(high.color) == Some(b),
    ensures
        theme::readable(seq![low, high]) == seq![(low.at, a), (high.at, b)],
{
    let both = seq![low, high];
    let one = seq![low];
    assert(both.drop_last() =~= one);
    assert(one.drop_last() =~= Seq::empty());
    assert(theme::readable(Seq::empty()) == Seq::<(Number, Rgb)>::empty());
    assert(theme::readable(one) =~= seq![(low.at, a)]);
    assert(theme::readable(both) =~= seq![(low.at, a), (high.at, b)]);
}

proof fn lemma_order_two(x: (Number, Rgb), y: (Number, Rgb))
    requires
        single::less(x.0, y.0),
        x.0 is Finite,
        y.0 is Finite,
    ensures
        theme::in_order(seq![x, y]) == seq![x, y],
        theme::in_order(seq![y, x]) == seq![x, y],
{
    let none = Seq::<(Number, Rgb)>::empty();
    assert(seq![x].drop_last() =~= none);
    assert(seq![y].drop_last() =~= none);
    assert(theme::in_order(none) == none);
    assert(theme::place(none, x.0, 0) == 0);
    assert(theme::place(none, y.0, 0) == 0);
    assert(theme::in_order(seq![x]) =~= seq![x]);
    assert(theme::in_order(seq![y]) =~= seq![y]);
    assert(seq![x, y].drop_last() =~= seq![x]);
    assert(seq![y, x].drop_last() =~= seq![y]);
    assert(theme::place(seq![x], y.0, 1) == 1);
    assert(theme::place(seq![x], y.0, 0) == 1);
    assert(theme::place(seq![y], x.0, 0) == 0);
    assert(theme::in_order(seq![x, y]) =~= seq![x, y]);
    assert(theme::in_order(seq![y, x]) =~= seq![x, y]);
}

/// A theme can be used where both of its gradients can be put in order. A gradient of stops that
/// can be read cannot only where it has at least two of them and one is at no position.
pub proof fn law_usable_themes(theme: ThemeView, stops: Seq<Stop>, i: int)
    ensures
        theme.usable() <==> theme::orderable(theme.foreground) && theme::orderable(
            theme.background,
        ),
        theme::readable(stops).len() < 2 ==> theme::orderable(stops),
        theme::readable(stops).len() >= 2 && 0 <= i < theme::readable(stops).len()
            && theme::readable(stops)[i].0 == Number::Nan ==> !theme::orderable(stops),
        (forall|k: int|
            0 <= k < theme::readable(stops).len() ==> (#[trigger] theme::readable(stops)[k]).0
                != Number::Nan) ==> theme::orderable(stops),
{
}

/// Bytes are held back from an escape and a bracket on until a byte from at sign to tilde ends the
/// sequence. Then the sequence passes as it is, unless it sets colours. An escape before anything
/// else passes with what follows it, and other bytes pass at once.
pub proof fn law_other_sequences_in_a_stream(theme: ThemeView, held: Seq<u8>, byte: u8)
    requires
        held.len() >= 2,
    ensures
        ({
            let none = Seq::<u8>::empty();
            let escape = seq![0x1bu8];
            let ends = 64 <= byte && byte < 127;
            &&& !ends ==> sgr::step(theme, held, byte) == (held.push(byte), none)
            &&& ends && byte != 0x6d ==> sgr::step(theme, held, byte) == (none, held.push(byte))
            &&& byte == 0x6d ==> sgr::step(theme, held, byte).0 == none
            &&& byte != 0x5b ==> sgr::step(theme, escape, byte) == (none, seq![0x1bu8, byte])
            &&& byte == 0x5b ==> sgr::step(theme, escape, byte) == (seq![0x1bu8, 0x5b], none)
            &&& byte != 0x1b ==> sgr::step(theme, none, byte) == (none, seq![byte])
            &&& byte == 0x1b ==> sgr::step(theme, none, byte) == (escape, none)
        }),
{
    let none = Seq::<u8>::empty();
    assert(none.push(byte) =~= seq![byte]);
    assert(seq![0x1bu8].push(byte) =~= seq![0x1bu8, byte]);
}

/// A byte of a stream is taken after those before it, and what it puts out follows theirs.
pub proof fn law_bytes_of_a_stream_in_turn(
    theme: ThemeView,
    held: Seq<u8>,
    input: Seq<u8>,
    byte: u8,
)
    ensures
        ({
            let before = sgr::rewritten(theme, held, input);
            let after = sgr::rewritten(theme, held, input.push(byte));
            let last = sgr::step(theme, before.0, byte);
            &&& sgr::rewritten(theme, held, Seq::empty()) == (held, Seq::<u8>::empty())
            &&& after == (last.0, before.1 + last.1)
        }),
{
    assert(input.push(byte).drop_last() =~= input);
}

} // verus!
