//! Colours, gradients and themes.
use crate::model::{ColorStop, Rgb, Theme};
use crate::single;
use crate::single::{Number, Single};
use crate::text;
use crate::text::{chars_of, hex_digit_value, same};
use std::collections::HashMap;
use vstd::prelude::*;

verus! {

broadcast use vstd::std_specs::hash::group_hash_axioms;

/// The value of two hexadecimal digits; a plus sign may stand in place of the first.
pub open spec fn pair_value(a: char, b: char) -> Option<u8> {
    match (text::hex_value(a), text::hex_value(b)) {
        (Some(x), Some(y)) => Some((16 * x + y) as u8),
        (None, Some(y)) => if a == '+' {
            Some(y as u8)
        } else {
            None
        },
        _ => None,
    }
}

/// The colour that `#RRGGBB`, or the same without `#`, stands for.
pub open spec fn hex_color(s: Seq<char>) -> Option<Rgb> {
    let hex = if s.len() > 0 && s[0] == '#' {
        s.skip(1)
    } else {
        s
    };
    if hex.len() != 6 {
        None
    } else {
        match (pair_value(hex[0], hex[1]), pair_value(hex[2], hex[3]), pair_value(hex[4], hex[5])) {
            (Some(r), Some(g), Some(b)) => Some(Rgb(r, g, b)),
            _ => None,
        }
    }
}

/// Reads two hexadecimal digits; a plus sign may stand in place of the first.
pub fn hex_pair(a: char, b: char) -> (r: Option<u8>)
    ensures
        r == pair_value(a, b),
{
    match (hex_digit_value(a), hex_digit_value(b)) {
        (Some(x), Some(y)) => Some(16 * x + y),
        (None, Some(y)) => if a == '+' {
            Some(y)
        } else {
            None
        },
        _ => None,
    }
}

/// Reads a colour written as `#RRGGBB` or `RRGGBB`.
pub fn parse_hex(s: &str) -> (r: Option<Rgb>)
    ensures
        r == hex_color(s@),
{
    let chars: Vec<char> = chars_of(s);
    let from: usize = if chars.len() > 0 && chars[0] == '#' {
        1
    } else {
        0
    };
    let ghost hex = chars@.skip(from as int);
    assert(from == 0 ==> hex =~= chars@);
    if chars.len() - from != 6 {
        return None;
    }
    let red: Option<u8> = hex_pair(chars[from], chars[from + 1]);
    let green: Option<u8> = hex_pair(chars[from + 2], chars[from + 3]);
    let blue: Option<u8> = hex_pair(chars[from + 4], chars[from + 5]);
    match (red, green, blue) {
        (Some(r), Some(g), Some(b)) => Some(Rgb(r, g, b)),
        _ => None,
    }
}

/// A colour that is not of the form `#RRGGBB`.
#[derive(Debug, PartialEq, Eq)]
pub struct InvalidColor {
    pub raw: String,
}

impl InvalidColor {
    /// The message for the user.
    pub fn message(&self) -> (r: String)
        ensures
            r@ == "expected #RRGGBB, got: "@ + self.raw@,
    {
        let mut r: String = String::new();
        r.append("expected #RRGGBB, got: ");
        r.append(self.raw.as_str());
        assert(r@ =~= "expected #RRGGBB, got: "@ + self.raw@);
        r
    }
}

/// Reads a colour that may be left out.
pub fn parse_optional_rgb(value: Option<&str>) -> (r: Result<Option<Rgb>, InvalidColor>)
    ensures
        match value {
            None => r == Ok::<Option<Rgb>, InvalidColor>(None),
            Some(raw) => match hex_color(raw@) {
                Some(rgb) => r == Ok::<Option<Rgb>, InvalidColor>(Some(rgb)),
                None => r is Err && r->Err_0.raw@ == raw@,
            },
        },
{
    match value {
        Some(raw) => match parse_hex(raw) {
            Some(rgb) => Ok(Some(rgb)),
            None => Err(InvalidColor { raw: raw.to_owned() }),
        },
        None => Ok(None),
    }
}

/// The sixteen basic colours of a terminal.
pub open spec fn basic_color(idx: u8) -> Rgb {
    if idx == 0 {
        Rgb(0, 0, 0)
    } else if idx == 1 {
        Rgb(205, 49, 49)
    } else if idx == 2 {
        Rgb(13, 188, 121)
    } else if idx == 3 {
        Rgb(229, 229, 16)
    } else if idx == 4 {
        Rgb(36, 114, 200)
    } else if idx == 5 {
        Rgb(188, 63, 188)
    } else if idx == 6 {
        Rgb(17, 168, 205)
    } else if idx == 7 {
        Rgb(229, 229, 229)
    } else if idx == 8 {
        Rgb(102, 102, 102)
    } else if idx == 9 {
        Rgb(241, 76, 76)
    } else if idx == 10 {
        Rgb(35, 209, 139)
    } else if idx == 11 {
        Rgb(245, 245, 67)
    } else if idx == 12 {
        Rgb(59, 142, 234)
    } else if idx == 13 {
        Rgb(214, 112, 214)
    } else if idx == 14 {
        Rgb(41, 184, 219)
    } else {
        Rgb(255, 255, 255)
    }
}

/// One of the sixteen basic colours; white for any index beyond them.
pub fn indexed_to_rgb(idx: u8) -> (r: Rgb)
    ensures
        r == basic_color(idx),
{
    match idx {
        0 => Rgb(0, 0, 0),
        1 => Rgb(205, 49, 49),
        2 => Rgb(13, 188, 121),
        3 => Rgb(229, 229, 16),
        4 => Rgb(36, 114, 200),
        5 => Rgb(188, 63, 188),
        6 => Rgb(17, 168, 205),
        7 => Rgb(229, 229, 229),
        8 => Rgb(102, 102, 102),
        9 => Rgb(241, 76, 76),
        10 => Rgb(35, 209, 139),
        11 => Rgb(245, 245, 67),
        12 => Rgb(59, 142, 234),
        13 => Rgb(214, 112, 214),
        14 => Rgb(41, 184, 219),
        _ => Rgb(255, 255, 255),
    }
}

/// A channel of the colour cube, at one of its six levels.
pub open spec fn cube_level(x: int) -> int {
    if x == 0 {
        0
    } else {
        55 + x * 40
    }
}

/// The colour of an index: a basic colour, one of the colour cube, or a grey.
pub open spec fn palette_color(idx: u8) -> Rgb {
    if 16 > idx {
        basic_color(idx)
    } else if idx >= 232 {
        let grey = (8 + (idx - 232) * 10) as u8;
        Rgb(grey, grey, grey)
    } else {
        let n = idx - 16;
        Rgb(
            cube_level(n / 36) as u8,
            cube_level((n % 36) / 6) as u8,
            cube_level(n % 6) as u8,
        )
    }
}

fn cube_channel(x: u8) -> (r: u8)
    requires
        x <= 5,
    ensures
        r == cube_level(x as int),
{
    if x == 0 {
        0
    } else {
        55 + x * 40
    }
}

/// The colour of an index of the 256-colour palette.
pub fn indexed_color(idx: u8) -> (r: Rgb)
    ensures
        r == palette_color(idx),
{
    if 16 > idx {
        return indexed_to_rgb(idx);
    }
    if idx >= 232 {
        let value: u8 = 8 + (idx - 232) * 10;
        return Rgb(value, value, value);
    }
    let n: u8 = idx - 16;
    let red: u8 = n / 36;
    let green: u8 = (n % 36) / 6;
    let blue: u8 = n % 6;
    Rgb(cube_channel(red), cube_channel(green), cube_channel(blue))
}

/// The channel a part `k` of the way from `a` to `b`.
pub open spec fn mixed_channel(a: u8, b: u8, k: Number) -> u8 {
    single::rounded(
        single::sum(
            single::whole(a as int),
            single::product(
                single::difference(single::whole(b as int), single::whole(a as int)),
                k,
            ),
        ),
        255,
    ) as u8
}

/// The colour a part `k` of the way from `a` to `b`.
pub open spec fn mixed(a: Rgb, b: Rgb, k: Number) -> Rgb {
    Rgb(mixed_channel(a.0, b.0, k), mixed_channel(a.1, b.1, k), mixed_channel(a.2, b.2, k))
}

/// The channel a part `k` of the way from `a` to `b`.
pub fn lerp(a: u8, b: u8, k: Single) -> (r: u8)
    ensures
        r == mixed_channel(a, b, k@),
{
    let from: Single = Single::from_u64(a as u64);
    let to: Single = Single::from_u64(b as u64);
    from.plus(&to.minus(&from).times(&k)).round_to(255) as u8
}

/// The colour a part `k` of the way from `a` to `b`.
pub fn lerp_rgb(a: Rgb, b: Rgb, k: Single) -> (r: Rgb)
    ensures
        r == mixed(a, b, k@),
{
    Rgb(lerp(a.0, b.0, k), lerp(a.1, b.1, k), lerp(a.2, b.2, k))
}

/// A colour with a part `factor` of its brightness left.
pub fn darken(rgb: Rgb, factor: Single) -> (r: Rgb)
    ensures
        r == mixed(Rgb(0, 0, 0), rgb, factor@),
{
    lerp_rgb(Rgb(0, 0, 0), rgb, factor)
}

/// A stop of a gradient: a position and the text of a colour.
#[verifier::ext_equal]
pub struct Stop {
    pub at: Number,
    pub color: Seq<char>,
}

impl View for ColorStop {
    type V = Stop;

    open spec fn view(&self) -> Stop {
        Stop { at: self.at@, color: self.color@ }
    }
}

/// The stops of a list.
pub open spec fn stops_of(list: Seq<ColorStop>) -> Seq<Stop> {
    list.map_values(|stop: ColorStop| stop@)
}

/// What a theme says.
#[verifier::ext_equal]
pub struct ThemeView {
    pub name: Option<Seq<char>>,
    pub default_fg: Option<Seq<char>>,
    pub default_bg: Option<Seq<char>>,
    pub force_default: bool,
    pub palette: Map<u8, Seq<char>>,
    pub background_palette: Map<u8, Seq<char>>,
    pub foreground: Seq<Stop>,
    pub background: Seq<Stop>,
}

/// The characters of a text that may be left out.
pub open spec fn optional_text(text: Option<String>) -> Option<Seq<char>> {
    match text {
        Some(inner) => Some(inner@),
        None => None,
    }
}

impl View for Theme {
    type V = ThemeView;

    open spec fn view(&self) -> ThemeView {
        ThemeView {
            name: optional_text(self.name),
            default_fg: optional_text(self.default_fg),
            default_bg: optional_text(self.default_bg),
            force_default: self.force_default,
            palette: self.palette_map@.map_values(|color: String| color@),
            background_palette: self.background_palette_map@.map_values(|color: String| color@),
            foreground: stops_of(self.foreground@),
            background: stops_of(self.background@),
        }
    }
}

/// The stops whose colour can be read, with that colour, in their order.
pub open spec fn readable(stops: Seq<Stop>) -> Seq<(Number, Rgb)>
    decreases stops.len(),
{
    if stops.len() == 0 {
        Seq::empty()
    } else {
        let before = readable(stops.drop_last());
        match hex_color(stops.last().color) {
            Some(rgb) => before.push((stops.last().at, rgb)),
            None => before,
        }
    }
}

/// Where an item with position `at` goes among items in order: before the first with a larger
/// position, looking from index `i` on.
pub open spec fn place(items: Seq<(Number, Rgb)>, at: Number, i: int) -> int
    decreases items.len() - i,
{
    if i >= items.len() || i < 0 {
        items.len() as int
    } else if single::less(at, items[i].0) {
        i
    } else {
        place(items, at, i + 1)
    }
}

/// Items put in the order of their positions; equal positions keep their order.
pub open spec fn in_order(items: Seq<(Number, Rgb)>) -> Seq<(Number, Rgb)>
    decreases items.len(),
{
    if items.len() == 0 {
        Seq::empty()
    } else {
        let before = in_order(items.drop_last());
        before.insert(place(before, items.last().0, 0), items.last())
    }
}

/// How far `t` lies between two positions.
pub open spec fn progress_between(from: Number, to: Number, t: Number) -> Number {
    single::clamped(
        single::quotient(
            single::difference(t, from),
            single::larger(single::difference(to, from), single::fraction(1, 10000)),
        ),
    )
}

/// The colour at `t`, for a `t` beyond the position of item `i - 1`.
pub open spec fn color_from(items: Seq<(Number, Rgb)>, t: Number, i: int) -> Rgb
    decreases items.len() - i,
{
    if i >= items.len() || i < 1 {
        items.last().1
    } else if single::at_most(t, items[i].0) {
        mixed(items[i - 1].1, items[i].1, progress_between(items[i - 1].0, items[i].0, t))
    } else {
        color_from(items, t, i + 1)
    }
}

/// The colour of a gradient at `t`, if any stop has a readable colour.
pub open spec fn gradient_color(stops: Seq<Stop>, t: Number) -> Option<Rgb> {
    let items = in_order(readable(stops));
    if items.len() == 0 {
        None
    } else if single::at_most(t, items[0].0) {
        Some(items[0].1)
    } else {
        Some(color_from(items, t, 1))
    }
}

/// Whether the readable stops can be put in order: none of several is at an undefined position.
pub open spec fn orderable(stops: Seq<Stop>) -> bool {
    let items = readable(stops);
    items.len() >= 2 ==> forall|i: int|
        0 <= i < items.len() ==> (#[trigger] items[i]).0 != Number::Nan
}

spec fn marks(items: Seq<(Single, Rgb)>) -> Seq<(Number, Rgb)> {
    items.map_values(|item: (Single, Rgb)| (item.0@, item.1))
}

/// Ordering keeps the number of items.
pub proof fn lemma_in_order_length(items: Seq<(Number, Rgb)>)
    ensures
        in_order(items).len() == items.len(),
    decreases items.len(),
{
    if items.len() > 0 {
        lemma_in_order_length(items.drop_last());
        lemma_place(in_order(items.drop_last()), items.last().0, 0);
    }
}

proof fn lemma_place(items: Seq<(Number, Rgb)>, at: Number, i: int)
    requires
        0 <= i <= items.len(),
    ensures
        i <= place(items, at, i) <= items.len(),
        forall|j: int| i <= j < place(items, at, i) ==> !single::less(at, #[trigger] items[j].0),
        place(items, at, i) < items.len() ==> single::less(at, items[place(items, at, i)].0),
    decreases items.len() - i,
{
    if i < items.len() && !single::less(at, items[i].0) {
        lemma_place(items, at, i + 1);
    }
}

/// The colour of a gradient at `t`, if any stop has a readable colour.
pub fn gradient(stops: &[ColorStop], t: Single) -> (r: Option<Rgb>)
    requires
        orderable(stops_of(stops@)),
    ensures
        r == gradient_color(stops_of(stops@), t@),
{
    let mut items: Vec<(Single, Rgb)> = Vec::new();
    let mut i: usize = 0;
    assert(marks(items@) =~= Seq::empty());
    assert(stops_of(stops@.take(0)) =~= Seq::empty());
    while i < stops.len()
        invariant
            i <= stops@.len(),
            marks(items@) == in_order(readable(stops_of(stops@.take(i as int)))),
        decreases stops@.len() - i,
    {
        let ghost seen = stops_of(stops@.take(i as int));
        let ghost next = stops_of(stops@.take(i + 1));
        let ghost before = marks(items@);
        assert(next.drop_last() =~= seen);
        assert(next.last() == stops@[i as int]@);
        match parse_hex(stops[i].color.as_str()) {
            Some(rgb) => {
                let at: Single = stops[i].at;
                let mut j: usize = 0;
                while j < items.len() && !at.is_less(&items[j].0)
                    invariant
                        j <= items@.len(),
                        marks(items@) == before,
                        place(before, at@, 0) == place(before, at@, j as int),
                    decreases items@.len() - j,
                {
                    assert(before[j as int].0 == items@[j as int].0@);
                    j = j + 1;
                }
                proof {
                    if j < items@.len() {
                        assert(before[j as int].0 == items@[j as int].0@);
                    }
                    let parsed = readable(seen).push((at@, rgb));
                    assert(parsed.drop_last() =~= readable(seen));
                }
                items.insert(j, (at, rgb));
                assert(marks(items@) =~= before.insert(j as int, (at@, rgb)));
            },
            None => {},
        }
        i = i + 1;
    }
    assert(stops@.take(stops@.len() as int) =~= stops@);
    let ghost all = marks(items@);
    if items.len() == 0 {
        return None;
    }
    assert(all[0] == (items@[0].0@, items@[0].1));
    if t.is_at_most(&items[0].0) {
        return Some(items[0].1);
    }
    let least: Single = Single::from_ratio(1, 10000);
    let mut k: usize = 1;
    while k < items.len()
        invariant
            1 <= k <= items@.len(),
            all == marks(items@),
            least@ == single::fraction(1, 10000),
            gradient_color(stops_of(stops@), t@) == Some(color_from(all, t@, k as int)),
        decreases items@.len() - k,
    {
        let from: (Single, Rgb) = items[k - 1];
        let to: (Single, Rgb) = items[k];
        assert(all[k as int] == (to.0@, to.1));
        assert(all[k - 1] == (from.0@, from.1));
        if t.is_at_most(&to.0) {
            let width: Single = to.0.minus(&from.0).or_larger(&least);
            proof {
                single::lemma_fraction_positive(1, 10000);
            }
            let part: Single = t.minus(&from.0).over(&width).clamp_to_one();
            return Some(lerp_rgb(from.1, to.1, part));
        }
        k = k + 1;
    }
    Some(items[items.len() - 1].1)
}

/// Whether the readable stops can be put in order.
fn can_order(stops: &Vec<ColorStop>) -> (r: bool)
    ensures
        r == orderable(stops_of(stops@)),
{
    let mut count: usize = 0;
    let mut undefined: bool = false;
    let mut i: usize = 0;
    assert(stops_of(stops@.take(0)) =~= Seq::empty());
    while i < stops.len()
        invariant
            i <= stops@.len(),
            count <= i,
            count == readable(stops_of(stops@.take(i as int))).len(),
            undefined == exists|k: int|
                0 <= k < count && (#[trigger] readable(stops_of(stops@.take(i as int)))[k]).0
                    == Number::Nan,
        decreases stops@.len() - i,
    {
        let ghost before = readable(stops_of(stops@.take(i as int)));
        let ghost next = stops_of(stops@.take(i + 1));
        assert(next.drop_last() =~= stops_of(stops@.take(i as int)));
        assert(next.last() == stops_of(stops@)[i as int]);
        let at: Single = stops[i].at;
        match parse_hex(stops[i].color.as_str()) {
            Some(rgb) => {
                count = count + 1;
                proof {
                    let after = readable(next);
                    assert(after =~= before.push((at@, rgb)));
                    if undefined {
                        let k = choose|k: int|
                            0 <= k < before.len() && (#[trigger] before[k]).0 == Number::Nan;
                        assert(after[k].0 == Number::Nan);
                    }
                    if at@ == Number::Nan {
                        assert(after[before.len() as int].0 == Number::Nan);
                    }
                    if exists|k: int|
                        0 <= k < after.len() && (#[trigger] after[k]).0 == Number::Nan {
                        let k = choose|k: int|
                            0 <= k < after.len() && (#[trigger] after[k]).0 == Number::Nan;
                        if k < before.len() {
                            assert(before[k].0 == Number::Nan);
                        }
                    }
                }
                if at.is_nan() {
                    undefined = true;
                }
            },
            None => {
                assert(readable(next) =~= before);
            },
        }
        i = i + 1;
    }
    assert(stops@.take(i as int) =~= stops@);
    count < 2 || !undefined
}

impl Theme {
    /// Whether both gradients can be put in order.
    pub fn is_usable(&self) -> (r: bool)
        ensures
            r == self@.usable(),
    {
        can_order(&self.foreground) && can_order(&self.background)
    }
}

/// The brightness of a colour, between zero and one.
pub open spec fn brightness(rgb: Rgb) -> Number {
    single::clamped(
        single::quotient(
            single::sum(
                single::sum(
                    single::product(single::whole(rgb.0 as int), single::fraction(299, 1000)),
                    single::product(single::whole(rgb.1 as int), single::fraction(587, 1000)),
                ),
                single::product(single::whole(rgb.2 as int), single::fraction(114, 1000)),
            ),
            single::whole(255),
        ),
    )
}

/// The brightness of a colour, between zero and one.
pub fn intensity(rgb: Rgb) -> (r: Single)
    ensures
        r@ == brightness(rgb),
{
    let red: Single = Single::from_u64(rgb.0 as u64).times(&Single::from_ratio(299, 1000));
    let green: Single = Single::from_u64(rgb.1 as u64).times(&Single::from_ratio(587, 1000));
    let blue: Single = Single::from_u64(rgb.2 as u64).times(&Single::from_ratio(114, 1000));
    let full: Single = Single::from_u64(255);
    proof {
        single::lemma_whole_positive(255);
    }
    red.plus(&green).plus(&blue).over(&full).clamp_to_one()
}

/// The colour of a text, or `other` where the text is left out or cannot be read.
pub open spec fn color_or(text: Option<Seq<char>>, other: Rgb) -> Rgb {
    match text {
        Some(raw) => match hex_color(raw) {
            Some(rgb) => rgb,
            None => other,
        },
        None => other,
    }
}

impl ThemeView {
    /// Whether both gradients can be put in order.
    pub open spec fn usable(self) -> bool {
        orderable(self.foreground) && orderable(self.background)
    }

    /// The foreground colour that stands for the terminal's own.
    pub open spec fn fg(self) -> Rgb {
        color_or(self.default_fg, Rgb(255, 255, 255))
    }

    /// The background colour that stands for the terminal's own.
    pub open spec fn bg(self) -> Rgb {
        color_or(self.default_bg, Rgb(0, 0, 0))
    }

    /// The colour that replaces a colour.
    pub open spec fn recolored(self, rgb: Rgb, foreground: bool) -> Rgb {
        let stops = if foreground {
            self.foreground
        } else {
            self.background
        };
        match gradient_color(stops, brightness(rgb)) {
            Some(found) => found,
            None => rgb,
        }
    }

    /// The entry of the palette maps for an index. The background map comes first for a
    /// background.
    pub open spec fn entry(self, idx: u8, foreground: bool) -> Option<Seq<char>> {
        if !foreground && self.background_palette.contains_key(idx) {
            Some(self.background_palette[idx])
        } else if self.palette.contains_key(idx) {
            Some(self.palette[idx])
        } else {
            None
        }
    }

    /// The colour that replaces an indexed colour.
    pub open spec fn recolored_index(self, idx: u8, foreground: bool) -> Rgb {
        color_or(
            self.entry(idx, foreground),
            self.recolored(palette_color(idx), foreground),
        )
    }

    /// Whether the theme leaves every colour as the terminal shows it.
    pub open spec fn transparent(self) -> bool {
        &&& !self.force_default
        &&& self.palette == Map::<u8, Seq<char>>::empty()
        &&& self.background_palette == Map::<u8, Seq<char>>::empty()
        &&& self.foreground.len() == 0
        &&& self.background.len() == 0
    }
}

fn rgb_or(text: &Option<String>, other: Rgb) -> (r: Rgb)
    ensures
        r == color_or(optional_text(*text), other),
{
    match text {
        Some(raw) => match parse_hex(raw.as_str()) {
            Some(rgb) => rgb,
            None => other,
        },
        None => other,
    }
}

impl Theme {
    /// The foreground colour that stands for the terminal's own.
    pub fn default_fg_rgb(&self) -> (r: Rgb)
        ensures
            r == self@.fg(),
    {
        rgb_or(&self.default_fg, Rgb(255, 255, 255))
    }

    /// The background colour that stands for the terminal's own.
    pub fn default_bg_rgb(&self) -> (r: Rgb)
        ensures
            r == self@.bg(),
    {
        rgb_or(&self.default_bg, Rgb(0, 0, 0))
    }

    /// The colour that replaces a colour.
    pub fn map_rgb(&self, rgb: Rgb, foreground: bool) -> (r: Rgb)
        requires
            self@.usable(),
        ensures
            r == self@.recolored(rgb, foreground),
    {
        let level: Single = intensity(rgb);
        let found: Option<Rgb> = if foreground {
            gradient(self.foreground.as_slice(), level)
        } else {
            gradient(self.background.as_slice(), level)
        };
        match found {
            Some(color) => color,
            None => rgb,
        }
    }

    /// The colour that replaces an indexed colour.
    pub fn map_indexed_color(&self, idx: u8, foreground: bool) -> (r: Rgb)
        requires
            self@.usable(),
        ensures
            r == self@.recolored_index(idx, foreground),
    {
        let mut mapped: Option<&String> = None;
        if !foreground {
            mapped = self.background_palette_map.get(&idx);
        }
        if mapped.is_none() {
            mapped = self.palette_map.get(&idx);
        }
        if let Some(raw) = mapped {
            if let Some(rgb) = parse_hex(raw.as_str()) {
                return rgb;
            }
        }
        self.map_rgb(indexed_color(idx), foreground)
    }
}

/// Whether a theme leaves every colour as the terminal shows it; no theme does so too.
pub fn theme_preserves_terminal_colors(theme: Option<&Theme>) -> (r: bool)
    ensures
        r == (theme is None || theme->0@.transparent()),
{
    match theme {
        None => true,
        Some(theme) => {
            proof {
                assert(theme.palette_map@.is_empty() <==> theme@.palette == Map::<
                    u8,
                    Seq<char>,
                >::empty()) by {
                    lemma_mapped_empty(theme.palette_map@);
                }
                assert(theme.background_palette_map@.is_empty() <==> theme@.background_palette
                    == Map::<u8, Seq<char>>::empty()) by {
                    lemma_mapped_empty(theme.background_palette_map@);
                }
            }
            !theme.force_default && theme.palette_map.is_empty()
                && theme.background_palette_map.is_empty() && theme.foreground.len() == 0
                && theme.background.len() == 0
        },
    }
}

proof fn lemma_mapped_empty(map: Map<u8, String>)
    ensures
        map.is_empty() <==> map.map_values(|color: String| color@) == Map::<
            u8,
            Seq<char>,
        >::empty(),
{
    let mapped = map.map_values(|color: String| color@);
    if map.is_empty() {
        assert(mapped =~= Map::<u8, Seq<char>>::empty());
    } else if mapped == Map::<u8, Seq<char>>::empty() {
        assert(map.dom() =~= mapped.dom());
        assert(map =~= Map::<u8, String>::empty());
    }
}

/// A stop of a built-in gradient, with its position in hundredths.
pub open spec fn stop_at(hundredths: int, color: Seq<char>) -> Stop {
    Stop { at: single::fraction(hundredths, 100), color }
}

/// The theme that leaves every colour as the terminal shows it.
pub open spec fn plain_theme() -> ThemeView {
    ThemeView {
        name: Some("default"@),
        default_fg: None,
        default_bg: None,
        force_default: false,
        palette: Map::empty(),
        background_palette: Map::empty(),
        foreground: Seq::empty(),
        background: Seq::empty(),
    }
}

/// The built-in green theme.
pub open spec fn green_theme() -> ThemeView {
    ThemeView {
        name: Some("matrix-green"@),
        default_fg: Some("#b6ffd0"@),
        default_bg: Some("#001008"@),
        force_default: true,
        palette: Map::empty(),
        background_palette: Map::empty(),
        foreground: seq![
            stop_at(0, "#004d26"@),
            stop_at(35, "#00aa55"@),
            stop_at(70, "#33ff99"@),
            stop_at(100, "#eafff2"@),
        ],
        background: seq![
            stop_at(0, "#001008"@),
            stop_at(50, "#003018"@),
            stop_at(100, "#006633"@),
        ],
    }
}

/// The built-in pink theme.
pub open spec fn pink_theme() -> ThemeView {
    ThemeView {
        name: Some("jirai-pink"@),
        default_fg: Some("#ffcdeb"@),
        default_bg: Some("#120018"@),
        force_default: true,
        palette: Map::empty(),
        background_palette: Map::empty(),
        foreground: seq![
            stop_at(0, "#84205c"@),
            stop_at(30, "#ff45ac"@),
            stop_at(62, "#ff8fd6"@),
            stop_at(84, "#ffcdeb"@),
            stop_at(100, "#fff2fa"@),
        ],
        background: seq![
            stop_at(0, "#120018"@),
            stop_at(28, "#26002a"@),
            stop_at(55, "#570a41"@),
            stop_at(78, "#962369"@),
            stop_at(100, "#ff8fcf"@),
        ],
    }
}

/// The built-in theme of a name; pink for a name that is not known.
pub open spec fn builtin(name: Seq<char>) -> ThemeView {
    if name == "default"@ {
        plain_theme()
    } else if name == "matrix"@ || name == "matrix-green"@ {
        green_theme()
    } else {
        pink_theme()
    }
}

fn stop(hundredths: u32, color: &str) -> (r: ColorStop)
    ensures
        r@ == stop_at(hundredths as int, color@),
{
    ColorStop { at: Single::from_ratio(hundredths, 100), color: color.to_owned() }
}

/// Stops at defined positions can be put in order.
pub proof fn lemma_orderable(stops: Seq<Stop>)
    requires
        forall|i: int| 0 <= i < stops.len() ==> (#[trigger] stops[i]).at != Number::Nan,
    ensures
        forall|i: int|
            0 <= i < readable(stops).len() ==> (#[trigger] readable(stops)[i]).0 != Number::Nan,
        orderable(stops),
    decreases stops.len(),
{
    if stops.len() > 0 {
        assert forall|i: int| 0 <= i < stops.drop_last().len() implies (
        #[trigger] stops.drop_last()[i]).at != Number::Nan by {
            assert(stops.drop_last()[i] == stops[i]);
        }
        lemma_orderable(stops.drop_last());
    }
}

fn themed(
    name: &str,
    fg: &str,
    bg: &str,
    foreground: Vec<ColorStop>,
    background: Vec<ColorStop>,
) -> (r: Theme)
    ensures
        r@ == (ThemeView {
            name: Some(name@),
            default_fg: Some(fg@),
            default_bg: Some(bg@),
            force_default: true,
            palette: Map::empty(),
            background_palette: Map::empty(),
            foreground: stops_of(foreground@),
            background: stops_of(background@),
        }),
{
    let r: Theme = Theme {
        name: Some(name.to_owned()),
        default_fg: Some(fg.to_owned()),
        default_bg: Some(bg.to_owned()),
        force_default: true,
        palette_map: HashMap::new(),
        background_palette_map: HashMap::new(),
        foreground,
        background,
    };
    assert(r@.palette =~= Map::empty());
    assert(r@.background_palette =~= Map::empty());
    r
}

/// The built-in theme of a name.
pub fn builtin_theme(name: &str) -> (r: Theme)
    ensures
        r@ == builtin(name@),
        r@.usable(),
{
    if same(name, "default") {
        let r: Theme = Theme {
            name: Some("default".to_owned()),
            default_fg: None,
            default_bg: None,
            force_default: false,
            palette_map: HashMap::new(),
            background_palette_map: HashMap::new(),
            foreground: Vec::new(),
            background: Vec::new(),
        };
        assert(r@ =~= plain_theme());
        return r;
    }
    if same(name, "matrix") || same(name, "matrix-green") {
        let foreground: Vec<ColorStop> = vec![
            stop(0, "#004d26"),
            stop(35, "#00aa55"),
            stop(70, "#33ff99"),
            stop(100, "#eafff2"),
        ];
        let background: Vec<ColorStop> = vec![
            stop(0, "#001008"),
            stop(50, "#003018"),
            stop(100, "#006633"),
        ];
        assert(stops_of(foreground@) =~= green_theme().foreground);
        assert(stops_of(background@) =~= green_theme().background);
        proof {
            lemma_orderable(green_theme().foreground);
            lemma_orderable(green_theme().background);
        }
        return themed("matrix-green", "#b6ffd0", "#001008", foreground, background);
    }
    let foreground: Vec<ColorStop> = vec![
        stop(0, "#84205c"),
        stop(30, "#ff45ac"),
        stop(62, "#ff8fd6"),
        stop(84, "#ffcdeb"),
        stop(100, "#fff2fa"),
    ];
    let background: Vec<ColorStop> = vec![
        stop(0, "#120018"),
        stop(28, "#26002a"),
        stop(55, "#570a41"),
        stop(78, "#962369"),
        stop(100, "#ff8fcf"),
    ];
    assert(stops_of(foreground@) =~= pink_theme().foreground);
    assert(stops_of(background@) =~= pink_theme().background);
    proof {
        lemma_orderable(pink_theme().foreground);
        lemma_orderable(pink_theme().background);
    }
    themed("jirai-pink", "#ffcdeb", "#120018", foreground, background)
}

/// Ordering loses no item and adds none.
pub proof fn law_in_order_keeps_items(items: Seq<(Number, Rgb)>)
    ensures
        in_order(items).to_multiset() == items.to_multiset(),
    decreases items.len(),
{
    broadcast use vstd::seq_lib::group_to_multiset_ensures;

    if items.len() > 0 {
        law_in_order_keeps_items(items.drop_last());
        let before = in_order(items.drop_last());
        let at = place(before, items.last().0, 0);
        lemma_place(before, items.last().0, 0);
        vstd::seq_lib::to_multiset_insert(before, at, items.last());
        assert(items =~= items.drop_last().push(items.last()));
    }
}

/// Items with defined positions come out with rising positions.
pub proof fn law_in_order_rises(items: Seq<(Number, Rgb)>, i: int, j: int)
    requires
        forall|k: int| 0 <= k < items.len() ==> (#[trigger] items[k]).0 != Number::Nan,
        0 <= i <= j < items.len(),
    ensures
        in_order(items).len() == items.len(),
        single::at_most(in_order(items)[i].0, in_order(items)[j].0),
    decreases items.len(),
{
    lemma_in_order_defined(items);
    lemma_in_order_length(items);
    let front = items.drop_last();
    let before = in_order(front);
    let last = items.last();
    let at = place(before, last.0, 0);
    lemma_place(before, last.0, 0);
    lemma_in_order_length(front);
    assert forall|k: int| 0 <= k < front.len() implies (#[trigger] front[k]).0 != Number::Nan by {
        assert(front[k] == items[k]);
    }
    lemma_in_order_defined(front);
    let x = if i < at {
        i
    } else {
        i - 1
    };
    let y = if j < at {
        j
    } else {
        j - 1
    };
    if i != at && j != at {
        law_in_order_rises(front, x, y);
    } else if i == at && j > at {
        law_in_order_rises(front, at, j - 1);
    } else if j == at && i < at {
        assert(!single::less(last.0, before[i].0));
    }
}

proof fn lemma_in_order_defined(items: Seq<(Number, Rgb)>)
    requires
        forall|k: int| 0 <= k < items.len() ==> (#[trigger] items[k]).0 != Number::Nan,
    ensures
        forall|k: int|
            0 <= k < in_order(items).len() ==> (#[trigger] in_order(items)[k]).0 != Number::Nan,
    decreases items.len(),
{
    if items.len() > 0 {
        let front = items.drop_last();
        assert forall|k: int| 0 <= k < front.len() implies (#[trigger] front[k]).0
            != Number::Nan by {
            assert(front[k] == items[k]);
        }
        lemma_in_order_defined(front);
        lemma_place(in_order(front), items.last().0, 0);
    }
}

proof fn lemma_rounded_whole(n: int)
    requires
        0 <= n <= 255,
    ensures
        single::rounded(Number::Finite(n * single::unit()), 255) == n,
{
    let u = single::unit();
    vstd::arithmetic::power2::lemma_pow2_pos(149);
    assert(n * u >= 0) by (nonlinear_arith)
        requires
            n >= 0,
            u > 0,
    ;
    if n > 0 {
        assert(n * u > 0) by (nonlinear_arith)
            requires
                n > 0,
                u > 0,
        ;
        assert(2 * (n * u) + u == n * (2 * u) + u) by (nonlinear_arith);
        vstd::arithmetic::div_mod::lemma_fundamental_div_mod_converse(
            2 * (n * u) + u,
            2 * u,
            n,
            u,
        );
    } else {
        assert(n * u == 0) by (nonlinear_arith)
            requires
                n == 0,
        ;
    }
}

proof fn lemma_mixed_channel_ends(a: u8, b: u8)
    ensures
        mixed_channel(a, b, Number::Finite(0)) == a,
        mixed_channel(a, b, Number::Finite(single::unit())) == b,
{
    let u = single::unit();
    let from = a as int;
    let by = b as int - a as int;
    single::lemma_whole_exact(from);
    single::lemma_whole_exact(b as int);
    assert(-(from * u) == -from * u) by (nonlinear_arith);
    single::lemma_sum_exact(b as int, -from);
    let way = single::difference(single::whole(b as int), single::whole(from));
    assert(way == Number::Finite(by * u));
    single::lemma_times_one(by);
    single::lemma_sum_exact(from, by);
    lemma_rounded_whole(b as int);
    vstd::arithmetic::power2::lemma_pow2_pos(149);
    vstd::arithmetic::power2::lemma_pow2_pos(24);
    single::lemma_nearest_exact(0, u, 0, 149);
    assert((by * u) * 0 == 0) by (nonlinear_arith);
    assert(single::product(way, Number::Finite(0)) == Number::Finite(0 * u));
    single::lemma_sum_exact(from, 0);
    lemma_rounded_whole(from);
}

/// A mix starts with the one colour and ends with the other.
pub proof fn law_mix_ends(a: Rgb, b: Rgb)
    ensures
        mixed(a, b, Number::Finite(0)) == a,
        mixed(a, b, Number::Finite(single::unit())) == b,
{
    lemma_mixed_channel_ends(a.0, b.0);
    lemma_mixed_channel_ends(a.1, b.1);
    lemma_mixed_channel_ends(a.2, b.2);
}

} // verus!
