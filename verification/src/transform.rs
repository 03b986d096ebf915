//! Replacing and masking of output, without a change of width.
use crate::matching;
use crate::matching::{char_range, find_spans};
use crate::model::{OutputTransformKind, OutputTransformRule};
use crate::text::{chars_of, text_of};
use vstd::prelude::*;

verus! {

/// What stands in place of the character at `offset` of a match. A replacement text that is too
/// short is filled up with blanks.
pub open spec fn substitute(kind: OutputTransformKind, offset: int) -> char {
    match kind {
        OutputTransformKind::Replace(text) => if offset < text@.len() {
            text@[offset]
        } else {
            ' '
        },
        OutputTransformKind::Mask(mask) => mask,
    }
}

/// What stands in place of a match of `width` characters.
pub open spec fn substitutes(kind: OutputTransformKind, width: int) -> Seq<char> {
    Seq::new(width as nat, |offset: int| substitute(kind, offset))
}

/// A line with the characters from `from` to the one before `to` replaced.
pub open spec fn overlaid(line: Seq<char>, from: int, to: int, kind: OutputTransformKind) -> Seq<
    char,
> {
    Seq::new(
        line.len(),
        |i: int|
            if from <= i < to {
                substitute(kind, i - from)
            } else {
                line[i]
            },
    )
}

/// A line with the first `n` of some matches replaced.
pub open spec fn replaced(
    line: Seq<char>,
    spans: Seq<(usize, usize)>,
    kind: OutputTransformKind,
    n: int,
) -> Seq<char>
    decreases n,
{
    if n <= 0 {
        line
    } else {
        let span = matching::char_span(line, spans[n - 1]);
        overlaid(replaced(line, spans, kind, n - 1), span.0, span.1, kind)
    }
}

/// A line after the first `n` of some rules.
pub open spec fn transformed(line: Seq<char>, rules: Seq<OutputTransformRule>, n: int) -> Seq<char>
    decreases n,
{
    if n <= 0 {
        line
    } else {
        let before = transformed(line, rules, n - 1);
        let spans = matching::spans(matching::source(rules[n - 1].regex), before);
        replaced(before, spans, rules[n - 1].kind, spans.len() as int)
    }
}

/// A text cut or filled up with blanks to a width.
pub fn fit_to_width(text: &str, width: usize) -> (r: Vec<char>)
    ensures
        r@.len() == width,
        forall|i: int|
            0 <= i < width ==> #[trigger] r@[i] == (if i < text@.len() {
                text@[i]
            } else {
                ' '
            }),
{
    let source: Vec<char> = chars_of(text);
    let mut r: Vec<char> = Vec::new();
    while r.len() < width
        invariant
            r@.len() <= width,
            source@ == text@,
            forall|i: int|
                0 <= i < r@.len() ==> #[trigger] r@[i] == (if i < text@.len() {
                    text@[i]
                } else {
                    ' '
                }),
        decreases width - r@.len(),
    {
        let i: usize = r.len();
        if i < source.len() {
            r.push(source[i]);
        } else {
            r.push(' ');
        }
    }
    r
}

/// What stands in place of a match, as wide as the match.
pub fn width_preserving_text(matched: &str, kind: &OutputTransformKind) -> (r: Vec<char>)
    ensures
        r@ == substitutes(*kind, matched@.len() as int),
{
    let width: usize = chars_of(matched).len();
    substitutes_of(kind, width)
}

fn substitutes_of(kind: &OutputTransformKind, width: usize) -> (r: Vec<char>)
    ensures
        r@ == substitutes(*kind, width as int),
{
    match kind {
        OutputTransformKind::Replace(text) => {
            let r: Vec<char> = fit_to_width(text.as_str(), width);
            assert(r@ =~= substitutes(*kind, width as int));
            r
        },
        OutputTransformKind::Mask(mask) => {
            let mut r: Vec<char> = Vec::new();
            while r.len() < width
                invariant
                    r@.len() <= width,
                    forall|i: int| 0 <= i < r@.len() ==> r@[i] == *mask,
                decreases width - r@.len(),
            {
                r.push(*mask);
            }
            assert(r@ =~= substitutes(*kind, width as int));
            r
        },
    }
}

/// Replaces matches at known places of a line.
pub fn replace_spans(line: &str, spans: &Vec<(usize, usize)>, kind: &OutputTransformKind) -> (r:
    String)
    requires
        matching::in_text(spans@, line@),
    ensures
        r@ == replaced(line@, spans@, *kind, spans@.len() as int),
{
    let mut chars: Vec<char> = chars_of(line);
    let mut n: usize = 0;
    while n < spans.len()
        invariant
            n <= spans@.len(),
            matching::in_text(spans@, line@),
            chars@.len() == line@.len(),
            chars@ == replaced(line@, spans@, *kind, n as int),
        decreases spans@.len() - n,
    {
        let ghost before = chars@;
        let (from, to) = char_range(line, spans[n]);
        let fill: Vec<char> = substitutes_of(kind, to - from);
        let mut i: usize = from;
        while i < to
            invariant
                from <= i <= to <= chars@.len(),
                chars@.len() == before.len(),
                fill@ == substitutes(*kind, to - from),
                chars@ == overlaid(before, from as int, i as int, *kind),
            decreases to - i,
        {
            chars.set(i, fill[i - from]);
            i = i + 1;
            assert(chars@ =~= overlaid(before, from as int, i as int, *kind));
        }
        assert(from == to ==> before =~= overlaid(before, from as int, to as int, *kind));
        n = n + 1;
    }
    text_of(chars.as_slice())
}

/// Applies rules to a line, one after the other.
pub fn transform_line(line: &str, rules: &[OutputTransformRule]) -> (r: String)
    ensures
        r@ == transformed(line@, rules@, rules@.len() as int),
{
    let mut current: String = line.to_owned();
    let mut n: usize = 0;
    while n < rules.len()
        invariant
            n <= rules@.len(),
            current@ == transformed(line@, rules@, n as int),
        decreases rules@.len() - n,
    {
        let spans: Vec<(usize, usize)> = find_spans(&rules[n].regex, current.as_str());
        if spans.len() > 0 {
            current = replace_spans(current.as_str(), &spans, &rules[n].kind);
        }
        n = n + 1;
    }
    current
}

/// The contents of some lines.
pub open spec fn texts(lines: Seq<String>) -> Seq<Seq<char>> {
    lines.map_values(|line: String| line@)
}

/// Applies rules to each line.
pub fn apply_output_transforms(lines: &[String], rules: &[OutputTransformRule]) -> (r: Vec<String>)
    ensures
        texts(r@) == texts(lines@).map_values(
            |line: Seq<char>| transformed(line, rules@, rules@.len() as int),
        ),
{
    let mut r: Vec<String> = Vec::new();
    let mut i: usize = 0;
    while i < lines.len()
        invariant
            i <= lines@.len(),
            r@.len() == i,
            forall|j: int|
                0 <= j < i ==> (#[trigger] r@[j])@ == transformed(
                    lines@[j]@,
                    rules@,
                    rules@.len() as int,
                ),
        decreases lines@.len() - i,
    {
        r.push(transform_line(lines[i].as_str(), rules));
        i = i + 1;
    }
    assert(texts(r@) =~= texts(lines@).map_values(
        |line: Seq<char>| transformed(line, rules@, rules@.len() as int),
    ));
    r
}

/// Rules never change the width of a line.
pub proof fn law_width_is_kept(line: Seq<char>, rules: Seq<OutputTransformRule>, n: int)
    ensures
        transformed(line, rules, n).len() == line.len(),
    decreases n,
{
    if n > 0 {
        law_width_is_kept(line, rules, n - 1);
        let before = transformed(line, rules, n - 1);
        let spans = matching::spans(matching::source(rules[n - 1].regex), before);
        law_matches_keep_width(before, spans, rules[n - 1].kind, spans.len() as int);
    }
}

/// The replacement of matches does not change the width of a line.
pub proof fn law_matches_keep_width(
    line: Seq<char>,
    spans: Seq<(usize, usize)>,
    kind: OutputTransformKind,
    n: int,
)
    ensures
        replaced(line, spans, kind, n).len() == line.len(),
    decreases n,
{
    if n > 0 {
        law_matches_keep_width(line, spans, kind, n - 1);
    }
}

/// A character that no match covers stays as it is.
pub proof fn law_uncovered_stays(
    line: Seq<char>,
    spans: Seq<(usize, usize)>,
    kind: OutputTransformKind,
    i: int,
    n: int,
)
    requires
        0 <= i < line.len(),
        forall|k: int|
            0 <= k < n ==> !(matching::char_span(line, #[trigger] spans[k]).0 <= i
                < matching::char_span(line, spans[k]).1),
    ensures
        replaced(line, spans, kind, n)[i] == line[i],
    decreases n,
{
    law_matches_keep_width(line, spans, kind, n);
    if n > 0 {
        law_uncovered_stays(line, spans, kind, i, n - 1);
        law_matches_keep_width(line, spans, kind, n - 1);
        let span = spans[n - 1];
    }
}

/// A masked match shows nothing but the mask.
pub proof fn law_mask_covers(
    line: Seq<char>,
    spans: Seq<(usize, usize)>,
    mask: char,
    i: int,
    k: int,
    n: int,
)
    requires
        0 <= i < line.len(),
        0 <= k < n <= spans.len(),
        matching::char_span(line, spans[k]).0 <= i < matching::char_span(line, spans[k]).1,
    ensures
        replaced(line, spans, OutputTransformKind::Mask(mask), n)[i] == mask,
    decreases n,
{
    law_matches_keep_width(line, spans, OutputTransformKind::Mask(mask), n - 1);
    if k < n - 1 {
        law_mask_covers(line, spans, mask, i, k, n - 1);
    }
}

} // verus!
