//! Where regular expressions match.
use crate::text;
use regex::Regex;
use vstd::prelude::*;

verus! {

/// What is wrong with a pattern that does not compile.
#[verifier::external_type_specification]
#[verifier::external_body]
pub struct ExRegexError(regex::Error);

/// A pattern that, compiled with the default options, matches what a regular expression matches.
pub uninterp spec fn source(regex: Regex) -> Seq<char>;

/// The byte ranges of the successive matches of a pattern in a text.
pub uninterp spec fn spans(pattern: Seq<char>, text: Seq<char>) -> Seq<(usize, usize)>;

/// Whether byte ranges lie on character boundaries of a text, one after the other.
pub open spec fn in_text(spans: Seq<(usize, usize)>, text: Seq<char>) -> bool {
    &&& forall|i: int|
        0 <= i < spans.len() ==> (#[trigger] spans[i]).0 <= spans[i].1 && text::boundary(
            text,
            spans[i].0 as int,
        ) && text::boundary(text, spans[i].1 as int)
    &&& forall|i: int, j: int| 0 <= i < j < spans.len() ==> spans[i].1 <= spans[j].0
}

/// `regex::Regex::new` with the default options. A result that is `Ok` has the pattern as its
/// source. Which patterns compile is not stated: a limit on the size of the compiled form decides
/// too, and that size depends on the machine.
#[verifier::external_body]
pub(crate) fn compile(pattern: &str) -> (r: Result<Regex, regex::Error>)
    ensures
        r is Ok ==> source(r->Ok_0) == pattern@,
{
    Regex::new(pattern)
}

/// `regex::Regex::find_iter`, with the start and the end of each match. They depend on the
/// pattern and the text alone, lie on character boundaries, and come one after the other
/// without overlap.
#[verifier::external_body]
pub(crate) fn find_spans(regex: &Regex, text: &str) -> (r: Vec<(usize, usize)>)
    ensures
        r@ == spans(source(*regex), text@),
        in_text(r@, text@),
{
    regex.find_iter(text).map(|found| (found.start(), found.end())).collect()
}

/// The range of characters that a range of bytes covers.
pub open spec fn char_span(text: Seq<char>, span: (usize, usize)) -> (int, int) {
    (text::chars_before(text, span.0 as int), text::chars_before(text, span.1 as int))
}

/// The range of characters that a range of bytes covers.
pub fn char_range(text: &str, span: (usize, usize)) -> (r: (usize, usize))
    requires
        span.0 <= span.1,
        text::boundary(text@, span.0 as int),
        text::boundary(text@, span.1 as int),
    ensures
        r.0 == char_span(text@, span).0,
        r.1 == char_span(text@, span).1,
        r.0 <= r.1 <= text@.len(),
        r.0 == r.1 <==> span.0 == span.1,
{
    proof {
        lemma_within(text@, span.0 as int);
        lemma_within(text@, span.1 as int);
    }
    let from: usize = text::byte_to_char_idx(text, span.0);
    let to: usize = text::byte_to_char_idx(text, span.1);
    proof {
        if to < from {
            text::lemma_offset_grows(text@, to as int, from as int);
        }
        if from < to {
            text::lemma_offset_grows(text@, from as int, to as int);
        }
    }
    (from, to)
}

proof fn lemma_within(text: Seq<char>, byte: int)
    requires
        text::boundary(text, byte),
    ensures
        text::held_within(text, byte) == byte,
{
    let n = text::chars_before(text, byte);
    assert(0 <= n <= text.len() && text::offset(text, n) == byte);
    if n < text.len() {
        text::lemma_offset_grows(text, n, text.len() as int);
    }
}

} // verus!
