//! What matches of patterns do: they are painted, replaced, masked, and set off triggers.
use crate::highlight;
use crate::highlight::TriggerView;
use crate::matching;
use crate::model::{HighlightRule, OutputTransformKind, OutputTransformRule, Rgb};
use crate::text;
use crate::theme;
use crate::transform;
use crate::triggers;
use std::collections::hash_map::DefaultHasher;
use vstd::prelude::*;
use vstd::std_specs::hash::*;
use vstd::utf8::*;

verus! {

/// The range of characters of a match lies behind as many bytes as the match starts and ends at.
pub proof fn law_character_ranges(line: Seq<char>, span: (usize, usize))
    requires
        text::boundary(line, span.0 as int),
        text::boundary(line, span.1 as int),
    ensures
        ({
            let (from, to) = matching::char_span(line, span);
            &&& 0 <= from <= line.len()
            &&& 0 <= to <= line.len()
            &&& encode_utf8(line.take(from)).len() == span.0
            &&& encode_utf8(line.take(to)).len() == span.1
        }),
{
    let (from, to) = matching::char_span(line, span);
    text::lemma_encoded_length(line.take(from));
    text::lemma_encoded_length(line.take(to));
    lemma_offset_of_start(line, from, from);
    lemma_offset_of_start(line, to, to);
}

proof fn lemma_offset_of_start(line: Seq<char>, m: int, n: int)
    requires
        0 <= n <= m <= line.len(),
    ensures
        text::offset(line.take(m), n) == text::offset(line, n),
    decreases n,
{
    if n > 0 {
        lemma_offset_of_start(line, m, n - 1);
    }
}

proof fn lemma_ranges_in_turn(line: Seq<char>, spans: Seq<(usize, usize)>, i: int, j: int)
    requires
        matching::in_text(spans, line),
        0 <= i < j < spans.len(),
    ensures
        matching::char_span(line, spans[i]).1 <= matching::char_span(line, spans[j]).0,
{
    let a = matching::char_span(line, spans[i]).1;
    let b = matching::char_span(line, spans[j]).0;
    assert(spans[i].1 <= spans[j].0);
    if b < a {
        text::lemma_offset_grows(line, b, a);
    }
}

/// Whether a match of a rule covers a character of a line.
pub open spec fn paints(rule: HighlightRule, line: Seq<char>, col: int) -> bool {
    let spans = matching::spans(matching::source(rule.regex), line);
    exists|k: int|
        0 <= k < spans.len() && matching::char_span(line, #[trigger] spans[k]).0 <= col
            < matching::char_span(line, spans[k]).1
}

proof fn lemma_colors_length(line: Seq<char>, rules: Seq<HighlightRule>, n: int)
    ensures
        highlight::line_colors(line, rules, n).len() == line.len(),
    decreases n,
{
    if n > 0 {
        lemma_colors_length(line, rules, n - 1);
    }
}

/// A character that a match of a rule covers, and no match of a later rule, has the colour of that
/// rule.
pub proof fn law_matches_have_their_color(
    line: Seq<char>,
    rules: Seq<HighlightRule>,
    k: int,
    n: int,
    col: int,
)
    requires
        0 <= col < line.len(),
        0 <= k < n <= rules.len(),
        paints(rules[k], line, col),
        forall|j: int| k < j < n ==> !paints(#[trigger] rules[j], line, col),
    ensures
        highlight::line_colors(line, rules, n)[col] == Some(rules[k].color),
    decreases n,
{
    lemma_colors_length(line, rules, n);
    lemma_colors_length(line, rules, n - 1);
    let spans = matching::spans(matching::source(rules[n - 1].regex), line);
    if k < n - 1 {
        law_matches_have_their_color(line, rules, k, n - 1, col);
        assert(!paints(rules[n - 1], line, col));
        assert(!highlight::covered(line, spans, col, spans.len() as int)) by {
            if highlight::covered(line, spans, col, spans.len() as int) {
                let s = choose|s: int|
                    0 <= s < spans.len() && matching::char_span(line, #[trigger] spans[s]).0 <= col
                        < matching::char_span(line, spans[s]).1;
                assert(paints(rules[n - 1], line, col));
            }
        }
    } else {
        let s = choose|s: int|
            0 <= s < spans.len() && matching::char_span(line, #[trigger] spans[s]).0 <= col
                < matching::char_span(line, spans[s]).1;
        assert(highlight::covered(line, spans, col, spans.len() as int));
    }
}

/// A character that no match of any rule covers has no colour.
pub proof fn law_other_text_has_no_color(
    line: Seq<char>,
    rules: Seq<HighlightRule>,
    n: int,
    col: int,
)
    requires
        0 <= col < line.len(),
        0 <= n <= rules.len(),
        forall|j: int| 0 <= j < n ==> !paints(#[trigger] rules[j], line, col),
    ensures
        highlight::line_colors(line, rules, n)[col] is None,
        highlight::line_colors(line, rules, n).len() == line.len(),
    decreases n,
{
    lemma_colors_length(line, rules, n);
    if n > 0 {
        lemma_colors_length(line, rules, n - 1);
        law_other_text_has_no_color(line, rules, n - 1, col);
        let spans = matching::spans(matching::source(rules[n - 1].regex), line);
        assert(!paints(rules[n - 1], line, col));
        if highlight::covered(line, spans, col, spans.len() as int) {
            let s = choose|s: int|
                0 <= s < spans.len() && matching::char_span(line, #[trigger] spans[s]).0 <= col
                    < matching::char_span(line, spans[s]).1;
            assert(paints(rules[n - 1], line, col));
        }
    }
}

/// The matches of a pattern in a line, each as the text that it covers, in their order.
pub proof fn law_matched_texts(pattern: Seq<char>, line: Seq<char>, k: int)
    requires
        0 <= k < matching::spans(pattern, line).len(),
    ensures
        ({
            let spans = matching::spans(pattern, line);
            let found = highlight::hits(pattern, seq![line], 1);
            &&& found.len() == spans.len()
            &&& found[k] == line.subrange(
                matching::char_span(line, spans[k]).0,
                matching::char_span(line, spans[k]).1,
            )
        }),
{
    let found = highlight::hits(pattern, seq![line], 1);
    assert(highlight::hits(pattern, seq![line], 0) == Seq::<Seq<char>>::empty());
    assert(found =~= highlight::line_hits(pattern, line));
}

/// The matches in some lines come line by line.
pub proof fn law_matches_line_by_line(pattern: Seq<char>, front: Seq<Seq<char>>, line: Seq<char>)
    ensures
        highlight::hits(pattern, front.push(line), front.len() as int + 1) == highlight::hits(
            pattern,
            front,
            front.len() as int,
        ) + highlight::hits(pattern, seq![line], 1),
{
    lemma_hits_prefix(pattern, front.push(line), front, front.len() as int);
    assert(highlight::hits(pattern, seq![line], 0) == Seq::<Seq<char>>::empty());
    assert(highlight::hits(pattern, seq![line], 1) =~= highlight::line_hits(pattern, line));
}

proof fn lemma_hits_prefix(
    pattern: Seq<char>,
    long: Seq<Seq<char>>,
    short: Seq<Seq<char>>,
    n: int,
)
    requires
        0 <= n <= short.len() <= long.len(),
        forall|i: int| 0 <= i < n ==> long[i] == short[i],
    ensures
        highlight::hits(pattern, long, n) == highlight::hits(pattern, short, n),
    decreases n,
{
    if n > 0 {
        lemma_hits_prefix(pattern, long, short, n - 1);
    }
}

/// A rule that matches nothing sets off no trigger.
pub proof fn law_no_match_no_trigger(rule: HighlightRule, lines: Seq<Seq<char>>)
    requires
        highlight::hits(matching::source(rule.regex), lines, lines.len() as int).len() == 0,
    ensures
        highlight::rule_triggers(seq![rule], lines, 1) == Seq::<TriggerView>::empty(),
{
    assert(highlight::rule_triggers(seq![rule], lines, 0) == Seq::<TriggerView>::empty());
}

/// A rule that matches sets off one trigger, with all its matches and with what the rule says.
pub proof fn law_a_match_sets_off_a_trigger(rule: HighlightRule, lines: Seq<Seq<char>>)
    requires
        highlight::hits(matching::source(rule.regex), lines, lines.len() as int).len() > 0,
    ensures
        ({
            let found = highlight::rule_triggers(seq![rule], lines, 1);
            &&& found.len() == 1
            &&& found[0].key == rule.key@
            &&& found[0].pattern == rule.pattern@
            &&& found[0].matched_texts == highlight::hits(
                matching::source(rule.regex),
                lines,
                lines.len() as int,
            )
            &&& found[0].command is Some <==> rule.command is Some
            &&& rule.command is Some ==> (found[0].command->0).len() == (rule.command->0)@.len()
                && forall|i: int|
                0 <= i < (rule.command->0)@.len() ==> (#[trigger] (found[0].command->0)[i])
                    == (rule.command->0)@[i]@
            &&& found[0].capture_cli_text == rule.capture_cli_text
            &&& found[0].capture_tui_screenshot == rule.capture_tui_screenshot
            &&& found[0].output_dir is Some <==> rule.output_dir is Some
            &&& rule.output_dir is Some ==> found[0].output_dir->0 == (rule.output_dir->0)@
            &&& found[0].output_prefix is Some <==> rule.output_prefix is Some
            &&& rule.output_prefix is Some ==> found[0].output_prefix->0 == (rule.output_prefix
                ->0)@
            &&& found[0].fingerprint == highlight::fingerprint_of(
                rule.key@,
                found[0].matched_texts,
            )
        }),
{
    assert(highlight::rule_triggers(seq![rule], lines, 0) == Seq::<TriggerView>::empty());
}

/// The triggers of some rules come rule by rule.
pub proof fn law_triggers_rule_by_rule(
    front: Seq<HighlightRule>,
    rule: HighlightRule,
    lines: Seq<Seq<char>>,
)
    ensures
        highlight::rule_triggers(front.push(rule), lines, front.len() as int + 1)
            == highlight::rule_triggers(front, lines, front.len() as int)
            + highlight::rule_triggers(seq![rule], lines, 1),
{
    lemma_triggers_prefix(front.push(rule), front, lines, front.len() as int);
    let before = highlight::rule_triggers(front, lines, front.len() as int);
    assert(highlight::rule_triggers(seq![rule], lines, 0) == Seq::<TriggerView>::empty());
    let one = highlight::rule_triggers(seq![rule], lines, 1);
    if one.len() == 0 {
        assert(before + one =~= before);
    } else {
        assert(before + one =~= before.push(one[0]));
    }
}

proof fn lemma_triggers_prefix(
    long: Seq<HighlightRule>,
    short: Seq<HighlightRule>,
    lines: Seq<Seq<char>>,
    n: int,
)
    requires
        0 <= n <= short.len() <= long.len(),
        forall|i: int| 0 <= i < n ==> long[i] == short[i],
    ensures
        highlight::rule_triggers(long, lines, n) == highlight::rule_triggers(short, lines, n),
    decreases n,
{
    if n > 0 {
        lemma_triggers_prefix(long, short, lines, n - 1);
    }
}

/// What is hashed of some texts: the bytes of each, and a byte that occurs in none behind them.
pub open spec fn hashed_bytes(list: Seq<Seq<char>>) -> Seq<Seq<u8>>
    decreases list.len(),
{
    if list.len() == 0 {
        Seq::empty()
    } else {
        seq![encode_utf8(list[0]), seq![0xffu8]] + hashed_bytes(list.skip(1))
    }
}

/// The fingerprint of a trigger is the hash of its key and of all its matches, in order.
pub proof fn law_fingerprints(key: Seq<char>, matches: Seq<Seq<char>>)
    ensures
        highlight::fingerprint_of(key, matches) == DefaultHasher::spec_finish(
            hashed_bytes(seq![key] + matches),
        ),
{
    let all = seq![key] + matches;
    assert(all.skip(1) =~= matches);
    lemma_hashed(matches, matches.len() as int);
    assert(matches.take(matches.len() as int) =~= matches);
}

proof fn lemma_hashed(list: Seq<Seq<char>>, n: int)
    requires
        0 <= n <= list.len(),
    ensures
        highlight::all_hashed(list, n) == hashed_bytes(list.take(n)),
    decreases n,
{
    if n > 0 {
        lemma_hashed(list, n - 1);
        lemma_hashed_end(list.take(n));
        assert(list.take(n).drop_last() =~= list.take(n - 1));
        assert(list.take(n).last() == list[n - 1]);
    }
}

proof fn lemma_hashed_end(list: Seq<Seq<char>>)
    requires
        list.len() > 0,
    ensures
        hashed_bytes(list) == hashed_bytes(list.drop_last()) + seq![
            encode_utf8(list.last()),
            seq![0xffu8],
        ],
    decreases list.len(),
{
    let one = seq![encode_utf8(list[0]), seq![0xffu8]];
    if list.len() == 1 {
        assert(list.skip(1) =~= Seq::empty());
        assert(list.drop_last() =~= Seq::empty());
        assert(one + Seq::<Seq<u8>>::empty() =~= Seq::<Seq<u8>>::empty() + one);
    } else {
        lemma_hashed_end(list.skip(1));
        assert(list.skip(1).drop_last() =~= list.drop_last().skip(1));
        assert(hashed_bytes(list) =~= hashed_bytes(list.drop_last()) + seq![
            encode_utf8(list.last()),
            seq![0xffu8],
        ]);
    }
}

/// What a rule puts in place of the character at an offset of a match: the character of the
/// replacement there, a blank behind its end, or the mask.
pub open spec fn in_place(kind: OutputTransformKind, offset: int) -> char {
    match kind {
        OutputTransformKind::Replace(replacement) => if offset < replacement@.len() {
            replacement@[offset]
        } else {
            ' '
        },
        OutputTransformKind::Mask(mask) => mask,
    }
}

/// The matches of a rule in a line.
pub open spec fn found(rule: OutputTransformRule, line: Seq<char>) -> Seq<(usize, usize)> {
    matching::spans(matching::source(rule.regex), line)
}

/// Every character that any match of a rule covers is replaced by what the rule puts in its place,
/// whichever match it is.
pub proof fn law_every_match_is_replaced(
    line: Seq<char>,
    rules: Seq<OutputTransformRule>,
    n: int,
    k: int,
    i: int,
)
    requires
        0 < n <= rules.len(),
        ({
            let before = transform::transformed(line, rules, n - 1);
            let spans = found(rules[n - 1], before);
            &&& matching::in_text(spans, before)
            &&& 0 <= k < spans.len()
            &&& matching::char_span(before, spans[k]).0 <= i < matching::char_span(
                before,
                spans[k],
            ).1
        }),
    ensures
        ({
            let before = transform::transformed(line, rules, n - 1);
            let spans = found(rules[n - 1], before);
            &&& i < transform::transformed(line, rules, n).len()
            &&& transform::transformed(line, rules, n)[i] == in_place(
                rules[n - 1].kind,
                i - matching::char_span(before, spans[k]).0,
            )
        }),
{
    let before = transform::transformed(line, rules, n - 1);
    let spans = found(rules[n - 1], before);
    assert(text::boundary(before, spans[k].0 as int));
    assert(text::boundary(before, spans[k].1 as int));
    law_character_ranges(before, spans[k]);
    lemma_match_is_replaced(before, spans, rules[n - 1].kind, k, spans.len() as int, i);
    transform::law_matches_keep_width(before, spans, rules[n - 1].kind, spans.len() as int);
}

proof fn lemma_match_is_replaced(
    line: Seq<char>,
    spans: Seq<(usize, usize)>,
    kind: OutputTransformKind,
    k: int,
    n: int,
    i: int,
)
    requires
        matching::in_text(spans, line),
        0 <= k < n <= spans.len(),
        0 <= i < line.len(),
        matching::char_span(line, spans[k]).0 <= i < matching::char_span(line, spans[k]).1,
    ensures
        transform::replaced(line, spans, kind, n)[i] == in_place(
            kind,
            i - matching::char_span(line, spans[k]).0,
        ),
    decreases n,
{
    transform::law_matches_keep_width(line, spans, kind, n);
    transform::law_matches_keep_width(line, spans, kind, n - 1);
    if k < n - 1 {
        lemma_match_is_replaced(line, spans, kind, k, n - 1, i);
        lemma_ranges_in_turn(line, spans, k, n - 1);
    }
}

/// A character that no match of a rule covers stays as it was before the rule.
pub proof fn law_other_text_stays(
    line: Seq<char>,
    rules: Seq<OutputTransformRule>,
    n: int,
    i: int,
)
    requires
        0 < n <= rules.len(),
        0 <= i < line.len(),
        ({
            let before = transform::transformed(line, rules, n - 1);
            let spans = found(rules[n - 1], before);
            forall|k: int|
                0 <= k < spans.len() ==> !(matching::char_span(before, #[trigger] spans[k]).0 <= i
                    < matching::char_span(before, spans[k]).1)
        }),
    ensures
        transform::transformed(line, rules, n)[i] == transform::transformed(line, rules, n - 1)[i],
        transform::transformed(line, rules, 0) == line,
{
    let before = transform::transformed(line, rules, n - 1);
    let spans = found(rules[n - 1], before);
    transform::law_width_is_kept(line, rules, n - 1);
    transform::law_uncovered_stays(before, spans, rules[n - 1].kind, i, spans.len() as int);
}

/// A trigger is let through unless the last one with its key was the same, and is then the last
/// one with its key. Other keys are not touched.
pub proof fn law_one_trigger(seen: Map<Seq<char>, u64>, trigger: TriggerView, other: Seq<char>)
    ensures
        ({
            let again = seen.contains_key(trigger.key) && seen[trigger.key] == trigger.fingerprint;
            let after = triggers::seen_after(seen, seq![trigger], 1);
            &&& again ==> triggers::fresh(seen, seq![trigger], 1) == Seq::<TriggerView>::empty()
            &&& !again ==> triggers::fresh(seen, seq![trigger], 1) == seq![trigger]
            &&& after.contains_key(trigger.key)
            &&& after[trigger.key] == trigger.fingerprint
            &&& other != trigger.key ==> after.contains_key(other) == seen.contains_key(other)
            &&& other != trigger.key && seen.contains_key(other) ==> after[other] == seen[other]
        }),
{
    let list = seq![trigger];
    assert(triggers::seen_after(seen, list, 0) == seen);
    assert(triggers::fresh(seen, list, 0) == Seq::<TriggerView>::empty());
    assert(Seq::<TriggerView>::empty().push(trigger) =~= list);
}

/// Triggers are looked at one after the other.
pub proof fn law_triggers_in_turn(
    seen: Map<Seq<char>, u64>,
    front: Seq<TriggerView>,
    next: TriggerView,
)
    ensures
        ({
            let n = front.len() as int;
            let middle = triggers::seen_after(seen, front, n);
            &&& triggers::fresh(seen, front.push(next), n + 1) == triggers::fresh(seen, front, n)
                + triggers::fresh(middle, seq![next], 1)
            &&& triggers::seen_after(seen, front.push(next), n + 1) == triggers::seen_after(
                middle,
                seq![next],
                1,
            )
        }),
{
    let n = front.len() as int;
    lemma_same_triggers(seen, front.push(next), front, n);
    let middle = triggers::seen_after(seen, front, n);
    law_one_trigger(middle, next, next.key);
    assert(triggers::seen_after(middle, seq![next], 0) == middle);
    let before = triggers::fresh(seen, front, n);
    assert(before + seq![next] =~= before.push(next));
    assert(before + Seq::<TriggerView>::empty() =~= before);
}

proof fn lemma_same_triggers(
    seen: Map<Seq<char>, u64>,
    long: Seq<TriggerView>,
    short: Seq<TriggerView>,
    n: int,
)
    requires
        0 <= n <= short.len() <= long.len(),
        forall|i: int| 0 <= i < n ==> long[i] == short[i],
    ensures
        triggers::seen_after(seen, long, n) == triggers::seen_after(seen, short, n),
        triggers::fresh(seen, long, n) == triggers::fresh(seen, short, n),
    decreases n,
{
    if n > 0 {
        lemma_same_triggers(seen, long, short, n - 1);
    }
}

} // verus!
