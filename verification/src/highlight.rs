//! Highlighting of matches, and the triggers that they set off.
use crate::matching;
use crate::matching::{char_range, find_spans};
use crate::model::{HighlightRule, Rgb};
use crate::text;
use crate::text::{chars_of, text_of};
use crate::theme;
use crate::transform;
use std::collections::hash_map::DefaultHasher;
use std::hash::Hasher;
use vstd::prelude::*;
use vstd::std_specs::hash::*;
use vstd::utf8::*;

verus! {

/// What a rule found, with what to do about it.
#[derive(Debug)]
pub struct HighlightTrigger {
    pub key: String,
    pub pattern: String,
    pub matched_texts: Vec<String>,
    pub command: Option<Vec<String>>,
    pub capture_cli_text: bool,
    pub capture_tui_screenshot: bool,
    pub output_dir: Option<String>,
    pub output_prefix: Option<String>,
    pub fingerprint: u64,
}

/// The colours of the characters of some lines, and the triggers of the rules that matched.
#[derive(Debug)]
pub struct HighlightEvaluation {
    pub colors: Vec<Vec<Option<Rgb>>>,
    pub triggers: Vec<HighlightTrigger>,
}

/// What a trigger says.
#[verifier::ext_equal]
pub struct TriggerView {
    pub key: Seq<char>,
    pub pattern: Seq<char>,
    pub matched_texts: Seq<Seq<char>>,
    pub command: Option<Seq<Seq<char>>>,
    pub capture_cli_text: bool,
    pub capture_tui_screenshot: bool,
    pub output_dir: Option<Seq<char>>,
    pub output_prefix: Option<Seq<char>>,
    pub fingerprint: u64,
}

/// The words of a command that may be left out.
pub open spec fn optional_words(words: Option<Vec<String>>) -> Option<Seq<Seq<char>>> {
    match words {
        Some(list) => Some(transform::texts(list@)),
        None => None,
    }
}

impl View for HighlightTrigger {
    type V = TriggerView;

    open spec fn view(&self) -> TriggerView {
        TriggerView {
            key: self.key@,
            pattern: self.pattern@,
            matched_texts: transform::texts(self.matched_texts@),
            command: optional_words(self.command),
            capture_cli_text: self.capture_cli_text,
            capture_tui_screenshot: self.capture_tui_screenshot,
            output_dir: theme::optional_text(self.output_dir),
            output_prefix: theme::optional_text(self.output_prefix),
            fingerprint: self.fingerprint,
        }
    }
}

/// The contents of some triggers.
pub open spec fn triggers_view(list: Seq<HighlightTrigger>) -> Seq<TriggerView> {
    list.map_values(|trigger: HighlightTrigger| trigger@)
}

/// The byte strings that are hashed for a text: its bytes, and one that ends it.
pub open spec fn hashed(text: Seq<char>) -> Seq<Seq<u8>> {
    seq![encode_utf8(text), seq![0xffu8]]
}

/// The byte strings that are hashed for the first `n` of some texts.
pub open spec fn all_hashed(list: Seq<Seq<char>>, n: int) -> Seq<Seq<u8>>
    decreases n,
{
    if n <= 0 {
        Seq::empty()
    } else {
        all_hashed(list, n - 1) + hashed(list[n - 1])
    }
}

/// The number that tells one set of matches of a rule from another.
pub open spec fn fingerprint_of(key: Seq<char>, matches: Seq<Seq<char>>) -> u64 {
    DefaultHasher::spec_finish(hashed(key) + all_hashed(matches, matches.len() as int))
}

fn hash_text(hasher: &mut DefaultHasher, text: &str)
    ensures
        final(hasher)@ == old(hasher)@ + hashed(text@),
{
    let end: [u8; 1] = [0xff];
    hasher.write(text.as_bytes());
    hasher.write(&end);
    assert(end@ =~= seq![0xffu8]);
    assert(hasher@ =~= old(hasher)@ + hashed(text@));
}

/// The number that tells one set of matches of a rule from another.
pub fn fingerprint(key: &str, matches: &[String]) -> (r: u64)
    ensures
        r == fingerprint_of(key@, transform::texts(matches@)),
{
    let mut hasher: DefaultHasher = DefaultHasher::new();
    hash_text(&mut hasher, key);
    let ghost list = transform::texts(matches@);
    assert(hasher@ =~= hashed(key@) + all_hashed(list, 0));
    let mut i: usize = 0;
    while i < matches.len()
        invariant
            i <= matches@.len(),
            list == transform::texts(matches@),
            hasher@ == hashed(key@) + all_hashed(list, i as int),
        decreases matches@.len() - i,
    {
        let ghost before = all_hashed(list, i as int);
        hash_text(&mut hasher, matches[i].as_str());
        i = i + 1;
        assert(hasher@ =~= hashed(key@) + (before + hashed(list[i - 1])));
    }
    hasher.finish()
}

/// The text of a match.
pub open spec fn matched(line: Seq<char>, span: (usize, usize)) -> Seq<char> {
    line.subrange(matching::char_span(line, span).0, matching::char_span(line, span).1)
}

/// The texts of the matches of a pattern in a line.
pub open spec fn line_hits(pattern: Seq<char>, line: Seq<char>) -> Seq<Seq<char>> {
    matching::spans(pattern, line).map_values(|span: (usize, usize)| matched(line, span))
}

/// The texts of the matches of a pattern in the first `n` of some lines.
pub open spec fn hits(pattern: Seq<char>, lines: Seq<Seq<char>>, n: int) -> Seq<Seq<char>>
    decreases n,
{
    if n <= 0 {
        Seq::empty()
    } else {
        hits(pattern, lines, n - 1) + line_hits(pattern, lines[n - 1])
    }
}

/// Whether one of the first `n` of some matches covers a character.
pub open spec fn covered(line: Seq<char>, spans: Seq<(usize, usize)>, col: int, n: int) -> bool {
    exists|k: int|
        0 <= k < n && matching::char_span(line, #[trigger] spans[k]).0 <= col
            < matching::char_span(line, spans[k]).1
}

/// The colours of a line with the characters that the first `n` of some matches cover painted.
pub open spec fn painted(
    before: Seq<Option<Rgb>>,
    line: Seq<char>,
    spans: Seq<(usize, usize)>,
    color: Rgb,
    n: int,
) -> Seq<Option<Rgb>> {
    Seq::new(
        before.len(),
        |col: int|
            if covered(line, spans, col, n) {
                Some(color)
            } else {
                before[col]
            },
    )
}

/// The colours of a line after the first `n` of some rules. A later rule paints over an earlier.
pub open spec fn line_colors(line: Seq<char>, rules: Seq<HighlightRule>, n: int) -> Seq<Option<Rgb>>
    decreases n,
{
    if n <= 0 {
        Seq::new(line.len(), |col: int| None)
    } else {
        let spans = matching::spans(matching::source(rules[n - 1].regex), line);
        painted(
            line_colors(line, rules, n - 1),
            line,
            spans,
            rules[n - 1].color,
            spans.len() as int,
        )
    }
}

/// The trigger of a rule with some matches.
pub open spec fn trigger_of(rule: HighlightRule, matches: Seq<Seq<char>>) -> TriggerView {
    TriggerView {
        key: rule.key@,
        pattern: rule.pattern@,
        matched_texts: matches,
        command: optional_words(rule.command),
        capture_cli_text: rule.capture_cli_text,
        capture_tui_screenshot: rule.capture_tui_screenshot,
        output_dir: theme::optional_text(rule.output_dir),
        output_prefix: theme::optional_text(rule.output_prefix),
        fingerprint: fingerprint_of(rule.key@, matches),
    }
}

/// The triggers of those of the first `n` rules that match anything.
pub open spec fn rule_triggers(rules: Seq<HighlightRule>, lines: Seq<Seq<char>>, n: int) -> Seq<
    TriggerView,
>
    decreases n,
{
    if n <= 0 {
        Seq::empty()
    } else {
        let before = rule_triggers(rules, lines, n - 1);
        let found = hits(matching::source(rules[n - 1].regex), lines, lines.len() as int);
        if found.len() > 0 {
            before.push(trigger_of(rules[n - 1], found))
        } else {
            before
        }
    }
}

/// The colours of a list of rows.
pub open spec fn color_rows(colors: Seq<Vec<Option<Rgb>>>) -> Seq<Seq<Option<Rgb>>> {
    colors.map_values(|row: Vec<Option<Rgb>>| row@)
}

/// A copy of a list of texts.
pub fn copy_texts(list: &Vec<String>) -> (r: Vec<String>)
    ensures
        transform::texts(r@) == transform::texts(list@),
{
    let mut r: Vec<String> = Vec::new();
    let mut i: usize = 0;
    while i < list.len()
        invariant
            i <= list@.len(),
            transform::texts(r@) == transform::texts(list@).take(i as int),
        decreases list@.len() - i,
    {
        let ghost before = r@;
        let item: String = list[i].clone();
        r.push(item);
        i = i + 1;
        assert(transform::texts(r@) =~= transform::texts(before).push(item@));
        assert(transform::texts(list@).take(i as int) =~= transform::texts(list@).take(i - 1).push(
            list@[i - 1]@,
        ));
    }
    assert(transform::texts(r@) =~= transform::texts(list@));
    r
}

/// A copy of a text that may be left out.
pub fn copy_optional(text: &Option<String>) -> (r: Option<String>)
    ensures
        theme::optional_text(r) == theme::optional_text(*text),
{
    match text {
        Some(inner) => Some(inner.clone()),
        None => None,
    }
}

/// Copies the words of a command that may be left out.
pub fn copy_words(words: &Option<Vec<String>>) -> (r: Option<Vec<String>>)
    ensures
        optional_words(r) == optional_words(*words),
{
    match words {
        Some(list) => Some(copy_texts(list)),
        None => None,
    }
}

/// The trigger of a rule with some matches.
fn make_trigger(rule: &HighlightRule, matched_texts: Vec<String>) -> (r: HighlightTrigger)
    ensures
        r@ == trigger_of(*rule, transform::texts(matched_texts@)),
{
    let number: u64 = fingerprint(rule.key.as_str(), matched_texts.as_slice());
    HighlightTrigger {
        key: rule.key.clone(),
        pattern: rule.pattern.clone(),
        matched_texts,
        command: copy_words(&rule.command),
        capture_cli_text: rule.capture_cli_text,
        capture_tui_screenshot: rule.capture_tui_screenshot,
        output_dir: copy_optional(&rule.output_dir),
        output_prefix: copy_optional(&rule.output_prefix),
        fingerprint: number,
    }
}

/// Paints the matches in a line, and appends their texts to `found`.
pub fn mark_spans(
    line: &str,
    spans: &Vec<(usize, usize)>,
    color: Rgb,
    row: &mut Vec<Option<Rgb>>,
    found: &mut Vec<String>,
)
    requires
        matching::in_text(spans@, line@),
        old(row)@.len() == line@.len(),
    ensures
        final(row)@ == painted(old(row)@, line@, spans@, color, spans@.len() as int),
        transform::texts(final(found)@) == transform::texts(old(found)@) + spans@.map_values(
            |span: (usize, usize)| matched(line@, span),
        ),
{
    let chars: Vec<char> = chars_of(line);
    let mut n: usize = 0;
    let ghost before = row@;
    let ghost had = transform::texts(found@);
    let ghost news = spans@.map_values(|span: (usize, usize)| matched(line@, span));
    assert(row@ =~= painted(before, line@, spans@, color, 0));
    assert(had + news.take(0) =~= had);
    while n < spans.len()
        invariant
            n <= spans@.len(),
            matching::in_text(spans@, line@),
            chars@ == line@,
            before.len() == line@.len(),
            news == spans@.map_values(|span: (usize, usize)| matched(line@, span)),
            row@ == painted(before, line@, spans@, color, n as int),
            transform::texts(found@) == had + news.take(n as int),
        decreases spans@.len() - n,
    {
        let ghost earlier = row@;
        let ghost so_far = found@;
        let (from, to) = char_range(line, spans[n]);
        let mut piece: Vec<char> = Vec::new();
        let mut col: usize = from;
        while col < to
            invariant
                from <= col <= to <= chars@.len(),
                chars@ == line@,
                row@.len() == earlier.len() == line@.len(),
                piece@ == line@.subrange(from as int, col as int),
                forall|c: int|
                    0 <= c < row@.len() ==> #[trigger] row@[c] == (if from <= c < col {
                        Some(color)
                    } else {
                        earlier[c]
                    }),
            decreases to - col,
        {
            piece.push(chars[col]);
            row.set(col, Some(color));
            col = col + 1;
            assert(piece@ =~= line@.subrange(from as int, col as int));
        }
        found.push(text_of(piece.as_slice()));
        n = n + 1;
        proof {
            let span = spans@[n - 1];
            assert forall|c: int| 0 <= c < row@.len() implies #[trigger] row@[c] == painted(
                before,
                line@,
                spans@,
                color,
                n as int,
            )[c] by {
                if from <= c < to {
                    assert(matching::char_span(line@, spans@[n - 1]).0 <= c);
                    assert(covered(line@, spans@, c, n as int));
                } else {
                    assert(covered(line@, spans@, c, n as int) ==> covered(
                        line@,
                        spans@,
                        c,
                        n - 1,
                    ));
                    assert(covered(line@, spans@, c, n - 1) ==> covered(
                        line@,
                        spans@,
                        c,
                        n as int,
                    ));
                }
            }
            assert(row@ =~= painted(before, line@, spans@, color, n as int));
            assert(transform::texts(found@) =~= transform::texts(so_far).push(
                matched(line@, span),
            ));
            assert(news.take(n as int) =~= news.take(n - 1).push(matched(line@, span)));
            assert(transform::texts(found@) =~= had + news.take(n as int));
        }
    }
    assert(news.take(spans@.len() as int) =~= news);
}

/// Paints the matches of some rules in some lines, and collects their triggers.
pub fn evaluate_lines(lines: &[String], rules: &[HighlightRule]) -> (r: HighlightEvaluation)
    ensures
        color_rows(r.colors@) == transform::texts(lines@).map_values(
            |line: Seq<char>| line_colors(line, rules@, rules@.len() as int),
        ),
        triggers_view(r.triggers@) == rule_triggers(
            rules@,
            transform::texts(lines@),
            rules@.len() as int,
        ),
{
    let ghost all = transform::texts(lines@);
    let mut colors: Vec<Vec<Option<Rgb>>> = Vec::new();
    let mut i: usize = 0;
    while i < lines.len()
        invariant
            i <= lines@.len(),
            colors@.len() == i,
            forall|k: int|
                0 <= k < i ==> (#[trigger] colors@[k])@ == line_colors(lines@[k]@, rules@, 0),
        decreases lines@.len() - i,
    {
        let len: usize = chars_of(lines[i].as_str()).len();
        let mut row: Vec<Option<Rgb>> = Vec::new();
        while row.len() < len
            invariant
                row@.len() <= len,
                forall|c: int| 0 <= c < row@.len() ==> row@[c] == None::<Rgb>,
            decreases len - row@.len(),
        {
            row.push(None);
        }
        assert(row@ =~= line_colors(lines@[i as int]@, rules@, 0));
        colors.push(row);
        i = i + 1;
    }
    let mut triggers: Vec<HighlightTrigger> = Vec::new();
    let mut n: usize = 0;
    assert(triggers_view(triggers@) =~= rule_triggers(rules@, all, 0));
    while n < rules.len()
        invariant
            n <= rules@.len(),
            all == transform::texts(lines@),
            colors@.len() == lines@.len(),
            forall|k: int|
                0 <= k < lines@.len() ==> (#[trigger] colors@[k])@ == line_colors(
                    lines@[k]@,
                    rules@,
                    n as int,
                ),
            triggers_view(triggers@) == rule_triggers(rules@, all, n as int),
        decreases rules@.len() - n,
    {
        let ghost pattern = matching::source(rules@[n as int].regex);
        let mut found: Vec<String> = Vec::new();
        let mut row: usize = 0;
        assert(transform::texts(found@) =~= hits(pattern, all, 0));
        while row < lines.len()
            invariant
                row <= lines@.len(),
                n < rules@.len(),
                all == transform::texts(lines@),
                pattern == matching::source(rules@[n as int].regex),
                colors@.len() == lines@.len(),
                forall|k: int|
                    row <= k < lines@.len() ==> (#[trigger] colors@[k])@ == line_colors(
                        lines@[k]@,
                        rules@,
                        n as int,
                    ),
                forall|k: int|
                    0 <= k < row ==> (#[trigger] colors@[k])@ == line_colors(
                        lines@[k]@,
                        rules@,
                        n + 1,
                    ),
                transform::texts(found@) == hits(pattern, all, row as int),
            decreases lines@.len() - row,
        {
            let line: &str = lines[row].as_str();
            let spans: Vec<(usize, usize)> = find_spans(&rules[n].regex, line);
            let mut painted_row: Vec<Option<Rgb>> = colors[row].clone();
            proof {
                lemma_line_colors_length(line@, rules@, n as int);
                assert(painted_row@ =~= colors@[row as int]@);
            }
            mark_spans(line, &spans, rules[n].color, &mut painted_row, &mut found);
            colors.set(row, painted_row);
            row = row + 1;
            assert(all[row - 1] == line@);
        }
        if found.len() > 0 {
            let ghost before = triggers@;
            let trigger: HighlightTrigger = make_trigger(&rules[n], found);
            triggers.push(trigger);
            assert(triggers_view(triggers@) =~= triggers_view(before).push(trigger@));
        }
        n = n + 1;
    }
    assert(color_rows(colors@) =~= all.map_values(
        |line: Seq<char>| line_colors(line, rules@, rules@.len() as int),
    ));
    HighlightEvaluation { colors, triggers }
}

proof fn lemma_line_colors_length(line: Seq<char>, rules: Seq<HighlightRule>, n: int)
    ensures
        line_colors(line, rules, n).len() == line.len(),
    decreases n,
{
    if n > 0 {
        lemma_line_colors_length(line, rules, n - 1);
    }
}

} // verus!
