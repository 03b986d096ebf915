//! What is done about triggers: which are new, which files are written, which command is run.
use crate::highlight;
use crate::highlight::{HighlightTrigger, TriggerView};
use crate::text;
use crate::text::{chars_of, push_decimal, same};
use crate::theme;
use crate::transform;
use vstd::prelude::*;

verus! {

/// The entries of a list of keys and numbers, put in one after the other.
pub open spec fn noted(entries: Seq<(String, u64)>) -> Map<Seq<char>, u64>
    decreases entries.len(),
{
    if entries.len() == 0 {
        Map::empty()
    } else {
        noted(entries.drop_last()).insert(entries.last().0@, entries.last().1)
    }
}

/// The last fingerprint of each key that was seen.
#[derive(Debug)]
pub struct TriggerState {
    seen: Vec<(String, u64)>,
}

impl View for TriggerState {
    type V = Map<Seq<char>, u64>;

    closed spec fn view(&self) -> Map<Seq<char>, u64> {
        noted(self.seen@)
    }
}

/// Whether a trigger differs from the last one with its key.
pub open spec fn is_new(seen: Map<Seq<char>, u64>, trigger: TriggerView) -> bool {
    !seen.contains_key(trigger.key) || seen[trigger.key] != trigger.fingerprint
}

/// What has been seen after the first `n` of some triggers.
pub open spec fn seen_after(seen: Map<Seq<char>, u64>, triggers: Seq<TriggerView>, n: int) -> Map<
    Seq<char>,
    u64,
>
    decreases n,
{
    if n <= 0 {
        seen
    } else {
        let before = seen_after(seen, triggers, n - 1);
        let trigger = triggers[n - 1];
        if is_new(before, trigger) {
            before.insert(trigger.key, trigger.fingerprint)
        } else {
            before
        }
    }
}

/// Those of the first `n` triggers that are new when their turn comes.
pub open spec fn fresh(seen: Map<Seq<char>, u64>, triggers: Seq<TriggerView>, n: int) -> Seq<
    TriggerView,
>
    decreases n,
{
    if n <= 0 {
        Seq::empty()
    } else {
        let before = fresh(seen, triggers, n - 1);
        if is_new(seen_after(seen, triggers, n - 1), triggers[n - 1]) {
            before.push(triggers[n - 1])
        } else {
            before
        }
    }
}

proof fn lemma_noted_source(entries: Seq<(String, u64)>, key: Seq<char>, i: int)
    requires
        0 <= i < entries.len(),
        entries[i].0@ == key,
        forall|j: int| i < j < entries.len() ==> (#[trigger] entries[j]).0@ != key,
    ensures
        noted(entries).contains_key(key),
        noted(entries)[key] == entries[i].1,
    decreases entries.len(),
{
    if i < entries.len() - 1 {
        let front = entries.drop_last();
        assert forall|j: int| i < j < front.len() implies (#[trigger] front[j]).0@ != key by {
            assert(front[j] == entries[j]);
        }
        lemma_noted_source(front, key, i);
        assert(entries[entries.len() - 1].0@ != key);
    }
}

proof fn lemma_not_noted(entries: Seq<(String, u64)>, key: Seq<char>)
    requires
        forall|j: int| 0 <= j < entries.len() ==> (#[trigger] entries[j]).0@ != key,
    ensures
        !noted(entries).contains_key(key),
    decreases entries.len(),
{
    if entries.len() > 0 {
        let front = entries.drop_last();
        assert forall|j: int| 0 <= j < front.len() implies (#[trigger] front[j]).0@ != key by {
            assert(front[j] == entries[j]);
        }
        lemma_not_noted(front, key);
        assert(entries[entries.len() - 1].0@ != key);
    }
}

impl TriggerState {
    /// Nothing has been seen.
    pub fn new() -> (r: TriggerState)
        ensures
            r@ == Map::<Seq<char>, u64>::empty(),
    {
        TriggerState { seen: Vec::new() }
    }

    /// The last fingerprint of a key.
    fn last(&self, key: &str) -> (r: Option<u64>)
        ensures
            r is Some <==> self@.contains_key(key@),
            r is Some ==> r->0 == self@[key@],
    {
        let mut i: usize = self.seen.len();
        while i > 0
            invariant
                i <= self.seen@.len(),
                forall|j: int| i <= j < self.seen@.len() ==> (#[trigger] self.seen@[j]).0@ != key@,
            decreases i,
        {
            i = i - 1;
            if same(self.seen[i].0.as_str(), key) {
                proof {
                    lemma_noted_source(self.seen@, key@, i as int);
                }
                return Some(self.seen[i].1);
            }
        }
        proof {
            lemma_not_noted(self.seen@, key@);
        }
        None
    }

    /// Notes the fingerprint of a key, in place of an earlier one.
    fn note(&mut self, key: &str, number: u64)
        ensures
            final(self)@ == old(self)@.insert(key@, number),
    {
        let mut i: usize = 0;
        while i < self.seen.len()
            invariant
                i <= self.seen@.len(),
                self.seen@ == old(self).seen@,
                forall|j: int| 0 <= j < i ==> (#[trigger] self.seen@[j]).0@ != key@,
            decreases self.seen@.len() - i,
        {
            if same(self.seen[i].0.as_str(), key) {
                let _ = self.seen.remove(i);
                self.seen.push((key.to_owned(), number));
                proof {
                    lemma_moved(old(self).seen@, key@, i as int);
                    assert(self.seen@.drop_last() =~= old(self).seen@.remove(i as int));
                    let less = noted(old(self).seen@.remove(i as int));
                    assert(less.insert(key@, number) =~= less.remove(key@).insert(key@, number));
                    assert(old(self)@.insert(key@, number) =~= old(self)@.remove(key@).insert(
                        key@,
                        number,
                    ));
                }
                return;
            }
            i = i + 1;
        }
        self.seen.push((key.to_owned(), number));
        assert(self.seen@.drop_last() =~= old(self).seen@);
    }
}

proof fn lemma_moved(entries: Seq<(String, u64)>, key: Seq<char>, i: int)
    requires
        0 <= i < entries.len(),
        entries[i].0@ == key,
    ensures
        noted(entries.remove(i)).remove(key) == noted(entries).remove(key),
    decreases entries.len(),
{
    let shorter = entries.remove(i);
    if i == entries.len() - 1 {
        assert(shorter =~= entries.drop_last());
        assert(noted(shorter).remove(key) =~= noted(entries).remove(key));
    } else {
        let front = entries.drop_last();
        lemma_moved(front, key, i);
        assert(shorter.drop_last() =~= front.remove(i));
        assert(shorter.last() == entries.last());
        let less = noted(front.remove(i));
        let more = noted(front);
        let name = entries.last().0@;
        let number = entries.last().1;
        assert(less.insert(name, number).remove(key) =~= if name == key {
            less.remove(key)
        } else {
            less.remove(key).insert(name, number)
        });
        assert(more.insert(name, number).remove(key) =~= if name == key {
            more.remove(key)
        } else {
            more.remove(key).insert(name, number)
        });
    }
}

/// Lets through the triggers that differ from the last one with their key.
pub fn filter_new_triggers(state: &mut TriggerState, triggers: Vec<HighlightTrigger>) -> (r: Vec<
    HighlightTrigger,
>)
    ensures
        final(state)@ == seen_after(
            old(state)@,
            highlight::triggers_view(triggers@),
            triggers@.len() as int,
        ),
        highlight::triggers_view(r@) == fresh(
            old(state)@,
            highlight::triggers_view(triggers@),
            triggers@.len() as int,
        ),
{
    let ghost all = highlight::triggers_view(triggers@);
    let ghost list = triggers@;
    let mut rest: Vec<HighlightTrigger> = triggers;
    let mut out: Vec<HighlightTrigger> = Vec::new();
    let ghost mut n: int = 0;
    assert(rest@ =~= list.skip(0));
    assert(highlight::triggers_view(out@) =~= fresh(old(state)@, all, 0));
    while rest.len() > 0
        invariant
            0 <= n <= list.len(),
            all == highlight::triggers_view(list),
            rest@ == list.skip(n),
            state@ == seen_after(old(state)@, all, n),
            highlight::triggers_view(out@) == fresh(old(state)@, all, n),
        decreases rest@.len(),
    {
        let trigger: HighlightTrigger = rest.remove(0);
        proof {
            n = n + 1;
            assert(rest@ =~= list.skip(n));
            assert(trigger == list[n - 1]);
            assert(all[n - 1] == trigger@);
        }
        let changed: bool = match state.last(trigger.key.as_str()) {
            Some(previous) => previous != trigger.fingerprint,
            None => true,
        };
        if changed {
            let ghost before = out@;
            state.note(trigger.key.as_str(), trigger.fingerprint);
            out.push(trigger);
            assert(highlight::triggers_view(out@) =~= highlight::triggers_view(before).push(
                trigger@,
            ));
        }
    }
    out
}

/// Whether no two of some triggers have the same key.
pub open spec fn distinct_keys(triggers: Seq<TriggerView>) -> bool {
    forall|i: int, j: int|
        0 <= i < j < triggers.len() ==> (#[trigger] triggers[i]).key != (#[trigger] triggers[j]).key
}

/// Once seen, triggers with keys of their own are not let through a second time.
pub proof fn law_seen_triggers_stay_quiet(
    seen: Map<Seq<char>, u64>,
    triggers: Seq<TriggerView>,
    n: int,
)
    requires
        distinct_keys(triggers),
        0 <= n <= triggers.len(),
    ensures
        ({
            let after = seen_after(seen, triggers, triggers.len() as int);
            fresh(after, triggers, n) == Seq::<TriggerView>::empty() && seen_after(
                after,
                triggers,
                n,
            ) == after
        }),
    decreases n,
{
    let after = seen_after(seen, triggers, triggers.len() as int);
    if n > 0 {
        law_seen_triggers_stay_quiet(seen, triggers, n - 1);
        lemma_noted_stays(seen, triggers, n - 1, triggers.len() as int);
    }
}

proof fn lemma_noted_stays(
    seen: Map<Seq<char>, u64>,
    triggers: Seq<TriggerView>,
    i: int,
    n: int,
)
    requires
        distinct_keys(triggers),
        0 <= i < n <= triggers.len(),
    ensures
        seen_after(seen, triggers, n).contains_key(triggers[i].key),
        seen_after(seen, triggers, n)[triggers[i].key] == triggers[i].fingerprint,
    decreases n,
{
    if i < n - 1 {
        lemma_noted_stays(seen, triggers, i, n - 1);
        assert(triggers[i].key != triggers[n - 1].key);
    }
}

/// A character of a file name: letters, digits, `-` and `_` stay, anything else becomes `_`.
pub open spec fn safe(ch: char) -> char {
    if ('a' <= ch <= 'z') || ('A' <= ch <= 'Z') || ('0' <= ch <= '9') || ch == '-' || ch == '_' {
        ch
    } else {
        '_'
    }
}

/// A part of a file name; `highlight` in place of an empty one.
pub open spec fn sanitized(value: Seq<char>) -> Seq<char> {
    if value.len() == 0 {
        "highlight"@
    } else {
        value.map_values(|ch: char| safe(ch))
    }
}

/// Makes a text fit for a file name.
pub fn sanitize_segment(value: &str) -> (r: String)
    ensures
        r@ == sanitized(value@),
{
    let chars: Vec<char> = chars_of(value);
    if chars.len() == 0 {
        return "highlight".to_owned();
    }
    let mut r: String = String::new();
    let mut i: usize = 0;
    let ghost goal = value@.map_values(|ch: char| safe(ch));
    while i < chars.len()
        invariant
            i <= chars@.len(),
            chars@ == value@,
            goal == value@.map_values(|ch: char| safe(ch)),
            r@ == goal.take(i as int),
        decreases chars@.len() - i,
    {
        let ch: char = chars[i];
        if ('a' <= ch && ch <= 'z') || ('A' <= ch && ch <= 'Z') || ('0' <= ch && ch <= '9') || ch
            == '-' || ch == '_' {
            r.push(ch);
        } else {
            r.push('_');
        }
        i = i + 1;
        assert(r@ =~= goal.take(i as int));
    }
    assert(goal.take(i as int) =~= goal);
    r
}

/// Makes a key fit for a file name.
pub fn sanitize_key(key: &str) -> (r: String)
    ensures
        r@ == sanitized(key@),
{
    sanitize_segment(key)
}

/// What has been made fit for a file name stays as it is.
pub proof fn law_sanitized_is_stable(value: Seq<char>)
    ensures
        sanitized(sanitized(value)) == sanitized(value),
{
    let once = sanitized(value);
    if value.len() == 0 {
        reveal_strlit("highlight");
        assert(once.map_values(|ch: char| safe(ch)) =~= once);
    } else {
        assert(once.map_values(|ch: char| safe(ch)) =~= once);
    }
}

proof fn lemma_sanitized_is_safe(value: Seq<char>)
    ensures
        sanitized(value).len() > 0,
        forall|i: int|
            0 <= i < sanitized(value).len() ==> safe(#[trigger] sanitized(value)[i])
                == sanitized(value)[i],
{
    reveal_strlit("highlight");
}

proof fn lemma_decimal_is_safe(n: nat)
    ensures
        forall|i: int|
            0 <= i < text::decimal(n).len() ==> safe(#[trigger] text::decimal(n)[i])
                == text::decimal(n)[i],
    decreases n,
{
    let last = text::digit((n % 10) as int);
    assert('0' <= last <= '9');
    let all = text::decimal(n);
    if n >= 10 {
        lemma_decimal_is_safe(n / 10);
        let front = text::decimal(n / 10);
        assert forall|i: int| 0 <= i < all.len() implies safe(#[trigger] all[i]) == all[i] by {
            if i < front.len() {
                assert(all[i] == front[i]);
            } else {
                assert(all[i] == last);
            }
        }
    } else {
        assert(all =~= seq![last]);
    }
}

/// The name of a file that is written for a trigger has no slash in it where its extension has
/// none, whatever the key, the template and the variables are. So the file stays in its directory.
pub proof fn law_files_stay_in_their_directory(prefix: Option<Seq<char>>, context: NameContext)
    requires
        !context.ext.contains('/'),
    ensures
        !filename(prefix, context).contains('/'),
{
    let name = filename(prefix, context);
    let start = prefix_of(prefix, context);
    let key = sanitized(context.key);
    let time = text::decimal(context.timestamp);
    lemma_sanitized_is_safe(context.key);
    lemma_decimal_is_safe(context.timestamp);
    if prefix is Some {
        lemma_sanitized_is_safe(expanded(prefix->0, 0, context));
    }
    reveal_strlit("-");
    reveal_strlit("-event");
    reveal_strlit(".");
    let event = if context.capture_kind == "event"@ {
        "-event"@
    } else {
        Seq::empty()
    };
    assert forall|i: int| 0 <= i < name.len() implies name[i] != '/' by {
        let a = start.len();
        let b = a + key.len();
        let c = b + 1;
        let d = c + time.len();
        let e = d + event.len();
        if i < a {
            assert(name[i] == start[i]);
        } else if i < b {
            assert(name[i] == key[i - a]);
        } else if i < c {
        } else if i < d {
            assert(name[i] == time[i - c]);
        } else if i < e {
            assert(name[i] == event[i - d]);
        } else if i > e {
            assert(name[i] == context.ext[i - e - 1]);
            assert(context.ext.contains(context.ext[i - e - 1]));
        }
    }
}

/// The value of a variable in a list of variables.
pub open spec fn variable(vars: Seq<(String, String)>, name: Seq<char>, i: int) -> Option<Seq<char>>
    decreases vars.len() - i,
{
    if i >= vars.len() || i < 0 {
        None
    } else if vars[i].0@ == name {
        Some(vars[i].1@)
    } else {
        variable(vars, name, i + 1)
    }
}

/// What a file name is made for.
#[verifier::ext_equal]
pub struct NameContext {
    pub key: Seq<char>,
    pub backend: Seq<char>,
    pub capture_kind: Seq<char>,
    pub ext: Seq<char>,
    pub timestamp: nat,
    pub vars: Seq<(String, String)>,
}

/// Whether a token asks for an environment variable.
pub open spec fn asks_variable(token: Seq<char>) -> bool {
    token.len() >= 4 && token.take(4) == "env:"@
}

/// What stands in place of `{token}`.
pub open spec fn token_text(token: Seq<char>, context: NameContext) -> Seq<char> {
    if token == "key"@ {
        sanitized(context.key)
    } else if token == "backend"@ {
        context.backend
    } else if token == "capture_kind"@ {
        context.capture_kind
    } else if token == "ext"@ {
        context.ext
    } else if token == "timestamp"@ {
        text::decimal(context.timestamp)
    } else if asks_variable(token) {
        match variable(context.vars, token.skip(4), 0) {
            Some(value) => sanitized(value),
            None => Seq::empty(),
        }
    } else {
        seq!['{'] + token + seq!['}']
    }
}

/// The index of the first closing brace from index `i` on; the length where there is none.
pub open spec fn closing(template: Seq<char>, i: int) -> int
    decreases template.len() - i,
{
    if i >= template.len() || i < 0 {
        template.len() as int
    } else if template[i] == '}' {
        i
    } else {
        closing(template, i + 1)
    }
}

/// A template from index `i` on, with its tokens replaced. A brace that is not closed stays,
/// with all that follows it.
pub open spec fn expanded(template: Seq<char>, i: int, context: NameContext) -> Seq<char>
    decreases template.len() - i,
{
    if i >= template.len() || i < 0 {
        Seq::empty()
    } else if template[i] != '{' {
        seq![template[i]] + expanded(template, i + 1, context)
    } else {
        let end = closing(template, i + 1);
        if end >= template.len() || end <= i {
            template.skip(i)
        } else {
            token_text(template.subrange(i + 1, end), context) + expanded(
                template,
                end + 1,
                context,
            )
        }
    }
}

/// What a file name starts with.
pub open spec fn prefix_of(prefix: Option<Seq<char>>, context: NameContext) -> Seq<char> {
    match prefix {
        None => Seq::empty(),
        Some(template) => sanitized(expanded(template, 0, context)),
    }
}

/// The name of a file that is written for a trigger.
pub open spec fn filename(prefix: Option<Seq<char>>, context: NameContext) -> Seq<char> {
    let event = if context.capture_kind == "event"@ {
        "-event"@
    } else {
        Seq::empty()
    };
    prefix_of(prefix, context) + sanitized(context.key) + "-"@ + text::decimal(context.timestamp)
        + event + "."@ + context.ext
}

fn find_variable(vars: &Vec<(String, String)>, name: &str) -> (r: Option<usize>)
    ensures
        match variable(vars@, name@, 0) {
            Some(value) => r is Some && r->0 < vars@.len() && vars@[r->0 as int].1@ == value,
            None => r is None,
        },
{
    let mut i: usize = 0;
    while i < vars.len()
        invariant
            i <= vars@.len(),
            variable(vars@, name@, 0) == variable(vars@, name@, i as int),
        decreases vars@.len() - i,
    {
        if same(vars[i].0.as_str(), name) {
            return Some(i);
        }
        i = i + 1;
    }
    None
}

fn slice_text(chars: &Vec<char>, from: usize, to: usize) -> (r: String)
    requires
        from <= to <= chars@.len(),
    ensures
        r@ == chars@.subrange(from as int, to as int),
{
    let mut r: String = String::new();
    let mut i: usize = from;
    while i < to
        invariant
            from <= i <= to <= chars@.len(),
            r@ == chars@.subrange(from as int, i as int),
        decreases to - i,
    {
        r.push(chars[i]);
        i = i + 1;
        assert(r@ =~= chars@.subrange(from as int, i as int));
    }
    r
}

spec fn context_of(
    trigger: HighlightTrigger,
    backend: &str,
    capture_kind: &str,
    ext: &str,
    timestamp: u128,
    vars: Seq<(String, String)>,
) -> NameContext {
    NameContext {
        key: trigger.key@,
        backend: backend@,
        capture_kind: capture_kind@,
        ext: ext@,
        timestamp: timestamp as nat,
        vars,
    }
}

fn push_token(
    out: &mut String,
    chars: &Vec<char>,
    from: usize,
    to: usize,
    trigger: &HighlightTrigger,
    backend: &str,
    capture_kind: &str,
    ext: &str,
    timestamp: u128,
    vars: &Vec<(String, String)>,
)
    requires
        from <= to <= chars@.len(),
    ensures
        final(out)@ == old(out)@ + token_text(
            chars@.subrange(from as int, to as int),
            context_of(*trigger, backend, capture_kind, ext, timestamp, vars@),
        ),
{
    let token: String = slice_text(chars, from, to);
    if same(token.as_str(), "key") {
        let key: String = sanitize_key(trigger.key.as_str());
        out.append(key.as_str());
        return;
    }
    if same(token.as_str(), "backend") {
        out.append(backend);
        return;
    }
    if same(token.as_str(), "capture_kind") {
        out.append(capture_kind);
        return;
    }
    if same(token.as_str(), "ext") {
        out.append(ext);
        return;
    }
    if same(token.as_str(), "timestamp") {
        push_decimal(out, timestamp);
        return;
    }
    if to - from >= 4 {
        let start: String = slice_text(chars, from, from + 4);
        assert(token@.take(4) =~= start@);
        if same(start.as_str(), "env:") {
            let name: String = slice_text(chars, from + 4, to);
            assert(token@.skip(4) =~= name@);
            match find_variable(vars, name.as_str()) {
                Some(i) => {
                    let value: String = sanitize_segment(vars[i].1.as_str());
                    out.append(value.as_str());
                },
                None => {
                    assert(out@ + Seq::<char>::empty() =~= out@);
                },
            }
            return;
        }
    }
    out.push('{');
    out.append(token.as_str());
    out.push('}');
    assert(out@ =~= old(out)@ + (seq!['{'] + token@ + seq!['}']));
}

/// What the name of a file for a trigger starts with. `vars` holds the environment variables
/// that are set.
pub fn render_output_prefix(
    trigger: &HighlightTrigger,
    backend: &str,
    capture_kind: &str,
    ext: &str,
    timestamp: u128,
    vars: &Vec<(String, String)>,
) -> (r: String)
    ensures
        r@ == prefix_of(
            theme::optional_text(trigger.output_prefix),
            (NameContext {
                key: trigger.key@,
                backend: backend@,
                capture_kind: capture_kind@,
                ext: ext@,
                timestamp: timestamp as nat,
                vars: vars@,
            }),
        ),
{
    let template: &str = match &trigger.output_prefix {
        Some(template) => template.as_str(),
        None => {
            let r: String = String::new();
            assert(r@ =~= Seq::<char>::empty());
            return r;
        },
    };
    let ghost context = context_of(*trigger, backend, capture_kind, ext, timestamp, vars@);
    let chars: Vec<char> = chars_of(template);
    let mut out: String = String::new();
    let mut i: usize = 0;
    let ghost goal = expanded(template@, 0, context);
    assert(out@ + goal =~= goal);
    while i < chars.len()
        invariant
            i <= chars@.len(),
            chars@ == template@,
            context == context_of(*trigger, backend, capture_kind, ext, timestamp, vars@),
            out@ + expanded(template@, i as int, context) == goal,
        decreases chars@.len() - i,
    {
        let ghost before = out@;
        if chars[i] != '{' {
            out.push(chars[i]);
            i = i + 1;
            assert(before + (seq![template@[i - 1]] + expanded(template@, i as int, context))
                =~= out@ + expanded(template@, i as int, context));
        } else {
            let mut end: usize = i + 1;
            while end < chars.len() && chars[end] != '}'
                invariant
                    i < end <= chars@.len(),
                    chars@ == template@,
                    closing(template@, i + 1) == closing(template@, end as int),
                decreases chars@.len() - end,
            {
                end = end + 1;
            }
            if end == chars.len() {
                let rest: String = slice_text(&chars, i, end);
                out.append(rest.as_str());
                assert(rest@ =~= template@.skip(i as int));
                i = end;
                assert(out@ + Seq::<char>::empty() =~= out@);
            } else {
                push_token(
                    &mut out,
                    &chars,
                    i + 1,
                    end,
                    trigger,
                    backend,
                    capture_kind,
                    ext,
                    timestamp,
                    vars,
                );
                let ghost token = token_text(template@.subrange(i + 1, end as int), context);
                i = end + 1;
                assert(before + (token + expanded(template@, i as int, context)) =~= out@
                    + expanded(template@, i as int, context));
            }
        }
    }
    assert(out@ =~= goal);
    sanitize_segment(out.as_str())
}

/// The name of a file that is written for a trigger.
pub fn format_output_filename(
    trigger: &HighlightTrigger,
    backend: &str,
    capture_kind: &str,
    ext: &str,
    timestamp: u128,
    vars: &Vec<(String, String)>,
) -> (r: String)
    ensures
        r@ == filename(
            theme::optional_text(trigger.output_prefix),
            (NameContext {
                key: trigger.key@,
                backend: backend@,
                capture_kind: capture_kind@,
                ext: ext@,
                timestamp: timestamp as nat,
                vars: vars@,
            }),
        ),
{
    let mut r: String = render_output_prefix(trigger, backend, capture_kind, ext, timestamp, vars);
    let key: String = sanitize_key(trigger.key.as_str());
    r.append(key.as_str());
    r.append("-");
    push_decimal(&mut r, timestamp);
    if same(capture_kind, "event") {
        r.append("-event");
    } else {
        assert(r@ + Seq::<char>::empty() =~= r@);
    }
    r.append(".");
    r.append(ext);
    r
}

/// A character inside a JSON string.
pub open spec fn json_char(ch: char) -> Seq<char> {
    if ch == '"' || ch == '\\' {
        seq!['\\', ch]
    } else if ch == '\u{8}' {
        seq!['\\', 'b']
    } else if ch == '\u{9}' {
        seq!['\\', 't']
    } else if ch == '\u{a}' {
        seq!['\\', 'n']
    } else if ch == '\u{c}' {
        seq!['\\', 'f']
    } else if ch == '\u{d}' {
        seq!['\\', 'r']
    } else if ch <= '\u{1f}' {
        seq!['\\', 'u', '0', '0'] + text::hex_byte(ch as u8)
    } else {
        seq![ch]
    }
}

/// The characters of a text inside a JSON string.
pub open spec fn json_chars(text: Seq<char>) -> Seq<char>
    decreases text.len(),
{
    if text.len() == 0 {
        Seq::empty()
    } else {
        json_chars(text.drop_last()) + json_char(text.last())
    }
}

/// The elements of a JSON array of strings.
pub open spec fn json_items(texts: Seq<Seq<char>>) -> Seq<char>
    decreases texts.len(),
{
    if texts.len() == 0 {
        Seq::empty()
    } else {
        let item = seq!['"'] + json_chars(texts.last()) + seq!['"'];
        if texts.len() == 1 {
            item
        } else {
            json_items(texts.drop_last()) + seq![','] + item
        }
    }
}

/// What is wrong with a value that cannot be written as JSON.
#[verifier::external_type_specification]
#[verifier::external_body]
pub struct ExJsonError(serde_json::Error);

/// `serde_json::to_string` on a list of strings: the JSON array of the strings, without blanks,
/// with the escapes that JSON asks for. A list of strings can always be written.
#[verifier::external_body]
pub(crate) fn json_array(texts: &Vec<String>) -> (r: Result<String, serde_json::Error>)
    ensures
        r is Ok,
        r->Ok_0@ == seq!['['] + json_items(transform::texts(texts@)) + seq![']'],
{
    serde_json::to_string(texts)
}

/// The value of an environment variable of a command.
#[derive(Debug, PartialEq, Eq)]
pub enum VariableValue {
    Text(String),
    /// The path of the file that describes the trigger.
    ManifestPath,
    /// The path of the file that holds what was captured.
    CapturePath,
}

/// A command to run for a trigger.
#[derive(Debug, PartialEq, Eq)]
pub struct TriggerCommand {
    pub program: String,
    pub args: Vec<String>,
    pub variables: Vec<(String, VariableValue)>,
}

/// The value of an environment variable of a command.
pub enum ValueView {
    Text(Seq<char>),
    ManifestPath,
    CapturePath,
}

impl View for VariableValue {
    type V = ValueView;

    open spec fn view(&self) -> ValueView {
        match self {
            VariableValue::Text(text) => ValueView::Text(text@),
            VariableValue::ManifestPath => ValueView::ManifestPath,
            VariableValue::CapturePath => ValueView::CapturePath,
        }
    }
}

/// The names and values of some environment variables.
pub open spec fn variables_view(list: Seq<(String, VariableValue)>) -> Seq<(Seq<char>, ValueView)> {
    list.map_values(|item: (String, VariableValue)| (item.0@, item.1@))
}

/// What kind of capture a backend makes.
pub open spec fn kind_of_capture(backend: Seq<char>) -> Seq<char> {
    if backend == "cli"@ {
        "cli_text"@
    } else {
        "tui_svg"@
    }
}

/// What kind of capture a backend makes.
pub fn capture_kind(backend: &str) -> (r: &'static str)
    ensures
        r@ == kind_of_capture(backend@),
{
    if same(backend, "cli") {
        "cli_text"
    } else {
        "tui_svg"
    }
}

/// The environment variables of the command of a trigger.
pub open spec fn command_variables(trigger: TriggerView, backend: Seq<char>, captured: bool) -> Seq<
    (Seq<char>, ValueView),
> {
    let matches = seq!['['] + json_items(trigger.matched_texts) + seq![']'];
    let always = seq![
        ("BAERU_HIGHLIGHT_BACKEND"@, ValueView::Text(backend)),
        ("BAERU_HIGHLIGHT_KEY"@, ValueView::Text(trigger.key)),
        ("BAERU_HIGHLIGHT_PATTERN"@, ValueView::Text(trigger.pattern)),
        ("BAERU_HIGHLIGHT_MATCHES_JSON"@, ValueView::Text(matches)),
        ("BAERU_HIGHLIGHT_EVENT_JSON"@, ValueView::ManifestPath),
    ];
    if captured {
        always + seq![
            ("BAERU_HIGHLIGHT_CAPTURE_PATH"@, ValueView::CapturePath),
            ("BAERU_HIGHLIGHT_CAPTURE_KIND"@, ValueView::Text(kind_of_capture(backend))),
        ]
    } else {
        always
    }
}

fn push_variable(list: &mut Vec<(String, VariableValue)>, name: &str, value: VariableValue)
    ensures
        variables_view(final(list)@) == variables_view(old(list)@).push((name@, value@)),
{
    list.push((name.to_owned(), value));
    assert(variables_view(list@) =~= variables_view(old(list)@).push((name@, value@)));
}

/// The command to run for a trigger, if it has one. `captured` says whether a capture was
/// written.
pub fn trigger_command(trigger: &HighlightTrigger, backend: &str, captured: bool) -> (r: Option<
    TriggerCommand,
>)
    ensures
        r is Some <==> (trigger@.command is Some && trigger@.command->0.len() > 0),
        r is Some ==> r->0.program@ == trigger@.command->0[0] && transform::texts(r->0.args@)
            == trigger@.command->0.skip(1) && variables_view(r->0.variables@) == command_variables(
            trigger@,
            backend@,
            captured,
        ),
{
    let words: &Vec<String> = match &trigger.command {
        Some(words) => words,
        None => {
            return None;
        },
    };
    if words.len() == 0 {
        return None;
    }
    let ghost all = transform::texts(words@);
    let program: String = words[0].clone();
    let mut args: Vec<String> = Vec::new();
    let mut i: usize = 1;
    assert(transform::texts(args@) =~= all.subrange(1, 1));
    while i < words.len()
        invariant
            1 <= i <= words@.len(),
            all == transform::texts(words@),
            transform::texts(args@) == all.subrange(1, i as int),
        decreases words@.len() - i,
    {
        let ghost before = args@;
        let word: String = words[i].clone();
        args.push(word);
        i = i + 1;
        assert(transform::texts(args@) =~= transform::texts(before).push(word@));
        assert(all.subrange(1, i as int) =~= all.subrange(1, i - 1).push(all[i - 1]));
    }
    assert(all.subrange(1, i as int) =~= all.skip(1));
    let matches: String = match json_array(&trigger.matched_texts) {
        Ok(text) => text,
        Err(_) => String::new(),
    };
    let mut variables: Vec<(String, VariableValue)> = Vec::new();
    assert(variables_view(variables@) =~= Seq::empty());
    push_variable(
        &mut variables,
        "BAERU_HIGHLIGHT_BACKEND",
        VariableValue::Text(backend.to_owned()),
    );
    push_variable(
        &mut variables,
        "BAERU_HIGHLIGHT_KEY",
        VariableValue::Text(trigger.key.clone()),
    );
    push_variable(
        &mut variables,
        "BAERU_HIGHLIGHT_PATTERN",
        VariableValue::Text(trigger.pattern.clone()),
    );
    push_variable(&mut variables, "BAERU_HIGHLIGHT_MATCHES_JSON", VariableValue::Text(matches));
    push_variable(&mut variables, "BAERU_HIGHLIGHT_EVENT_JSON", VariableValue::ManifestPath);
    if captured {
        push_variable(&mut variables, "BAERU_HIGHLIGHT_CAPTURE_PATH", VariableValue::CapturePath);
        push_variable(
            &mut variables,
            "BAERU_HIGHLIGHT_CAPTURE_KIND",
            VariableValue::Text(capture_kind(backend).to_owned()),
        );
    }
    assert(variables_view(variables@) =~= command_variables(trigger@, backend@, captured));
    Some(TriggerCommand { program, args, variables })
}

/// Whether a capture is written for a trigger. On the screen backend there is one only where a
/// picture of the screen is at hand.
pub fn writes_capture(trigger: &HighlightTrigger, backend: &str, picture: bool) -> (r: bool)
    ensures
        r == (if backend@ == "cli"@ {
            trigger.capture_cli_text
        } else {
            trigger.capture_tui_screenshot && picture
        }),
{
    if same(backend, "cli") {
        trigger.capture_cli_text
    } else {
        trigger.capture_tui_screenshot && picture
    }
}

} // verus!
