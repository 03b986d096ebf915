//! The names of the files that triggers write, and the commands that they run.
use crate::highlight::TriggerView;
use crate::text;
use crate::triggers;
use crate::triggers::{NameContext, ValueView};
use vstd::prelude::*;

verus! {

/// A part of a file name has a character for each of its text: letters, digits, hyphens and
/// underscores stay, and anything else becomes an underscore.
pub proof fn law_safe_names(value: Seq<char>, i: int)
    requires
        0 <= i < value.len(),
    ensures
        triggers::sanitized(value).len() == value.len(),
        ({
            let ch = value[i] as int;
            let stays = 0x30 <= ch <= 0x39 || 0x41 <= ch <= 0x5a || 0x61 <= ch <= 0x7a || ch == 0x2d
                || ch == 0x5f;
            &&& stays ==> triggers::sanitized(value)[i] == value[i]
            &&& !stays ==> triggers::sanitized(value)[i] == '_'
        }),
{
}

/// An empty part of a file name is the word `highlight`.
pub proof fn law_empty_names()
    ensures
        triggers::sanitized(Seq::empty()) == seq!['h', 'i', 'g', 'h', 'l', 'i', 'g', 'h', 't'],
{
    reveal_strlit("highlight");
    assert(triggers::sanitized(Seq::empty()) =~= seq![
        'h',
        'i',
        'g',
        'h',
        'l',
        'i',
        'g',
        'h',
        't',
    ]);
}

/// A file is named by its prefix, the key, a hyphen, the time, the word `event` where it describes
/// one, and its extension.
pub proof fn law_file_names(prefix: Option<Seq<char>>, context: NameContext)
    ensures
        ({
            let start = triggers::prefix_of(prefix, context) + triggers::sanitized(
                context.key,
            ).push('-') + text::decimal(context.timestamp);
            let event = seq!['-', 'e', 'v', 'e', 'n', 't'];
            &&& context.capture_kind == event.skip(1) ==> triggers::filename(prefix, context)
                == start + event + (seq!['.'] + context.ext)
            &&& context.capture_kind != event.skip(1) ==> triggers::filename(prefix, context)
                == start + (seq!['.'] + context.ext)
            &&& prefix is None ==> triggers::prefix_of(prefix, context) == Seq::<char>::empty()
        }),
{
    reveal_strlit("event");
    reveal_strlit("-event");
    reveal_strlit("-");
    reveal_strlit(".");
    let event = seq!['-', 'e', 'v', 'e', 'n', 't'];
    assert(event.skip(1) =~= "event"@);
    assert(event =~= "-event"@);
    let start = triggers::prefix_of(prefix, context) + triggers::sanitized(context.key).push('-')
        + text::decimal(context.timestamp);
    if context.capture_kind == "event"@ {
        assert(triggers::filename(prefix, context) =~= start + event + (seq!['.'] + context.ext));
    } else {
        assert(triggers::filename(prefix, context) =~= start + (seq!['.'] + context.ext));
    }
}

/// The prefix of a file name is its template with the tokens filled in, made safe.
pub proof fn law_prefixes(template: Seq<char>, context: NameContext)
    ensures
        triggers::prefix_of(Some(template), context) == triggers::sanitized(
            triggers::expanded(template, 0, context),
        ),
{
}

proof fn lemma_closing(template: Seq<char>, i: int, end: int)
    requires
        0 <= i <= end < template.len(),
        template[end] == '}',
        forall|k: int| i <= k < end ==> template[k] != '}',
    ensures
        triggers::closing(template, i) == end,
    decreases end - i,
{
    if i < end {
        lemma_closing(template, i + 1, end);
    }
}

proof fn lemma_not_closed(template: Seq<char>, i: int)
    requires
        0 <= i <= template.len(),
        forall|k: int| i <= k < template.len() ==> template[k] != '}',
    ensures
        triggers::closing(template, i) == template.len(),
    decreases template.len() - i,
{
    if i < template.len() {
        lemma_not_closed(template, i + 1);
    }
}

/// A template is filled in from left to right: other characters stay, what stands in braces is
/// replaced, and a brace that is not closed stays with what follows.
pub proof fn law_templates(template: Seq<char>, i: int, end: int, context: NameContext)
    requires
        0 <= i < template.len(),
    ensures
        template[i] != '{' ==> triggers::expanded(template, i, context) == seq![template[i]]
            + triggers::expanded(template, i + 1, context),
        template[i] == '{' && i < end < template.len() && template[end] == '}' && (forall|k: int|
            i < k < end ==> template[k] != '}') ==> triggers::expanded(template, i, context)
            == triggers::token_text(template.subrange(i + 1, end), context) + triggers::expanded(
            template,
            end + 1,
            context,
        ),
        template[i] == '{' && (forall|k: int| i < k < template.len() ==> template[k] != '}')
            ==> triggers::expanded(template, i, context) == template.skip(i),
        triggers::expanded(template, template.len() as int, context) == Seq::<char>::empty(),
{
    if template[i] == '{' && i < end < template.len() && template[end] == '}' && (forall|k: int|
        i < k < end ==> template[k] != '}') {
        lemma_closing(template, i + 1, end);
    }
    if template[i] == '{' && (forall|k: int| i < k < template.len() ==> template[k] != '}') {
        lemma_not_closed(template, i + 1);
    }
}

/// The tokens of a template.
pub proof fn law_tokens(context: NameContext)
    ensures
        triggers::token_text(seq!['k', 'e', 'y'], context) == triggers::sanitized(context.key),
        triggers::token_text(seq!['b', 'a', 'c', 'k', 'e', 'n', 'd'], context) == context.backend,
        triggers::token_text(
            seq!['c', 'a', 'p', 't', 'u', 'r', 'e', '_', 'k', 'i', 'n', 'd'],
            context,
        ) == context.capture_kind,
        triggers::token_text(seq!['e', 'x', 't'], context) == context.ext,
        triggers::token_text(seq!['t', 'i', 'm', 'e', 's', 't', 'a', 'm', 'p'], context)
            == text::decimal(context.timestamp),
{
    reveal_strlit("key");
    reveal_strlit("backend");
    reveal_strlit("capture_kind");
    reveal_strlit("ext");
    reveal_strlit("timestamp");
    assert("key"@ =~= seq!['k', 'e', 'y']);
    assert("backend"@ =~= seq!['b', 'a', 'c', 'k', 'e', 'n', 'd']);
    assert("capture_kind"@ =~= seq!['c', 'a', 'p', 't', 'u', 'r', 'e', '_', 'k', 'i', 'n', 'd']);
    assert("ext"@ =~= seq!['e', 'x', 't']);
    assert("timestamp"@ =~= seq!['t', 'i', 'm', 'e', 's', 't', 'a', 'm', 'p']);
    assert("key"@[0] == 'k' && "ext"@[0] == 'e' && "backend"@.len() == 7);
    assert("capture_kind"@.len() == 12 && "timestamp"@.len() == 9);
}

/// A variable of the environment is filled in, made safe, by the name behind `env:`; nothing where
/// it is not set. Any other token stays, in its braces.
pub proof fn law_variables(name: Seq<char>, token: Seq<char>, context: NameContext)
    ensures
        ({
            let asked = seq!['e', 'n', 'v', ':'] + name;
            &&& triggers::variable(context.vars, name, 0) is Some ==> triggers::token_text(
                asked,
                context,
            ) == triggers::sanitized(triggers::variable(context.vars, name, 0)->0)
            &&& triggers::variable(context.vars, name, 0) is None ==> triggers::token_text(
                asked,
                context,
            ) == Seq::<char>::empty()
        }),
        token.len() > 0 && token[0] != 'k' && token[0] != 'b' && token[0] != 'c' && token[0] != 'e'
            && token[0] != 't' ==> triggers::token_text(token, context) == seq!['{'] + token + seq![
            '}',
        ],
{
    reveal_strlit("key");
    reveal_strlit("backend");
    reveal_strlit("capture_kind");
    reveal_strlit("ext");
    reveal_strlit("timestamp");
    reveal_strlit("env:");
    let asked = seq!['e', 'n', 'v', ':'] + name;
    assert(asked.take(4) =~= "env:"@);
    assert(asked.skip(4) =~= name);
    assert(asked[0] == 'e' && asked[1] == 'n');
    assert("ext"@[1] == 'x');
    assert("key"@[0] == 'k' && "backend"@[0] == 'b' && "capture_kind"@[0] == 'c' && "ext"@[0] == 'e'
        && "timestamp"@[0] == 't');
    if token.len() >= 4 {
        assert(token.take(4)[0] == token[0]);
        assert("env:"@[0] == 'e');
    }
}

/// The value of a variable is that of the first entry with its name.
pub proof fn law_first_variable(vars: Seq<(String, String)>, name: Seq<char>, from: int, i: int)
    requires
        0 <= from <= i <= vars.len(),
        forall|k: int| from <= k < i ==> (#[trigger] vars[k]).0@ != name,
    ensures
        i < vars.len() && vars[i].0@ == name ==> triggers::variable(vars, name, from) == Some(
            vars[i].1@,
        ),
        i == vars.len() ==> triggers::variable(vars, name, from) is None,
    decreases i - from,
{
    if from < i {
        law_first_variable(vars, name, from + 1, i);
    }
}

/// What is captured for a command is a text, and for a screen a picture.
pub proof fn law_kinds_of_captures(backend: Seq<char>)
    ensures
        backend == seq!['c', 'l', 'i'] ==> triggers::kind_of_capture(backend) == seq![
            'c',
            'l',
            'i',
            '_',
            't',
            'e',
            'x',
            't',
        ],
        backend != seq!['c', 'l', 'i'] ==> triggers::kind_of_capture(backend) == seq![
            't',
            'u',
            'i',
            '_',
            's',
            'v',
            'g',
        ],
{
    reveal_strlit("cli");
    reveal_strlit("cli_text");
    reveal_strlit("tui_svg");
    assert("cli"@ =~= seq!['c', 'l', 'i']);
    assert("cli_text"@ =~= seq!['c', 'l', 'i', '_', 't', 'e', 'x', 't']);
    assert("tui_svg"@ =~= seq!['t', 'u', 'i', '_', 's', 'v', 'g']);
}

/// The variables that tell the command of a trigger what has happened. Those of a capture are set
/// only where there is one.
pub proof fn law_command_variables(trigger: TriggerView, backend: Seq<char>, captured: bool)
    ensures
        ({
            let vars = triggers::command_variables(trigger, backend, captured);
            &&& vars.len() == if captured {
                7nat
            } else {
                5nat
            }
            &&& vars[0] == ("BAERU_HIGHLIGHT_BACKEND"@, ValueView::Text(backend))
            &&& vars[1] == ("BAERU_HIGHLIGHT_KEY"@, ValueView::Text(trigger.key))
            &&& vars[2] == ("BAERU_HIGHLIGHT_PATTERN"@, ValueView::Text(trigger.pattern))
            &&& vars[3] == (
                "BAERU_HIGHLIGHT_MATCHES_JSON"@,
                ValueView::Text(
                    seq!['['] + triggers::json_items(trigger.matched_texts) + seq![']'],
                ),
            )
            &&& vars[4] == ("BAERU_HIGHLIGHT_EVENT_JSON"@, ValueView::ManifestPath)
            &&& captured ==> vars[5] == ("BAERU_HIGHLIGHT_CAPTURE_PATH"@, ValueView::CapturePath)
            &&& captured ==> vars[6] == (
                "BAERU_HIGHLIGHT_CAPTURE_KIND"@,
                ValueView::Text(triggers::kind_of_capture(backend)),
            )
        }),
{
}

/// The strings of a JSON array stand in quotes, with commas between them; quotes and backslashes
/// in them follow a backslash, and control characters are written as escapes.
pub proof fn law_json_strings(front: Seq<Seq<char>>, item: Seq<char>, ch: char)
    ensures
        ({
            let quoted = seq!['"'] + triggers::json_chars(item) + seq!['"'];
            &&& triggers::json_items(seq![item]) == quoted
            &&& front.len() > 0 ==> triggers::json_items(front.push(item)) == triggers::json_items(
                front,
            ) + seq![','] + quoted
            &&& triggers::json_items(Seq::empty()) == Seq::<char>::empty()
        }),
        triggers::json_chars(item.push(ch)) == triggers::json_chars(item) + triggers::json_chars(
            seq![ch],
        ),
        ch == '"' || ch == '\\' ==> triggers::json_chars(seq![ch]) == seq!['\\', ch],
        ch == '\n' ==> triggers::json_chars(seq![ch]) == seq!['\\', 'n'],
        ch == '\t' ==> triggers::json_chars(seq![ch]) == seq!['\\', 't'],
        ch == '\r' ==> triggers::json_chars(seq![ch]) == seq!['\\', 'r'],
        ch >= ' ' && ch != '"' && ch != '\\' ==> triggers::json_chars(seq![ch]) == seq![ch],
{
    assert(front.push(item).drop_last() =~= front);
    assert(item.push(ch).drop_last() =~= item);
    assert(seq![ch].drop_last() =~= Seq::empty());
    assert(triggers::json_chars(Seq::empty()) == Seq::<char>::empty());
    assert(triggers::json_chars(seq![ch]) =~= triggers::json_char(ch));
}

} // verus!
