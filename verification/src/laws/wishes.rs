//! The rules of a run, as the command line and the profile ask for them.
use crate::config;
use crate::config::{ColorSetting, ConfigFault};
use crate::model::{HighlightRule, OutputTransformKind, OutputTransformRule, Rgb};
use crate::rules;
use crate::rules::{
    CliHighlightRuleOptions, KindView, RuleError, RuleFault, RuleView, TransformView,
};
use crate::settings::{Cli, HighlightRuleConfig, MaskRuleConfig, Profile, ReplaceRuleConfig};
use crate::theme;
use regex::Regex;
use vstd::prelude::*;

verus! {

/// A text that may be left out is another one, or both are left out.
pub open spec fn same_text(a: Option<Seq<char>>, b: Option<String>) -> bool {
    match a {
        Some(text) => b is Some && b->0@ == text,
        None => b is None,
    }
}

/// Some words are others, one by one.
pub open spec fn same_words(a: Seq<Seq<char>>, b: Seq<String>) -> bool {
    a.len() == b.len() && forall|i: int| 0 <= i < a.len() ==> #[trigger] a[i] == b[i]@
}

/// The patterns of the command line come first, each with the colour, the command and the
/// captures of the command line, and with the pattern for its key.
pub proof fn law_highlights_of_the_command_line(
    options: CliHighlightRuleOptions<'_>,
    profile_rules: Seq<HighlightRuleConfig>,
    i: int,
)
    requires
        0 <= i < options.patterns@.len(),
    ensures
        ({
            let rule = rules::wished_rules(options, profile_rules)[i];
            &&& rule.pattern == options.patterns@[i]@
            &&& rule.key == options.patterns@[i]@
            &&& rule.color == Ok::<Rgb, Seq<char>>(options.default_color)
            &&& rule.command is None <==> options.command@.len() == 0
            &&& options.command@.len() > 0 ==> same_words(rule.command->0, options.command@)
            &&& rule.capture_tui_screenshot == options.capture_tui_screenshot
            &&& rule.capture_cli_text == options.capture_cli_text
            &&& same_text(rule.output_dir, *options.output_dir)
            &&& same_text(rule.output_prefix, *options.output_prefix)
        }),
{
}

/// The highlight rules of a profile follow, each as the profile writes it. Where it leaves the key
/// out, the pattern is the key, and where it leaves the colour out, it is yellow.
pub proof fn law_highlights_of_a_profile(
    options: CliHighlightRuleOptions<'_>,
    profile_rules: Seq<HighlightRuleConfig>,
    j: int,
)
    requires
        0 <= j < profile_rules.len(),
    ensures
        ({
            let all = rules::wished_rules(options, profile_rules);
            let rule = all[options.patterns@.len() + j];
            let asked = profile_rules[j];
            &&& all.len() == options.patterns@.len() + profile_rules.len()
            &&& rule.pattern == asked.pattern@
            &&& asked.key is Some ==> rule.key == asked.key->0@
            &&& asked.key is None ==> rule.key == asked.pattern@
            &&& asked.color is None ==> rule.color == Ok::<Rgb, Seq<char>>(Rgb(255, 255, 0))
            &&& asked.color is Some && theme::hex_color(asked.color->0@) is Some ==> rule.color
                == Ok::<Rgb, Seq<char>>(theme::hex_color(asked.color->0@)->0)
            &&& asked.color is Some && theme::hex_color(asked.color->0@) is None ==> rule.color
                == Err::<Rgb, Seq<char>>(asked.color->0@)
            &&& asked.command is None ==> rule.command is None
            &&& asked.command is Some ==> rule.command is Some && same_words(
                rule.command->0,
                asked.command->0@,
            )
            &&& rule.capture_tui_screenshot == asked.capture_tui_screenshot
            &&& rule.capture_cli_text == asked.capture_cli_text
            &&& same_text(rule.output_dir, asked.output_dir)
            &&& same_text(rule.output_prefix, asked.output_prefix)
        }),
{
}

/// The highlights of a run take everything from the command line but the colour, which is that of
/// the profile or of the command line, and yellow where neither sets one.
pub proof fn law_highlights_of_a_run(cli: Cli, profile: Profile, i: int)
    requires
        0 <= i < cli.highlight.highlight@.len(),
    ensures
        ({
            let rule = config::run_rules(cli, profile)[i];
            &&& rule.pattern == cli.highlight.highlight@[i]@
            &&& rule.key == cli.highlight.highlight@[i]@
            &&& profile.highlight_color is None && cli.highlight.highlight_color is None
                ==> rule.color == Ok::<Rgb, Seq<char>>(Rgb(255, 255, 0))
            &&& profile.highlight_color is Some && theme::hex_color(profile.highlight_color->0@)
                is Some ==> rule.color == Ok::<Rgb, Seq<char>>(
                theme::hex_color(profile.highlight_color->0@)->0,
            )
            &&& profile.highlight_color is None && cli.highlight.highlight_color is Some
                && theme::hex_color(cli.highlight.highlight_color->0@) is Some ==> rule.color
                == Ok::<Rgb, Seq<char>>(theme::hex_color(cli.highlight.highlight_color->0@)->0)
            &&& rule.command is None <==> cli.highlight.highlight_command@.len() == 0
            &&& rule.command is Some ==> same_words(
                rule.command->0,
                cli.highlight.highlight_command@,
            )
            &&& rule.capture_tui_screenshot == cli.highlight.highlight_capture_tui_screenshot
            &&& rule.capture_cli_text == cli.highlight.highlight_capture_cli_text
            &&& same_text(rule.output_dir, cli.highlight.highlight_output_dir)
            &&& same_text(rule.output_prefix, cli.highlight.highlight_output_prefix)
        }),
{
    let color = config::or_else(
        config::color_of(config::run_highlight_color(cli, profile)),
        Rgb(255, 255, 0),
    );
    law_highlights_of_the_command_line(
        config::highlight_options(&cli, color),
        profile.highlight_rules@,
        i,
    );
}

/// Nothing is wrong with a highlight rule whose colour can be read and whose pattern compiles.
pub open spec fn good_rule(rule: RuleView, compiled: Result<Regex, regex::Error>) -> bool {
    rule.color is Ok && compiled is Ok
}

proof fn lemma_rule_fault(
    wished: Seq<RuleView>,
    compiled: Seq<Result<Regex, regex::Error>>,
    from: int,
)
    requires
        0 <= from <= wished.len(),
    ensures
        rules::rule_fault(wished, compiled, from) is None ==> forall|i: int|
            from <= i < wished.len() ==> good_rule(#[trigger] wished[i], compiled[i]),
        rules::rule_fault(wished, compiled, from) is Some ==> exists|i: int|
            from <= i < wished.len() && !good_rule(#[trigger] wished[i], compiled[i]) && (
            forall|j: int| from <= j < i ==> good_rule(#[trigger] wished[j], compiled[j]))
                && rules::rule_fault(wished, compiled, from) == Some(
                match wished[i].color {
                    Err(raw) => RuleFault::HighlightColor(raw),
                    Ok(_) => RuleFault::HighlightRegex(wished[i].pattern, compiled[i]->Err_0),
                },
            ),
    decreases wished.len() - from,
{
    if from < wished.len() {
        assert(good_rule(wished[from], compiled[from]) || !good_rule(
            wished[from],
            compiled[from],
        ));
        if good_rule(wished[from], compiled[from]) {
            lemma_rule_fault(wished, compiled, from + 1);
        }
    }
}

/// Highlight rules are refused for the first of them that is wrong: for its colour if that cannot
/// be read, else for its pattern. If none is wrong they are all there, in order and as they were
/// asked for, each with what its pattern was compiled to.
pub proof fn law_highlights_are_compiled(
    r: Result<Vec<HighlightRule>, RuleError>,
    wished: Seq<RuleView>,
    compiled: Seq<Result<Regex, regex::Error>>,
)
    requires
        rules::rules_answer(r, wished, compiled),
    ensures
        r is Ok <==> forall|i: int|
            0 <= i < wished.len() ==> good_rule(#[trigger] wished[i], compiled[i]),
        r is Err ==> exists|i: int|
            0 <= i < wished.len() && !good_rule(#[trigger] wished[i], compiled[i]) && (forall|j: int|

                0 <= j < i ==> good_rule(#[trigger] wished[j], compiled[j])) && r->Err_0@ == (
            match wished[i].color {
                Err(raw) => RuleFault::HighlightColor(raw),
                Ok(_) => RuleFault::HighlightRegex(wished[i].pattern, compiled[i]->Err_0),
            }),
        r is Ok ==> r->Ok_0@.len() == wished.len() && forall|i: int|
            0 <= i < wished.len() ==> {
                let rule = #[trigger] r->Ok_0@[i];
                &&& rule.pattern@ == wished[i].pattern
                &&& rule.key@ == wished[i].key
                &&& wished[i].color == Ok::<Rgb, Seq<char>>(rule.color)
                &&& compiled[i] == Ok::<Regex, regex::Error>(rule.regex)
                &&& wished[i].command is None <==> rule.command is None
                &&& rule.command is Some ==> same_words(wished[i].command->0, rule.command->0@)
                &&& rule.capture_tui_screenshot == wished[i].capture_tui_screenshot
                &&& rule.capture_cli_text == wished[i].capture_cli_text
                &&& same_text(wished[i].output_dir, rule.output_dir)
                &&& same_text(wished[i].output_prefix, rule.output_prefix)
            },
{
    lemma_rule_fault(wished, compiled, 0);
    if r is Ok {
        assert forall|i: int| 0 <= i < wished.len() implies {
            let rule = #[trigger] r->Ok_0@[i];
            &&& rules::rule_view(rule) == wished[i]
        } by {
            assert(rules::rules_view(r->Ok_0@)[i] == wished[i]);
        }
    }
}

/// The character to mask with is the only one of its text. A text without characters and one with
/// several are refused, each in its own way.
pub proof fn law_mask_characters(ch: char, value: Seq<char>)
    ensures
        rules::mask_char_of(seq![ch]) == Ok::<char, RuleFault>(ch),
        rules::mask_char_of(value) is Ok <==> value.len() == 1,
        value.len() == 0 ==> rules::mask_char_of(value) == Err::<char, RuleFault>(
            RuleFault::EmptyMaskChar,
        ),
        value.len() > 1 ==> rules::mask_char_of(value) == Err::<char, RuleFault>(
            RuleFault::LongMaskChar,
        ),
{
}

/// The arguments of the command line are refused where they are no pairs, or where what to mask
/// with is no character, and only there.
pub proof fn law_arguments_of_the_command_line(replace: Seq<String>, mask_char: Seq<char>)
    ensures
        rules::arguments_fault(replace, mask_char) is None <==> replace.len() % 2 == 0
            && mask_char.len() == 1,
        mask_char.len() == 0 ==> rules::arguments_fault(replace, mask_char) == Some(
            RuleFault::EmptyMaskChar,
        ),
        mask_char.len() > 1 ==> rules::arguments_fault(replace, mask_char) == Some(
            RuleFault::LongMaskChar,
        ),
        mask_char.len() == 1 && replace.len() % 2 == 1 ==> rules::arguments_fault(
            replace,
            mask_char,
        ) == Some(RuleFault::ReplacePairs),
{
}

/// A rule replaces what a pattern matches by a text.
pub open spec fn replaces(rule: TransformView, pattern: Seq<char>, text: Seq<char>) -> bool {
    &&& rule.pattern == pattern
    &&& rule.kind == Ok::<KindView, RuleFault>(KindView::Replace(text))
    &&& !rule.masks
}

/// A rule masks what a pattern matches with the character of a text, if that is one.
pub open spec fn masks_with(rule: TransformView, pattern: Seq<char>, value: Seq<char>) -> bool {
    &&& rule.pattern == pattern
    &&& value.len() == 1 ==> rule.kind == Ok::<KindView, RuleFault>(KindView::Mask(value[0]))
    &&& value.len() == 0 ==> rule.kind == Err::<KindView, RuleFault>(RuleFault::EmptyMaskChar)
    &&& value.len() > 1 ==> rule.kind == Err::<KindView, RuleFault>(RuleFault::LongMaskChar)
    &&& rule.masks
}

/// The rules that replace and mask are in order: the replacements of the command line, its masks,
/// the replacements of the profile, and its masks. A mask of the profile that does not say with
/// what masks with stars.
pub proof fn law_transforms_in_order(
    replace: Seq<String>,
    mask: Seq<String>,
    mask_char: Seq<char>,
    profile_replace: Seq<ReplaceRuleConfig>,
    profile_mask: Seq<MaskRuleConfig>,
)
    requires
        replace.len() % 2 == 0,
    ensures
        ({
            let all = rules::wished_transforms(
                replace,
                mask,
                mask_char,
                profile_replace,
                profile_mask,
            );
            let first = replace.len() as int / 2;
            let second = first + mask.len();
            let third = second + profile_replace.len();
            &&& all.len() == third + profile_mask.len()
            &&& forall|i: int|
                #![trigger replace[2 * i]]
                0 <= i < first ==> replaces(all[i], replace[2 * i]@, replace[2 * i + 1]@)
            &&& forall|i: int|
                0 <= i < mask.len() ==> masks_with(all[first + i], (#[trigger] mask[i])@, mask_char)
            &&& forall|i: int|
                0 <= i < profile_replace.len() ==> replaces(
                    all[second + i],
                    (#[trigger] profile_replace[i]).pattern@,
                    profile_replace[i].replacement@,
                )
            &&& forall|i: int|
                0 <= i < profile_mask.len() && (#[trigger] profile_mask[i]).mask_char is Some
                    ==> masks_with(
                    all[third + i],
                    profile_mask[i].pattern@,
                    profile_mask[i].mask_char->0@,
                )
            &&& forall|i: int|
                0 <= i < profile_mask.len() && (#[trigger] profile_mask[i]).mask_char is None
                    ==> masks_with(all[third + i], profile_mask[i].pattern@, seq!['*'])
        }),
{
    reveal_strlit("*");
    assert("*"@ =~= seq!['*']);
    let a = rules::cli_replacements(replace);
    let b = rules::cli_masks(mask, mask_char);
    let c = rules::profile_replacements(profile_replace);
    let d = rules::profile_masks(profile_mask);
    assert(a.len() == replace.len() as int / 2);
    let all = a + b + c + d;
    assert forall|i: int| 0 <= i < profile_replace.len() implies all[a.len() + b.len() + i]
        == #[trigger] c[i] by {}
    assert forall|i: int| 0 <= i < profile_mask.len() implies all[a.len() + b.len() + c.len() + i]
        == #[trigger] d[i] by {}
    assert forall|i: int| 0 <= i < mask.len() implies all[a.len() + i] == #[trigger] b[i] by {}
    assert forall|i: int| 0 <= i < a.len() implies all[i] == #[trigger] a[i] by {}
}

/// The rules of a run that replace and mask are those of its command line and of its profile.
pub proof fn law_transforms_of_a_run(cli: Cli, profile: Profile)
    ensures
        config::run_transforms(cli, profile) == rules::wished_transforms(
            cli.transform.replace@,
            cli.transform.mask@,
            cli.transform.mask_char@,
            profile.replace_rules@,
            profile.mask_rules@,
        ),
{
}

/// Nothing is wrong with a rule that says what becomes of matching text and whose pattern
/// compiles.
pub open spec fn good_transform(
    rule: TransformView,
    compiled: Result<Regex, regex::Error>,
) -> bool {
    rule.kind is Ok && compiled is Ok
}

/// What is said of a rule that is wrong.
pub open spec fn said_of(
    rule: TransformView,
    compiled: Result<Regex, regex::Error>,
    fault: RuleFault,
) -> bool {
    &&& rule.kind is Err ==> fault == rule.kind->Err_0
    &&& rule.kind is Ok && rule.masks ==> fault == RuleFault::MaskRegex(
        rule.pattern,
        compiled->Err_0,
    )
    &&& rule.kind is Ok && !rule.masks ==> fault == RuleFault::ReplaceRegex(
        rule.pattern,
        compiled->Err_0,
    )
}

proof fn lemma_transform_fault(
    wished: Seq<TransformView>,
    compiled: Seq<Result<Regex, regex::Error>>,
    from: int,
)
    requires
        0 <= from <= wished.len(),
    ensures
        rules::transform_fault(wished, compiled, from) is None ==> forall|i: int|
            from <= i < wished.len() ==> good_transform(#[trigger] wished[i], compiled[i]),
        rules::transform_fault(wished, compiled, from) is Some ==> exists|i: int|
            from <= i < wished.len() && !good_transform(#[trigger] wished[i], compiled[i]) && (
            forall|j: int| from <= j < i ==> good_transform(#[trigger] wished[j], compiled[j]))
                && said_of(
                wished[i],
                compiled[i],
                rules::transform_fault(wished, compiled, from)->0,
            ),
    decreases wished.len() - from,
{
    if from < wished.len() {
        assert(good_transform(wished[from], compiled[from]) || !good_transform(
            wished[from],
            compiled[from],
        ));
        if good_transform(wished[from], compiled[from]) {
            lemma_transform_fault(wished, compiled, from + 1);
        }
    }
}

/// Rules that replace and mask are refused for the first of them that is wrong. If none is wrong
/// they are all there, in order, each with what its pattern was compiled to.
pub proof fn law_transforms_are_compiled(
    r: Result<Vec<OutputTransformRule>, RuleError>,
    wished: Seq<TransformView>,
    compiled: Seq<Result<Regex, regex::Error>>,
)
    requires
        rules::transforms_answer(r, wished, compiled),
    ensures
        r is Ok <==> forall|i: int|
            0 <= i < wished.len() ==> good_transform(#[trigger] wished[i], compiled[i]),
        r is Err ==> exists|i: int|
            0 <= i < wished.len() && !good_transform(#[trigger] wished[i], compiled[i]) && (forall|
                j: int,
            |
                0 <= j < i ==> good_transform(#[trigger] wished[j], compiled[j])) && said_of(
                wished[i],
                compiled[i],
                r->Err_0@,
            ),
        r is Ok ==> r->Ok_0@.len() == wished.len() && forall|i: int|
            0 <= i < wished.len() ==> {
                let rule = #[trigger] r->Ok_0@[i];
                &&& compiled[i] == Ok::<Regex, regex::Error>(rule.regex)
                &&& match rule.kind {
                    OutputTransformKind::Replace(text) => wished[i].kind == Ok::<
                        KindView,
                        RuleFault,
                    >(KindView::Replace(text@)),
                    OutputTransformKind::Mask(ch) => wished[i].kind == Ok::<KindView, RuleFault>(
                        KindView::Mask(ch),
                    ),
                }
            },
{
    lemma_transform_fault(wished, compiled, 0);
}

/// The outcome of compiling a pattern is of that pattern, and there is one for each.
pub proof fn law_patterns_are_compiled_in_order(
    compiled: Seq<Result<Regex, regex::Error>>,
    patterns: Seq<Seq<char>>,
    i: int,
)
    requires
        rules::fits(compiled, patterns),
        0 <= i < patterns.len(),
        compiled[i] is Ok,
    ensures
        compiled.len() == patterns.len(),
        crate::matching::source(compiled[i]->Ok_0) == patterns[i],
{
}

/// A message names what is wrong, and then the pattern or the colour that it is about.
pub proof fn law_messages_about_rules(raw: Seq<char>, reason: regex::Error)
    ensures
        RuleFault::HighlightColor(raw).text() == "expected #RRGGBB, got: "@ + raw,
        RuleFault::HighlightRegex(raw, reason).text() == "invalid highlight regex: "@ + raw,
        RuleFault::ReplaceRegex(raw, reason).text() == "invalid replace regex: "@ + raw,
        RuleFault::MaskRegex(raw, reason).text() == "invalid mask regex: "@ + raw,
        RuleFault::ReplacePairs.text() == "--replace expects PATTERN TEXT pairs"@,
        RuleFault::EmptyMaskChar.text() == "mask char must not be empty"@,
        RuleFault::LongMaskChar.text() == "mask char must be a single character"@,
        RuleFault::HighlightRegex(raw, reason).why() == Some(reason),
        RuleFault::ReplaceRegex(raw, reason).why() == Some(reason),
        RuleFault::MaskRegex(raw, reason).why() == Some(reason),
        RuleFault::HighlightColor(raw).why() is None,
        RuleFault::ReplacePairs.why() is None,
{
}

/// A message about the setup of a run names the setting, or passes on what is said of a rule.
pub proof fn law_messages_about_a_run(setting: ColorSetting, raw: Seq<char>, fault: RuleFault)
    ensures
        ConfigFault::CommandRequired.text() == "command is required"@,
        ConfigFault::Color(setting, raw).text() == "invalid "@ + setting.label() + ": "@
            + "expected #RRGGBB, got: "@ + raw,
        ConfigFault::Highlight(fault).text() == "failed to compile highlight rules: "@
            + fault.text(),
        ConfigFault::Transform(fault).text() == "failed to compile output transform rules: "@
            + fault.text(),
        ConfigFault::Highlight(fault).why() == fault.why(),
        ConfigFault::Transform(fault).why() == fault.why(),
        ColorSetting::CliAnimationColor.label() == "cli_animation_color"@,
        ColorSetting::CliSettledColor.label() == "cli_settled_color"@,
        ColorSetting::CliGradientStart.label() == "cli_gradient_start"@,
        ColorSetting::CliGradientEnd.label() == "cli_gradient_end"@,
        ColorSetting::HighlightColor.label() == "highlight_color"@,
{
    assert(ConfigFault::Color(setting, raw).text() =~= "invalid "@ + setting.label() + ": "@
        + "expected #RRGGBB, got: "@ + raw);
}

} // verus!
