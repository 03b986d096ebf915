//! How the rules for highlights, replacements and masks are made from what the user asks for.
use crate::highlight;
use crate::highlight::{copy_optional, copy_texts, copy_words};
use crate::matching;
use crate::model::{HighlightRule, OutputTransformKind, OutputTransformRule, Rgb};
use crate::settings::{HighlightRuleConfig, MaskRuleConfig, ReplaceRuleConfig};
use crate::text::chars_of;
use crate::theme;
use crate::theme::{parse_optional_rgb, InvalidColor};
use crate::transform;
use regex::Regex;
use vstd::prelude::*;

verus! {

/// Why a rule is refused.
#[derive(Debug)]
pub enum RuleError {
    /// The colour of a highlight rule cannot be read.
    HighlightColor(InvalidColor),
    /// The pattern of a highlight rule does not compile.
    HighlightRegex { pattern: String, reason: regex::Error },
    /// A pattern has no text to replace what it matches.
    ReplacePairs,
    /// The pattern of a replacement does not compile.
    ReplaceRegex { pattern: String, reason: regex::Error },
    /// The pattern of a mask does not compile.
    MaskRegex { pattern: String, reason: regex::Error },
    /// There is no character to mask with.
    EmptyMaskChar,
    /// There is more than one character to mask with.
    LongMaskChar,
}

/// What an error says. A pattern that is refused comes with what is wrong with it.
pub enum RuleFault {
    HighlightColor(Seq<char>),
    HighlightRegex(Seq<char>, regex::Error),
    ReplacePairs,
    ReplaceRegex(Seq<char>, regex::Error),
    MaskRegex(Seq<char>, regex::Error),
    EmptyMaskChar,
    LongMaskChar,
}

impl View for RuleError {
    type V = RuleFault;

    open spec fn view(&self) -> RuleFault {
        match self {
            RuleError::HighlightColor(color) => RuleFault::HighlightColor(color.raw@),
            RuleError::HighlightRegex { pattern, reason } => RuleFault::HighlightRegex(
                pattern@,
                *reason,
            ),
            RuleError::ReplacePairs => RuleFault::ReplacePairs,
            RuleError::ReplaceRegex { pattern, reason } => RuleFault::ReplaceRegex(
                pattern@,
                *reason,
            ),
            RuleError::MaskRegex { pattern, reason } => RuleFault::MaskRegex(
                pattern@,
                *reason,
            ),
            RuleError::EmptyMaskChar => RuleFault::EmptyMaskChar,
            RuleError::LongMaskChar => RuleFault::LongMaskChar,
        }
    }
}

impl RuleFault {
    /// The message for the user, but for what is wrong with the pattern.
    pub open spec fn text(self) -> Seq<char> {
        match self {
            RuleFault::HighlightColor(raw) => "expected #RRGGBB, got: "@ + raw,
            RuleFault::HighlightRegex(pattern, _) => "invalid highlight regex: "@ + pattern,
            RuleFault::ReplacePairs => "--replace expects PATTERN TEXT pairs"@,
            RuleFault::ReplaceRegex(pattern, _) => "invalid replace regex: "@ + pattern,
            RuleFault::MaskRegex(pattern, _) => "invalid mask regex: "@ + pattern,
            RuleFault::EmptyMaskChar => "mask char must not be empty"@,
            RuleFault::LongMaskChar => "mask char must be a single character"@,
        }
    }

    /// What is wrong with the pattern, where a pattern is refused.
    pub open spec fn why(self) -> Option<regex::Error> {
        match self {
            RuleFault::HighlightRegex(_, reason) => Some(reason),
            RuleFault::ReplaceRegex(_, reason) => Some(reason),
            RuleFault::MaskRegex(_, reason) => Some(reason),
            _ => None,
        }
    }
}

fn joined(start: &str, rest: &str) -> (r: String)
    ensures
        r@ == start@ + rest@,
{
    let mut r: String = String::new();
    r.append(start);
    r.append(rest);
    assert(r@ =~= start@ + rest@);
    r
}

impl RuleError {
    /// The message for the user, but for what is wrong with the pattern.
    pub fn message(&self) -> (r: String)
        ensures
            r@ == self@.text(),
    {
        match self {
            RuleError::HighlightColor(color) => color.message(),
            RuleError::HighlightRegex { pattern, .. } => joined(
                "invalid highlight regex: ",
                pattern.as_str(),
            ),
            RuleError::ReplacePairs => "--replace expects PATTERN TEXT pairs".to_owned(),
            RuleError::ReplaceRegex { pattern, .. } => joined(
                "invalid replace regex: ",
                pattern.as_str(),
            ),
            RuleError::MaskRegex { pattern, .. } => joined(
                "invalid mask regex: ",
                pattern.as_str(),
            ),
            RuleError::EmptyMaskChar => "mask char must not be empty".to_owned(),
            RuleError::LongMaskChar => "mask char must be a single character".to_owned(),
        }
    }

    /// What is wrong with the pattern, where a pattern is refused.
    pub fn reason(&self) -> (r: Option<&regex::Error>)
        ensures
            match r {
                Some(reason) => self@.why() == Some(*reason),
                None => self@.why() is None,
            },
    {
        match self {
            RuleError::HighlightRegex { reason, .. } => Some(reason),
            RuleError::ReplaceRegex { reason, .. } => Some(reason),
            RuleError::MaskRegex { reason, .. } => Some(reason),
            _ => None,
        }
    }
}

/// The outcome of compiling some patterns, one after the other.
pub open spec fn fits(
    compiled: Seq<Result<Regex, regex::Error>>,
    patterns: Seq<Seq<char>>,
) -> bool {
    &&& compiled.len() == patterns.len()
    &&& forall|i: int|
        0 <= i < compiled.len() && (#[trigger] compiled[i]) is Ok ==> matching::source(
            compiled[i]->Ok_0,
        ) == patterns[i]
}

/// Reads the colour of a highlight. It is yellow where it is left out.
pub fn parse_highlight_color(value: Option<&str>) -> (r: Result<Rgb, InvalidColor>)
    ensures
        match value {
            None => r == Ok::<Rgb, InvalidColor>(Rgb(255, 255, 0)),
            Some(raw) => match theme::hex_color(raw@) {
                Some(rgb) => r == Ok::<Rgb, InvalidColor>(rgb),
                None => r is Err && r->Err_0.raw@ == raw@,
            },
        },
{
    match parse_optional_rgb(value) {
        Ok(Some(rgb)) => Ok(rgb),
        Ok(None) => Ok(Rgb(255, 255, 0)),
        Err(error) => Err(error),
    }
}

/// The highlight rules of the command line.
pub struct CliHighlightRuleOptions<'a> {
    pub patterns: &'a Vec<String>,
    pub command: &'a Vec<String>,
    pub capture_tui_screenshot: bool,
    pub capture_cli_text: bool,
    pub output_dir: &'a Option<String>,
    pub output_prefix: &'a Option<String>,
    pub default_color: Rgb,
}

/// A highlight rule before its pattern is compiled.
pub struct HighlightWish {
    pub key: String,
    pub pattern: String,
    pub color: Result<Rgb, InvalidColor>,
    pub command: Option<Vec<String>>,
    pub capture_tui_screenshot: bool,
    pub capture_cli_text: bool,
    pub output_dir: Option<String>,
    pub output_prefix: Option<String>,
}

/// What a highlight rule says.
#[verifier::ext_equal]
pub struct RuleView {
    pub key: Seq<char>,
    pub pattern: Seq<char>,
    /// The colour, or what cannot be read as one.
    pub color: Result<Rgb, Seq<char>>,
    pub command: Option<Seq<Seq<char>>>,
    pub capture_tui_screenshot: bool,
    pub capture_cli_text: bool,
    pub output_dir: Option<Seq<char>>,
    pub output_prefix: Option<Seq<char>>,
}

impl View for HighlightWish {
    type V = RuleView;

    open spec fn view(&self) -> RuleView {
        RuleView {
            key: self.key@,
            pattern: self.pattern@,
            color: match self.color {
                Ok(rgb) => Ok(rgb),
                Err(error) => Err(error.raw@),
            },
            command: highlight::optional_words(self.command),
            capture_tui_screenshot: self.capture_tui_screenshot,
            capture_cli_text: self.capture_cli_text,
            output_dir: theme::optional_text(self.output_dir),
            output_prefix: theme::optional_text(self.output_prefix),
        }
    }
}

/// What a compiled highlight rule says.
pub open spec fn rule_view(rule: HighlightRule) -> RuleView {
    RuleView {
        key: rule.key@,
        pattern: rule.pattern@,
        color: Ok(rule.color),
        command: highlight::optional_words(rule.command),
        capture_tui_screenshot: rule.capture_tui_screenshot,
        capture_cli_text: rule.capture_cli_text,
        output_dir: theme::optional_text(rule.output_dir),
        output_prefix: theme::optional_text(rule.output_prefix),
    }
}

/// The highlight rule for a pattern of the command line. The pattern is its key, too.
pub open spec fn cli_rule(options: CliHighlightRuleOptions<'_>, pattern: Seq<char>) -> RuleView {
    RuleView {
        key: pattern,
        pattern,
        color: Ok(options.default_color),
        command: if options.command@.len() == 0 {
            None
        } else {
            Some(transform::texts(options.command@))
        },
        capture_tui_screenshot: options.capture_tui_screenshot,
        capture_cli_text: options.capture_cli_text,
        output_dir: theme::optional_text(*options.output_dir),
        output_prefix: theme::optional_text(*options.output_prefix),
    }
}

/// The highlight rule for a rule of a profile. Where it has no key, the pattern is its key.
pub open spec fn profile_rule(rule: HighlightRuleConfig) -> RuleView {
    RuleView {
        key: match rule.key {
            Some(key) => key@,
            None => rule.pattern@,
        },
        pattern: rule.pattern@,
        color: match rule.color {
            None => Ok(Rgb(255, 255, 0)),
            Some(raw) => match theme::hex_color(raw@) {
                Some(rgb) => Ok(rgb),
                None => Err(raw@),
            },
        },
        command: highlight::optional_words(rule.command),
        capture_tui_screenshot: rule.capture_tui_screenshot,
        capture_cli_text: rule.capture_cli_text,
        output_dir: theme::optional_text(rule.output_dir),
        output_prefix: theme::optional_text(rule.output_prefix),
    }
}

/// The highlight rules that are asked for: those of the command line, then those of the profile.
pub open spec fn wished_rules(
    options: CliHighlightRuleOptions<'_>,
    profile_rules: Seq<HighlightRuleConfig>,
) -> Seq<RuleView> {
    options.patterns@.map_values(|pattern: String| cli_rule(options, pattern@))
        + profile_rules.map_values(|rule: HighlightRuleConfig| profile_rule(rule))
}

/// What some wishes say.
pub open spec fn wishes_view(list: Seq<HighlightWish>) -> Seq<RuleView> {
    list.map_values(|wish: HighlightWish| wish@)
}

/// What some rules say.
pub open spec fn rules_view(list: Seq<HighlightRule>) -> Seq<RuleView> {
    list.map_values(|rule: HighlightRule| rule_view(rule))
}

/// The patterns of some highlight rules.
pub open spec fn rule_patterns(rules: Seq<RuleView>) -> Seq<Seq<char>> {
    rules.map_values(|rule: RuleView| rule.pattern)
}

/// Why the first highlight rule from `i` on that is refused is refused, with the outcome of
/// compiling the patterns. A colour is looked at before the pattern.
pub open spec fn rule_fault(
    rules: Seq<RuleView>,
    compiled: Seq<Result<Regex, regex::Error>>,
    i: int,
) -> Option<RuleFault>
    decreases rules.len() - i,
{
    if i < 0 || i >= rules.len() {
        None
    } else if rules[i].color is Err {
        Some(RuleFault::HighlightColor(rules[i].color->Err_0))
    } else if compiled[i] is Err {
        Some(RuleFault::HighlightRegex(rules[i].pattern, compiled[i]->Err_0))
    } else {
        rule_fault(rules, compiled, i + 1)
    }
}

/// Whether rules use what their patterns were compiled to.
pub open spec fn rules_use(
    rules: Seq<HighlightRule>,
    compiled: Seq<Result<Regex, regex::Error>>,
) -> bool {
    forall|i: int|
        0 <= i < rules.len() ==> compiled[i] == Ok::<Regex, regex::Error>(
            (#[trigger] rules[i]).regex,
        )
}

/// Whether this is what becomes of the highlight rules that are asked for, with the outcome of
/// compiling their patterns.
pub open spec fn rules_answer(
    r: Result<Vec<HighlightRule>, RuleError>,
    rules: Seq<RuleView>,
    compiled: Seq<Result<Regex, regex::Error>>,
) -> bool {
    match rule_fault(rules, compiled, 0) {
        Some(fault) => r is Err && r->Err_0@ == fault,
        None => r is Ok && rules_view(r->Ok_0@) == rules && rules_use(r->Ok_0@, compiled),
    }
}

/// The highlight rules that are asked for, in order.
pub fn wish_highlight_rules(
    cli_options: &CliHighlightRuleOptions<'_>,
    profile_rules: &Vec<HighlightRuleConfig>,
) -> (r: Vec<HighlightWish>)
    ensures
        wishes_view(r@) == wished_rules(*cli_options, profile_rules@),
{
    let ghost goal = wished_rules(*cli_options, profile_rules@);
    let ghost first = cli_options.patterns@.len();
    let mut r: Vec<HighlightWish> = Vec::new();
    let mut i: usize = 0;
    assert(wishes_view(r@) =~= goal.take(0));
    while i < cli_options.patterns.len()
        invariant
            i <= cli_options.patterns@.len(),
            goal == wished_rules(*cli_options, profile_rules@),
            first == cli_options.patterns@.len(),
            wishes_view(r@) == goal.take(i as int),
        decreases cli_options.patterns@.len() - i,
    {
        let ghost before = r@;
        let command: Option<Vec<String>> = if cli_options.command.len() == 0 {
            None
        } else {
            Some(copy_texts(cli_options.command))
        };
        let wish: HighlightWish = HighlightWish {
            key: cli_options.patterns[i].clone(),
            pattern: cli_options.patterns[i].clone(),
            color: Ok(cli_options.default_color),
            command,
            capture_tui_screenshot: cli_options.capture_tui_screenshot,
            capture_cli_text: cli_options.capture_cli_text,
            output_dir: copy_optional(cli_options.output_dir),
            output_prefix: copy_optional(cli_options.output_prefix),
        };
        assert(goal[i as int] == cli_rule(*cli_options, cli_options.patterns@[i as int]@));
        assert(wish@ =~= goal[i as int]);
        r.push(wish);
        i = i + 1;
        assert(wishes_view(r@) =~= wishes_view(before).push(wish@));
        assert(wishes_view(r@) =~= goal.take(i as int));
    }
    let mut j: usize = 0;
    while j < profile_rules.len()
        invariant
            j <= profile_rules@.len(),
            goal == wished_rules(*cli_options, profile_rules@),
            first == cli_options.patterns@.len(),
            wishes_view(r@) == goal.take(first + j),
        decreases profile_rules@.len() - j,
    {
        let ghost before = r@;
        let rule: &HighlightRuleConfig = &profile_rules[j];
        let key: String = match &rule.key {
            Some(key) => key.clone(),
            None => rule.pattern.clone(),
        };
        let color: Result<Rgb, InvalidColor> = match &rule.color {
            Some(raw) => parse_highlight_color(Some(raw.as_str())),
            None => Ok(Rgb(255, 255, 0)),
        };
        let wish: HighlightWish = HighlightWish {
            key,
            pattern: rule.pattern.clone(),
            color,
            command: copy_words(&rule.command),
            capture_tui_screenshot: rule.capture_tui_screenshot,
            capture_cli_text: rule.capture_cli_text,
            output_dir: copy_optional(&rule.output_dir),
            output_prefix: copy_optional(&rule.output_prefix),
        };
        assert(goal[first + j] == profile_rule(profile_rules@[j as int]));
        assert(wish@ =~= goal[first + j]);
        r.push(wish);
        j = j + 1;
        assert(wishes_view(r@) =~= wishes_view(before).push(wish@));
        assert(wishes_view(r@) =~= goal.take(first + j));
    }
    assert(goal.take(first + j) =~= goal);
    r
}

/// The highlight rules, with the outcome of compiling their patterns.
pub fn highlight_rules_from(
    wishes: Vec<HighlightWish>,
    compiled: Vec<Result<Regex, regex::Error>>,
) -> (r: Result<Vec<HighlightRule>, RuleError>)
    requires
        compiled@.len() == wishes@.len(),
    ensures
        rules_answer(r, wishes_view(wishes@), compiled@),
{
    let ghost goal = wishes_view(wishes@);
    let ghost all = wishes@;
    let ghost outcomes = compiled@;
    let mut rest: Vec<HighlightWish> = wishes;
    let mut left: Vec<Result<Regex, regex::Error>> = compiled;
    let mut rules: Vec<HighlightRule> = Vec::new();
    let ghost mut n: int = 0;
    assert(rest@ =~= all.skip(0));
    assert(left@ =~= outcomes.skip(0));
    assert(rules_view(rules@) =~= goal.take(0));
    while rest.len() > 0
        invariant
            0 <= n <= all.len(),
            outcomes.len() == all.len(),
            goal == wishes_view(all),
            all == wishes@,
            outcomes == compiled@,
            rest@ == all.skip(n),
            left@ == outcomes.skip(n),
            rules_view(rules@) == goal.take(n),
            rules_use(rules@, outcomes),
            rule_fault(goal, outcomes, 0) == rule_fault(goal, outcomes, n),
        decreases rest@.len(),
    {
        let ghost before = rules@;
        let wish: HighlightWish = rest.remove(0);
        let outcome: Result<Regex, regex::Error> = left.remove(0);
        assert(wish == all[n] && goal[n] == wish@);
        assert(outcome == outcomes[n]);
        assert(rest@ =~= all.skip(n + 1));
        assert(left@ =~= outcomes.skip(n + 1));
        let color: Rgb = match wish.color {
            Ok(rgb) => rgb,
            Err(error) => {
                return Err(RuleError::HighlightColor(error));
            },
        };
        let regex: Regex = match outcome {
            Ok(regex) => regex,
            Err(reason) => {
                return Err(RuleError::HighlightRegex { pattern: wish.pattern, reason });
            },
        };
        let rule: HighlightRule = HighlightRule {
            key: wish.key,
            pattern: wish.pattern,
            regex,
            color,
            command: wish.command,
            capture_tui_screenshot: wish.capture_tui_screenshot,
            capture_cli_text: wish.capture_cli_text,
            output_dir: wish.output_dir,
            output_prefix: wish.output_prefix,
        };
        assert(rule_view(rule) =~= goal[n]);
        assert(rules_view(before).len() == before.len());
        rules.push(rule);
        proof {
            n = n + 1;
        }
        assert(rules_view(rules@) =~= rules_view(before).push(rule_view(rule)));
        assert(rules_view(rules@) =~= goal.take(n));
    }
    assert(goal.take(n) =~= goal);
    Ok(rules)
}

/// Compiles some patterns, one after the other.
fn compile_each(patterns: &Vec<String>) -> (r: Vec<Result<Regex, regex::Error>>)
    ensures
        fits(r@, transform::texts(patterns@)),
{
    let mut r: Vec<Result<Regex, regex::Error>> = Vec::new();
    let mut i: usize = 0;
    while i < patterns.len()
        invariant
            i <= patterns@.len(),
            r@.len() == i,
            forall|j: int|
                0 <= j < i && (#[trigger] r@[j]) is Ok ==> matching::source(r@[j]->Ok_0)
                    == patterns@[j]@,
        decreases patterns@.len() - i,
    {
        r.push(matching::compile(patterns[i].as_str()));
        i = i + 1;
    }
    r
}

/// Compiles the highlight rules of the command line and those of a profile, in this order. The
/// patterns of the rules are what is compiled.
pub fn compile_highlight_rules(
    cli_options: &CliHighlightRuleOptions<'_>,
    profile_rules: &Vec<HighlightRuleConfig>,
) -> (r: Result<Vec<HighlightRule>, RuleError>)
    ensures
        ({
            let rules = wished_rules(*cli_options, profile_rules@);
            exists|compiled: Seq<Result<Regex, regex::Error>>|
                fits(compiled, rule_patterns(rules)) && #[trigger] rules_answer(r, rules, compiled)
        }),
{
    let wishes: Vec<HighlightWish> = wish_highlight_rules(cli_options, profile_rules);
    let ghost rules = wishes_view(wishes@);
    let mut patterns: Vec<String> = Vec::new();
    let mut i: usize = 0;
    while i < wishes.len()
        invariant
            i <= wishes@.len(),
            rules == wishes_view(wishes@),
            patterns@.len() == i,
            forall|j: int| 0 <= j < i ==> (#[trigger] patterns@[j])@ == rules[j].pattern,
        decreases wishes@.len() - i,
    {
        patterns.push(wishes[i].pattern.clone());
        i = i + 1;
    }
    assert(transform::texts(patterns@) =~= rule_patterns(rules));
    let compiled: Vec<Result<Regex, regex::Error>> = compile_each(&patterns);
    highlight_rules_from(wishes, compiled)
}

/// The character to mask with.
pub open spec fn mask_char_of(value: Seq<char>) -> Result<char, RuleFault> {
    if value.len() == 0 {
        Err(RuleFault::EmptyMaskChar)
    } else if value.len() > 1 {
        Err(RuleFault::LongMaskChar)
    } else {
        Ok(value[0])
    }
}

/// Reads the character to mask with. There must be one, and no more.
pub fn parse_mask_char(value: &str) -> (r: Result<char, RuleError>)
    ensures
        match mask_char_of(value@) {
            Ok(ch) => r == Ok::<char, RuleError>(ch),
            Err(fault) => r is Err && r->Err_0@ == fault,
        },
{
    let chars: Vec<char> = chars_of(value);
    if chars.len() == 0 {
        Err(RuleError::EmptyMaskChar)
    } else if chars.len() > 1 {
        Err(RuleError::LongMaskChar)
    } else {
        Ok(chars[0])
    }
}

/// What becomes of matching text, in views.
pub enum KindView {
    Replace(Seq<char>),
    Mask(char),
}

/// What becomes of matching text, in views.
pub open spec fn kind_view(kind: OutputTransformKind) -> KindView {
    match kind {
        OutputTransformKind::Replace(text) => KindView::Replace(text@),
        OutputTransformKind::Mask(ch) => KindView::Mask(ch),
    }
}

/// A rule that replaces or masks before its pattern is compiled.
pub struct TransformWish {
    pub pattern: String,
    pub kind: Result<OutputTransformKind, RuleError>,
    /// Whether the rule masks.
    pub masks: bool,
}

/// What a rule that replaces or masks says.
#[verifier::ext_equal]
pub struct TransformView {
    pub pattern: Seq<char>,
    /// What becomes of matching text, or why that cannot be said.
    pub kind: Result<KindView, RuleFault>,
    /// Whether the rule masks.
    pub masks: bool,
}

impl View for TransformWish {
    type V = TransformView;

    open spec fn view(&self) -> TransformView {
        TransformView {
            pattern: self.pattern@,
            kind: match self.kind {
                Ok(kind) => Ok(kind_view(kind)),
                Err(error) => Err(error@),
            },
            masks: self.masks,
        }
    }
}

/// A rule that replaces.
pub open spec fn replacing(pattern: Seq<char>, text: Seq<char>) -> TransformView {
    TransformView { pattern, kind: Ok(KindView::Replace(text)), masks: false }
}

/// A rule that masks.
pub open spec fn masking(pattern: Seq<char>, value: Seq<char>) -> TransformView {
    TransformView {
        pattern,
        kind: match mask_char_of(value) {
            Ok(ch) => Ok(KindView::Mask(ch)),
            Err(fault) => Err(fault),
        },
        masks: true,
    }
}

/// The replacements of the command line.
pub open spec fn cli_replacements(cli_replace: Seq<String>) -> Seq<TransformView> {
    Seq::new(
        (cli_replace.len() / 2) as nat,
        |i: int| replacing(cli_replace[2 * i]@, cli_replace[2 * i + 1]@),
    )
}

/// The masks of the command line.
pub open spec fn cli_masks(cli_mask: Seq<String>, cli_mask_char: Seq<char>) -> Seq<TransformView> {
    cli_mask.map_values(|pattern: String| masking(pattern@, cli_mask_char))
}

/// The replacements of a profile.
pub open spec fn profile_replacements(rules: Seq<ReplaceRuleConfig>) -> Seq<TransformView> {
    rules.map_values(|rule: ReplaceRuleConfig| replacing(rule.pattern@, rule.replacement@))
}

/// The masks of a profile. They mask with a star where they do not say with what.
pub open spec fn profile_masks(rules: Seq<MaskRuleConfig>) -> Seq<TransformView> {
    rules.map_values(
        |rule: MaskRuleConfig|
            masking(
                rule.pattern@,
                match rule.mask_char {
                    Some(value) => value@,
                    None => "*"@,
                },
            ),
    )
}

/// The rules that replace or mask, in the order in which they are applied: replacements and masks
/// of the command line, then replacements and masks of the profile.
pub open spec fn wished_transforms(
    cli_replace: Seq<String>,
    cli_mask: Seq<String>,
    cli_mask_char: Seq<char>,
    profile_replace: Seq<ReplaceRuleConfig>,
    profile_mask: Seq<MaskRuleConfig>,
) -> Seq<TransformView> {
    cli_replacements(cli_replace) + cli_masks(cli_mask, cli_mask_char) + profile_replacements(
        profile_replace,
    ) + profile_masks(profile_mask)
}

/// Why the arguments of the command line are refused before any pattern is looked at.
pub open spec fn arguments_fault(cli_replace: Seq<String>, cli_mask_char: Seq<char>) -> Option<
    RuleFault,
> {
    match mask_char_of(cli_mask_char) {
        Err(fault) => Some(fault),
        Ok(_) => if cli_replace.len() % 2 != 0 {
            Some(RuleFault::ReplacePairs)
        } else {
            None
        },
    }
}

/// What some wishes say.
pub open spec fn transform_wishes(list: Seq<TransformWish>) -> Seq<TransformView> {
    list.map_values(|wish: TransformWish| wish@)
}

/// The patterns of some rules.
pub open spec fn transform_patterns(rules: Seq<TransformView>) -> Seq<Seq<char>> {
    rules.map_values(|rule: TransformView| rule.pattern)
}

/// Why the first rule from `i` on that is refused is refused, with the outcome of compiling the
/// patterns. What becomes of matching text is looked at before the pattern.
pub open spec fn transform_fault(
    rules: Seq<TransformView>,
    compiled: Seq<Result<Regex, regex::Error>>,
    i: int,
) -> Option<RuleFault>
    decreases rules.len() - i,
{
    if i < 0 || i >= rules.len() {
        None
    } else if rules[i].kind is Err {
        Some(rules[i].kind->Err_0)
    } else if compiled[i] is Err {
        Some(
            if rules[i].masks {
                RuleFault::MaskRegex(rules[i].pattern, compiled[i]->Err_0)
            } else {
                RuleFault::ReplaceRegex(rules[i].pattern, compiled[i]->Err_0)
            },
        )
    } else {
        transform_fault(rules, compiled, i + 1)
    }
}

/// Whether rules are those that are asked for, with what their patterns were compiled to.
pub open spec fn transforms_use(
    list: Seq<OutputTransformRule>,
    rules: Seq<TransformView>,
    compiled: Seq<Result<Regex, regex::Error>>,
) -> bool {
    &&& list.len() == rules.len()
    &&& forall|i: int|
        0 <= i < list.len() ==> compiled[i] == Ok::<Regex, regex::Error>(
            (#[trigger] list[i]).regex,
        ) && rules[i].kind == Ok::<KindView, RuleFault>(kind_view(list[i].kind))
}

/// Whether this is what becomes of the rules that are asked for, with the outcome of compiling
/// their patterns.
pub open spec fn transforms_answer(
    r: Result<Vec<OutputTransformRule>, RuleError>,
    rules: Seq<TransformView>,
    compiled: Seq<Result<Regex, regex::Error>>,
) -> bool {
    match transform_fault(rules, compiled, 0) {
        Some(fault) => r is Err && r->Err_0@ == fault,
        None => r is Ok && transforms_use(r->Ok_0@, rules, compiled),
    }
}

fn mask_wish(rule: &MaskRuleConfig) -> (r: TransformWish)
    ensures
        r@ == masking(
            rule.pattern@,
            match rule.mask_char {
                Some(value) => value@,
                None => "*"@,
            },
        ),
{
    let value: &str = match &rule.mask_char {
        Some(value) => value.as_str(),
        None => "*",
    };
    let kind: Result<OutputTransformKind, RuleError> = match parse_mask_char(value) {
        Ok(ch) => Ok(OutputTransformKind::Mask(ch)),
        Err(error) => Err(error),
    };
    TransformWish { pattern: rule.pattern.clone(), kind, masks: true }
}

/// The rules that replace or mask, in the order in which they are applied.
pub fn wish_output_transforms(
    cli_replace: &Vec<String>,
    cli_mask: &Vec<String>,
    cli_mask_char: &str,
    profile_replace: &Vec<ReplaceRuleConfig>,
    profile_mask: &Vec<MaskRuleConfig>,
) -> (r: Result<Vec<TransformWish>, RuleError>)
    ensures
        match arguments_fault(cli_replace@, cli_mask_char@) {
            Some(fault) => r is Err && r->Err_0@ == fault,
            None => r is Ok && transform_wishes(r->Ok_0@) == wished_transforms(
                cli_replace@,
                cli_mask@,
                cli_mask_char@,
                profile_replace@,
                profile_mask@,
            ),
        },
{
    let default_mask_char: char = match parse_mask_char(cli_mask_char) {
        Ok(ch) => ch,
        Err(error) => {
            return Err(error);
        },
    };
    if cli_replace.len() % 2 != 0 {
        return Err(RuleError::ReplacePairs);
    }
    let ghost first = cli_replacements(cli_replace@);
    let ghost second = cli_masks(cli_mask@, cli_mask_char@);
    let ghost third = profile_replacements(profile_replace@);
    let ghost fourth = profile_masks(profile_mask@);
    let mut r: Vec<TransformWish> = Vec::new();
    let mut i: usize = 0;
    assert(transform_wishes(r@) =~= first.take(0));
    while i < cli_replace.len() / 2
        invariant
            i <= cli_replace@.len() / 2,
            first == cli_replacements(cli_replace@),
            transform_wishes(r@) == first.take(i as int),
        decreases cli_replace@.len() / 2 - i,
    {
        let ghost before = r@;
        let wish: TransformWish = TransformWish {
            pattern: cli_replace[2 * i].clone(),
            kind: Ok(OutputTransformKind::Replace(cli_replace[2 * i + 1].clone())),
            masks: false,
        };
        assert(wish@ =~= first[i as int]);
        r.push(wish);
        i = i + 1;
        assert(transform_wishes(r@) =~= transform_wishes(before).push(wish@));
        assert(transform_wishes(r@) =~= first.take(i as int));
    }
    assert(transform_wishes(r@) =~= first);
    i = 0;
    assert(first =~= first + second.take(0));
    while i < cli_mask.len()
        invariant
            i <= cli_mask@.len(),
            second == cli_masks(cli_mask@, cli_mask_char@),
            mask_char_of(cli_mask_char@) == Ok::<char, RuleFault>(default_mask_char),
            transform_wishes(r@) == first + second.take(i as int),
        decreases cli_mask@.len() - i,
    {
        let ghost before = r@;
        let wish: TransformWish = TransformWish {
            pattern: cli_mask[i].clone(),
            kind: Ok(OutputTransformKind::Mask(default_mask_char)),
            masks: true,
        };
        assert(wish@ =~= second[i as int]);
        r.push(wish);
        i = i + 1;
        assert(transform_wishes(r@) =~= transform_wishes(before).push(wish@));
        assert(transform_wishes(r@) =~= first + second.take(i as int));
    }
    let ghost half = first + second;
    assert(transform_wishes(r@) =~= half);
    i = 0;
    assert(half =~= half + third.take(0));
    while i < profile_replace.len()
        invariant
            i <= profile_replace@.len(),
            third == profile_replacements(profile_replace@),
            transform_wishes(r@) == half + third.take(i as int),
        decreases profile_replace@.len() - i,
    {
        let ghost before = r@;
        let wish: TransformWish = TransformWish {
            pattern: profile_replace[i].pattern.clone(),
            kind: Ok(OutputTransformKind::Replace(profile_replace[i].replacement.clone())),
            masks: false,
        };
        assert(wish@ =~= third[i as int]);
        r.push(wish);
        i = i + 1;
        assert(transform_wishes(r@) =~= transform_wishes(before).push(wish@));
        assert(transform_wishes(r@) =~= half + third.take(i as int));
    }
    let ghost most = half + third;
    assert(transform_wishes(r@) =~= most);
    i = 0;
    assert(most =~= most + fourth.take(0));
    while i < profile_mask.len()
        invariant
            i <= profile_mask@.len(),
            fourth == profile_masks(profile_mask@),
            transform_wishes(r@) == most + fourth.take(i as int),
        decreases profile_mask@.len() - i,
    {
        let ghost before = r@;
        let wish: TransformWish = mask_wish(&profile_mask[i]);
        assert(wish@ =~= fourth[i as int]);
        r.push(wish);
        i = i + 1;
        assert(transform_wishes(r@) =~= transform_wishes(before).push(wish@));
        assert(transform_wishes(r@) =~= most + fourth.take(i as int));
    }
    assert(transform_wishes(r@) =~= most + fourth);
    Ok(r)
}

/// The rules that replace or mask, with the outcome of compiling their patterns.
pub fn output_transforms_from(
    wishes: Vec<TransformWish>,
    compiled: Vec<Result<Regex, regex::Error>>,
) -> (r: Result<Vec<OutputTransformRule>, RuleError>)
    requires
        compiled@.len() == wishes@.len(),
    ensures
        transforms_answer(r, transform_wishes(wishes@), compiled@),
{
    let ghost goal = transform_wishes(wishes@);
    let ghost all = wishes@;
    let ghost outcomes = compiled@;
    let mut rest: Vec<TransformWish> = wishes;
    let mut left: Vec<Result<Regex, regex::Error>> = compiled;
    let mut list: Vec<OutputTransformRule> = Vec::new();
    let ghost mut n: int = 0;
    assert(rest@ =~= all.skip(0));
    assert(left@ =~= outcomes.skip(0));
    while rest.len() > 0
        invariant
            0 <= n <= all.len(),
            outcomes.len() == all.len(),
            goal == transform_wishes(all),
            all == wishes@,
            outcomes == compiled@,
            rest@ == all.skip(n),
            left@ == outcomes.skip(n),
            transforms_use(list@, goal.take(n), outcomes),
            transform_fault(goal, outcomes, 0) == transform_fault(goal, outcomes, n),
        decreases rest@.len(),
    {
        let wish: TransformWish = rest.remove(0);
        let outcome: Result<Regex, regex::Error> = left.remove(0);
        assert(wish == all[n] && goal[n] == wish@);
        assert(outcome == outcomes[n]);
        assert(rest@ =~= all.skip(n + 1));
        assert(left@ =~= outcomes.skip(n + 1));
        let kind: OutputTransformKind = match wish.kind {
            Ok(kind) => kind,
            Err(error) => {
                return Err(error);
            },
        };
        let regex: Regex = match outcome {
            Ok(regex) => regex,
            Err(reason) => {
                return Err(
                    if wish.masks {
                        RuleError::MaskRegex { pattern: wish.pattern, reason }
                    } else {
                        RuleError::ReplaceRegex { pattern: wish.pattern, reason }
                    },
                );
            },
        };
        list.push(OutputTransformRule { regex, kind });
        proof {
            assert forall|i: int| 0 <= i < list@.len() implies outcomes[i] == Ok::<
                Regex,
                regex::Error,
            >((#[trigger] list@[i]).regex) && goal.take(n + 1)[i].kind == Ok::<
                KindView,
                RuleFault,
            >(kind_view(list@[i].kind)) by {
                if i < n {
                    assert(goal.take(n + 1)[i] == goal.take(n)[i]);
                }
            }
            n = n + 1;
        }
    }
    assert(goal.take(n) =~= goal);
    Ok(list)
}

/// Compiles the rules that replace or mask: those of the command line, then those of a profile.
/// The patterns of the rules are what is compiled.
pub fn compile_output_transform_rules(
    cli_replace: &Vec<String>,
    cli_mask: &Vec<String>,
    cli_mask_char: &str,
    profile_replace: &Vec<ReplaceRuleConfig>,
    profile_mask: &Vec<MaskRuleConfig>,
) -> (r: Result<Vec<OutputTransformRule>, RuleError>)
    ensures
        match arguments_fault(cli_replace@, cli_mask_char@) {
            Some(fault) => r is Err && r->Err_0@ == fault,
            None => {
                let rules = wished_transforms(
                    cli_replace@,
                    cli_mask@,
                    cli_mask_char@,
                    profile_replace@,
                    profile_mask@,
                );
                exists|compiled: Seq<Result<Regex, regex::Error>>|
                    fits(compiled, transform_patterns(rules)) && #[trigger] transforms_answer(
                        r,
                        rules,
                        compiled,
                    )
            },
        },
{
    let wishes: Vec<TransformWish> = match wish_output_transforms(
        cli_replace,
        cli_mask,
        cli_mask_char,
        profile_replace,
        profile_mask,
    ) {
        Ok(wishes) => wishes,
        Err(error) => {
            return Err(error);
        },
    };
    let ghost rules = transform_wishes(wishes@);
    let mut patterns: Vec<String> = Vec::new();
    let mut i: usize = 0;
    while i < wishes.len()
        invariant
            i <= wishes@.len(),
            rules == transform_wishes(wishes@),
            patterns@.len() == i,
            forall|j: int| 0 <= j < i ==> (#[trigger] patterns@[j])@ == rules[j].pattern,
        decreases wishes@.len() - i,
    {
        patterns.push(wishes[i].pattern.clone());
        i = i + 1;
    }
    assert(transform::texts(patterns@) =~= transform_patterns(rules));
    let compiled: Vec<Result<Regex, regex::Error>> = compile_each(&patterns);
    output_transforms_from(wishes, compiled)
}

} // verus!
