//! The inline animation of command output.
use crate::cli_frames;
use crate::cli_frames::{ratio_of, render_cli_frame};
use crate::model::{EffectKind, Feature, Rgb, Runtime};
use crate::sequences;
use crate::sgr;
use crate::sgr::push_color;
use crate::single;
use crate::single::{Number, Single};
use crate::text;
use crate::text::{chars_of, push_decimal, text_of};
use crate::theme;
use crate::theme::{gradient, lerp_rgb};
use crate::transform;
use vstd::prelude::*;
use vstd::utf8::*;

verus! {

/// A line without a carriage return at its end.
pub open spec fn without_return(line: Seq<char>) -> Seq<char> {
    if line.len() > 0 && line.last() == '\r' {
        line.drop_last()
    } else {
        line
    }
}

/// The lines of a text, and what follows the last line feed. A carriage return before a line
/// feed is part of the line's end.
pub open spec fn lines_of(text: Seq<char>) -> Seq<Seq<char>>
    decreases text.len(),
{
    if text.len() == 0 {
        seq![Seq::empty()]
    } else {
        let before = lines_of(text.drop_last());
        if text.last() == '\n' {
            before.drop_last().push(without_return(before.last())).push(Seq::empty())
        } else {
            before.drop_last().push(before.last().push(text.last()))
        }
    }
}

/// The lines of a text, and what follows the last line feed.
pub fn split_lines_preserve_tail(text: &str) -> (r: Vec<String>)
    ensures
        transform::texts(r@) == lines_of(text@),
        r@.len() >= 1,
{
    let chars: Vec<char> = chars_of(text);
    let mut done: Vec<String> = Vec::new();
    let mut current: Vec<char> = Vec::new();
    let mut i: usize = 0;
    assert(chars@.take(0) =~= Seq::empty());
    assert(transform::texts(done@) =~= lines_of(chars@.take(0)).drop_last());
    assert(current@ =~= lines_of(chars@.take(0)).last());
    while i < chars.len()
        invariant
            i <= chars@.len(),
            lines_of(chars@.take(i as int)).len() >= 1,
            transform::texts(done@) == lines_of(chars@.take(i as int)).drop_last(),
            current@ == lines_of(chars@.take(i as int)).last(),
        decreases chars@.len() - i,
    {
        let ghost before = done@;
        let ghost next = chars@.take(i + 1);
        assert(next.drop_last() =~= chars@.take(i as int));
        assert(next.last() == chars@[i as int]);
        if chars[i] == '\n' {
            if current.len() > 0 && current[current.len() - 1] == '\r' {
                current.pop();
            }
            let line: String = text_of(current.as_slice());
            done.push(line);
            current = Vec::new();
            assert(transform::texts(done@) =~= transform::texts(before).push(line@));
            assert(lines_of(next).drop_last() =~= transform::texts(before).push(line@));
        } else {
            current.push(chars[i]);
            assert(lines_of(next).drop_last() =~= transform::texts(before));
        }
        i = i + 1;
    }
    assert(chars@.take(chars@.len() as int) =~= chars@);
    let ghost before = done@;
    let line: String = text_of(current.as_slice());
    done.push(line);
    let ghost all = lines_of(text@);
    assert(transform::texts(done@) =~= transform::texts(before).push(line@));
    assert(all =~= all.drop_last().push(all.last()));
    done
}

/// Some lines with line feeds between them.
pub open spec fn joined(lines: Seq<Seq<char>>) -> Seq<char>
    decreases lines.len(),
{
    if lines.len() == 0 {
        Seq::empty()
    } else if lines.len() == 1 {
        lines[0]
    } else {
        joined(lines.drop_last()) + seq!['\n'] + lines.last()
    }
}

proof fn lemma_joined_push(front: Seq<Seq<char>>, line: Seq<char>, ch: char)
    ensures
        joined(front.push(line.push(ch))) == joined(front.push(line)).push(ch),
        joined(front.push(line).push(Seq::empty())) == joined(front.push(line)).push('\n'),
{
    assert(front.push(line).drop_last() =~= front);
    assert(front.push(line.push(ch)).drop_last() =~= front);
    assert(front.push(line).push(Seq::empty()).drop_last() =~= front.push(line));
    assert(joined(front.push(line.push(ch))) =~= joined(front.push(line)).push(ch));
    assert(joined(front.push(line)) + seq!['\n'] + Seq::<char>::empty() =~= joined(
        front.push(line),
    ).push('\n'));
}

/// There is a line in every text, and no line holds a line feed.
pub proof fn law_lines_hold_no_line_feed(text: Seq<char>)
    ensures
        lines_of(text).len() >= 1,
        forall|i: int|
            0 <= i < lines_of(text).len() ==> !(#[trigger] lines_of(text)[i]).contains('\n'),
    decreases text.len(),
{
    if text.len() > 0 {
        let before = lines_of(text.drop_last());
        law_lines_hold_no_line_feed(text.drop_last());
        let last = before.last();
        assert(last == before[before.len() - 1]);
        assert forall|i: int| 0 <= i < lines_of(text).len() implies !(#[trigger] lines_of(
            text,
        )[i]).contains('\n') by {
            let line = lines_of(text)[i];
            if i < before.len() - 1 {
                assert(line == before[i]);
            } else if i == before.len() - 1 {
                assert forall|k: int| 0 <= k < line.len() implies line[k] != '\n' by {
                    if k < last.len() {
                        assert(line[k] == last[k]);
                        assert(last.contains(last[k]));
                    }
                }
            }
        }
    }
}

proof fn lemma_end_of_lines(text: Seq<char>)
    ensures
        lines_of(text).len() >= 1,
        lines_of(text).last().len() > 0 ==> text.len() > 0 && lines_of(text).last().last()
            == text.last(),
    decreases text.len(),
{
    if text.len() > 0 {
        lemma_end_of_lines(text.drop_last());
    }
}

/// The lines of a text, with line feeds between them, are the text, if no carriage return stands
/// before a line feed.
pub proof fn law_lines_make_the_text(text: Seq<char>)
    requires
        forall|i: int, j: int|
            0 <= i && j == i + 1 && j < text.len() ==> !(#[trigger] text[i] == '\r'
                && #[trigger] text[j] == '\n'),
    ensures
        joined(lines_of(text)) == text,
    decreases text.len(),
{
    if text.len() == 0 {
        assert(lines_of(text)[0] =~= text);
    } else {
        let start = text.drop_last();
        let before = lines_of(start);
        lemma_end_of_lines(start);
        assert forall|i: int, j: int|
            0 <= i && j == i + 1 && j < start.len() implies !(#[trigger] start[i] == '\r'
            && #[trigger] start[j] == '\n') by {
            assert(text[i] == start[i] && text[j] == start[j]);
        }
        law_lines_make_the_text(start);
        let front = before.drop_last();
        let last = before.last();
        assert(before =~= front.push(last));
        lemma_joined_push(front, last, text.last());
        if text.last() == '\n' && last.len() > 0 && last.last() == '\r' {
            assert(text[text.len() - 2] == '\r' && text[text.len() - 1] == '\n');
        }
        assert(start.push(text.last()) =~= text);
    }
}

/// The index behind a control sequence whose parameters start at index `j`.
pub open spec fn after_control(t: Seq<char>, j: int) -> int
    decreases t.len() - j,
{
    if j >= t.len() || j < 0 {
        t.len() as int
    } else if '@' <= t[j] <= '~' {
        j + 1
    } else {
        after_control(t, j + 1)
    }
}

/// Whether an operating system command that starts at `start` ends with the character at `j`.
pub open spec fn ends_command(t: Seq<char>, start: int, j: int) -> bool {
    t[j] == '\u{7}' || (j > start && t[j - 1] == '\u{1b}' && t[j] == '\\')
}

/// The index behind an operating system command that starts at `start`, looking from `j` on.
pub open spec fn after_command(t: Seq<char>, start: int, j: int) -> int
    decreases t.len() - j,
{
    if j >= t.len() || j < start || j < 0 {
        t.len() as int
    } else if ends_command(t, start, j) {
        j + 1
    } else {
        after_command(t, start, j + 1)
    }
}

/// The index behind what starts at index `i`: an escape sequence, or one character.
pub open spec fn after_item(t: Seq<char>, i: int) -> int {
    if t[i] == '\u{1b}' && i + 1 < t.len() && t[i + 1] == '[' {
        after_control(t, i + 2)
    } else if t[i] == '\u{1b}' && i + 1 < t.len() && t[i + 1] == ']' {
        after_command(t, i + 2, i + 2)
    } else {
        i + 1
    }
}

proof fn lemma_after_control(t: Seq<char>, j: int)
    requires
        0 <= j,
    ensures
        after_control(t, j) <= t.len(),
        j < t.len() ==> after_control(t, j) > j,
    decreases t.len() - j,
{
    if j < t.len() {
        lemma_after_control(t, j + 1);
    }
}

proof fn lemma_after_command(t: Seq<char>, start: int, j: int)
    requires
        0 <= start <= j,
    ensures
        after_command(t, start, j) <= t.len(),
        j < t.len() ==> after_command(t, start, j) > j,
    decreases t.len() - j,
{
    if j < t.len() {
        lemma_after_command(t, start, j + 1);
    }
}

/// A text from index `i` on, without its escape sequences.
pub open spec fn stripped(t: Seq<char>, i: int) -> Seq<char>
    decreases t.len() - i,
{
    if i >= t.len() || i < 0 {
        Seq::empty()
    } else {
        let next = after_item(t, i);
        let rest = if i < next <= t.len() {
            stripped(t, next)
        } else {
            Seq::empty()
        };
        if t[i] == '\u{1b}' {
            rest
        } else {
            seq![t[i]] + rest
        }
    }
}

/// Removes escape sequences from a text.
pub fn strip_ansi_for_animation(text: &str) -> (r: String)
    ensures
        r@ == stripped(text@, 0),
{
    let chars: Vec<char> = chars_of(text);
    let mut r: String = String::new();
    let mut i: usize = 0;
    assert(r@ + stripped(text@, 0) =~= stripped(text@, 0));
    while i < chars.len()
        invariant
            i <= chars@.len(),
            chars@ == text@,
            r@ + stripped(text@, i as int) == stripped(text@, 0),
        decreases chars@.len() - i,
    {
        let ghost before = r@;
        if chars[i] != '\u{1b}' {
            r.push(chars[i]);
            i = i + 1;
            assert(before + (seq![text@[i - 1]] + stripped(text@, i as int)) =~= r@ + stripped(
                text@,
                i as int,
            ));
        } else if chars.len() - i > 1 && chars[i + 1] == '[' {
            let mut j: usize = i + 2;
            while j < chars.len() && !('@' <= chars[j] && chars[j] <= '~')
                invariant
                    i + 2 <= j <= chars@.len(),
                    chars@ == text@,
                    after_control(text@, i + 2) == after_control(text@, j as int),
                decreases chars@.len() - j,
            {
                j = j + 1;
            }
            i = if j < chars.len() {
                j + 1
            } else {
                j
            };
        } else if chars.len() - i > 1 && chars[i + 1] == ']' {
            let start: usize = i + 2;
            let mut j: usize = start;
            while j < chars.len() && !(chars[j] == '\u{7}' || (j > start && chars[j - 1] == '\u{1b}'
                && chars[j] == '\\'))
                invariant
                    start <= j <= chars@.len(),
                    start == i + 2,
                    chars@ == text@,
                    after_command(text@, start as int, start as int) == after_command(
                        text@,
                        start as int,
                        j as int,
                    ),
                decreases chars@.len() - j,
            {
                j = j + 1;
            }
            i = if j < chars.len() {
                j + 1
            } else {
                j
            };
        } else {
            i = i + 1;
        }
    }
    assert(r@ + Seq::<char>::empty() =~= r@);
    r
}

/// What has been stripped holds no escape.
pub proof fn law_stripped_has_no_escape(t: Seq<char>, i: int)
    requires
        0 <= i,
    ensures
        !stripped(t, i).contains('\u{1b}'),
    decreases t.len() - i,
{
    if i < t.len() {
        lemma_after_control(t, i + 2);
        lemma_after_command(t, i + 2, i + 2);
        let next = after_item(t, i);
        law_stripped_has_no_escape(t, next);
        let rest = if i < next <= t.len() {
            stripped(t, next)
        } else {
            Seq::empty()
        };
        assert forall|k: int| 0 <= k < stripped(t, i).len() implies stripped(t, i)[k]
            != '\u{1b}' by {
            if t[i] != '\u{1b}' && k > 0 {
                assert(stripped(t, i)[k] == rest[k - 1]);
            }
        }
    }
}

/// A text without escapes stays as it is.
pub proof fn law_plain_text_is_kept(t: Seq<char>, i: int)
    requires
        0 <= i <= t.len(),
        !t.contains('\u{1b}'),
    ensures
        stripped(t, i) == t.skip(i),
    decreases t.len() - i,
{
    if i < t.len() {
        assert(t[i] != '\u{1b}') by {
            assert(t.contains(t[i]));
        }
        law_plain_text_is_kept(t, i + 1);
        assert(seq![t[i]] + t.skip(i + 1) =~= t.skip(i));
    } else {
        assert(t.skip(i) =~= Seq::empty());
    }
}

proof fn lemma_stripped_part(t: Seq<char>, i: int)
    requires
        0 <= i <= t.len(),
    ensures
        sequences::subsequence(stripped(t, i), t.skip(i)),
    decreases t.len() - i,
{
    let rest = t.skip(i);
    if i < t.len() {
        lemma_after_control(t, i + 2);
        lemma_after_command(t, i + 2, i + 2);
        let next = after_item(t, i);
        lemma_stripped_part(t, next);
        if t[i] == '\u{1b}' {
            assert(rest.skip(next - i) =~= t.skip(next));
            sequences::lemma_left_out(stripped(t, next), rest, next - i);
        } else {
            assert(rest.skip(1) =~= t.skip(next));
            sequences::lemma_taken_in(stripped(t, next), rest);
        }
    } else {
        sequences::lemma_whole(rest);
        assert(rest =~= stripped(t, i));
    }
}

/// Stripping leaves a subsequence, changes something exactly where there is an escape, and a
/// second time changes nothing.
pub proof fn law_stripped_is_a_part(t: Seq<char>)
    ensures
        sequences::subsequence(stripped(t, 0), t),
        stripped(t, 0) == t <==> !t.contains('\u{1b}'),
        stripped(stripped(t, 0), 0) == stripped(t, 0),
{
    let once = stripped(t, 0);
    lemma_stripped_part(t, 0);
    assert(t.skip(0) =~= t);
    law_stripped_has_no_escape(t, 0);
    if !t.contains('\u{1b}') {
        law_plain_text_is_kept(t, 0);
    }
    law_plain_text_is_kept(once, 0);
    assert(once.skip(0) =~= once);
}

/// A line in a colour, with the line's end.
pub open spec fn colored_line(line: Seq<char>, fg: Rgb) -> Seq<char> {
    sgr::color_code(true, fg) + line + "\x1b[0m\r\n"@
}

/// Appends a line in a colour, with the line's end.
pub fn write_cli_colored_line(out: &mut String, line: &str, fg: Rgb)
    ensures
        final(out)@ == old(out)@ + colored_line(line@, fg),
{
    push_color(out, true, fg);
    out.append(line);
    out.append("\x1b[0m\r\n");
    assert(out@ =~= old(out)@ + colored_line(line@, fg));
}

/// The colour of a frame: between the ends of the gradient, the animation colour, or the colour
/// of the theme.
pub open spec fn frame_color(rt: Runtime, progress: Number) -> Rgb {
    let k = single::clamped(progress);
    match (rt.cli_gradient_start, rt.cli_gradient_end) {
        (Some(start), Some(end)) => theme::mixed(start, end, k),
        _ => match rt.cli_animation_color {
            Some(color) => color,
            None => match theme::gradient_color(rt.theme@.foreground, k) {
                Some(color) => color,
                None => rt.theme@.fg(),
            },
        },
    }
}

/// Whether the frames are coloured by the theme: no other colours are set.
pub open spec fn colored_by_theme(rt: Runtime) -> bool {
    (rt.cli_gradient_start is None || rt.cli_gradient_end is None) && rt.cli_animation_color is None
}

/// The colour of a frame.
pub fn cli_frame_fg(rt: &Runtime, progress: Single) -> (r: Rgb)
    requires
        colored_by_theme(*rt) ==> rt.theme@.usable(),
    ensures
        r == frame_color(*rt, progress@),
{
    let k: Single = progress.clamp_to_one();
    if let Some(start) = rt.cli_gradient_start {
        if let Some(end) = rt.cli_gradient_end {
            return lerp_rgb(start, end, k);
        }
    }
    if let Some(color) = rt.cli_animation_color {
        return color;
    }
    match gradient(rt.theme.foreground.as_slice(), k) {
        Some(color) => color,
        None => rt.theme.default_fg_rgb(),
    }
}

/// The colour of lines that have settled.
pub open spec fn settled_color(rt: Runtime) -> Rgb {
    match rt.cli_settled_color {
        Some(color) => color,
        None => rt.theme@.fg(),
    }
}

/// Whether output is animated, and not just printed: the output is a terminal, the feature is
/// on, the effect does something, colour is wanted, and the text is neither empty nor too long.
pub fn animates(rt: &Runtime, stdout_is_tty: bool, no_color: bool, text: &str) -> (r: bool)
    ensures
        r == (stdout_is_tty && rt.features@.contains(Feature::InlineAnimation) && rt.effect
            != EffectKind::Plain && !no_color && text@.len() > 0 && (encode_utf8(text@).len()
            <= rt.max_bytes || rt.animate_over_limit)),
{
    proof {
        text::lemma_encoded_length(text@);
        if text@.len() > 0 {
            text::lemma_offset_grows(text@, 0, text@.len() as int);
        }
    }
    let bytes: usize = text.as_bytes().len();
    stdout_is_tty && rt.features.contains(&Feature::InlineAnimation) && rt.effect
        != EffectKind::Plain && !no_color && bytes > 0 && (bytes <= rt.max_bytes
        || rt.animate_over_limit)
}

/// The number of lines at the end of the output that are animated, on a terminal of `rows` rows;
/// none where the terminal has no room.
pub open spec fn animated_height(lines: int, rows: int, max_lines: int) -> int {
    let room = if rows > 0 {
        rows - 1
    } else {
        0
    };
    let most = if room < cli_frames::at_least_one(max_lines) {
        room
    } else {
        cli_frames::at_least_one(max_lines)
    };
    if most < cli_frames::at_least_one(lines) {
        most
    } else {
        cli_frames::at_least_one(lines)
    }
}

fn height_of(lines: usize, rows: u16, max_lines: usize) -> (r: usize)
    ensures
        r == animated_height(lines as int, rows as int, max_lines as int),
{
    let mut most: usize = if rows > 0 {
        (rows - 1) as usize
    } else {
        0
    };
    if max_lines < 1 {
        if most > 1 {
            most = 1;
        }
    } else if most > max_lines {
        most = max_lines;
    }
    let count: usize = if lines < 1 {
        1
    } else {
        lines
    };
    if most > count {
        most = count;
    }
    most
}

/// How long a frame stays, in milliseconds: its share of the time, but at least one.
pub open spec fn pause_of(duration_ms: int, frames: int) -> int {
    cli_frames::at_least_one(duration_ms / cli_frames::at_least_one(frames))
}

/// How long a frame stays, in milliseconds.
pub fn frame_pause_ms(duration_ms: u64, frames: usize) -> (r: u64)
    ensures
        r == pause_of(duration_ms as int, frames as int),
{
    let share: u64 = duration_ms / (if frames < 1 {
        1
    } else {
        frames as u64
    });
    if share < 1 {
        1
    } else {
        share
    }
}

/// A piece of output, and how long to wait after it.
#[derive(Debug, PartialEq, Eq)]
pub struct Burst {
    pub text: String,
    pub pause_ms: u64,
}

/// A piece of output, and how long to wait after it.
#[verifier::ext_equal]
pub struct BurstView {
    pub text: Seq<char>,
    pub pause_ms: int,
}

impl View for Burst {
    type V = BurstView;

    open spec fn view(&self) -> BurstView {
        BurstView { text: self.text@, pause_ms: self.pause_ms as int }
    }
}

/// `n` line feeds.
pub open spec fn feeds(n: int) -> Seq<char> {
    Seq::new(n as nat, |i: int| '\n')
}

/// The first `n` of some lines, in a colour.
pub open spec fn colored_lines(lines: Seq<Seq<char>>, fg: Rgb, n: int) -> Seq<char>
    decreases n,
{
    if n <= 0 {
        Seq::empty()
    } else {
        colored_lines(lines, fg, n - 1) + colored_line(lines[n - 1], fg)
    }
}

/// The lines of a frame. The last frame shows the lines as they are.
pub open spec fn frame_lines(tail: Seq<Seq<char>>, rt: Runtime, frame: int) -> Seq<Seq<char>> {
    tail.map(
        |row: int, line: Seq<char>|
            if frame == rt.frames {
                line
            } else {
                cli_frames::cli_frame(
                    line,
                    frame as usize,
                    row as usize,
                    tail.len() as usize,
                    rt.frames,
                    rt.effect,
                )
            },
    )
}

/// What a frame puts out: the cursor goes back up, and the lines are written over.
pub open spec fn frame_burst(tail: Seq<Seq<char>>, rt: Runtime, frame: int) -> BurstView {
    let fg = if frame == rt.frames {
        settled_color(rt)
    } else {
        frame_color(rt, cli_frames::part_of(frame, rt.frames as int))
    };
    BurstView {
        text: "\x1b["@ + text::decimal(tail.len()) + "A"@ + colored_lines(
            frame_lines(tail, rt, frame),
            fg,
            tail.len() as int,
        ),
        pause_ms: pause_of(
            rt.duration_ms as int,
            if rt.frames == usize::MAX {
                rt.frames as int
            } else {
                rt.frames + 1
            },
        ),
    }
}

/// What is put out before the first frame: the lines that have no room, a hidden cursor, and
/// the space for the frames.
pub open spec fn opening_burst(head: Seq<Seq<char>>, height: int, rt: Runtime) -> BurstView {
    BurstView {
        text: colored_lines(head, settled_color(rt), head.len() as int) + "\x1b[?25l"@ + feeds(
            height,
        ),
        pause_ms: 0,
    }
}

/// What is put out after the last frame: the cursor shows again.
pub open spec fn closing_burst() -> BurstView {
    BurstView { text: "\x1b[?25h"@, pause_ms: 0 }
}

fn push_colored(out: &mut String, lines: &Vec<String>, from: usize, to: usize, fg: Rgb)
    requires
        from <= to <= lines@.len(),
    ensures
        final(out)@ == old(out)@ + colored_lines(
            transform::texts(lines@).subrange(from as int, to as int),
            fg,
            to - from,
        ),
{
    let ghost part = transform::texts(lines@).subrange(from as int, to as int);
    let mut i: usize = from;
    assert(out@ + colored_lines(part, fg, 0) =~= out@);
    while i < to
        invariant
            from <= i <= to <= lines@.len(),
            part == transform::texts(lines@).subrange(from as int, to as int),
            out@ == old(out)@ + colored_lines(part, fg, i - from),
        decreases to - i,
    {
        write_cli_colored_line(out, lines[i].as_str(), fg);
        i = i + 1;
        assert(part[i - 1 - from] == lines@[i - 1]@);
        assert(out@ =~= old(out)@ + colored_lines(part, fg, i - from));
    }
}

/// An animation of output on a terminal: the lines, and the first one that is animated. The
/// lines before it have no room.
#[derive(Debug)]
pub struct CliAnimation {
    pub lines: Vec<String>,
    pub from: usize,
}

impl CliAnimation {
    /// The lines without room.
    pub open spec fn head(self) -> Seq<Seq<char>> {
        transform::texts(self.lines@).take(self.from as int)
    }

    /// The lines that are animated.
    pub open spec fn tail(self) -> Seq<Seq<char>> {
        transform::texts(self.lines@).skip(self.from as int)
    }

    /// Whether the first animated line is one of the lines.
    pub open spec fn well_formed(self) -> bool {
        self.from <= self.lines@.len()
    }

    /// What is put out before the first frame.
    pub fn opening(&self, rt: &Runtime) -> (r: Burst)
        requires
            self.well_formed(),
        ensures
            r@ == opening_burst(self.head(), self.tail().len() as int, *rt),
    {
        let height: usize = self.lines.len() - self.from;
        let fg: Rgb = match rt.cli_settled_color {
            Some(color) => color,
            None => rt.theme.default_fg_rgb(),
        };
        let mut out: String = String::new();
        push_colored(&mut out, &self.lines, 0, self.from, fg);
        assert(transform::texts(self.lines@).subrange(0, self.from as int) =~= self.head());
        out.append("\x1b[?25l");
        let ghost before = out@;
        let mut n: usize = 0;
        assert(before + feeds(0) =~= before);
        while n < height
            invariant
                n <= height,
                out@ == before + feeds(n as int),
            decreases height - n,
        {
            out.push('\n');
            n = n + 1;
            assert(out@ =~= before + feeds(n as int));
        }
        let r: Burst = Burst { text: out, pause_ms: 0 };
        assert(r@.text =~= opening_burst(self.head(), height as int, *rt).text);
        r
    }

    /// What frame `frame` puts out.
    pub fn frame(&self, rt: &Runtime, frame: usize) -> (r: Burst)
        requires
            self.well_formed(),
            frame <= rt.frames,
            colored_by_theme(*rt) && frame < rt.frames ==> rt.theme@.usable(),
        ensures
            r@ == frame_burst(self.tail(), *rt, frame as int),
    {
        let ghost tail = self.tail();
        let count: usize = self.lines.len();
        let height: usize = count - self.from;
        let last: bool = frame == rt.frames;
        let fg: Rgb = if last {
            match rt.cli_settled_color {
                Some(color) => color,
                None => rt.theme.default_fg_rgb(),
            }
        } else {
            cli_frame_fg(rt, ratio_of(frame, rt.frames))
        };
        let mut out: String = String::new();
        out.append("\x1b[");
        push_decimal(&mut out, height as u128);
        out.append("A");
        let ghost start = out@;
        let ghost shown = frame_lines(tail, *rt, frame as int);
        assert(start =~= "\x1b["@ + text::decimal(tail.len()) + "A"@);
        let mut row: usize = 0;
        assert(out@ + colored_lines(shown, fg, 0) =~= out@);
        while row < height
            invariant
                row <= height,
                count == self.lines@.len(),
                height == count - self.from,
                tail == transform::texts(self.lines@).skip(self.from as int),
                last == (frame == rt.frames),
                shown == frame_lines(tail, *rt, frame as int),
                out@ == start + colored_lines(shown, fg, row as int),
            decreases height - row,
        {
            let line: &str = self.lines[self.from + row].as_str();
            assert(tail[row as int] == line@);
            if last {
                assert(shown[row as int] == line@);
                write_cli_colored_line(&mut out, line, fg);
            } else {
                let rendered: String = render_cli_frame(
                    line,
                    frame,
                    row,
                    height,
                    rt.frames,
                    rt.effect,
                );
                assert(shown[row as int] == rendered@);
                write_cli_colored_line(&mut out, rendered.as_str(), fg);
            }
            row = row + 1;
            assert(out@ =~= start + colored_lines(shown, fg, row as int));
        }
        let frames: usize = if rt.frames == usize::MAX {
            rt.frames
        } else {
            rt.frames + 1
        };
        Burst { text: out, pause_ms: frame_pause_ms(rt.duration_ms, frames) }
    }

    /// What is put out after the last frame.
    pub fn closing() -> (r: Burst)
        ensures
            r@ == closing_burst(),
    {
        Burst { text: "\x1b[?25h".to_owned(), pause_ms: 0 }
    }
}

/// The animation of a text without its escape sequences, on a terminal of `rows` rows; none
/// where there is no room.
pub fn animate_cli_output(text: &str, rt: &Runtime, rows: u16) -> (r: Option<CliAnimation>)
    ensures
        r is Some <==> rows > 1,
        r is Some ==> ({
            let lines = lines_of(stripped(text@, 0));
            let height = animated_height(lines.len() as int, rows as int, rt.max_lines as int);
            &&& r->0.well_formed()
            &&& r->0.head() == lines.take(lines.len() - height)
            &&& r->0.tail() == lines.skip(lines.len() - height)
        }),
{
    let plain: String = strip_ansi_for_animation(text);
    let lines: Vec<String> = split_lines_preserve_tail(plain.as_str());
    if rows <= 1 {
        return None;
    }
    let height: usize = height_of(lines.len(), rows, rt.max_lines);
    let from: usize = lines.len() - height;
    Some(CliAnimation { lines, from })
}

/// The last frame of an animation shows the lines as they are, in the settled colour.
pub proof fn law_animation_settles(tail: Seq<Seq<char>>, rt: Runtime)
    ensures
        frame_burst(tail, rt, rt.frames as int).text == "\x1b["@ + text::decimal(tail.len()) + "A"@
            + colored_lines(tail, settled_color(rt), tail.len() as int),
{
    assert(frame_lines(tail, rt, rt.frames as int) =~= tail);
}

} // verus!
