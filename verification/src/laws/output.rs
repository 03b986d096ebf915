//! The inline animation of output: its lines, its colours and its bursts.
use crate::cli_backend;
use crate::cli_backend::CliAnimation;
use crate::cli_frames;
use crate::model::{Rgb, Runtime};
use crate::sgr;
use crate::single;
use crate::single::Number;
use crate::text;
use crate::theme;
use vstd::prelude::*;

verus! {

/// A line feed ends a line, and starts one that is empty. A carriage return before it belongs to
/// the end of the line. Any other character is added to the last line.
pub proof fn law_ends_of_lines(text: Seq<char>, ch: char)
    ensures
        ({
            let lines = cli_backend::lines_of(text);
            let none = Seq::<char>::empty();
            &&& cli_backend::lines_of(none) == seq![none]
            &&& cli_backend::lines_of(text.push('\r').push('\n')) == lines.push(none)
            &&& text.len() == 0 || text.last() != '\r' ==> cli_backend::lines_of(text.push('\n'))
                == lines.push(none)
            &&& ch != '\n' ==> cli_backend::lines_of(text.push(ch)) == lines.drop_last().push(
                lines.last().push(ch),
            )
        }),
{
    cli_backend::law_lines_hold_no_line_feed(text);
    let lines = cli_backend::lines_of(text);
    let none = Seq::<char>::empty();
    assert(text.push(ch).drop_last() =~= text);
    assert(text.push('\r').drop_last() =~= text);
    assert(text.push('\n').drop_last() =~= text);
    assert(text.push('\r').push('\n').drop_last() =~= text.push('\r'));
    let more = lines.drop_last().push(lines.last().push('\r'));
    assert(cli_backend::lines_of(text.push('\r')) == more);
    assert(more.drop_last() =~= lines.drop_last());
    assert(lines.last().push('\r').drop_last() =~= lines.last());
    assert(lines.drop_last().push(lines.last()) =~= lines);
    lemma_last_line(text);
}

proof fn lemma_last_line(text: Seq<char>)
    ensures
        cli_backend::lines_of(text).len() >= 1,
        cli_backend::lines_of(text).last().len() > 0 ==> text.len() > 0
            && cli_backend::lines_of(text).last().last() == text.last(),
    decreases text.len(),
{
    if text.len() > 0 {
        lemma_last_line(text.drop_last());
    }
}

proof fn lemma_after_control(t: Seq<char>, j: int, end: int)
    requires
        0 <= j <= end < t.len(),
        '@' <= t[end] <= '~',
        forall|k: int| j <= k < end ==> !('@' <= #[trigger] t[k] <= '~'),
    ensures
        cli_backend::after_control(t, j) == end + 1,
    decreases end - j,
{
    if j < end {
        lemma_after_control(t, j + 1, end);
    }
}

/// A control sequence is removed with its parameters, up to and with the first character from at
/// sign to tilde.
pub proof fn law_control_sequences_are_removed(t: Seq<char>, i: int, end: int)
    requires
        0 <= i,
        i + 2 <= end < t.len(),
        t[i] == '\u{1b}',
        t[i + 1] == '[',
        '@' <= t[end] <= '~',
        forall|k: int| i + 2 <= k < end ==> !('@' <= #[trigger] t[k] <= '~'),
    ensures
        cli_backend::stripped(t, i) == cli_backend::stripped(t, end + 1),
{
    lemma_after_control(t, i + 2, end);
}

proof fn lemma_after_command(t: Seq<char>, start: int, j: int, end: int)
    requires
        0 <= start <= j <= end < t.len(),
        cli_backend::ends_command(t, start, end),
        forall|k: int| j <= k < end ==> !#[trigger] cli_backend::ends_command(t, start, k),
    ensures
        cli_backend::after_command(t, start, j) == end + 1,
    decreases end - j,
{
    if j < end {
        assert(!cli_backend::ends_command(t, start, j));
        lemma_after_command(t, start, j + 1, end);
    }
}

/// An operating system command is removed up to and with the first bell.
pub proof fn law_commands_are_removed_to_a_bell(t: Seq<char>, i: int, end: int)
    requires
        0 <= i,
        i + 2 <= end < t.len(),
        t[i] == '\u{1b}',
        t[i + 1] == ']',
        t[end] == '\u{7}',
        forall|k: int| i + 2 <= k < end ==> #[trigger] t[k] != '\u{7}' && t[k] != '\u{1b}',
    ensures
        cli_backend::stripped(t, i) == cli_backend::stripped(t, end + 1),
{
    assert forall|k: int| i + 2 <= k < end implies !#[trigger] cli_backend::ends_command(
        t,
        i + 2,
        k,
    ) by {
        assert(t[k] != '\u{7}');
        if k > i + 2 {
            assert(t[k - 1] != '\u{1b}');
        }
    }
    lemma_after_command(t, i + 2, i + 2, end);
}

/// An operating system command is removed up to and with the first escape and backslash.
pub proof fn law_commands_are_removed_to_a_terminator(t: Seq<char>, i: int, end: int)
    requires
        0 <= i,
        i + 3 <= end < t.len(),
        t[i] == '\u{1b}',
        t[i + 1] == ']',
        t[end - 1] == '\u{1b}',
        t[end] == '\\',
        forall|k: int| i + 2 <= k < end - 1 ==> #[trigger] t[k] != '\u{7}' && t[k] != '\u{1b}',
    ensures
        cli_backend::stripped(t, i) == cli_backend::stripped(t, end + 1),
{
    assert forall|k: int| i + 2 <= k < end implies !#[trigger] cli_backend::ends_command(
        t,
        i + 2,
        k,
    ) by {
        if k < end - 1 {
            assert(t[k] != '\u{7}');
        }
        if k > i + 2 {
            assert(t[k - 1] != '\u{1b}');
        }
    }
    lemma_after_command(t, i + 2, i + 2, end);
}

/// Any other escape is removed alone, and any other character stays.
pub proof fn law_other_characters(t: Seq<char>, i: int)
    requires
        0 <= i < t.len(),
    ensures
        t[i] != '\u{1b}' ==> cli_backend::stripped(t, i) == seq![t[i]] + cli_backend::stripped(
            t,
            i + 1,
        ),
        t[i] == '\u{1b}' && (i + 1 == t.len() || (t[i + 1] != '[' && t[i + 1] != ']'))
            ==> cli_backend::stripped(t, i) == cli_backend::stripped(t, i + 1),
        cli_backend::stripped(t, t.len() as int).len() == 0,
{
}

/// A line in a colour is the sequence for the colour, the line, and a reset with the end of the
/// line.
pub proof fn law_colored_lines(lines: Seq<Seq<char>>, line: Seq<char>, fg: Rgb)
    ensures
        cli_backend::colored_line(line, fg) == sgr::color_code(true, fg) + line + seq![
            '\x1b',
            '[',
            '0',
            'm',
            '\r',
            '\n',
        ],
        cli_backend::colored_lines(Seq::empty(), fg, 0).len() == 0,
        cli_backend::colored_lines(lines.push(line), fg, lines.len() as int + 1)
            == cli_backend::colored_lines(lines, fg, lines.len() as int)
            + cli_backend::colored_line(line, fg),
{
    reveal_strlit("\x1b[0m\r\n");
    assert("\x1b[0m\r\n"@ =~= seq!['\x1b', '[', '0', 'm', '\r', '\n']);
    lemma_lines_before(lines, lines.push(line), fg, lines.len() as int);
}

proof fn lemma_lines_before(a: Seq<Seq<char>>, b: Seq<Seq<char>>, fg: Rgb, n: int)
    requires
        0 <= n <= a.len(),
        n <= b.len(),
        forall|i: int| 0 <= i < n ==> a[i] == b[i],
    ensures
        cli_backend::colored_lines(a, fg, n) == cli_backend::colored_lines(b, fg, n),
    decreases n,
{
    if n > 0 {
        lemma_lines_before(a, b, fg, n - 1);
    }
}

/// A frame is coloured between the ends of the gradient where both are set, else in the colour of
/// animations, else along the gradient of the theme, else in the colour of the theme for text.
pub proof fn law_colors_of_frames(rt: Runtime, progress: Number)
    ensures
        ({
            let k = single::clamped(progress);
            let both = rt.cli_gradient_start is Some && rt.cli_gradient_end is Some;
            let along = theme::gradient_color(rt.theme@.foreground, k);
            let r = cli_backend::frame_color(rt, progress);
            &&& both ==> r == theme::mixed(rt.cli_gradient_start->0, rt.cli_gradient_end->0, k)
            &&& !both && rt.cli_animation_color is Some ==> r == rt.cli_animation_color->0
            &&& !both && rt.cli_animation_color is None && along is Some ==> r == along->0
            &&& !both && rt.cli_animation_color is None && along is None ==> r == rt.theme@.fg()
            &&& cli_backend::colored_by_theme(rt) <==> !both && rt.cli_animation_color is None
        }),
{
}

/// Lines that have settled have the colour that is set for them, or that of the theme for text.
pub proof fn law_colors_of_settled_lines(rt: Runtime)
    ensures
        rt.cli_settled_color is Some ==> cli_backend::settled_color(rt)
            == rt.cli_settled_color->0,
        rt.cli_settled_color is None ==> cli_backend::settled_color(rt) == rt.theme@.fg(),
{
}

/// As many lines are animated as there are, as the limit allows and as have room above the last
/// row, and no fewer. There is taken to be at least one line, and the limit to allow one.
pub proof fn law_animated_lines(lines: int, rows: int, max_lines: int)
    requires
        rows >= 0,
    ensures
        ({
            let n = cli_backend::animated_height(lines, rows, max_lines);
            let most = if max_lines >= 1 {
                max_lines
            } else {
                1
            };
            let all = if lines >= 1 {
                lines
            } else {
                1
            };
            &&& n <= all && n <= most
            &&& rows >= 1 ==> n <= rows - 1
            &&& rows == 0 ==> n == 0
            &&& n == all || n == most || n == rows - 1 || rows == 0
        }),
{
}

/// Frames take no longer together than the time for them, where that leaves at least a millisecond
/// for each. A frame takes at least a millisecond, and one more for each would take longer.
pub proof fn law_pauses_of_frames(duration_ms: int, frames: int)
    requires
        duration_ms >= 0,
        frames >= 1,
    ensures
        ({
            let pause = cli_backend::pause_of(duration_ms, frames);
            &&& pause >= 1
            &&& duration_ms >= frames ==> pause * frames <= duration_ms
            &&& duration_ms < (pause + 1) * frames
        }),
        cli_backend::pause_of(duration_ms, 0) == cli_backend::pause_of(duration_ms, 1),
{
    vstd::arithmetic::div_mod::lemma_fundamental_div_mod(duration_ms, frames);
    vstd::arithmetic::div_mod::lemma_mod_bound(duration_ms, frames);
    let q = duration_ms / frames;
    assert(frames * q == q * frames) by (nonlinear_arith);
    assert((q + 1) * frames == q * frames + frames) by (nonlinear_arith);
    if q < 1 {
        assert(q * frames <= 0) by (nonlinear_arith)
            requires
                q < 1,
                frames >= 1,
        ;
        assert((1 + 1) * frames == frames + frames) by (nonlinear_arith);
    }
    let pause = cli_backend::pause_of(duration_ms, frames);
    assert(pause == q || pause == 1);
    assert((pause + 1) * frames == pause * frames + frames) by (nonlinear_arith);
    assert(1 * frames == frames);
}

/// A frame shows each of the lines at its place, animated by the effect. The last frame shows them
/// as they are.
pub proof fn law_lines_of_frames(tail: Seq<Seq<char>>, rt: Runtime, frame: usize, row: usize)
    requires
        row < tail.len() <= usize::MAX,
        frame <= rt.frames,
    ensures
        ({
            let shown = cli_backend::frame_lines(tail, rt, frame as int);
            &&& shown.len() == tail.len()
            &&& frame == rt.frames ==> shown[row as int] == tail[row as int]
            &&& frame < rt.frames ==> shown[row as int] == cli_frames::cli_frame(
                tail[row as int],
                frame,
                row,
                tail.len() as usize,
                rt.frames,
                rt.effect,
            )
        }),
{
}

/// What a frame puts out moves the cursor up to the first line and writes all lines, in the colour
/// of the frame, or in the settled colour at the end. Then a share of the time passes: there is
/// one frame more than is counted.
pub proof fn law_bursts_of_frames(tail: Seq<Seq<char>>, rt: Runtime, frame: usize)
    requires
        frame <= rt.frames < usize::MAX,
    ensures
        ({
            let burst = cli_backend::frame_burst(tail, rt, frame as int);
            let shown = cli_backend::frame_lines(tail, rt, frame as int);
            let now = single::quotient(
                single::whole(frame as int),
                single::whole(
                    if rt.frames >= 1 {
                        rt.frames as int
                    } else {
                        1
                    },
                ),
            );
            let up = seq!['\x1b', '['] + text::decimal(tail.len()) + seq!['A'];
            &&& frame < rt.frames ==> burst.text == up + cli_backend::colored_lines(
                shown,
                cli_backend::frame_color(rt, now),
                tail.len() as int,
            )
            &&& frame == rt.frames ==> burst.text == up + cli_backend::colored_lines(
                shown,
                cli_backend::settled_color(rt),
                tail.len() as int,
            )
            &&& burst.pause_ms == cli_backend::pause_of(rt.duration_ms as int, rt.frames + 1)
        }),
{
    reveal_strlit("\x1b[");
    reveal_strlit("A");
    assert("\x1b["@ =~= seq!['\x1b', '[']);
    assert("A"@ =~= seq!['A']);
}

/// Before the first frame the lines without room are written, the cursor is hidden, and a line
/// feed makes room for each line. After the last one the cursor shows. Neither takes time.
pub proof fn law_first_and_last_bursts(head: Seq<Seq<char>>, height: nat, rt: Runtime)
    ensures
        ({
            let opening = cli_backend::opening_burst(head, height as int, rt);
            let closing = cli_backend::closing_burst();
            &&& opening.text == cli_backend::colored_lines(
                head,
                cli_backend::settled_color(rt),
                head.len() as int,
            ) + seq!['\x1b', '[', '?', '2', '5', 'l'] + Seq::new(height, |i: int| '\n')
            &&& opening.pause_ms == 0
            &&& closing.text == seq!['\x1b', '[', '?', '2', '5', 'h']
            &&& closing.pause_ms == 0
        }),
{
    reveal_strlit("\x1b[?25l");
    reveal_strlit("\x1b[?25h");
    assert("\x1b[?25l"@ =~= seq!['\x1b', '[', '?', '2', '5', 'l']);
    assert("\x1b[?25h"@ =~= seq!['\x1b', '[', '?', '2', '5', 'h']);
    assert(cli_backend::feeds(height as int) =~= Seq::new(height, |i: int| '\n'));
}

/// The lines of an animation are those without room and those that are animated, in this order.
pub proof fn law_lines_of_an_animation(animation: CliAnimation, i: int)
    requires
        animation.well_formed(),
        0 <= i < animation.lines@.len(),
    ensures
        animation.head().len() == animation.from,
        animation.head().len() + animation.tail().len() == animation.lines@.len(),
        i < animation.from ==> animation.head()[i] == animation.lines@[i]@,
        i >= animation.from ==> animation.tail()[i - animation.from] == animation.lines@[i]@,
{
}

} // verus!
