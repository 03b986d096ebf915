//! The frames of the inline animation of command output.
use crate::model::EffectKind;
use crate::noise;
use crate::noise::{
    matrix_cell_state, matrix_noise_symbol, mixed_index, pseudo_random_01, MatrixState,
};
use crate::single;
use crate::single::{Number, Single};
use crate::text;
use crate::text::{chars_of, is_white};
use vstd::prelude::*;

verus! {

/// The larger of a number and one.
pub open spec fn at_least_one(n: int) -> int {
    if n < 1 {
        1
    } else {
        n
    }
}

fn or_one(n: usize) -> (r: usize)
    ensures
        r == at_least_one(n as int),
{
    if n < 1 {
        1
    } else {
        n
    }
}

/// A part of a whole; the whole is taken to be at least one.
pub open spec fn part_of(part: int, whole: int) -> Number {
    single::quotient(single::whole(part), single::whole(at_least_one(whole)))
}

/// A part of a whole; the whole is taken to be at least one.
pub fn ratio_of(part: usize, whole: usize) -> (r: Single)
    ensures
        r@ == part_of(part as int, whole as int),
{
    proof {
        single::lemma_whole_positive(at_least_one(whole as int));
    }
    Single::from_u64(part as u64).over(&Single::from_u64(or_one(whole) as u64))
}

/// How far down a row is: zero for the first, one for the last.
pub open spec fn row_weight(row: int, total_rows: int) -> Number {
    if total_rows <= 1 {
        Number::Finite(0)
    } else {
        single::quotient(single::whole(row), single::whole(total_rows - 1))
    }
}

/// How far down a row is: zero for the first, one for the last.
pub fn weight_of_row(row: usize, total_rows: usize) -> (r: Single)
    ensures
        r@ == row_weight(row as int, total_rows as int),
{
    if total_rows <= 1 {
        return Single::zero();
    }
    proof {
        single::lemma_whole_positive(total_rows - 1);
    }
    Single::from_u64(row as u64).over(&Single::from_u64((total_rows - 1) as u64))
}

/// A line with each character replaced by what `show` gives for its index.
pub open spec fn drawn(line: Seq<char>, show: spec_fn(int) -> char) -> Seq<char> {
    Seq::new(line.len(), show)
}

/// When a character shows in a wipe from the top left.
pub open spec fn wipe_threshold(line: Seq<char>, row: int, total_rows: int, col: int) -> Number {
    single::sum(
        single::product(row_weight(row, total_rows), single::fraction(55, 100)),
        single::product(part_of(col, line.len() as int), single::fraction(45, 100)),
    )
}

/// A frame of a wipe from the top left.
pub open spec fn wipe_frame(
    line: Seq<char>,
    frame: int,
    row: int,
    total_rows: int,
    total_frames: int,
) -> Seq<char> {
    drawn(
        line,
        |col: int|
            if single::at_most(
                wipe_threshold(line, row, total_rows, col),
                part_of(frame, total_frames),
            ) {
                line[col]
            } else {
                ' '
            },
    )
}

/// A frame of a wipe from the top left.
pub fn cli_wipe_frame(
    line: &str,
    frame: usize,
    row: usize,
    total_rows: usize,
    total_frames: usize,
) -> (r: String)
    ensures
        r@ == wipe_frame(
            line@,
            frame as int,
            row as int,
            total_rows as int,
            total_frames as int,
        ),
{
    let chars: Vec<char> = chars_of(line);
    let progress: Single = ratio_of(frame, total_frames);
    let down: Single = weight_of_row(row, total_rows).times(&Single::from_ratio(55, 100));
    let share: Single = Single::from_ratio(45, 100);
    let ghost goal = wipe_frame(
        line@,
        frame as int,
        row as int,
        total_rows as int,
        total_frames as int,
    );
    let mut r: String = String::new();
    let mut col: usize = 0;
    while col < chars.len()
        invariant
            col <= chars@.len(),
            chars@ == line@,
            goal == wipe_frame(
                line@,
                frame as int,
                row as int,
                total_rows as int,
                total_frames as int,
            ),
            progress@ == part_of(frame as int, total_frames as int),
            share@ == single::fraction(45, 100),
            down@ == single::product(
                row_weight(row as int, total_rows as int),
                single::fraction(55, 100),
            ),
            r@ == goal.take(col as int),
        decreases chars@.len() - col,
    {
        let threshold: Single = down.plus(&ratio_of(col, chars.len()).times(&share));
        if threshold.is_at_most(&progress) {
            r.push(chars[col]);
        } else {
            r.push(' ');
        }
        col = col + 1;
        assert(r@ =~= goal.take(col as int));
    }
    assert(goal.take(col as int) =~= goal);
    r
}

/// How many characters a sweep shows.
pub open spec fn swept(len: int, progress: Number) -> int {
    single::ceiling(single::product(progress, single::whole(len)), usize::MAX as int)
}

/// A frame of a sweep from left to right.
pub open spec fn sweep_frame(line: Seq<char>, frame: int, total_frames: int) -> Seq<char> {
    drawn(
        line,
        |col: int|
            if col < swept(line.len() as int, part_of(frame, total_frames)) {
                line[col]
            } else {
                ' '
            },
    )
}

/// A frame of a sweep from left to right.
pub fn cli_sweep_frame(line: &str, frame: usize, total_frames: usize) -> (r: String)
    ensures
        r@ == sweep_frame(line@, frame as int, total_frames as int),
{
    let chars: Vec<char> = chars_of(line);
    let visible: usize = ratio_of(frame, total_frames).times(
        &Single::from_u64(chars.len() as u64),
    ).ceil_to(usize::MAX as u64) as usize;
    let ghost goal = sweep_frame(line@, frame as int, total_frames as int);
    let mut r: String = String::new();
    let mut col: usize = 0;
    while col < chars.len()
        invariant
            col <= chars@.len(),
            chars@ == line@,
            goal == sweep_frame(line@, frame as int, total_frames as int),
            visible == swept(
                line@.len() as int,
                part_of(frame as int, total_frames as int),
            ),
            r@ == goal.take(col as int),
        decreases chars@.len() - col,
    {
        if col < visible {
            r.push(chars[col]);
        } else {
            r.push(' ');
        }
        col = col + 1;
        assert(r@ =~= goal.take(col as int));
    }
    assert(goal.take(col as int) =~= goal);
    r
}

/// A frame of a fade: nothing but white space for the first three fifths.
pub open spec fn fade_frame(line: Seq<char>, frame: int, total_frames: int) -> Seq<char> {
    if frame * 10 >= at_least_one(total_frames) * 6 {
        line
    } else {
        drawn(
            line,
            |col: int|
                if text::white(line[col]) {
                    line[col]
                } else {
                    ' '
                },
        )
    }
}

/// A frame of a fade.
pub fn cli_fade_frame(line: &str, frame: usize, total_frames: usize) -> (r: String)
    ensures
        r@ == fade_frame(line@, frame as int, total_frames as int),
{
    if frame as u128 * 10 >= or_one(total_frames) as u128 * 6 {
        return line.to_owned();
    }
    let chars: Vec<char> = chars_of(line);
    let ghost goal = fade_frame(line@, frame as int, total_frames as int);
    let mut r: String = String::new();
    let mut col: usize = 0;
    while col < chars.len()
        invariant
            col <= chars@.len(),
            chars@ == line@,
            !(frame * 10 >= at_least_one(total_frames as int) * 6),
            goal == fade_frame(line@, frame as int, total_frames as int),
            r@ == goal.take(col as int),
        decreases chars@.len() - col,
    {
        let ch: char = chars[col];
        if is_white(ch) {
            r.push(ch);
        } else {
            r.push(' ');
        }
        col = col + 1;
        assert(r@ =~= goal.take(col as int));
    }
    assert(goal.take(col as int) =~= goal);
    r
}

/// The symbols that text is scrambled with.
pub open spec fn scramble_symbols() -> Seq<char> {
    seq![
        '░',
        '▒',
        '▓',
        '█',
        '◆',
        '◇',
        '○',
        '●',
        '◌',
        '◍',
        '·',
        '*',
        '+',
        '#',
        '%',
        '@',
        '/',
        '\\',
        '|',
        '-',
    ]
}

/// The symbol that scrambles a cell of a frame.
pub open spec fn scramble_symbol(row: usize, col: usize, frame: usize) -> char {
    scramble_symbols()[(row * 31 + col * 17 + frame * 7) % 20]
}

/// The symbol that scrambles a cell of a frame.
pub fn scramble(row: usize, col: usize, frame: usize) -> (r: char)
    ensures
        r == scramble_symbol(row, col, frame),
{
    let symbols: [char; 20] = [
        '░',
        '▒',
        '▓',
        '█',
        '◆',
        '◇',
        '○',
        '●',
        '◌',
        '◍',
        '·',
        '*',
        '+',
        '#',
        '%',
        '@',
        '/',
        '\\',
        '|',
        '-',
    ];
    assert(symbols@ =~= scramble_symbols());
    symbols[mixed_index(row, 31, col, 17, frame, 7, 20)]
}

/// Progress that is fast at first: one minus the cube of what is left.
pub open spec fn eased(progress: Number) -> Number {
    let left = single::difference(Number::Finite(single::unit()), progress);
    single::difference(
        Number::Finite(single::unit()),
        single::product(left, single::product(left, left)),
    )
}

fn ease(progress: Single) -> (r: Single)
    ensures
        r@ == eased(progress@),
{
    let left: Single = Single::one().minus(&progress);
    Single::one().minus(&left.times(&left.times(&left)))
}

/// When a character settles out of the scramble.
pub open spec fn coalesce_threshold(line: Seq<char>, row: usize, col: usize) -> Number {
    single::sum(
        single::product(part_of(col as int, line.len() as int), single::fraction(45, 100)),
        single::product(noise::noise(row as u64, col as u64), single::fraction(35, 100)),
    )
}

/// A frame in which characters settle out of a scramble.
pub open spec fn coalesce_frame(line: Seq<char>, frame: usize, row: usize, total_frames: int) -> Seq<
    char,
> {
    drawn(
        line,
        |col: int|
            if text::white(line[col]) || single::at_most(
                coalesce_threshold(line, row, col as usize),
                eased(part_of(frame as int, total_frames)),
            ) {
                line[col]
            } else {
                scramble_symbol(row, col as usize, frame)
            },
    )
}

/// A frame in which characters settle out of a scramble.
pub fn cli_coalesce_frame(line: &str, frame: usize, row: usize, total_frames: usize) -> (r: String)
    ensures
        r@ == coalesce_frame(line@, frame, row, total_frames as int),
{
    let chars: Vec<char> = chars_of(line);
    let level: Single = ease(ratio_of(frame, total_frames));
    let share: Single = Single::from_ratio(45, 100);
    let spread: Single = Single::from_ratio(35, 100);
    let ghost goal = coalesce_frame(line@, frame, row, total_frames as int);
    let mut r: String = String::new();
    let mut col: usize = 0;
    while col < chars.len()
        invariant
            col <= chars@.len(),
            chars@ == line@,
            goal == coalesce_frame(line@, frame, row, total_frames as int),
            level@ == eased(part_of(frame as int, total_frames as int)),
            share@ == single::fraction(45, 100),
            spread@ == single::fraction(35, 100),
            r@ == goal.take(col as int),
        decreases chars@.len() - col,
    {
        let ch: char = chars[col];
        if is_white(ch) {
            r.push(ch);
        } else {
            let jitter: Single = pseudo_random_01(row as u64, col as u64).times(&spread);
            let threshold: Single = ratio_of(col, chars.len()).times(&share).plus(&jitter);
            if threshold.is_at_most(&level) {
                r.push(ch);
            } else {
                r.push(scramble(row, col, frame));
            }
        }
        col = col + 1;
        assert(r@ =~= goal.take(col as int));
    }
    assert(goal.take(col as int) =~= goal);
    r
}

/// How much noise a glitch shows.
pub open spec fn glitch_level(progress: Number) -> Number {
    single::product(
        single::clamped(single::difference(Number::Finite(single::unit()), progress)),
        single::fraction(75, 100),
    )
}

/// How much noise a glitch shows.
pub fn level_of_glitch(progress: Single) -> (r: Single)
    ensures
        r@ == glitch_level(progress@),
{
    Single::one().minus(&progress).clamp_to_one().times(&Single::from_ratio(75, 100))
}

/// A frame with random noise that becomes less.
pub open spec fn glitch_frame(line: Seq<char>, frame: usize, row: usize, total_frames: int) -> Seq<
    char,
> {
    drawn(
        line,
        |col: int|
            if !text::white(line[col]) && single::less(
                noise::noise((row as u64).wrapping_add(frame as u64), col as u64),
                glitch_level(part_of(frame as int, total_frames)),
            ) {
                noise::matrix_symbol(row, col as usize, frame)
            } else {
                line[col]
            },
    )
}

/// A frame with random noise that becomes less.
pub fn cli_glitch_frame(line: &str, frame: usize, row: usize, total_frames: usize) -> (r: String)
    ensures
        r@ == glitch_frame(line@, frame, row, total_frames as int),
{
    let chars: Vec<char> = chars_of(line);
    let level: Single = level_of_glitch(ratio_of(frame, total_frames));
    let seed: u64 = (row as u64).wrapping_add(frame as u64);
    let ghost goal = glitch_frame(line@, frame, row, total_frames as int);
    let mut r: String = String::new();
    let mut col: usize = 0;
    while col < chars.len()
        invariant
            col <= chars@.len(),
            chars@ == line@,
            goal == glitch_frame(line@, frame, row, total_frames as int),
            level@ == glitch_level(part_of(frame as int, total_frames as int)),
            seed == (row as u64).wrapping_add(frame as u64),
            r@ == goal.take(col as int),
        decreases chars@.len() - col,
    {
        let ch: char = chars[col];
        if !is_white(ch) && pseudo_random_01(seed, col as u64).is_less(&level) {
            r.push(matrix_noise_symbol(row, col, frame));
        } else {
            r.push(ch);
        }
        col = col + 1;
        assert(r@ =~= goal.take(col as int));
    }
    assert(goal.take(col as int) =~= goal);
    r
}

/// A frame with noise that falls down the columns.
pub open spec fn matrix_frame(
    line: Seq<char>,
    frame: usize,
    row: usize,
    total_rows: usize,
    total_frames: int,
) -> Seq<char> {
    drawn(
        line,
        |col: int|
            if text::white(line[col]) || noise::matrix_state(
                row,
                col as usize,
                at_least_one(total_rows as int) as usize,
                part_of(frame as int, total_frames),
            ) == MatrixState::Settled {
                line[col]
            } else {
                noise::matrix_symbol(row, col as usize, frame)
            },
    )
}

/// A frame with noise that falls down the columns.
pub fn cli_matrix_frame(
    line: &str,
    frame: usize,
    row: usize,
    total_rows: usize,
    total_frames: usize,
) -> (r: String)
    ensures
        r@ == matrix_frame(line@, frame, row, total_rows, total_frames as int),
{
    let chars: Vec<char> = chars_of(line);
    let progress: Single = ratio_of(frame, total_frames);
    let rows: usize = or_one(total_rows);
    let ghost goal = matrix_frame(line@, frame, row, total_rows, total_frames as int);
    let mut r: String = String::new();
    let mut col: usize = 0;
    while col < chars.len()
        invariant
            col <= chars@.len(),
            chars@ == line@,
            goal == matrix_frame(line@, frame, row, total_rows, total_frames as int),
            progress@ == part_of(frame as int, total_frames as int),
            rows == at_least_one(total_rows as int),
            r@ == goal.take(col as int),
        decreases chars@.len() - col,
    {
        let ch: char = chars[col];
        if is_white(ch) || matrix_cell_state(row, col, rows, progress) == MatrixState::Settled {
            r.push(ch);
        } else {
            r.push(matrix_noise_symbol(row, col, frame));
        }
        col = col + 1;
        assert(r@ =~= goal.take(col as int));
    }
    assert(goal.take(col as int) =~= goal);
    r
}

/// How far the band of a scan is below a row.
pub open spec fn scan_distance(row: int, total_rows: int, progress: Number) -> Number {
    single::difference(
        single::product(
            progress,
            single::sum(single::whole(at_least_one(total_rows)), single::fraction(15, 10)),
        ),
        single::whole(row),
    )
}

/// How far the band of a scan is below a row.
pub fn distance_of_scan(row: usize, total_rows: usize, progress: Single) -> (r: Single)
    ensures
        r@ == scan_distance(row as int, total_rows as int, progress@),
{
    let height: Single = Single::from_u64(or_one(total_rows) as u64).plus(
        &Single::from_ratio(15, 10),
    );
    progress.times(&height).minus(&Single::from_u64(row as u64))
}

/// Whether a scan has passed a row.
pub open spec fn scan_passed(distance: Number) -> bool {
    single::less(single::fraction(15, 10), distance)
}

/// Whether a scan has yet to come to a row.
pub open spec fn scan_ahead(distance: Number) -> bool {
    single::less(distance, single::negated(single::fraction(5, 10)))
}

/// A frame with a band of noise that moves down.
pub open spec fn scanline_frame(
    line: Seq<char>,
    frame: usize,
    row: usize,
    total_rows: int,
    total_frames: int,
) -> Seq<char> {
    let distance = scan_distance(row as int, total_rows, part_of(frame as int, total_frames));
    if scan_passed(distance) {
        line
    } else if scan_ahead(distance) {
        drawn(line, |col: int| ' ')
    } else {
        drawn(
            line,
            |col: int|
                if text::white(line[col]) {
                    line[col]
                } else {
                    noise::matrix_symbol(row, col as usize, frame)
                },
        )
    }
}

/// A frame with a band of noise that moves down.
pub fn cli_scanline_frame(
    line: &str,
    frame: usize,
    row: usize,
    total_rows: usize,
    total_frames: usize,
) -> (r: String)
    ensures
        r@ == scanline_frame(line@, frame, row, total_rows as int, total_frames as int),
{
    let distance: Single = distance_of_scan(row, total_rows, ratio_of(frame, total_frames));
    if Single::from_ratio(15, 10).is_less(&distance) {
        return line.to_owned();
    }
    let ahead: bool = distance.is_less(&Single::from_ratio(5, 10).negate());
    let chars: Vec<char> = chars_of(line);
    let ghost goal = scanline_frame(line@, frame, row, total_rows as int, total_frames as int);
    let mut r: String = String::new();
    let mut col: usize = 0;
    while col < chars.len()
        invariant
            col <= chars@.len(),
            chars@ == line@,
            goal == scanline_frame(line@, frame, row, total_rows as int, total_frames as int),
            distance@ == scan_distance(
                row as int,
                total_rows as int,
                part_of(frame as int, total_frames as int),
            ),
            !scan_passed(distance@),
            ahead == scan_ahead(distance@),
            r@ == goal.take(col as int),
        decreases chars@.len() - col,
    {
        let ch: char = chars[col];
        if ahead {
            r.push(' ');
        } else if is_white(ch) {
            r.push(ch);
        } else {
            r.push(matrix_noise_symbol(row, col, frame));
        }
        col = col + 1;
        assert(r@ =~= goal.take(col as int));
    }
    assert(goal.take(col as int) =~= goal);
    r
}

/// A frame of an animation of a line. Lines are not scattered: that effect shows them as they
/// are.
#[verifier::opaque]
pub open spec fn cli_frame(
    line: Seq<char>,
    frame: usize,
    row: usize,
    total_rows: usize,
    total_frames: usize,
    effect: EffectKind,
) -> Seq<char> {
    match effect {
        EffectKind::Plain => line,
        EffectKind::Scatter => line,
        EffectKind::Wipe => wipe_frame(
            line,
            frame as int,
            row as int,
            total_rows as int,
            total_frames as int,
        ),
        EffectKind::Sweep => sweep_frame(line, frame as int, total_frames as int),
        EffectKind::Fade => fade_frame(line, frame as int, total_frames as int),
        EffectKind::Coalesce => coalesce_frame(line, frame, row, total_frames as int),
        EffectKind::Glitch => glitch_frame(line, frame, row, total_frames as int),
        EffectKind::Matrix => matrix_frame(line, frame, row, total_rows, total_frames as int),
        EffectKind::Scanline => scanline_frame(
            line,
            frame,
            row,
            total_rows as int,
            total_frames as int,
        ),
    }
}

/// A frame of an animation of a line.
pub fn render_cli_frame(
    line: &str,
    frame: usize,
    row: usize,
    total_rows: usize,
    total_frames: usize,
    effect: EffectKind,
) -> (r: String)
    ensures
        r@ == cli_frame(line@, frame, row, total_rows, total_frames, effect),
{
    proof {
        reveal(cli_frame);
    }
    match effect {
        EffectKind::Plain => line.to_owned(),
        EffectKind::Scatter => line.to_owned(),
        EffectKind::Wipe => cli_wipe_frame(line, frame, row, total_rows, total_frames),
        EffectKind::Sweep => cli_sweep_frame(line, frame, total_frames),
        EffectKind::Fade => cli_fade_frame(line, frame, total_frames),
        EffectKind::Coalesce => cli_coalesce_frame(line, frame, row, total_frames),
        EffectKind::Glitch => cli_glitch_frame(line, frame, row, total_frames),
        EffectKind::Matrix => cli_matrix_frame(line, frame, row, total_rows, total_frames),
        EffectKind::Scanline => cli_scanline_frame(line, frame, row, total_rows, total_frames),
    }
}

/// A frame is as wide as the line.
pub proof fn law_frames_keep_width(
    line: Seq<char>,
    frame: usize,
    row: usize,
    total_rows: usize,
    total_frames: usize,
    effect: EffectKind,
)
    ensures
        cli_frame(line, frame, row, total_rows, total_frames, effect).len() == line.len(),
{
    reveal(cli_frame);
}

/// White space of a line is white space in every frame.
pub proof fn law_frames_keep_white_space(
    line: Seq<char>,
    frame: usize,
    row: usize,
    total_rows: usize,
    total_frames: usize,
    effect: EffectKind,
    col: int,
)
    requires
        0 <= col < line.len(),
        text::white(line[col]),
    ensures
        text::white(cli_frame(line, frame, row, total_rows, total_frames, effect)[col]),
{
    reveal(cli_frame);
}

/// Blanks of a line are blanks in every frame.
pub proof fn law_frames_keep_blanks(
    line: Seq<char>,
    frame: usize,
    row: usize,
    total_rows: usize,
    total_frames: usize,
    effect: EffectKind,
    col: int,
)
    requires
        0 <= col < line.len(),
        line[col] == ' ',
    ensures
        cli_frame(line, frame, row, total_rows, total_frames, effect)[col] == ' ',
{
    reveal(cli_frame);
}

} // verus!
