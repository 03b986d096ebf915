//! What animations show of a line, of a cell and of a colour, and when.
use crate::cli_frames;
use crate::effects;
use crate::model::{EffectKind, Rgb};
use crate::noise;
use crate::noise::MatrixState;
use crate::screen::DisplayColor;
use crate::single;
use crate::single::Number;
use crate::text;
use crate::theme;
use vstd::prelude::*;

verus! {

/// A number that is read as a decimal fraction, in hundredths.
pub open spec fn percent(n: int) -> Number {
    single::fraction(n, 100)
}

/// A part of a whole of at least one.
pub open spec fn share(part: int, total: int) -> Number {
    single::quotient(
        single::whole(part),
        single::whole(
            if total >= 1 {
                total
            } else {
                1
            },
        ),
    )
}

/// The rows of a screen, of which there is at least one.
pub open spec fn some_rows(total_rows: usize) -> usize {
    if total_rows == 0 {
        1
    } else {
        total_rows
    }
}

/// Plain lines and scattered lines are shown as they are in every frame.
pub proof fn law_plain_frames(
    line: Seq<char>,
    frame: usize,
    row: usize,
    total_rows: usize,
    total_frames: usize,
)
    ensures
        cli_frames::cli_frame(line, frame, row, total_rows, total_frames, EffectKind::Plain)
            == line,
        cli_frames::cli_frame(line, frame, row, total_rows, total_frames, EffectKind::Scatter)
            == line,
{
    reveal(cli_frames::cli_frame);
}

/// A wipe shows a character from the time on that is 55 hundredths of how far down its row is and
/// 45 hundredths of how far to the right it stands, and a blank before.
pub proof fn law_wiped_frames(
    line: Seq<char>,
    frame: usize,
    row: usize,
    total_rows: usize,
    total_frames: usize,
    col: int,
)
    requires
        0 <= col < line.len(),
    ensures
        ({
            let shown = cli_frames::cli_frame(
                line,
                frame,
                row,
                total_rows,
                total_frames,
                EffectKind::Wipe,
            );
            let down = if total_rows >= 2 {
                single::quotient(single::whole(row as int), single::whole(total_rows - 1))
            } else {
                Number::Finite(0)
            };
            let due = single::sum(
                single::product(down, percent(55)),
                single::product(share(col, line.len() as int), percent(45)),
            );
            let now = share(frame as int, total_frames as int);
            &&& single::at_most(due, now) ==> shown[col] == line[col]
            &&& !single::at_most(due, now) ==> shown[col] == ' '
        }),
{
    reveal(cli_frames::cli_frame);
}

/// A sweep shows the start of a line and blanks after it. The start is as long as the part of the
/// time that has passed, rounded up.
pub proof fn law_swept_frames(
    line: Seq<char>,
    frame: usize,
    row: usize,
    total_rows: usize,
    total_frames: usize,
    col: int,
)
    requires
        0 <= col < line.len(),
    ensures
        ({
            let shown = cli_frames::cli_frame(
                line,
                frame,
                row,
                total_rows,
                total_frames,
                EffectKind::Sweep,
            );
            let long = single::ceiling(
                single::product(
                    share(frame as int, total_frames as int),
                    single::whole(line.len() as int),
                ),
                usize::MAX as int,
            );
            &&& col < long ==> shown[col] == line[col]
            &&& col >= long ==> shown[col] == ' '
        }),
{
    reveal(cli_frames::cli_frame);
}

/// A fade shows nothing but white space before three fifths of the frames, and the line from then
/// on.
pub proof fn law_faded_frames(
    line: Seq<char>,
    frame: usize,
    row: usize,
    total_rows: usize,
    total_frames: usize,
    col: int,
)
    requires
        0 <= col < line.len(),
        total_frames >= 1,
    ensures
        ({
            let shown = cli_frames::cli_frame(
                line,
                frame,
                row,
                total_rows,
                total_frames,
                EffectKind::Fade,
            );
            &&& 5 * frame >= 3 * total_frames ==> shown[col] == line[col]
            &&& 5 * frame < 3 * total_frames && !text::white(line[col]) ==> shown[col] == ' '
            &&& text::white(line[col]) ==> shown[col] == line[col]
        }),
{
    reveal(cli_frames::cli_frame);
}

/// Coalescing shows scrambled characters that settle one by one. How long a character takes is 45
/// hundredths of how far to the right it stands and 35 hundredths of its noise, against a progress
/// of one minus the cube of the time that is left.
pub proof fn law_coalescing_frames(
    line: Seq<char>,
    frame: usize,
    row: usize,
    total_rows: usize,
    total_frames: usize,
    col: usize,
)
    requires
        col < line.len(),
    ensures
        ({
            let shown = cli_frames::cli_frame(
                line,
                frame,
                row,
                total_rows,
                total_frames,
                EffectKind::Coalesce,
            )[col as int];
            let due = single::sum(
                single::product(share(col as int, line.len() as int), percent(45)),
                single::product(noise::noise(row as u64, col as u64), percent(35)),
            );
            let one = Number::Finite(single::unit());
            let left = single::difference(one, share(frame as int, total_frames as int));
            let now = single::difference(one, single::product(left, single::product(left, left)));
            &&& text::white(line[col as int]) || single::at_most(due, now) ==> shown
                == line[col as int]
            &&& !text::white(line[col as int]) && !single::at_most(due, now) ==> shown
                == cli_frames::scramble_symbol(row, col, frame)
        }),
{
    reveal(cli_frames::cli_frame);
}

/// A glitch shows noise where the noise of a place and a frame is below three quarters of the time
/// that is left, and the line everywhere else.
pub proof fn law_glitched_frames(
    line: Seq<char>,
    frame: usize,
    row: usize,
    total_rows: usize,
    total_frames: usize,
    col: usize,
)
    requires
        col < line.len(),
    ensures
        ({
            let shown = cli_frames::cli_frame(
                line,
                frame,
                row,
                total_rows,
                total_frames,
                EffectKind::Glitch,
            )[col as int];
            let left = single::difference(
                Number::Finite(single::unit()),
                share(frame as int, total_frames as int),
            );
            let noisy = single::less(
                noise::noise((row as u64).wrapping_add(frame as u64), col as u64),
                single::product(single::clamped(left), percent(75)),
            );
            &&& text::white(line[col as int]) ==> shown == line[col as int]
            &&& !noisy ==> shown == line[col as int]
            &&& noisy && !text::white(line[col as int]) ==> shown == noise::matrix_symbol(
                row,
                col,
                frame,
            )
        }),
{
    reveal(cli_frames::cli_frame);
}

/// Falling noise hides every character but white space until it has passed.
pub proof fn law_falling_frames(
    line: Seq<char>,
    frame: usize,
    row: usize,
    total_rows: usize,
    total_frames: usize,
    col: usize,
)
    requires
        col < line.len(),
    ensures
        ({
            let shown = cli_frames::cli_frame(
                line,
                frame,
                row,
                total_rows,
                total_frames,
                EffectKind::Matrix,
            )[col as int];
            let state = noise::matrix_state(
                row,
                col,
                some_rows(total_rows),
                share(frame as int, total_frames as int),
            );
            &&& text::white(line[col as int]) ==> shown == line[col as int]
            &&& state == MatrixState::Settled ==> shown == line[col as int]
            &&& state != MatrixState::Settled && !text::white(line[col as int]) ==> shown
                == noise::matrix_symbol(row, col, frame)
        }),
{
    reveal(cli_frames::cli_frame);
}

/// A scan shows blanks below its band, noise in it and the line above it. The band reaches from
/// half a row below to one and a half rows above where the scan has come, and the scan goes that
/// much further than the last row.
pub proof fn law_scanned_frames(
    line: Seq<char>,
    frame: usize,
    row: usize,
    total_rows: usize,
    total_frames: usize,
    col: usize,
)
    requires
        col < line.len(),
    ensures
        ({
            let shown = cli_frames::cli_frame(
                line,
                frame,
                row,
                total_rows,
                total_frames,
                EffectKind::Scanline,
            )[col as int];
            let ahead = single::difference(
                single::product(
                    share(frame as int, total_frames as int),
                    single::sum(
                        single::whole(some_rows(total_rows) as int),
                        single::fraction(15, 10),
                    ),
                ),
                single::whole(row as int),
            );
            let above = single::less(single::fraction(15, 10), ahead);
            let below = single::less(ahead, single::negated(single::fraction(5, 10)));
            &&& above ==> shown == line[col as int]
            &&& !above && below ==> shown == ' '
            &&& !above && !below && text::white(line[col as int]) ==> shown == line[col as int]
            &&& !above && !below && !text::white(line[col as int]) ==> shown
                == noise::matrix_symbol(row, col, frame)
        }),
{
    reveal(cli_frames::cli_frame);
}

/// The noise of a screen goes through these symbols, one further with each frame, each column and
/// each row.
pub proof fn law_symbols_of_noise(row: usize, col: usize, frame: usize)
    ensures
        noise::reveal_symbols() == seq!['.', ':', '+', '*', '#', '%', '@', '='],
        noise::reveal_symbol(0, 0, 0) == '.',
        ({
            let now = noise::reveal_symbol(row, col, frame);
            now == '.' ==> ({
                &&& frame < usize::MAX ==> noise::reveal_symbol(row, col, (frame + 1) as usize)
                    == ':'
                &&& col < usize::MAX ==> noise::reveal_symbol(row, (col + 1) as usize, frame) == ':'
                &&& row < usize::MAX ==> noise::reveal_symbol((row + 1) as usize, col, frame) == ':'
            })
        }),
{
    let n = row + col + frame;
    lemma_first_symbol(n % 8, 0, 0);
    assert(n % 8 == 0 ==> (n + 1) % 8 == 1);
}

/// Falling noise goes through these symbols: one further with every fifth frame, every third
/// column and every third row.
pub proof fn law_symbols_of_falling_noise(row: usize, col: usize, frame: usize)
    ensures
        noise::matrix_symbols() == seq!['0', '1', '|', ':', '.', '+', '*', '#'],
        noise::matrix_symbol(0, 0, 0) == '0',
        ({
            let now = noise::matrix_symbol(row, col, frame);
            now == '0' ==> ({
                &&& frame <= usize::MAX - 5 ==> noise::matrix_symbol(row, col, (frame + 5) as usize)
                    == '1'
                &&& col <= usize::MAX - 3 ==> noise::matrix_symbol(row, (col + 3) as usize, frame)
                    == '1'
                &&& row <= usize::MAX - 3 ==> noise::matrix_symbol((row + 3) as usize, col, frame)
                    == '1'
            })
        }),
{
    let n = row * 19 + col * 11 + frame * 5;
    lemma_first_symbol(0, n % 8, 0);
    assert(row * 19 + col * 11 + (frame + 5) * 5 == n + 25);
    assert(row * 19 + (col + 3) * 11 + frame * 5 == n + 33);
    assert((row + 3) * 19 + col * 11 + frame * 5 == n + 57);
    assert(n % 8 == 0 ==> (n + 25) % 8 == 1 && (n + 33) % 8 == 1 && (n + 57) % 8 == 1);
}

/// Scrambled text goes through its symbols: one further with every third frame, every thirteenth
/// column and every eleventh row.
pub proof fn law_symbols_of_scrambled_text(row: usize, col: usize, frame: usize)
    ensures
        cli_frames::scramble_symbol(0, 0, 0) == '\u{2591}',
        ({
            let now = cli_frames::scramble_symbol(row, col, frame);
            now == '\u{2591}' ==> ({
                &&& frame <= usize::MAX - 3 ==> cli_frames::scramble_symbol(
                    row,
                    col,
                    (frame + 3) as usize,
                ) == '\u{2592}'
                &&& col <= usize::MAX - 13 ==> cli_frames::scramble_symbol(
                    row,
                    (col + 13) as usize,
                    frame,
                ) == '\u{2592}'
                &&& row <= usize::MAX - 11 ==> cli_frames::scramble_symbol(
                    (row + 11) as usize,
                    col,
                    frame,
                ) == '\u{2592}'
            })
        }),
{
    let n = row * 31 + col * 17 + frame * 7;
    lemma_first_symbol(0, 0, n % 20);
    assert(row * 31 + col * 17 + (frame + 3) * 7 == n + 21);
    assert(row * 31 + (col + 13) * 17 + frame * 7 == n + 221);
    assert((row + 11) * 31 + col * 17 + frame * 7 == n + 341);
    assert(n % 20 == 0 ==> (n + 21) % 20 == 1 && (n + 221) % 20 == 1 && (n + 341) % 20 == 1);
}

proof fn lemma_first_symbol(a: int, b: int, c: int)
    requires
        0 <= a < 8,
        0 <= b < 8,
        0 <= c < 20,
    ensures
        noise::reveal_symbols()[a] == '.' ==> a == 0,
        noise::matrix_symbols()[b] == '0' ==> b == 0,
        cli_frames::scramble_symbols()[c] == '\u{2591}' ==> c == 0,
        cli_frames::scramble_symbols()[0] == '\u{2591}',
        cli_frames::scramble_symbols()[1] == '\u{2592}',
{
}

/// Text that is scrambled shows one of these symbols.
pub proof fn law_scramble_symbols()
    ensures
        cli_frames::scramble_symbols() == seq![
            '\u{2591}',
            '\u{2592}',
            '\u{2593}',
            '\u{2588}',
            '\u{25c6}',
            '\u{25c7}',
            '\u{25cb}',
            '\u{25cf}',
            '\u{25cc}',
            '\u{25cd}',
            '\u{b7}',
            '*',
            '+',
            '#',
            '%',
            '@',
            '/',
            '\\',
            '|',
            '-',
        ],
{
}

/// Falling noise is ahead of a cell, then passes through it, then has passed it, as its head comes
/// further down.
pub proof fn law_falling_noise(row: usize, col: usize, total_rows: usize, progress: Number)
    ensures
        ({
            let trail = single::sum(
                single::fraction(35, 10),
                single::product(noise::noise(col as u64, 29), single::fraction(45, 10)),
            );
            let span = single::sum(
                single::sum(single::whole(total_rows as int), trail),
                single::whole(6),
            );
            let head = single::difference(
                single::product(single::clamped(progress), span),
                single::product(noise::noise(col as u64, 13), single::whole(6)),
            );
            let below = single::difference(head, single::whole(row as int));
            let state = noise::matrix_state(row, col, total_rows, progress);
            &&& state == MatrixState::Ahead <==> single::less(below, Number::Finite(0))
            &&& state == MatrixState::Trail <==> !single::less(below, Number::Finite(0))
                && single::at_most(below, trail)
            &&& state == MatrixState::Settled <==> !single::less(below, Number::Finite(0))
                && !single::at_most(below, trail)
        }),
{
}

/// White space of a changed cell is shown as it is, and so are plain cells.
pub proof fn law_live_blanks(
    words: Seq<char>,
    row: usize,
    col: usize,
    total_rows: usize,
    frame: usize,
    ratio: Number,
    color_fade: bool,
    effect: EffectKind,
)
    ensures
        text::blank(words) || effect == EffectKind::Plain ==> effects::live_text(
            words,
            row,
            col,
            total_rows,
            frame,
            ratio,
            color_fade,
            effect,
        ) == words,
{
    reveal(effects::live_text);
}

/// The time at which a wipe reaches a cell of the screen.
pub open spec fn wiped_at(row: usize, col: usize, total_rows: usize) -> Number {
    let down = if total_rows >= 2 {
        single::quotient(single::whole(row as int), single::whole(total_rows - 1))
    } else {
        Number::Finite(0)
    };
    single::clamped(
        single::sum(
            single::product(down, percent(55)),
            single::product(
                single::quotient(single::whole(col as int), single::whole(col + 8)),
                percent(45),
            ),
        ),
    )
}

/// The time at which a sweep reaches a column of the screen.
pub open spec fn swept_at(col: usize) -> Number {
    single::clamped(
        single::quotient(
            single::sum(single::whole(col as int), Number::Finite(single::unit())),
            single::whole(col + 8),
        ),
    )
}

/// How far a cell has settled where it began at some time: it takes 45 hundredths of the time.
pub open spec fn settled_by(row: usize, col: usize, ratio: Number) -> Number {
    let start = single::quotient(
        single::whole((17 * row + 7 * col) % 100),
        single::whole(100),
    );
    single::clamped(
        single::quotient(
            single::difference(ratio, single::product(start, percent(55))),
            percent(45),
        ),
    )
}

/// Noise of a place in a frame is below three quarters of the time that is left.
pub open spec fn glitches(row: usize, col: usize, frame: usize, ratio: Number) -> bool {
    single::less(
        noise::noise(
            (row as u64).wrapping_add((frame as u64).wrapping_mul(3)),
            (col as u64).wrapping_add((frame as u64).wrapping_mul(7)),
        ),
        single::product(
            single::clamped(single::difference(Number::Finite(single::unit()), ratio)),
            percent(75),
        ),
    )
}

/// How far a scan has come below a row.
pub open spec fn scanned_by(row: usize, total_rows: usize, ratio: Number) -> Number {
    single::difference(
        single::product(
            ratio,
            single::sum(
                single::whole(
                    if total_rows >= 1 {
                        total_rows as int
                    } else {
                        1
                    },
                ),
                single::fraction(15, 10),
            ),
        ),
        single::whole(row as int),
    )
}

/// The noise that decides when a cell is scattered in.
pub open spec fn scattered_at(row: usize, col: usize) -> Number {
    noise::noise((row as u64).wrapping_add(97), (col as u64).wrapping_add(193))
}

/// What a cell of the reveal of a screen shows with the effects that show text or a blank.
pub proof fn law_revealed_by_place(
    words: Seq<char>,
    row: usize,
    col: usize,
    total_rows: usize,
    frame: usize,
    ratio: Number,
    effect: EffectKind,
)
    ensures
        ({
            let shown = effects::reveal_text(words, row, col, total_rows, frame, ratio, effect);
            &&& effect == EffectKind::Plain || effect == EffectKind::Fade ==> shown == words
            &&& effect == EffectKind::Wipe && single::at_most(wiped_at(row, col, total_rows), ratio)
                ==> shown == words
            &&& effect == EffectKind::Wipe && !single::at_most(
                wiped_at(row, col, total_rows),
                ratio,
            ) ==> shown == seq![' ']
            &&& effect == EffectKind::Sweep && single::at_most(swept_at(col), ratio) ==> shown
                == words
            &&& effect == EffectKind::Sweep && !single::at_most(swept_at(col), ratio) ==> shown
                == seq![' ']
        }),
{
    reveal(effects::reveal_text);
}

/// What a cell of the reveal of a screen shows with the effects that show noise.
pub proof fn law_revealed_from_noise(
    words: Seq<char>,
    row: usize,
    col: usize,
    total_rows: usize,
    frame: usize,
    ratio: Number,
    effect: EffectKind,
)
    ensures
        ({
            let shown = effects::reveal_text(words, row, col, total_rows, frame, ratio, effect);
            let white = text::blank(words);
            let symbol = seq![noise::reveal_symbol(row, col, frame)];
            let falling = seq![noise::matrix_symbol(row, col, frame)];
            let part = settled_by(row, col, ratio);
            let whole = single::at_most(percent(98), part);
            let early = single::at_most(part, percent(5));
            let state = noise::matrix_state(row, col, some_rows(total_rows), ratio);
            &&& effect == EffectKind::Coalesce && whole ==> shown == words
            &&& effect == EffectKind::Coalesce && !whole && (early || white) ==> shown == seq![' ']
            &&& effect == EffectKind::Coalesce && !whole && !early && !white ==> shown == symbol
            &&& effect == EffectKind::Glitch && white ==> shown == seq![' ']
            &&& effect == EffectKind::Glitch && !white && glitches(row, col, frame, ratio) ==> shown
                == symbol
            &&& effect == EffectKind::Glitch && !white && !glitches(row, col, frame, ratio)
                ==> shown == words
            &&& effect == EffectKind::Matrix && state == MatrixState::Settled ==> shown == words
            &&& effect == EffectKind::Matrix && state == MatrixState::Ahead ==> shown == seq![' ']
            &&& effect == EffectKind::Matrix && state == MatrixState::Trail && white ==> shown
                == seq![' ']
            &&& effect == EffectKind::Matrix && state == MatrixState::Trail && !white ==> shown
                == falling
        }),
{
    reveal(effects::reveal_text);
    assert(row * 17 + col * 7 == 17 * row + 7 * col);
}

/// What a cell of the reveal of a screen shows when it is scanned or scattered in.
pub proof fn law_revealed_by_scans(
    words: Seq<char>,
    row: usize,
    col: usize,
    total_rows: usize,
    frame: usize,
    ratio: Number,
    effect: EffectKind,
)
    ensures
        ({
            let shown = effects::reveal_text(words, row, col, total_rows, frame, ratio, effect);
            let white = text::blank(words);
            let symbol = seq![noise::reveal_symbol(row, col, frame)];
            let ahead = scanned_by(row, total_rows, ratio);
            let above = single::less(single::fraction(15, 10), ahead);
            let below = single::less(ahead, single::negated(single::fraction(5, 10)));
            let gate = scattered_at(row, col);
            let now = single::at_most(gate, ratio);
            let soon = single::at_most(gate, single::sum(ratio, percent(12)));
            &&& effect == EffectKind::Scanline && above ==> shown == words
            &&& effect == EffectKind::Scanline && !above && (below || white) ==> shown == seq![' ']
            &&& effect == EffectKind::Scanline && !above && !below && !white ==> shown == symbol
            &&& effect == EffectKind::Scatter && now ==> shown == words
            &&& effect == EffectKind::Scatter && !now && soon && !white ==> shown == symbol
            &&& effect == EffectKind::Scatter && !now && !(soon && !white) ==> shown == seq![' ']
        }),
{
    reveal(effects::reveal_text);
}

/// What a changed cell of the live screen shows with the effects that go by its place. With
/// fading colours the text shows earlier, and never later.
pub proof fn law_live_by_place(
    words: Seq<char>,
    row: usize,
    col: usize,
    total_rows: usize,
    frame: usize,
    ratio: Number,
    color_fade: bool,
    effect: EffectKind,
)
    requires
        !text::blank(words),
    ensures
        ({
            let shown = effects::live_text(
                words,
                row,
                col,
                total_rows,
                frame,
                ratio,
                color_fade,
                effect,
            );
            let symbol = seq![noise::reveal_symbol(row, col, frame)];
            let wiped = single::at_most(wiped_at(row, col, total_rows), ratio);
            let swept = single::at_most(swept_at(col), ratio);
            let early = single::at_most(
                single::product(swept_at(col), single::fraction(6, 10)),
                ratio,
            );
            let late = single::at_most(single::fraction(6, 10), ratio);
            let quarter = single::at_most(percent(25), ratio);
            &&& effect == EffectKind::Wipe && wiped ==> shown == words
            &&& effect == EffectKind::Wipe && !wiped ==> shown == seq![' ']
            &&& effect == EffectKind::Sweep && (swept || (color_fade && early)) ==> shown == words
            &&& effect == EffectKind::Sweep && !(swept || (color_fade && early)) ==> shown == symbol
            &&& effect == EffectKind::Fade && (late || (color_fade && quarter)) ==> shown == words
            &&& effect == EffectKind::Fade && !(late || (color_fade && quarter)) ==> shown == symbol
        }),
{
    reveal(effects::live_text);
}

/// What a changed cell of the live screen shows with the effects that show noise. With fading
/// colours the text shows earlier, and never later.
pub proof fn law_live_from_noise(
    words: Seq<char>,
    row: usize,
    col: usize,
    total_rows: usize,
    frame: usize,
    ratio: Number,
    color_fade: bool,
    effect: EffectKind,
)
    requires
        !text::blank(words),
    ensures
        ({
            let shown = effects::live_text(
                words,
                row,
                col,
                total_rows,
                frame,
                ratio,
                color_fade,
                effect,
            );
            let symbol = seq![noise::reveal_symbol(row, col, frame)];
            let falling = seq![noise::matrix_symbol(row, col, frame)];
            let part = settled_by(row, col, ratio);
            let whole = single::at_most(percent(98), part) || (color_fade && single::at_most(
                percent(42),
                part,
            ));
            let state = noise::matrix_state(row, col, some_rows(total_rows), ratio);
            &&& effect == EffectKind::Coalesce && whole ==> shown == words
            &&& effect == EffectKind::Coalesce && !whole ==> shown == symbol
            &&& effect == EffectKind::Glitch && glitches(row, col, frame, ratio) ==> shown == symbol
            &&& effect == EffectKind::Glitch && !glitches(row, col, frame, ratio) ==> shown == words
            &&& effect == EffectKind::Matrix && state == MatrixState::Settled ==> shown == words
            &&& effect == EffectKind::Matrix && state == MatrixState::Ahead ==> shown == falling
            &&& effect == EffectKind::Matrix && state == MatrixState::Trail && color_fade ==> shown
                == words
            &&& effect == EffectKind::Matrix && state == MatrixState::Trail && !color_fade ==> shown
                == falling
        }),
{
    reveal(effects::live_text);
    assert(row * 17 + col * 7 == 17 * row + 7 * col);
}

/// What a changed cell of the live screen shows when it is scanned or scattered in. With fading
/// colours the text shows earlier, and never later.
pub proof fn law_live_by_scans(
    words: Seq<char>,
    row: usize,
    col: usize,
    total_rows: usize,
    frame: usize,
    ratio: Number,
    color_fade: bool,
    effect: EffectKind,
)
    requires
        !text::blank(words),
    ensures
        ({
            let shown = effects::live_text(
                words,
                row,
                col,
                total_rows,
                frame,
                ratio,
                color_fade,
                effect,
            );
            let symbol = seq![noise::reveal_symbol(row, col, frame)];
            let ahead = scanned_by(row, total_rows, ratio);
            let passed = single::less(single::fraction(15, 10), ahead) || (color_fade
                && single::at_most(Number::Finite(0), ahead));
            let gate = scattered_at(row, col);
            let now = single::at_most(gate, ratio) || (color_fade && single::at_most(
                gate,
                single::sum(ratio, percent(8)),
            ));
            let soon = single::at_most(gate, single::sum(ratio, percent(16)));
            &&& effect == EffectKind::Scanline && passed ==> shown == words
            &&& effect == EffectKind::Scanline && !passed ==> shown == symbol
            &&& effect == EffectKind::Scatter && now ==> shown == words
            &&& effect == EffectKind::Scatter && !now && soon ==> shown == symbol
            &&& effect == EffectKind::Scatter && !now && !soon ==> shown == seq![' ']
        }),
{
    reveal(effects::live_text);
}

/// A line of text keeps its length, and each of its characters is shown, blanked or made noise of
/// by its own place, for the effects that go by the place.
pub proof fn law_lines_by_place(words: Seq<char>, idx: usize, ratio: Number, effect: EffectKind)
    requires
        idx < words.len(),
        words.len() <= usize::MAX,
    ensures
        ({
            let line = effects::coalesced_line(words, ratio, effect);
            let shown = line[idx as int];
            let ch = words[idx as int];
            let symbol = noise_in_line(idx as int, ratio);
            let count = words.len() as int;
            let wiped = single::at_most(share(idx as int, count), ratio);
            let swept = idx < single::ceiling(
                single::product(ratio, single::whole(count)),
                usize::MAX as int,
            );
            let late = single::at_most(single::fraction(6, 10), ratio);
            let half = single::less(
                single::product(share(idx as int, count), single::fraction(5, 10)),
                ratio,
            );
            let ended = single::at_most(percent(85), ratio);
            &&& line.len() == words.len()
            &&& effect == EffectKind::Plain ==> shown == ch
            &&& effect == EffectKind::Wipe && wiped ==> shown == ch
            &&& effect == EffectKind::Wipe && !wiped ==> shown == ' '
            &&& effect == EffectKind::Sweep && swept ==> shown == ch
            &&& effect == EffectKind::Sweep && !swept ==> shown == ' '
            &&& effect == EffectKind::Fade && late ==> shown == ch
            &&& effect == EffectKind::Fade && !late ==> shown == ' '
            &&& effect == EffectKind::Coalesce && half ==> shown == ch
            &&& effect == EffectKind::Coalesce && !half ==> shown == symbol
            &&& effect == EffectKind::Scanline && (ended || text::white(ch)) ==> shown == ch
            &&& effect == EffectKind::Scanline && !ended && !text::white(ch) ==> shown == symbol
        }),
{
    reveal(effects::line_char);
    assert(effects::line_symbol(idx as int, ratio) == noise_in_line(idx as int, ratio));
}

/// The symbol of noise at a place of a line: the place and the hundredths of the time count it out.
pub open spec fn noise_in_line(idx: int, ratio: Number) -> char {
    let steps = single::truncated(single::product(ratio, single::whole(100)), usize::MAX as int);
    seq!['.', ':', '+', '*', '#', '%', '@'][(idx + steps) % 7]
}

/// The symbol of falling noise at a place of a line.
pub open spec fn falling_in_line(idx: int, ratio: Number) -> char {
    let steps = single::truncated(single::product(ratio, single::whole(100)), usize::MAX as int);
    seq!['0', '1', '|', ':', '.', '+', '*', '#'][(idx + steps) % 8]
}

/// A glitch of a line keeps its white space, and shows noise where the noise of a place and a time
/// is below three quarters of the time that is left.
pub proof fn law_glitched_lines(words: Seq<char>, idx: usize, ratio: Number)
    requires
        idx < words.len(),
        words.len() <= usize::MAX,
    ensures
        ({
            let shown = effects::coalesced_line(words, ratio, EffectKind::Glitch)[idx as int];
            let ch = words[idx as int];
            let seed = single::truncated(
                single::product(ratio, single::whole(1000)),
                u64::MAX as int,
            ) as u64;
            let noisy = single::less(
                noise::noise(idx as u64, seed),
                single::product(
                    single::difference(Number::Finite(single::unit()), ratio),
                    percent(75),
                ),
            );
            &&& text::white(ch) || !noisy ==> shown == ch
            &&& !text::white(ch) && noisy ==> shown == noise_in_line(idx as int, ratio)
        }),
{
    reveal(effects::line_char);
    assert(effects::line_symbol(idx as int, ratio) == noise_in_line(idx as int, ratio));
}

/// Falling noise keeps the white space of a line, and hides other characters until it has passed.
pub proof fn law_lines_under_falling_noise(words: Seq<char>, idx: usize, ratio: Number)
    requires
        idx < words.len(),
        words.len() <= usize::MAX,
    ensures
        ({
            let shown = effects::coalesced_line(words, ratio, EffectKind::Matrix)[idx as int];
            let ch = words[idx as int];
            let passed = noise::matrix_state(0, idx, 1, ratio) == MatrixState::Settled;
            &&& text::white(ch) || passed ==> shown == ch
            &&& !text::white(ch) && !passed ==> shown == falling_in_line(idx as int, ratio)
        }),
{
    reveal(effects::line_char);
    assert(effects::line_matrix_symbol(idx as int, ratio) == falling_in_line(idx as int, ratio));
}

/// A line that is scattered in keeps its white space. Any other character shows from a time on that
/// its place and the length of the line decide, is noise shortly before, and a blank until then.
pub proof fn law_scattered_lines(words: Seq<char>, idx: usize, ratio: Number)
    requires
        idx < words.len(),
        words.len() <= usize::MAX,
    ensures
        ({
            let shown = effects::coalesced_line(words, ratio, EffectKind::Scatter)[idx as int];
            let ch = words[idx as int];
            let gate = noise::noise(
                (idx as u64).wrapping_add(97),
                (vstd::utf8::encode_utf8(words).len() as u64).wrapping_add(193),
            );
            let now = single::at_most(gate, ratio);
            let soon = single::at_most(gate, single::sum(ratio, percent(12)));
            &&& text::white(ch) || now ==> shown == ch
            &&& !text::white(ch) && !now && soon ==> shown == noise_in_line(idx as int, ratio)
            &&& !text::white(ch) && !now && !soon ==> shown == ' '
        }),
{
    reveal(effects::line_char);
    assert(effects::line_symbol(idx as int, ratio) == noise_in_line(idx as int, ratio));
}

/// An effect of the live screen is drawn in steps, each later than the one before, and the last at
/// the end of the time. Plain cells are drawn at once, and others in up to five steps.
pub proof fn law_live_steps(effect: EffectKind, i: int)
    ensures
        ({
            let steps = effects::live_steps(effect);
            &&& steps.len() >= 1
            &&& steps.last() == 100
            &&& 0 <= i < steps.len() - 1 ==> 0 < steps[i] < steps[i + 1]
            &&& effect == EffectKind::Plain <==> steps.len() == 1
            &&& effect == EffectKind::Fade <==> steps.len() == 2
            &&& effect == EffectKind::Wipe || effect == EffectKind::Sweep <==> steps.len() == 3
            &&& effect == EffectKind::Coalesce || effect == EffectKind::Scanline || effect
                == EffectKind::Scatter <==> steps.len() == 4
            &&& effect == EffectKind::Glitch || effect == EffectKind::Matrix <==> steps.len() == 5
            &&& 0 <= i < steps.len() ==> effects::live_ratios(effect)[i] == percent(steps[i])
            &&& effects::live_ratios(effect).len() == steps.len()
        }),
{
    let steps = effects::live_steps(effect);
    if 0 <= i < steps.len() - 1 {
        assert(i == 0 || i == 1 || i == 2 || i == 3);
    }
}

/// The steps before the last one come at these hundredths of the time.
pub proof fn law_steps_of_effects()
    ensures
        effects::live_steps(EffectKind::Fade) == seq![35int, 100],
        effects::live_steps(EffectKind::Wipe) == seq![20int, 55, 100],
        effects::live_steps(EffectKind::Sweep) == seq![25int, 65, 100],
        effects::live_steps(EffectKind::Coalesce) == seq![12int, 38, 72, 100],
        effects::live_steps(EffectKind::Glitch) == seq![8int, 16, 32, 55, 100],
        effects::live_steps(EffectKind::Matrix) == seq![8int, 24, 45, 72, 100],
        effects::live_steps(EffectKind::Scanline) == seq![12int, 35, 68, 100],
        effects::live_steps(EffectKind::Scatter) == seq![10int, 28, 58, 100],
{
}

/// The steps of an effect take no longer together than the time for it, where that leaves at least
/// a millisecond for each. Each step takes at least a millisecond, and one more for each would
/// take longer than the time.
pub proof fn law_pauses(total_ms: int, effect: EffectKind)
    requires
        total_ms >= 0,
    ensures
        ({
            let pause = effects::live_pause(total_ms, effect);
            let n = effects::live_steps(effect).len();
            &&& pause >= 1
            &&& total_ms >= n ==> pause * n <= total_ms
            &&& total_ms < (pause + 1) * n
        }),
{
    let n = effects::live_steps(effect).len() as int;
    let t = if total_ms < 1 {
        1
    } else {
        total_ms
    };
    vstd::arithmetic::div_mod::lemma_fundamental_div_mod(t, n);
    vstd::arithmetic::div_mod::lemma_mod_bound(t, n);
    let q = t / n;
    assert(n * q == q * n) by (nonlinear_arith);
    assert((q + 1) * n == q * n + n) by (nonlinear_arith);
    if q < 1 {
        assert(q * n <= 0) by (nonlinear_arith)
            requires
                q < 1,
                n >= 1,
        ;
        assert(2 * n == (1 + 1) * n);
    }
}

/// Colours of the terminal's own do not fade. Others go from a dark shade of theirs, as bright as
/// the factor and the effect say, to the colour itself.
pub proof fn law_fading(
    target: Rgb,
    idx: u8,
    ratio: Number,
    effect: EffectKind,
    darken_factor: Number,
)
    ensures
        effects::faded(DisplayColor::Default, ratio, effect, darken_factor)
            == DisplayColor::Default,
        effects::faded(DisplayColor::Indexed(idx), ratio, effect, darken_factor)
            == DisplayColor::Indexed(idx),
        ({
            let more = match effect {
                EffectKind::Glitch => percent(15),
                EffectKind::Matrix => single::negated(percent(8)),
                EffectKind::Scanline => percent(5),
                _ => Number::Finite(0),
            };
            let dark = theme::mixed(
                Rgb(0, 0, 0),
                target,
                single::clamped(single::sum(darken_factor, more)),
            );
            effects::faded(DisplayColor::Rgb(target), ratio, effect, darken_factor)
                == DisplayColor::Rgb(theme::mixed(dark, target, single::clamped(ratio)))
        }),
{
}

} // verus!
