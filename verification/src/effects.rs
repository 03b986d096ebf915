//! What an effect shows in place of text, and how it fades colours.
use crate::cli_frames;
use crate::cli_frames::{distance_of_scan, level_of_glitch, weight_of_row};
use crate::model::{EffectKind, Rgb};
use crate::noise;
use crate::noise::{
    matrix_cell_state, mixed_index, one_char, pseudo_random_01, reveal_matrix_symbol,
    reveal_noise_symbol, MatrixState,
};
use crate::screen::{DisplayColor, StyledCell};
use crate::single;
use crate::single::{Number, Single};
use crate::text;
use crate::text::{chars_of, is_blank, is_white};
use crate::theme;
use crate::theme::{darken, lerp_rgb};
use vstd::prelude::*;
use vstd::utf8::*;

verus! {

/// Where and when a cell is animated.
#[derive(Debug, Clone, Copy)]
pub struct CellAnimCtx {
    pub row: usize,
    pub col: usize,
    pub total_rows: usize,
    pub frame: usize,
    pub ratio: Single,
    pub color_fade: bool,
    pub effect: EffectKind,
}

/// When a wipe from the top left reaches a cell.
pub open spec fn wipe_gate(row: int, col: int, total_rows: int) -> Number {
    single::clamped(
        single::sum(
            single::product(cli_frames::row_weight(row, total_rows), single::fraction(55, 100)),
            single::product(
                single::quotient(single::whole(col), single::whole(col + 8)),
                single::fraction(45, 100),
            ),
        ),
    )
}

fn gate_of_wipe(row: usize, col: usize, total_rows: usize) -> (r: Single)
    ensures
        r@ == wipe_gate(row as int, col as int, total_rows as int),
{
    proof {
        single::lemma_whole_positive(col + 8);
    }
    let across: Single = Single::from_u64(col as u64).over(&Single::from_wide(col as u128 + 8));
    weight_of_row(row, total_rows).times(&Single::from_ratio(55, 100)).plus(
        &across.times(&Single::from_ratio(45, 100)),
    ).clamp_to_one()
}

/// When a sweep from the left reaches a column.
pub open spec fn sweep_gate(col: int) -> Number {
    single::clamped(
        single::quotient(
            single::sum(single::whole(col), Number::Finite(single::unit())),
            single::whole(col + 8),
        ),
    )
}

fn gate_of_sweep(col: usize) -> (r: Single)
    ensures
        r@ == sweep_gate(col as int),
{
    proof {
        single::lemma_whole_positive(col + 8);
    }
    Single::from_u64(col as u64).plus(&Single::one()).over(
        &Single::from_wide(col as u128 + 8),
    ).clamp_to_one()
}

/// How far a cell has come out of the noise.
pub open spec fn coalesced(row: int, col: int, ratio: Number) -> Number {
    let appear_at = single::quotient(
        single::whole((row * 17 + col * 7) % 100),
        single::whole(100),
    );
    single::clamped(
        single::quotient(
            single::difference(ratio, single::product(appear_at, single::fraction(55, 100))),
            single::fraction(45, 100),
        ),
    )
}

fn coalesced_part(row: usize, col: usize, ratio: Single) -> (r: Single)
    ensures
        r@ == coalesced(row as int, col as int, ratio@),
{
    let step: usize = mixed_index(row, 17, col, 7, 0, 0, 100);
    assert(row * 17 + col * 7 + 0 * 0 == row * 17 + col * 7);
    proof {
        single::lemma_whole_positive(100);
        single::lemma_fraction_positive(45, 100);
    }
    let appear_at: Single = Single::from_u64(step as u64).over(&Single::from_u64(100));
    ratio.minus(&appear_at.times(&Single::from_ratio(55, 100))).over(
        &Single::from_ratio(45, 100),
    ).clamp_to_one()
}

/// The noise of a glitch in a cell of a frame.
pub open spec fn glitch_noise(row: usize, col: usize, frame: usize) -> Number {
    noise::noise(
        (row as u64).wrapping_add((frame as u64).wrapping_mul(3)),
        (col as u64).wrapping_add((frame as u64).wrapping_mul(7)),
    )
}

fn noise_of_glitch(row: usize, col: usize, frame: usize) -> (r: Single)
    ensures
        r@ == glitch_noise(row, col, frame),
{
    pseudo_random_01(
        (row as u64).wrapping_add((frame as u64).wrapping_mul(3)),
        (col as u64).wrapping_add((frame as u64).wrapping_mul(7)),
    )
}

/// When a scattered cell shows.
pub open spec fn scatter_gate(row: usize, col: usize) -> Number {
    noise::noise((row as u64).wrapping_add(97), (col as u64).wrapping_add(193))
}

fn gate_of_scatter(row: usize, col: usize) -> (r: Single)
    ensures
        r@ == scatter_gate(row, col),
{
    pseudo_random_01((row as u64).wrapping_add(97), (col as u64).wrapping_add(193))
}

/// The number of rows, taken to be at least one.
pub open spec fn some_rows(total_rows: usize) -> usize {
    if total_rows < 1 {
        1
    } else {
        total_rows
    }
}

/// What a cell shows in a frame of the reveal of a screen.
#[verifier::opaque]
pub open spec fn reveal_text(
    text: Seq<char>,
    row: usize,
    col: usize,
    total_rows: usize,
    frame: usize,
    ratio: Number,
    effect: EffectKind,
) -> Seq<char> {
    let blank = text::blank(text);
    let symbol = seq![noise::reveal_symbol(row, col, frame)];
    match effect {
        EffectKind::Plain => text,
        EffectKind::Fade => text,
        EffectKind::Wipe => if single::at_most(
            wipe_gate(row as int, col as int, total_rows as int),
            ratio,
        ) {
            text
        } else {
            seq![' ']
        },
        EffectKind::Sweep => if single::at_most(sweep_gate(col as int), ratio) {
            text
        } else {
            seq![' ']
        },
        EffectKind::Coalesce => {
            let part = coalesced(row as int, col as int, ratio);
            if single::at_most(single::fraction(98, 100), part) {
                text
            } else if single::at_most(part, single::fraction(5, 100)) || blank {
                seq![' ']
            } else {
                symbol
            }
        },
        EffectKind::Glitch => if blank {
            seq![' ']
        } else if single::less(glitch_noise(row, col, frame), cli_frames::glitch_level(ratio)) {
            symbol
        } else {
            text
        },
        EffectKind::Matrix => match noise::matrix_state(row, col, some_rows(total_rows), ratio) {
            MatrixState::Settled => text,
            MatrixState::Ahead => seq![' '],
            MatrixState::Trail => if blank {
                seq![' ']
            } else {
                seq![noise::matrix_symbol(row, col, frame)]
            },
        },
        EffectKind::Scanline => {
            let distance = cli_frames::scan_distance(row as int, total_rows as int, ratio);
            if cli_frames::scan_passed(distance) {
                text
            } else if cli_frames::scan_ahead(distance) || blank {
                seq![' ']
            } else {
                symbol
            }
        },
        EffectKind::Scatter => {
            let gate = scatter_gate(row, col);
            if single::at_most(gate, ratio) {
                text
            } else if single::at_most(gate, single::sum(ratio, single::fraction(12, 100)))
                && !blank {
                symbol
            } else {
                seq![' ']
            }
        },
    }
}

/// What a cell shows in a frame of the reveal of a screen.
pub fn reveal_text_for_cell(
    cell: &StyledCell,
    row: usize,
    col: usize,
    total_rows: usize,
    frame: usize,
    ratio: Single,
    effect: EffectKind,
) -> (r: String)
    ensures
        r@ == reveal_text(cell.text@, row, col, total_rows, frame, ratio@, effect),
{
    proof {
        reveal(reveal_text);
    }
    let blank: bool = is_blank(cell.text.as_str());
    match effect {
        EffectKind::Plain => cell.text.clone(),
        EffectKind::Fade => cell.text.clone(),
        EffectKind::Wipe => {
            if gate_of_wipe(row, col, total_rows).is_at_most(&ratio) {
                cell.text.clone()
            } else {
                one_char(' ')
            }
        },
        EffectKind::Sweep => {
            if gate_of_sweep(col).is_at_most(&ratio) {
                cell.text.clone()
            } else {
                one_char(' ')
            }
        },
        EffectKind::Coalesce => {
            let part: Single = coalesced_part(row, col, ratio);
            if Single::from_ratio(98, 100).is_at_most(&part) {
                cell.text.clone()
            } else if part.is_at_most(&Single::from_ratio(5, 100)) || blank {
                one_char(' ')
            } else {
                reveal_noise_symbol(row, col, frame)
            }
        },
        EffectKind::Glitch => {
            if blank {
                one_char(' ')
            } else if noise_of_glitch(row, col, frame).is_less(&level_of_glitch(ratio)) {
                reveal_noise_symbol(row, col, frame)
            } else {
                cell.text.clone()
            }
        },
        EffectKind::Matrix => {
            let rows: usize = if total_rows < 1 {
                1
            } else {
                total_rows
            };
            match matrix_cell_state(row, col, rows, ratio) {
                MatrixState::Settled => cell.text.clone(),
                MatrixState::Ahead => one_char(' '),
                MatrixState::Trail => {
                    if blank {
                        one_char(' ')
                    } else {
                        reveal_matrix_symbol(row, col, frame)
                    }
                },
            }
        },
        EffectKind::Scanline => {
            let distance: Single = distance_of_scan(row, total_rows, ratio);
            if Single::from_ratio(15, 10).is_less(&distance) {
                cell.text.clone()
            } else if distance.is_less(&Single::from_ratio(5, 10).negate()) || blank {
                one_char(' ')
            } else {
                reveal_noise_symbol(row, col, frame)
            }
        },
        EffectKind::Scatter => {
            let gate: Single = gate_of_scatter(row, col);
            if gate.is_at_most(&ratio) {
                cell.text.clone()
            } else if gate.is_at_most(&ratio.plus(&Single::from_ratio(12, 100))) && !blank {
                reveal_noise_symbol(row, col, frame)
            } else {
                one_char(' ')
            }
        },
    }
}

/// What a changed cell shows in a frame of the live screen. With fading colours the text shows
/// earlier.
#[verifier::opaque]
pub open spec fn live_text(
    text: Seq<char>,
    row: usize,
    col: usize,
    total_rows: usize,
    frame: usize,
    ratio: Number,
    color_fade: bool,
    effect: EffectKind,
) -> Seq<char> {
    let symbol = seq![noise::reveal_symbol(row, col, frame)];
    if text::blank(text) {
        text
    } else {
        match effect {
            EffectKind::Plain => text,
            EffectKind::Wipe => if single::at_most(
                wipe_gate(row as int, col as int, total_rows as int),
                ratio,
            ) {
                text
            } else {
                seq![' ']
            },
            EffectKind::Sweep => {
                let gate = sweep_gate(col as int);
                if single::at_most(gate, ratio) || (color_fade && single::at_most(
                    single::product(gate, single::fraction(6, 10)),
                    ratio,
                )) {
                    text
                } else {
                    symbol
                }
            },
            EffectKind::Fade => if single::at_most(single::fraction(6, 10), ratio) || (color_fade
                && single::at_most(single::fraction(25, 100), ratio)) {
                text
            } else {
                symbol
            },
            EffectKind::Coalesce => {
                let part = coalesced(row as int, col as int, ratio);
                if single::at_most(single::fraction(98, 100), part) || (color_fade
                    && single::at_most(single::fraction(42, 100), part)) {
                    text
                } else {
                    symbol
                }
            },
            EffectKind::Glitch => if single::less(
                glitch_noise(row, col, frame),
                cli_frames::glitch_level(ratio),
            ) {
                symbol
            } else {
                text
            },
            EffectKind::Matrix => match noise::matrix_state(
                row,
                col,
                some_rows(total_rows),
                ratio,
            ) {
                MatrixState::Settled => text,
                MatrixState::Trail => if color_fade {
                    text
                } else {
                    seq![noise::matrix_symbol(row, col, frame)]
                },
                MatrixState::Ahead => seq![noise::matrix_symbol(row, col, frame)],
            },
            EffectKind::Scanline => {
                let distance = cli_frames::scan_distance(row as int, total_rows as int, ratio);
                if cli_frames::scan_passed(distance) || (color_fade && single::at_most(
                    Number::Finite(0),
                    distance,
                )) {
                    text
                } else {
                    symbol
                }
            },
            EffectKind::Scatter => {
                let gate = scatter_gate(row, col);
                if single::at_most(gate, ratio) || (color_fade && single::at_most(
                    gate,
                    single::sum(ratio, single::fraction(8, 100)),
                )) {
                    text
                } else if single::at_most(gate, single::sum(ratio, single::fraction(16, 100))) {
                    symbol
                } else {
                    seq![' ']
                }
            },
        }
    }
}

/// What a changed cell shows in a frame of the live screen.
pub fn live_render_text_for_cell(cell: &StyledCell, ctx: CellAnimCtx) -> (r: String)
    ensures
        r@ == live_text(
            cell.text@,
            ctx.row,
            ctx.col,
            ctx.total_rows,
            ctx.frame,
            ctx.ratio@,
            ctx.color_fade,
            ctx.effect,
        ),
{
    proof {
        reveal(live_text);
    }
    if is_blank(cell.text.as_str()) {
        return cell.text.clone();
    }
    match ctx.effect {
        EffectKind::Plain => cell.text.clone(),
        EffectKind::Wipe => {
            if gate_of_wipe(ctx.row, ctx.col, ctx.total_rows).is_at_most(&ctx.ratio) {
                cell.text.clone()
            } else {
                one_char(' ')
            }
        },
        EffectKind::Sweep => {
            let gate: Single = gate_of_sweep(ctx.col);
            if gate.is_at_most(&ctx.ratio) || (ctx.color_fade && gate.times(
                &Single::from_ratio(6, 10),
            ).is_at_most(&ctx.ratio)) {
                cell.text.clone()
            } else {
                reveal_noise_symbol(ctx.row, ctx.col, ctx.frame)
            }
        },
        EffectKind::Fade => {
            if Single::from_ratio(6, 10).is_at_most(&ctx.ratio) || (ctx.color_fade
                && Single::from_ratio(25, 100).is_at_most(&ctx.ratio)) {
                cell.text.clone()
            } else {
                reveal_noise_symbol(ctx.row, ctx.col, ctx.frame)
            }
        },
        EffectKind::Coalesce => {
            let part: Single = coalesced_part(ctx.row, ctx.col, ctx.ratio);
            if Single::from_ratio(98, 100).is_at_most(&part) || (ctx.color_fade
                && Single::from_ratio(42, 100).is_at_most(&part)) {
                cell.text.clone()
            } else {
                reveal_noise_symbol(ctx.row, ctx.col, ctx.frame)
            }
        },
        EffectKind::Glitch => {
            if noise_of_glitch(ctx.row, ctx.col, ctx.frame).is_less(&level_of_glitch(ctx.ratio)) {
                reveal_noise_symbol(ctx.row, ctx.col, ctx.frame)
            } else {
                cell.text.clone()
            }
        },
        EffectKind::Matrix => {
            let rows: usize = if ctx.total_rows < 1 {
                1
            } else {
                ctx.total_rows
            };
            match matrix_cell_state(ctx.row, ctx.col, rows, ctx.ratio) {
                MatrixState::Settled => cell.text.clone(),
                MatrixState::Trail => {
                    if ctx.color_fade {
                        cell.text.clone()
                    } else {
                        reveal_matrix_symbol(ctx.row, ctx.col, ctx.frame)
                    }
                },
                MatrixState::Ahead => reveal_matrix_symbol(ctx.row, ctx.col, ctx.frame),
            }
        },
        EffectKind::Scanline => {
            let distance: Single = distance_of_scan(ctx.row, ctx.total_rows, ctx.ratio);
            if Single::from_ratio(15, 10).is_less(&distance) || (ctx.color_fade
                && Single::zero().is_at_most(&distance)) {
                cell.text.clone()
            } else {
                reveal_noise_symbol(ctx.row, ctx.col, ctx.frame)
            }
        },
        EffectKind::Scatter => {
            let gate: Single = gate_of_scatter(ctx.row, ctx.col);
            if gate.is_at_most(&ctx.ratio) || (ctx.color_fade && gate.is_at_most(
                &ctx.ratio.plus(&Single::from_ratio(8, 100)),
            )) {
                cell.text.clone()
            } else if gate.is_at_most(&ctx.ratio.plus(&Single::from_ratio(16, 100))) {
                reveal_noise_symbol(ctx.row, ctx.col, ctx.frame)
            } else {
                one_char(' ')
            }
        },
    }
}

/// The symbols of noise in a line of text.
pub open spec fn line_symbols() -> Seq<char> {
    seq!['.', ':', '+', '*', '#', '%', '@']
}

/// The number of hundredths in a ratio.
pub open spec fn hundredths(ratio: Number) -> int {
    single::truncated(single::product(ratio, single::whole(100)), usize::MAX as int)
}

/// The symbol of noise at an index of a line.
pub open spec fn line_symbol(idx: int, ratio: Number) -> char {
    line_symbols()[(idx + hundredths(ratio)) % 7]
}

/// The symbol of falling noise at an index of a line.
pub open spec fn line_matrix_symbol(idx: int, ratio: Number) -> char {
    noise::matrix_symbols()[(idx + hundredths(ratio)) % 8]
}

fn hundredths_of(ratio: Single) -> (r: usize)
    ensures
        r == hundredths(ratio@),
{
    ratio.times(&Single::from_u64(100)).truncate_to(usize::MAX as u64) as usize
}

fn symbol_in_line(idx: usize, steps: usize) -> (r: char)
    ensures
        r == line_symbols()[(idx + steps) % 7],
{
    let symbols: [char; 7] = ['.', ':', '+', '*', '#', '%', '@'];
    assert(symbols@ =~= line_symbols());
    let i: usize = mixed_index(idx, 1, steps, 1, 0, 0, 7);
    assert(idx * 1 + steps * 1 + 0 * 0 == idx + steps);
    symbols[i]
}

fn matrix_symbol_in_line(idx: usize, steps: usize) -> (r: char)
    ensures
        r == noise::matrix_symbols()[(idx + steps) % 8],
{
    let symbols: [char; 8] = ['0', '1', '|', ':', '.', '+', '*', '#'];
    assert(symbols@ =~= noise::matrix_symbols());
    let i: usize = mixed_index(idx, 1, steps, 1, 0, 0, 8);
    assert(idx * 1 + steps * 1 + 0 * 0 == idx + steps);
    symbols[i]
}

/// What a character of a line of text shows, for an effect and a part of the time.
#[verifier::opaque]
pub open spec fn line_char(text: Seq<char>, idx: usize, ratio: Number, effect: EffectKind) -> char {
    let ch = text[idx as int];
    let count = text.len() as int;
    let symbol = line_symbol(idx as int, ratio);
    match effect {
        EffectKind::Plain => ch,
        EffectKind::Wipe => if single::at_most(cli_frames::part_of(idx as int, count), ratio) {
            ch
        } else {
            ' '
        },
        EffectKind::Sweep => if idx < cli_frames::swept(cli_frames::at_least_one(count), ratio) {
            ch
        } else {
            ' '
        },
        EffectKind::Fade => if single::at_most(single::fraction(6, 10), ratio) {
            ch
        } else {
            ' '
        },
        EffectKind::Coalesce => if single::less(
            single::product(cli_frames::part_of(idx as int, count), single::fraction(5, 10)),
            ratio,
        ) {
            ch
        } else {
            symbol
        },
        EffectKind::Glitch => if text::white(ch) {
            ch
        } else if single::less(
            noise::noise(
                idx as u64,
                single::truncated(
                    single::product(ratio, single::whole(1000)),
                    u64::MAX as int,
                ) as u64,
            ),
            single::product(
                single::difference(Number::Finite(single::unit()), ratio),
                single::fraction(75, 100),
            ),
        ) {
            symbol
        } else {
            ch
        },
        EffectKind::Matrix => if text::white(ch) || noise::matrix_state(0, idx, 1, ratio)
            == MatrixState::Settled {
            ch
        } else {
            line_matrix_symbol(idx as int, ratio)
        },
        EffectKind::Scanline => if single::at_most(single::fraction(85, 100), ratio) || text::white(
            ch,
        ) {
            ch
        } else {
            symbol
        },
        EffectKind::Scatter => {
            let gate = noise::noise(
                (idx as u64).wrapping_add(97),
                (encode_utf8(text).len() as u64).wrapping_add(193),
            );
            if text::white(ch) || single::at_most(gate, ratio) {
                ch
            } else if single::at_most(gate, single::sum(ratio, single::fraction(12, 100))) {
                symbol
            } else {
                ' '
            }
        },
    }
}

/// What a line of text shows, for an effect and a part of the time.
pub open spec fn coalesced_line(text: Seq<char>, ratio: Number, effect: EffectKind) -> Seq<char> {
    Seq::new(text.len(), |idx: int| line_char(text, idx as usize, ratio, effect))
}

fn char_in_line(
    chars: &Vec<char>,
    bytes: usize,
    idx: usize,
    ratio: Single,
    effect: EffectKind,
) -> (r: char)
    requires
        idx < chars@.len(),
        bytes == encode_utf8(chars@).len(),
    ensures
        r == line_char(chars@, idx, ratio@, effect),
{
    proof {
        reveal(line_char);
    }
    let ch: char = chars[idx];
    let count: usize = chars.len();
    let steps: usize = hundredths_of(ratio);
    match effect {
        EffectKind::Plain => ch,
        EffectKind::Wipe => {
            if cli_frames::ratio_of(idx, count).is_at_most(&ratio) {
                ch
            } else {
                ' '
            }
        },
        EffectKind::Sweep => {
            let visible: u64 = ratio.times(&Single::from_u64(count as u64)).ceil_to(
                usize::MAX as u64,
            );
            if (idx as u64) < visible {
                ch
            } else {
                ' '
            }
        },
        EffectKind::Fade => {
            if Single::from_ratio(6, 10).is_at_most(&ratio) {
                ch
            } else {
                ' '
            }
        },
        EffectKind::Coalesce => {
            if cli_frames::ratio_of(idx, count).times(&Single::from_ratio(5, 10)).is_less(&ratio) {
                ch
            } else {
                symbol_in_line(idx, steps)
            }
        },
        EffectKind::Glitch => {
            let seed: u64 = ratio.times(&Single::from_u64(1000)).truncate_to(u64::MAX);
            let level: Single = Single::one().minus(&ratio).times(&Single::from_ratio(75, 100));
            if is_white(ch) {
                ch
            } else if pseudo_random_01(idx as u64, seed).is_less(&level) {
                symbol_in_line(idx, steps)
            } else {
                ch
            }
        },
        EffectKind::Matrix => {
            if is_white(ch) || matrix_cell_state(0, idx, 1, ratio) == MatrixState::Settled {
                ch
            } else {
                matrix_symbol_in_line(idx, steps)
            }
        },
        EffectKind::Scanline => {
            if Single::from_ratio(85, 100).is_at_most(&ratio) || is_white(ch) {
                ch
            } else {
                symbol_in_line(idx, steps)
            }
        },
        EffectKind::Scatter => {
            let gate: Single = pseudo_random_01(
                (idx as u64).wrapping_add(97),
                (bytes as u64).wrapping_add(193),
            );
            if is_white(ch) || gate.is_at_most(&ratio) {
                ch
            } else if gate.is_at_most(&ratio.plus(&Single::from_ratio(12, 100))) {
                symbol_in_line(idx, steps)
            } else {
                ' '
            }
        },
    }
}

/// What a line of text shows, for an effect and a part of the time.
pub fn coalesce_text(text: &str, ratio: Single, effect: EffectKind) -> (r: String)
    ensures
        r@ == coalesced_line(text@, ratio@, effect),
{
    let chars: Vec<char> = chars_of(text);
    let bytes: usize = text.as_bytes().len();
    let ghost goal = coalesced_line(text@, ratio@, effect);
    let mut r: String = String::new();
    let mut idx: usize = 0;
    while idx < chars.len()
        invariant
            idx <= chars@.len(),
            chars@ == text@,
            bytes == encode_utf8(text@).len(),
            goal == coalesced_line(text@, ratio@, effect),
            r@ == goal.take(idx as int),
        decreases chars@.len() - idx,
    {
        r.push(char_in_line(&chars, bytes, idx, ratio, effect));
        idx = idx + 1;
        assert(r@ =~= goal.take(idx as int));
    }
    assert(goal.take(idx as int) =~= goal);
    r
}

/// The parts of the time at which an effect of the live screen is drawn, in hundredths.
pub open spec fn live_steps(effect: EffectKind) -> Seq<int> {
    match effect {
        EffectKind::Plain => seq![100],
        EffectKind::Fade => seq![35, 100],
        EffectKind::Wipe => seq![20, 55, 100],
        EffectKind::Sweep => seq![25, 65, 100],
        EffectKind::Coalesce => seq![12, 38, 72, 100],
        EffectKind::Glitch => seq![8, 16, 32, 55, 100],
        EffectKind::Matrix => seq![8, 24, 45, 72, 100],
        EffectKind::Scanline => seq![12, 35, 68, 100],
        EffectKind::Scatter => seq![10, 28, 58, 100],
    }
}

/// The parts of the time at which an effect of the live screen is drawn.
pub open spec fn live_ratios(effect: EffectKind) -> Seq<Number> {
    live_steps(effect).map_values(|step: int| single::fraction(step, 100))
}

fn push_ratio(list: &mut Vec<Single>, step: u32)
    ensures
        final(list)@.map_values(|ratio: Single| ratio@) == old(list)@.map_values(
            |ratio: Single| ratio@,
        ).push(single::fraction(step as int, 100)),
{
    let ratio: Single = Single::from_ratio(step, 100);
    list.push(ratio);
    assert(list@.map_values(|ratio: Single| ratio@) =~= old(list)@.map_values(
        |ratio: Single| ratio@,
    ).push(ratio@));
}

/// The parts of the time at which an effect of the live screen is drawn.
pub fn live_render_effect_ratios(effect: EffectKind) -> (r: Vec<Single>)
    ensures
        r@.map_values(|ratio: Single| ratio@) == live_ratios(effect),
{
    let mut r: Vec<Single> = Vec::new();
    assert(r@.map_values(|ratio: Single| ratio@) =~= Seq::empty());
    match effect {
        EffectKind::Plain => {},
        EffectKind::Fade => {
            push_ratio(&mut r, 35);
        },
        EffectKind::Wipe => {
            push_ratio(&mut r, 20);
            push_ratio(&mut r, 55);
        },
        EffectKind::Sweep => {
            push_ratio(&mut r, 25);
            push_ratio(&mut r, 65);
        },
        EffectKind::Coalesce => {
            push_ratio(&mut r, 12);
            push_ratio(&mut r, 38);
            push_ratio(&mut r, 72);
        },
        EffectKind::Glitch => {
            push_ratio(&mut r, 8);
            push_ratio(&mut r, 16);
            push_ratio(&mut r, 32);
            push_ratio(&mut r, 55);
        },
        EffectKind::Matrix => {
            push_ratio(&mut r, 8);
            push_ratio(&mut r, 24);
            push_ratio(&mut r, 45);
            push_ratio(&mut r, 72);
        },
        EffectKind::Scanline => {
            push_ratio(&mut r, 12);
            push_ratio(&mut r, 35);
            push_ratio(&mut r, 68);
        },
        EffectKind::Scatter => {
            push_ratio(&mut r, 10);
            push_ratio(&mut r, 28);
            push_ratio(&mut r, 58);
        },
    }
    push_ratio(&mut r, 100);
    assert(r@.map_values(|ratio: Single| ratio@) =~= live_ratios(effect));
    r
}

/// How long a step of an effect of the live screen stays, in milliseconds.
pub open spec fn live_pause(total_ms: int, effect: EffectKind) -> int {
    cli_frames::at_least_one(cli_frames::at_least_one(total_ms) / (live_steps(effect).len() as int))
}

/// How long a step of an effect of the live screen stays, in milliseconds.
pub fn live_render_per_frame_ms(total_ms: u64, effect: EffectKind) -> (r: u64)
    ensures
        r == live_pause(total_ms as int, effect),
{
    let ratios: Vec<Single> = live_render_effect_ratios(effect);
    let ghost view = ratios@.map_values(|ratio: Single| ratio@);
    assert(view.len() == live_steps(effect).len());
    let total: u64 = if total_ms < 1 {
        1
    } else {
        total_ms
    };
    let share: u64 = total / (ratios.len() as u64);
    if share < 1 {
        1
    } else {
        share
    }
}

/// How much an effect adds to the brightness that colours start from.
pub open spec fn brightness_bias(effect: EffectKind) -> Number {
    match effect {
        EffectKind::Glitch => single::fraction(15, 100),
        EffectKind::Matrix => single::negated(single::fraction(8, 100)),
        EffectKind::Scanline => single::fraction(5, 100),
        _ => Number::Finite(0),
    }
}

/// A colour on its way from dark to what it shall be. A colour of the terminal's own stays.
pub open spec fn faded(
    color: DisplayColor,
    ratio: Number,
    effect: EffectKind,
    darken_factor: Number,
) -> DisplayColor {
    match color {
        DisplayColor::Rgb(target) => {
            let factor = single::clamped(single::sum(darken_factor, brightness_bias(effect)));
            let start = theme::mixed(Rgb(0, 0, 0), target, factor);
            DisplayColor::Rgb(theme::mixed(start, target, single::clamped(ratio)))
        },
        _ => color,
    }
}

/// A colour on its way from dark to what it shall be.
pub fn animated_faded_color(
    color: DisplayColor,
    ratio: Single,
    effect: EffectKind,
    darken_factor: Single,
) -> (r: DisplayColor)
    ensures
        r == faded(color, ratio@, effect, darken_factor@),
{
    match color {
        DisplayColor::Rgb(target) => {
            let bias: Single = match effect {
                EffectKind::Glitch => Single::from_ratio(15, 100),
                EffectKind::Matrix => Single::from_ratio(8, 100).negate(),
                EffectKind::Scanline => Single::from_ratio(5, 100),
                _ => Single::zero(),
            };
            let start: Rgb = darken(target, darken_factor.plus(&bias).clamp_to_one());
            DisplayColor::Rgb(lerp_rgb(start, target, ratio.clamp_to_one()))
        },
        _ => color,
    }
}

/// In the end a fading colour is what it shall be.
pub proof fn law_fading_ends(color: DisplayColor, effect: EffectKind, darken_factor: Number)
    ensures
        faded(color, Number::Finite(single::unit()), effect, darken_factor) == color,
{
    vstd::arithmetic::power2::lemma_pow2_pos(149);
    if let DisplayColor::Rgb(target) = color {
        let factor = single::clamped(single::sum(darken_factor, brightness_bias(effect)));
        theme::law_mix_ends(theme::mixed(Rgb(0, 0, 0), target, factor), target);
    }
}

} // verus!
