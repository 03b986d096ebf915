//! Deterministic noise and the symbols that animations show in place of text.
use crate::single;
use crate::single::{Number, Single};
use vstd::prelude::*;

verus! {

/// Two numbers scrambled into one.
pub open spec fn scrambled(a: u64, b: u64) -> u64 {
    let x = a.wrapping_mul(0x9E37_79B9_7F4A_7C15) ^ b.wrapping_mul(0xBF58_476D_1CE4_E5B9);
    let y = (x ^ (x >> 30)).wrapping_mul(0xBF58_476D_1CE4_E5B9);
    let z = (y ^ (y >> 27)).wrapping_mul(0x94D0_49BB_1331_11EB);
    z ^ (z >> 31)
}

/// A number from zero up to one that two numbers decide, in steps of a ten-thousandth.
pub open spec fn noise(a: u64, b: u64) -> Number {
    single::quotient(single::whole((scrambled(a, b) % 10_000) as int), single::whole(10_000))
}

/// A number from zero up to one that two numbers decide, in steps of a ten-thousandth.
pub fn pseudo_random_01(a: u64, b: u64) -> (r: Single)
    ensures
        r@ == noise(a, b),
{
    let x: u64 = a.wrapping_mul(0x9E37_79B9_7F4A_7C15) ^ b.wrapping_mul(0xBF58_476D_1CE4_E5B9);
    let y: u64 = (x ^ (x >> 30)).wrapping_mul(0xBF58_476D_1CE4_E5B9);
    let z: u64 = (y ^ (y >> 27)).wrapping_mul(0x94D0_49BB_1331_11EB);
    let bits: u64 = z ^ (z >> 31);
    proof {
        single::lemma_whole_positive(10_000);
    }
    Single::from_u64(bits % 10_000).over(&Single::from_u64(10_000))
}

/// How far the falling noise has come in a cell.
#[derive(Debug, Clone, Copy, PartialEq, Eq, Structural)]
pub enum MatrixState {
    /// The noise has not reached the cell.
    Ahead,
    /// The noise passes through the cell.
    Trail,
    /// The noise has passed, and the text shows.
    Settled,
}

/// The length of the noise that falls in a column.
pub open spec fn trail_of(col: usize) -> Number {
    single::sum(
        single::fraction(35, 10),
        single::product(noise(col as u64, 29), single::fraction(45, 10)),
    )
}

/// How far the head of the noise of a column is below a row.
pub open spec fn head_distance(row: usize, col: usize, total_rows: usize, progress: Number) -> Number {
    let offset = single::product(noise(col as u64, 13), single::whole(6));
    let span = single::sum(
        single::sum(single::whole(total_rows as int), trail_of(col)),
        single::whole(6),
    );
    let head = single::difference(single::product(single::clamped(progress), span), offset);
    single::difference(head, single::whole(row as int))
}

/// How far the falling noise has come in a cell.
pub open spec fn matrix_state(row: usize, col: usize, total_rows: usize, progress: Number)
    -> MatrixState {
    let distance = head_distance(row, col, total_rows, progress);
    if single::less(distance, Number::Finite(0)) {
        MatrixState::Ahead
    } else if single::at_most(distance, trail_of(col)) {
        MatrixState::Trail
    } else {
        MatrixState::Settled
    }
}

/// How far the falling noise has come in a cell.
pub fn matrix_cell_state(row: usize, col: usize, total_rows: usize, progress: Single) -> (r:
    MatrixState)
    ensures
        r == matrix_state(row, col, total_rows, progress@),
{
    let six: Single = Single::from_u64(6);
    let offset: Single = pseudo_random_01(col as u64, 13).times(&six);
    let trail: Single = Single::from_ratio(35, 10).plus(
        &pseudo_random_01(col as u64, 29).times(&Single::from_ratio(45, 10)),
    );
    let span: Single = Single::from_u64(total_rows as u64).plus(&trail).plus(&six);
    let head: Single = progress.clamp_to_one().times(&span).minus(&offset);
    let distance: Single = head.minus(&Single::from_u64(row as u64));
    if distance.is_less(&Single::zero()) {
        MatrixState::Ahead
    } else if distance.is_at_most(&trail) {
        MatrixState::Trail
    } else {
        MatrixState::Settled
    }
}

/// `p * x + q * y + r * z` divided by `n`: the remainder.
pub fn mixed_index(p: usize, x: u8, q: usize, y: u8, r: usize, z: u8, n: u8) -> (i: usize)
    requires
        n > 0,
    ensures
        i == (p * x + q * y + r * z) % (n as int),
        i < n,
{
    let a: u128 = p as u128;
    let b: u128 = q as u128;
    let c: u128 = r as u128;
    proof {
        assert(p * x <= 0xffff_ffff_ffff_ffff * 255) by (nonlinear_arith)
            requires
                0 <= p <= 0xffff_ffff_ffff_ffff,
                0 <= x <= 255,
        ;
        assert(q * y <= 0xffff_ffff_ffff_ffff * 255) by (nonlinear_arith)
            requires
                0 <= q <= 0xffff_ffff_ffff_ffff,
                0 <= y <= 255,
        ;
        assert(r * z <= 0xffff_ffff_ffff_ffff * 255) by (nonlinear_arith)
            requires
                0 <= r <= 0xffff_ffff_ffff_ffff,
                0 <= z <= 255,
        ;
        assert(p * x >= 0) by (nonlinear_arith)
            requires
                p >= 0,
                x >= 0,
        ;
        assert(q * y >= 0) by (nonlinear_arith)
            requires
                q >= 0,
                y >= 0,
        ;
        assert(r * z >= 0) by (nonlinear_arith)
            requires
                r >= 0,
                z >= 0,
        ;
    }
    let sum: u128 = a * (x as u128) + b * (y as u128) + c * (z as u128);
    (sum % (n as u128)) as usize
}

/// The symbols of falling noise.
pub open spec fn matrix_symbols() -> Seq<char> {
    seq!['0', '1', '|', ':', '.', '+', '*', '#']
}

/// The symbol of falling noise in a cell of a frame.
pub open spec fn matrix_symbol(row: usize, col: usize, frame: usize) -> char {
    matrix_symbols()[(row * 19 + col * 11 + frame * 5) % 8]
}

/// The symbol of falling noise in a cell of a frame.
pub fn matrix_noise_symbol(row: usize, col: usize, frame: usize) -> (r: char)
    ensures
        r == matrix_symbol(row, col, frame),
{
    let symbols: [char; 8] = ['0', '1', '|', ':', '.', '+', '*', '#'];
    assert(symbols@ =~= matrix_symbols());
    symbols[mixed_index(row, 19, col, 11, frame, 5, 8)]
}

/// The symbols of noise on a screen.
pub open spec fn reveal_symbols() -> Seq<char> {
    seq!['.', ':', '+', '*', '#', '%', '@', '=']
}

/// The symbol of noise in a cell of a frame.
pub open spec fn reveal_symbol(row: usize, col: usize, frame: usize) -> char {
    reveal_symbols()[(row + col + frame) % 8]
}

/// The character of noise in a cell of a frame.
pub fn reveal_noise_char(row: usize, col: usize, frame: usize) -> (r: char)
    ensures
        r == reveal_symbol(row, col, frame),
{
    let symbols: [char; 8] = ['.', ':', '+', '*', '#', '%', '@', '='];
    assert(symbols@ =~= reveal_symbols());
    let i: usize = mixed_index(row, 1, col, 1, frame, 1, 8);
    assert(row * 1 + col * 1 + frame * 1 == row + col + frame);
    symbols[i]
}

/// A text of one character.
pub fn one_char(ch: char) -> (r: String)
    ensures
        r@ == seq![ch],
{
    let mut r: String = String::new();
    r.push(ch);
    assert(r@ =~= seq![ch]);
    r
}

/// The text of noise in a cell of a frame.
pub fn reveal_noise_symbol(row: usize, col: usize, frame: usize) -> (r: String)
    ensures
        r@ == seq![reveal_symbol(row, col, frame)],
{
    one_char(reveal_noise_char(row, col, frame))
}

/// The text of falling noise in a cell of a frame.
pub fn reveal_matrix_symbol(row: usize, col: usize, frame: usize) -> (r: String)
    ensures
        r@ == seq![matrix_symbol(row, col, frame)],
{
    one_char(matrix_noise_symbol(row, col, frame))
}

} // verus!
