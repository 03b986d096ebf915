//! Effects end: when all the time of an effect has passed, text shows as it is.
use crate::cli_frames;
use crate::effects;
use crate::model::EffectKind;
use crate::noise;
use crate::noise::MatrixState;
use crate::rounding;
use crate::single;
use crate::single::Number;
use crate::text;
use vstd::arithmetic::power2::*;
use vstd::prelude::*;

verus! {

/// The end of the time of an effect.
pub open spec fn the_end() -> Number {
    Number::Finite(single::unit())
}

/// Whether a number is finite and between zero and one.
spec fn small(a: Number) -> bool {
    a is Finite && 0 <= a->0 <= single::unit()
}

proof fn lemma_units()
    ensures
        single::unit() == pow2(149),
        pow2(149) == 2 * pow2(148),
        pow2(149) == 128 * pow2(142),
        pow2(149) == 256 * pow2(141),
        pow2(149) == 1024 * pow2(139),
        pow2(149) == 32768 * pow2(134),
        pow2(139) == 32 * pow2(134),
        pow2(142) == 2 * pow2(141),
        pow2(166) == 131072 * pow2(149),
        pow2(134) > 0,
        pow2(24) == 0x100_0000,
{
    lemma2_to64();
    lemma_pow2_adds(148, 1);
    lemma_pow2_adds(142, 7);
    lemma_pow2_adds(141, 8);
    lemma_pow2_adds(139, 10);
    lemma_pow2_adds(134, 15);
    lemma_pow2_adds(134, 5);
    lemma_pow2_adds(141, 1);
    lemma_pow2_adds(149, 17);
    lemma_pow2_pos(134);
}

proof fn lemma_fraction_small(n: int, d: int)
    requires
        0 <= n <= d,
        d > 0,
    ensures
        small(single::fraction(n, d)),
{
    lemma_units();
    let u = single::unit();
    assert(0 <= n * u <= d * (1 * pow2(149))) by (nonlinear_arith)
        requires
            0 <= n <= d,
            u == pow2(149),
            u > 0,
    ;
    single::lemma_nearest_at_most(n * u, d, 1, 149);
}

proof fn lemma_quotient_small(n: int, d: int)
    requires
        0 <= n <= d,
        0 < d < 0x100_0000,
    ensures
        small(single::quotient(single::whole(n), single::whole(d))),
{
    lemma_units();
    let u = single::unit();
    single::lemma_whole_exact(n);
    single::lemma_whole_exact(d);
    assert(d * u > 0) by (nonlinear_arith)
        requires
            d > 0,
            u > 0,
    ;
    assert(0 <= (n * u) * u <= (d * u) * (1 * pow2(149))) by (nonlinear_arith)
        requires
            0 <= n <= d,
            u == pow2(149),
            u > 0,
    ;
    single::lemma_nearest_at_most((n * u) * u, d * u, 1, 149);
}

proof fn lemma_product_small(a: Number, b: Number)
    requires
        small(a),
        small(b),
    ensures
        small(single::product(a, b)),
{
    lemma_units();
    let u = single::unit();
    let x = a->0;
    let y = b->0;
    assert(0 <= x * y <= u * (1 * pow2(149))) by (nonlinear_arith)
        requires
            0 <= x <= u,
            0 <= y <= u,
            u == pow2(149),
    ;
    single::lemma_nearest_at_most(x * y, u, 1, 149);
}

proof fn lemma_noise_small(a: u64, b: u64)
    ensures
        small(noise::noise(a, b)),
{
    lemma_quotient_small((noise::scrambled(a, b) % 10_000) as int, 10_000);
}

proof fn lemma_wipe_ends(row: int, col: int, total_rows: int)
    requires
        0 <= row < total_rows <= 65535,
        0 <= col <= 65535,
    ensures
        single::at_most(effects::wipe_gate(row, col, total_rows), the_end()),
{
    lemma_units();
    let u = single::unit();
    let down = cli_frames::row_weight(row, total_rows);
    if total_rows > 1 {
        lemma_quotient_small(row, total_rows - 1);
    }
    lemma_fraction_small(55, 100);
    lemma_fraction_small(45, 100);
    lemma_quotient_small(col, col + 8);
    let across = single::quotient(single::whole(col), single::whole(col + 8));
    lemma_product_small(down, single::fraction(55, 100));
    lemma_product_small(across, single::fraction(45, 100));
    let a = single::product(down, single::fraction(55, 100))->0;
    let b = single::product(across, single::fraction(45, 100))->0;
    single::lemma_nearest_at_most(a + b, 1, 2, 149);
}

proof fn lemma_sweep_ends(col: int)
    requires
        0 <= col <= 65535,
    ensures
        single::at_most(effects::sweep_gate(col), the_end()),
{
    lemma_units();
    let u = single::unit();
    single::lemma_whole_exact(col);
    single::lemma_whole_exact(col + 1);
    assert(1 * u == u);
    single::lemma_sum_exact(col, 1);
    lemma_quotient_small(col + 1, col + 8);
}

proof fn lemma_coalesce_ends(row: int, col: int)
    requires
        0 <= row,
        0 <= col,
    ensures
        single::at_most(
            single::fraction(98, 100),
            effects::coalesced(row, col, the_end()),
        ),
{
    lemma_units();
    let u = single::unit();
    let w = pow2(134) as int;
    let s = (row * 17 + col * 7) % 100;
    single::lemma_whole_exact(s);
    single::lemma_whole_exact(100);
    let appear = single::quotient(single::whole(s), single::whole(100));
    assert(0 <= (s * u) * u <= (100 * u) * (127 * pow2(142))) by (nonlinear_arith)
        requires
            0 <= s <= 99,
            u == 128 * pow2(142),
            u > 0,
    ;
    single::lemma_nearest_at_most((s * u) * u, 100 * u, 127, 142);
    let x = appear->0;
    lemma_pow2_adds(141, 8);
    single::lemma_nearest_at_most(55 * u, 100, 141, 141);
    let f = single::fraction(55, 100)->0;
    assert(0 <= x * f <= u * (17907 * pow2(134))) by (nonlinear_arith)
        requires
            0 <= x <= 127 * pow2(142),
            0 <= f <= 141 * pow2(141),
            u == 128 * pow2(142),
            u == 256 * pow2(141),
            u == 32768 * pow2(134),
            pow2(134) > 0,
    {
        assert(pow2(142) == 256 * pow2(134));
        assert(pow2(141) == 128 * pow2(134));
        assert(x * f <= (127 * pow2(142)) * (141 * pow2(141)));
    }
    single::lemma_nearest_at_most(x * f, u, 17907, 134);
    let p = single::product(appear, single::fraction(55, 100))->0;
    single::lemma_nearest_at_least(u - p, 1, 14861, 134);
    single::lemma_nearest_at_most(u - p, 1, 1, 149);
    let rest = single::difference(the_end(), Number::Finite(p))->0;
    single::lemma_nearest_at_most(45 * u, 100, 461, 139);
    single::lemma_fraction_positive(45, 100);
    let g = single::fraction(45, 100)->0;
    assert(rest * u >= g * (1 * pow2(149))) by (nonlinear_arith)
        requires
            rest >= 14861 * pow2(134),
            g <= 461 * pow2(139),
            pow2(139) == 32 * pow2(134),
            u == pow2(149),
            u > 0,
    {
        assert(rest >= g);
    }
    single::lemma_nearest_at_least(rest * u, g, 1, 149);
    lemma_fraction_small(98, 100);
}

proof fn lemma_cell_glitch_ends(row: usize, col: usize, frame: usize)
    ensures
        !single::less(
            effects::glitch_noise(row, col, frame),
            cli_frames::glitch_level(the_end()),
        ),
{
    lemma_glitch_ends(
        (row as u64).wrapping_add((frame as u64).wrapping_mul(3)),
        (col as u64).wrapping_add((frame as u64).wrapping_mul(7)),
    );
}

proof fn lemma_glitch_ends(a: u64, b: u64)
    ensures
        !single::less(noise::noise(a, b), cli_frames::glitch_level(the_end())),
{
    lemma_units();
    let u = single::unit();
    lemma_noise_small(a, b);
    single::lemma_nearest_exact(0, 1, 0, 149);
    single::lemma_nearest_exact(0, u, 0, 149);
    lemma_fraction_small(75, 100);
    let f = single::fraction(75, 100)->0;
    assert(0 * f == 0);
}

/// Rounding a number of less than 2 to the power of 17 moves it by at most a 256th.
proof fn lemma_near(x: int)
    requires
        0 <= x < 131072 * single::unit(),
    ensures
        single::nearest(x, 1) is Finite,
        single::nearest(x, 1)->0 >= 0,
        x - pow2(141) <= single::nearest(x, 1)->0 <= x + pow2(141),
{
    lemma_units();
    rounding::lemma_round_close(x, 1, 142);
    single::lemma_nearest_at_most(x, 1, 131072, 149);
}

proof fn lemma_matrix_ends(row: usize, col: usize, total_rows: usize)
    requires
        row < total_rows <= 65535,
    ensures
        noise::matrix_state(row, col, total_rows, the_end()) == MatrixState::Settled,
{
    lemma_units();
    let u = single::unit();
    let e = pow2(141) as int;
    lemma_noise_small(col as u64, 13);
    lemma_noise_small(col as u64, 29);
    single::lemma_whole_exact(6);
    let n = noise::noise(col as u64, 13)->0;
    assert(0 <= n * (6 * u) <= u * (6 * pow2(149))) by (nonlinear_arith)
        requires
            0 <= n <= u,
            u == pow2(149),
    ;
    single::lemma_nearest_at_most(n * (6 * u), u, 6, 149);
    let offset = single::product(noise::noise(col as u64, 13), single::whole(6))->0;
    single::lemma_nearest_at_most(35 * u, 10, 4, 149);
    single::lemma_nearest_at_most(45 * u, 10, 5, 149);
    let f = single::fraction(45, 10)->0;
    let m = noise::noise(col as u64, 29)->0;
    assert(0 <= m * f <= u * (5 * pow2(149))) by (nonlinear_arith)
        requires
            0 <= m <= u,
            0 <= f <= 5 * pow2(149),
            u == pow2(149),
    ;
    single::lemma_nearest_at_most(m * f, u, 5, 149);
    let start = single::fraction(35, 10)->0;
    let more = single::product(noise::noise(col as u64, 29), single::fraction(45, 10))->0;
    single::lemma_nearest_at_most(start + more, 1, 9, 149);
    let trail = noise::trail_of(col)->0;
    let height = total_rows as int * u;
    single::lemma_whole_exact(total_rows as int);
    single::lemma_whole_exact(row as int);
    assert(0 <= height <= 65535 * u) by (nonlinear_arith)
        requires
            0 <= total_rows <= 65535,
            height == total_rows as int * u,
            u > 0,
    ;
    let above = row as int * u;
    assert(0 <= above <= height - u) by (nonlinear_arith)
        requires
            0 <= row < total_rows,
            height == total_rows as int * u,
            above == row as int * u,
            u > 0,
    ;
    lemma_near(height + trail);
    let first = single::sum(single::whole(total_rows as int), noise::trail_of(col))->0;
    lemma_near(first + 6 * u);
    let span = single::nearest(first + 6 * u, 1)->0;
    let scaled = u * span;
    assert(scaled < u * pow2(166)) by (nonlinear_arith)
        requires
            span < pow2(166),
            u > 0,
            scaled == u * span,
    ;
    assert(scaled >= 0) by (nonlinear_arith)
        requires
            span >= 0,
            u > 0,
            scaled == u * span,
    ;
    rounding::lemma_round_close(scaled, u, 142);
    assert(scaled <= u * (131072 * pow2(149))) by (nonlinear_arith)
        requires
            span < pow2(166),
            pow2(166) == 131072 * pow2(149),
            u > 0,
            scaled == u * span,
    ;
    single::lemma_nearest_at_most(scaled, u, 131072, 149);
    let whole = single::nearest(scaled, u)->0;
    assert(span - e <= whole <= span + e) by (nonlinear_arith)
        requires
            -(u * pow2(142)) <= 2 * (u * whole - scaled) <= u * pow2(142),
            scaled == u * span,
            pow2(142) == 2 * e,
            u > 0,
    {
        assert(2 * (u * whole - u * span) == u * (2 * (whole - span)));
    }
    lemma_near(whole - offset);
    let head = single::nearest(whole - offset, 1)->0;
    lemma_near(head - above);
    assert(single::clamped(the_end()) == the_end());
}

proof fn lemma_scan_ends(row: int, total_rows: int)
    requires
        0 <= row < total_rows <= 65535,
    ensures
        cli_frames::scan_passed(cli_frames::scan_distance(row, total_rows, the_end())),
{
    lemma_units();
    let u = single::unit();
    let h = pow2(148) as int;
    single::lemma_whole_exact(total_rows);
    single::lemma_whole_exact(row);
    single::lemma_nearest_exact(15 * u, 10, 3, 148);
    assert(total_rows * u + 3 * h == (2 * total_rows + 3) * h) by (nonlinear_arith)
        requires
            u == 2 * h,
    ;
    single::lemma_nearest_exact(total_rows * u + 3 * h, 1, 2 * total_rows + 3, 148);
    let x = (2 * total_rows + 3) * h;
    single::lemma_nearest_exact(u * x, u, 2 * total_rows + 3, 148);
    assert(x - row * u == (2 * total_rows + 3 - 2 * row) * h) by (nonlinear_arith)
        requires
            x == (2 * total_rows + 3) * h,
            u == 2 * h,
    ;
    assert(-(row * u) == -row * u) by (nonlinear_arith);
    single::lemma_nearest_exact(x - row * u, 1, 2 * total_rows + 3 - 2 * row, 148);
    assert((2 * total_rows + 3 - 2 * row) * h > 3 * h) by (nonlinear_arith)
        requires
            row < total_rows,
            h > 0,
    ;
}

proof fn lemma_scatter_ends(row: usize, col: usize)
    ensures
        single::at_most(effects::scatter_gate(row, col), the_end()),
{
    lemma_noise_small((row as u64).wrapping_add(97), (col as u64).wrapping_add(193));
}

/// At the end of an effect on the live screen a cell shows its text, on a terminal of any size.
pub proof fn law_live_text_settles(
    text: Seq<char>,
    row: usize,
    col: usize,
    total_rows: usize,
    frame: usize,
    color_fade: bool,
    effect: EffectKind,
)
    requires
        row < total_rows <= 65535,
        col <= 65535,
    ensures
        effects::live_text(text, row, col, total_rows, frame, the_end(), color_fade, effect)
            == text,
{
    reveal(effects::live_text);
    lemma_wipe_ends(row as int, col as int, total_rows as int);
    lemma_sweep_ends(col as int);
    lemma_fraction_small(6, 10);
    lemma_coalesce_ends(row as int, col as int);
    lemma_cell_glitch_ends(row, col, frame);
    lemma_matrix_ends(row, col, total_rows);
    lemma_scan_ends(row as int, total_rows as int);
    lemma_scatter_ends(row, col);
}

/// At the end of the reveal of a screen a cell shows its text, on a terminal of any size; a glitch
/// may show another blank in place of a blank.
pub proof fn law_reveal_text_settles(
    text: Seq<char>,
    row: usize,
    col: usize,
    total_rows: usize,
    frame: usize,
    effect: EffectKind,
)
    requires
        row < total_rows <= 65535,
        col <= 65535,
    ensures
        ({
            let shown = effects::reveal_text(
                text,
                row,
                col,
                total_rows,
                frame,
                the_end(),
                effect,
            );
            shown == text || (effect == EffectKind::Glitch && text::blank(text) && text::blank(
                shown,
            ))
        }),
{
    reveal(effects::reveal_text);
    lemma_wipe_ends(row as int, col as int, total_rows as int);
    lemma_sweep_ends(col as int);
    lemma_coalesce_ends(row as int, col as int);
    lemma_cell_glitch_ends(row, col, frame);
    lemma_matrix_ends(row, col, total_rows);
    lemma_scan_ends(row as int, total_rows as int);
    lemma_scatter_ends(row, col);
    assert(text::white(' '));
}

proof fn lemma_line_sweep_ends(count: int)
    requires
        0 < count <= 65535,
    ensures
        cli_frames::swept(count, the_end()) == count,
{
    lemma_units();
    let u = single::unit();
    single::lemma_whole_exact(count);
    assert(u * (count * u) == u * (count * pow2(149)));
    single::lemma_nearest_exact(u * (count * u), u, count, 149);
    assert(count * u > 0) by (nonlinear_arith)
        requires
            u > 0,
            count > 0,
    ;
    vstd::arithmetic::div_mod::lemma_fundamental_div_mod_converse(
        count * u + u - 1,
        u,
        count,
        u - 1,
    );
}

proof fn lemma_line_coalesce_ends(idx: int, count: int)
    requires
        0 <= idx < count <= 65535,
    ensures
        single::less(
            single::product(cli_frames::part_of(idx, count), single::fraction(5, 10)),
            the_end(),
        ),
{
    lemma_units();
    let u = single::unit();
    lemma_quotient_small(idx, count);
    let x = cli_frames::part_of(idx, count)->0;
    single::lemma_nearest_exact(5 * u, 10, 1, 148);
    assert(0 <= x * pow2(148) <= u * (1 * pow2(148))) by (nonlinear_arith)
        requires
            0 <= x <= u,
    ;
    single::lemma_nearest_at_most(x * pow2(148), u, 1, 148);
}

proof fn lemma_line_glitch_ends(a: u64, b: u64)
    ensures
        !single::less(
            noise::noise(a, b),
            single::product(
                single::difference(Number::Finite(single::unit()), the_end()),
                single::fraction(75, 100),
            ),
        ),
{
    lemma_units();
    lemma_noise_small(a, b);
    single::lemma_nearest_exact(0, 1, 0, 149);
    single::lemma_nearest_exact(0, single::unit(), 0, 149);
    lemma_fraction_small(75, 100);
    let f = single::fraction(75, 100)->0;
    assert(0 * f == 0);
}

proof fn lemma_line_char_settles(text: Seq<char>, idx: usize, effect: EffectKind)
    requires
        idx < text.len() <= 65535,
    ensures
        effects::line_char(text, idx, the_end(), effect) == text[idx as int],
{
    let count = text.len() as int;
    lemma_quotient_small(idx as int, count);
    lemma_line_sweep_ends(count);
    lemma_fraction_small(6, 10);
    lemma_fraction_small(85, 100);
    lemma_line_coalesce_ends(idx as int, count);
    lemma_line_glitch_ends(
        idx as u64,
        single::truncated(
            single::product(the_end(), single::whole(1000)),
            u64::MAX as int,
        ) as u64,
    );
    lemma_matrix_ends(0, idx, 1);
    lemma_noise_small(
        (idx as u64).wrapping_add(97),
        (vstd::utf8::encode_utf8(text).len() as u64).wrapping_add(193),
    );
    reveal(effects::line_char);
}

/// At the end of an effect a line of text shows as it is, if it is not longer than a terminal can
/// be wide.
pub proof fn law_line_settles(text: Seq<char>, effect: EffectKind)
    requires
        text.len() <= 65535,
    ensures
        effects::coalesced_line(text, the_end(), effect) == text,
{
    let shown = effects::coalesced_line(text, the_end(), effect);
    assert forall|idx: int| 0 <= idx < text.len() implies shown[idx] == text[idx] by {
        lemma_line_char_settles(text, idx as usize, effect);
    }
    assert(shown =~= text);
}

proof fn lemma_last_frame(total_frames: usize)
    requires
        total_frames >= 1,
    ensures
        cli_frames::part_of(total_frames as int, total_frames as int) == the_end(),
{
    lemma_units();
    let u = single::unit();
    let n = total_frames as int;
    lemma2_to64();
    lemma_pow2_adds(64, 149);
    assert(0 <= n * u <= 1 * (1 * pow2(213))) by (nonlinear_arith)
        requires
            0 <= n <= pow2(64),
            u == pow2(149),
            u > 0,
            pow2(213) == pow2(64) * pow2(149),
    ;
    single::lemma_nearest_at_most(n * u, 1, 1, 213);
    single::lemma_whole_positive(n);
    let w = single::whole(n)->0;
    single::lemma_nearest_exact(w * u, w, 1, 149);
}

proof fn lemma_frame_wipe_ends(line: Seq<char>, row: int, total_rows: int, col: int)
    requires
        0 <= row < total_rows <= 65535,
        0 <= col < line.len() <= 65535,
    ensures
        single::at_most(cli_frames::wipe_threshold(line, row, total_rows, col), the_end()),
{
    lemma_units();
    let u = single::unit();
    let p = pow2(124) as int;
    lemma2_to64();
    lemma_pow2_adds(124, 1);
    lemma_pow2_adds(124, 9);
    lemma_pow2_adds(124, 25);
    lemma_pow2_pos(124);
    assert(pow2(125) == 2 * p);
    assert(pow2(133) == 512 * p);
    assert(u == 33554432 * p);
    let down = cli_frames::row_weight(row, total_rows);
    if total_rows > 1 {
        lemma_quotient_small(row, total_rows - 1);
    }
    single::lemma_nearest_at_most(55 * u, 100, 9227469, 125);
    single::lemma_nearest_at_most(45 * u, 100, 15099495, 124);
    let f = single::fraction(55, 100)->0;
    let g = single::fraction(45, 100)->0;
    let y = down->0;
    assert(0 <= y * f <= u * (9227469 * pow2(125))) by (nonlinear_arith)
        requires
            0 <= y <= u,
            0 <= f <= 9227469 * pow2(125),
    ;
    single::lemma_nearest_at_most(y * f, u, 9227469, 125);
    let count = line.len() as int;
    single::lemma_whole_exact(col);
    single::lemma_whole_exact(count);
    assert(count * u > 0) by (nonlinear_arith)
        requires
            count > 0,
            u > 0,
    ;
    assert(0 <= (col * u) * u <= (count * u) * (65535 * pow2(133))) by (nonlinear_arith)
        requires
            0 <= col <= count - 1,
            count <= 65535,
            u == 65536 * pow2(133),
            u > 0,
    {
        assert(col * 65536 <= count * 65535);
        assert((col * u) * u == ((col * 65536) * u) * pow2(133));
        assert((count * u) * (65535 * pow2(133)) == ((count * 65535) * u) * pow2(133));
    }
    single::lemma_nearest_at_most((col * u) * u, count * u, 65535, 133);
    let x = cli_frames::part_of(col, count)->0;
    assert(0 <= x * g <= u * (15099494 * pow2(124))) by (nonlinear_arith)
        requires
            0 <= x <= 65535 * pow2(133),
            0 <= g <= 15099495 * pow2(124),
            pow2(133) == 512 * pow2(124),
            u == 33554432 * pow2(124),
            pow2(124) > 0,
    {
        assert(x * g <= (65535 * pow2(133)) * (15099495 * pow2(124)));
        assert((65535 * pow2(133)) * (15099495 * pow2(124)) == (65535 * 512 * 15099495) * (pow2(124)
            * pow2(124)));
        assert(u * (15099494 * pow2(124)) == (33554432 * 15099494) * (pow2(124) * pow2(124)));
    }
    single::lemma_nearest_at_most(x * g, u, 15099494, 124);
    let a = single::product(down, single::fraction(55, 100))->0;
    let b = single::product(cli_frames::part_of(col, count), single::fraction(45, 100))->0;
    single::lemma_nearest_at_most(a + b, 1, 1, 149);
}

proof fn lemma_frame_coalesce_ends(line: Seq<char>, row: usize, col: usize)
    requires
        col < line.len() <= 65535,
    ensures
        single::at_most(
            cli_frames::coalesce_threshold(line, row, col),
            cli_frames::eased(the_end()),
        ),
{
    lemma_units();
    let u = single::unit();
    lemma_quotient_small(col as int, line.len() as int);
    lemma_noise_small(row as u64, col as u64);
    single::lemma_nearest_at_most(45 * u, 100, 1, 148);
    single::lemma_nearest_at_most(35 * u, 100, 1, 148);
    let x = cli_frames::part_of(col as int, line.len() as int)->0;
    let y = noise::noise(row as u64, col as u64)->0;
    let f = single::fraction(45, 100)->0;
    let g = single::fraction(35, 100)->0;
    assert(0 <= x * f <= u * (1 * pow2(148))) by (nonlinear_arith)
        requires
            0 <= x <= u,
            0 <= f <= pow2(148),
    ;
    assert(0 <= y * g <= u * (1 * pow2(148))) by (nonlinear_arith)
        requires
            0 <= y <= u,
            0 <= g <= pow2(148),
    ;
    single::lemma_nearest_at_most(x * f, u, 1, 148);
    single::lemma_nearest_at_most(y * g, u, 1, 148);
    let a = single::nearest(x * f, u)->0;
    let b = single::nearest(y * g, u)->0;
    single::lemma_nearest_at_most(a + b, 1, 1, 149);
    single::lemma_nearest_exact(0, 1, 0, 149);
    single::lemma_nearest_exact(0, u, 0, 149);
    single::lemma_nearest_exact(u, 1, 1, 149);
    let nothing = Number::Finite(0);
    assert(single::difference(the_end(), the_end()) == nothing);
    assert(0int * 0int == 0) by (nonlinear_arith);
    assert(single::product(nothing, nothing) == nothing);
    assert(single::difference(the_end(), nothing) == the_end());
}

/// The last frame of an animation of a line shows the line as it is, whatever the effect, if it is
/// neither longer nor lower than a terminal can be.
pub proof fn law_last_frame_shows_the_line(
    line: Seq<char>,
    row: usize,
    total_rows: usize,
    total_frames: usize,
    effect: EffectKind,
)
    requires
        total_frames >= 1,
        row < total_rows <= 65535,
        line.len() <= 65535,
    ensures
        cli_frames::cli_frame(line, total_frames, row, total_rows, total_frames, effect) == line,
{
    let shown = cli_frames::cli_frame(
        line,
        total_frames,
        row,
        total_rows,
        total_frames,
        effect,
    );
    reveal(cli_frames::cli_frame);
    lemma_last_frame(total_frames);
    match effect {
        EffectKind::Wipe => {
            assert forall|col: int| 0 <= col < line.len() implies shown[col] == line[col] by {
                lemma_frame_wipe_ends(line, row as int, total_rows as int, col);
            }
        },
        EffectKind::Sweep => {
            if line.len() > 0 {
                lemma_line_sweep_ends(line.len() as int);
            }
        },
        EffectKind::Coalesce => {
            assert forall|col: int| 0 <= col < line.len() implies shown[col] == line[col] by {
                lemma_frame_coalesce_ends(line, row, col as usize);
            }
        },
        EffectKind::Glitch => {
            assert forall|col: int| 0 <= col < line.len() implies shown[col] == line[col] by {
                lemma_glitch_ends((row as u64).wrapping_add(total_frames as u64), col as u64);
            }
        },
        EffectKind::Matrix => {
            assert forall|col: int| 0 <= col < line.len() implies shown[col] == line[col] by {
                lemma_matrix_ends(row, col as usize, total_rows);
            }
        },
        EffectKind::Scanline => {
            lemma_scan_ends(row as int, total_rows as int);
        },
        _ => {},
    }
    assert(shown =~= line);
}

} // verus!
