//! Per-step linear color interpolation between two vertices.
//!
//! A run of n pixel steps between two endpoints advances the blend by
//! an exact step size of 1/(r - 1) per step, where r is the rounded
//! span along the stepping axis, saturated at one whole step for spans
//! of one pixel or less.

use vstd::prelude::*;
use crate::color::Color;
use crate::geom::{Vertex, COORD_ONE};
use crate::rat::{rat_round, lemma_rat_round_bounds, lemma_rat_round_int};

verus! {

/// An exact step size num/den: the fraction of the color blend that
/// one pixel step advances.
#[derive(Clone, Copy, Debug, PartialEq, Eq, Structural)]
pub struct StepSize {
    pub num: i64,
    pub den: i64,
}

impl StepSize {
    pub open spec fn wf(self) -> bool {
        (self.num == 1 || self.num == -1) && 1 <= self.den <= 0x20000
    }
}

/// The rounded pixel span of a displacement of `delta` units.
pub open spec fn span_of(delta: int) -> int {
    rat_round(if delta >= 0 { delta } else { -delta }, COORD_ONE as int)
}

/// Numerator of the step size over a span of `delta` units: negative
/// only in the degenerate zero-span case, where the reciprocal of
/// (span - 1) steps is min'd down to -1 and never actually advances.
pub open spec fn step_num_of(delta: int) -> int {
    if span_of(delta) == 0 {
        -1
    } else {
        1
    }
}

/// Denominator of the step size over a span of `delta` units: r - 1
/// interior steps for a rounded span of r >= 2, else a single step.
pub open spec fn step_den_of(delta: int) -> int {
    if span_of(delta) >= 2 {
        span_of(delta) - 1
    } else {
        1
    }
}

/// A color channel blended k steps of num/den of the way from c1 to
/// c2, rounded to the nearest integer and clamped to 8 bits.
pub open spec fn interp_channel(c1: int, c2: int, num: int, den: int, k: int) -> int {
    let v = rat_round(c1 * den + (c2 - c1) * k * num, den);
    if v < 0 {
        0
    } else if v > 255 {
        255
    } else {
        v
    }
}

/// All four channels blended k steps of num/den of the way from a to b.
pub open spec fn interp_rgba(
    a: (u8, u8, u8, u8),
    b: (u8, u8, u8, u8),
    num: int,
    den: int,
    k: int,
) -> (u8, u8, u8, u8) {
    (
        interp_channel(a.0 as int, b.0 as int, num, den, k) as u8,
        interp_channel(a.1 as int, b.1 as int, num, den, k) as u8,
        interp_channel(a.2 as int, b.2 as int, num, den, k) as u8,
        interp_channel(a.3 as int, b.3 as int, num, den, k) as u8,
    )
}

/// At step zero the blend is exactly the first endpoint's channel.
pub proof fn lemma_interp_channel_at_zero(c1: int, c2: int, num: int, den: int)
    requires
        den >= 1,
        0 <= c1 <= 255,
    ensures
        interp_channel(c1, c2, num, den, 0) == c1,
{
    assert(c1 * den + (c2 - c1) * 0 * num == c1 * den) by (nonlinear_arith);
    lemma_rat_round_int(c1, den);
}

/// Interpolation boundary: at step zero the blended color is exactly
/// the first endpoint's color.
pub proof fn lemma_interp_at_zero(a: (u8, u8, u8, u8), b: (u8, u8, u8, u8), num: int, den: int)
    requires
        den >= 1,
    ensures
        interp_rgba(a, b, num, den, 0) == a,
{
    lemma_interp_channel_at_zero(a.0 as int, b.0 as int, num, den);
    lemma_interp_channel_at_zero(a.1 as int, b.1 as int, num, den);
    lemma_interp_channel_at_zero(a.2 as int, b.2 as int, num, den);
    lemma_interp_channel_at_zero(a.3 as int, b.3 as int, num, den);
}

/// The step size between two vertices along the given axis (0 for x,
/// 1 for y): the reciprocal of the number of interior pixel steps of
/// the rounded span, saturated at a single whole step.
pub fn get_step_size(p1: &Vertex, p2: &Vertex, direction: usize) -> (s: StepSize)
    requires
        direction < 2,
        p1.wf(),
        p2.wf(),
    ensures
        ({
            let delta = if direction == 0 {
                p2.pos.x - p1.pos.x
            } else {
                p2.pos.y - p1.pos.y
            };
            s.num == step_num_of(delta) && s.den == step_den_of(delta) && s.wf()
        }),
{
    let d: i64 = if direction == 0 {
        p2.pos.x - p1.pos.x
    } else {
        p2.pos.y - p1.pos.y
    };
    let a: i64 = if d < 0 { -d } else { d };
    let r: i128 = crate::rat::rat_round_i128(a as i128, COORD_ONE as i128);
    proof {
        lemma_rat_round_bounds(a as int, COORD_ONE as int);
        assert(0 <= r <= 0x20000) by (nonlinear_arith)
            requires
                2 * (a as int) - COORD_ONE <= 2 * (r as int) * (COORD_ONE as int)
                    <= 2 * (a as int) + COORD_ONE && 0 <= a <= 0x1_0000_0000
                    && COORD_ONE == 65536 && r == rat_round(a as int, COORD_ONE as int);
    }
    if r == 0 {
        StepSize { num: -1, den: 1 }
    } else if r >= 2 {
        StepSize { num: 1, den: (r - 1) as i64 }
    } else {
        StepSize { num: 1, den: 1 }
    }
}

/// The color k steps of the way from `p1`'s color to `p2`'s color,
/// each channel rounded to the nearest 8-bit value. At step zero this
/// is exactly `p1`'s color.
pub fn get_interp_color(p1: &Vertex, p2: &Vertex, step_size: StepSize, step_num: i64) -> (r: (
    u8,
    u8,
    u8,
    u8,
))
    requires
        step_size.wf(),
        0 <= step_num <= 0x20000,
    ensures
        r == interp_rgba(
            p1.color.spec_tuple(),
            p2.color.spec_tuple(),
            step_size.num as int,
            step_size.den as int,
            step_num as int,
        ),
        step_num == 0 ==> r == p1.color.spec_tuple(),
{
    let r = interp_color_pair(p1.color, p2.color, step_size.num, step_size.den, step_num);
    proof {
        if step_num == 0 {
            lemma_interp_at_zero(
                p1.color.spec_tuple(),
                p2.color.spec_tuple(),
                step_size.num as int,
                step_size.den as int,
            );
        }
    }
    r
}

/// The four-channel blend k steps of num/den of the way from `c1` to
/// `c2`, on machine integers.
pub fn interp_color_pair(c1: Color, c2: Color, snum: i64, sden: i64, k: i64) -> (r: (
    u8,
    u8,
    u8,
    u8,
))
    requires
        snum == 1 || snum == -1,
        1 <= sden <= 0x20000,
        0 <= k <= 0x20000,
    ensures
        r == interp_rgba(c1.spec_tuple(), c2.spec_tuple(), snum as int, sden as int, k as int),
{
    let s = StepSize { num: snum, den: sden };
    let red = interp_channel_exec(c1.red, c2.red, s, k);
    let green = interp_channel_exec(c1.green, c2.green, s, k);
    let blue = interp_channel_exec(c1.blue, c2.blue, s, k);
    let alpha = interp_channel_exec(c1.alpha, c2.alpha, s, k);
    (red, green, blue, alpha)
}

/// One channel of `get_interp_color`, on machine integers.
fn interp_channel_exec(c1: u8, c2: u8, s: StepSize, k: i64) -> (r: u8)
    requires
        s.wf(),
        0 <= k <= 0x20000,
    ensures
        r == interp_channel(c1 as int, c2 as int, s.num as int, s.den as int, k as int),
{
    proof {
        let c1i = c1 as int;
        let c2i = c2 as int;
        let ki = k as int;
        let sn = s.num as int;
        let sd = s.den as int;
        assert(-0x4000_0000 <= (c2i - c1i) * ki <= 0x4000_0000) by (nonlinear_arith)
            requires -255 <= c2i - c1i <= 255 && 0 <= ki <= 0x20000;
        assert(-0x4000_0000 <= (c2i - c1i) * ki * sn <= 0x4000_0000) by (nonlinear_arith)
            requires (sn == 1 || sn == -1) && -0x4000_0000 <= (c2i - c1i) * ki <= 0x4000_0000;
        assert(0 <= c1i * sd <= 0x4000_0000) by (nonlinear_arith)
            requires 0 <= c1i <= 255 && 1 <= sd <= 0x20000;
    }
    let num: i64 = (c1 as i64) * s.den + ((c2 as i64) - (c1 as i64)) * k * s.num;
    let v: i128 = crate::rat::rat_round_i128(num as i128, s.den as i128);
    proof {
        lemma_rat_round_bounds(num as int, s.den as int);
    }
    if v < 0 {
        0
    } else if v > 255 {
        255
    } else {
        v as u8
    }
}

} // verus!
