//! Colors and the alpha-over compositor.
//!
//! `over_paint` blends a source color A onto a destination color B with
//! the standard "A over B" rule, carried out in exact integer
//! arithmetic over the common denominator 255 * 255 and truncated on
//! the way back to 8-bit channels.

use vstd::prelude::*;
use vstd::arithmetic::div_mod::{
    lemma_div_is_ordered, lemma_div_multiples_vanish, lemma_fundamental_div_mod,
    lemma_fundamental_div_mod_converse_div,
};

verus! {

/// An RGBA color: four 8-bit channels.
#[derive(Clone, Copy, Debug, PartialEq, Eq, Structural)]
pub struct Color {
    pub red: u8,
    pub green: u8,
    pub blue: u8,
    pub alpha: u8,
}

impl Color {
    /// The color as a plain channel tuple (red, green, blue, alpha).
    pub open spec fn spec_tuple(self) -> (u8, u8, u8, u8) {
        (self.red, self.green, self.blue, self.alpha)
    }

    pub fn new(red: u8, green: u8, blue: u8, alpha: u8) -> (c: Color)
        ensures
            c == (Color { red, green, blue, alpha }),
    {
        Color { red, green, blue, alpha }
    }

    pub fn as_tuple(self) -> (t: (u8, u8, u8, u8))
        ensures
            t == self.spec_tuple(),
    {
        (self.red, self.green, self.blue, self.alpha)
    }

    pub fn from_tuple(t: (u8, u8, u8, u8)) -> (c: Color)
        ensures
            c.spec_tuple() == t,
    {
        Color { red: t.0, green: t.1, blue: t.2, alpha: t.3 }
    }
}

/// Numerator of the output alpha of "A over B", over the denominator
/// 255 * 255: with fractional alphas a = aa/255 and b = ba/255 the
/// output alpha a + b * (1 - a) equals this value over 255 * 255.
pub open spec fn over_alpha_num(aa: int, ba: int) -> int {
    255 * aa + ba * (255 - aa)
}

/// One 8-bit output channel of "A over B": the weighted average
/// ratio * ac + (1 - ratio) * bc with ratio = 255 * aa / n, truncated.
pub open spec fn over_channel(aa: int, ba: int, ac: int, bc: int) -> int {
    (255 * aa * ac + ba * (255 - aa) * bc) / over_alpha_num(aa, ba)
}

/// The full "A over B" composite on channel tuples. A zero output
/// alpha (both inputs fully transparent) yields transparent black.
pub open spec fn over_rgba(a: (u8, u8, u8, u8), b: (u8, u8, u8, u8)) -> (u8, u8, u8, u8) {
    let n = over_alpha_num(a.3 as int, b.3 as int);
    if n == 0 {
        (0u8, 0u8, 0u8, 0u8)
    } else {
        (
            over_channel(a.3 as int, b.3 as int, a.0 as int, b.0 as int) as u8,
            over_channel(a.3 as int, b.3 as int, a.1 as int, b.1 as int) as u8,
            over_channel(a.3 as int, b.3 as int, a.2 as int, b.2 as int) as u8,
            (n / 255) as u8,
        )
    }
}

/// An output channel is a truncated weighted average of the two input
/// channels, so it lies between 0 and 255.
proof fn lemma_over_channel_bounds(aa: int, ba: int, ac: int, bc: int)
    requires
        0 <= aa <= 255,
        0 <= ba <= 255,
        0 <= ac <= 255,
        0 <= bc <= 255,
        over_alpha_num(aa, ba) > 0,
    ensures
        0 <= over_channel(aa, ba, ac, bc) <= 255,
{
    let n = over_alpha_num(aa, ba);
    let num = 255 * aa * ac + ba * (255 - aa) * bc;
    assert(num >= 0) by (nonlinear_arith)
        requires 0 <= aa <= 255 && 0 <= ba <= 255 && 0 <= ac && 0 <= bc
            && num == 255 * aa * ac + ba * (255 - aa) * bc;
    assert(num <= 255 * n) by (nonlinear_arith)
        requires 0 <= aa <= 255 && 0 <= ba <= 255 && 0 <= ac <= 255 && 0 <= bc <= 255
            && n == 255 * aa + ba * (255 - aa) && num == 255 * aa * ac + ba * (255 - aa) * bc;
    lemma_div_is_ordered(0, num, n);
    lemma_div_is_ordered(num, 255 * n, n);
    lemma_div_multiples_vanish(255, n);
    assert(n * 255 == 255 * n) by (nonlinear_arith);
}

/// Composite source color `a` over destination color `b` ("A over B").
///
/// The output alpha is a + b*(1 - a) in fractional units; each color
/// channel is the ratio-weighted average of the two input channels.
/// When both alphas are zero the result is defined as transparent
/// black rather than a division fault.
pub fn over_paint(a: (u8, u8, u8, u8), b: (u8, u8, u8, u8)) -> (r: (u8, u8, u8, u8))
    ensures
        r == over_rgba(a, b),
{
    let aa: u32 = a.3 as u32;
    let ba: u32 = b.3 as u32;
    proof {
        assert(0 <= ba * (255 - aa) <= 255 * 255) by (nonlinear_arith)
            requires 0 <= aa <= 255 && 0 <= ba <= 255;
    }
    let n: u32 = 255 * aa + ba * (255 - aa);
    if n == 0 {
        (0, 0, 0, 0)
    } else {
        proof {
            lemma_over_channel_bounds(aa as int, ba as int, a.0 as int, b.0 as int);
            lemma_over_channel_bounds(aa as int, ba as int, a.1 as int, b.1 as int);
            lemma_over_channel_bounds(aa as int, ba as int, a.2 as int, b.2 as int);
            assert(255 * aa * (a.0 as int) + ba * (255 - aa) * (b.0 as int) <= 255 * 255 * 255 * 2)
                by (nonlinear_arith)
                requires 0 <= aa <= 255 && 0 <= ba <= 255 && a.0 <= 255 && b.0 <= 255;
            assert(255 * aa * (a.1 as int) + ba * (255 - aa) * (b.1 as int) <= 255 * 255 * 255 * 2)
                by (nonlinear_arith)
                requires 0 <= aa <= 255 && 0 <= ba <= 255 && a.1 <= 255 && b.1 <= 255;
            assert(255 * aa * (a.2 as int) + ba * (255 - aa) * (b.2 as int) <= 255 * 255 * 255 * 2)
                by (nonlinear_arith)
                requires 0 <= aa <= 255 && 0 <= ba <= 255 && a.2 <= 255 && b.2 <= 255;
            assert(255 * aa * (a.0 as int) >= 0 && ba * (255 - aa) * (b.0 as int) >= 0)
                by (nonlinear_arith) requires 0 <= aa <= 255 && 0 <= ba;
            assert(255 * aa * (a.1 as int) >= 0 && ba * (255 - aa) * (b.1 as int) >= 0)
                by (nonlinear_arith) requires 0 <= aa <= 255 && 0 <= ba;
            assert(255 * aa * (a.2 as int) >= 0 && ba * (255 - aa) * (b.2 as int) >= 0)
                by (nonlinear_arith) requires 0 <= aa <= 255 && 0 <= ba;
        }
        let red: u32 = (255 * aa * (a.0 as u32) + ba * (255 - aa) * (b.0 as u32)) / n;
        let green: u32 = (255 * aa * (a.1 as u32) + ba * (255 - aa) * (b.1 as u32)) / n;
        let blue: u32 = (255 * aa * (a.2 as u32) + ba * (255 - aa) * (b.2 as u32)) / n;
        let alpha: u32 = n / 255;
        proof {
            lemma_div_is_ordered(n as int, 255int * 255 + 255 * 255, 255);
        }
        (red as u8, green as u8, blue as u8, alpha as u8)
    }
}

/// Compositing identity: a fully opaque source replaces the
/// destination entirely.
pub proof fn lemma_over_opaque_source(a: (u8, u8, u8, u8), b: (u8, u8, u8, u8))
    requires
        a.3 == 255,
    ensures
        over_rgba(a, b) == a,
{
    let n = over_alpha_num(255, b.3 as int);
    assert(n == 255 * 255);
    assert(255 * 255 * (a.0 as int) + (b.3 as int) * (255 - 255) * (b.0 as int)
        == (255 * 255) * (a.0 as int)) by (nonlinear_arith);
    assert(255 * 255 * (a.1 as int) + (b.3 as int) * (255 - 255) * (b.1 as int)
        == (255 * 255) * (a.1 as int)) by (nonlinear_arith);
    assert(255 * 255 * (a.2 as int) + (b.3 as int) * (255 - 255) * (b.2 as int)
        == (255 * 255) * (a.2 as int)) by (nonlinear_arith);
    lemma_div_multiples_vanish(a.0 as int, 255int * 255);
    lemma_div_multiples_vanish(a.1 as int, 255int * 255);
    lemma_div_multiples_vanish(a.2 as int, 255int * 255);
    assert(over_rgba(a, b).3 == a.3);
}

/// Compositing identity: a fully transparent source leaves a
/// destination with positive alpha unchanged.
pub proof fn lemma_over_transparent_source(a: (u8, u8, u8, u8), b: (u8, u8, u8, u8))
    requires
        a.3 == 0,
        b.3 > 0,
    ensures
        over_rgba(a, b) == b,
{
    let ba = b.3 as int;
    let n = over_alpha_num(0, ba);
    assert(n == ba * 255);
    assert(255 * 0 * (a.0 as int) + ba * (255 - 0) * (b.0 as int) == (ba * 255) * (b.0 as int))
        by (nonlinear_arith);
    assert(255 * 0 * (a.1 as int) + ba * (255 - 0) * (b.1 as int) == (ba * 255) * (b.1 as int))
        by (nonlinear_arith);
    assert(255 * 0 * (a.2 as int) + ba * (255 - 0) * (b.2 as int) == (ba * 255) * (b.2 as int))
        by (nonlinear_arith);
    lemma_div_multiples_vanish(b.0 as int, ba * 255);
    lemma_div_multiples_vanish(b.1 as int, ba * 255);
    lemma_div_multiples_vanish(b.2 as int, ba * 255);
    assert(ba * 255 == 255 * ba) by (nonlinear_arith);
    lemma_div_multiples_vanish(ba, 255);
    assert(over_rgba(a, b).3 == b.3);
}

/// Over an opaque destination one output channel reduces to the
/// plain weighted average (aa * ac + (255 - aa) * bc) / 255, which
/// lies between the two inputs: strictly below the destination when
/// the source is below it, and strictly above it when the source's
/// weighted pull aa * (ac - bc) reaches a whole 8-bit unit.
proof fn lemma_opaque_dest_channel(aa: int, ac: int, bc: int)
    requires
        1 <= aa <= 255,
        0 <= ac <= 255,
        0 <= bc <= 255,
    ensures
        over_channel(aa, 255, ac, bc) == (aa * ac + (255 - aa) * bc) / 255,
        ac == bc ==> over_channel(aa, 255, ac, bc) == bc,
        ac < bc ==> ac <= over_channel(aa, 255, ac, bc) < bc,
        ac > bc ==> bc <= over_channel(aa, 255, ac, bc) <= ac,
        ac > bc && aa * (ac - bc) >= 255 ==> over_channel(aa, 255, ac, bc) > bc,
{
    let num1 = aa * ac + (255 - aa) * bc;
    let q = num1 / 255;
    let r = num1 % 255;
    lemma_fundamental_div_mod(num1, 255);
    assert(num1 >= 0) by (nonlinear_arith)
        requires 0 <= aa && 0 <= ac && aa <= 255 && 0 <= bc && num1 == aa * ac + (255 - aa) * bc;
    assert(255 * aa * ac + 255 * (255 - aa) * bc == q * (255 * 255) + 255 * r)
        by (nonlinear_arith)
        requires num1 == 255 * q + r && num1 == aa * ac + (255 - aa) * bc;
    lemma_fundamental_div_mod_converse_div(
        255 * aa * ac + 255 * (255 - aa) * bc,
        255int * 255,
        q,
        255 * r,
    );
    assert(over_alpha_num(aa, 255) == 255 * 255);
    assert(aa * ac + (255 - aa) * bc == 255 * bc + aa * (ac - bc)) by (nonlinear_arith);
    if ac == bc {
        lemma_div_multiples_vanish(bc, 255);
        assert(255 * bc == bc * 255) by (nonlinear_arith);
    } else if ac < bc {
        assert(aa * (ac - bc) <= -1 && aa * (ac - bc) >= -255 * 255) by (nonlinear_arith)
            requires 1 <= aa <= 255 && ac < bc && bc - ac <= 255;
        assert(num1 >= 255 * ac) by (nonlinear_arith)
            requires num1 == aa * ac + (255 - aa) * bc && aa <= 255 && ac < bc;
        lemma_div_is_ordered(255 * ac, num1, 255);
        lemma_div_multiples_vanish(ac, 255);
        assert(255 * ac == ac * 255) by (nonlinear_arith);
        assert(num1 <= 255 * (bc - 1) + 254);
        lemma_div_is_ordered(num1, 255 * (bc - 1) + 254, 255);
        lemma_fundamental_div_mod_converse_div(255 * (bc - 1) + 254, 255, bc - 1, 254);
        assert(255 * (bc - 1) + 254 == (bc - 1) * 255 + 254) by (nonlinear_arith);
    } else {
        assert(aa * (ac - bc) >= 0) by (nonlinear_arith) requires aa >= 0 && ac > bc;
        lemma_div_is_ordered(255 * bc, num1, 255);
        lemma_div_multiples_vanish(bc, 255);
        assert(255 * bc == bc * 255) by (nonlinear_arith);
        assert(num1 <= 255 * ac) by (nonlinear_arith)
            requires num1 == aa * ac + (255 - aa) * bc && aa <= 255 && ac > bc;
        lemma_div_is_ordered(num1, 255 * ac, 255);
        lemma_div_multiples_vanish(ac, 255);
        assert(255 * ac == ac * 255) by (nonlinear_arith);
        if aa * (ac - bc) >= 255 {
            lemma_div_is_ordered(255 * (bc + 1), num1, 255);
            lemma_div_multiples_vanish(bc + 1, 255);
            assert(255 * (bc + 1) == (bc + 1) * 255) by (nonlinear_arith);
        }
    }
}

/// Painting a source with any visible alpha over an opaque
/// destination keeps the pixel opaque and moves every channel toward
/// the source — strictly, wherever the source lies below the
/// destination or pulls upward by at least one whole 8-bit unit. A
/// second identical paint therefore starts from a destination that
/// has already moved, so repeated painting is count sensitive, not
/// idempotent, as long as some channel still differs.
pub proof fn lemma_over_opaque_dest(a: (u8, u8, u8, u8), b: (u8, u8, u8, u8))
    requires
        a.3 >= 1,
        b.3 == 255,
    ensures
        over_rgba(a, b).3 == 255,
        a.0 == b.0 ==> over_rgba(a, b).0 == b.0,
        a.0 < b.0 ==> a.0 <= over_rgba(a, b).0 < b.0,
        a.0 > b.0 ==> b.0 <= over_rgba(a, b).0 <= a.0,
        a.0 > b.0 && a.3 * (a.0 - b.0) >= 255 ==> over_rgba(a, b).0 > b.0,
        a.1 == b.1 ==> over_rgba(a, b).1 == b.1,
        a.1 < b.1 ==> a.1 <= over_rgba(a, b).1 < b.1,
        a.1 > b.1 ==> b.1 <= over_rgba(a, b).1 <= a.1,
        a.1 > b.1 && a.3 * (a.1 - b.1) >= 255 ==> over_rgba(a, b).1 > b.1,
        a.2 == b.2 ==> over_rgba(a, b).2 == b.2,
        a.2 < b.2 ==> a.2 <= over_rgba(a, b).2 < b.2,
        a.2 > b.2 ==> b.2 <= over_rgba(a, b).2 <= a.2,
        a.2 > b.2 && a.3 * (a.2 - b.2) >= 255 ==> over_rgba(a, b).2 > b.2,
{
    let aa = a.3 as int;
    assert(over_alpha_num(aa, 255) == 255 * 255);
    lemma_opaque_dest_channel(aa, a.0 as int, b.0 as int);
    lemma_opaque_dest_channel(aa, a.1 as int, b.1 as int);
    lemma_opaque_dest_channel(aa, a.2 as int, b.2 as int);
    assert((255int * 255) / 255 == 255);
}

/// Compositing two fully transparent colors is defined: the result is
/// transparent black, not a division fault.
pub proof fn lemma_over_both_transparent(a: (u8, u8, u8, u8), b: (u8, u8, u8, u8))
    requires
        a.3 == 0,
        b.3 == 0,
    ensures
        over_rgba(a, b) == (0u8, 0u8, 0u8, 0u8),
{
    assert(over_alpha_num(0, 0) == 0);
}

} // verus!
