//! The DDA line rasterizer.
//!
//! A line is painted by stepping one pixel at a time along the
//! dominant axis (the axis of greater absolute displacement, ties
//! breaking toward the x axis), accumulating an
//! exact fractional position along the other axis. Stepping always
//! proceeds in the increasing direction — endpoints are swapped first
//! if need be — and starts from the first endpoint advanced to the
//! next integer grid line of the dominant axis. Each step paints
//! either the caller's fixed color, or the interpolated endpoint-color
//! blend composited over the pixel already on the canvas.
//!
//! Endpoints are rational positions over a common positive
//! denominator, so that the triangle rasterizer can hand in the exact
//! fractional edge points of its scanlines; `draw_line` itself takes
//! fixed-point vertices. The painting loop is proved equal, step by
//! step, to the spec-level replay `line_paint`.

use vstd::prelude::*;
use crate::canvas::Canvas;
use crate::color::{over_rgba, Color};
use crate::geom::{Vertex, COORD_ONE};
use crate::interp::{interp_color_pair, interp_rgba};
use crate::rat::{
    lemma_rat_ceil_bounds, lemma_rat_ceil_mono, lemma_rat_round_le_ceil, lemma_rat_round_mono,
    lemma_rat_round_scale,
    rat_ceil, rat_ceil_i128, rat_round, rat_round_i128,
};

verus! {

/// The absolute value.
pub open spec fn iabs(v: int) -> int {
    if v >= 0 {
        v
    } else {
        -v
    }
}

/// A position with exact rational coordinates xn/den and yn/den.
pub struct RatPoint {
    pub xn: i128,
    pub yn: i128,
    pub den: i128,
}

impl RatPoint {
    /// The denominator is positive and bounded, and both coordinate
    /// values lie within 32768 pixels of the origin.
    pub open spec fn wf(self) -> bool {
        1 <= self.den <= 0x1_0000_0000_0000_0000_0000 && -self.den * 32768 <= self.xn <= self.den
            * 32768 && -self.den * 32768 <= self.yn <= self.den * 32768
    }
}

/// How many pixels a sweep from dominant-axis position i1/den to
/// i2/den paints: one per integer grid line at or after i1 and
/// strictly before i2.
pub open spec fn line_count(i1: int, i2: int, den: int) -> int {
    let n = rat_ceil(i2, den) - rat_ceil(i1, den);
    if n >= 0 {
        n
    } else {
        0
    }
}

/// The integer pixel painted at step k of a sweep from (a1x, a1y) to
/// (a2x, a2y) over `den`, already swapped so the dominant axis (x if
/// `xd`) increases: the dominant coordinate is the k-th grid line, the
/// other is the line's exact position there, rounded.
pub open spec fn step_px(
    xd: bool,
    a1x: int,
    a1y: int,
    a2x: int,
    a2y: int,
    den: int,
    k: int,
) -> (int, int) {
    let a1i = if xd { a1x } else { a1y };
    let a2i = if xd { a2x } else { a2y };
    let a1j = if xd { a1y } else { a1x };
    let a2j = if xd { a2y } else { a2x };
    let di = a2i - a1i;
    let dj = a2j - a1j;
    let pi = rat_ceil(a1i, den) + k;
    let pj = if dj == 0 {
        rat_round(a1j, den)
    } else {
        rat_round(a1j * di + (pi * den - a1i) * dj, den * di)
    };
    if xd {
        (pi, pj)
    } else {
        (pj, pi)
    }
}

/// One painting step: paint the step-k pixel of the sweep, either
/// with the fixed color or with the step-k blend composited over the
/// canvas content.
pub open spec fn line_step(
    px: Seq<(u8, u8, u8, u8)>,
    w: int,
    xd: bool,
    a1x: int,
    a1y: int,
    a2x: int,
    a2y: int,
    den: int,
    ca: Color,
    cb: Color,
    snum: int,
    sden: int,
    fixed: Option<Color>,
    k: int,
) -> Seq<(u8, u8, u8, u8)> {
    let p = step_px(xd, a1x, a1y, a2x, a2y, den, k);
    let idx = p.1 * w + p.0;
    match fixed {
        Some(c) => px.update(idx, c.spec_tuple()),
        None => px.update(
            idx,
            over_rgba(interp_rgba(ca.spec_tuple(), cb.spec_tuple(), snum, sden, k), px[idx]),
        ),
    }
}

/// Painting steps k, k+1, ..., n-1 in order.
pub open spec fn line_steps(
    px: Seq<(u8, u8, u8, u8)>,
    w: int,
    xd: bool,
    a1x: int,
    a1y: int,
    a2x: int,
    a2y: int,
    den: int,
    ca: Color,
    cb: Color,
    snum: int,
    sden: int,
    fixed: Option<Color>,
    k: int,
    n: int,
) -> Seq<(u8, u8, u8, u8)>
    decreases n - k,
{
    if k >= n {
        px
    } else {
        line_steps(
            line_step(px, w, xd, a1x, a1y, a2x, a2y, den, ca, cb, snum, sden, fixed, k),
            w,
            xd,
            a1x,
            a1y,
            a2x,
            a2y,
            den,
            ca,
            cb,
            snum,
            sden,
            fixed,
            k + 1,
            n,
        )
    }
}

/// The numerator of the interpolation step size for a dominant-axis
/// displacement of magnitude `adi` over `den`: -1 only in the
/// degenerate sub-half-pixel case, where no step ever advances.
pub open spec fn sweep_snum(adi: int, den: int) -> int {
    if rat_round(adi, den) == 0 {
        -1
    } else {
        1
    }
}

/// The denominator of the interpolation step size: r - 1 interior
/// steps for a rounded span of r >= 2, else a single whole step.
pub open spec fn sweep_sden(adi: int, den: int) -> int {
    if rat_round(adi, den) >= 2 {
        rat_round(adi, den) - 1
    } else {
        1
    }
}

/// The whole line: choose the dominant axis, orient the sweep in its
/// increasing direction, and paint every step. Coincident endpoints
/// paint nothing.
pub open spec fn line_paint(
    px: Seq<(u8, u8, u8, u8)>,
    w: int,
    x1n: int,
    y1n: int,
    x2n: int,
    y2n: int,
    den: int,
    c1: Color,
    c2: Color,
    fixed: Option<Color>,
) -> Seq<(u8, u8, u8, u8)> {
    let dx = x2n - x1n;
    let dy = y2n - y1n;
    if dx == 0 && dy == 0 {
        px
    } else {
        let xd = iabs(dx) >= iabs(dy);
        let di0 = if xd { dx } else { dy };
        let swap = di0 < 0;
        let a1x = if swap { x2n } else { x1n };
        let a1y = if swap { y2n } else { y1n };
        let a2x = if swap { x1n } else { x2n };
        let a2y = if swap { y1n } else { y2n };
        let ca = if swap { c2 } else { c1 };
        let cb = if swap { c1 } else { c2 };
        let a1i = if xd { a1x } else { a1y };
        let a2i = if xd { a2x } else { a2y };
        let di = a2i - a1i;
        line_steps(
            px,
            w,
            xd,
            a1x,
            a1y,
            a2x,
            a2y,
            den,
            ca,
            cb,
            sweep_snum(di, den),
            sweep_sden(di, den),
            fixed,
            0,
            line_count(a1i, a2i, den),
        )
    }
}

/// How many pixels the whole line paints: zero for coincident
/// endpoints, else one per dominant-axis grid line the sweep crosses.
pub open spec fn line_pixel_total(x1n: int, y1n: int, x2n: int, y2n: int, den: int) -> int {
    let dx = x2n - x1n;
    let dy = y2n - y1n;
    if dx == 0 && dy == 0 {
        0
    } else {
        let xd = iabs(dx) >= iabs(dy);
        let di0 = if xd { dx } else { dy };
        let swap = di0 < 0;
        let a1i = if xd {
            if swap { x2n } else { x1n }
        } else {
            if swap { y2n } else { y1n }
        };
        let a2i = if xd {
            if swap { x1n } else { x2n }
        } else {
            if swap { y1n } else { y2n }
        };
        line_count(a1i, a2i, den)
    }
}

/// Draw the line between two exact rational endpoints onto the
/// canvas: the generic sweep behind both `draw_line` and the triangle
/// scanline fill. With `fixed` given, every pixel gets that color
/// unmodified; otherwise each pixel gets the endpoint-color blend at
/// its step, composited over the canvas content there.
///
/// Large denominators are only admitted for horizontal sweeps (the
/// triangle fill's scanlines); a general line keeps the fixed-point
/// denominator, which bounds every intermediate product.
#[verifier::loop_isolation(false)]
#[verifier::rlimit(100)]
pub fn draw_line_rat(
    canvas: &mut Canvas,
    p1: RatPoint,
    c1: Color,
    p2: RatPoint,
    c2: Color,
    fixed: Option<Color>,
) -> (painted: usize)
    requires
        old(canvas).wf(),
        p1.wf(),
        p2.wf(),
        p1.den == p2.den,
        p1.den > COORD_ONE ==> p1.yn == p2.yn,
        0 <= rat_round(p1.xn as int, p1.den as int) < old(canvas).width,
        0 <= rat_round(p2.xn as int, p1.den as int) < old(canvas).width,
        0 <= rat_round(p1.yn as int, p1.den as int) < old(canvas).height,
        0 <= rat_round(p2.yn as int, p1.den as int) < old(canvas).height,
    ensures
        final(canvas).wf(),
        final(canvas).width == old(canvas).width,
        final(canvas).height == old(canvas).height,
        final(canvas).name == old(canvas).name,
        final(canvas).pixels() == line_paint(
            old(canvas).pixels(),
            old(canvas).width as int,
            p1.xn as int,
            p1.yn as int,
            p2.xn as int,
            p2.yn as int,
            p1.den as int,
            c1,
            c2,
            fixed,
        ),
        painted == line_pixel_total(
            p1.xn as int,
            p1.yn as int,
            p2.xn as int,
            p2.yn as int,
            p1.den as int,
        ),
{
    let ghost gw = old(canvas).width as int;
    let ghost old_px = old(canvas).pixels();
    let den: i128 = p1.den;
    let ghost gden = den as int;
    let dx: i128 = p2.xn - p1.xn;
    let dy: i128 = p2.yn - p1.yn;
    if dx == 0 && dy == 0 {
        return 0;
    }
    let adx: i128 = if dx < 0 { -dx } else { dx };
    let ady: i128 = if dy < 0 { -dy } else { dy };
    let xd: bool = adx >= ady;
    let do_swap: bool = if xd { dx < 0 } else { dy < 0 };
    let a1x: i128 = if do_swap { p2.xn } else { p1.xn };
    let a1y: i128 = if do_swap { p2.yn } else { p1.yn };
    let a2x: i128 = if do_swap { p1.xn } else { p2.xn };
    let a2y: i128 = if do_swap { p1.yn } else { p2.yn };
    let ca: Color = if do_swap { c2 } else { c1 };
    let cb: Color = if do_swap { c1 } else { c2 };
    let a1i: i128 = if xd { a1x } else { a1y };
    let a2i: i128 = if xd { a2x } else { a2y };
    let a1j: i128 = if xd { a1y } else { a1x };
    let a2j: i128 = if xd { a2y } else { a2x };
    let di: i128 = a2i - a1i;
    let dj: i128 = a2j - a1j;
    proof {
        if xd && dx == 0 {
            assert(ady <= adx);
            assert(false);
        }
        if !xd && dy == 0 {
            assert(adx < ady);
            assert(false);
        }
        assert(di > 0);
    }
    let ceil1: i128 = rat_ceil_i128(a1i, den);
    let ceil2: i128 = rat_ceil_i128(a2i, den);
    proof {
        lemma_rat_ceil_bounds(a1i as int, gden);
        lemma_rat_ceil_bounds(a2i as int, gden);
        lemma_rat_round_le_ceil(a1i as int, gden);
        lemma_rat_round_le_ceil(a2i as int, gden);
        // bound the sweep's grid-line range by the endpoint rounds
        assert(ceil2 <= 32768 && ceil1 >= -32768) by (nonlinear_arith)
            requires
                gden > 0 && (ceil2 - 1) * gden < a2i <= gden * 32768 && -gden * 32768 <= a1i
                    <= ceil1 * gden && ceil1 == rat_ceil(a1i as int, gden) && ceil2 == rat_ceil(
                    a2i as int,
                    gden,
                );
        vstd::arithmetic::div_mod::lemma_div_is_ordered(
            a1i as int + gden - 1,
            a2i as int + gden - 1,
            gden,
        );
    }
    let n: i128 = ceil2 - ceil1;
    let ghost gn = n as int;
    let r: i128 = rat_round_i128(di, den);
    proof {
        crate::rat::lemma_rat_round_bounds(di as int, gden);
        assert(0 <= r <= 0x10001) by (nonlinear_arith)
            requires
                gden > 0 && 0 < di <= 2 * gden * 32768 && 2 * (di as int) - gden <= 2 * (r as int)
                    * gden <= 2 * (di as int) + gden;
    }
    let snum: i64 = if r == 0 { -1 } else { 1 };
    let sden: i64 = if r >= 2 { (r - 1) as i64 } else { 1 };
    let ghost gsn = snum as int;
    let ghost gsd = sden as int;
    proof {
        assert(gsn == sweep_snum(di as int, gden));
        assert(gsd == sweep_sden(di as int, gden));
    }
    let mut k: i128 = 0;
    while k < n
        invariant
            0 <= k <= n,
            canvas.wf(),
            canvas.width == old(canvas).width,
            canvas.height == old(canvas).height,
            canvas.name == old(canvas).name,
            line_steps(
                canvas.pixels(),
                gw,
                xd,
                a1x as int,
                a1y as int,
                a2x as int,
                a2y as int,
                gden,
                ca,
                cb,
                gsn,
                gsd,
                fixed,
                k as int,
                gn,
            ) == line_steps(
                old_px,
                gw,
                xd,
                a1x as int,
                a1y as int,
                a2x as int,
                a2y as int,
                gden,
                ca,
                cb,
                gsn,
                gsd,
                fixed,
                0,
                gn,
            ),
        decreases n - k,
    {
        let pi: i128 = ceil1 + k;
        proof {
            // the dominant-axis pixel lies between the endpoint rounds
            assert(0 <= pi <= 16384);
        }
        let pj: i128 = if dj == 0 {
            proof {
                lemma_rat_round_mono(a1j as int, a1j as int, gden);
            }
            rat_round_i128(a1j, den)
        } else {
            proof {
                if gden > COORD_ONE {
                    assert(dy == 0);
                    if xd {
                        assert(dj == 0);
                    } else {
                        assert(adx <= ady && ady == 0);
                    }
                    assert(false);
                }
                assert(pi * den >= ceil1 * den && ceil1 * den >= a1i) by (nonlinear_arith)
                    requires
                        gden > 0 && pi >= ceil1 && ceil1 * gden >= a1i && pi == pi as int && den
                            == gden;
                assert(pi * den < a2i) by (nonlinear_arith)
                    requires
                        gden > 0 && pi <= ceil2 - 1 && (ceil2 - 1) * gden < a2i && den == gden;
            }
            let e: i128 = pi * den - a1i;
            proof {
                let gdi = di as int;
                let gdj = dj as int;
                let ge = e as int;
                let ga1j = a1j as int;
                let ga2j = a2j as int;
                assert(-0x8000_0000_0000_0000_0000 <= ga1j * gdi <= 0x8000_0000_0000_0000_0000
                    && 0 < gden * gdi <= 0x1_0000_0000_0000 && -0x1_0000_0000_0000_0000_0000
                    <= ge * gdj <= 0x1_0000_0000_0000_0000_0000) by (nonlinear_arith)
                    requires
                        0 < gden <= 65536 && -gden * 32768 <= ga1j <= gden * 32768 && 0 < gdi
                            <= 2 * gden * 32768 && -2 * gden * 32768 <= gdj <= 2 * gden * 32768
                            && 0 <= ge < gdi;
                // the sample position lies between the two endpoints
                if gdj > 0 {
                    assert(ga1j * gdi <= ga1j * gdi + ge * gdj <= ga2j * gdi) by (nonlinear_arith)
                        requires
                            0 <= ge < gdi && gdj > 0 && ga2j == ga1j + gdj && 0 < gdi;
                    lemma_rat_round_mono(ga1j * gdi, ga1j * gdi + ge * gdj, gden * gdi);
                    lemma_rat_round_mono(ga1j * gdi + ge * gdj, ga2j * gdi, gden * gdi);
                } else {
                    assert(ga2j * gdi <= ga1j * gdi + ge * gdj <= ga1j * gdi) by (nonlinear_arith)
                        requires
                            0 <= ge < gdi && gdj < 0 && ga2j == ga1j + gdj && 0 < gdi;
                    lemma_rat_round_mono(ga2j * gdi, ga1j * gdi + ge * gdj, gden * gdi);
                    lemma_rat_round_mono(ga1j * gdi + ge * gdj, ga1j * gdi, gden * gdi);
                }
                lemma_rat_round_scale(ga1j, gden, gdi);
                lemma_rat_round_scale(ga2j, gden, gdi);
            }
            rat_round_i128(a1j * di + e * dj, den * di)
        };
        let x128: i128 = if xd { pi } else { pj };
        let y128: i128 = if xd { pj } else { pi };
        proof {
            assert(step_px(
                xd,
                a1x as int,
                a1y as int,
                a2x as int,
                a2y as int,
                gden,
                k as int,
            ) == (x128 as int, y128 as int));
            assert(0 <= x128 < canvas.width);
            assert(0 <= y128 < canvas.height);
        }
        let x: u32 = x128 as u32;
        let y: u32 = y128 as u32;
        let color: Color = match fixed {
            Some(c) => c,
            None => {
                let src = interp_color_pair(ca, cb, snum, sden, k as i64);
                let under = canvas.get_pixel(x, y);
                let blended = crate::color::over_paint(src, under.as_tuple());
                Color::from_tuple(blended)
            },
        };
        let ghost before_px = canvas.pixels();
        canvas.set_pixel(x, y, color);
        proof {
            assert(canvas.pixels() == line_step(
                before_px,
                gw,
                xd,
                a1x as int,
                a1y as int,
                a2x as int,
                a2y as int,
                gden,
                ca,
                cb,
                gsn,
                gsd,
                fixed,
                k as int,
            ));
        }
        k = k + 1;
    }
    proof {
        assert(canvas.pixels() == line_steps(
            old_px,
            gw,
            xd,
            a1x as int,
            a1y as int,
            a2x as int,
            a2y as int,
            gden,
            ca,
            cb,
            gsn,
            gsd,
            fixed,
            0,
            gn,
        ));
        assert(iabs(dx as int) == adx as int && iabs(dy as int) == ady as int);
        assert(gn == line_count(a1i as int, a2i as int, gden));
        assert(canvas.pixels() == line_paint(
            old_px,
            gw,
            p1.xn as int,
            p1.yn as int,
            p2.xn as int,
            p2.yn as int,
            gden,
            c1,
            c2,
            fixed,
        ));
    }
    if n > 0 {
        (n as usize)
    } else {
        0
    }
}

/// Draw the line between two vertices onto the canvas. With `fixed`
/// given, every pixel of the line gets that color unmodified; with
/// `None`, each pixel gets the blend of the endpoint colors at its
/// step, alpha-composited over whatever the canvas already holds
/// there. Returns how many pixels were painted; coincident endpoints
/// paint none.
pub fn draw_line(canvas: &mut Canvas, v1: &Vertex, v2: &Vertex, fixed: Option<Color>) -> (painted:
    usize)
    requires
        old(canvas).wf(),
        v1.wf(),
        v2.wf(),
        0 <= v1.pos.pixel_x() < old(canvas).width,
        0 <= v2.pos.pixel_x() < old(canvas).width,
        0 <= v1.pos.pixel_y() < old(canvas).height,
        0 <= v2.pos.pixel_y() < old(canvas).height,
    ensures
        final(canvas).wf(),
        final(canvas).width == old(canvas).width,
        final(canvas).height == old(canvas).height,
        final(canvas).name == old(canvas).name,
        final(canvas).pixels() == line_paint(
            old(canvas).pixels(),
            old(canvas).width as int,
            v1.pos.x as int,
            v1.pos.y as int,
            v2.pos.x as int,
            v2.pos.y as int,
            COORD_ONE as int,
            v1.color,
            v2.color,
            fixed,
        ),
        painted == line_pixel_total(
            v1.pos.x as int,
            v1.pos.y as int,
            v2.pos.x as int,
            v2.pos.y as int,
            COORD_ONE as int,
        ),
{
    let p1 = RatPoint { xn: v1.pos.x as i128, yn: v1.pos.y as i128, den: COORD_ONE as i128 };
    let p2 = RatPoint { xn: v2.pos.x as i128, yn: v2.pos.y as i128, den: COORD_ONE as i128 };
    draw_line_rat(canvas, p1, v1.color, p2, v2.color, fixed)
}

/// A dominant-x sweep paints exactly the consecutive run of pixels
/// ceil1 + k .. ceil1 + n at row ry and nothing else; each run pixel
/// is painted once, so in fixed mode it holds the fixed color, and in
/// interpolated mode the blend at its own step composited over the
/// pixel's prior value.
proof fn lemma_steps_axis_x(
    px: Seq<(u8, u8, u8, u8)>,
    w: int,
    a1x: int,
    y: int,
    a2x: int,
    den: int,
    ca: Color,
    cb: Color,
    snum: int,
    sden: int,
    fixed: Option<Color>,
    k: int,
    n: int,
)
    requires
        den > 0,
        w > 0,
        n <= k || (0 <= rat_ceil(a1x, den) + k && rat_ceil(a1x, den) + n <= w),
        0 <= rat_round(y, den),
        (rat_round(y, den) + 1) * w <= px.len(),
    ensures
        ({
            let res = line_steps(px, w, true, a1x, y, a2x, y, den, ca, cb, snum, sden, fixed, k, n);
            let ry = rat_round(y, den);
            let ceil1 = rat_ceil(a1x, den);
            res.len() == px.len() && (forall|i: int|
                0 <= i < px.len() && !(ry * w + ceil1 + k <= i < ry * w + ceil1 + n)
                    ==> #[trigger] res[i] == px[i]) && (match fixed {
                Some(c) => forall|i: int|
                    ry * w + ceil1 + k <= i < ry * w + ceil1 + n ==> #[trigger] res[i]
                        == c.spec_tuple(),
                None => forall|i: int|
                    ry * w + ceil1 + k <= i < ry * w + ceil1 + n ==> #[trigger] res[i]
                        == over_rgba(
                        interp_rgba(
                            ca.spec_tuple(),
                            cb.spec_tuple(),
                            snum,
                            sden,
                            i - (ry * w + ceil1),
                        ),
                        px[i],
                    ),
            })
        }),
    decreases n - k,
{
    let res = line_steps(px, w, true, a1x, y, a2x, y, den, ca, cb, snum, sden, fixed, k, n);
    let ry = rat_round(y, den);
    let ceil1 = rat_ceil(a1x, den);
    if k >= n {
    } else {
        let idx = ry * w + ceil1 + k;
        assert(0 <= idx < px.len()) by (nonlinear_arith)
            requires
                w > 0 && 0 <= ry && 0 <= ceil1 + k < w && (ry + 1) * w <= px.len() && idx == ry * w
                    + ceil1 + k;
        let stepped = line_step(px, w, true, a1x, y, a2x, y, den, ca, cb, snum, sden, fixed, k);
        match fixed {
            Some(c) => {
                assert(stepped == px.update(idx, c.spec_tuple()));
            },
            None => {
                assert(stepped == px.update(
                    idx,
                    over_rgba(
                        interp_rgba(ca.spec_tuple(), cb.spec_tuple(), snum, sden, k),
                        px[idx],
                    ),
                ));
            },
        }
        lemma_steps_axis_x(stepped, w, a1x, y, a2x, den, ca, cb, snum, sden, fixed, k + 1, n);
        assert(forall|i: int|
            0 <= i < px.len() && i != idx ==> #[trigger] stepped[i] == px[i]);
        assert(res == line_steps(stepped, w, true, a1x, y, a2x, y, den, ca, cb, snum, sden, fixed, k + 1, n));
        assert(res[idx] == stepped[idx]);
        if fixed is None {
            assert forall|i: int|
                ry * w + ceil1 + k <= i < ry * w + ceil1 + n implies #[trigger] res[i]
                == over_rgba(
                interp_rgba(ca.spec_tuple(), cb.spec_tuple(), snum, sden, i - (ry * w + ceil1)),
                px[i],
            ) by {
                assert(0 <= ry * w && ry * w + w <= px.len()) by (nonlinear_arith)
                    requires w > 0 && 0 <= ry && (ry + 1) * w <= px.len();
                if i == idx {
                    assert(res[idx] == over_rgba(
                        interp_rgba(ca.spec_tuple(), cb.spec_tuple(), snum, sden, k),
                        px[idx],
                    ));
                } else {
                    assert(res[i] == over_rgba(
                        interp_rgba(
                            ca.spec_tuple(),
                            cb.spec_tuple(),
                            snum,
                            sden,
                            i - (ry * w + ceil1),
                        ),
                        stepped[i],
                    ));
                    assert(stepped[i] == px[i]);
                }
            }
        }
    }
}

/// A line between two endpoints that differ only along the x axis
/// paints exactly one run of consecutive pixels on its row — no gap,
/// no duplicate: every pixel outside the run from the first grid
/// column at or after the left endpoint up to (excluding) the first
/// at or after the right endpoint is untouched, in either painting
/// mode, and in fixed-color mode every pixel of the run holds the
/// fixed color.
pub proof fn lemma_axis_aligned_run(
    px: Seq<(u8, u8, u8, u8)>,
    w: int,
    x1n: int,
    y1n: int,
    x2n: int,
    den: int,
    c1: Color,
    c2: Color,
    fixed: Option<Color>,
)
    requires
        den > 0,
        w > 0,
        x1n != x2n,
        ({
            let lo = if x1n <= x2n { x1n } else { x2n };
            let hi = if x1n <= x2n { x2n } else { x1n };
            rat_ceil(hi, den) <= rat_ceil(lo, den) || (0 <= rat_ceil(lo, den) && rat_ceil(hi, den)
                <= w)
        }),
        0 <= rat_round(y1n, den),
        (rat_round(y1n, den) + 1) * w <= px.len(),
    ensures
        ({
            let res = line_paint(px, w, x1n, y1n, x2n, y1n, den, c1, c2, fixed);
            let lo = if x1n <= x2n { x1n } else { x2n };
            let hi = if x1n <= x2n { x2n } else { x1n };
            let cl = rat_ceil(lo, den);
            let ch = rat_ceil(hi, den);
            let ry = rat_round(y1n, den);
            let ca = if x1n <= x2n { c1 } else { c2 };
            let cb = if x1n <= x2n { c2 } else { c1 };
            res.len() == px.len() && (forall|i: int|
                0 <= i < px.len() && !(ry * w + cl <= i < ry * w + ch) ==> #[trigger] res[i]
                    == px[i]) && (match fixed {
                Some(c) => forall|i: int|
                    ry * w + cl <= i < ry * w + ch ==> #[trigger] res[i] == c.spec_tuple(),
                None => forall|i: int|
                    ry * w + cl <= i < ry * w + ch ==> #[trigger] res[i] == over_rgba(
                        interp_rgba(
                            ca.spec_tuple(),
                            cb.spec_tuple(),
                            sweep_snum(hi - lo, den),
                            sweep_sden(hi - lo, den),
                            i - (ry * w + cl),
                        ),
                        px[i],
                    ),
            }) && line_pixel_total(x1n, y1n, x2n, y1n, den) == ch - cl
        }),
{
    let lo = if x1n <= x2n { x1n } else { x2n };
    let hi = if x1n <= x2n { x2n } else { x1n };
    let cl = rat_ceil(lo, den);
    let ch = rat_ceil(hi, den);
    let n = line_count(lo, hi, den);
    lemma_rat_ceil_mono(lo, hi, den);
    let dx = x2n - x1n;
    assert(iabs(dx) > 0);
    let swap = if x1n <= x2n { false } else { true };
    let ca = if swap { c2 } else { c1 };
    let cb = if swap { c1 } else { c2 };
    let di = hi - lo;
    lemma_steps_axis_x(
        px,
        w,
        lo,
        y1n,
        hi,
        den,
        ca,
        cb,
        sweep_snum(di, den),
        sweep_sden(di, den),
        fixed,
        0,
        n,
    );
    assert(line_paint(px, w, x1n, y1n, x2n, y1n, den, c1, c2, fixed) == line_steps(
        px,
        w,
        true,
        lo,
        y1n,
        hi,
        y1n,
        den,
        ca,
        cb,
        sweep_snum(di, den),
        sweep_sden(di, den),
        fixed,
        0,
        n,
    ));
}

/// When the two endpoints sit on integer grid columns a and b, the
/// run is exactly round(|displacement|) pixels long.
pub proof fn lemma_axis_aligned_count_int(a: int, b: int, y1n: int, den: int)
    requires
        den > 0,
    ensures
        line_pixel_total(a * den, y1n, b * den, y1n, den) == (if a <= b { b - a } else { a - b }),
        rat_round(iabs(b * den - a * den), den) == (if a <= b { b - a } else { a - b }),
{
    crate::rat::lemma_rat_ceil_int(a, den);
    crate::rat::lemma_rat_ceil_int(b, den);
    assert(b * den - a * den == (b - a) * den) by (nonlinear_arith);
    assert(((b - a) * den < 0) == (b < a) && (((b - a) * den == 0) == (a == b)))
        by (nonlinear_arith)
        requires den > 0;
    if a <= b {
        assert(iabs(b * den - a * den) == (b - a) * den) by (nonlinear_arith)
            requires den > 0 && a <= b;
        crate::rat::lemma_rat_round_int(b - a, den);
    } else {
        assert(iabs(b * den - a * den) == (a - b) * den) by (nonlinear_arith)
            requires den > 0 && a > b;
        crate::rat::lemma_rat_round_int(a - b, den);
    }
    if a == b {
    } else {
        assert(iabs(b * den - a * den) > 0) by (nonlinear_arith) requires den > 0 && a != b;
    }
}

/// Two coincident endpoints paint no pixel at all: the canvas is
/// returned unchanged.
pub proof fn lemma_line_coincident(
    px: Seq<(u8, u8, u8, u8)>,
    w: int,
    xn: int,
    yn: int,
    den: int,
    c1: Color,
    c2: Color,
    fixed: Option<Color>,
)
    ensures
        line_paint(px, w, xn, yn, xn, yn, den, c1, c2, fixed) == px,
{
}

} // verus!
