//! The scanline triangle rasterizer.
//!
//! The three vertices are sorted by ascending y; the fill then walks
//! two edge pairs — first top→mid against the long edge top→bot, then
//! mid→bot against the continuation of that same long edge — and
//! paints one horizontal span per integer scanline, bounded by the
//! two edges' exact sample points and colored at each boundary by
//! that edge's interpolated color. The long edge's step counter keeps
//! advancing across both phases, so its gradient is continuous across
//! the middle scanline. Each span is drawn by the line rasterizer in
//! interpolated-and-composited mode.

use vstd::prelude::*;
use crate::canvas::Canvas;
use crate::color::{over_rgba, Color};
use crate::geom::{Vertex, COORD_ONE};
use crate::interp::{get_step_size, interp_color_pair, interp_rgba, step_den_of, step_num_of};
use crate::raster::{draw_line_rat, line_paint, RatPoint};
use crate::rat::{
    lemma_rat_ceil_bounds, lemma_rat_ceil_mono, lemma_rat_ceil_range, lemma_rat_round_int,
    lemma_rat_round_le_ceil, lemma_rat_round_mono, lemma_rat_round_scale, rat_ceil, rat_ceil_i128,
    rat_round,
};

verus! {

/// The color with the given channel tuple.
pub open spec fn color_of(t: (u8, u8, u8, u8)) -> Color {
    Color { red: t.0, green: t.1, blue: t.2, alpha: t.3 }
}

/// The three vertices in ascending y order, by the stable pairwise
/// compare-and-swap network (first, second), (second, third),
/// (first, second): each swap fires only on strictly greater y, so
/// vertices of equal y keep their argument order.
pub open spec fn sort3(v1: Vertex, v2: Vertex, v3: Vertex) -> (Vertex, Vertex, Vertex) {
    let a0 = if v1.pos.y > v2.pos.y { v2 } else { v1 };
    let a1 = if v1.pos.y > v2.pos.y { v1 } else { v2 };
    let b1 = if a1.pos.y > v3.pos.y { v3 } else { a1 };
    let b2 = if a1.pos.y > v3.pos.y { a1 } else { v3 };
    let c0 = if a0.pos.y > b1.pos.y { b1 } else { a0 };
    let c1 = if a0.pos.y > b1.pos.y { a0 } else { b1 };
    (c0, c1, b2)
}

/// Sort three vertices into ascending y order, stably: equal rows
/// keep their argument order.
pub fn sort_trig_verts_in_y(v1: &Vertex, v2: &Vertex, v3: &Vertex) -> (r: (
    Vertex,
    Vertex,
    Vertex,
))
    ensures
        r == sort3(*v1, *v2, *v3),
        r.0.pos.y <= r.1.pos.y <= r.2.pos.y,
        (r.0 == *v1 || r.0 == *v2 || r.0 == *v3),
        (r.1 == *v1 || r.1 == *v2 || r.1 == *v3),
        (r.2 == *v1 || r.2 == *v2 || r.2 == *v3),
{
    let mut a0: Vertex = *v1;
    let mut a1: Vertex = *v2;
    let mut a2: Vertex = *v3;
    if a0.pos.y > a1.pos.y {
        let t = a0;
        a0 = a1;
        a1 = t;
    }
    if a1.pos.y > a2.pos.y {
        let t = a1;
        a1 = a2;
        a2 = t;
    }
    if a0.pos.y > a1.pos.y {
        let t = a0;
        a0 = a1;
        a1 = t;
    }
    (a0, a1, a2)
}

/// The x numerator of the sample point of edge (u, v) at the integer
/// scanline m, over the denominator COORD_ONE * (v.y - u.y): the edge
/// entered at u, pre-stepped to the next grid row, advanced one row
/// per step.
pub open spec fn edge_xnum(u: Vertex, v: Vertex, m: int) -> int {
    let dyy = v.pos.y - u.pos.y;
    let dxx = v.pos.x - u.pos.x;
    u.pos.x * dyy + (m * COORD_ONE - u.pos.y) * dxx
}

/// One scanline of the fill: the horizontal span at row m from edge
/// P's sample point (colored with P's blend at step kp) to edge C's
/// sample point (colored with C's blend at step kc), painted in
/// interpolated-and-composited mode over the common denominator of
/// the two edges.
pub open spec fn tri_row(
    px: Seq<(u8, u8, u8, u8)>,
    w: int,
    pu: Vertex,
    pv: Vertex,
    kp: int,
    cu: Vertex,
    cv: Vertex,
    kc: int,
    m: int,
) -> Seq<(u8, u8, u8, u8)> {
    let s = COORD_ONE as int;
    let dyp = pv.pos.y - pu.pos.y;
    let dyc = cv.pos.y - cu.pos.y;
    let dd = s * dyp * dyc;
    let pcol = color_of(
        interp_rgba(
            pu.color.spec_tuple(),
            pv.color.spec_tuple(),
            step_num_of(dyp),
            step_den_of(dyp),
            kp,
        ),
    );
    let ccol = color_of(
        interp_rgba(
            cu.color.spec_tuple(),
            cv.color.spec_tuple(),
            step_num_of(dyc),
            step_den_of(dyc),
            kc,
        ),
    );
    line_paint(
        px,
        w,
        edge_xnum(pu, pv, m) * dyc,
        m * dd,
        edge_xnum(cu, cv, m) * dyp,
        m * dd,
        dd,
        pcol,
        ccol,
        None,
    )
}

/// Scanlines k, k+1, ..., n-1 of one sweep phase: edge P starts at
/// its own first grid row, edge C's step counter runs dk ahead of
/// P's.
pub open spec fn tri_sweep(
    px: Seq<(u8, u8, u8, u8)>,
    w: int,
    pu: Vertex,
    pv: Vertex,
    cu: Vertex,
    cv: Vertex,
    dk: int,
    k: int,
    n: int,
) -> Seq<(u8, u8, u8, u8)>
    decreases n - k,
{
    if k >= n {
        px
    } else {
        tri_sweep(
            tri_row(
                px,
                w,
                pu,
                pv,
                k,
                cu,
                cv,
                dk + k,
                rat_ceil(pu.pos.y as int, COORD_ONE as int) + k,
            ),
            w,
            pu,
            pv,
            cu,
            cv,
            dk,
            k + 1,
            n,
        )
    }
}

/// The whole triangle fill: sort the vertices by y, sweep the upper
/// half between edges top→mid and top→bot, then the lower half
/// between mid→bot and the continuation of top→bot.
pub open spec fn triangle_paint(
    px: Seq<(u8, u8, u8, u8)>,
    w: int,
    v1: Vertex,
    v2: Vertex,
    v3: Vertex,
) -> Seq<(u8, u8, u8, u8)> {
    let sorted = sort3(v1, v2, v3);
    let top = sorted.0;
    let mid = sorted.1;
    let bot = sorted.2;
    let s = COORD_ONE as int;
    let na = rat_ceil(mid.pos.y as int, s) - rat_ceil(top.pos.y as int, s);
    let ne = rat_ceil(bot.pos.y as int, s) - rat_ceil(mid.pos.y as int, s);
    let after_upper = tri_sweep(px, w, top, mid, top, bot, 0, 0, na);
    tri_sweep(after_upper, w, mid, bot, top, bot, na, 0, ne)
}

/// Paint one scanline: compute both edges' exact sample points and
/// blended boundary colors at row m, and fill the span between them.
#[verifier::rlimit(100)]
fn fill_row(
    canvas: &mut Canvas,
    pu: &Vertex,
    pv: &Vertex,
    kp: i128,
    cu: &Vertex,
    cv: &Vertex,
    kc: i128,
    m: i128,
)
    requires
        old(canvas).wf(),
        pu.wf(),
        pv.wf(),
        cu.wf(),
        cv.wf(),
        0 <= pu.pos.pixel_x() < old(canvas).width,
        0 <= pv.pos.pixel_x() < old(canvas).width,
        0 <= cu.pos.pixel_x() < old(canvas).width,
        0 <= cv.pos.pixel_x() < old(canvas).width,
        0 <= pu.pos.pixel_y() < old(canvas).height,
        0 <= pv.pos.pixel_y() < old(canvas).height,
        0 <= cu.pos.pixel_y() < old(canvas).height,
        0 <= cv.pos.pixel_y() < old(canvas).height,
        kp >= 0,
        kc >= 0,
        m == rat_ceil(pu.pos.y as int, COORD_ONE as int) + kp,
        m == rat_ceil(cu.pos.y as int, COORD_ONE as int) + kc,
        m * COORD_ONE < pv.pos.y,
        m * COORD_ONE < cv.pos.y,
    ensures
        final(canvas).wf(),
        final(canvas).width == old(canvas).width,
        final(canvas).height == old(canvas).height,
        final(canvas).name == old(canvas).name,
        final(canvas).pixels() == tri_row(
            old(canvas).pixels(),
            old(canvas).width as int,
            *pu,
            *pv,
            kp as int,
            *cu,
            *cv,
            kc as int,
            m as int,
        ),
{
    let s: i128 = COORD_ONE as i128;
    let ghost gs = s as int;
    let dyp: i128 = pv.pos.y as i128 - pu.pos.y as i128;
    let dxp: i128 = pv.pos.x as i128 - pu.pos.x as i128;
    let dyc: i128 = cv.pos.y as i128 - cu.pos.y as i128;
    let dxc: i128 = cv.pos.x as i128 - cu.pos.x as i128;
    proof {
        // m is at or after each edge's first grid row, strictly
        // before its lower endpoint: both edges descend through row m
        lemma_rat_ceil_bounds(pu.pos.y as int, gs);
        lemma_rat_ceil_bounds(cu.pos.y as int, gs);
        lemma_rat_ceil_bounds(pv.pos.y as int, gs);
        lemma_rat_ceil_bounds(cv.pos.y as int, gs);
        lemma_rat_ceil_range(pu.pos.y as int, gs);
        lemma_rat_ceil_range(cu.pos.y as int, gs);
        lemma_rat_round_le_ceil(pu.pos.y as int, gs);
        lemma_rat_round_le_ceil(pv.pos.y as int, gs);
        assert(m * gs >= rat_ceil(pu.pos.y as int, gs) * gs && m * gs >= rat_ceil(
            cu.pos.y as int,
            gs,
        ) * gs) by (nonlinear_arith)
            requires
                gs > 0 && m >= rat_ceil(pu.pos.y as int, gs) && m >= rat_ceil(cu.pos.y as int, gs);
        assert(-32768 <= m);
        assert(dyp > 0 && dyc > 0);
        // m stays below each edge's last row, so it is a canvas row
        assert(m < rat_ceil(pv.pos.y as int, gs)) by (nonlinear_arith)
            requires
                gs > 0 && (m as int) * gs < pv.pos.y && pv.pos.y <= rat_ceil(pv.pos.y as int, gs)
                    * gs;
        assert(0 <= m < old(canvas).height);
        assert(0 <= kp <= 0x10000 + 32768 && 0 <= kc <= 0x10000 + 32768);
    }
    let ep: i128 = m * s - pu.pos.y as i128;
    let ec: i128 = m * s - cu.pos.y as i128;
    proof {
        assert(0 <= ep < dyp && 0 <= ec < dyc) by (nonlinear_arith)
            requires
                gs > 0 && ep == m * gs - pu.pos.y && ec == m * gs - cu.pos.y && m * gs >= rat_ceil(
                    pu.pos.y as int,
                    gs,
                ) * gs && m * gs >= rat_ceil(cu.pos.y as int, gs) * gs && rat_ceil(
                    pu.pos.y as int,
                    gs,
                ) * gs >= pu.pos.y && rat_ceil(cu.pos.y as int, gs) * gs >= cu.pos.y && m * gs
                    < pv.pos.y && m * gs < cv.pos.y && dyp == pv.pos.y - pu.pos.y && dyc
                    == cv.pos.y - cu.pos.y;
        let big: int = 0x1_0000_0000_0000_0000_0000;
        assert(-big <= (pu.pos.x as int) * dyp <= big && -big <= (ep as int) * dxp <= big && -big
            <= (cu.pos.x as int) * dyc <= big && -big <= (ec as int) * dxc <= big)
            by (nonlinear_arith)
            requires
                big == 0x1_0000_0000_0000_0000_0000 && -0x1_0000_0000 <= pu.pos.x
                    <= 0x1_0000_0000 && -0x1_0000_0000 <= cu.pos.x <= 0x1_0000_0000 && 0 <= ep
                    < dyp && 0 <= ec < dyc && 0 < dyp <= 0x1_0000_0000 && 0 < dyc
                    <= 0x1_0000_0000 && -0x1_0000_0000 <= dxp <= 0x1_0000_0000
                    && -0x1_0000_0000 <= dxc <= 0x1_0000_0000;
    }
    let xp_num: i128 = pu.pos.x as i128 * dyp + ep * dxp;
    let xc_num: i128 = cu.pos.x as i128 * dyc + ec * dxc;
    proof {
        assert(1 <= (gs * dyp) * dyc <= 0x1_0000_0000_0000_0000_0000 && 1 <= gs * dyp
            <= 0x1_0000_0000_0000) by (nonlinear_arith)
            requires gs == 0x10000 && 0 < dyp <= 0x1_0000_0000 && 0 < dyc <= 0x1_0000_0000;
    }
    let dd: i128 = s * dyp * dyc;
    proof {
        let gdyp = dyp as int;
        let gdyc = dyc as int;
        assert(0 < gdyp <= 0x1_0000_0000 && 0 < gdyc <= 0x1_0000_0000);
        assert(1 <= gs * gdyp * gdyc <= 0x1_0000_0000_0000_0000_0000 && gs * gdyp <= 0x1_0000_0000_0000
            && (gs * gdyp) * gdyc == gs * gdyp * gdyc) by (nonlinear_arith)
            requires gs == 0x10000 && 0 < gdyp <= 0x1_0000_0000 && 0 < gdyc <= 0x1_0000_0000;
        // each edge's sample point lies between its endpoints
        lemma_edge_between(*pu, *pv, ep as int, xp_num as int);
        lemma_edge_between(*cu, *cv, ec as int, xc_num as int);
        // and so within 32768 pixels of the origin, and on the canvas
        lemma_rat_round_scale(xp_num as int, gs * gdyp, gdyc);
        lemma_rat_round_scale(xc_num as int, gs * gdyc, gdyp);
        assert((gs * gdyc) * gdyp == gs * gdyp * gdyc) by (nonlinear_arith);
        assert(-(gs * gdyp * gdyc) * 32768 <= xp_num * gdyc <= (gs * gdyp * gdyc) * 32768
            && -(gs * gdyp * gdyc) * 32768 <= xc_num * gdyp <= (gs * gdyp * gdyc) * 32768
            && -(gs * gdyp * gdyc) * 32768 <= m * (gs * gdyp * gdyc) <= (gs * gdyp * gdyc) * 32768)
            by (nonlinear_arith)
            requires
                gs > 0 && 0 < gdyp && 0 < gdyc && -(gs * gdyp) * 32768 <= xp_num <= (gs * gdyp)
                    * 32768 && -(gs * gdyc) * 32768 <= xc_num <= (gs * gdyc) * 32768 && -32768 <= m
                    <= 32768;
        lemma_rat_round_int(m as int, gs * gdyp * gdyc);
    }
    let p1 = RatPoint { xn: xp_num * dyc, yn: m * dd, den: dd };
    let p2 = RatPoint { xn: xc_num * dyp, yn: m * dd, den: dd };
    let ssp = get_step_size(pu, pv, 1);
    let ssc = get_step_size(cu, cv, 1);
    let colp = Color::from_tuple(interp_color_pair(pu.color, pv.color, ssp.num, ssp.den, kp as i64));
    let colc = Color::from_tuple(interp_color_pair(cu.color, cv.color, ssc.num, ssc.den, kc as i64));
    draw_line_rat(canvas, p1, colp, p2, colc, None);
}

/// The sample point of an edge at interior progress e of its descent
/// lies between the edge's endpoints, and rounds onto the canvas
/// whenever both endpoints do.
proof fn lemma_edge_between(u: Vertex, v: Vertex, e: int, xnum: int)
    requires
        u.wf(),
        v.wf(),
        v.pos.y > u.pos.y,
        0 <= e < v.pos.y - u.pos.y,
        xnum == u.pos.x * (v.pos.y - u.pos.y) + e * (v.pos.x - u.pos.x),
    ensures
        -(COORD_ONE * (v.pos.y - u.pos.y)) * 32768 <= xnum <= (COORD_ONE * (v.pos.y - u.pos.y))
            * 32768,
        u.pos.pixel_x() <= rat_round(xnum, COORD_ONE * (v.pos.y - u.pos.y)) <= v.pos.pixel_x()
            || v.pos.pixel_x() <= rat_round(xnum, COORD_ONE * (v.pos.y - u.pos.y))
            <= u.pos.pixel_x(),
{
    let s = COORD_ONE as int;
    let dy = v.pos.y - u.pos.y;
    let dx = v.pos.x - u.pos.x;
    let lo = u.pos.x * dy;
    let hi = v.pos.x * dy;
    assert(0 < dy <= 0x1_0000_0000);
    assert(v.pos.x * dy == u.pos.x * dy + dy * (v.pos.x - u.pos.x)) by (nonlinear_arith);
    if dx >= 0 {
        assert(lo <= xnum <= hi) by (nonlinear_arith)
            requires 0 <= e < dy && dx >= 0 && xnum == lo + e * dx && hi == lo + dy * dx;
    } else {
        assert(hi <= xnum <= lo) by (nonlinear_arith)
            requires 0 <= e < dy && dx < 0 && xnum == lo + e * dx && hi == lo + dy * dx;
    }
    assert(-(s * dy) * 32768 <= u.pos.x * dy <= (s * dy) * 32768 && -(s * dy) * 32768 <= v.pos.x
        * dy <= (s * dy) * 32768) by (nonlinear_arith)
        requires 0 < dy && s == 0x10000 && -s * 32768 <= u.pos.x <= s * 32768 && -s * 32768
            <= v.pos.x <= s * 32768;
    lemma_rat_round_scale(u.pos.x as int, s, dy);
    lemma_rat_round_scale(v.pos.x as int, s, dy);
    assert(s * dy > 0) by (nonlinear_arith) requires s > 0 && dy > 0;
    if dx >= 0 {
        lemma_rat_round_mono(lo, xnum, s * dy);
        lemma_rat_round_mono(xnum, hi, s * dy);
    } else {
        lemma_rat_round_mono(hi, xnum, s * dy);
        lemma_rat_round_mono(xnum, lo, s * dy);
    }
}

/// Every genuine scanline of the fill paints exactly one contiguous
/// horizontal run at its row — no gap, no duplicate — and nothing
/// else of the canvas; each run pixel is the span blend at its own
/// column composited over the prior content, so in particular the
/// leftmost run pixel carries the left edge's interpolated color at
/// that row, composited over what was under it.
pub proof fn lemma_tri_row_span(
    px: Seq<(u8, u8, u8, u8)>,
    w: int,
    pu: Vertex,
    pv: Vertex,
    kp: int,
    cu: Vertex,
    cv: Vertex,
    kc: int,
    m: int,
)
    requires
        w > 0,
        pv.pos.y > pu.pos.y,
        cv.pos.y > cu.pos.y,
        0 <= m,
        (m + 1) * w <= px.len(),
        ({
            let dyp = pv.pos.y - pu.pos.y;
            let dyc = cv.pos.y - cu.pos.y;
            let dd = COORD_ONE * dyp * dyc;
            let x1 = edge_xnum(pu, pv, m) * dyc;
            let x2 = edge_xnum(cu, cv, m) * dyp;
            let lo = if x1 <= x2 { x1 } else { x2 };
            let hi = if x1 <= x2 { x2 } else { x1 };
            x1 != x2 && 0 <= rat_ceil(lo, dd) && rat_ceil(hi, dd) <= w
        }),
    ensures
        ({
            let res = tri_row(px, w, pu, pv, kp, cu, cv, kc, m);
            let dyp = pv.pos.y - pu.pos.y;
            let dyc = cv.pos.y - cu.pos.y;
            let dd = COORD_ONE * dyp * dyc;
            let x1 = edge_xnum(pu, pv, m) * dyc;
            let x2 = edge_xnum(cu, cv, m) * dyp;
            let lo = if x1 <= x2 { x1 } else { x2 };
            let hi = if x1 <= x2 { x2 } else { x1 };
            let cl = rat_ceil(lo, dd);
            let ch = rat_ceil(hi, dd);
            let pcol = interp_rgba(
                pu.color.spec_tuple(),
                pv.color.spec_tuple(),
                step_num_of(dyp),
                step_den_of(dyp),
                kp,
            );
            let ccol = interp_rgba(
                cu.color.spec_tuple(),
                cv.color.spec_tuple(),
                step_num_of(dyc),
                step_den_of(dyc),
                kc,
            );
            let left = if x1 <= x2 { pcol } else { ccol };
            res.len() == px.len() && (forall|i: int|
                0 <= i < px.len() && !(m * w + cl <= i < m * w + ch) ==> #[trigger] res[i]
                    == px[i]) && (cl < ch ==> res[m * w + cl] == over_rgba(
                left,
                px[m * w + cl],
            ))
        }),
{
    let dyp = pv.pos.y - pu.pos.y;
    let dyc = cv.pos.y - cu.pos.y;
    let dd = COORD_ONE * dyp * dyc;
    let x1 = edge_xnum(pu, pv, m) * dyc;
    let x2 = edge_xnum(cu, cv, m) * dyp;
    let lo = if x1 <= x2 { x1 } else { x2 };
    let hi = if x1 <= x2 { x2 } else { x1 };
    let cl = rat_ceil(lo, dd);
    let ch = rat_ceil(hi, dd);
    assert(dd > 0) by (nonlinear_arith)
        requires dd == COORD_ONE * dyp * dyc && COORD_ONE == 0x10000 && dyp > 0 && dyc > 0;
    lemma_rat_round_int(m, dd);
    let pc = color_of(
        interp_rgba(
            pu.color.spec_tuple(),
            pv.color.spec_tuple(),
            step_num_of(dyp),
            step_den_of(dyp),
            kp,
        ),
    );
    let cc = color_of(
        interp_rgba(
            cu.color.spec_tuple(),
            cv.color.spec_tuple(),
            step_num_of(dyc),
            step_den_of(dyc),
            kc,
        ),
    );
    assert(tri_row(px, w, pu, pv, kp, cu, cv, kc, m) == crate::raster::line_paint(
        px,
        w,
        x1,
        m * dd,
        x2,
        m * dd,
        dd,
        pc,
        cc,
        None,
    ));
    crate::raster::lemma_axis_aligned_run(px, w, x1, m * dd, x2, dd, pc, cc, None);
    if cl < ch {
        let ca = if x1 <= x2 { pc } else { cc };
        let cb = if x1 <= x2 { cc } else { pc };
        crate::interp::lemma_interp_at_zero(
            ca.spec_tuple(),
            cb.spec_tuple(),
            crate::raster::sweep_snum(hi - lo, dd),
            crate::raster::sweep_sden(hi - lo, dd),
        );
    }
}

/// Fill the triangle spanned by three vertices with the blend of
/// their colors, composited over the canvas content: the upper sweep
/// walks edges top→mid and top→bot, the lower sweep edge mid→bot and
/// the continuation of top→bot, one painted horizontal span per
/// scanline. Degenerate triangles fall out as sweeps of zero rows.
#[verifier::rlimit(100)]
#[verifier::loop_isolation(false)]
pub fn draw_triangle(canvas: &mut Canvas, v1: &Vertex, v2: &Vertex, v3: &Vertex)
    requires
        old(canvas).wf(),
        v1.wf(),
        v2.wf(),
        v3.wf(),
        0 <= v1.pos.pixel_x() < old(canvas).width,
        0 <= v2.pos.pixel_x() < old(canvas).width,
        0 <= v3.pos.pixel_x() < old(canvas).width,
        0 <= v1.pos.pixel_y() < old(canvas).height,
        0 <= v2.pos.pixel_y() < old(canvas).height,
        0 <= v3.pos.pixel_y() < old(canvas).height,
    ensures
        final(canvas).wf(),
        final(canvas).width == old(canvas).width,
        final(canvas).height == old(canvas).height,
        final(canvas).name == old(canvas).name,
        final(canvas).pixels() == triangle_paint(
            old(canvas).pixels(),
            old(canvas).width as int,
            *v1,
            *v2,
            *v3,
        ),
{
    let ghost gw = old(canvas).width as int;
    let ghost old_px = old(canvas).pixels();
    let sorted = sort_trig_verts_in_y(v1, v2, v3);
    let top = sorted.0;
    let mid = sorted.1;
    let bot = sorted.2;
    let s: i128 = COORD_ONE as i128;
    let ghost gs = s as int;
    let cty: i128 = rat_ceil_i128(top.pos.y as i128, s);
    let cmy: i128 = rat_ceil_i128(mid.pos.y as i128, s);
    let cby: i128 = rat_ceil_i128(bot.pos.y as i128, s);
    proof {
        lemma_rat_ceil_mono(top.pos.y as int, mid.pos.y as int, gs);
        lemma_rat_ceil_mono(mid.pos.y as int, bot.pos.y as int, gs);
        lemma_rat_ceil_bounds(top.pos.y as int, gs);
        lemma_rat_ceil_bounds(mid.pos.y as int, gs);
        lemma_rat_ceil_bounds(bot.pos.y as int, gs);
    }
    let na: i128 = cmy - cty;
    let ne: i128 = cby - cmy;
    let ghost after_upper = tri_sweep(old_px, gw, top, mid, top, bot, 0, 0, na as int);
    let mut k: i128 = 0;
    while k < na
        invariant
            0 <= k <= na,
            canvas.wf(),
            canvas.width == old(canvas).width,
            canvas.height == old(canvas).height,
            canvas.name == old(canvas).name,
            tri_sweep(canvas.pixels(), gw, top, mid, top, bot, 0, k as int, na as int)
                == after_upper,
        decreases na - k,
    {
        proof {
            assert((cty + k) * gs <= (cmy - 1) * gs) by (nonlinear_arith)
                requires gs > 0 && cty + k <= cmy - 1;
            assert((cmy - 1) * gs < mid.pos.y);
            assert((cmy - 1) * gs <= (cby - 1) * gs) by (nonlinear_arith)
                requires gs > 0 && cmy <= cby;
            assert((cty + k) * gs < bot.pos.y);
        }
        let ghost before_px = canvas.pixels();
        fill_row(canvas, &top, &mid, k, &top, &bot, k, cty + k);
        proof {
            assert(tri_sweep(before_px, gw, top, mid, top, bot, 0, k as int, na as int)
                == tri_sweep(canvas.pixels(), gw, top, mid, top, bot, 0, k as int + 1, na as int));
        }
        k = k + 1;
    }
    proof {
        assert(canvas.pixels() == after_upper);
    }
    let ghost after_lower = tri_sweep(after_upper, gw, mid, bot, top, bot, na as int, 0, ne as int);
    let mut k2: i128 = 0;
    while k2 < ne
        invariant
            0 <= k2 <= ne,
            canvas.wf(),
            canvas.width == old(canvas).width,
            canvas.height == old(canvas).height,
            canvas.name == old(canvas).name,
            tri_sweep(canvas.pixels(), gw, mid, bot, top, bot, na as int, k2 as int, ne as int)
                == after_lower,
        decreases ne - k2,
    {
        proof {
            assert((cmy + k2) * gs <= (cby - 1) * gs) by (nonlinear_arith)
                requires gs > 0 && cmy + k2 <= cby - 1;
            assert((cmy + k2) * gs < bot.pos.y);
        }
        let ghost before_px = canvas.pixels();
        fill_row(canvas, &mid, &bot, k2, &top, &bot, na + k2, cmy + k2);
        proof {
            assert(tri_sweep(before_px, gw, mid, bot, top, bot, na as int, k2 as int, ne as int)
                == tri_sweep(
                canvas.pixels(),
                gw,
                mid,
                bot,
                top,
                bot,
                na as int,
                k2 as int + 1,
                ne as int,
            ));
        }
        k2 = k2 + 1;
    }
    proof {
        assert(canvas.pixels() == after_lower);
        assert(after_lower == triangle_paint(old_px, gw, *v1, *v2, *v3));
    }
}

} // verus!
