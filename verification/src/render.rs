//! From hand unit vectors and parameters to the frame's draw primitives:
//! the three hands, the recursive branches (culled against the viewport),
//! and the decorative ring with its ticks and hour numbers.

use vstd::prelude::*;
use crate::fixed::{fp_abs, fp_mul, SCALE, mul_fp};
use crate::geom::{
    Fp2, V2, Rotor, RectPx, Xform, XF, norm1, rot_apply, rotor_apply, seg_hits, seg_hits_px,
    spec_apply, spec_transform, make_transform, apply, hand_vec, lemma_rot_norm,
    lemma_scale_norm, UNIT_NORM_CAP, ROTOR_NORM_CAP, COORD_LIMIT,
};
use crate::color::{Rgba, Palette, spec_additive, additive_luminance};
use crate::fractal::{
    Node, NodeV, BranchSeg, BranchSegV, segs_view, branch_model, branch_segments,
};

verus! {

/// One draw primitive, in device micro-pixel coordinates.
#[derive(Clone, Copy, Debug, PartialEq, Eq, Structural)]
pub enum Primitive {
    /// a stroked line segment
    Line { p0: Fp2, p1: Fp2, width: i64, color: Rgba },
    /// a filled axis-aligned rectangle
    RectFill { min: Fp2, max: Fp2, color: Rgba },
    /// a circle outline
    Circle { center: Fp2, radius: i64, width: i64, color: Rgba },
    /// an hour number, centred at a point
    Text { pos: Fp2, hour: u8, color: Rgba },
}

/// Mathematical model of a primitive.
pub ghost enum PrimV {
    Line { p0: V2, p1: V2, width: int, color: Rgba },
    RectFill { min: V2, max: V2, color: Rgba },
    Circle { center: V2, radius: int, width: int, color: Rgba },
    Text { pos: V2, hour: int, color: Rgba },
}

impl View for Primitive {
    type V = PrimV;

    open spec fn view(&self) -> PrimV {
        match *self {
            Primitive::Line { p0, p1, width, color } => PrimV::Line {
                p0: p0@,
                p1: p1@,
                width: width as int,
                color: color,
            },
            Primitive::RectFill { min, max, color } => PrimV::RectFill {
                min: min@,
                max: max@,
                color: color,
            },
            Primitive::Circle { center, radius, width, color } => PrimV::Circle {
                center: center@,
                radius: radius as int,
                width: width as int,
                color: color,
            },
            Primitive::Text { pos, hour, color } => PrimV::Text {
                pos: pos@,
                hour: hour as int,
                color: color,
            },
        }
    }
}

pub open spec fn prims_view(s: Seq<Primitive>) -> Seq<PrimV> {
    s.map_values(|p: Primitive| p@)
}

pub open spec fn pts_view(s: Seq<Fp2>) -> Seq<V2> {
    s.map_values(|p: Fp2| p@)
}

/// Which optional decorations a frame carries.
#[derive(Clone, Copy, Debug, PartialEq, Eq, Structural)]
pub struct RenderOptions {
    /// circle border, centre marker, ticks and hour numbers
    pub ring_decoration: bool,
    /// a long colored pointer under each hand
    pub colored_pointer_overlay: bool,
}

/// The unit vectors of the three hand angles, evaluated by the renderer in
/// front of the library (the only trigonometry in the program).
#[derive(Clone, Copy, Debug, PartialEq, Eq, Structural)]
pub struct HandUnits {
    pub second: Fp2,
    pub minute: Fp2,
    pub hour: Fp2,
}

/// A usable set of hand units: each within `sqrt(2)` (plus rounding slack)
/// of taxicab norm.
pub open spec fn units_wf(h: HandUnits) -> bool {
    &&& norm1(h.second@) <= UNIT_NORM_CAP as int
    &&& norm1(h.minute@) <= UNIT_NORM_CAP as int
    &&& norm1(h.hour@) <= UNIT_NORM_CAP as int
}

proof fn lemma_prims_view_push(s: Seq<Primitive>, x: Primitive)
    ensures
        prims_view(s.push(x)) == prims_view(s).push(x@),
{
    assert(prims_view(s.push(x)) =~= prims_view(s).push(x@));
}

/// A vector scaled componentwise into fixed point.
pub open spec fn scaled(len: int, u: V2) -> V2 {
    V2 { x: fp_mul(len, u.x), y: fp_mul(len, u.y) }
}

/// The rotor that carries the hour hand's frame onto a branching hand: the
/// hand's unit rotated by the negated hour angle, turned half a revolution,
/// and scaled by the hand's length.
pub open spec fn spec_rotor(len: int, hand_u: V2, hour_u: V2) -> V2 {
    let u = rot_apply(V2 { x: hour_u.x, y: -hour_u.y }, hand_u);
    V2 { x: fp_mul(len, -u.x), y: fp_mul(len, -u.y) }
}

/// Build the rotor for one branching hand.
pub fn derive_rotor(len: i64, hand_u: &Fp2, hour_u: &Fp2) -> (r: Rotor)
    requires
        0 <= len <= SCALE,
        norm1(hand_u@) <= UNIT_NORM_CAP as int,
        norm1(hour_u@) <= UNIT_NORM_CAP as int,
    ensures
        r@ == spec_rotor(len as int, hand_u@, hour_u@),
        norm1(r@) <= ROTOR_NORM_CAP as int,
{
    let conj = Rotor { re: hour_u.x, im: -hour_u.y };
    proof {
        assert(norm1(conj@) <= UNIT_NORM_CAP as int);
    }
    let u = rotor_apply(&conj, hand_u, Ghost(UNIT_NORM_CAP as int));
    proof {
        lemma_rot_norm(conj@, hand_u@);
        assert(norm1(conj@) * norm1(hand_u@) <= (UNIT_NORM_CAP as int) * (UNIT_NORM_CAP as int))
            by (nonlinear_arith)
            requires
                0 <= norm1(conj@) <= UNIT_NORM_CAP as int,
                0 <= norm1(hand_u@) <= UNIT_NORM_CAP as int,
        ;
        vstd::arithmetic::div_mod::lemma_div_is_ordered(
            norm1(conj@) * norm1(hand_u@),
            (UNIT_NORM_CAP as int) * (UNIT_NORM_CAP as int),
            SCALE as int,
        );
        assert((UNIT_NORM_CAP as int) * (UNIT_NORM_CAP as int) == 2_016_400_000_000int)
            by (nonlinear_arith);
        assert(2_016_400_000_000int / (SCALE as int) == 2_016_400) by {
            vstd::arithmetic::div_mod::lemma_fundamental_div_mod_converse(
                2_016_400_000_000,
                SCALE as int,
                2_016_400,
                0,
            );
        }
        assert(norm1(u@) <= 2_016_400);
    }
    let nu = Fp2 { x: -u.x, y: -u.y };
    proof {
        assert(norm1(nu@) == norm1(u@));
        lemma_scale_norm(len as int, nu@);
        assert(fp_abs(len as int) * fp_abs(nu@.x) <= (i64::MAX as int) * (SCALE as int))
            by (nonlinear_arith)
            requires
                0 <= len <= SCALE,
                fp_abs(nu@.x) <= 3_000_000,
                SCALE as int == 1_000_000,
        ;
        assert(fp_abs(len as int) * fp_abs(nu@.y) <= (i64::MAX as int) * (SCALE as int))
            by (nonlinear_arith)
            requires
                0 <= len <= SCALE,
                fp_abs(nu@.y) <= 3_000_000,
                SCALE as int == 1_000_000,
        ;
    }
    let re = mul_fp(len, nu.x);
    let im = mul_fp(len, nu.y);
    Rotor { re, im }
}

/// A line from `a` to `b`, transformed to device space and kept only when
/// its bounding box meets the viewport.
pub open spec fn spec_line(t: XF, a: V2, b: V2, w: int, c: Rgba, vp: RectPx) -> Seq<PrimV> {
    let d0 = spec_apply(t, a);
    let d1 = spec_apply(t, b);
    if seg_hits(d0, d1, vp) {
        seq![PrimV::Line { p0: d0, p1: d1, width: w, color: c }]
    } else {
        Seq::empty()
    }
}

/// Transform, cull, and append one line segment.
fn push_line(
    out: &mut Vec<Primitive>,
    x: &Xform,
    vp: &RectPx,
    p0: &Fp2,
    p1: &Fp2,
    width: i64,
    color: Rgba,
)
    requires
        x.wf(),
        fp_abs(p0@.x) <= COORD_LIMIT as int,
        fp_abs(p0@.y) <= COORD_LIMIT as int,
        fp_abs(p1@.x) <= COORD_LIMIT as int,
        fp_abs(p1@.y) <= COORD_LIMIT as int,
    ensures
        prims_view(final(out)@) == prims_view(old(out)@) + spec_line(
            x@,
            p0@,
            p1@,
            width as int,
            color,
            *vp,
        ),
{
    let d0 = apply(x, p0);
    let d1 = apply(x, p1);
    let ghost pre = out@;
    if seg_hits_px(&d0, &d1, vp) {
        let prim = Primitive::Line { p0: d0, p1: d1, width, color };
        out.push(prim);
        proof {
            lemma_prims_view_push(pre, prim);
            assert(prims_view(pre).push(prim@) =~= prims_view(pre) + spec_line(
                x@,
                p0@,
                p1@,
                width as int,
                color,
                *vp,
            ));
        }
    } else {
        proof {
            assert(prims_view(pre) =~= prims_view(pre) + spec_line(
                x@,
                p0@,
                p1@,
                width as int,
                color,
                *vp,
            ));
        }
    }
}

/// Everything one hand contributes: the optional colored pointer overlay
/// (from -0.5 to 2.1 of the hand vector, slightly narrower), then the
/// full-brightness hand line from the origin to the tip.
pub open spec fn spec_hand(
    t: XF,
    v: V2,
    w: int,
    overlay: bool,
    ocolor: Rgba,
    vp: RectPx,
) -> Seq<PrimV> {
    let over = if overlay {
        spec_line(
            t,
            scaled(-500_000, v),
            scaled(2_100_000, v),
            fp_mul(w, 930_000),
            ocolor,
            vp,
        )
    } else {
        Seq::empty()
    };
    over + spec_line(t, V2 { x: 0, y: 0 }, v, w, spec_additive(255), vp)
}

/// Append one hand's primitives.
fn hand_prims(
    out: &mut Vec<Primitive>,
    x: &Xform,
    vp: &RectPx,
    v: &Fp2,
    w: i64,
    overlay: bool,
    ocolor: Rgba,
)
    requires
        x.wf(),
        0 <= w <= 5 * SCALE,
        norm1(v@) <= 2 * (SCALE as int),
    ensures
        prims_view(final(out)@) == prims_view(old(out)@) + spec_hand(
            x@,
            v@,
            w as int,
            overlay,
            ocolor,
            *vp,
        ),
{
    let ghost pre = out@;
    if overlay {
        proof {
            lemma_scale_norm(500_000, v@);
            crate::fixed::lemma_fp_mul_abs_le(-500_000, v@.x, SCALE as int);
            crate::fixed::lemma_fp_mul_abs_le(-500_000, v@.y, SCALE as int);
            crate::fixed::lemma_fp_mul_abs_le(2_100_000, v@.x, 5 * (SCALE as int));
            crate::fixed::lemma_fp_mul_abs_le(2_100_000, v@.y, 5 * (SCALE as int));
            assert(500_000 * fp_abs(v@.x) <= (SCALE as int) * (SCALE as int)) by (nonlinear_arith)
                requires
                    fp_abs(v@.x) <= 2 * (SCALE as int),
                    SCALE as int == 1_000_000,
            ;
            assert(500_000 * fp_abs(v@.y) <= (SCALE as int) * (SCALE as int)) by (nonlinear_arith)
                requires
                    fp_abs(v@.y) <= 2 * (SCALE as int),
                    SCALE as int == 1_000_000,
            ;
            assert(2_100_000 * fp_abs(v@.x) <= 5 * (SCALE as int) * (SCALE as int))
                by (nonlinear_arith)
                requires
                    fp_abs(v@.x) <= 2 * (SCALE as int),
                    SCALE as int == 1_000_000,
            ;
            assert(2_100_000 * fp_abs(v@.y) <= 5 * (SCALE as int) * (SCALE as int))
                by (nonlinear_arith)
                requires
                    fp_abs(v@.y) <= 2 * (SCALE as int),
                    SCALE as int == 1_000_000,
            ;
            assert(fp_abs(-500_000) == 500_000 && fp_abs(2_100_000) == 2_100_000);
            assert(fp_abs(w as int) * fp_abs(930_000) <= (i64::MAX as int) * (SCALE as int))
                by (nonlinear_arith)
                requires
                    0 <= w <= 5 * SCALE,
                    SCALE as int == 1_000_000,
            ;
        }
        let o0 = Fp2 { x: mul_fp(-500_000, v.x), y: mul_fp(-500_000, v.y) };
        let o1 = Fp2 { x: mul_fp(2_100_000, v.x), y: mul_fp(2_100_000, v.y) };
        let ow = mul_fp(w, 930_000);
        push_line(out, x, vp, &o0, &o1, ow, ocolor);
    } else {
        proof {
            assert(prims_view(pre) =~= prims_view(pre) + Seq::<PrimV>::empty());
        }
    }
    let ghost mid = out@;
    let origin = Fp2 { x: 0, y: 0 };
    push_line(out, x, vp, &origin, v, w, additive_luminance(255));
    proof {
        let over = if overlay {
            spec_line(
                x@,
                scaled(-500_000, v@),
                scaled(2_100_000, v@),
                fp_mul(w as int, 930_000),
                ocolor,
                *vp,
            )
        } else {
            Seq::<PrimV>::empty()
        };
        let main = spec_line(x@, V2 { x: 0, y: 0 }, v@, w as int, spec_additive(255), *vp);
        assert(prims_view(mid) == prims_view(pre) + over);
        assert((prims_view(pre) + over) + main =~= prims_view(pre) + (over + main));
    }
}

/// The branch segments that survive culling, as line primitives in their
/// additive level luminance, in emission order.
pub open spec fn culled_prims(model: Seq<BranchSegV>, t: XF, vp: RectPx) -> Seq<PrimV>
    decreases model.len(),
{
    if model.len() == 0 {
        Seq::empty()
    } else {
        let s = model.last();
        culled_prims(model.drop_last(), t, vp) + spec_line(
            t,
            s.p0,
            s.p1,
            s.width,
            spec_additive(s.lum as u8),
            vp,
        )
    }
}

/// Transform and cull the whole branch list, appending the survivors.
fn emit_branches(out: &mut Vec<Primitive>, x: &Xform, vp: &RectPx, model: &Vec<BranchSeg>)
    requires
        x.wf(),
        forall|i: int|
            0 <= i < model@.len() ==> norm1(#[trigger] model@[i]@.p0) <= COORD_LIMIT as int
                && norm1(model@[i]@.p1) <= COORD_LIMIT as int,
    ensures
        prims_view(final(out)@) == prims_view(old(out)@) + culled_prims(
            segs_view(model@),
            x@,
            *vp,
        ),
{
    let ghost pre = out@;
    let n = model.len();
    let mut i: usize = 0;
    while i < n
        invariant
            i <= n,
            n == model@.len(),
            x.wf(),
            forall|j: int|
                0 <= j < model@.len() ==> norm1(#[trigger] model@[j]@.p0) <= COORD_LIMIT as int
                    && norm1(model@[j]@.p1) <= COORD_LIMIT as int,
            prims_view(out@) == prims_view(pre) + culled_prims(
                segs_view(model@.take(i as int)),
                x@,
                *vp,
            ),
        decreases n - i,
    {
        let seg = model[i];
        proof {
            assert(norm1(model@[i as int]@.p0) <= COORD_LIMIT as int);
        }
        let ghost before = prims_view(out@);
        push_line(out, x, vp, &seg.p0, &seg.p1, seg.width, additive_luminance(seg.lum));
        proof {
            let tk1 = segs_view(model@.take(i as int + 1));
            assert(tk1.drop_last() =~= segs_view(model@.take(i as int)));
            assert(tk1.last() == model@[i as int]@);
            assert(tk1.len() == i + 1);
            let sl = spec_line(
                x@,
                seg.p0@,
                seg.p1@,
                seg.width as int,
                spec_additive(seg.lum),
                *vp,
            );
            assert((seg@.lum as u8) == seg.lum);
            assert(culled_prims(tk1, x@, *vp) == culled_prims(
                segs_view(model@.take(i as int)),
                x@,
                *vp,
            ) + sl);
            assert((prims_view(pre) + culled_prims(segs_view(model@.take(i as int)), x@, *vp))
                + sl =~= prims_view(pre) + (culled_prims(
                segs_view(model@.take(i as int)),
                x@,
                *vp,
            ) + sl));
        }
        i += 1;
    }
    proof {
        assert(model@.take(n as int) =~= model@);
    }
}

/// The device-space line primitive of one branch segment.
pub open spec fn seg_prim(t: XF, s: BranchSegV) -> PrimV {
    PrimV::Line {
        p0: spec_apply(t, s.p0),
        p1: spec_apply(t, s.p1),
        width: s.width,
        color: spec_additive(s.lum as u8),
    }
}

/// Whether a branch segment's device bounding box meets the viewport.
pub open spec fn seg_visible(t: XF, s: BranchSegV, vp: RectPx) -> bool {
    seg_hits(spec_apply(t, s.p0), spec_apply(t, s.p1), vp)
}

/// Culling filters the emitted primitives and nothing more: every culled
/// primitive is the device image of a model segment whose box meets the
/// viewport, and every model segment whose box meets the viewport appears
/// in the culled output. The model itself takes no viewport at all, so a
/// segment entirely outside the viewport is dropped from the output while
/// the recursion's nodes and later segments are what they would be under
/// any other viewport.
pub proof fn lemma_culling_filters_only(model: Seq<BranchSegV>, t: XF, vp: RectPx)
    ensures
        forall|p: PrimV|
            #[trigger] culled_prims(model, t, vp).contains(p) ==> exists|j: int|
                0 <= j < model.len() && seg_visible(t, #[trigger] model[j], vp) && p == seg_prim(
                    t,
                    model[j],
                ),
        forall|j: int|
            0 <= j < model.len() && seg_visible(t, #[trigger] model[j], vp) ==> culled_prims(
                model,
                t,
                vp,
            ).contains(seg_prim(t, model[j])),
    decreases model.len(),
{
    if model.len() == 0 {
    } else {
        let m = model.drop_last();
        let s = model.last();
        lemma_culling_filters_only(m, t, vp);
        let head = culled_prims(m, t, vp);
        let tail = spec_line(t, s.p0, s.p1, s.width, spec_additive(s.lum as u8), vp);
        assert(culled_prims(model, t, vp) == head + tail);
        assert forall|p: PrimV| #[trigger] culled_prims(model, t, vp).contains(p) implies exists|
            j: int,
        |
            0 <= j < model.len() && seg_visible(t, #[trigger] model[j], vp) && p == seg_prim(
                t,
                model[j],
            ) by {
            let i = choose|i: int| 0 <= i < (head + tail).len() && (head + tail)[i] == p;
            if i < head.len() {
                assert(head.contains(p));
                let j = choose|j: int|
                    0 <= j < m.len() && seg_visible(t, #[trigger] m[j], vp) && p == seg_prim(
                        t,
                        m[j],
                    );
                assert(model[j] == m[j]);
                assert(seg_visible(t, model[j], vp) && p == seg_prim(t, model[j]));
            } else {
                assert(seg_visible(t, s, vp));
                assert(p == seg_prim(t, s));
                let j = model.len() - 1;
                assert(model[j] == s);
                assert(seg_visible(t, model[j], vp) && p == seg_prim(t, model[j]));
            }
        }
        assert forall|j: int|
            0 <= j < model.len() && seg_visible(t, #[trigger] model[j], vp) implies culled_prims(
            model,
            t,
            vp,
        ).contains(seg_prim(t, model[j])) by {
            if j < model.len() - 1 {
                assert(m[j] == model[j]);
                assert(head.contains(seg_prim(t, m[j])));
                let i = choose|i: int| 0 <= i < head.len() && head[i] == seg_prim(t, m[j]);
                assert((head + tail)[i] == seg_prim(t, model[j]));
            } else {
                assert(model[j] == s);
                assert(tail == seq![seg_prim(t, s)]);
                assert((head + tail)[head.len() as int] == seg_prim(t, s));
            }
        }
    }
}

/// The hour number a tick index carries: 1 through 12, with 0 shown as 12.
pub open spec fn hour_label(idx: int) -> int {
    if idx % 12 == 0 {
        12
    } else {
        idx % 12
    }
}

/// One tick of the ring: a small filled square, heavier at hour positions,
/// and at hour positions additionally the hour number.
pub open spec fn spec_tick(t: XF, pal: Palette, ruling: Seq<V2>, txt: Seq<V2>, i: int) -> Seq<
    PrimV,
> {
    let p0 = spec_apply(t, ruling[i]);
    let w: int = if i % 5 == 0 {
        4_000_000
    } else {
        2_000_000
    };
    let rect = seq![
        PrimV::RectFill { min: p0, max: V2 { x: p0.x + w, y: p0.y + w }, color: pal.white },
    ];
    if i % 5 == 0 {
        rect + seq![
            PrimV::Text {
                pos: spec_apply(t, txt[i / 5]),
                hour: hour_label(i / 5),
                color: pal.white,
            },
        ]
    } else {
        rect
    }
}

pub open spec fn spec_ticks(t: XF, pal: Palette, ruling: Seq<V2>, txt: Seq<V2>, n: nat) -> Seq<
    PrimV,
>
    decreases n,
{
    if n == 0 {
        Seq::empty()
    } else {
        spec_ticks(t, pal, ruling, txt, (n - 1) as nat) + spec_tick(
            t,
            pal,
            ruling,
            txt,
            n - 1,
        )
    }
}

/// The ring decoration: the border circle, the small centre marker, and
/// 120 ticks with an hour number at every fifth tick.
pub open spec fn spec_ring(
    t: XF,
    radius: int,
    border: int,
    pal: Palette,
    ruling: Seq<V2>,
    txt: Seq<V2>,
) -> Seq<PrimV> {
    let center = spec_apply(t, V2 { x: 0, y: 0 });
    let pos0 = spec_apply(t, V2 { x: 0, y: radius });
    let bw = spec_apply(t, V2 { x: 0, y: border });
    seq![
        PrimV::Circle {
            center: center,
            radius: pos0.y - center.y - 4_000_000,
            width: bw.y - center.y,
            color: pal.border,
        },
        PrimV::Circle { center: center, radius: 3_000_000, width: 2_000_000, color: pal.yellow },
    ] + spec_ticks(t, pal, ruling, txt, 120)
}

/// Append the ring decoration.
fn ring_prims(
    out: &mut Vec<Primitive>,
    x: &Xform,
    vp: &RectPx,
    radius: i64,
    border_width: i64,
    palette: &Palette,
    ruling: &Vec<Fp2>,
    txt: &Vec<Fp2>,
)
    requires
        x.wf(),
        0 <= radius <= 4 * SCALE,
        0 <= border_width <= SCALE,
        ruling@.len() == 120,
        txt@.len() == 24,
        forall|i: int|
            0 <= i < ruling@.len() ==> norm1(#[trigger] ruling@[i]@) <= 4 * (SCALE as int),
        forall|i: int| 0 <= i < txt@.len() ==> norm1(#[trigger] txt@[i]@) <= 4 * (SCALE as int),
    ensures
        prims_view(final(out)@) == prims_view(old(out)@) + spec_ring(
            x@,
            radius as int,
            border_width as int,
            *palette,
            pts_view(ruling@),
            pts_view(txt@),
        ),
{
    let ghost pre = out@;
    let origin = Fp2 { x: 0, y: 0 };
    let center = apply(x, &origin);
    let rpoint = Fp2 { x: 0, y: radius };
    let pos0 = apply(x, &rpoint);
    let bpoint = Fp2 { x: 0, y: border_width };
    let bw = apply(x, &bpoint);
    let c1 = Primitive::Circle {
        center,
        radius: pos0.y - center.y - 4_000_000,
        width: bw.y - center.y,
        color: palette.border,
    };
    let c2 = Primitive::Circle {
        center,
        radius: 3_000_000,
        width: 2_000_000,
        color: palette.yellow,
    };
    out.push(c1);
    let ghost pre1 = out@;
    out.push(c2);
    let ghost circles = prims_view(out@);
    proof {
        lemma_prims_view_push(pre, c1);
        lemma_prims_view_push(pre1, c2);
        assert(circles =~= prims_view(pre) + seq![c1@, c2@]);
        assert(circles =~= prims_view(pre) + seq![c1@, c2@] + spec_ticks(
            x@,
            *palette,
            pts_view(ruling@),
            pts_view(txt@),
            0,
        ));
    }
    let mut i: usize = 0;
    while i < 120
        invariant
            i <= 120,
            x.wf(),
            ruling@.len() == 120,
            txt@.len() == 24,
            forall|j: int|
                0 <= j < ruling@.len() ==> norm1(#[trigger] ruling@[j]@) <= 4 * (SCALE as int),
            forall|j: int| 0 <= j < txt@.len() ==> norm1(#[trigger] txt@[j]@) <= 4 * (
            SCALE as int),
            circles == prims_view(pre) + seq![c1@, c2@],
            prims_view(out@) == circles + spec_ticks(
                x@,
                *palette,
                pts_view(ruling@),
                pts_view(txt@),
                i as nat,
            ),
        decreases 120 - i,
    {
        let ghost rv = pts_view(ruling@);
        let ghost tv = pts_view(txt@);
        let p = apply(x, &ruling[i]);
        let w: i64 = if i % 5 == 0 {
            4_000_000
        } else {
            2_000_000
        };
        let rect = Primitive::RectFill {
            min: p,
            max: Fp2 { x: p.x + w, y: p.y + w },
            color: palette.white,
        };
        let ghost before_rect = out@;
        out.push(rect);
        proof {
            lemma_prims_view_push(before_rect, rect);
            assert(rv[i as int] == ruling@[i as int]@);
        }
        if i % 5 == 0 {
            let idx = i / 5;
            proof {
                assert(idx < 24) by {
                    assert(i <= 119);
                    vstd::arithmetic::div_mod::lemma_div_is_ordered(i as int, 119, 5);
                    assert(119int / 5 == 23) by {
                        vstd::arithmetic::div_mod::lemma_fundamental_div_mod_converse(
                            119,
                            5,
                            23,
                            4,
                        );
                    }
                }
                assert(tv[idx as int] == txt@[idx as int]@);
            }
            let tp = apply(x, &txt[idx]);
            let m = idx % 12;
            let h: u8 = if m == 0 {
                12
            } else {
                m as u8
            };
            let label = Primitive::Text { pos: tp, hour: h, color: palette.white };
            let ghost before_label = out@;
            out.push(label);
            proof {
                lemma_prims_view_push(before_label, label);
                assert(h as int == hour_label(i as int / 5));
                assert(spec_tick(x@, *palette, rv, tv, i as int) =~= seq![rect@, label@]);
                assert(spec_ticks(x@, *palette, rv, tv, (i + 1) as nat) == spec_ticks(
                    x@,
                    *palette,
                    rv,
                    tv,
                    i as nat,
                ) + spec_tick(x@, *palette, rv, tv, i as int));
                assert(prims_view(out@) =~= circles + spec_ticks(
                    x@,
                    *palette,
                    rv,
                    tv,
                    (i + 1) as nat,
                ));
            }
        } else {
            proof {
                assert(spec_tick(x@, *palette, rv, tv, i as int) =~= seq![rect@]);
                assert(prims_view(out@) =~= circles + spec_ticks(
                    x@,
                    *palette,
                    rv,
                    tv,
                    (i + 1) as nat,
                ));
            }
        }
        i += 1;
    }
}

/// A frame of the fractal clock: the three hands, the surviving branch
/// segments, and optionally the ring decoration, in emission order. The
/// hand tips seed the recursion, and the branch list is generated without
/// any reference to the viewport: culling filters primitives only.
pub open spec fn spec_generate(
    vp: RectPx,
    zoom: int,
    slw: int,
    depth: nat,
    lf: int,
    lumf: int,
    wf: int,
    radius: int,
    border: int,
    pal: Palette,
    us: V2,
    um: V2,
    uh: V2,
    ruling: Seq<V2>,
    txt: Seq<V2>,
    opts: RenderOptions,
) -> Seq<PrimV> {
    let t = spec_transform(vp, zoom);
    let vs = scaled(lf, us);
    let vm = scaled(lf, um);
    let vh = scaled(500_000, uh);
    let hands = spec_hand(t, vs, slw, opts.colored_pointer_overlay, pal.red, vp) + spec_hand(
        t,
        vm,
        slw,
        opts.colored_pointer_overlay,
        pal.green,
        vp,
    ) + spec_hand(t, vh, slw, opts.colored_pointer_overlay, pal.blue, vp);
    let r0 = spec_rotor(lf, us, uh);
    let r1 = spec_rotor(lf, um, uh);
    let seeds = seq![NodeV { pos: vs, dir: vs }, NodeV { pos: vm, dir: vm }];
    let branches = culled_prims(
        branch_model(r0, r1, seeds, 700_000, lumf, slw, wf, depth),
        t,
        vp,
    );
    hands + branches + (if opts.ring_decoration {
        spec_ring(t, radius, border, pal, ruling, txt)
    } else {
        Seq::empty()
    })
}

/// Generate one frame's primitives. The luminance of the first branching
/// level starts at 0.7 before decay, dimmer than the main hands.
pub fn generate(
    zoom: i64,
    start_line_width: i64,
    depth: u8,
    length_factor: i64,
    luminance_factor: i64,
    width_factor: i64,
    radius: i64,
    border_width: i64,
    palette: &Palette,
    hands: &HandUnits,
    viewport: &RectPx,
    ruling: &Vec<Fp2>,
    txt: &Vec<Fp2>,
    opts: RenderOptions,
) -> (out: Vec<Primitive>)
    requires
        0 < zoom <= SCALE,
        0 <= start_line_width <= 5 * SCALE,
        depth <= 14,
        0 <= length_factor <= SCALE,
        0 <= luminance_factor <= SCALE,
        0 <= width_factor <= SCALE,
        0 <= radius <= 4 * SCALE,
        0 <= border_width <= SCALE,
        viewport.is_viewport(),
        units_wf(*hands),
        opts.ring_decoration ==> ruling@.len() == 120 && txt@.len() == 24,
        forall|i: int|
            0 <= i < ruling@.len() ==> norm1(#[trigger] ruling@[i]@) <= 4 * (SCALE as int),
        forall|i: int| 0 <= i < txt@.len() ==> norm1(#[trigger] txt@[i]@) <= 4 * (SCALE as int),
    ensures
        prims_view(out@) == spec_generate(
            *viewport,
            zoom as int,
            start_line_width as int,
            depth as nat,
            length_factor as int,
            luminance_factor as int,
            width_factor as int,
            radius as int,
            border_width as int,
            *palette,
            hands.second@,
            hands.minute@,
            hands.hour@,
            pts_view(ruling@),
            pts_view(txt@),
            opts,
        ),
{
    let x = make_transform(viewport, zoom);
    let vs = hand_vec(length_factor, &hands.second);
    let vm = hand_vec(length_factor, &hands.minute);
    let vh = hand_vec(500_000, &hands.hour);
    let mut out: Vec<Primitive> = Vec::new();
    proof {
        assert(prims_view(out@) =~= Seq::<PrimV>::empty());
    }
    hand_prims(
        &mut out,
        &x,
        viewport,
        &vs,
        start_line_width,
        opts.colored_pointer_overlay,
        palette.red,
    );
    hand_prims(
        &mut out,
        &x,
        viewport,
        &vm,
        start_line_width,
        opts.colored_pointer_overlay,
        palette.green,
    );
    hand_prims(
        &mut out,
        &x,
        viewport,
        &vh,
        start_line_width,
        opts.colored_pointer_overlay,
        palette.blue,
    );
    let ghost hs = prims_view(out@);
    let r0 = derive_rotor(length_factor, &hands.second, &hands.hour);
    let r1 = derive_rotor(length_factor, &hands.minute, &hands.hour);
    let seed0 = Node { pos: vs, dir: vs };
    let seed1 = Node { pos: vm, dir: vm };
    let branches = branch_segments(
        seed0,
        seed1,
        r0,
        r1,
        depth,
        700_000,
        luminance_factor,
        start_line_width,
        width_factor,
    );
    emit_branches(&mut out, &x, viewport, &branches);
    let ghost hb = prims_view(out@);
    if opts.ring_decoration {
        ring_prims(&mut out, &x, viewport, radius, border_width, palette, ruling, txt);
    }
    proof {
        let t = x@;
        let vp = *viewport;
        let hexp = spec_hand(
            t,
            vs@,
            start_line_width as int,
            opts.colored_pointer_overlay,
            palette.red,
            vp,
        ) + spec_hand(
            t,
            vm@,
            start_line_width as int,
            opts.colored_pointer_overlay,
            palette.green,
            vp,
        ) + spec_hand(
            t,
            vh@,
            start_line_width as int,
            opts.colored_pointer_overlay,
            palette.blue,
            vp,
        );
        assert(hs =~= hexp);
        let bexp = culled_prims(segs_view(branches@), t, vp);
        assert(hb =~= hexp + bexp);
        if opts.ring_decoration {
            assert(prims_view(out@) =~= hexp + bexp + spec_ring(
                t,
                radius as int,
                border_width as int,
                *palette,
                pts_view(ruling@),
                pts_view(txt@),
            ));
        } else {
            assert(prims_view(out@) =~= hexp + bexp + Seq::<PrimV>::empty());
        }
    }
    out
}

} // verus!
