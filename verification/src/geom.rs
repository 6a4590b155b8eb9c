//! Plane geometry in fixed-point coordinates: points and direction vectors,
//! rotation-and-scale operators ("rotors"), viewport rectangles and the
//! logical-to-device coordinate transform.

use vstd::prelude::*;
use crate::fixed::{
    fp_abs, fp_mul, div_trunc, mul_fp, mul_div_trunc, SCALE, lemma_fp_mul_abs_le,
    lemma_div_sum_le, lemma_div_sum_upper, lemma_div_denom_le, lemma_div_trunc_abs,
};
use vstd::arithmetic::div_mod::{
    lemma_div_is_ordered, lemma_div_multiples_vanish, lemma_div_pos_is_pos,
    lemma_multiply_divide_le,
};

verus! {

/// Mathematical model of a point or vector: a pair of unbounded integers in
/// fixed-point units.
pub ghost struct V2 {
    pub x: int,
    pub y: int,
}

/// A point or direction vector in fixed-point units (logical space), or in
/// micro-pixels (device space).
#[derive(Clone, Copy, Debug, PartialEq, Eq, Structural)]
pub struct Fp2 {
    pub x: i64,
    pub y: i64,
}

impl View for Fp2 {
    type V = V2;

    open spec fn view(&self) -> V2 {
        V2 { x: self.x as int, y: self.y as int }
    }
}

pub open spec fn v2_add(a: V2, b: V2) -> V2 {
    V2 { x: a.x + b.x, y: a.y + b.y }
}

/// Taxicab norm; an easy-to-sum bound on a vector's magnitude.
pub open spec fn norm1(v: V2) -> int {
    fp_abs(v.x) + fp_abs(v.y)
}

/// Third powers, used to budget the growth of branch coordinates across
/// recursion levels.
pub open spec fn pow3(k: nat) -> int
    decreases k,
{
    if k == 0 {
        1
    } else {
        3 * pow3((k - 1) as nat)
    }
}

pub proof fn lemma_pow3_pos(k: nat)
    ensures
        pow3(k) >= 1,
    decreases k,
{
    if k > 0 {
        lemma_pow3_pos((k - 1) as nat);
    }
}

pub proof fn lemma_pow3_mono(j: nat, k: nat)
    requires
        j <= k,
    ensures
        pow3(j) <= pow3(k),
    decreases k,
{
    if j < k {
        lemma_pow3_mono(j, (k - 1) as nat);
        lemma_pow3_pos((k - 1) as nat);
    }
}

/// Bound on the taxicab norm of a hand's unit vector: `sqrt(2)` plus
/// rounding slack, in fixed-point units.
pub const UNIT_NORM_CAP: i64 = 1_420_000;

/// Bound on the taxicab norm of a rotor (a unit rotor scaled by a hand
/// length of at most one).
pub const ROTOR_NORM_CAP: i64 = 3 * SCALE;

/// Every logical coordinate that the generator produces stays below this:
/// `2 * SCALE * pow3(15)`, the seed bound grown by a factor of three per
/// recursion level for fifteen levels.
pub const COORD_LIMIT: i64 = 28_697_814_000_000;

pub proof fn lemma_coord_limit()
    ensures
        COORD_LIMIT as int == 2 * (SCALE as int) * pow3(15),
{
    assert(pow3(15) == 14_348_907) by {
        reveal_with_fuel(pow3, 16);
    }
}

/// A rotation-and-scale operator: multiplication by the complex number
/// `re + im * i` in fixed-point units.
#[derive(Clone, Copy, Debug, PartialEq, Eq, Structural)]
pub struct Rotor {
    pub re: i64,
    pub im: i64,
}

impl View for Rotor {
    type V = V2;

    open spec fn view(&self) -> V2 {
        V2 { x: self.re as int, y: self.im as int }
    }
}

/// Complex multiplication of a rotor (as `V2`) with a vector, each product
/// truncated to the fixed-point grid.
pub open spec fn rot_apply(r: V2, d: V2) -> V2 {
    V2 {
        x: fp_mul(r.x, d.x) - fp_mul(r.y, d.y),
        y: fp_mul(r.y, d.x) + fp_mul(r.x, d.y),
    }
}

/// Applying a rotor multiplies the taxicab norm by at most the rotor's
/// own taxicab norm over `SCALE`.
pub proof fn lemma_rot_norm(r: V2, d: V2)
    ensures
        norm1(rot_apply(r, d)) <= (norm1(r) * norm1(d)) / (SCALE as int),
{
    let s = SCALE as int;
    let rx = fp_abs(r.x);
    let ry = fp_abs(r.y);
    let dx = fp_abs(d.x);
    let dy = fp_abs(d.y);
    crate::fixed::lemma_abs_mul(r.x, d.x);
    crate::fixed::lemma_abs_mul(r.y, d.y);
    crate::fixed::lemma_abs_mul(r.y, d.x);
    crate::fixed::lemma_abs_mul(r.x, d.y);
    lemma_div_trunc_abs(r.x * d.x, s);
    lemma_div_trunc_abs(r.y * d.y, s);
    lemma_div_trunc_abs(r.y * d.x, s);
    lemma_div_trunc_abs(r.x * d.y, s);
    assert(0 <= rx * dx && 0 <= ry * dy && 0 <= ry * dx && 0 <= rx * dy) by (nonlinear_arith)
        requires
            0 <= rx,
            0 <= ry,
            0 <= dx,
            0 <= dy,
    ;
    lemma_div_sum_le(rx * dx, ry * dy, s);
    lemma_div_sum_le(ry * dx, rx * dy, s);
    lemma_div_sum_le(rx * dx + ry * dy, ry * dx + rx * dy, s);
    assert(rx * dx + ry * dy + (ry * dx + rx * dy) == (rx + ry) * (dx + dy)) by (nonlinear_arith);
}

/// Scaling a vector componentwise by a factor of at most one does not
/// increase its taxicab norm.
pub proof fn lemma_scale_norm(len: int, v: V2)
    requires
        0 <= len <= SCALE as int,
        0 <= norm1(v),
    ensures
        norm1(V2 { x: fp_mul(len, v.x), y: fp_mul(len, v.y) }) <= norm1(v),
        fp_abs(fp_mul(len, v.x)) <= fp_abs(v.x),
        fp_abs(fp_mul(len, v.y)) <= fp_abs(v.y),
{
    let s = SCALE as int;
    let vx = fp_abs(v.x);
    let vy = fp_abs(v.y);
    crate::fixed::lemma_abs_mul(len, v.x);
    crate::fixed::lemma_abs_mul(len, v.y);
    lemma_div_trunc_abs(len * v.x, s);
    lemma_div_trunc_abs(len * v.y, s);
    assert(len * vx <= s * vx && len * vy <= s * vy && 0 <= len * vx && 0 <= len * vy)
        by (nonlinear_arith)
        requires
            0 <= len <= s,
            0 <= vx,
            0 <= vy,
    ;
    lemma_div_is_ordered(len * vx, s * vx, s);
    lemma_div_is_ordered(len * vy, s * vy, s);
    lemma_div_multiples_vanish(vx, s);
    lemma_div_multiples_vanish(vy, s);
}

/// Apply a rotor to a direction vector. The taxicab norm grows by at most
/// the rotor's norm divided by `SCALE`, hence by at most a factor of three.
pub fn rotor_apply(r: &Rotor, d: &Fp2, Ghost(db): Ghost<int>) -> (nd: Fp2)
    requires
        norm1(r@) <= ROTOR_NORM_CAP as int,
        norm1(d@) <= db,
        0 <= db,
        3 * db <= COORD_LIMIT as int,
    ensures
        nd@ == rot_apply(r@, d@),
        norm1(nd@) <= 3 * db,
{
    let s = SCALE;
    proof {
        let rx = fp_abs(r.re as int);
        let ry = fp_abs(r.im as int);
        let dx = fp_abs(d.x as int);
        let dy = fp_abs(d.y as int);
        // every product is small enough for mul_fp
        assert(rx * dx + ry * dy + ry * dx + rx * dy == (rx + ry) * (dx + dy))
            by (nonlinear_arith);
        assert((rx + ry) * (dx + dy) <= (3 * (SCALE as int)) * db) by (nonlinear_arith)
            requires
                rx + ry <= 3 * (SCALE as int),
                dx + dy <= db,
                0 <= rx,
                0 <= ry,
                0 <= dx,
                0 <= dy,
                0 <= db,
        ;
        assert(rx * dx >= 0 && ry * dy >= 0 && ry * dx >= 0 && rx * dy >= 0) by (nonlinear_arith)
            requires
                0 <= rx,
                0 <= ry,
                0 <= dx,
                0 <= dy,
        ;
        assert((3 * (SCALE as int)) * db == (3 * db) * (SCALE as int)) by (nonlinear_arith);
        assert((3 * db) * (SCALE as int) <= (i64::MAX as int) * (SCALE as int)) by (nonlinear_arith)
            requires
                3 * db <= i64::MAX as int,
                0 < SCALE as int,
        ;
        lemma_fp_mul_abs_le(r.re as int, d.x as int, 3 * db);
        lemma_fp_mul_abs_le(r.im as int, d.y as int, 3 * db);
        lemma_fp_mul_abs_le(r.im as int, d.x as int, 3 * db);
        lemma_fp_mul_abs_le(r.re as int, d.y as int, 3 * db);
    }
    let px = mul_fp(r.re, d.x);
    let qx = mul_fp(r.im, d.y);
    let py = mul_fp(r.im, d.x);
    let qy = mul_fp(r.re, d.y);
    let nx = px - qx;
    let ny = py + qy;
    proof {
        let rx = fp_abs(r.re as int);
        let ry = fp_abs(r.im as int);
        let dx = fp_abs(d.x as int);
        let dy = fp_abs(d.y as int);
        let s_ = SCALE as int;
        // the four magnitudes sum to at most (rx+ry)(dx+dy)/SCALE <= 3*db
        crate::fixed::lemma_abs_mul(r.re as int, d.x as int);
        crate::fixed::lemma_abs_mul(r.im as int, d.y as int);
        crate::fixed::lemma_abs_mul(r.im as int, d.x as int);
        crate::fixed::lemma_abs_mul(r.re as int, d.y as int);
        lemma_div_trunc_abs(r.re as int * d.x as int, s_);
        lemma_div_trunc_abs(r.im as int * d.y as int, s_);
        lemma_div_trunc_abs(r.im as int * d.x as int, s_);
        lemma_div_trunc_abs(r.re as int * d.y as int, s_);
        lemma_div_sum_le(rx * dx, ry * dy, s_);
        lemma_div_sum_le(ry * dx, rx * dy, s_);
        lemma_div_sum_le(rx * dx + ry * dy, ry * dx + rx * dy, s_);
        assert(rx * dx + ry * dy + (ry * dx + rx * dy) == (rx + ry) * (dx + dy))
            by (nonlinear_arith);
        assert((rx + ry) * (dx + dy) <= (3 * db) * s_) by (nonlinear_arith)
            requires
                rx + ry <= 3 * s_,
                dx + dy <= db,
                0 <= rx,
                0 <= ry,
                0 <= dx,
                0 <= dy,
                0 <= db,
                s_ == SCALE as int,
        ;
        lemma_div_is_ordered((rx + ry) * (dx + dy), (3 * db) * s_, s_);
        lemma_div_multiples_vanish(3 * db, s_);
        assert((3 * db) * s_ == s_ * (3 * db)) by (nonlinear_arith);
    }
    Fp2 { x: nx, y: ny }
}

/// Scale a (near-)unit direction vector by a hand length of at most one.
/// The result's taxicab norm stays within twice the fixed-point unit.
pub fn hand_vec(len: i64, unit: &Fp2) -> (v: Fp2)
    requires
        0 <= len <= SCALE,
        norm1(unit@) <= UNIT_NORM_CAP as int,
    ensures
        v@ == (V2 { x: fp_mul(len as int, unit@.x), y: fp_mul(len as int, unit@.y) }),
        norm1(v@) <= 2 * (SCALE as int),
{
    let ghost s = SCALE as int;
    proof {
        let ux = fp_abs(unit@.x);
        let uy = fp_abs(unit@.y);
        assert((len as int) * ux + (len as int) * uy == (len as int) * (ux + uy))
            by (nonlinear_arith);
        assert((len as int) * (ux + uy) <= s * (UNIT_NORM_CAP as int)) by (nonlinear_arith)
            requires
                0 <= len as int <= s,
                0 <= ux + uy <= UNIT_NORM_CAP as int,
        ;
        assert(0 <= (len as int) * ux && 0 <= (len as int) * uy) by (nonlinear_arith)
            requires
                0 <= len as int,
                0 <= ux,
                0 <= uy,
        ;
        assert(s * (UNIT_NORM_CAP as int) <= (i64::MAX as int) * s) by (nonlinear_arith)
            requires
                s == SCALE as int,
        ;
        lemma_fp_mul_abs_le(len as int, unit@.x, UNIT_NORM_CAP as int);
        lemma_fp_mul_abs_le(len as int, unit@.y, UNIT_NORM_CAP as int);
    }
    let vx = mul_fp(len, unit.x);
    let vy = mul_fp(len, unit.y);
    proof {
        let ux = fp_abs(unit@.x);
        let uy = fp_abs(unit@.y);
        crate::fixed::lemma_abs_mul(len as int, unit@.x);
        crate::fixed::lemma_abs_mul(len as int, unit@.y);
        lemma_div_trunc_abs(len as int * unit@.x, s);
        lemma_div_trunc_abs(len as int * unit@.y, s);
        lemma_div_sum_le((len as int) * ux, (len as int) * uy, s);
        assert((len as int) * ux + (len as int) * uy == (len as int) * (ux + uy))
            by (nonlinear_arith);
        assert((len as int) * (ux + uy) <= s * (UNIT_NORM_CAP as int)) by (nonlinear_arith)
            requires
                0 <= len as int <= s,
                0 <= ux + uy <= UNIT_NORM_CAP as int,
        ;
        lemma_div_is_ordered((len as int) * (ux + uy), s * (UNIT_NORM_CAP as int), s);
        lemma_div_multiples_vanish(UNIT_NORM_CAP as int, s);
    }
    Fp2 { x: vx, y: vy }
}

/// An axis-aligned rectangle in device micro-pixels.
#[derive(Clone, Copy, Debug, PartialEq, Eq, Structural)]
pub struct RectPx {
    pub min_x: i64,
    pub min_y: i64,
    pub max_x: i64,
    pub max_y: i64,
}

/// Viewports up to one hundred thousand pixels on a side, expressed in
/// micro-pixels.
pub const VIEW_CAP: i64 = 100_000_000_000;

/// Upper bound on the logical extent of the view window (largest aspect
/// ratio over smallest zoom).
pub const EXT_CAP: i64 = 100_000_000_000_000_000;

/// Bound on every device coordinate the transform can produce.
pub const DEV_CAP: i64 = 3_000_000_000_000_000_000;

impl RectPx {
    /// A viewport the generator can draw into: at least one pixel on each
    /// side, at most `VIEW_CAP` micro-pixels, placed within `VIEW_CAP` of
    /// the device origin.
    pub open spec fn is_viewport(self) -> bool {
        &&& SCALE as int <= self.max_x - self.min_x <= VIEW_CAP as int
        &&& SCALE as int <= self.max_y - self.min_y <= VIEW_CAP as int
        &&& fp_abs(self.min_x as int) <= VIEW_CAP as int
        &&& fp_abs(self.min_y as int) <= VIEW_CAP as int
    }
}

pub open spec fn imin(a: int, b: int) -> int {
    if a <= b {
        a
    } else {
        b
    }
}

pub open spec fn imax(a: int, b: int) -> int {
    if a <= b {
        b
    } else {
        a
    }
}

/// Whether the bounding box of the segment `p`–`q` meets the rectangle `r`
/// (closed intervals on both axes).
pub open spec fn seg_hits(p: V2, q: V2, r: RectPx) -> bool {
    &&& imin(p.x, q.x) <= r.max_x
    &&& r.min_x as int <= imax(p.x, q.x)
    &&& imin(p.y, q.y) <= r.max_y
    &&& r.min_y as int <= imax(p.y, q.y)
}

/// Culling test: does the segment's bounding box intersect the viewport?
pub fn seg_hits_px(p: &Fp2, q: &Fp2, r: &RectPx) -> (hit: bool)
    ensures
        hit == seg_hits(p@, q@, *r),
{
    let lo_x = if p.x <= q.x { p.x } else { q.x };
    let hi_x = if p.x <= q.x { q.x } else { p.x };
    let lo_y = if p.y <= q.y { p.y } else { q.y };
    let hi_y = if p.y <= q.y { q.y } else { p.y };
    lo_x <= r.max_x && r.min_x <= hi_x && lo_y <= r.max_y && r.min_y <= hi_y
}

/// The mapping from logical fixed-point space (a square of extent
/// `aspect / zoom` centred at the origin) to the viewport in device
/// micro-pixels.
#[derive(Clone, Copy, Debug, PartialEq, Eq, Structural)]
pub struct Xform {
    /// viewport origin
    pub vx: i64,
    pub vy: i64,
    /// viewport size in micro-pixels
    pub vw: i64,
    pub vh: i64,
    /// logical extent of the mapped square, per axis
    pub ex: i64,
    pub ey: i64,
    /// half extents: the logical origin maps to the viewport's centre
    pub hx: i64,
    pub hy: i64,
}

/// Mathematical model of a transform.
pub ghost struct XF {
    pub vx: int,
    pub vy: int,
    pub vw: int,
    pub vh: int,
    pub ex: int,
    pub ey: int,
    pub hx: int,
    pub hy: int,
}

impl View for Xform {
    type V = XF;

    open spec fn view(&self) -> XF {
        XF {
            vx: self.vx as int,
            vy: self.vy as int,
            vw: self.vw as int,
            vh: self.vh as int,
            ex: self.ex as int,
            ey: self.ey as int,
            hx: self.hx as int,
            hy: self.hy as int,
        }
    }
}

impl Xform {
    pub open spec fn wf(self) -> bool {
        &&& SCALE as int <= self.vw as int <= VIEW_CAP as int
        &&& SCALE as int <= self.vh as int <= VIEW_CAP as int
        &&& fp_abs(self.vx as int) <= VIEW_CAP as int
        &&& fp_abs(self.vy as int) <= VIEW_CAP as int
        &&& SCALE as int <= self.ex as int <= EXT_CAP as int
        &&& SCALE as int <= self.ey as int <= EXT_CAP as int
        &&& self.hx as int == self.ex as int / 2
        &&& self.hy as int == self.ey as int / 2
    }
}

/// The widening of the viewport's square proportions along x: `max(w/h, 1)`
/// in fixed-point units.
pub open spec fn spec_aspect_x(vw: int, vh: int) -> int {
    if vw > vh {
        (vw * (SCALE as int)) / vh
    } else {
        SCALE as int
    }
}

pub open spec fn spec_aspect_y(vw: int, vh: int) -> int {
    if vw > vh {
        SCALE as int
    } else {
        (vh * (SCALE as int)) / vw
    }
}

/// Extent of the mapped logical square along one axis: the aspect value
/// divided by the zoom factor.
pub open spec fn spec_extent(aspect: int, zoom: int) -> int {
    (aspect * (SCALE as int)) / zoom
}

/// The transform a viewport and zoom factor determine: the logical square
/// of extent `aspect / zoom` centred at the origin maps onto the viewport.
pub open spec fn spec_transform(r: RectPx, zoom: int) -> XF {
    let vw = r.max_x - r.min_x;
    let vh = r.max_y - r.min_y;
    let ex = spec_extent(spec_aspect_x(vw, vh), zoom);
    let ey = spec_extent(spec_aspect_y(vw, vh), zoom);
    XF {
        vx: r.min_x as int,
        vy: r.min_y as int,
        vw: vw,
        vh: vh,
        ex: ex,
        ey: ey,
        hx: ex / 2,
        hy: ey / 2,
    }
}

/// quotient of two non-negative `i64`s via unsigned division
fn udiv(a: i64, b: i64) -> (q: i64)
    requires
        0 <= a,
        0 < b,
    ensures
        q as int == a as int / b as int,
{
    proof {
        lemma_div_pos_is_pos(a as int, b as int);
        vstd::arithmetic::div_mod::lemma_div_nonincreasing(a as int, b as int);
    }
    ((a as u64) / (b as u64)) as i64
}

/// Build the transform for a viewport and a zoom factor, mirroring the
/// mapping of the normalised square onto the viewport.
pub fn make_transform(r: &RectPx, zoom: i64) -> (t: Xform)
    requires
        r.is_viewport(),
        0 < zoom <= SCALE,
    ensures
        t.wf(),
        t@ == spec_transform(*r, zoom as int),
{
    let vw = r.max_x - r.min_x;
    let vh = r.max_y - r.min_y;
    proof {
        assert((vw as int) * (SCALE as int) <= (VIEW_CAP as int) * (SCALE as int)) by (nonlinear_arith)
            requires
                vw as int <= VIEW_CAP as int,
                0 <= vw as int,
        ;
        assert((vh as int) * (SCALE as int) <= (VIEW_CAP as int) * (SCALE as int)) by (nonlinear_arith)
            requires
                vh as int <= VIEW_CAP as int,
                0 <= vh as int,
        ;
    }
    let ax = if vw > vh {
        proof {
            lemma_aspect_ge_scale(vw as int, vh as int);
            lemma_aspect_le_cap(vw as int, vh as int);
        }
        udiv(vw * SCALE, vh)
    } else {
        SCALE
    };
    let ay = if vw > vh {
        SCALE
    } else {
        proof {
            lemma_aspect_ge_scale(vh as int, vw as int);
            lemma_aspect_le_cap(vh as int, vw as int);
        }
        udiv(vh * SCALE, vw)
    };
    proof {
        lemma_extent_bounds(ax as int, zoom as int);
        lemma_extent_bounds(ay as int, zoom as int);
        assert((ax as int) * (SCALE as int) <= (VIEW_CAP as int) * (SCALE as int)) by (nonlinear_arith)
            requires
                ax as int <= VIEW_CAP as int,
                0 <= ax as int,
        ;
        assert((ay as int) * (SCALE as int) <= (VIEW_CAP as int) * (SCALE as int)) by (nonlinear_arith)
            requires
                ay as int <= VIEW_CAP as int,
                0 <= ay as int,
        ;
    }
    let ex = udiv(ax * SCALE, zoom);
    let ey = udiv(ay * SCALE, zoom);
    let hx = udiv(ex, 2);
    let hy = udiv(ey, 2);
    proof {
        lemma_div_pos_is_pos(ex as int, 2);
        lemma_div_pos_is_pos(ey as int, 2);
        vstd::arithmetic::div_mod::lemma_div_nonincreasing(ex as int, 2);
        vstd::arithmetic::div_mod::lemma_div_nonincreasing(ey as int, 2);
    }
    Xform { vx: r.min_x, vy: r.min_y, vw, vh, ex, ey, hx, hy }
}

/// `max(a, b) * SCALE / min(a, b)` is at least `SCALE` for positive sides.
proof fn lemma_aspect_ge_scale(big: int, small: int)
    requires
        0 < small <= big,
    ensures
        SCALE as int <= (big * (SCALE as int)) / small,
{
    let s = SCALE as int;
    assert(small * s <= big * s) by (nonlinear_arith)
        requires
            small <= big,
            0 < s,
    ;
    lemma_div_is_ordered(small * s, big * s, small);
    lemma_div_multiples_vanish(s, small);
    assert(small * s == s * small) by (nonlinear_arith);
}

proof fn lemma_aspect_le_cap(big: int, small: int)
    requires
        SCALE as int <= small <= big,
        big <= VIEW_CAP as int,
    ensures
        (big * (SCALE as int)) / small <= VIEW_CAP as int,
        0 <= (big * (SCALE as int)) / small,
{
    let s = SCALE as int;
    assert(big * s <= small * (VIEW_CAP as int)) by (nonlinear_arith)
        requires
            big <= VIEW_CAP as int,
            s <= small,
            0 < s,
            0 < big,
    ;
    lemma_multiply_divide_le(big * s, small, VIEW_CAP as int);
    lemma_div_pos_is_pos(big * s, small);
    assert(0 <= big * s) by (nonlinear_arith)
        requires
            0 < big,
            0 < s,
    ;
}

proof fn lemma_extent_bounds(aspect: int, zoom: int)
    requires
        SCALE as int <= aspect <= VIEW_CAP as int,
        0 < zoom <= SCALE as int,
    ensures
        SCALE as int <= spec_extent(aspect, zoom) <= EXT_CAP as int,
{
    let s = SCALE as int;
    // lower bound: aspect * s / zoom >= s * s / s = s
    assert(s * zoom <= aspect * s) by (nonlinear_arith)
        requires
            s <= aspect,
            0 < zoom <= s,
    ;
    assert((s * zoom) / zoom <= (aspect * s) / zoom) by {
        lemma_div_is_ordered(s * zoom, aspect * s, zoom);
    }
    lemma_div_multiples_vanish(s, zoom);
    assert(s * zoom == zoom * s) by (nonlinear_arith);
    // upper bound: aspect * s / zoom <= VIEW_CAP * s / 1 = EXT_CAP
    assert(aspect * s <= (VIEW_CAP as int) * s) by (nonlinear_arith)
        requires
            aspect <= VIEW_CAP as int,
            0 < s,
    ;
    lemma_div_denom_le(aspect * s, 1, zoom);
    assert(0 <= aspect * s) by (nonlinear_arith)
        requires
            0 < aspect,
            0 < s,
    ;
    assert((aspect * s) / 1 == aspect * s) by {
        lemma_div_multiples_vanish(aspect * s, 1);
        assert(1 * (aspect * s) == aspect * s) by (nonlinear_arith);
    }
    assert((VIEW_CAP as int) * s == EXT_CAP as int) by (nonlinear_arith)
        requires
            s == SCALE as int,
    ;
}

/// Where a logical point lands in device micro-pixels.
pub open spec fn spec_apply(t: XF, p: V2) -> V2 {
    V2 {
        x: t.vx + div_trunc((p.x + t.hx) * t.vw, t.ex),
        y: t.vy + div_trunc((p.y + t.hy) * t.vh, t.ey),
    }
}

/// Transform one logical point to device space.
pub fn apply(t: &Xform, p: &Fp2) -> (q: Fp2)
    requires
        t.wf(),
        fp_abs(p@.x) <= COORD_LIMIT as int,
        fp_abs(p@.y) <= COORD_LIMIT as int,
    ensures
        q@ == spec_apply(t@, p@),
        fp_abs(q@.x) <= DEV_CAP as int,
        fp_abs(q@.y) <= DEV_CAP as int,
{
    let ax = p.x + t.hx;
    let ay = p.y + t.hy;
    proof {
        lemma_apply_axis(p@.x, t.hx as int, t.vw as int, t.ex as int);
        lemma_apply_axis(p@.y, t.hy as int, t.vh as int, t.ey as int);
    }
    let qx = mul_div_trunc(ax, t.vw, t.ex);
    let qy = mul_div_trunc(ay, t.vh, t.ey);
    proof {
        crate::fixed::lemma_abs_mul(ax as int, t.vw as int);
        crate::fixed::lemma_abs_mul(ay as int, t.vh as int);
        lemma_div_trunc_abs(ax as int * t.vw as int, t.ex as int);
        lemma_div_trunc_abs(ay as int * t.vh as int, t.ey as int);
    }
    Fp2 { x: t.vx + qx, y: t.vy + qy }
}

/// Arithmetic bound for one axis of the transform: the quotient
/// `|p + h| * v / e` stays well inside `i64`.
proof fn lemma_apply_axis(p: int, h: int, v: int, e: int)
    requires
        fp_abs(p) <= COORD_LIMIT as int,
        SCALE as int <= v <= VIEW_CAP as int,
        SCALE as int <= e <= EXT_CAP as int,
        h == e / 2,
    ensures
        (fp_abs(p + h) * v) / e <= DEV_CAP as int - VIEW_CAP as int - 1,
{
    let s = SCALE as int;
    lemma_div_pos_is_pos(e, 2);
    vstd::arithmetic::div_mod::lemma_div_nonincreasing(e, 2);
    assert(fp_abs(p + h) <= fp_abs(p) + h);
    assert((fp_abs(p + h)) * v <= (fp_abs(p) + h) * v) by (nonlinear_arith)
        requires
            fp_abs(p + h) <= fp_abs(p) + h,
            0 < v,
            0 <= fp_abs(p + h),
    ;
    assert((fp_abs(p) + h) * v == fp_abs(p) * v + h * v) by (nonlinear_arith);
    lemma_div_is_ordered(fp_abs(p + h) * v, fp_abs(p) * v + h * v, e);
    assert(0 <= fp_abs(p) * v && 0 <= h * v) by (nonlinear_arith)
        requires
            0 <= fp_abs(p),
            0 <= h,
            0 < v,
    ;
    lemma_div_sum_upper(fp_abs(p) * v, h * v, e);
    // h * v / e <= v since h <= e
    assert(h * v <= e * v) by (nonlinear_arith)
        requires
            h <= e,
            0 < v,
            0 <= h,
    ;
    lemma_multiply_divide_le(h * v, e, v);
    // |p| * v / e <= |p| * v / SCALE <= COORD_LIMIT * VIEW_CAP / SCALE
    lemma_div_denom_le(fp_abs(p) * v, s, e);
    assert(fp_abs(p) * v <= (COORD_LIMIT as int) * (VIEW_CAP as int)) by (nonlinear_arith)
        requires
            fp_abs(p) <= COORD_LIMIT as int,
            v <= VIEW_CAP as int,
            0 <= fp_abs(p),
            0 < v,
    ;
    lemma_div_is_ordered(fp_abs(p) * v, (COORD_LIMIT as int) * (VIEW_CAP as int), s);
    assert((COORD_LIMIT as int) * (VIEW_CAP as int)
        == 2_869_781_400_000_000_000_000_000int) by (nonlinear_arith);
    assert(2_869_781_400_000_000_000_000_000int / (SCALE as int)
        == 2_869_781_400_000_000_000int) by {
        lemma_div_multiples_vanish(2_869_781_400_000_000_000int, SCALE as int);
        assert((SCALE as int) * 2_869_781_400_000_000_000int
            == 2_869_781_400_000_000_000_000_000int) by (nonlinear_arith);
    }
}

} // verus!
