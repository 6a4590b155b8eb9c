//! The branching recursion at the heart of the fractal clock.
//!
//! Two seed nodes sit at the tips of the second and minute hands. At each
//! level every node spawns two children, one per rotor; a line segment is
//! recorded from the parent to each child. Luminance and stroke width decay
//! by their factors once per level, and the recursion stops early as soon as
//! the decayed luminance quantises to black on the 0–255 scale.
//!
//! Culling is *not* done here: this module returns every segment of every
//! emitted level, so that the recursion's structure is independent of the
//! viewport by construction.

use vstd::prelude::*;
use crate::fixed::{
    fp_abs, fp_mul, SCALE, mul_fp, lemma_fp_mul_le_left, lemma_fp_mul_lt_left,
};
use crate::geom::{
    Fp2, V2, Rotor, v2_add, rot_apply, norm1, pow3, lemma_pow3_pos, lemma_pow3_mono,
    lemma_coord_limit, rotor_apply, ROTOR_NORM_CAP, COORD_LIMIT,
};

verus! {

/// A transient recursion element: a point and the direction that leads to it.
#[derive(Clone, Copy, Debug, PartialEq, Eq, Structural)]
pub struct Node {
    pub pos: Fp2,
    pub dir: Fp2,
}

/// Mathematical model of a node.
pub ghost struct NodeV {
    pub pos: V2,
    pub dir: V2,
}

impl View for Node {
    type V = NodeV;

    open spec fn view(&self) -> NodeV {
        NodeV { pos: self.pos@, dir: self.dir@ }
    }
}

/// One branch segment, in logical coordinates, together with the stroke
/// width and quantised luminance of its level.
#[derive(Clone, Copy, Debug, PartialEq, Eq, Structural)]
pub struct BranchSeg {
    pub p0: Fp2,
    pub p1: Fp2,
    pub width: i64,
    pub lum: u8,
}

/// Mathematical model of a branch segment.
pub ghost struct BranchSegV {
    pub p0: V2,
    pub p1: V2,
    pub width: int,
    pub lum: int,
}

impl View for BranchSeg {
    type V = BranchSegV;

    open spec fn view(&self) -> BranchSegV {
        BranchSegV { p0: self.p0@, p1: self.p1@, width: self.width as int, lum: self.lum as int }
    }
}

pub open spec fn nodes_view(s: Seq<Node>) -> Seq<NodeV> {
    s.map_values(|n: Node| n@)
}

pub open spec fn segs_view(s: Seq<BranchSeg>) -> Seq<BranchSegV> {
    s.map_values(|b: BranchSeg| b@)
}

/// The child a rotor produces from a node: the direction is rotated and
/// scaled, the position advances by the new direction.
pub open spec fn child_node(r: V2, n: NodeV) -> NodeV {
    let d = rot_apply(r, n.dir);
    NodeV { pos: v2_add(n.pos, d), dir: d }
}

/// The segment drawn from a node to the child that rotor `r` produces.
pub open spec fn seg_of(r: V2, n: NodeV, w: int, l: int) -> BranchSegV {
    BranchSegV { p0: n.pos, p1: child_node(r, n).pos, width: w, lum: l }
}

pub open spec fn children_of(r: V2, ns: Seq<NodeV>) -> Seq<NodeV> {
    ns.map_values(|n: NodeV| child_node(r, n))
}

pub open spec fn segs_of(r: V2, ns: Seq<NodeV>, w: int, l: int) -> Seq<BranchSegV> {
    ns.map_values(|n: NodeV| seg_of(r, n, w, l))
}

/// One generation becomes the next: all first-rotor children, then all
/// second-rotor children.
pub open spec fn next_gen(r0: V2, r1: V2, ns: Seq<NodeV>) -> Seq<NodeV> {
    children_of(r0, ns) + children_of(r1, ns)
}

/// The node population after `k` levels of branching.
pub open spec fn gen_at(r0: V2, r1: V2, seeds: Seq<NodeV>, k: nat) -> Seq<NodeV>
    decreases k,
{
    if k == 0 {
        seeds
    } else {
        next_gen(r0, r1, gen_at(r0, r1, seeds, (k - 1) as nat))
    }
}

/// Stroke width after `k` decay steps.
pub open spec fn level_width(w0: int, wf: int, k: nat) -> int
    decreases k,
{
    if k == 0 {
        w0
    } else {
        fp_mul(level_width(w0, wf, (k - 1) as nat), wf)
    }
}

/// Luminance after `k` decay steps.
pub open spec fn level_lum(l0: int, f: int, k: nat) -> int
    decreases k,
{
    if k == 0 {
        l0
    } else {
        fp_mul(level_lum(l0, f, (k - 1) as nat), f)
    }
}

/// Rounding a fixed-point luminance in [0, 1] to the 0–255 scale.
pub open spec fn quant(l: int) -> int {
    (255 * l + 500_000) / (SCALE as int)
}

/// How many branching levels are emitted: the recursion walks up to `d`
/// levels but stops before the first level whose decayed luminance
/// quantises to zero.
pub open spec fn levels_emitted(l0: int, f: int, d: nat) -> nat
    decreases d,
{
    if d == 0 {
        0
    } else if quant(fp_mul(l0, f)) == 0 {
        0
    } else {
        1 + levels_emitted(fp_mul(l0, f), f, (d - 1) as nat)
    }
}

/// The segments of branching level `k` (`k >= 1`): one per parent node and
/// rotor, at that level's decayed width and luminance.
pub open spec fn level_segs(
    r0: V2,
    r1: V2,
    seeds: Seq<NodeV>,
    l0: int,
    lf: int,
    w0: int,
    wf: int,
    k: nat,
) -> Seq<BranchSegV>
    recommends
        k >= 1,
{
    let prev = gen_at(r0, r1, seeds, (k - 1) as nat);
    let w = level_width(w0, wf, k);
    let l = quant(level_lum(l0, lf, k));
    segs_of(r0, prev, w, l) + segs_of(r1, prev, w, l)
}

/// All segments of levels 1 through `k`, in emission order.
pub open spec fn branch_upto(
    r0: V2,
    r1: V2,
    seeds: Seq<NodeV>,
    l0: int,
    lf: int,
    w0: int,
    wf: int,
    k: nat,
) -> Seq<BranchSegV>
    decreases k,
{
    if k == 0 {
        Seq::empty()
    } else {
        branch_upto(r0, r1, seeds, l0, lf, w0, wf, (k - 1) as nat) + level_segs(
            r0,
            r1,
            seeds,
            l0,
            lf,
            w0,
            wf,
            k,
        )
    }
}

/// The full branch output for a run of the recursion: the levels that
/// survive the luminance cutoff.
pub open spec fn branch_model(
    r0: V2,
    r1: V2,
    seeds: Seq<NodeV>,
    l0: int,
    lf: int,
    w0: int,
    wf: int,
    d: nat,
) -> Seq<BranchSegV> {
    branch_upto(r0, r1, seeds, l0, lf, w0, wf, levels_emitted(l0, lf, d))
}

// ---------------------------------------------------------------------
// small sequence helpers
// ---------------------------------------------------------------------

proof fn lemma_take_push<A>(s: Seq<A>, i: int)
    requires
        0 <= i < s.len(),
    ensures
        s.take(i + 1) == s.take(i).push(s[i]),
{
    assert(s.take(i + 1) =~= s.take(i).push(s[i]));
}

proof fn lemma_add_push<A>(a: Seq<A>, b: Seq<A>, x: A)
    ensures
        a + b.push(x) == (a + b).push(x),
{
    assert(a + b.push(x) =~= (a + b).push(x));
}

proof fn lemma_nodes_view_push(s: Seq<Node>, x: Node)
    ensures
        nodes_view(s.push(x)) == nodes_view(s).push(x@),
{
    assert(nodes_view(s.push(x)) =~= nodes_view(s).push(x@));
}

proof fn lemma_segs_view_push(s: Seq<BranchSeg>, x: BranchSeg)
    ensures
        segs_view(s.push(x)) == segs_view(s).push(x@),
{
    assert(segs_view(s.push(x)) =~= segs_view(s).push(x@));
}

proof fn lemma_children_push(r: V2, ns: Seq<NodeV>, n: NodeV)
    ensures
        children_of(r, ns.push(n)) == children_of(r, ns).push(child_node(r, n)),
{
    assert(children_of(r, ns.push(n)) =~= children_of(r, ns).push(child_node(r, n)));
}

proof fn lemma_segs_push(r: V2, ns: Seq<NodeV>, n: NodeV, w: int, l: int)
    ensures
        segs_of(r, ns.push(n), w, l) == segs_of(r, ns, w, l).push(seg_of(r, n, w, l)),
{
    assert(segs_of(r, ns.push(n), w, l) =~= segs_of(r, ns, w, l).push(seg_of(r, n, w, l)));
}

// ---------------------------------------------------------------------
// how far the luminance budget carries the recursion
// ---------------------------------------------------------------------

pub proof fn lemma_levels_emitted_le(l0: int, f: int, d: nat)
    ensures
        levels_emitted(l0, f, d) <= d,
    decreases d,
{
    if d > 0 && quant(fp_mul(l0, f)) != 0 {
        lemma_levels_emitted_le(fp_mul(l0, f), f, (d - 1) as nat);
    }
}

pub proof fn lemma_level_lum_shift(l0: int, f: int, k: nat)
    ensures
        level_lum(fp_mul(l0, f), f, k) == level_lum(l0, f, (k + 1) as nat),
    decreases k,
{
    assert(level_lum(l0, f, 0nat) == l0);
    assert(level_lum(l0, f, (k + 1) as nat) == fp_mul(level_lum(l0, f, k), f));
    if k == 0 {
        assert(level_lum(fp_mul(l0, f), f, 0nat) == fp_mul(l0, f));
    } else {
        lemma_level_lum_shift(l0, f, (k - 1) as nat);
        assert(level_lum(fp_mul(l0, f), f, k) == fp_mul(
            level_lum(fp_mul(l0, f), f, (k - 1) as nat),
            f,
        ));
    }
}

/// If levels 1 through `k + 1` are all visible, at least `k + 1` levels
/// are emitted.
pub proof fn lemma_levels_count_ge(l0: int, f: int, d: nat, k: nat)
    requires
        k < d,
        forall|j: nat| 1 <= j <= k + 1 ==> #[trigger] quant(level_lum(l0, f, j)) != 0,
    ensures
        levels_emitted(l0, f, d) >= k + 1,
    decreases k,
{
    let l1 = fp_mul(l0, f);
    assert(level_lum(l0, f, 0nat) == l0);
    assert(level_lum(l0, f, 1nat) == l1);
    assert(quant(level_lum(l0, f, 1nat)) != 0);
    if k > 0 {
        assert forall|j: nat| 1 <= j <= (k - 1) + 1 implies #[trigger] quant(
            level_lum(l1, f, j),
        ) != 0 by {
            lemma_level_lum_shift(l0, f, j);
            assert(quant(level_lum(l0, f, (j + 1) as nat)) != 0);
        }
        lemma_levels_count_ge(l1, f, (d - 1) as nat, (k - 1) as nat);
    }
}

/// If levels 1 through `k` are visible but level `k + 1` quantises to
/// black, exactly `k` levels are emitted.
pub proof fn lemma_levels_count_cut(l0: int, f: int, d: nat, k: nat)
    requires
        k < d,
        forall|j: nat| 1 <= j <= k ==> #[trigger] quant(level_lum(l0, f, j)) != 0,
        quant(level_lum(l0, f, (k + 1) as nat)) == 0,
    ensures
        levels_emitted(l0, f, d) == k,
    decreases k,
{
    let l1 = fp_mul(l0, f);
    assert(level_lum(l0, f, 0nat) == l0);
    assert(level_lum(l0, f, 1nat) == l1);
    if k == 0 {
    } else {
        assert(quant(level_lum(l0, f, 1nat)) != 0);
        assert forall|j: nat| 1 <= j <= k - 1 implies #[trigger] quant(level_lum(l1, f, j))
            != 0 by {
            lemma_level_lum_shift(l0, f, j);
            assert(quant(level_lum(l0, f, (j + 1) as nat)) != 0);
        }
        lemma_level_lum_shift(l0, f, k);
        lemma_levels_count_cut(l1, f, (d - 1) as nat, (k - 1) as nat);
    }
}

/// Every emitted level is visible: its quantised luminance is not zero.
pub proof fn lemma_levels_visible(l0: int, f: int, d: nat, j: nat)
    requires
        1 <= j <= levels_emitted(l0, f, d),
    ensures
        quant(level_lum(l0, f, j)) != 0,
    decreases d,
{
    let l1 = fp_mul(l0, f);
    assert(level_lum(l0, f, 0nat) == l0);
    assert(level_lum(l0, f, 1nat) == l1);
    if j > 1 {
        lemma_levels_visible(l1, f, (d - 1) as nat, (j - 1) as nat);
        lemma_level_lum_shift(l0, f, (j - 1) as nat);
    }
}

// ---------------------------------------------------------------------
// the laws of the recursion: segment counts and luminance decay
// ---------------------------------------------------------------------

/// Powers of two, used to count nodes and segments.
pub open spec fn pow2k(k: nat) -> int
    decreases k,
{
    if k == 0 {
        1
    } else {
        2 * pow2k((k - 1) as nat)
    }
}

/// Each branching level doubles the node population.
pub proof fn lemma_gen_at_len(r0: V2, r1: V2, seeds: Seq<NodeV>, k: nat)
    ensures
        gen_at(r0, r1, seeds, k).len() == seeds.len() * pow2k(k),
    decreases k,
{
    if k == 0 {
        assert(seeds.len() * 1 == seeds.len()) by (nonlinear_arith);
    } else {
        lemma_gen_at_len(r0, r1, seeds, (k - 1) as nat);
        assert(2 * (seeds.len() * pow2k((k - 1) as nat)) == seeds.len() * (2 * pow2k(
            (k - 1) as nat,
        ))) by (nonlinear_arith);
    }
}

/// Levels 1 through `k` together hold `seeds * (2^(k+1) - 2)` segments.
pub proof fn lemma_branch_upto_len(
    r0: V2,
    r1: V2,
    seeds: Seq<NodeV>,
    l0: int,
    lf: int,
    w0: int,
    wf: int,
    k: nat,
)
    ensures
        branch_upto(r0, r1, seeds, l0, lf, w0, wf, k).len() == seeds.len() * (pow2k(
            (k + 1) as nat,
        ) - 2),
    decreases k,
{
    let s = seeds.len() as int;
    if k == 0 {
        assert(pow2k(0nat) == 1);
        assert(pow2k(1nat) == 2 * pow2k(0nat));
        assert(s * (pow2k(1nat) - 2) == 0) by (nonlinear_arith)
            requires
                pow2k(1nat) == 2,
        ;
    } else {
        lemma_branch_upto_len(r0, r1, seeds, l0, lf, w0, wf, (k - 1) as nat);
        lemma_gen_at_len(r0, r1, seeds, (k - 1) as nat);
        assert(s * (pow2k(k) - 2) + 2 * (s * pow2k((k - 1) as nat)) == s * (pow2k(
            (k + 1) as nat,
        ) - 2)) by (nonlinear_arith)
            requires
                pow2k(k) == 2 * pow2k((k - 1) as nat),
                pow2k((k + 1) as nat) == 2 * pow2k(k),
                s == seeds.len() as int,
        ;
    }
}

/// When the luminance budget lasts through all `d` levels, the recursion
/// emits exactly `2 * (2^(d+1) - 2)` branch segments from its two seeds,
/// before any culling.
pub proof fn lemma_full_budget_branch_count(
    r0: V2,
    r1: V2,
    seeds: Seq<NodeV>,
    l0: int,
    lf: int,
    w0: int,
    wf: int,
    d: nat,
)
    requires
        seeds.len() == 2,
        levels_emitted(l0, lf, d) == d,
    ensures
        branch_model(r0, r1, seeds, l0, lf, w0, wf, d).len() == 2 * (pow2k((d + 1) as nat) - 2),
{
    lemma_branch_upto_len(r0, r1, seeds, l0, lf, w0, wf, d);
}

/// At recursion depth zero no branch segments are emitted at all.
pub proof fn lemma_depth_zero_no_branches(
    r0: V2,
    r1: V2,
    seeds: Seq<NodeV>,
    l0: int,
    lf: int,
    w0: int,
    wf: int,
)
    ensures
        branch_model(r0, r1, seeds, l0, lf, w0, wf, 0).len() == 0,
{
}

/// A luminance factor of zero darkens the very first branching level to
/// black, so the recursion emits no branch level at all, whatever the
/// depth.
pub proof fn lemma_zero_luminance_factor(l0: int, d: nat)
    ensures
        levels_emitted(l0, 0, d) == 0,
{
    if d > 0 {
        assert(l0 * 0 == 0) by (nonlinear_arith);
        assert(0int / (SCALE as int) == 0) by {
            vstd::arithmetic::div_mod::lemma_div_of0(SCALE as int);
        }
        assert(fp_mul(l0, 0) == 0);
        assert(quant(0) == 0) by {
            vstd::arithmetic::div_mod::lemma_fundamental_div_mod_converse(
                500_000,
                SCALE as int,
                0,
                500_000,
            );
        }
    }
}

/// The level luminance never leaves `[0, l0]`.
pub proof fn lemma_level_lum_bounds(l0: int, f: int, k: nat)
    requires
        0 <= l0,
        0 <= f <= SCALE as int,
    ensures
        0 <= level_lum(l0, f, k) <= l0,
    decreases k,
{
    if k > 0 {
        lemma_level_lum_bounds(l0, f, (k - 1) as nat);
        lemma_fp_mul_le_left(level_lum(l0, f, (k - 1) as nat), f);
    }
}

/// With a decay factor strictly below one, a positive level luminance
/// strictly decreases from each level to the next.
pub proof fn lemma_luminance_strictly_decreases(l0: int, f: int, k: nat)
    requires
        0 <= f < SCALE as int,
        0 < level_lum(l0, f, k),
    ensures
        level_lum(l0, f, (k + 1) as nat) < level_lum(l0, f, k),
{
    lemma_fp_mul_lt_left(level_lum(l0, f, k), f);
    assert(level_lum(l0, f, (k + 1) as nat) == fp_mul(level_lum(l0, f, k), f));
}

/// Once the luminance of some level quantises to zero, the emitted range
/// ends strictly before that level: no later level is emitted either.
pub proof fn lemma_cutoff_stops_emission(l0: int, f: int, d: nat, k: nat)
    requires
        1 <= k <= d,
        quant(level_lum(l0, f, k)) == 0,
    ensures
        levels_emitted(l0, f, d) < k,
{
    if levels_emitted(l0, f, d) >= k {
        lemma_levels_visible(l0, f, d, k);
    }
}

// ---------------------------------------------------------------------
// the recursion itself
// ---------------------------------------------------------------------

/// Round a fixed-point luminance in [0, 1] to an 8-bit brightness.
pub fn quantize(l: i64) -> (q: u8)
    requires
        0 <= l <= SCALE,
    ensures
        q as int == quant(l as int),
{
    let n: u64 = 255 * (l as u64) + 500_000;
    proof {
        vstd::arithmetic::div_mod::lemma_div_is_ordered(n as int, 255_500_000, SCALE as int);
        assert(255_500_000int / (SCALE as int) == 255) by {
            vstd::arithmetic::div_mod::lemma_fundamental_div_mod_converse(
                255_500_000,
                SCALE as int,
                255,
                500_000,
            );
        }
        vstd::arithmetic::div_mod::lemma_div_pos_is_pos(n as int, SCALE as int);
    }
    let q: u64 = n / 1_000_000;
    q as u8
}

/// Apply one rotor to a whole generation: append each parent's segment to
/// `out` and each child to `next`.
fn rotor_pass(
    r: &Rotor,
    nodes: &Vec<Node>,
    width: i64,
    lum: u8,
    out: &mut Vec<BranchSeg>,
    next: &mut Vec<Node>,
    Ghost(db): Ghost<int>,
    Ghost(pb): Ghost<int>,
)
    requires
        norm1(r@) <= ROTOR_NORM_CAP as int,
        0 <= db,
        0 <= pb,
        3 * db <= COORD_LIMIT as int,
        pb + 3 * db <= COORD_LIMIT as int,
        forall|i: int| 0 <= i < nodes@.len() ==> norm1(#[trigger] nodes@[i]@.dir) <= db,
        forall|i: int| 0 <= i < nodes@.len() ==> norm1(#[trigger] nodes@[i]@.pos) <= pb,
    ensures
        nodes_view(final(next)@) == nodes_view(old(next)@) + children_of(r@, nodes_view(nodes@)),
        segs_view(final(out)@) == segs_view(old(out)@) + segs_of(
            r@,
            nodes_view(nodes@),
            width as int,
            lum as int,
        ),
        forall|i: int|
            old(next)@.len() <= i < final(next)@.len() ==> norm1(
                #[trigger] final(next)@[i]@.dir,
            ) <= 3 * db && norm1(final(next)@[i]@.pos) <= pb + 3 * db,
        forall|i: int| 0 <= i < old(next)@.len() ==> #[trigger] final(next)@[i] == old(next)@[i],
        final(next)@.len() == old(next)@.len() + nodes@.len(),
        forall|i: int|
            old(out)@.len() <= i < final(out)@.len() ==> norm1(#[trigger] final(out)@[i]@.p0)
                <= pb && norm1(final(out)@[i]@.p1) <= pb + 3 * db,
        forall|i: int| 0 <= i < old(out)@.len() ==> #[trigger] final(out)@[i] == old(out)@[i],
        final(out)@.len() == old(out)@.len() + nodes@.len(),
{
    let n = nodes.len();
    let ghost out0 = out@;
    let ghost next0 = next@;
    let mut i: usize = 0;
    while i < n
        invariant
            i <= n,
            n == nodes@.len(),
            norm1(r@) <= ROTOR_NORM_CAP as int,
            0 <= db,
            0 <= pb,
            3 * db <= COORD_LIMIT as int,
            pb + 3 * db <= COORD_LIMIT as int,
            forall|j: int| 0 <= j < nodes@.len() ==> norm1(#[trigger] nodes@[j]@.dir) <= db,
            forall|j: int| 0 <= j < nodes@.len() ==> norm1(#[trigger] nodes@[j]@.pos) <= pb,
            next@.len() == next0.len() + i,
            nodes_view(next@) == nodes_view(next0) + children_of(
                r@,
                nodes_view(nodes@.take(i as int)),
            ),
            segs_view(out@) == segs_view(out0) + segs_of(
                r@,
                nodes_view(nodes@.take(i as int)),
                width as int,
                lum as int,
            ),
            forall|j: int|
                next0.len() <= j < next@.len() ==> norm1(#[trigger] next@[j]@.dir) <= 3 * db
                    && norm1(next@[j]@.pos) <= pb + 3 * db,
            forall|j: int| 0 <= j < next0.len() ==> #[trigger] next@[j] == next0[j],
            out@.len() == out0.len() + i,
            forall|j: int|
                out0.len() <= j < out@.len() ==> norm1(#[trigger] out@[j]@.p0) <= pb && norm1(
                    out@[j]@.p1,
                ) <= pb + 3 * db,
            forall|j: int| 0 <= j < out0.len() ==> #[trigger] out@[j] == out0[j],
        decreases n - i,
    {
        let a = nodes[i];
        proof {
            assert(nodes@[i as int]@.dir == a.dir@);
            assert(nodes@[i as int]@.pos == a.pos@);
            assert(norm1(a.dir@) <= db);
            assert(norm1(a.pos@) <= pb);
        }
        let nd = rotor_apply(r, &a.dir, Ghost(db));
        let bpos = Fp2 { x: a.pos.x + nd.x, y: a.pos.y + nd.y };
        let b = Node { pos: bpos, dir: nd };
        let seg = BranchSeg { p0: a.pos, p1: bpos, width, lum };
        let ghost out_pre = out@;
        let ghost next_pre = next@;
        out.push(seg);
        next.push(b);
        proof {
            assert(b@ == child_node(r@, a@));
            assert(seg@ == seg_of(r@, a@, width as int, lum as int));
            lemma_take_push(nodes@, i as int);
            lemma_nodes_view_push(nodes@.take(i as int), nodes@[i as int]);
            assert(nodes_view(nodes@.take(i as int + 1)) == nodes_view(
                nodes@.take(i as int),
            ).push(a@));
            lemma_children_push(r@, nodes_view(nodes@.take(i as int)), a@);
            lemma_segs_push(
                r@,
                nodes_view(nodes@.take(i as int)),
                a@,
                width as int,
                lum as int,
            );
            lemma_nodes_view_push(next_pre, b);
            lemma_segs_view_push(out_pre, seg);
            lemma_add_push(
                nodes_view(next0),
                children_of(r@, nodes_view(nodes@.take(i as int))),
                b@,
            );
            lemma_add_push(
                segs_view(out0),
                segs_of(r@, nodes_view(nodes@.take(i as int)), width as int, lum as int),
                seg@,
            );
        }
        i += 1;
    }
    proof {
        assert(nodes@.take(n as int) =~= nodes@);
    }
}

/// One step of the coordinate budget: children directions grow by at most
/// a factor of three, child positions by the parent bound plus that.
proof fn lemma_budget_step(db: int, pb: int, k: nat)
    requires
        db == 2 * (SCALE as int) * pow3(k),
        0 <= pb <= 2 * (SCALE as int) * pow3((k + 1) as nat),
        k + 2 <= 15,
    ensures
        0 < db,
        3 * db == 2 * (SCALE as int) * pow3((k + 1) as nat),
        3 * db <= COORD_LIMIT as int,
        pb + 3 * db <= COORD_LIMIT as int,
        pb + 3 * db <= 2 * (SCALE as int) * pow3((k + 2) as nat),
{
    lemma_pow3_pos(k);
    lemma_pow3_pos((k + 1) as nat);
    lemma_pow3_mono((k + 1) as nat, 15);
    lemma_pow3_mono((k + 2) as nat, 15);
    lemma_coord_limit();
    assert(pow3((k + 1) as nat) == 3 * pow3(k));
    assert(pow3((k + 2) as nat) == 3 * pow3((k + 1) as nat));
    let s = SCALE as int;
    assert(3 * (2 * s * pow3(k)) == 2 * s * (3 * pow3(k))) by (nonlinear_arith);
    assert(0 < 2 * s * pow3(k)) by (nonlinear_arith)
        requires
            pow3(k) >= 1,
            0 < s,
    ;
    assert(2 * s * pow3((k + 1) as nat) <= 2 * s * pow3(15)) by (nonlinear_arith)
        requires
            pow3((k + 1) as nat) <= pow3(15),
            0 < s,
    ;
    assert(2 * s * pow3((k + 2) as nat) <= 2 * s * pow3(15)) by (nonlinear_arith)
        requires
            pow3((k + 2) as nat) <= pow3(15),
            0 < s,
    ;
    assert(2 * s * pow3((k + 1) as nat) + 2 * s * pow3((k + 1) as nat) <= 2 * s * pow3(
        (k + 2) as nat,
    )) by (nonlinear_arith)
        requires
            pow3((k + 2) as nat) == 3 * pow3((k + 1) as nat),
            pow3((k + 1) as nat) >= 1,
            0 < s,
    ;
}

/// Run the full branching recursion from the two seed nodes and return
/// every segment of every emitted level, untransformed and unculled, in
/// emission order.
pub fn branch_segments(
    seed0: Node,
    seed1: Node,
    r0: Rotor,
    r1: Rotor,
    depth: u8,
    l0: i64,
    lf: i64,
    w0: i64,
    wf: i64,
) -> (out: Vec<BranchSeg>)
    requires
        depth <= 14,
        0 <= l0 <= SCALE,
        0 <= lf <= SCALE,
        0 <= w0 <= 5 * SCALE,
        0 <= wf <= SCALE,
        norm1(r0@) <= ROTOR_NORM_CAP as int,
        norm1(r1@) <= ROTOR_NORM_CAP as int,
        norm1(seed0@.dir) <= 2 * (SCALE as int),
        norm1(seed0@.pos) <= 2 * (SCALE as int),
        norm1(seed1@.dir) <= 2 * (SCALE as int),
        norm1(seed1@.pos) <= 2 * (SCALE as int),
    ensures
        segs_view(out@) == branch_model(
            r0@,
            r1@,
            seq![seed0@, seed1@],
            l0 as int,
            lf as int,
            w0 as int,
            wf as int,
            depth as nat,
        ),
        forall|i: int|
            0 <= i < out@.len() ==> norm1(#[trigger] out@[i]@.p0) <= COORD_LIMIT as int && norm1(
                out@[i]@.p1,
            ) <= COORD_LIMIT as int,
{
    let ghost seedsv: Seq<NodeV> = seq![seed0@, seed1@];
    let ghost l0i = l0 as int;
    let ghost lfi = lf as int;
    let ghost w0i = w0 as int;
    let ghost wfi = wf as int;
    let ghost ld = levels_emitted(l0i, lfi, depth as nat);
    proof {
        lemma_levels_emitted_le(l0i, lfi, depth as nat);
    }
    let mut nodes: Vec<Node> = Vec::new();
    nodes.push(seed0);
    nodes.push(seed1);
    let mut out: Vec<BranchSeg> = Vec::new();
    let mut lum: i64 = l0;
    let mut width: i64 = w0;
    let mut k: u8 = 0;
    let ghost mut db: int = 2 * (SCALE as int);
    let ghost mut pb: int = 2 * (SCALE as int);
    proof {
        assert(nodes_view(nodes@) =~= gen_at(r0@, r1@, seedsv, 0));
        assert(segs_view(out@) =~= branch_upto(r0@, r1@, seedsv, l0i, lfi, w0i, wfi, 0));
        assert(pow3(0) == 1);
        assert(pow3(1) == 3);
        assert(nodes@[0]@ == seed0@ && nodes@[1]@ == seed1@);
    }
    while k < depth
        invariant
            k <= depth <= 14,
            0 <= l0 <= SCALE,
            0 <= lf <= SCALE,
            0 <= w0 <= 5 * SCALE,
            0 <= wf <= SCALE,
            l0i == l0 as int,
            lfi == lf as int,
            w0i == w0 as int,
            wfi == wf as int,
            norm1(r0@) <= ROTOR_NORM_CAP as int,
            norm1(r1@) <= ROTOR_NORM_CAP as int,
            0 <= lum <= SCALE,
            0 <= width <= 5 * SCALE,
            lum as int == level_lum(l0i, lfi, k as nat),
            width as int == level_width(w0i, wfi, k as nat),
            k as nat <= ld,
            ld == levels_emitted(l0i, lfi, depth as nat),
            ld <= depth as nat,
            forall|j: nat| 1 <= j <= k as nat ==> #[trigger] quant(level_lum(l0i, lfi, j)) != 0,
            db == 2 * (SCALE as int) * pow3(k as nat),
            0 <= pb <= 2 * (SCALE as int) * pow3((k + 1) as nat),
            nodes_view(nodes@) == gen_at(r0@, r1@, seedsv, k as nat),
            segs_view(out@) == branch_upto(r0@, r1@, seedsv, l0i, lfi, w0i, wfi, k as nat),
            forall|i: int| 0 <= i < nodes@.len() ==> norm1(#[trigger] nodes@[i]@.dir) <= db,
            forall|i: int| 0 <= i < nodes@.len() ==> norm1(#[trigger] nodes@[i]@.pos) <= pb,
            forall|i: int|
                0 <= i < out@.len() ==> norm1(#[trigger] out@[i]@.p0) <= COORD_LIMIT as int
                    && norm1(out@[i]@.p1) <= COORD_LIMIT as int,
        ensures
            k as nat == ld,
        decreases depth - k,
    {
        proof {
            assert(fp_abs(lum as int) * fp_abs(lf as int) <= (i64::MAX as int) * (SCALE as int))
                by (nonlinear_arith)
                requires
                    0 <= lum as int <= SCALE as int,
                    0 <= lf as int <= SCALE as int,
                    SCALE as int <= i64::MAX as int,
            ;
            assert(fp_abs(width as int) * fp_abs(wf as int) <= (i64::MAX as int) * (
            SCALE as int)) by (nonlinear_arith)
                requires
                    0 <= width as int <= 5 * (SCALE as int),
                    0 <= wf as int <= SCALE as int,
                    5 * (SCALE as int) <= i64::MAX as int,
            ;
            lemma_fp_mul_le_left(lum as int, lf as int);
            lemma_fp_mul_le_left(width as int, wf as int);
        }
        let new_lum = mul_fp(lum, lf);
        let new_width = mul_fp(width, wf);
        let q = quantize(new_lum);
        proof {
            assert(new_lum as int == level_lum(l0i, lfi, (k + 1) as nat));
            assert(new_width as int == level_width(w0i, wfi, (k + 1) as nat));
        }
        if q == 0 {
            proof {
                lemma_levels_count_cut(l0i, lfi, depth as nat, k as nat);
            }
            break ;
        }
        proof {
            assert(quant(level_lum(l0i, lfi, (k + 1) as nat)) != 0);
            lemma_levels_count_ge(l0i, lfi, depth as nat, k as nat);
            // budget for this level's children
            lemma_budget_step(db, pb, k as nat);
        }
        let ghost prev_nodes = nodes_view(nodes@);
        let ghost out_before = segs_view(out@);
        let ghost nn = nodes@.len() as int;
        let ghost out_raw0 = out@;
        let mut next: Vec<Node> = Vec::new();
        rotor_pass(&r0, &nodes, new_width, q, &mut out, &mut next, Ghost(db), Ghost(pb));
        let ghost next_mid = next@;
        let ghost out_mid_raw = out@;
        rotor_pass(&r1, &nodes, new_width, q, &mut out, &mut next, Ghost(db), Ghost(pb));
        proof {
            assert forall|i: int| 0 <= i < next@.len() implies norm1(#[trigger] next@[i]@.dir)
                <= 3 * db by {
                if i < nn {
                    assert(next@[i] == next_mid[i]);
                    assert(norm1(next_mid[i]@.dir) <= 3 * db);
                }
            }
            assert forall|i: int| 0 <= i < next@.len() implies norm1(#[trigger] next@[i]@.pos)
                <= pb + 3 * db by {
                if i < nn {
                    assert(next@[i] == next_mid[i]);
                    assert(norm1(next_mid[i]@.dir) <= 3 * db);
                    assert(norm1(next_mid[i]@.pos) <= pb + 3 * db);
                }
            }
            let ghost ob = out_raw0.len() as int;
            let ghost om = ob + nn;
            assert forall|i: int|
                0 <= i < out@.len() implies norm1(#[trigger] out@[i]@.p0) <= COORD_LIMIT as int
                    && norm1(out@[i]@.p1) <= COORD_LIMIT as int by {
                if i < ob {
                    assert(out@[i] == out_mid_raw[i]);
                    assert(out_mid_raw[i] == out_raw0[i]);
                    assert(norm1(out_raw0[i]@.p0) <= COORD_LIMIT as int);
                } else if i < om {
                    assert(out@[i] == out_mid_raw[i]);
                    assert(norm1(out_mid_raw[i]@.p0) <= pb);
                    assert(norm1(out_mid_raw[i]@.p1) <= pb + 3 * db);
                } else {
                    assert(norm1(out@[i]@.p0) <= pb);
                    assert(norm1(out@[i]@.p1) <= pb + 3 * db);
                }
            }
        }
        nodes = next;
        lum = new_lum;
        width = new_width;
        k = k + 1;
        proof {
            db = 3 * db;
            pb = pb + db;
            // the two passes built exactly the next generation
            assert(nodes_view(nodes@) =~= next_gen(r0@, r1@, prev_nodes));
            assert(gen_at(r0@, r1@, seedsv, k as nat) == next_gen(
                r0@,
                r1@,
                gen_at(r0@, r1@, seedsv, (k - 1) as nat),
            ));
            // and appended exactly this level's segments
            let w = level_width(w0i, wfi, k as nat);
            let l = quant(level_lum(l0i, lfi, k as nat));
            assert(q as int == l);
            assert(segs_view(out@) =~= out_before + level_segs(
                r0@,
                r1@,
                seedsv,
                l0i,
                lfi,
                w0i,
                wfi,
                k as nat,
            ));
        }
    }
    out
}

} // verus!
