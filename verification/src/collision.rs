//! Narrow-phase collision response over the broad-phase grid.
//!
//! A resolution pass builds the grid, gathers each particle's candidate
//! neighbors, and — only from the lower-indexed side of a pair — computes an
//! impulse along the connecting normal: a damped exchange when the pair is
//! approaching, an unconditional repulsion proportional to the penetration,
//! and a positional correction against sinking. All deltas accumulate into
//! scratch buffers against the pre-pass state and are applied once at the
//! end, so the outcome does not depend on partially applied updates.

use vstd::prelude::*;
use vstd::pervasive::VecAdditionalExecFns;
use crate::fx::{
    SCALE, fx_ok, all_fx_ok, fx_add, fx_sub, fx_mul, fx_div, fx_neg, fx_half, fx_sqrt,
    fx_add_s, fx_sub_s, fx_mul_s, fx_div_s, fx_half_s, fx_sqrt_s, lemma_fx_square_nonneg,
    lemma_all_fx_ok_update,
};
use crate::particles::{ParticleSet, zero_vec};
use crate::grid::{SpatialHashGrid, cell_of, cell_coord, cand_spec, lemma_cand_spec_bounds};

verus! {

/// Parameters of one collision-resolution pass.
pub struct CollisionParams {
    /// Broad-phase cell size; must exceed the collision radius so the 3x3
    /// neighborhood is a superset of all true neighbors.
    pub cell_size: i64,
    /// Interaction radius: pairs farther apart than this are not resolved.
    pub radius: i64,
    /// Damping of the velocity exchange (fixed-point, `0` is elastic).
    pub damping: i64,
    /// Strength of the unconditional repulsion per unit of penetration.
    pub repulsion: i64,
    /// Strength of the positional correction per unit of penetration.
    pub correction: i64,
    /// Pairs closer than this are skipped, guarding the division by the
    /// distance.
    pub min_dist: i64,
}

impl CollisionParams {
    /// Validity of the parameters.
    pub open spec fn wf(self) -> bool {
        &&& 1 <= self.cell_size
        &&& fx_ok(self.cell_size as int)
        &&& 0 <= self.radius
        &&& (self.radius as int) < self.cell_size as int
        &&& 0 <= self.damping
        &&& fx_ok(self.damping as int)
        &&& 0 <= self.repulsion
        &&& fx_ok(self.repulsion as int)
        &&& 0 <= self.correction
        &&& fx_ok(self.correction as int)
        &&& 1 <= self.min_dist
        &&& fx_ok(self.min_dist as int)
    }
}

/// The response of one candidate pair, computed from the pre-pass state:
/// `(velocity x, velocity y, position x, position y)` deltas. The result is
/// added to the higher-indexed particle's scratch slot and subtracted from
/// the lower-indexed one's, so the exchange is equal and opposite by
/// construction. A pair outside the radius, or too close to yield a normal,
/// contributes zero.
pub open spec fn pair_delta_s(
    pxi: int,
    pyi: int,
    vxi: int,
    vyi: int,
    pxj: int,
    pyj: int,
    vxj: int,
    vyj: int,
    params: CollisionParams,
) -> (int, int, int, int) {
    let dx = fx_sub_s(pxj, pxi);
    let dy = fx_sub_s(pyj, pyi);
    let d2 = fx_add_s(fx_mul_s(dx, dx), fx_mul_s(dy, dy));
    let dist = fx_sqrt_s(d2);
    if dist >= params.radius as int || dist <= params.min_dist as int {
        (0, 0, 0, 0)
    } else {
        let nx = fx_div_s(dx, dist);
        let ny = fx_div_s(dy, dist);
        let rvx = fx_sub_s(vxj, vxi);
        let rvy = fx_sub_s(vyj, vyi);
        let vn = fx_add_s(fx_mul_s(rvx, nx), fx_mul_s(rvy, ny));
        let imp = if vn < 0 {
            fx_half_s(-fx_mul_s(fx_add_s(SCALE as int, params.damping as int), vn))
        } else {
            0
        };
        let pen = fx_sub_s(params.radius as int, dist);
        let push = fx_add_s(imp, fx_mul_s(params.repulsion as int, pen));
        let corr = fx_half_s(fx_mul_s(params.correction as int, pen));
        (fx_mul_s(push, nx), fx_mul_s(push, ny), fx_mul_s(corr, nx), fx_mul_s(corr, ny))
    }
}

/// Compute the response of one candidate pair, executably.
pub fn resolve_pair(
    pxi: i64,
    pyi: i64,
    vxi: i64,
    vyi: i64,
    pxj: i64,
    pyj: i64,
    vxj: i64,
    vyj: i64,
    params: &CollisionParams,
) -> (r: (i64, i64, i64, i64))
    requires
        fx_ok(pxi as int),
        fx_ok(pyi as int),
        fx_ok(vxi as int),
        fx_ok(vyi as int),
        fx_ok(pxj as int),
        fx_ok(pyj as int),
        fx_ok(vxj as int),
        fx_ok(vyj as int),
        params.wf(),
    ensures
        ({
            let d = pair_delta_s(
                pxi as int,
                pyi as int,
                vxi as int,
                vyi as int,
                pxj as int,
                pyj as int,
                vxj as int,
                vyj as int,
                *params,
            );
            r.0 as int == d.0 && r.1 as int == d.1 && r.2 as int == d.2 && r.3 as int == d.3
        }),
        fx_ok(r.0 as int),
        fx_ok(r.1 as int),
        fx_ok(r.2 as int),
        fx_ok(r.3 as int),
{
    let dx: i64 = fx_sub(pxj, pxi);
    let dy: i64 = fx_sub(pyj, pyi);
    proof {
        lemma_fx_square_nonneg(dx as int);
        lemma_fx_square_nonneg(dy as int);
    }
    let d2: i64 = fx_add(fx_mul(dx, dx), fx_mul(dy, dy));
    let dist: i64 = fx_sqrt(d2);
    if dist >= params.radius || dist <= params.min_dist {
        (0, 0, 0, 0)
    } else {
        let nx: i64 = fx_div(dx, dist);
        let ny: i64 = fx_div(dy, dist);
        let rvx: i64 = fx_sub(vxj, vxi);
        let rvy: i64 = fx_sub(vyj, vyi);
        let vn: i64 = fx_add(fx_mul(rvx, nx), fx_mul(rvy, ny));
        let imp: i64 = if vn < 0 {
            fx_half(fx_neg(fx_mul(fx_add(SCALE, params.damping), vn)))
        } else {
            0
        };
        let pen: i64 = fx_sub(params.radius, dist);
        let push: i64 = fx_add(imp, fx_mul(params.repulsion, pen));
        let corr: i64 = fx_half(fx_mul(params.correction, pen));
        (fx_mul(push, nx), fx_mul(push, ny), fx_mul(corr, nx), fx_mul(corr, ny))
    }
}

/// The pairs contributed by candidate list `cands` of particle `i`: one
/// `(i, j)` for every later-indexed candidate `j`, in candidate order.
pub open spec fn pairs_from_cands(i: int, cands: Seq<usize>) -> Seq<(usize, usize)>
    decreases cands.len(),
{
    if cands.len() == 0 {
        Seq::empty()
    } else {
        let rest = pairs_from_cands(i, cands.drop_last());
        let j = cands.last();
        if i < j as int {
            rest.push((i as usize, j))
        } else {
            rest
        }
    }
}

/// The pairs contributed by particle `i`: its 3x3-neighborhood candidates,
/// kept when their index is higher.
pub open spec fn pairs_of(xs: Seq<int>, ys: Seq<int>, cs: int, i: int) -> Seq<(usize, usize)> {
    pairs_from_cands(
        i,
        cand_spec(xs, ys, cs, cell_of(xs[i], cs), cell_of(ys[i], cs), xs.len() as int),
    )
}

/// All pairs of one resolution pass, in the order the pass visits them.
pub open spec fn all_pairs(xs: Seq<int>, ys: Seq<int>, cs: int, n: int) -> Seq<(usize, usize)>
    decreases n,
{
    if n <= 0 {
        Seq::empty()
    } else {
        all_pairs(xs, ys, cs, n - 1) + pairs_of(xs, ys, cs, n - 1)
    }
}

/// Every pair is ordered and in range.
pub open spec fn pairs_valid(prs: Seq<(usize, usize)>, n: int) -> bool {
    forall|k: int|
        0 <= k < prs.len() ==> (#[trigger] prs[k]).0 < prs[k].1 && (prs[k].1 as int) < n
}

/// Pairs built from a bounded candidate list are ordered and in range.
pub proof fn lemma_pairs_from_cands_valid(i: int, cands: Seq<usize>, n: int)
    requires
        0 <= i,
        forall|m: int| 0 <= m < cands.len() ==> (#[trigger] cands[m] as int) < n,
    ensures
        pairs_valid(pairs_from_cands(i, cands), n),
    decreases cands.len(),
{
    if cands.len() > 0 {
        lemma_pairs_from_cands_valid(i, cands.drop_last(), n);
        assert(cands.last() == cands[cands.len() - 1]);
    }
}

/// All pairs of a pass are ordered and in range.
pub proof fn lemma_all_pairs_valid(xs: Seq<int>, ys: Seq<int>, cs: int, n: int)
    requires
        n <= xs.len(),
        ys.len() == xs.len(),
    ensures
        pairs_valid(all_pairs(xs, ys, cs, n), xs.len() as int),
    decreases n,
{
    if n > 0 {
        lemma_all_pairs_valid(xs, ys, cs, n - 1);
        let i = n - 1;
        lemma_cand_spec_bounds(xs, ys, cs, cell_of(xs[i], cs), cell_of(ys[i], cs), xs.len() as int);
        lemma_pairs_from_cands_valid(
            i,
            cand_spec(xs, ys, cs, cell_of(xs[i], cs), cell_of(ys[i], cs), xs.len() as int),
            xs.len() as int,
        );
        let prs = all_pairs(xs, ys, cs, n);
        let a = all_pairs(xs, ys, cs, n - 1);
        let b = pairs_of(xs, ys, cs, n - 1);
        assert forall|k: int|
            0 <= k < prs.len() implies (#[trigger] prs[k]).0 < prs[k].1 && (prs[k].1 as int)
            < xs.len() by {
            if k < a.len() {
                assert(prs[k] == a[k]);
                assert(a[k].0 < a[k].1 && (a[k].1 as int) < xs.len());
            } else {
                assert(prs[k] == b[k - a.len()]);
                assert(b[k - a.len()].0 < b[k - a.len()].1 && (b[k - a.len()].1 as int)
                    < xs.len());
            }
        }
    }
}

/// Accumulate delta `d` into scratch slot `idx`.
pub open spec fn add4(s: Seq<(int, int, int, int)>, idx: int, d: (int, int, int, int)) -> Seq<
    (int, int, int, int),
> {
    s.update(
        idx,
        (
            fx_add_s(s[idx].0, d.0),
            fx_add_s(s[idx].1, d.1),
            fx_add_s(s[idx].2, d.2),
            fx_add_s(s[idx].3, d.3),
        ),
    )
}

/// Subtract delta `d` from scratch slot `idx`.
pub open spec fn sub4(s: Seq<(int, int, int, int)>, idx: int, d: (int, int, int, int)) -> Seq<
    (int, int, int, int),
> {
    s.update(
        idx,
        (
            fx_sub_s(s[idx].0, d.0),
            fx_sub_s(s[idx].1, d.1),
            fx_sub_s(s[idx].2, d.2),
            fx_sub_s(s[idx].3, d.3),
        ),
    )
}

/// One pair's contribution to the scratch buffers: its delta is added at the
/// higher index and subtracted at the lower one — equal and opposite.
pub open spec fn apply_pair_s(
    s: Seq<(int, int, int, int)>,
    xs: Seq<int>,
    ys: Seq<int>,
    vxs: Seq<int>,
    vys: Seq<int>,
    params: CollisionParams,
    i: int,
    j: int,
) -> Seq<(int, int, int, int)> {
    let d = pair_delta_s(xs[i], ys[i], vxs[i], vys[i], xs[j], ys[j], vxs[j], vys[j], params);
    sub4(add4(s, j, d), i, d)
}

/// The scratch buffers after the first `k` pairs.
pub open spec fn scratch_after(
    s0: Seq<(int, int, int, int)>,
    xs: Seq<int>,
    ys: Seq<int>,
    vxs: Seq<int>,
    vys: Seq<int>,
    params: CollisionParams,
    prs: Seq<(usize, usize)>,
    k: int,
) -> Seq<(int, int, int, int)>
    decreases k,
{
    if k <= 0 {
        s0
    } else {
        let pr = prs[k - 1];
        apply_pair_s(
            scratch_after(s0, xs, ys, vxs, vys, params, prs, k - 1),
            xs,
            ys,
            vxs,
            vys,
            params,
            pr.0 as int,
            pr.1 as int,
        )
    }
}

/// A scratch state of `n` empty slots.
pub open spec fn zeros4(n: int) -> Seq<(int, int, int, int)> {
    Seq::new(n as nat, |m: int| (0, 0, 0, 0))
}

/// The four scratch vectors, viewed as one mathematical scratch state.
pub open spec fn scratch_view(
    dvx: Seq<i64>,
    dvy: Seq<i64>,
    dpx: Seq<i64>,
    dpy: Seq<i64>,
) -> Seq<(int, int, int, int)> {
    Seq::new(dvx.len(), |m: int| (dvx[m] as int, dvy[m] as int, dpx[m] as int, dpy[m] as int))
}

/// The scratch state a full pass over `pre` accumulates.
pub open spec fn final_scratch(pre: ParticleSet, params: CollisionParams) -> Seq<
    (int, int, int, int),
> {
    let cs = params.cell_size as int;
    let prs = all_pairs(pre.xs(), pre.ys(), cs, pre.count as int);
    scratch_after(
        zeros4(pre.count as int),
        pre.xs(),
        pre.ys(),
        pre.vxs(),
        pre.vys(),
        params,
        prs,
        prs.len() as int,
    )
}

/// Particle `m` of `post` is particle `m` of `pre` with its accumulated
/// scratch deltas applied.
pub open spec fn resolved_at(
    pre: ParticleSet,
    post: ParticleSet,
    params: CollisionParams,
    m: int,
) -> bool {
    let scr = final_scratch(pre, params);
    &&& post.vel_x@[m] as int == fx_add_s(pre.vel_x@[m] as int, scr[m].0)
    &&& post.vel_y@[m] as int == fx_add_s(pre.vel_y@[m] as int, scr[m].1)
    &&& post.pos_x@[m] as int == fx_add_s(pre.pos_x@[m] as int, scr[m].2)
    &&& post.pos_y@[m] as int == fx_add_s(pre.pos_y@[m] as int, scr[m].3)
}

/// The full resolution relation: layout preserved, every live particle
/// shifted by exactly its accumulated deltas, inert tail slots untouched.
pub open spec fn resolve_rel(pre: ParticleSet, post: ParticleSet, params: CollisionParams) -> bool {
    &&& post.count == pre.count
    &&& post.lane_width == pre.lane_width
    &&& post.pos_x.len() == pre.pos_x.len()
    &&& post.pos_y.len() == pre.pos_y.len()
    &&& post.vel_x.len() == pre.vel_x.len()
    &&& post.vel_y.len() == pre.vel_y.len()
    &&& forall|m: int| 0 <= m < pre.count ==> #[trigger] resolved_at(pre, post, params, m)
    &&& forall|m: int|
        pre.count <= m < pre.pos_x.len() ==> #[trigger] post.pos_x@[m] == pre.pos_x@[m]
            && post.pos_y@[m] == pre.pos_y@[m] && post.vel_x@[m] == pre.vel_x@[m]
            && post.vel_y@[m] == pre.vel_y@[m]
}

/// Collision resolution is symmetric. One resolved pair changes exactly its
/// two slots: the higher index receives the pair's delta — damped impulse,
/// repulsion and positional correction alike — and the lower index receives
/// the exact negation of every component; and wherever the accumulation does
/// not saturate, the pairwise exchange leaves the sum of the two slots
/// unchanged.
pub proof fn lemma_pair_exchange_symmetric(
    s: Seq<(int, int, int, int)>,
    xs: Seq<int>,
    ys: Seq<int>,
    vxs: Seq<int>,
    vys: Seq<int>,
    params: CollisionParams,
    i: int,
    j: int,
)
    requires
        0 <= i < j < s.len(),
    ensures
        ({
            let d = pair_delta_s(
                xs[i],
                ys[i],
                vxs[i],
                vys[i],
                xs[j],
                ys[j],
                vxs[j],
                vys[j],
                params,
            );
            let s2 = apply_pair_s(s, xs, ys, vxs, vys, params, i, j);
            &&& s2[j] == (
                fx_add_s(s[j].0, d.0),
                fx_add_s(s[j].1, d.1),
                fx_add_s(s[j].2, d.2),
                fx_add_s(s[j].3, d.3),
            )
            &&& s2[i] == (
                fx_add_s(s[i].0, -d.0),
                fx_add_s(s[i].1, -d.1),
                fx_add_s(s[i].2, -d.2),
                fx_add_s(s[i].3, -d.3),
            )
            &&& forall|m: int| 0 <= m < s.len() && m != i && m != j ==> #[trigger] s2[m] == s[m]
            &&& (fx_ok(s[j].0 + d.0) && fx_ok(s[i].0 - d.0) ==> s2[j].0 + s2[i].0 == s[j].0
                + s[i].0)
            &&& (fx_ok(s[j].1 + d.1) && fx_ok(s[i].1 - d.1) ==> s2[j].1 + s2[i].1 == s[j].1
                + s[i].1)
            &&& (fx_ok(s[j].2 + d.2) && fx_ok(s[i].2 - d.2) ==> s2[j].2 + s2[i].2 == s[j].2
                + s[i].2)
            &&& (fx_ok(s[j].3 + d.3) && fx_ok(s[i].3 - d.3) ==> s2[j].3 + s2[i].3 == s[j].3
                + s[i].3)
        }),
{
}

/// One collision-resolution pass: build the grid, gather candidate pairs
/// from each particle's 3x3 neighborhood (resolved only from the
/// lower-indexed side), accumulate every pair's response against the
/// pre-pass state, then apply all deltas at once.
pub fn resolve(ps: &mut ParticleSet, params: &CollisionParams)
    requires
        old(ps).wf(),
        params.wf(),
    ensures
        final(ps).wf(),
        resolve_rel(*old(ps), *final(ps), *params),
{
    let n: usize = ps.count;
    let ghost xs = ps.xs();
    let ghost ys = ps.ys();
    let ghost vxs = ps.vxs();
    let ghost vys = ps.vys();
    let ghost cs = params.cell_size as int;

    // Broad phase: the grid, then the candidate pairs in visit order.
    let g = SpatialHashGrid::build(ps, params.cell_size);
    let mut pairs: Vec<(usize, usize)> = Vec::new();
    let mut i: usize = 0;
    while i < n
        invariant
            ps.wf(),
            params.wf(),
            *ps == *old(ps),
            n == ps.count,
            i <= n,
            xs == ps.xs(),
            ys == ps.ys(),
            cs == params.cell_size as int,
            g.wf(),
            g.spec_cell_size() == cs,
            g.models(xs, ys),
            pairs@ == all_pairs(xs, ys, cs, i as int),
        decreases n - i,
    {
        let cx: i64 = cell_coord(ps.pos_x[i], params.cell_size);
        let cy: i64 = cell_coord(ps.pos_y[i], params.cell_size);
        proof {
            assert(xs[i as int] == ps.pos_x@[i as int] as int);
            assert(ys[i as int] == ps.pos_y@[i as int] as int);
        }
        let cands = g.candidates(cx, cy);
        proof {
            assert(g.bucket(cx as int - 1, cy as int - 1) == crate::grid::bucket_spec(
                xs, ys, cs, cx as int - 1, cy as int - 1, xs.len() as int));
            assert(g.bucket(cx as int - 1, cy as int) == crate::grid::bucket_spec(
                xs, ys, cs, cx as int - 1, cy as int, xs.len() as int));
            assert(g.bucket(cx as int - 1, cy as int + 1) == crate::grid::bucket_spec(
                xs, ys, cs, cx as int - 1, cy as int + 1, xs.len() as int));
            assert(g.bucket(cx as int, cy as int - 1) == crate::grid::bucket_spec(
                xs, ys, cs, cx as int, cy as int - 1, xs.len() as int));
            assert(g.bucket(cx as int, cy as int) == crate::grid::bucket_spec(
                xs, ys, cs, cx as int, cy as int, xs.len() as int));
            assert(g.bucket(cx as int, cy as int + 1) == crate::grid::bucket_spec(
                xs, ys, cs, cx as int, cy as int + 1, xs.len() as int));
            assert(g.bucket(cx as int + 1, cy as int - 1) == crate::grid::bucket_spec(
                xs, ys, cs, cx as int + 1, cy as int - 1, xs.len() as int));
            assert(g.bucket(cx as int + 1, cy as int) == crate::grid::bucket_spec(
                xs, ys, cs, cx as int + 1, cy as int, xs.len() as int));
            assert(g.bucket(cx as int + 1, cy as int + 1) == crate::grid::bucket_spec(
                xs, ys, cs, cx as int + 1, cy as int + 1, xs.len() as int));
            assert(cands@ == cand_spec(xs, ys, cs, cx as int, cy as int, xs.len() as int));
        }
        let m: usize = cands.len();
        let mut k: usize = 0;
        while k < m
            invariant
                k <= m,
                m == cands@.len(),
                i < n,
                pairs@ == all_pairs(xs, ys, cs, i as int) + pairs_from_cands(
                    i as int,
                    cands@.take(k as int),
                ),
            decreases m - k,
        {
            let j: usize = cands[k];
            if i < j {
                pairs.push((i, j));
            }
            proof {
                let t1 = cands@.take(k as int + 1);
                assert(t1.drop_last() =~= cands@.take(k as int));
                assert(t1.last() == cands@[k as int]);
            }
            k = k + 1;
        }
        proof {
            assert(cands@.take(m as int) =~= cands@);
            assert(pairs@ == all_pairs(xs, ys, cs, i as int + 1));
        }
        i = i + 1;
    }
    proof {
        lemma_all_pairs_valid(xs, ys, cs, n as int);
    }

    // Narrow phase: accumulate every pair's response into scratch buffers,
    // reading only the pre-pass state.
    let mut dvx: Vec<i64> = zero_vec(n);
    let mut dvy: Vec<i64> = zero_vec(n);
    let mut dpx: Vec<i64> = zero_vec(n);
    let mut dpy: Vec<i64> = zero_vec(n);
    proof {
        assert(scratch_view(dvx@, dvy@, dpx@, dpy@) =~= zeros4(n as int));
    }
    let np: usize = pairs.len();
    let mut k: usize = 0;
    while k < np
        invariant
            ps.wf(),
            params.wf(),
            *ps == *old(ps),
            n == ps.count,
            k <= np,
            np == pairs@.len(),
            xs == ps.xs(),
            ys == ps.ys(),
            vxs == ps.vxs(),
            vys == ps.vys(),
            cs == params.cell_size as int,
            pairs_valid(pairs@, n as int),
            dvx@.len() == n,
            dvy@.len() == n,
            dpx@.len() == n,
            dpy@.len() == n,
            all_fx_ok(dvx@),
            all_fx_ok(dvy@),
            all_fx_ok(dpx@),
            all_fx_ok(dpy@),
            scratch_view(dvx@, dvy@, dpx@, dpy@) == scratch_after(
                zeros4(n as int),
                xs,
                ys,
                vxs,
                vys,
                *params,
                pairs@,
                k as int,
            ),
        decreases np - k,
    {
        let pr: (usize, usize) = pairs[k];
        let pi: usize = pr.0;
        let pj: usize = pr.1;
        proof {
            assert(pairs@[k as int].0 < pairs@[k as int].1 && (pairs@[k as int].1 as int) < n);
            assert(xs[pi as int] == ps.pos_x@[pi as int] as int);
            assert(ys[pi as int] == ps.pos_y@[pi as int] as int);
            assert(vxs[pi as int] == ps.vel_x@[pi as int] as int);
            assert(vys[pi as int] == ps.vel_y@[pi as int] as int);
            assert(xs[pj as int] == ps.pos_x@[pj as int] as int);
            assert(ys[pj as int] == ps.pos_y@[pj as int] as int);
            assert(vxs[pj as int] == ps.vel_x@[pj as int] as int);
            assert(vys[pj as int] == ps.vel_y@[pj as int] as int);
        }
        let d: (i64, i64, i64, i64) = resolve_pair(
            ps.pos_x[pi],
            ps.pos_y[pi],
            ps.vel_x[pi],
            ps.vel_y[pi],
            ps.pos_x[pj],
            ps.pos_y[pj],
            ps.vel_x[pj],
            ps.vel_y[pj],
            params,
        );
        let ghost pre_dvx = dvx@;
        let ghost pre_dvy = dvy@;
        let ghost pre_dpx = dpx@;
        let ghost pre_dpy = dpy@;
        dvx.set(pj, fx_add(dvx[pj], d.0));
        dvy.set(pj, fx_add(dvy[pj], d.1));
        dpx.set(pj, fx_add(dpx[pj], d.2));
        dpy.set(pj, fx_add(dpy[pj], d.3));
        dvx.set(pi, fx_sub(dvx[pi], d.0));
        dvy.set(pi, fx_sub(dvy[pi], d.1));
        dpx.set(pi, fx_sub(dpx[pi], d.2));
        dpy.set(pi, fx_sub(dpy[pi], d.3));
        proof {
            lemma_all_fx_ok_update(pre_dvx, pj as int, dvx@[pj as int]);
            lemma_all_fx_ok_update(pre_dvy, pj as int, dvy@[pj as int]);
            lemma_all_fx_ok_update(pre_dpx, pj as int, dpx@[pj as int]);
            lemma_all_fx_ok_update(pre_dpy, pj as int, dpy@[pj as int]);
            assert forall|w: int| 0 <= w < dvx@.len() implies fx_ok(#[trigger] dvx@[w] as int) by {
                if w != pi as int && w != pj as int {
                    assert(fx_ok(pre_dvx[w] as int));
                }
            }
            assert forall|w: int| 0 <= w < dvy@.len() implies fx_ok(#[trigger] dvy@[w] as int) by {
                if w != pi as int && w != pj as int {
                    assert(fx_ok(pre_dvy[w] as int));
                }
            }
            assert forall|w: int| 0 <= w < dpx@.len() implies fx_ok(#[trigger] dpx@[w] as int) by {
                if w != pi as int && w != pj as int {
                    assert(fx_ok(pre_dpx[w] as int));
                }
            }
            assert forall|w: int| 0 <= w < dpy@.len() implies fx_ok(#[trigger] dpy@[w] as int) by {
                if w != pi as int && w != pj as int {
                    assert(fx_ok(pre_dpy[w] as int));
                }
            }
            assert(scratch_view(dvx@, dvy@, dpx@, dpy@) =~= apply_pair_s(
                scratch_view(pre_dvx, pre_dvy, pre_dpx, pre_dpy),
                xs,
                ys,
                vxs,
                vys,
                *params,
                pi as int,
                pj as int,
            ));
        }
        k = k + 1;
    }

    // Apply the accumulated deltas to the authoritative state, in one pass.
    let ghost scr = final_scratch(*old(ps), *params);
    proof {
        assert(scr == scratch_view(dvx@, dvy@, dpx@, dpy@));
    }
    let mut w: usize = 0;
    while w < n
        invariant
            params.wf(),
            n == ps.count,
            w <= n,
            ps.lane_width == old(ps).lane_width,
            ps.count == old(ps).count,
            ps.wf(),
            ps.pos_x@.len() == old(ps).pos_x@.len(),
            ps.pos_y@.len() == old(ps).pos_y@.len(),
            ps.vel_x@.len() == old(ps).vel_x@.len(),
            ps.vel_y@.len() == old(ps).vel_y@.len(),
            n <= ps.pos_x@.len(),
            dvx@.len() == n,
            dvy@.len() == n,
            dpx@.len() == n,
            dpy@.len() == n,
            all_fx_ok(dvx@),
            all_fx_ok(dvy@),
            all_fx_ok(dpx@),
            all_fx_ok(dpy@),
            scr == scratch_view(dvx@, dvy@, dpx@, dpy@),
            scr == final_scratch(*old(ps), *params),
            forall|m: int|
                w <= m < ps.pos_x@.len() ==> #[trigger] ps.pos_x@[m] == old(ps).pos_x@[m]
                    && ps.pos_y@[m] == old(ps).pos_y@[m] && ps.vel_x@[m] == old(ps).vel_x@[m]
                    && ps.vel_y@[m] == old(ps).vel_y@[m],
            forall|m: int| 0 <= m < w ==> #[trigger] resolved_at(*old(ps), *ps, *params, m),
        decreases n - w,
    {
        let ghost pre_iter = *ps;
        let nvx: i64 = fx_add(ps.vel_x[w], dvx[w]);
        let nvy: i64 = fx_add(ps.vel_y[w], dvy[w]);
        let npx: i64 = fx_add(ps.pos_x[w], dpx[w]);
        let npy: i64 = fx_add(ps.pos_y[w], dpy[w]);
        ps.vel_x.set(w, nvx);
        ps.vel_y.set(w, nvy);
        ps.pos_x.set(w, npx);
        ps.pos_y.set(w, npy);
        proof {
            lemma_all_fx_ok_update(pre_iter.vel_x@, w as int, nvx);
            lemma_all_fx_ok_update(pre_iter.vel_y@, w as int, nvy);
            lemma_all_fx_ok_update(pre_iter.pos_x@, w as int, npx);
            lemma_all_fx_ok_update(pre_iter.pos_y@, w as int, npy);
            assert(scr[w as int] == (dvx@[w as int] as int, dvy@[w as int] as int,
                dpx@[w as int] as int, dpy@[w as int] as int));
            assert forall|m: int|
                w as int + 1 <= m < ps.pos_x@.len() implies #[trigger] ps.pos_x@[m]
                == old(ps).pos_x@[m] && ps.pos_y@[m] == old(ps).pos_y@[m] && ps.vel_x@[m]
                == old(ps).vel_x@[m] && ps.vel_y@[m] == old(ps).vel_y@[m] by {
                assert(ps.pos_x@[m] == pre_iter.pos_x@[m]);
                assert(ps.pos_y@[m] == pre_iter.pos_y@[m]);
                assert(ps.vel_x@[m] == pre_iter.vel_x@[m]);
                assert(ps.vel_y@[m] == pre_iter.vel_y@[m]);
                assert(pre_iter.pos_x@[m] == old(ps).pos_x@[m]);
            }
            assert forall|m: int| 0 <= m < w as int + 1 implies #[trigger] resolved_at(
                *old(ps),
                *ps,
                *params,
                m,
            ) by {
                if m < w as int {
                    assert(resolved_at(*old(ps), pre_iter, *params, m));
                }
            }
        }
        w = w + 1;
    }
}

} // verus!
