//! Uniform spatial hash grid: the broad phase of collision detection.
//!
//! Rebuilt from the particle positions each collision pass, the grid maps a
//! cell coordinate (the position divided by the cell size, rounding down) to
//! the bucket of particle indices inside that cell, in ascending order. A
//! query gathers the buckets of a cell's 3x3 neighborhood, a superset of all
//! particles within one cell size.

use vstd::prelude::*;
use std::collections::HashMap;
use crate::fx::{FX_MAX, fx_ok};
use crate::particles::ParticleSet;

verus! {

broadcast use vstd::std_specs::hash::group_hash_axioms;

/// Offset added to a cell coordinate so the packed key is nonnegative
/// (`2^62`, beyond any representable coordinate magnitude).
pub const KEY_OFFSET: i64 = 4_611_686_018_427_387_904;

/// Width of one key row (`2^63`), larger than any offset coordinate.
pub const KEY_SPAN: u128 = 9_223_372_036_854_775_808;

/// Cell coordinate of a fixed-point position: floor division by the cell
/// size.
pub open spec fn cell_of(p: int, cell_size: int) -> int {
    p / cell_size
}

/// A cell coordinate that a query may touch: any in-range position's cell,
/// or one of its direct neighbors.
pub open spec fn cell_in_range(c: int) -> bool {
    -(FX_MAX as int + 1) <= c <= FX_MAX as int + 1
}

/// The packed map key of cell `(cx, cy)`.
pub open spec fn cell_key_s(cx: int, cy: int) -> int {
    (cx + KEY_OFFSET as int) * (KEY_SPAN as int) + (cy + KEY_OFFSET as int)
}

/// Distinct cells have distinct packed keys.
pub proof fn lemma_cell_key_injective(ax: int, ay: int, bx: int, by: int)
    requires
        cell_in_range(ax),
        cell_in_range(ay),
        cell_in_range(bx),
        cell_in_range(by),
        cell_key_s(ax, ay) == cell_key_s(bx, by),
    ensures
        ax == bx,
        ay == by,
{
    let span = KEY_SPAN as int;
    let off = KEY_OFFSET as int;
    let k = cell_key_s(ax, ay);
    vstd::arithmetic::div_mod::lemma_fundamental_div_mod_converse(k, span, ax + off, ay + off);
    vstd::arithmetic::div_mod::lemma_fundamental_div_mod_converse(k, span, bx + off, by + off);
}

/// The bucket of cell `(cx, cy)` that positions `xs, ys` induce: every index
/// `i < n` whose position's cell is `(cx, cy)`, in ascending order.
pub open spec fn bucket_spec(
    xs: Seq<int>,
    ys: Seq<int>,
    cs: int,
    cx: int,
    cy: int,
    n: int,
) -> Seq<usize>
    decreases n,
{
    if n <= 0 {
        Seq::empty()
    } else {
        let rest = bucket_spec(xs, ys, cs, cx, cy, n - 1);
        if cell_of(xs[n - 1], cs) == cx && cell_of(ys[n - 1], cs) == cy {
            rest.push((n - 1) as usize)
        } else {
            rest
        }
    }
}

/// The candidates that positions `xs, ys` induce around cell `(cx, cy)`:
/// the nine induced buckets of its 3x3 neighborhood, in scan order.
pub open spec fn cand_spec(
    xs: Seq<int>,
    ys: Seq<int>,
    cs: int,
    cx: int,
    cy: int,
    n: int,
) -> Seq<usize> {
    bucket_spec(xs, ys, cs, cx - 1, cy - 1, n) + bucket_spec(xs, ys, cs, cx - 1, cy, n)
        + bucket_spec(xs, ys, cs, cx - 1, cy + 1, n) + bucket_spec(xs, ys, cs, cx, cy - 1, n)
        + bucket_spec(xs, ys, cs, cx, cy, n) + bucket_spec(xs, ys, cs, cx, cy + 1, n)
        + bucket_spec(xs, ys, cs, cx + 1, cy - 1, n) + bucket_spec(xs, ys, cs, cx + 1, cy, n)
        + bucket_spec(xs, ys, cs, cx + 1, cy + 1, n)
}

/// Every index an induced bucket holds is below `n`.
pub proof fn lemma_bucket_spec_bounds(xs: Seq<int>, ys: Seq<int>, cs: int, cx: int, cy: int, n: int)
    ensures
        forall|m: int|
            0 <= m < bucket_spec(xs, ys, cs, cx, cy, n).len() ==> (#[trigger] bucket_spec(
                xs,
                ys,
                cs,
                cx,
                cy,
                n,
            )[m] as int) < n,
    decreases n,
{
    if n > 0 {
        lemma_bucket_spec_bounds(xs, ys, cs, cx, cy, n - 1);
        let rest = bucket_spec(xs, ys, cs, cx, cy, n - 1);
        let whole = bucket_spec(xs, ys, cs, cx, cy, n);
        assert forall|m: int| 0 <= m < whole.len() implies (#[trigger] whole[m] as int) < n by {
            if m < rest.len() {
                assert((rest[m] as int) < n - 1);
            }
        }
    }
}

/// Every candidate index is below `n`.
pub proof fn lemma_cand_spec_bounds(xs: Seq<int>, ys: Seq<int>, cs: int, cx: int, cy: int, n: int)
    ensures
        forall|m: int|
            0 <= m < cand_spec(xs, ys, cs, cx, cy, n).len() ==> (#[trigger] cand_spec(
                xs,
                ys,
                cs,
                cx,
                cy,
                n,
            )[m] as int) < n,
{
    lemma_bucket_spec_bounds(xs, ys, cs, cx - 1, cy - 1, n);
    lemma_bucket_spec_bounds(xs, ys, cs, cx - 1, cy, n);
    lemma_bucket_spec_bounds(xs, ys, cs, cx - 1, cy + 1, n);
    lemma_bucket_spec_bounds(xs, ys, cs, cx, cy - 1, n);
    lemma_bucket_spec_bounds(xs, ys, cs, cx, cy, n);
    lemma_bucket_spec_bounds(xs, ys, cs, cx, cy + 1, n);
    lemma_bucket_spec_bounds(xs, ys, cs, cx + 1, cy - 1, n);
    lemma_bucket_spec_bounds(xs, ys, cs, cx + 1, cy, n);
    lemma_bucket_spec_bounds(xs, ys, cs, cx + 1, cy + 1, n);
}

/// The broad-phase structure: cell coordinates to buckets of particle
/// indices.
pub struct SpatialHashGrid {
    cells: HashMap<u128, Vec<usize>>,
    cell_size: i64,
}

impl SpatialHashGrid {
    /// The grid's cell size, as a mathematical integer.
    pub closed spec fn spec_cell_size(self) -> int {
        self.cell_size as int
    }

    /// A usable grid: positive, representable cell size.
    pub closed spec fn wf(self) -> bool {
        1 <= self.cell_size && fx_ok(self.cell_size as int)
    }

    /// The stored bucket of cell `(cx, cy)`; empty when the cell was never
    /// filled.
    pub closed spec fn bucket(self, cx: int, cy: int) -> Seq<usize> {
        let k = cell_key_s(cx, cy) as u128;
        if self.cells@.contains_key(k) {
            self.cells@[k]@
        } else {
            Seq::empty()
        }
    }

    /// The grid holds exactly the buckets that positions `xs, ys` induce:
    /// the contract of the build phase.
    pub open spec fn models(self, xs: Seq<int>, ys: Seq<int>) -> bool {
        forall|cx: int, cy: int|
            cell_in_range(cx) && cell_in_range(cy) ==> #[trigger] self.bucket(cx, cy)
                == bucket_spec(xs, ys, self.spec_cell_size(), cx, cy, xs.len() as int)
    }

    /// Build the grid for one collision pass: one insertion per live
    /// particle, in index order.
    pub fn build(ps: &ParticleSet, cell_size: i64) -> (g: SpatialHashGrid)
        requires
            ps.wf(),
            1 <= cell_size,
            fx_ok(cell_size as int),
        ensures
            g.wf(),
            g.spec_cell_size() == cell_size,
            g.models(ps.xs(), ps.ys()),
    {
        let mut g = SpatialHashGrid { cells: HashMap::new(), cell_size };
        let n: usize = ps.count;
        let mut i: usize = 0;
        proof {
            assert forall|cx: int, cy: int|
                cell_in_range(cx) && cell_in_range(cy) implies #[trigger] g.bucket(cx, cy)
                == bucket_spec(ps.xs(), ps.ys(), cell_size as int, cx, cy, 0) by {
                assert(!g.cells@.contains_key(cell_key_s(cx, cy) as u128));
            }
        }
        while i < n
            invariant
                ps.wf(),
                n == ps.count,
                i <= n,
                g.cell_size == cell_size,
                1 <= cell_size,
                fx_ok(cell_size as int),
                forall|cx: int, cy: int|
                    cell_in_range(cx) && cell_in_range(cy) ==> #[trigger] g.bucket(cx, cy)
                        == bucket_spec(ps.xs(), ps.ys(), cell_size as int, cx, cy, i as int),
            decreases n - i,
        {
            let ghost pre = g;
            let cx: i64 = cell_coord(ps.pos_x[i], cell_size);
            let cy: i64 = cell_coord(ps.pos_y[i], cell_size);
            let k: u128 = cell_key(cx, cy);
            let mut bucket: Vec<usize> = match g.cells.remove(&k) {
                Some(b) => b,
                None => Vec::new(),
            };
            bucket.push(i);
            g.cells.insert(k, bucket);
            proof {
                assert(ps.xs()[i as int] == ps.pos_x@[i as int] as int);
                assert(ps.ys()[i as int] == ps.pos_y@[i as int] as int);
                assert forall|ox: int, oy: int|
                    cell_in_range(ox) && cell_in_range(oy) implies #[trigger] g.bucket(ox, oy)
                    == bucket_spec(ps.xs(), ps.ys(), cell_size as int, ox, oy, i as int + 1) by {
                    if ox == cx as int && oy == cy as int {
                        assert(g.bucket(ox, oy) == pre.bucket(ox, oy).push(i));
                    } else {
                        if cell_key_s(ox, oy) == cell_key_s(cx as int, cy as int) {
                            lemma_cell_key_injective(ox, oy, cx as int, cy as int);
                        }
                        assert(g.bucket(ox, oy) == pre.bucket(ox, oy));
                        assert(pre.bucket(ox, oy) == bucket_spec(
                            ps.xs(),
                            ps.ys(),
                            cell_size as int,
                            ox,
                            oy,
                            i as int,
                        ));
                    }
                }
            }
            i = i + 1;
        }
        g
    }

    /// The broad-phase candidates of cell `(cx, cy)`: the nine buckets of
    /// its 3x3 neighborhood, concatenated in scan order.
    pub open spec fn cand_seq(self, cx: int, cy: int) -> Seq<usize> {
        self.bucket(cx - 1, cy - 1) + self.bucket(cx - 1, cy) + self.bucket(cx - 1, cy + 1)
            + self.bucket(cx, cy - 1) + self.bucket(cx, cy) + self.bucket(cx, cy + 1) + self.bucket(
            cx + 1,
            cy - 1,
        ) + self.bucket(cx + 1, cy) + self.bucket(cx + 1, cy + 1)
    }

    /// Gather the candidate indices around cell `(cx, cy)`.
    pub fn candidates(&self, cx: i64, cy: i64) -> (r: Vec<usize>)
        requires
            self.wf(),
            -(FX_MAX as int) <= cx as int <= FX_MAX as int,
            -(FX_MAX as int) <= cy as int <= FX_MAX as int,
        ensures
            r@ == self.cand_seq(cx as int, cy as int),
    {
        let mut out: Vec<usize> = Vec::new();
        self.push_bucket(&mut out, cx - 1, cy - 1);
        self.push_bucket(&mut out, cx - 1, cy);
        self.push_bucket(&mut out, cx - 1, cy + 1);
        self.push_bucket(&mut out, cx, cy - 1);
        self.push_bucket(&mut out, cx, cy);
        self.push_bucket(&mut out, cx, cy + 1);
        self.push_bucket(&mut out, cx + 1, cy - 1);
        self.push_bucket(&mut out, cx + 1, cy);
        self.push_bucket(&mut out, cx + 1, cy + 1);
        proof {
            assert(out@ =~= self.cand_seq(cx as int, cy as int));
        }
        out
    }

    /// Append the bucket of one cell to `out`.
    fn push_bucket(&self, out: &mut Vec<usize>, cx: i64, cy: i64)
        requires
            self.wf(),
            cell_in_range(cx as int),
            cell_in_range(cy as int),
        ensures
            final(out)@ == old(out)@ + self.bucket(cx as int, cy as int),
    {
        let k: u128 = cell_key(cx, cy);
        match self.cells.get(&k) {
            Some(b) => {
                let m: usize = b.len();
                let mut j: usize = 0;
                while j < m
                    invariant
                        j <= m,
                        m == b@.len(),
                        out@ == old(out)@ + b@.take(j as int),
                    decreases m - j,
                {
                    out.push(b[j]);
                    proof {
                        assert(b@.take(j as int + 1) =~= b@.take(j as int).push(b@[j as int]));
                    }
                    j = j + 1;
                }
                proof {
                    assert(b@.take(m as int) =~= b@);
                }
            },
            None => {
                proof {
                    assert(out@ =~= old(out)@ + Seq::<usize>::empty());
                }
            },
        }
    }
}

/// Two grids built over the same unchanged positions hold identical buckets
/// everywhere.
pub proof fn lemma_build_idempotent(
    g1: SpatialHashGrid,
    g2: SpatialHashGrid,
    xs: Seq<int>,
    ys: Seq<int>,
)
    requires
        g1.spec_cell_size() == g2.spec_cell_size(),
        g1.models(xs, ys),
        g2.models(xs, ys),
    ensures
        forall|cx: int, cy: int|
            cell_in_range(cx) && cell_in_range(cy) ==> #[trigger] g1.bucket(cx, cy) == g2.bucket(
                cx,
                cy,
            ),
{
    assert forall|cx: int, cy: int| cell_in_range(cx) && cell_in_range(cy) implies #[trigger] g1
        .bucket(cx, cy) == g2.bucket(cx, cy) by {
        assert(g1.bucket(cx, cy) == bucket_spec(
            xs,
            ys,
            g1.spec_cell_size(),
            cx,
            cy,
            xs.len() as int,
        ));
        assert(g2.bucket(cx, cy) == bucket_spec(
            xs,
            ys,
            g2.spec_cell_size(),
            cx,
            cy,
            xs.len() as int,
        ));
    }
}

/// The exec cell coordinate: floor division of a position by the cell size.
pub fn cell_coord(p: i64, cell_size: i64) -> (r: i64)
    requires
        fx_ok(p as int),
        1 <= cell_size,
        fx_ok(cell_size as int),
    ensures
        r as int == cell_of(p as int, cell_size as int),
        -(FX_MAX as int) <= r as int <= FX_MAX as int,
{
    let d: u64 = cell_size as u64;
    if p >= 0 {
        let q: u64 = (p as u64) / d;
        proof {
            vstd::arithmetic::div_mod::lemma_div_is_ordered(0, p as int, cell_size as int);
            vstd::arithmetic::div_mod::lemma_div_is_ordered_by_denominator(
                p as int,
                1,
                cell_size as int,
            );
        }
        q as i64
    } else {
        let np: u64 = (-p) as u64;
        proof {
            assert(np as int + (d - 1) as int <= 2 * (FX_MAX as int));
        }
        let q: u64 = (np + (d - 1)) / d;
        proof {
            let cs = cell_size as int;
            let npi = np as int;
            let top = npi + cs - 1;
            let qi = top / cs;
            vstd::arithmetic::div_mod::lemma_fundamental_div_mod(top, cs);
            let rem = top % cs;
            assert(top == cs * qi + rem);
            assert(qi * cs == cs * qi) by (nonlinear_arith);
            assert((-qi) * cs == -(qi * cs)) by (nonlinear_arith);
            assert(0 <= qi * cs - npi < cs);
            vstd::arithmetic::div_mod::lemma_fundamental_div_mod_converse(
                p as int,
                cs,
                -qi,
                qi * cs - npi,
            );
            vstd::arithmetic::div_mod::lemma_div_is_ordered(0, top, cs);
            vstd::arithmetic::div_mod::lemma_div_is_ordered_by_denominator(top, 1, cs);
            assert(qi <= top);
            assert(top <= npi * cs) by (nonlinear_arith)
                requires
                    npi >= 1,
                    cs >= 1,
                    top == npi + cs - 1,
            ;
            vstd::arithmetic::div_mod::lemma_div_is_ordered(top, npi * cs, cs);
            assert(npi * cs == cs * npi) by (nonlinear_arith);
            vstd::arithmetic::div_mod::lemma_div_multiples_vanish(npi, cs);
            assert(qi <= npi);
        }
        -(q as i64)
    }
}

/// The packed map key of a cell, executably.
fn cell_key(cx: i64, cy: i64) -> (k: u128)
    requires
        cell_in_range(cx as int),
        cell_in_range(cy as int),
    ensures
        k as int == cell_key_s(cx as int, cy as int),
{
    let ux: u128 = (cx + KEY_OFFSET) as u128;
    let uy: u128 = (cy + KEY_OFFSET) as u128;
    ux * KEY_SPAN + uy
}

} // verus!
