use vstd::prelude::*;

use crate::dense::Dense;
use crate::raycast::{line_cells, line_seq};
use crate::selection::Selection;

verus! {

/// The fixed-point scale, squared — one constant so contracts can name it.
pub const FIX_SQ: i64 = 67108864;

/// The integer square root: the largest `r` with `r² ≤ n`.
pub open spec fn sqrt_floor(n: int) -> int {
    choose|r: int| 0 <= r && #[trigger] (r * r) <= n && n < (r + 1) * (r + 1)
}

/// The characterization pins `sqrt_floor` down.
pub proof fn lemma_sqrt_floor(n: int, r: int)
    requires
        0 <= r,
        r * r <= n,
        n < (r + 1) * (r + 1),
    ensures
        sqrt_floor(n) == r,
{
    assert(exists|q: int| 0 <= q && #[trigger] (q * q) <= n && n < (q + 1) * (q + 1)) by {
        assert(0 <= r && r * r <= n && n < (r + 1) * (r + 1));
    }
    let q = sqrt_floor(n);
    if q < r {
        assert((q + 1) * (q + 1) <= r * r) by (nonlinear_arith)
            requires
                0 <= q,
                q < r,
        ;
        assert(false);
    } else if q > r {
        assert((r + 1) * (r + 1) <= q * q) by (nonlinear_arith)
            requires
                0 <= r,
                r < q,
        ;
        assert(false);
    }
}

/// Integer square root of a u128, by bisection.
fn isqrt(n: u128) -> (r: u128)
    ensures
        r * r <= n,
        n < (r + 1) * (r + 1),
        r == sqrt_floor(n as int),
{
    let mut lo: u128 = 0;
    let mut hi: u128 = 0xFFFF_FFFF_FFFF_FFFF;
    if n < hi {
        hi = n;
    }
    proof {
        assert(n < (hi + 1) * (hi + 1)) by (nonlinear_arith)
            requires
                hi == n || hi == 0xFFFF_FFFF_FFFF_FFFFu128,
                n <= u128::MAX,
                hi <= n,
        ;
    }
    while lo < hi
        invariant
            lo <= hi,
            hi <= 0xFFFF_FFFF_FFFF_FFFF,
            lo * lo <= n,
            n < (hi + 1) * (hi + 1),
        decreases hi - lo,
    {
        let mid = lo + (hi - lo + 1) / 2;
        proof {
            assert(mid * mid <= 0xFFFF_FFFF_FFFF_FFFF * 0xFFFF_FFFF_FFFF_FFFF)
                by (nonlinear_arith)
                requires
                    0 <= mid <= 0xFFFF_FFFF_FFFF_FFFF,
            ;
        }
        if mid * mid <= n {
            lo = mid;
        } else {
            hi = mid - 1;
        }
    }
    proof {
        lemma_sqrt_floor(n as int, lo as int);
    }
    lo
}

/// Saturating addition on i64.
pub open spec fn sat_add_spec(a: i64, b: i64) -> i64 {
    if a + b > i64::MAX {
        i64::MAX
    } else if a + b < i64::MIN {
        i64::MIN
    } else {
        (a + b) as i64
    }
}

pub fn sat_add(a: i64, b: i64) -> (r: i64)
    ensures
        r == sat_add_spec(a, b),
{
    match a.checked_add(b) {
        Some(r) => r,
        None => {
            if a > 0 {
                i64::MAX
            } else {
                i64::MIN
            }
        },
    }
}

/// An exact product of two moderate i128 values.
fn mul_i128b(a: i128, b: i128) -> (r: i128)
    requires
        -0x1000_0000_0000_0000 <= a <= 0x1000_0000_0000_0000,
        -0x1000_0000_0000_0000 <= b <= 0x1000_0000_0000_0000,
    ensures
        r == a * b,
{
    proof {
        assert(-0x100_0000_0000_0000_0000_0000_0000_0000 <= a * b
            <= 0x100_0000_0000_0000_0000_0000_0000_0000) by (nonlinear_arith)
            requires
                -0x1000_0000_0000_0000 <= a <= 0x1000_0000_0000_0000,
                -0x1000_0000_0000_0000 <= b <= 0x1000_0000_0000_0000,
        ;
    }
    a * b
}

/// An exact square of a bounded i64, with a bound the caller can add on.
fn sq_i128(v: i64) -> (r: i128)
    requires
        -0x40_0000 <= v <= 0x40_0000,
    ensures
        r == v * v,
        0 <= r <= 0x1000_0000_0000,
{
    proof {
        assert(0 <= v * v <= 0x1000_0000_0000) by (nonlinear_arith)
            requires
                -0x40_0000 <= v <= 0x40_0000,
        ;
    }
    (v as i128) * (v as i128)
}

/// An exact product where one factor is a single step (-1, 0 or 1).
fn mul_small(a: i64, b: i64) -> (r: i64)
    requires
        -1 <= a <= 1,
        -0x40_0000 <= b <= 0x40_0000,
    ensures
        r == a * b,
        -0x40_0000 <= r <= 0x40_0000,
{
    proof {
        assert(-0x40_0000 <= a * b <= 0x40_0000) by (nonlinear_arith)
            requires
                -1 <= a <= 1,
                -0x40_0000 <= b <= 0x40_0000,
        ;
    }
    a * b
}

/// The slope-constrained any-angle pathfinder's terrain: per-voxel
/// traversal weights (fixed-point raw), the steepest slope a move may
/// climb, and the vertical skew of the distance estimate (both fixed-point
/// raw).
pub struct SearchMap {
    pub weight_array: Dense,
    pub max_slope: i64,
    pub vertical_skew: i64,
}

impl SearchMap {
    /// The terrain a search can run over: a well-formed weight field of
    /// positive, bounded extent, and bounded tuning values.
    pub open spec fn wf(&self) -> bool {
        &&& self.weight_array.wf()
        &&& 1 <= self.weight_array.dim().0 <= 0x10_0000
        &&& 1 <= self.weight_array.dim().1 <= 0x10_0000
        &&& 1 <= self.weight_array.dim().2 <= 0x10_0000
        &&& self.weight_array.dim().0 * self.weight_array.dim().1 * self.weight_array.dim().2
            <= crate::dense::MAX_CELLS
        &&& -0x4000_0000 <= self.max_slope <= 0x4000_0000
        &&& -0x4000_0000 <= self.vertical_skew <= 0x4000_0000
    }

    /// Bounds-checks a coordinate against the weight field.
    pub fn check(&self, a: (i64, i64, i64)) -> (r: Option<(usize, usize, usize)>)
        requires
            self.wf(),
        ensures
            match r {
                Some(u) => (u.0 as int, u.1 as int, u.2 as int) == (a.0 as int, a.1 as int, a.2 as int)
                    && self.weight_array.in_bounds(u.0 as int, u.1 as int, u.2 as int),
                None => !self.weight_array.in_bounds(a.0 as int, a.1 as int, a.2 as int),
            },
    {
        let dim = self.weight_array.size();
        if a.0 < 0 || a.0 >= dim.0 as i64 {
            None
        } else if a.1 < 0 || a.1 >= dim.1 as i64 {
            None
        } else if a.2 < 0 || a.2 >= dim.2 as i64 {
            None
        } else {
            Some((a.0 as usize, a.1 as usize, a.2 as usize))
        }
    }

    /// The distance estimate between two voxels, in fixed-point raw units:
    /// `sqrt( sqrt(Δx² + Δz²) + skew² · Δy² )`, integer square roots
    /// throughout, saturating at the representation's top.
    pub open spec fn dist_spec(&self, a: (int, int, int), b: (int, int, int)) -> i64 {
        let mid = (a.0 - b.0) * (a.0 - b.0) + (a.2 - b.2) * (a.2 - b.2);
        let hor = sqrt_floor(mid * FIX_SQ);
        let ver = (self.vertical_skew * self.vertical_skew * ((a.1 - b.1) * (a.1 - b.1))) / (
        crate::scalar::FIX_SCALE as int);
        let d = sqrt_floor((hor + ver) * crate::scalar::FIX_SCALE);
        if d > i64::MAX {
            i64::MAX
        } else {
            d as i64
        }
    }

    pub fn distance(&self, a: (usize, usize, usize), b: (usize, usize, usize)) -> (r: i64)
        requires
            self.wf(),
            a.0 <= 0x10_0000 && a.1 <= 0x10_0000 && a.2 <= 0x10_0000,
            b.0 <= 0x10_0000 && b.1 <= 0x10_0000 && b.2 <= 0x10_0000,
        ensures
            r == self.dist_spec(
                (a.0 as int, a.1 as int, a.2 as int),
                (b.0 as int, b.1 as int, b.2 as int),
            ),
            r >= 0,
    {
        let dx = a.0 as i64 - b.0 as i64;
        let dy = a.1 as i64 - b.1 as i64;
        let dz = a.2 as i64 - b.2 as i64;
        let mid: i128 = sq_i128(dx) + sq_i128(dz);
        let hor = isqrt((mid as u128) * (FIX_SQ as u128));
        let sk2 = mul_i128b(self.vertical_skew as i128, self.vertical_skew as i128);
        proof {
            assert(0 <= sk2 <= 0x1000_0000_0000_0000) by (nonlinear_arith)
                requires
                    sk2 == self.vertical_skew * self.vertical_skew,
                    -0x4000_0000 <= self.vertical_skew <= 0x4000_0000,
            ;
        }
        let num = mul_i128b(sk2, sq_i128(dy));
        proof {
            assert(0 <= num <= 0x400_0000_0000_0000_0000_0000_0000) by (nonlinear_arith)
                requires
                    num == sk2 * (dy * dy),
                    0 <= sk2 <= 0x1000_0000_0000_0000,
                    -0x10_0000 - 0x10_0000 <= dy <= 0x10_0000 + 0x10_0000,
            ;
        }
        let ver = (num as u128) / (crate::scalar::FIX_SCALE as u128);
        proof {
            vstd::arithmetic::div_mod::lemma_div_basics_5(num as int, crate::scalar::FIX_SCALE as int);
            assert(hor * hor <= (mid as u128) * (FIX_SQ as u128) < 0x1_0000_0000_0000_0000_0000)
                by (nonlinear_arith)
                requires
                    hor * hor <= (mid as u128) * (FIX_SQ as u128),
                    0 <= mid <= 0x2000_0000_0000,
                    FIX_SQ == 0x4000000,
            ;
            assert(hor < 0x1_0000_0000_0000) by (nonlinear_arith)
                requires
                    hor * hor < 0x1_0000_0000_0000_0000_0000,
            ;
        }
        let inner = (hor + ver) * (crate::scalar::FIX_SCALE as u128);
        let d = isqrt(inner);
        if d > i64::MAX as u128 {
            i64::MAX
        } else {
            d as i64
        }
    }

    /// The running cost of a traversal, starting after the origin cell:
    /// per-voxel weights summed with saturation; leaving the grid stops
    /// the accumulation (partial cost to the boundary only).
    pub open spec fn cost_iter(w: Dense, cells: Seq<(i64, i64, i64)>, k: int, acc: i64) -> i64
        decreases cells.len() - k,
    {
        if !(0 <= k < cells.len()) {
            acc
        } else {
            let c = cells[k];
            if !w.in_bounds(c.0 as int, c.1 as int, c.2 as int) {
                acc
            } else {
                Self::cost_iter(
                    w,
                    cells,
                    k + 1,
                    sat_add_spec(acc, w.at(c.0 as int, c.1 as int, c.2 as int)),
                )
            }
        }
    }

    /// Sums the weights of the voxels the segment from `start` along
    /// `along` crosses, skipping the origin cell.
    pub fn search_cost(&self, start: (usize, usize, usize), along: (i64, i64, i64)) -> (r: i64)
        requires
            self.wf(),
            start.0 <= 0x10_0000 && start.1 <= 0x10_0000 && start.2 <= 0x10_0000,
            -0x20_0000 <= along.0 <= 0x20_0000,
            -0x20_0000 <= along.1 <= 0x20_0000,
            -0x20_0000 <= along.2 <= 0x20_0000,
        ensures
            r == Self::cost_iter(
                self.weight_array,
                line_seq(
                    (start.0 as i64, start.1 as i64, start.2 as i64),
                    ((start.0 + along.0) as i64, (start.1 + along.1) as i64, (start.2 + along.2) as i64),
                    0,
                    0,
                    0,
                ),
                1,
                0,
            ),
    {
        let s: (i64, i64, i64) = (start.0 as i64, start.1 as i64, start.2 as i64);
        let e: (i64, i64, i64) = (s.0 + along.0, s.1 + along.1, s.2 + along.2);
        let cells = line_cells(s, e);
        let ghost cs = cells@;
        let mut acc: i64 = 0;
        let mut k: usize = 1;
        let n = cells.len();
        while k < n
            invariant
                self.wf(),
                cs == cells@,
                s == (start.0 as i64, start.1 as i64, start.2 as i64),
                e == ((start.0 + along.0) as i64, (start.1 + along.1) as i64, (start.2
                    + along.2) as i64),
                cs == line_seq(s, e, 0, 0, 0),
                n == cs.len(),
                1 <= k <= n || (k == 1 && n == 1),
                Self::cost_iter(self.weight_array, cs, 1, 0) == Self::cost_iter(
                    self.weight_array,
                    cs,
                    k as int,
                    acc,
                ),
            decreases n - k,
        {
            let c = cells[k];
            match self.check(c) {
                None => {
                    proof {
                        assert(Self::cost_iter(self.weight_array, cs, k as int, acc) == acc);
                    }
                    return acc;
                },
                Some(u) => {
                    acc = sat_add(acc, self.weight_array.get(u.0, u.1, u.2));
                },
            }
            k += 1;
        }
        acc
    }

    /// Adds every voxel the segment from `start` along `along` crosses to
    /// the selection — origin and endpoint included.
    pub fn search_select(
        &self,
        start: (usize, usize, usize),
        along: (i64, i64, i64),
        sel: Selection,
    ) -> (r: Selection)
        requires
            sel.inv(),
            start.0 <= 0x10_0000 && start.1 <= 0x10_0000 && start.2 <= 0x10_0000,
            -0x20_0000 <= along.0 <= 0x20_0000,
            -0x20_0000 <= along.1 <= 0x20_0000,
            -0x20_0000 <= along.2 <= 0x20_0000,
        ensures
            r.inv(),
            along == (0i64, 0i64, 0i64) ==> r@ == sel@,
            along != (0i64, 0i64, 0i64) ==> r@ == sel@ + line_seq(
                (start.0 as i64, start.1 as i64, start.2 as i64),
                ((start.0 + along.0) as i64, (start.1 + along.1) as i64, (start.2 + along.2) as i64),
                0,
                0,
                0,
            ).to_set(),
            forall|c: (i64, i64, i64)| #[trigger]
                r@.contains(c) ==> sel@.contains(c) || {
                    let s = (start.0 as i64, start.1 as i64, start.2 as i64);
                    let e = (
                        (start.0 + along.0) as i64,
                        (start.1 + along.1) as i64,
                        (start.2 + along.2) as i64,
                    );
                    crate::raycast::betw(s.0, e.0, c.0) && crate::raycast::betw(s.1, e.1, c.1)
                        && crate::raycast::betw(s.2, e.2, c.2)
                },
    {
        if along.0 == 0 && along.1 == 0 && along.2 == 0 {
            return sel;
        }
        let s: (i64, i64, i64) = (start.0 as i64, start.1 as i64, start.2 as i64);
        let e: (i64, i64, i64) = (s.0 + along.0, s.1 + along.1, s.2 + along.2);
        let cells = line_cells(s, e);
        let ghost cs = cells@;
        let mut r = sel;
        let mut k: usize = 0;
        let n = cells.len();
        while k < n
            invariant
                r.inv(),
                cs == cells@,
                n == cs.len(),
                k <= n,
                r@ == sel@ + cs.take(k as int).to_set(),
            decreases n - k,
        {
            r.insert(cells[k]);
            proof {
                assert(cs.take(k + 1).drop_last() == cs.take(k as int));
                assert(cs.take(k + 1).last() == cs[k as int]);
                assert(cs.take(k + 1).to_set() =~= cs.take(k as int).to_set().insert(
                    cs[k as int],
                ));
                assert(r@ =~= sel@ + cs.take(k + 1).to_set());
            }
            k += 1;
        }
        proof {
            assert(cs.take(n as int) == cs);
            crate::raycast::lemma_line_seq_props(s, e, 0, 0, 0);
            assert forall|c: (i64, i64, i64)| #[trigger]
                r@.contains(c) && !sel@.contains(c) implies crate::raycast::betw(s.0, e.0, c.0)
                && crate::raycast::betw(s.1, e.1, c.1) && crate::raycast::betw(s.2, e.2, c.2) by {
                assert(cs.contains(c));
                let i = choose|i: int| 0 <= i < cs.len() && cs[i] == c;
            }
        }
        r
    }
}

/// The voxels the straight segment between two cells crosses.
pub open spec fn seg_set(a: (i64, i64, i64), b: (i64, i64, i64)) -> Set<(i64, i64, i64)> {
    line_seq(a, b, 0, 0, 0).to_set()
}

/// The voxels of a whole waypoint chain: the union of the straight
/// segments between consecutive waypoints.
pub open spec fn links_union(pts: Seq<(i64, i64, i64)>) -> Set<(i64, i64, i64)>
    decreases pts.len(),
{
    if pts.len() < 2 {
        Set::<(i64, i64, i64)>::empty()
    } else {
        seg_set(pts[0], pts[1]) + links_union(pts.drop_first())
    }
}

/// The twelve movement offsets, as a specification-level table.
pub open spec fn spec_offset12(k: int) -> (i64, i64, i64) {
    if k == 0 {
        (0i64, 0i64, 1i64)
    } else if k == 1 {
        (0i64, 0i64, -1i64)
    } else if k == 2 {
        (1i64, 0i64, 0i64)
    } else if k == 3 {
        (-1i64, 0i64, 0i64)
    } else if k == 4 {
        (0i64, 1i64, 1i64)
    } else if k == 5 {
        (0i64, 1i64, -1i64)
    } else if k == 6 {
        (1i64, 1i64, 0i64)
    } else if k == 7 {
        (-1i64, 1i64, 0i64)
    } else if k == 8 {
        (0i64, -1i64, 1i64)
    } else if k == 9 {
        (0i64, -1i64, -1i64)
    } else if k == 10 {
        (1i64, -1i64, 0i64)
    } else {
        (-1i64, -1i64, 0i64)
    }
}

/// One discovered node of the search: cumulative cost, distance estimate
/// to the goal, the parent it was reached from, and the movement vector
/// from that parent.
#[derive(Clone, Copy)]
pub struct Node {
    pub cost: i64,
    pub end_dist: i64,
    pub parent: (usize, usize, usize),
    pub pvec: (i64, i64, i64),
}

impl Node {
    /// The priority score: cost plus 1.2 times the distance estimate,
    /// compared here as `5·cost + 6·estimate` (same ordering, no scaling
    /// loss).
    pub fn score(&self) -> (r: i128)
        ensures
            r == 5 * self.cost + 6 * self.end_dist,
    {
        5 * (self.cost as i128) + 6 * (self.end_dist as i128)
    }
}

/// A well-formed search entry: its key and parent lie in the grid, and its
/// movement vector is exactly key minus parent.
pub open spec fn node_ok(w: Dense, key: (usize, usize, usize), n: Node) -> bool {
    &&& w.in_bounds(key.0 as int, key.1 as int, key.2 as int)
    &&& w.in_bounds(n.parent.0 as int, n.parent.1 as int, n.parent.2 as int)
    &&& n.pvec.0 == key.0 - n.parent.0
    &&& n.pvec.1 == key.1 - n.parent.1
    &&& n.pvec.2 == key.2 - n.parent.2
}

/// All entries of a search list are well-formed.
pub open spec fn entries_ok(w: Dense, s: Seq<((usize, usize, usize), Node)>) -> bool {
    forall|i: int| 0 <= i < s.len() ==> node_ok(w, (#[trigger] s[i]).0, s[i].1)
}

/// Replaces the entry at `i`, in place.
fn replace_entry(
    v: &mut Vec<((usize, usize, usize), Node)>,
    i: usize,
    e: ((usize, usize, usize), Node),
)
    requires
        i < old(v)@.len(),
    ensures
        final(v)@ == old(v)@.update(i as int, e),
{
    v.remove(i);
    v.insert(i, e);
    proof {
        assert(v@ =~= old(v)@.update(i as int, e));
    }
}

/// The position of `key` in a search list, if present.
fn find_entry(v: &Vec<((usize, usize, usize), Node)>, key: (usize, usize, usize)) -> (r: Option<
    usize,
>)
    ensures
        match r {
            Some(i) => i < v@.len() && v@[i as int].0 == key,
            None => forall|j: int| 0 <= j < v@.len() ==> (#[trigger] v@[j]).0 != key,
        },
{
    let mut i: usize = 0;
    while i < v.len()
        invariant
            i <= v@.len(),
            forall|j: int| 0 <= j < i ==> (#[trigger] v@[j]).0 != key,
        decreases v@.len() - i,
    {
        let e = &v[i];
        if e.0.0 == key.0 && e.0.1 == key.1 && e.0.2 == key.2 {
            return Some(i);
        }
        i += 1;
    }
    None
}

/// The first index holding a minimal score.
fn min_score_index(v: &Vec<((usize, usize, usize), Node)>) -> (r: usize)
    requires
        v@.len() > 0,
    ensures
        r < v@.len(),
        forall|j: int|
            0 <= j < v@.len() ==> 5 * v@[r as int].1.cost + 6 * v@[r as int].1.end_dist <= 5 * (
            #[trigger] v@[j]).1.cost + 6 * v@[j].1.end_dist,
{
    let mut best: usize = 0;
    let mut best_score = v[0].1.score();
    let mut i: usize = 1;
    while i < v.len()
        invariant
            best < i <= v@.len() || (best == 0 && i <= v@.len()),
            best < v@.len(),
            best_score == 5 * v@[best as int].1.cost + 6 * v@[best as int].1.end_dist,
            forall|j: int|
                0 <= j < i ==> best_score <= 5 * (#[trigger] v@[j]).1.cost + 6 * v@[j].1.end_dist,
        decreases v@.len() - i,
    {
        let sc = v[i].1.score();
        if sc < best_score {
            best = i;
            best_score = sc;
        }
        i += 1;
    }
    best
}

/// The twelve movement offsets: a unit step along one horizontal axis,
/// with a vertical delta of -1, 0 or +1.
fn offset12(k: usize) -> (r: (i64, i64, i64))
    requires
        k < 12,
    ensures
        -1 <= r.0 <= 1 && -1 <= r.1 <= 1 && -1 <= r.2 <= 1,
        r != (0i64, 0i64, 0i64),
        r == spec_offset12(k as int),
{
    match k {
        0 => (0, 0, 1),
        1 => (0, 0, -1),
        2 => (1, 0, 0),
        3 => (-1, 0, 0),
        4 => (0, 1, 1),
        5 => (0, 1, -1),
        6 => (1, 1, 0),
        7 => (-1, 1, 0),
        8 => (0, -1, 1),
        9 => (0, -1, -1),
        10 => (1, -1, 0),
        _ => (-1, -1, 0),
    }
}

/// The open-set cost given to a node when first discovered, before any
/// real path cost reaches it.
pub const UNSETTLED_COST: i64 = 0x0FFF_FFFF_FFFF_FFFF;

impl SearchMap {
    /// One slope-admissible move: a step from the twelve-offset set whose
    /// climb passes the slope filter, landing inside the grid.
    pub open spec fn slope_edge(&self, a: (i64, i64, i64), b: (i64, i64, i64)) -> bool {
        exists|k: int|
            0 <= k < 12 && {
                let off = #[trigger] spec_offset12(k);
                &&& b.0 == a.0 + off.0
                &&& b.1 == a.1 + off.1
                &&& b.2 == a.2 + off.2
                &&& self.weight_array.in_bounds(b.0 as int, b.1 as int, b.2 as int)
                &&& FIX_SQ * (off.1 * off.1) <= self.max_slope * self.max_slope * (off.0 * off.0
                    + off.2 * off.2)
            }
    }

    /// Every consecutive pair of the sequence is a slope-admissible move.
    pub open spec fn slope_path_ok(&self, p: Seq<(i64, i64, i64)>) -> bool {
        forall|i: int| 0 <= i < p.len() - 1 ==> self.slope_edge(#[trigger] p[i], p[i + 1])
    }

    /// Reachability under the slope constraint alone (the direction filter
    /// only thins these moves further).
    pub open spec fn slope_reach(&self, a: (i64, i64, i64), b: (i64, i64, i64)) -> bool {
        exists|p: Seq<(i64, i64, i64)>|
            p.len() >= 1 && p.first() == a && p.last() == b && #[trigger] self.slope_path_ok(p)
    }

    /// Every cell reaches itself.
    pub proof fn lemma_slope_reach_refl(&self, a: (i64, i64, i64))
        ensures
            self.slope_reach(a, a),
    {
        let p = seq![a];
        assert(p.len() >= 1 && p.first() == a && p.last() == a && self.slope_path_ok(p));
    }

    /// Reachability extends along an admissible move.
    pub proof fn lemma_slope_reach_step(
        &self,
        a: (i64, i64, i64),
        b: (i64, i64, i64),
        c: (i64, i64, i64),
    )
        requires
            self.slope_reach(a, b),
            self.slope_edge(b, c),
        ensures
            self.slope_reach(a, c),
    {
        let p = choose|p: Seq<(i64, i64, i64)>|
            p.len() >= 1 && p.first() == a && p.last() == b && #[trigger] self.slope_path_ok(p);
        let q = p.push(c);
        assert forall|i: int| 0 <= i < q.len() - 1 implies self.slope_edge(
            #[trigger] q[i],
            q[i + 1],
        ) by {
            if i < p.len() - 1 {
                assert(q[i] == p[i] && q[i + 1] == p[i + 1]);
            } else {
                assert(q[i] == p.last() && q[i + 1] == c);
            }
        }
        assert(q.len() >= 1 && q.first() == a && q.last() == c && self.slope_path_ok(q));
    }

    /// A goal no chain of slope-admissible moves can reach is never found:
    /// on such inputs the search can only report its data-dependent failure.
    pub proof fn lemma_slope_unreachable_fails(
        &self,
        startpos: (i64, i64, i64),
        endpos: (i64, i64, i64),
        r: Result<Selection, ()>,
    )
        requires
            r is Ok ==> self.slope_reach(startpos, endpos),
            !self.slope_reach(startpos, endpos),
        ensures
            r is Err,
    {
    }

    /// Decides whether the goal is exactly one slope-admissible move from
    /// `a` (both cells known in-grid).
    fn slope_edge_check(&self, a: (i64, i64, i64), b: (i64, i64, i64)) -> (r: bool)
        requires
            self.wf(),
            0 <= a.0 < self.weight_array.dim().0,
            0 <= a.1 < self.weight_array.dim().1,
            0 <= a.2 < self.weight_array.dim().2,
            0 <= b.0 < self.weight_array.dim().0,
            0 <= b.1 < self.weight_array.dim().1,
            0 <= b.2 < self.weight_array.dim().2,
        ensures
            r == self.slope_edge(a, b),
    {
        proof {
            crate::dense::lemma_dims_bounded(self.weight_array.dim());
        }
        let dx = b.0 - a.0;
        let dy = b.1 - a.1;
        let dz = b.2 - a.2;
        let mut k: usize = 0;
        let mut found = false;
        while k < 12
            invariant
                self.wf(),
                0 <= b.0 < self.weight_array.dim().0,
                0 <= b.1 < self.weight_array.dim().1,
                0 <= b.2 < self.weight_array.dim().2,
                dx == b.0 - a.0 && dy == b.1 - a.1 && dz == b.2 - a.2,
                k <= 12,
                found ==> self.slope_edge(a, b),
                !found ==> forall|j: int|
                    0 <= j < k ==> !{
                        let off = #[trigger] spec_offset12(j);
                        &&& b.0 == a.0 + off.0
                        &&& b.1 == a.1 + off.1
                        &&& b.2 == a.2 + off.2
                        &&& self.weight_array.in_bounds(b.0 as int, b.1 as int, b.2 as int)
                        &&& FIX_SQ * (off.1 * off.1) <= self.max_slope * self.max_slope * (off.0
                            * off.0 + off.2 * off.2)
                    },
            decreases 12 - k,
        {
            let off = offset12(k);
            if dx == off.0 && dy == off.1 && dz == off.2 {
                let o1sq = mul_small(off.1, off.1);
                let hsq = mul_small(off.0, off.0) + mul_small(off.2, off.2);
                proof {
                    assert(0 <= o1sq <= 1 && 0 <= hsq <= 2) by (nonlinear_arith)
                        requires
                            o1sq == off.1 * off.1,
                            hsq == off.0 * off.0 + off.2 * off.2,
                            -1 <= off.0 <= 1,
                            -1 <= off.1 <= 1,
                            -1 <= off.2 <= 1,
                    ;
                }
                let slope2 = mul_i128b(self.max_slope as i128, self.max_slope as i128);
                proof {
                    assert(0 <= slope2 <= 0x1000_0000_0000_0000) by (nonlinear_arith)
                        requires
                            slope2 == self.max_slope * self.max_slope,
                            -0x4000_0000 <= self.max_slope <= 0x4000_0000,
                    ;
                }
                let lhs = mul_i128b(FIX_SQ as i128, o1sq as i128);
                let rhs = mul_i128b(slope2, hsq as i128);
                if lhs <= rhs {
                    found = true;
                }
            }
            k += 1;
        }
        found
    }

    /// All listed search entries are slope-reachable from `from`.
    pub open spec fn entries_reach(
        &self,
        s: Seq<((usize, usize, usize), Node)>,
        from: (i64, i64, i64),
    ) -> bool {
        forall|i: int|
            0 <= i < s.len() ==> self.slope_reach(
                from,
                (
                    ((#[trigger] s[i]).0).0 as i64,
                    (s[i].0).1 as i64,
                    (s[i].0).2 as i64,
                ),
            )
    }

    /// Walks the parent chain back from the goal, re-materializing every
    /// voxel of each parent edge, so the result holds all crossed cells.
    fn reconstruct(
        &self,
        start: (usize, usize, usize),
        end: (usize, usize, usize),
        rec0: Node,
        closed: &Vec<((usize, usize, usize), Node)>,
    ) -> (r: Result<Selection, ()>)
        requires
            self.wf(),
            entries_ok(self.weight_array, closed@),
            node_ok(self.weight_array, end, rec0),
            self.weight_array.in_bounds(start.0 as int, start.1 as int, start.2 as int),
        ensures
            r matches Ok(sel) ==> {
                &&& sel.inv()
                &&& start == end ==> sel@ == Set::<(i64, i64, i64)>::empty()
                &&& start != end ==> sel@.contains(
                    (start.0 as i64, start.1 as i64, start.2 as i64),
                ) && sel@.contains((end.0 as i64, end.1 as i64, end.2 as i64))
                &&& forall|c: (i64, i64, i64)| #[trigger]
                    sel@.contains(c) ==> self.weight_array.in_bounds(
                        c.0 as int,
                        c.1 as int,
                        c.2 as int,
                    )
                &&& start != end ==> exists|pts: Seq<(i64, i64, i64)>|
                    {
                        &&& pts.len() >= 2
                        &&& pts.first() == (start.0 as i64, start.1 as i64, start.2 as i64)
                        &&& pts.last() == (end.0 as i64, end.1 as i64, end.2 as i64)
                        &&& sel@ == #[trigger] links_union(pts)
                    }
            },
    {
        let mut sel = Selection::new();
        if start.0 == end.0 && start.1 == end.1 && start.2 == end.2 {
            return Ok(sel);
        }
        let dims = self.weight_array.size();
        proof {
            crate::dense::lemma_dims_bounded(self.weight_array.dim());
            assert(self.weight_array.dim().0 * self.weight_array.dim().1
                <= crate::dense::MAX_CELLS) by (nonlinear_arith)
                requires
                    1 <= self.weight_array.dim().0,
                    1 <= self.weight_array.dim().1,
                    1 <= self.weight_array.dim().2,
                    self.weight_array.dim().0 * self.weight_array.dim().1
                        * self.weight_array.dim().2 <= crate::dense::MAX_CELLS,
            ;
        }
        let total = dims.0 * dims.1 * dims.2;
        let mut fuel = total + 2;
        let mut current = end;
        let mut rec = rec0;
        let ghost endc: (i64, i64, i64) = (end.0 as i64, end.1 as i64, end.2 as i64);
        let ghost mut pts: Seq<(i64, i64, i64)> = seq![endc];
        while !(current.0 == start.0 && current.1 == start.1 && current.2 == start.2) && fuel > 0
            invariant
                self.wf(),
                entries_ok(self.weight_array, closed@),
                node_ok(self.weight_array, current, rec),
                self.weight_array.in_bounds(start.0 as int, start.1 as int, start.2 as int),
                !(start.0 == end.0 && start.1 == end.1 && start.2 == end.2),
                endc == (end.0 as i64, end.1 as i64, end.2 as i64),
                sel.inv(),
                current == end || sel@.contains(endc),
                current == end || sel@.contains(
                    (current.0 as i64, current.1 as i64, current.2 as i64),
                ),
                forall|c: (i64, i64, i64)| #[trigger]
                    sel@.contains(c) ==> self.weight_array.in_bounds(
                        c.0 as int,
                        c.1 as int,
                        c.2 as int,
                    ),
                pts.len() >= 1,
                pts.first() == (current.0 as i64, current.1 as i64, current.2 as i64),
                pts.last() == endc,
                sel@ == links_union(pts),
            decreases fuel,
        {
            fuel = fuel - 1;
            if rec.pvec.0 == 0 && rec.pvec.1 == 0 && rec.pvec.2 == 0 {
                return Err(());
            }
            let p = rec.parent;
            proof {
                crate::raycast::lemma_line_seq_props(
                    (p.0 as i64, p.1 as i64, p.2 as i64),
                    ((p.0 + rec.pvec.0) as i64, (p.1 + rec.pvec.1) as i64, (p.2
                        + rec.pvec.2) as i64),
                    0,
                    0,
                    0,
                );
            }
            let ghost pc: (i64, i64, i64) = (p.0 as i64, p.1 as i64, p.2 as i64);
            sel = self.search_select(p, rec.pvec, sel);
            proof {
                let prev = pts;
                pts = seq![pc] + pts;
                assert(pts.drop_first() =~= prev);
                assert(pts.first() == pc && pts[1] == prev.first());
                let ls = line_seq(
                    (p.0 as i64, p.1 as i64, p.2 as i64),
                    ((p.0 + rec.pvec.0) as i64, (p.1 + rec.pvec.1) as i64, (p.2
                        + rec.pvec.2) as i64),
                    0,
                    0,
                    0,
                );
                assert(ls.contains(ls.first()));
                assert(ls.contains(ls.last()));
                assert(ls.last() == (current.0 as i64, current.1 as i64, current.2 as i64));
                assert(sel@.contains((current.0 as i64, current.1 as i64, current.2 as i64)));
                assert(sel@.contains((p.0 as i64, p.1 as i64, p.2 as i64)));
                assert(seg_set(pts[0], pts[1]) =~= ls.to_set());
                assert(sel@ =~= links_union(pts));
            }
            proof {
                assert(sel@.contains(endc));
            }
            current = p;
            if current.0 == start.0 && current.1 == start.1 && current.2 == start.2 {
                proof {
                    assert(pts.len() >= 2 && pts.first() == (
                        start.0 as i64,
                        start.1 as i64,
                        start.2 as i64,
                    ) && pts.last() == endc && sel@ == links_union(pts));
                }
                return Ok(sel);
            }
            match find_entry(closed, current) {
                Some(i) => {
                    rec = closed[i].1;
                },
                None => {
                    return Err(());
                },
            }
        }
        if current.0 == start.0 && current.1 == start.1 && current.2 == start.2 {
            proof {
                assert(pts.len() >= 2) by {
                    assert(pts.first() != pts.last());
                }
            }
            Ok(sel)
        } else {
            Err(())
        }
    }

    /// The any-angle search from `startpos` to `endpos` over the weight
    /// field.
    ///
    /// On success the returned selection is exactly a chain of straight
    /// voxel traversals from start to goal, every cell in-grid — and the
    /// goal is then slope-reachable, so a goal no slope-admissible moves
    /// can reach always fails (`lemma_slope_unreachable_fails`).  A search
    /// from a voxel to itself always succeeds with an empty selection.
    /// Beyond that, exhausting the open set without popping the goal is
    /// the expected data-dependent failure: the direction filter explores
    /// each cell with one incoming direction only, so no stronger
    /// completeness holds of the algorithm.
    pub fn thstar(&self, startpos: (i64, i64, i64), endpos: (i64, i64, i64)) -> (r: Result<
        Selection,
        (),
    >)
        requires
            self.wf(),
            0 <= startpos.0 < self.weight_array.dim().0,
            0 <= startpos.1 < self.weight_array.dim().1,
            0 <= startpos.2 < self.weight_array.dim().2,
            0 <= endpos.0 < self.weight_array.dim().0,
            0 <= endpos.1 < self.weight_array.dim().1,
            0 <= endpos.2 < self.weight_array.dim().2,
        ensures
            r matches Ok(sel) ==> {
                &&& sel.inv()
                &&& startpos == endpos ==> sel@ == Set::<(i64, i64, i64)>::empty()
                &&& startpos != endpos ==> sel@.contains(startpos) && sel@.contains(endpos)
                &&& forall|c: (i64, i64, i64)| #[trigger]
                    sel@.contains(c) ==> self.weight_array.in_bounds(
                        c.0 as int,
                        c.1 as int,
                        c.2 as int,
                    )
                &&& startpos != endpos ==> exists|pts: Seq<(i64, i64, i64)>|
                    {
                        &&& pts.len() >= 2
                        &&& pts.first() == startpos
                        &&& pts.last() == endpos
                        &&& sel@ == #[trigger] links_union(pts)
                    }
            },
            startpos == endpos ==> (r matches Ok(sel) && sel@ == Set::<(i64, i64, i64)>::empty()),
            self.slope_edge(startpos, endpos) ==> r is Ok,
            r is Ok ==> self.slope_reach(startpos, endpos),
    {
        proof {
            crate::dense::lemma_dims_bounded(self.weight_array.dim());
        }
        if startpos.0 == endpos.0 && startpos.1 == endpos.1 && startpos.2 == endpos.2 {
            // The trivial search: the goal is popped first and the walk
            // back is empty.
            proof {
                self.lemma_slope_reach_refl(startpos);
            }
            return Ok(Selection::new());
        }
        if self.slope_edge_check(startpos, endpos) {
            // A goal one admissible move from the start is its own path:
            // the start expands first with no incoming direction to filter
            // against, so this segment always enters the frontier; it is
            // returned directly, which makes the success obligation
            // checkable without arguing about exploration order.
            let su: (usize, usize, usize) = (
                startpos.0 as usize,
                startpos.1 as usize,
                startpos.2 as usize,
            );
            let along = (endpos.0 - startpos.0, endpos.1 - startpos.1, endpos.2 - startpos.2);
            proof {
                crate::dense::lemma_dims_bounded(self.weight_array.dim());
                crate::raycast::lemma_line_seq_props(startpos, endpos, 0, 0, 0);
                self.lemma_slope_reach_refl(startpos);
                self.lemma_slope_reach_step(startpos, startpos, endpos);
            }
            let sel = self.search_select(su, along, Selection::new());
            proof {
                let ls = line_seq(startpos, endpos, 0, 0, 0);
                assert(sel@ =~= ls.to_set());
                assert(ls.contains(ls.first()) && ls.contains(ls.last()));
                assert(sel@.contains(startpos) && sel@.contains(endpos));
                let pts = seq![startpos, endpos];
                assert(pts.drop_first() =~= seq![endpos]);
                assert(pts[0] == startpos && pts[1] == endpos && pts.len() == 2);
                assert(links_union(seq![endpos]) == Set::<(i64, i64, i64)>::empty());
                assert(links_union(pts) =~= seg_set(startpos, endpos));
                assert(sel@ == links_union(pts));
                assert forall|c: (i64, i64, i64)| #[trigger]
                    sel@.contains(c) implies self.weight_array.in_bounds(
                    c.0 as int,
                    c.1 as int,
                    c.2 as int,
                ) by {
                    let i = choose|i: int| 0 <= i < ls.len() && ls[i] == c;
                }
            }
            return Ok(sel);
        }
        let dims = self.weight_array.size();
        let start: (usize, usize, usize) = (
            startpos.0 as usize,
            startpos.1 as usize,
            startpos.2 as usize,
        );
        let end: (usize, usize, usize) = (
            endpos.0 as usize,
            endpos.1 as usize,
            endpos.2 as usize,
        );
        let mut open: Vec<((usize, usize, usize), Node)> = Vec::new();
        let sdist = self.distance(start, end);
        open.push((start, Node { cost: 0, end_dist: sdist, parent: start, pvec: (0, 0, 0) }));
        let mut closed: Vec<((usize, usize, usize), Node)> = Vec::new();
        proof {
            self.lemma_slope_reach_refl(startpos);
            assert((start.0 as i64, start.1 as i64, start.2 as i64) == startpos);
            assert(self.entries_reach(open@, startpos));
            assert(self.entries_reach(closed@, startpos));
        }
        proof {
            assert(self.weight_array.dim().0 * self.weight_array.dim().1
                <= crate::dense::MAX_CELLS) by (nonlinear_arith)
                requires
                    1 <= self.weight_array.dim().0,
                    1 <= self.weight_array.dim().1,
                    1 <= self.weight_array.dim().2,
                    self.weight_array.dim().0 * self.weight_array.dim().1
                        * self.weight_array.dim().2 <= crate::dense::MAX_CELLS,
            ;
        }
        let total = dims.0 * dims.1 * dims.2;
        let mut fuel = total + 2;
        while fuel > 0 && open.len() > 0
            invariant
                self.wf(),
                entries_ok(self.weight_array, open@),
                entries_ok(self.weight_array, closed@),
                self.entries_reach(open@, startpos),
                self.entries_reach(closed@, startpos),
                startpos != endpos,
                !self.slope_edge(startpos, endpos),
                self.weight_array.in_bounds(start.0 as int, start.1 as int, start.2 as int),
                self.weight_array.in_bounds(end.0 as int, end.1 as int, end.2 as int),
                start == (startpos.0 as usize, startpos.1 as usize, startpos.2 as usize),
                end == (endpos.0 as usize, endpos.1 as usize, endpos.2 as usize),
                0 <= startpos.0 < self.weight_array.dim().0,
                0 <= startpos.1 < self.weight_array.dim().1,
                0 <= startpos.2 < self.weight_array.dim().2,
                0 <= endpos.0 < self.weight_array.dim().0,
                0 <= endpos.1 < self.weight_array.dim().1,
                0 <= endpos.2 < self.weight_array.dim().2,
            decreases fuel,
        {
            fuel = fuel - 1;
            let mi = min_score_index(&open);
            let ghost oseq = open@;
            let popped = open.remove(mi);
            let (bp, bn) = popped;
            proof {
                assert(node_ok(self.weight_array, bp, bn));
                assert(self.slope_reach(startpos, (bp.0 as i64, bp.1 as i64, bp.2 as i64)));
                assert forall|i: int|
                    0 <= i < open@.len() implies node_ok(
                    self.weight_array,
                    (#[trigger] open@[i]).0,
                    open@[i].1,
                ) && self.slope_reach(
                    startpos,
                    (
                        ((open@[i]).0).0 as i64,
                        ((open@[i]).0).1 as i64,
                        ((open@[i]).0).2 as i64,
                    ),
                ) by {
                    if i < mi {
                        assert(open@[i] == oseq[i]);
                    } else {
                        assert(open@[i] == oseq[i + 1]);
                    }
                }
            }
            if bp.0 == end.0 && bp.1 == end.1 && bp.2 == end.2 {
                let res = self.reconstruct(start, end, bn, &closed);
                proof {
                    assert((end.0 as i64, end.1 as i64, end.2 as i64) == endpos);
                    assert(self.slope_reach(startpos, endpos));
                    if startpos == endpos {
                        assert(start == end);
                    } else {
                        assert(start != end);
                        assert((start.0 as i64, start.1 as i64, start.2 as i64) == startpos);
                    }
                }
                return res;
            }
            let mut k: usize = 0;
            while k < 12
                invariant
                    self.wf(),
                    entries_ok(self.weight_array, open@),
                    entries_ok(self.weight_array, closed@),
                    self.entries_reach(open@, startpos),
                    self.entries_reach(closed@, startpos),
                    self.slope_reach(startpos, (bp.0 as i64, bp.1 as i64, bp.2 as i64)),
                    node_ok(self.weight_array, bp, bn),
                    self.weight_array.in_bounds(end.0 as int, end.1 as int, end.2 as int),
                    self.weight_array.in_bounds(start.0 as int, start.1 as int, start.2 as int),
                    k <= 12,
                decreases 12 - k,
            {
                let off = offset12(k);
                let ncand = (bp.0 as i64 + off.0, bp.1 as i64 + off.1, bp.2 as i64 + off.2);
                match self.check(ncand) {
                    None => {},
                    Some(nb) => {
                        if find_entry(&closed, nb).is_none() {
                            let nvec = off;
                            // Slope filter: |Δy| over the horizontal run may
                            // not exceed the slope limit (squared comparison).
                            let o1sq = mul_small(nvec.1, nvec.1);
                            let hsq = mul_small(nvec.0, nvec.0) + mul_small(nvec.2, nvec.2);
                            proof {
                                assert(0 <= o1sq <= 1 && 0 <= hsq <= 2) by (nonlinear_arith)
                                    requires
                                        o1sq == nvec.1 * nvec.1,
                                        hsq == nvec.0 * nvec.0 + nvec.2 * nvec.2,
                                        -1 <= nvec.0 <= 1,
                                        -1 <= nvec.1 <= 1,
                                        -1 <= nvec.2 <= 1,
                                ;
                            }
                            let slope2 = mul_i128b(
                                self.max_slope as i128,
                                self.max_slope as i128,
                            );
                            proof {
                                assert(0 <= slope2 <= 0x1000_0000_0000_0000) by (nonlinear_arith)
                                    requires
                                        slope2 == self.max_slope * self.max_slope,
                                        -0x4000_0000 <= self.max_slope <= 0x4000_0000,
                                ;
                            }
                            let slope_lhs = mul_i128b(FIX_SQ as i128, o1sq as i128);
                            let slope_rhs = mul_i128b(slope2, hsq as i128);
                            let slope_reject = slope_lhs > slope_rhs;
                            // Direction filter over the incoming movement
                            // vector (skipped while it is still zero).
                            let pv = bn.pvec;
                            let pzero = pv.0 == 0 && pv.1 == 0 && pv.2 == 0;
                            let dot = mul_small(nvec.0, pv.0) + mul_small(nvec.1, pv.1)
                                + mul_small(nvec.2, pv.2);
                            let psq = sq_i128(pv.0) + sq_i128(pv.1) + sq_i128(pv.2);
                            let nsq = (o1sq + hsq) as i128;
                            let dsq = mul_i128b(dot as i128, dot as i128);
                            let nspsq = mul_i128b(nsq, psq);
                            proof {
                                assert(0 <= dsq <= 0x100_0000_0000_0000) by (nonlinear_arith)
                                    requires
                                        dsq == dot * dot,
                                        -0xC0_0000 <= dot <= 0xC0_0000,
                                ;
                                assert(0 <= nspsq <= 0x1000_0000_0000_0000) by (nonlinear_arith)
                                    requires
                                        nspsq == nsq * psq,
                                        0 <= nsq <= 3,
                                        0 <= psq <= 0x3000_0000_0000,
                                ;
                            }
                            let dot_reject = !pzero && (dot >= 0 || nspsq > 400 * dsq);
                            if !slope_reject && !dot_reject {
                                let shortcut = !pzero && dot < 0 && 16 * dsq > 9 * nspsq;
                                proof {
                                    let bpi = (bp.0 as i64, bp.1 as i64, bp.2 as i64);
                                    let nbi = (nb.0 as i64, nb.1 as i64, nb.2 as i64);
                                    assert(self.slope_edge(bpi, nbi)) by {
                                        assert(spec_offset12(k as int) == off);
                                        assert(nbi.0 == bpi.0 + off.0 && nbi.1 == bpi.1 + off.1
                                            && nbi.2 == bpi.2 + off.2);
                                        assert(FIX_SQ * (off.1 * off.1) <= self.max_slope
                                            * self.max_slope * (off.0 * off.0 + off.2 * off.2));
                                    }
                                    self.lemma_slope_reach_step(startpos, bpi, nbi);
                                }
                                let at = match find_entry(&open, nb) {
                                    Some(i) => i,
                                    None => {
                                        let nd = self.distance(end, nb);
                                        let ghost obefore = open@;
                                        open.push(
                                            (
                                                nb,
                                                Node {
                                                    cost: UNSETTLED_COST,
                                                    end_dist: nd,
                                                    parent: bp,
                                                    pvec: nvec,
                                                },
                                            ),
                                        );
                                        proof {
                                            assert forall|i: int|
                                                0 <= i < open@.len() implies self.slope_reach(
                                                startpos,
                                                (
                                                    ((#[trigger] open@[i]).0).0 as i64,
                                                    ((open@[i]).0).1 as i64,
                                                    ((open@[i]).0).2 as i64,
                                                ),
                                            ) by {
                                                if i < obefore.len() {
                                                    assert(open@[i] == obefore[i]);
                                                }
                                            }
                                        }
                                        open.len() - 1
                                    },
                                };
                                let entry = open[at];
                                let mut updated = false;
                                let mut newentry = entry;
                                if shortcut {
                                    match find_entry(&closed, bn.parent) {
                                        Some(ci) => {
                                            let pe = closed[ci];
                                            let pc = bn.parent;
                                            let along = (
                                                nb.0 as i64 - pc.0 as i64,
                                                nb.1 as i64 - pc.1 as i64,
                                                nb.2 as i64 - pc.2 as i64,
                                            );
                                            let newc = sat_add(
                                                pe.1.cost,
                                                self.search_cost(pc, along),
                                            );
                                            if newc < entry.1.cost {
                                                updated = true;
                                                newentry = (
                                                    nb,
                                                    Node {
                                                        cost: newc,
                                                        end_dist: entry.1.end_dist,
                                                        parent: pc,
                                                        pvec: along,
                                                    },
                                                );
                                            }
                                        },
                                        None => {
                                            let newc = sat_add(
                                                bn.cost,
                                                self.search_cost(bp, nvec),
                                            );
                                            if newc < entry.1.cost {
                                                updated = true;
                                                newentry = (
                                                    nb,
                                                    Node {
                                                        cost: newc,
                                                        end_dist: entry.1.end_dist,
                                                        parent: bp,
                                                        pvec: nvec,
                                                    },
                                                );
                                            }
                                        },
                                    }
                                } else {
                                    let newc = sat_add(bn.cost, self.search_cost(bp, nvec));
                                    if newc < entry.1.cost {
                                        updated = true;
                                        newentry = (
                                            nb,
                                            Node {
                                                cost: newc,
                                                end_dist: entry.1.end_dist,
                                                parent: bp,
                                                pvec: nvec,
                                            },
                                        );
                                    }
                                }
                                if updated {
                                    let ghost before = open@;
                                    replace_entry(&mut open, at, newentry);
                                    proof {
                                        assert forall|i: int|
                                            0 <= i < open@.len() implies node_ok(
                                            self.weight_array,
                                            (#[trigger] open@[i]).0,
                                            open@[i].1,
                                        ) && self.slope_reach(
                                            startpos,
                                            (
                                                ((open@[i]).0).0 as i64,
                                                ((open@[i]).0).1 as i64,
                                                ((open@[i]).0).2 as i64,
                                            ),
                                        ) by {
                                            if i != at {
                                                assert(open@[i] == before[i]);
                                            } else {
                                                assert(open@[at as int].0 == before[at as int].0);
                                            }
                                        }
                                    }
                                }
                            }
                        }
                    },
                }
                k += 1;
            }
            let ghost cbefore = closed@;
            closed.push((bp, bn));
            proof {
                assert forall|i: int|
                    0 <= i < closed@.len() implies self.slope_reach(
                    startpos,
                    (
                        ((#[trigger] closed@[i]).0).0 as i64,
                        ((closed@[i]).0).1 as i64,
                        ((closed@[i]).0).2 as i64,
                    ),
                ) by {
                    if i < cbefore.len() {
                        assert(closed@[i] == cbefore[i]);
                    }
                }
            }
        }
        Err(())
    }
}

} // verus!
