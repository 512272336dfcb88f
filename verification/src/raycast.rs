use vstd::prelude::*;

use vstd::math::abs;

verus! {

/// The sign of a step along one axis.
pub open spec fn sgn(d: int) -> int {
    if d > 0 {
        1
    } else if d < 0 {
        -1
    } else {
        0
    }
}

/// The cell reached from `a` toward `b` after `kx`, `ky`, `kz` unit steps
/// along the three axes.
pub open spec fn pos_at(a: (i64, i64, i64), b: (i64, i64, i64), kx: int, ky: int, kz: int) -> (
    i64,
    i64,
    i64,
) {
    (
        (a.0 + sgn(b.0 - a.0) * kx) as i64,
        (a.1 + sgn(b.1 - a.1) * ky) as i64,
        (a.2 + sgn(b.2 - a.2) * kz) as i64,
    )
}

/// The next step is along x when x still has steps left and its next
/// crossing comes no later than y's and z's.  The crossing fractions
/// `(2k+1) / (2d)` are compared cross-multiplied; ties prefer x, then y.
pub open spec fn step_is_x(dx: int, dy: int, dz: int, kx: int, ky: int, kz: int) -> bool {
    kx < dx && (ky >= dy || (2 * kx + 1) * dy <= (2 * ky + 1) * dx) && (kz >= dz || (2 * kx + 1)
        * dz <= (2 * kz + 1) * dx)
}

pub open spec fn step_is_y(dx: int, dy: int, dz: int, kx: int, ky: int, kz: int) -> bool {
    ky < dy && (kz >= dz || (2 * ky + 1) * dz <= (2 * kz + 1) * dy)
}

/// The voxels crossed by the straight segment from the center of cell `a`
/// to the center of cell `b`, starting from step counts `(kx, ky, kz)`:
/// one unit step at a time, always along the axis whose next grid-plane
/// crossing comes first.  Corner ties are cut axis-by-axis (x, then y,
/// then z), so the walk is 6-connected and visits
/// `|Δx| + |Δy| + |Δz| + 1` cells.
pub open spec fn line_seq(a: (i64, i64, i64), b: (i64, i64, i64), kx: int, ky: int, kz: int) -> Seq<
    (i64, i64, i64),
>
    decreases abs(b.0 - a.0) + abs(b.1 - a.1) + abs(b.2 - a.2) - kx - ky - kz,
    when 0 <= kx <= abs(b.0 - a.0) && 0 <= ky <= abs(b.1 - a.1) && 0 <= kz <= abs(b.2 - a.2)
{
    let dx = abs(b.0 - a.0) as int;
    let dy = abs(b.1 - a.1) as int;
    let dz = abs(b.2 - a.2) as int;
    let cur = pos_at(a, b, kx, ky, kz);
    if kx >= dx && ky >= dy && kz >= dz {
        seq![cur]
    } else if step_is_x(dx, dy, dz, kx, ky, kz) {
        seq![cur] + line_seq(a, b, kx + 1, ky, kz)
    } else if step_is_y(dx, dy, dz, kx, ky, kz) {
        seq![cur] + line_seq(a, b, kx, ky + 1, kz)
    } else {
        seq![cur] + line_seq(a, b, kx, ky, kz + 1)
    }
}

/// True when `v` lies between `lo` and `hi` in either order.
pub open spec fn betw(lo: i64, hi: i64, v: i64) -> bool {
    (lo <= v <= hi) || (hi <= v <= lo)
}

/// Length, endpoints and extent of the traversal: every visited cell stays
/// inside the axis-aligned box spanned by the two endpoints.
pub proof fn lemma_line_seq_props(a: (i64, i64, i64), b: (i64, i64, i64), kx: int, ky: int, kz: int)
    requires
        0 <= kx <= abs(b.0 - a.0),
        0 <= ky <= abs(b.1 - a.1),
        0 <= kz <= abs(b.2 - a.2),
    ensures
        line_seq(a, b, kx, ky, kz).len() == abs(b.0 - a.0) + abs(b.1 - a.1) + abs(b.2 - a.2) - kx
            - ky - kz + 1,
        line_seq(a, b, kx, ky, kz).first() == pos_at(a, b, kx, ky, kz),
        line_seq(a, b, kx, ky, kz).last() == b,
        forall|i: int|
            0 <= i < line_seq(a, b, kx, ky, kz).len() ==> {
                let c = #[trigger] line_seq(a, b, kx, ky, kz)[i];
                betw(a.0, b.0, c.0) && betw(a.1, b.1, c.1) && betw(a.2, b.2, c.2)
            },
    decreases abs(b.0 - a.0) + abs(b.1 - a.1) + abs(b.2 - a.2) - kx - ky - kz,
{
    let dx = abs(b.0 - a.0) as int;
    let dy = abs(b.1 - a.1) as int;
    let dz = abs(b.2 - a.2) as int;
    let cur = pos_at(a, b, kx, ky, kz);
    assert(betw(a.0, b.0, cur.0)) by (nonlinear_arith)
        requires
            cur.0 == a.0 + sgn(b.0 - a.0) * kx,
            0 <= kx <= abs(b.0 - a.0),
            dx == abs(b.0 - a.0),
    ;
    assert(betw(a.1, b.1, cur.1)) by (nonlinear_arith)
        requires
            cur.1 == a.1 + sgn(b.1 - a.1) * ky,
            0 <= ky <= abs(b.1 - a.1),
    ;
    assert(betw(a.2, b.2, cur.2)) by (nonlinear_arith)
        requires
            cur.2 == a.2 + sgn(b.2 - a.2) * kz,
            0 <= kz <= abs(b.2 - a.2),
    ;
    if kx >= dx && ky >= dy && kz >= dz {
        assert(a.0 + sgn(b.0 - a.0) * dx == b.0) by (nonlinear_arith)
            requires
                dx == abs(b.0 - a.0),
        ;
        assert(a.1 + sgn(b.1 - a.1) * dy == b.1) by (nonlinear_arith)
            requires
                dy == abs(b.1 - a.1),
        ;
        assert(a.2 + sgn(b.2 - a.2) * dz == b.2) by (nonlinear_arith)
            requires
                dz == abs(b.2 - a.2),
        ;
    } else if step_is_x(dx, dy, dz, kx, ky, kz) {
        lemma_line_seq_props(a, b, kx + 1, ky, kz);
    } else if step_is_y(dx, dy, dz, kx, ky, kz) {
        lemma_line_seq_props(a, b, kx, ky + 1, kz);
    } else {
        lemma_line_seq_props(a, b, kx, ky, kz + 1);
    }
}

/// Cross-multiplied comparison of the crossing fractions
/// `(2·k1+1)/d1 <= (2·k2+1)/d2`, overflow-free for bounded inputs.
fn cross_le(k1: i64, d1: i64, k2: i64, d2: i64) -> (r: bool)
    requires
        0 <= k1 <= 0x100_0000,
        0 <= d1 <= 0x100_0000,
        0 <= k2 <= 0x100_0000,
        0 <= d2 <= 0x100_0000,
    ensures
        r == ((2 * k1 + 1) * d2 <= (2 * k2 + 1) * d1),
{
    proof {
        assert(0 <= (2 * k1 + 1) * (d2 as int) <= 0x9_0000_0000_0000 && 0 <= (2 * k2 + 1) * (
        d1 as int) <= 0x9_0000_0000_0000) by (nonlinear_arith)
            requires
                0 <= k1 <= 0x100_0000,
                0 <= d1 <= 0x100_0000,
                0 <= k2 <= 0x100_0000,
                0 <= d2 <= 0x100_0000,
        ;
    }
    (2 * (k1 as i128) + 1) * (d2 as i128) <= (2 * (k2 as i128) + 1) * (d1 as i128)
}

/// Absolute value of a bounded i64, exactly.
fn abs_i64(v: i64) -> (r: i64)
    requires
        v > i64::MIN,
    ensures
        r == abs(v as int),
{
    if v < 0 {
        -v
    } else {
        v
    }
}

/// The voxels crossed by the straight segment from cell `a` to cell `b`,
/// in traversal order: `a` first, `b` last.
pub fn line_cells(a: (i64, i64, i64), b: (i64, i64, i64)) -> (r: Vec<(i64, i64, i64)>)
    requires
        -0x40_0000 <= a.0 <= 0x40_0000,
        -0x40_0000 <= a.1 <= 0x40_0000,
        -0x40_0000 <= a.2 <= 0x40_0000,
        -0x40_0000 <= b.0 <= 0x40_0000,
        -0x40_0000 <= b.1 <= 0x40_0000,
        -0x40_0000 <= b.2 <= 0x40_0000,
    ensures
        r@ == line_seq(a, b, 0, 0, 0),
        r@.len() == abs(b.0 - a.0) + abs(b.1 - a.1) + abs(b.2 - a.2) + 1,
        r@.first() == a,
        r@.last() == b,
{
    let dx = abs_i64(b.0 - a.0);
    let dy = abs_i64(b.1 - a.1);
    let dz = abs_i64(b.2 - a.2);
    let sx: i64 = if b.0 > a.0 { 1 } else if b.0 < a.0 { -1 } else { 0 };
    let sy: i64 = if b.1 > a.1 { 1 } else if b.1 < a.1 { -1 } else { 0 };
    let sz: i64 = if b.2 > a.2 { 1 } else if b.2 < a.2 { -1 } else { 0 };
    let mut r: Vec<(i64, i64, i64)> = Vec::new();
    let mut cur = a;
    let mut kx: i64 = 0;
    let mut ky: i64 = 0;
    let mut kz: i64 = 0;
    while kx < dx || ky < dy || kz < dz
        invariant
            dx == abs(b.0 - a.0),
            dy == abs(b.1 - a.1),
            dz == abs(b.2 - a.2),
            sx == sgn(b.0 - a.0),
            sy == sgn(b.1 - a.1),
            sz == sgn(b.2 - a.2),
            -0x40_0000 <= a.0 <= 0x40_0000,
            -0x40_0000 <= a.1 <= 0x40_0000,
            -0x40_0000 <= a.2 <= 0x40_0000,
            -0x40_0000 <= b.0 <= 0x40_0000,
            -0x40_0000 <= b.1 <= 0x40_0000,
            -0x40_0000 <= b.2 <= 0x40_0000,
            0 <= dx <= 0x80_0000,
            0 <= dy <= 0x80_0000,
            0 <= dz <= 0x80_0000,
            0 <= kx <= dx,
            0 <= ky <= dy,
            0 <= kz <= dz,
            cur == pos_at(a, b, kx as int, ky as int, kz as int),
            r@ + line_seq(a, b, kx as int, ky as int, kz as int) == line_seq(a, b, 0, 0, 0),
        decreases dx + dy + dz - kx - ky - kz,
    {
        let take_x = kx < dx && (ky >= dy || cross_le(kx, dx, ky, dy)) && (kz >= dz || cross_le(
            kx,
            dx,
            kz,
            dz,
        ));
        let take_y = !take_x && ky < dy && (kz >= dz || cross_le(ky, dy, kz, dz));
        proof {
            assert(line_seq(a, b, kx as int, ky as int, kz as int) == seq![cur] + (
            if step_is_x(dx as int, dy as int, dz as int, kx as int, ky as int, kz as int) {
                line_seq(a, b, kx + 1, ky as int, kz as int)
            } else if step_is_y(dx as int, dy as int, dz as int, kx as int, ky as int, kz as int) {
                line_seq(a, b, kx as int, ky + 1, kz as int)
            } else {
                line_seq(a, b, kx as int, ky as int, kz + 1)
            }));
        }
        r.push(cur);
        if take_x {
            kx = kx + 1;
            cur = (cur.0 + sx, cur.1, cur.2);
            proof {
                assert(cur.0 == a.0 + sgn(b.0 - a.0) * (kx as int)) by (nonlinear_arith)
                    requires
                        cur.0 == a.0 + sgn(b.0 - a.0) * (kx - 1) + sgn(b.0 - a.0),
                ;
            }
        } else if take_y {
            ky = ky + 1;
            cur = (cur.0, cur.1 + sy, cur.2);
            proof {
                assert(cur.1 == a.1 + sgn(b.1 - a.1) * (ky as int)) by (nonlinear_arith)
                    requires
                        cur.1 == a.1 + sgn(b.1 - a.1) * (ky - 1) + sgn(b.1 - a.1),
                ;
            }
        } else {
            proof {
                if !(kz < dz) {
                    assert(false);
                }
            }
            kz = kz + 1;
            cur = (cur.0, cur.1, cur.2 + sz);
            proof {
                assert(cur.2 == a.2 + sgn(b.2 - a.2) * (kz as int)) by (nonlinear_arith)
                    requires
                        cur.2 == a.2 + sgn(b.2 - a.2) * (kz - 1) + sgn(b.2 - a.2),
                ;
            }
        }
        proof {
            assert(r@ + line_seq(a, b, kx as int, ky as int, kz as int) =~= line_seq(a, b, 0, 0, 0));
        }
    }
    r.push(cur);
    proof {
        assert(line_seq(a, b, kx as int, ky as int, kz as int) == seq![cur]);
        assert(r@ =~= line_seq(a, b, 0, 0, 0));
        lemma_line_seq_props(a, b, 0, 0, 0);
    }
    r
}

} // verus!
