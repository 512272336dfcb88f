use vstd::prelude::*;

use crate::dense::MAX_CELLS;

verus! {

/// Policy for resolving a neighbor lookup that falls outside the grid.
#[derive(Clone, Copy, Debug, PartialEq, Eq, Structural)]
pub enum EdgeMode {
    /// Skip the offset entirely.
    Ignore,
    /// Wrap the index modulo the axis extent.
    Loop,
    /// Clamp the index to the nearest valid one.
    Clamp,
}

/// Resolution of one axis of a neighbor position against an extent of `n`:
/// in-range positions stand; out-of-range positions are skipped, wrapped, or
/// clamped per the edge mode.  (`%` here is Euclidean, so wrapping lands in
/// `[0, n)` for any input.)
pub open spec fn resolve_axis_spec(p: int, n: int, mode: EdgeMode) -> Option<int> {
    if 0 <= p < n {
        Some(p)
    } else {
        match mode {
            EdgeMode::Ignore => None,
            EdgeMode::Loop => Some(p % n),
            EdgeMode::Clamp => Some(if p < 0 { 0int } else { n - 1 }),
        }
    }
}

/// Resolution of a full neighbor position: `Some` only when every axis
/// resolves.
pub open spec fn resolve_spec(p: (int, int, int), size: (int, int, int), mode: EdgeMode) -> Option<
    (int, int, int),
> {
    match (
        resolve_axis_spec(p.0, size.0, mode),
        resolve_axis_spec(p.1, size.1, mode),
        resolve_axis_spec(p.2, size.2, mode),
    ) {
        (Some(x), Some(y), Some(z)) => Some((x, y, z)),
        _ => None,
    }
}

fn resolve_axis(p: i128, n: usize, mode: EdgeMode) -> (r: Option<usize>)
    requires
        1 <= n <= MAX_CELLS,
    ensures
        match r {
            Some(u) => resolve_axis_spec(p as int, n as int, mode) == Some(u as int),
            None => resolve_axis_spec(p as int, n as int, mode).is_none(),
        },
{
    if 0 <= p && p < n as i128 {
        Some(p as usize)
    } else {
        match mode {
            EdgeMode::Ignore => None,
            EdgeMode::Loop => {
                match p.checked_rem_euclid(n as i128) {
                    Some(m) => Some(m as usize),
                    None => None,
                }
            },
            EdgeMode::Clamp => {
                if p < 0 {
                    Some(0)
                } else {
                    Some(n - 1)
                }
            },
        }
    }
}

/// Resolves the neighbor `base + off` of an in-bounds voxel against the
/// grid extent, per the edge mode.
pub fn resolve(
    base: (usize, usize, usize),
    off: (i64, i64, i64),
    size: (usize, usize, usize),
    mode: EdgeMode,
) -> (r: Option<(usize, usize, usize)>)
    requires
        1 <= size.0 <= MAX_CELLS,
        1 <= size.1 <= MAX_CELLS,
        1 <= size.2 <= MAX_CELLS,
    ensures
        match r {
            Some(u) => resolve_spec(
                (base.0 + off.0, base.1 + off.1, base.2 + off.2),
                (size.0 as int, size.1 as int, size.2 as int),
                mode,
            ) == Some((u.0 as int, u.1 as int, u.2 as int)),
            None => resolve_spec(
                (base.0 + off.0, base.1 + off.1, base.2 + off.2),
                (size.0 as int, size.1 as int, size.2 as int),
                mode,
            ).is_none(),
        },
{
    let px = base.0 as i128 + off.0 as i128;
    let py = base.1 as i128 + off.1 as i128;
    let pz = base.2 as i128 + off.2 as i128;
    let rx = resolve_axis(px, size.0, mode);
    let ry = resolve_axis(py, size.1, mode);
    let rz = resolve_axis(pz, size.2, mode);
    match (rx, ry, rz) {
        (Some(x), Some(y), Some(z)) => Some((x, y, z)),
        _ => None,
    }
}

/// With `Loop` wrapping, stepping one past the top of an axis lands on
/// index zero — the wrap that makes a looped convolution read its far edge.
pub proof fn lemma_loop_wraps_forward(n: int)
    requires
        n >= 1,
    ensures
        resolve_axis_spec((n - 1) + 1, n, EdgeMode::Loop) == Some(0int),
{
    assert(n % n == 0) by (nonlinear_arith)
        requires
            n >= 1,
    ;
}

/// The symmetric wrap: stepping one below the bottom of an axis lands on
/// the top index.
pub proof fn lemma_loop_wraps_backward(n: int)
    requires
        n >= 1,
    ensures
        resolve_axis_spec(0 - 1, n, EdgeMode::Loop) == Some(n - 1),
{
    assert((-1) % n == n - 1) by (nonlinear_arith)
        requires
            n >= 1,
    ;
}

} // verus!
