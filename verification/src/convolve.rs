use vstd::prelude::*;

use crate::collab::{entries_view, EvalContext, Evaluator};
use crate::datagrid::{fields_overwrote, grid_get, grid_has, DataGrid};
use crate::dense::Dense;
use crate::edge::{resolve, resolve_spec, EdgeMode};
use crate::errors::GenError;
use crate::fields::GridElement;
use crate::scalar::{
    fixed_trunc, value_as_bool, value_as_bool_spec, value_as_fixed, value_as_fixed_spec,
    value_as_int, value_as_int_spec, Value,
};
use crate::selection::Selection;

verus! {

/// A convolution kernel: relative neighbor offsets, a combining expression
/// (empty means the default — running sum, or running OR over selections),
/// and the base accumulator as a fixed-point raw value.
pub struct Neighborhood {
    pub offsets: Vec<(i64, i64, i64)>,
    pub summing_expr: String,
    pub accumulator_base: i64,
}

/// The evaluator context for one combining step: the running accumulator
/// and the fetched neighbor value.  (The context position handed along
/// with these is the voxel being computed.)
pub open spec fn combine_entries(acc: Value, v: Value) -> Seq<(Seq<char>, Value)> {
    seq![("acc"@, acc), ("this"@, v)]
}

/// One combining step over a numeric scalar.  An empty expression is the
/// default running (wrapping) sum; otherwise the evaluator combines, and
/// its answer is read in the scalar's own category (`fl` = fixed-point).
pub open spec fn combine_num_spec<E: Evaluator>(
    ev: &E,
    expr: Seq<char>,
    pos: (i64, i64, i64),
    acc: i64,
    v: i64,
    fl: bool,
) -> Option<i64> {
    if expr.len() == 0 {
        Some(acc.wrapping_add(v))
    } else {
        let av = if fl {
            Value::Float(acc)
        } else {
            Value::Int(acc)
        };
        let vv = if fl {
            Value::Float(v)
        } else {
            Value::Int(v)
        };
        match ev.eval_spec(expr, pos, combine_entries(av, vv)) {
            Some(r) => Some(if fl { value_as_fixed_spec(r) } else { value_as_int_spec(r) }),
            None => None,
        }
    }
}

/// One combining step over a boolean scalar: default running OR, otherwise
/// the evaluator's answer read as a boolean.
pub open spec fn combine_bool_spec<E: Evaluator>(
    ev: &E,
    expr: Seq<char>,
    pos: (i64, i64, i64),
    acc: bool,
    v: bool,
) -> Option<bool> {
    if expr.len() == 0 {
        Some(acc || v)
    } else {
        match ev.eval_spec(expr, pos, combine_entries(Value::Bool(acc), Value::Bool(v))) {
            Some(r) => Some(value_as_bool_spec(r)),
            None => None,
        }
    }
}

pub(crate) fn combine_num<E: Evaluator>(
    ev: &E,
    expr: &String,
    pos: (i64, i64, i64),
    acc: i64,
    v: i64,
    fl: bool,
) -> (r: Option<i64>)
    ensures
        r == combine_num_spec(ev, expr@, pos, acc, v, fl),
{
    if expr.as_str().is_empty() {
        Some(acc.wrapping_add(v))
    } else {
        let av = if fl {
            Value::Float(acc)
        } else {
            Value::Int(acc)
        };
        let vv = if fl {
            Value::Float(v)
        } else {
            Value::Int(v)
        };
        let mut entries: Vec<(String, Value)> = Vec::new();
        entries.push(("acc".to_owned(), av));
        entries.push(("this".to_owned(), vv));
        let ctx = EvalContext { position: pos, entries };
        proof {
            assert(entries_view(ctx.entries@) =~= combine_entries(av, vv));
        }
        match ev.eval(expr, &ctx) {
            Some(r) => Some(
                if fl {
                    value_as_fixed(r)
                } else {
                    value_as_int(r)
                },
            ),
            None => None,
        }
    }
}

fn combine_bool<E: Evaluator>(
    ev: &E,
    expr: &String,
    pos: (i64, i64, i64),
    acc: bool,
    v: bool,
) -> (r: Option<bool>)
    ensures
        r == combine_bool_spec(ev, expr@, pos, acc, v),
{
    if expr.as_str().is_empty() {
        Some(acc || v)
    } else {
        let mut entries: Vec<(String, Value)> = Vec::new();
        entries.push(("acc".to_owned(), Value::Bool(acc)));
        entries.push(("this".to_owned(), Value::Bool(v)));
        let ctx = EvalContext { position: pos, entries };
        proof {
            assert(entries_view(ctx.entries@) =~= combine_entries(
                Value::Bool(acc),
                Value::Bool(v),
            ));
        }
        match ev.eval(expr, &ctx) {
            Some(r) => Some(value_as_bool(r)),
            None => None,
        }
    }
}

/// The fold over kernel offsets `k..` for one voxel of a dense source:
/// each offset is resolved against the grid per the edge mode, skipped when
/// it resolves nowhere, and combined otherwise; `None` is a combining
/// failure.
pub open spec fn conv_fold_num<E: Evaluator>(
    ev: &E,
    expr: Seq<char>,
    offs: Seq<(i64, i64, i64)>,
    k: int,
    src: Dense,
    mode: EdgeMode,
    pos: (i64, i64, i64),
    acc: i64,
    fl: bool,
) -> Option<i64>
    decreases offs.len() - k,
{
    if !(0 <= k < offs.len()) {
        Some(acc)
    } else {
        let np = (pos.0 + offs[k].0, pos.1 + offs[k].1, pos.2 + offs[k].2);
        match resolve_spec(np, src.dim(), mode) {
            None => conv_fold_num(ev, expr, offs, k + 1, src, mode, pos, acc, fl),
            Some(q) => match combine_num_spec(ev, expr, pos, acc, src.at(q.0, q.1, q.2), fl) {
                None => None,
                Some(acc2) => conv_fold_num(ev, expr, offs, k + 1, src, mode, pos, acc2, fl),
            },
        }
    }
}

/// The full fold for one voxel of a dense source.
pub open spec fn conv_cell_num<E: Evaluator>(
    ev: &E,
    expr: Seq<char>,
    offs: Seq<(i64, i64, i64)>,
    base: i64,
    src: Dense,
    mode: EdgeMode,
    x: int,
    y: int,
    z: int,
    fl: bool,
) -> Option<i64> {
    conv_fold_num(ev, expr, offs, 0, src, mode, (x as i64, y as i64, z as i64), base, fl)
}

/// The fold over kernel offsets `k..` for one voxel of a selection source.
pub open spec fn conv_fold_bool<E: Evaluator>(
    ev: &E,
    expr: Seq<char>,
    offs: Seq<(i64, i64, i64)>,
    k: int,
    src: Set<(i64, i64, i64)>,
    size: (int, int, int),
    mode: EdgeMode,
    pos: (i64, i64, i64),
    acc: bool,
) -> Option<bool>
    decreases offs.len() - k,
{
    if !(0 <= k < offs.len()) {
        Some(acc)
    } else {
        let np = (pos.0 + offs[k].0, pos.1 + offs[k].1, pos.2 + offs[k].2);
        match resolve_spec(np, size, mode) {
            None => conv_fold_bool(ev, expr, offs, k + 1, src, size, mode, pos, acc),
            Some(q) => {
                let member = src.contains((q.0 as i64, q.1 as i64, q.2 as i64));
                match combine_bool_spec(ev, expr, pos, acc, member) {
                    None => None,
                    Some(acc2) => conv_fold_bool(ev, expr, offs, k + 1, src, size, mode, pos, acc2),
                }
            },
        }
    }
}

/// The full fold for one voxel of a selection source.
pub open spec fn conv_cell_bool<E: Evaluator>(
    ev: &E,
    expr: Seq<char>,
    offs: Seq<(i64, i64, i64)>,
    base: bool,
    src: Set<(i64, i64, i64)>,
    size: (int, int, int),
    mode: EdgeMode,
    x: int,
    y: int,
    z: int,
) -> Option<bool> {
    conv_fold_bool(ev, expr, offs, 0, src, size, mode, (x as i64, y as i64, z as i64), base)
}

/// Convolution of a dense source: one fold per voxel, written to a fresh
/// dense field of the same shape.  Fails only when a combining step fails.
fn convolve_num<E: Evaluator>(
    ev: &E,
    src: &Dense,
    offsets: &Vec<(i64, i64, i64)>,
    expr: &String,
    base: i64,
    mode: EdgeMode,
    fl: bool,
) -> (r: Result<Dense, GenError>)
    requires
        src.wf(),
        1 <= src.dim().0,
        1 <= src.dim().1,
        1 <= src.dim().2,
        src.dim().0 * src.dim().1 * src.dim().2 <= crate::dense::MAX_CELLS,
    ensures
        match r {
            Ok(d) => {
                &&& d.wf()
                &&& d.dim() == src.dim()
                &&& forall|x: int, y: int, z: int|
                    d.in_bounds(x, y, z) ==> conv_cell_num(
                        ev,
                        expr@,
                        offsets@,
                        base,
                        *src,
                        mode,
                        x,
                        y,
                        z,
                        fl,
                    ) == Some(#[trigger] d.at(x, y, z))
            },
            Err(e) => {
                &&& e == GenError::Configuration
                &&& exists|x: int, y: int, z: int|
                    src.in_bounds(x, y, z) && (#[trigger] conv_cell_num(
                        ev,
                        expr@,
                        offsets@,
                        base,
                        *src,
                        mode,
                        x,
                        y,
                        z,
                        fl,
                    )) is None
            },
        },
{
    let sz = src.size();
    let (nx, ny, nz) = (sz.0, sz.1, sz.2);
    proof {
        crate::dense::lemma_dims_bounded(src.dim());
    }
    let mut out = Dense::new(nx, ny, nz);
    let mut x: usize = 0;
    while x < nx
        invariant
            src.wf(),
            out.wf(),
            out.dim() == src.dim(),
            (nx as int, ny as int, nz as int) == src.dim(),
            1 <= nx && 1 <= ny && 1 <= nz,
            nx <= crate::dense::MAX_CELLS,
            ny <= crate::dense::MAX_CELLS,
            nz <= crate::dense::MAX_CELLS,
            x <= nx,
            forall|a: int, b: int, c: int|
                0 <= a < x && 0 <= b < ny && 0 <= c < nz ==> conv_cell_num(
                    ev,
                    expr@,
                    offsets@,
                    base,
                    *src,
                    mode,
                    a,
                    b,
                    c,
                    fl,
                ) == Some(#[trigger] out.at(a, b, c)),
        decreases nx - x,
    {
        let mut y: usize = 0;
        while y < ny
            invariant
                src.wf(),
                out.wf(),
                out.dim() == src.dim(),
                (nx as int, ny as int, nz as int) == src.dim(),
                1 <= nx && 1 <= ny && 1 <= nz,
                nx <= crate::dense::MAX_CELLS,
                ny <= crate::dense::MAX_CELLS,
                nz <= crate::dense::MAX_CELLS,
                x < nx,
                y <= ny,
                forall|a: int, b: int, c: int|
                    0 <= a < x && 0 <= b < ny && 0 <= c < nz ==> conv_cell_num(
                        ev,
                        expr@,
                        offsets@,
                        base,
                        *src,
                        mode,
                        a,
                        b,
                        c,
                        fl,
                    ) == Some(#[trigger] out.at(a, b, c)),
                forall|b: int, c: int|
                    0 <= b < y && 0 <= c < nz ==> conv_cell_num(
                        ev,
                        expr@,
                        offsets@,
                        base,
                        *src,
                        mode,
                        x as int,
                        b,
                        c,
                        fl,
                    ) == Some(#[trigger] out.at(x as int, b, c)),
            decreases ny - y,
        {
            let mut z: usize = 0;
            while z < nz
                invariant
                    src.wf(),
                    out.wf(),
                    out.dim() == src.dim(),
                    (nx as int, ny as int, nz as int) == src.dim(),
                    1 <= nx && 1 <= ny && 1 <= nz,
                    nx <= crate::dense::MAX_CELLS,
                    ny <= crate::dense::MAX_CELLS,
                    nz <= crate::dense::MAX_CELLS,
                    x < nx,
                    y < ny,
                    z <= nz,
                    forall|a: int, b: int, c: int|
                        0 <= a < x && 0 <= b < ny && 0 <= c < nz ==> conv_cell_num(
                            ev,
                            expr@,
                            offsets@,
                            base,
                            *src,
                            mode,
                            a,
                            b,
                            c,
                            fl,
                        ) == Some(#[trigger] out.at(a, b, c)),
                    forall|b: int, c: int|
                        0 <= b < y && 0 <= c < nz ==> conv_cell_num(
                            ev,
                            expr@,
                            offsets@,
                            base,
                            *src,
                            mode,
                            x as int,
                            b,
                            c,
                            fl,
                        ) == Some(#[trigger] out.at(x as int, b, c)),
                    forall|c: int|
                        0 <= c < z ==> conv_cell_num(
                            ev,
                            expr@,
                            offsets@,
                            base,
                            *src,
                            mode,
                            x as int,
                            y as int,
                            c,
                            fl,
                        ) == Some(#[trigger] out.at(x as int, y as int, c)),
                decreases nz - z,
            {
                let pos: (i64, i64, i64) = (x as i64, y as i64, z as i64);
                let mut acc: i64 = base;
                let mut k: usize = 0;
                let nk = offsets.len();
                while k < nk
                    invariant
                        src.wf(),
                        (nx as int, ny as int, nz as int) == src.dim(),
                        nx <= crate::dense::MAX_CELLS,
                        ny <= crate::dense::MAX_CELLS,
                        nz <= crate::dense::MAX_CELLS,
                        x < nx,
                        y < ny,
                        z < nz,
                        pos == (x as i64, y as i64, z as i64),
                        k <= nk,
                        nk == offsets@.len(),
                        conv_fold_num(ev, expr@, offsets@, 0, *src, mode, pos, base, fl)
                            == conv_fold_num(
                            ev,
                            expr@,
                            offsets@,
                            k as int,
                            *src,
                            mode,
                            pos,
                            acc,
                            fl,
                        ),
                    decreases nk - k,
                {
                    let off = offsets[k];
                    match resolve((x, y, z), off, (nx, ny, nz), mode) {
                        None => {},
                        Some(q) => {
                            let v = src.get(q.0, q.1, q.2);
                            match combine_num(ev, expr, pos, acc, v, fl) {
                                Some(a2) => {
                                    acc = a2;
                                },
                                None => {
                                    proof {
                                        assert(conv_cell_num(
                                            ev,
                                            expr@,
                                            offsets@,
                                            base,
                                            *src,
                                            mode,
                                            x as int,
                                            y as int,
                                            z as int,
                                            fl,
                                        ) is None);
                                    }
                                    return Err(GenError::Configuration);
                                },
                            }
                        },
                    }
                    k += 1;
                }
                out.set(x, y, z, acc);
                z += 1;
            }
            y += 1;
        }
        x += 1;
    }
    Ok(out)
}

/// Convolution of a selection source: one boolean fold per voxel; the
/// result selection holds exactly the voxels whose fold came out true.
fn convolve_sel<E: Evaluator>(
    ev: &E,
    src: &Selection,
    size: (usize, usize, usize),
    offsets: &Vec<(i64, i64, i64)>,
    expr: &String,
    base: bool,
    mode: EdgeMode,
) -> (r: Result<Selection, GenError>)
    requires
        1 <= size.0,
        1 <= size.1,
        1 <= size.2,
        size.0 * size.1 * size.2 <= crate::dense::MAX_CELLS,
    ensures
        match r {
            Ok(sel) => {
                &&& sel.inv()
                &&& forall|x: int, y: int, z: int|
                    0 <= x < size.0 && 0 <= y < size.1 && 0 <= z < size.2
                        ==> #[trigger] conv_cell_bool(
                        ev,
                        expr@,
                        offsets@,
                        base,
                        src@,
                        (size.0 as int, size.1 as int, size.2 as int),
                        mode,
                        x,
                        y,
                        z,
                    ) == Some(sel@.contains((x as i64, y as i64, z as i64)))
                &&& forall|c: (i64, i64, i64)| #[trigger]
                    sel@.contains(c) ==> 0 <= c.0 < size.0 && 0 <= c.1 < size.1 && 0 <= c.2
                        < size.2
            },
            Err(e) => {
                &&& e == GenError::Configuration
                &&& exists|x: int, y: int, z: int|
                    0 <= x < size.0 && 0 <= y < size.1 && 0 <= z < size.2 && (#[trigger]
                    conv_cell_bool(
                        ev,
                        expr@,
                        offsets@,
                        base,
                        src@,
                        (size.0 as int, size.1 as int, size.2 as int),
                        mode,
                        x,
                        y,
                        z,
                    )) is None
            },
        },
{
    let (nx, ny, nz) = (size.0, size.1, size.2);
    let ghost szi = (size.0 as int, size.1 as int, size.2 as int);
    proof {
        crate::dense::lemma_dims_bounded(szi);
    }
    let mut out = Selection::new();
    let mut x: usize = 0;
    while x < nx
        invariant
            out.inv(),
            szi == (nx as int, ny as int, nz as int),
            szi == (size.0 as int, size.1 as int, size.2 as int),
            1 <= nx && 1 <= ny && 1 <= nz,
            nx <= crate::dense::MAX_CELLS,
            ny <= crate::dense::MAX_CELLS,
            nz <= crate::dense::MAX_CELLS,
            x <= nx,
            forall|a: int, b: int, c: int|
                0 <= a < x && 0 <= b < ny && 0 <= c < nz ==> #[trigger] conv_cell_bool(
                    ev,
                    expr@,
                    offsets@,
                    base,
                    src@,
                    szi,
                    mode,
                    a,
                    b,
                    c,
                ) == Some(out@.contains((a as i64, b as i64, c as i64))),
            forall|c: (i64, i64, i64)| #[trigger]
                out@.contains(c) ==> 0 <= c.0 < x && 0 <= c.1 < ny && 0 <= c.2 < nz,
        decreases nx - x,
    {
        let mut y: usize = 0;
        while y < ny
            invariant
                out.inv(),
                szi == (nx as int, ny as int, nz as int),
                szi == (size.0 as int, size.1 as int, size.2 as int),
            szi == (size.0 as int, size.1 as int, size.2 as int),
                1 <= nx && 1 <= ny && 1 <= nz,
                nx <= crate::dense::MAX_CELLS,
                ny <= crate::dense::MAX_CELLS,
                nz <= crate::dense::MAX_CELLS,
                x < nx,
                y <= ny,
                forall|a: int, b: int, c: int|
                    0 <= a < x && 0 <= b < ny && 0 <= c < nz ==> #[trigger] conv_cell_bool(
                        ev,
                        expr@,
                        offsets@,
                        base,
                        src@,
                        szi,
                        mode,
                        a,
                        b,
                        c,
                    ) == Some(out@.contains((a as i64, b as i64, c as i64))),
                forall|b: int, c: int|
                    0 <= b < y && 0 <= c < nz ==> #[trigger] conv_cell_bool(
                        ev,
                        expr@,
                        offsets@,
                        base,
                        src@,
                        szi,
                        mode,
                        x as int,
                        b,
                        c,
                    ) == Some(out@.contains((x as i64, b as i64, c as i64))),
                forall|c: (i64, i64, i64)| #[trigger]
                    out@.contains(c) ==> (0 <= c.0 < x || (c.0 == x as i64 && 0 <= c.1 < y)) && 0
                        <= c.1 < ny && 0 <= c.2 < nz && c.0 >= 0,
            decreases ny - y,
        {
            let mut z: usize = 0;
            while z < nz
                invariant
                    out.inv(),
                    szi == (nx as int, ny as int, nz as int),
                    szi == (size.0 as int, size.1 as int, size.2 as int),
                szi == (size.0 as int, size.1 as int, size.2 as int),
            szi == (size.0 as int, size.1 as int, size.2 as int),
                    1 <= nx && 1 <= ny && 1 <= nz,
                    nx <= crate::dense::MAX_CELLS,
                    ny <= crate::dense::MAX_CELLS,
                    nz <= crate::dense::MAX_CELLS,
                    x < nx,
                    y < ny,
                    z <= nz,
                    forall|a: int, b: int, c: int|
                        0 <= a < x && 0 <= b < ny && 0 <= c < nz ==> #[trigger] conv_cell_bool(
                            ev,
                            expr@,
                            offsets@,
                            base,
                            src@,
                            szi,
                            mode,
                            a,
                            b,
                            c,
                        ) == Some(out@.contains((a as i64, b as i64, c as i64))),
                    forall|b: int, c: int|
                        0 <= b < y && 0 <= c < nz ==> #[trigger] conv_cell_bool(
                            ev,
                            expr@,
                            offsets@,
                            base,
                            src@,
                            szi,
                            mode,
                            x as int,
                            b,
                            c,
                        ) == Some(out@.contains((x as i64, b as i64, c as i64))),
                    forall|c: int|
                        0 <= c < z ==> #[trigger] conv_cell_bool(
                            ev,
                            expr@,
                            offsets@,
                            base,
                            src@,
                            szi,
                            mode,
                            x as int,
                            y as int,
                            c,
                        ) == Some(out@.contains((x as i64, y as i64, c as i64))),
                    forall|c: (i64, i64, i64)| #[trigger]
                        out@.contains(c) ==> (0 <= c.0 < x || (c.0 == x as i64 && (0 <= c.1 < y || (
                        c.1 == y as i64 && 0 <= c.2 < z)))) && 0 <= c.1 < ny && 0 <= c.2 < nz && c.0
                            >= 0,
                decreases nz - z,
            {
                let pos: (i64, i64, i64) = (x as i64, y as i64, z as i64);
                let mut acc: bool = base;
                let mut k: usize = 0;
                let nk = offsets.len();
                while k < nk
                    invariant
                        szi == (nx as int, ny as int, nz as int),
                    szi == (size.0 as int, size.1 as int, size.2 as int),
                szi == (size.0 as int, size.1 as int, size.2 as int),
            szi == (size.0 as int, size.1 as int, size.2 as int),
                        x < nx,
                        y < ny,
                        z < nz,
                        nx <= crate::dense::MAX_CELLS,
                        ny <= crate::dense::MAX_CELLS,
                        nz <= crate::dense::MAX_CELLS,
                        pos == (x as i64, y as i64, z as i64),
                        k <= nk,
                        nk == offsets@.len(),
                        conv_fold_bool(ev, expr@, offsets@, 0, src@, szi, mode, pos, base)
                            == conv_fold_bool(
                            ev,
                            expr@,
                            offsets@,
                            k as int,
                            src@,
                            szi,
                            mode,
                            pos,
                            acc,
                        ),
                    decreases nk - k,
                {
                    let off = offsets[k];
                    match resolve((x, y, z), off, (nx, ny, nz), mode) {
                        None => {},
                        Some(q) => {
                            let member = src.contains((q.0 as i64, q.1 as i64, q.2 as i64));
                            match combine_bool(ev, expr, pos, acc, member) {
                                Some(a2) => {
                                    acc = a2;
                                },
                                None => {
                                    proof {
                                        assert(conv_cell_bool(
                                            ev,
                                            expr@,
                                            offsets@,
                                            base,
                                            src@,
                                            szi,
                                            mode,
                                            x as int,
                                            y as int,
                                            z as int,
                                        ) is None);
                                    }
                                    return Err(GenError::Configuration);
                                },
                            }
                        },
                    }
                    k += 1;
                }
                if acc {
                    out.insert(pos);
                }
                z += 1;
            }
            y += 1;
        }
        x += 1;
    }
    Ok(out)
}

/// A successful dense convolution result: same shape as the source, every
/// voxel the value of its fold.
pub open spec fn conv_ok_num<E: Evaluator>(
    ev: &E,
    offs: Seq<(i64, i64, i64)>,
    expr: Seq<char>,
    base: i64,
    em: EdgeMode,
    src: Dense,
    fl: bool,
    d: Dense,
) -> bool {
    &&& d.wf()
    &&& d.dim() == src.dim()
    &&& forall|x: int, y: int, z: int|
        d.in_bounds(x, y, z) ==> conv_cell_num(ev, expr, offs, base, src, em, x, y, z, fl) == Some(
            #[trigger] d.at(x, y, z),
        )
}

/// A successful selection convolution result: exactly the in-bounds voxels
/// whose fold came out true.
pub open spec fn conv_ok_sel<E: Evaluator>(
    ev: &E,
    offs: Seq<(i64, i64, i64)>,
    expr: Seq<char>,
    base: bool,
    em: EdgeMode,
    src: Set<(i64, i64, i64)>,
    size: (int, int, int),
    o: Selection,
) -> bool {
    &&& o.inv()
    &&& forall|x: int, y: int, z: int|
        0 <= x < size.0 && 0 <= y < size.1 && 0 <= z < size.2 ==> #[trigger] conv_cell_bool(
            ev,
            expr,
            offs,
            base,
            src,
            size,
            em,
            x,
            y,
            z,
        ) == Some(o@.contains((x as i64, y as i64, z as i64)))
    &&& forall|c: (i64, i64, i64)| #[trigger]
        o@.contains(c) ==> 0 <= c.0 < size.0 && 0 <= c.1 < size.1 && 0 <= c.2 < size.2
}

/// The whole contract of `DataGrid::sample_neighborhood`, as a function of
/// the fields before (`olds`) and after (`news`) and the returned result.
pub open spec fn sample_neighborhood_post<E: Evaluator>(
    ev: &E,
    offs: Seq<(i64, i64, i64)>,
    expr: Seq<char>,
    base_raw: i64,
    em: EdgeMode,
    olds: Seq<(String, GridElement)>,
    size: (int, int, int),
    source: Seq<char>,
    save: Seq<char>,
    news: Seq<(String, GridElement)>,
    r: Result<(), GenError>,
) -> bool {
    if !grid_has(olds, source) {
        r == Err::<(), GenError>(GenError::MissingField) && news == olds
    } else {
        match grid_get(olds, source) {
            GridElement::Rooms(_) => r == Err::<(), GenError>(GenError::TypeMismatch) && news
                == olds,
            GridElement::List(_) => r == Err::<(), GenError>(GenError::TypeMismatch) && news
                == olds,
            GridElement::Int(src) => match r {
                Ok(_) => {
                    &&& fields_overwrote(olds, news, save)
                    &&& grid_get(news, save) matches GridElement::Int(d) && conv_ok_num(
                        ev,
                        offs,
                        expr,
                        crate::scalar::fixed_trunc_spec(base_raw),
                        em,
                        src,
                        false,
                        d,
                    )
                },
                Err(e) => {
                    &&& e == GenError::Configuration
                    &&& news == olds
                    &&& exists|x: int, y: int, z: int|
                        src.in_bounds(x, y, z) && (#[trigger] conv_cell_num(
                            ev,
                            expr,
                            offs,
                            crate::scalar::fixed_trunc_spec(base_raw),
                            src,
                            em,
                            x,
                            y,
                            z,
                            false,
                        )) is None
                },
            },
            GridElement::Float(src) => match r {
                Ok(_) => {
                    &&& fields_overwrote(olds, news, save)
                    &&& grid_get(news, save) matches GridElement::Float(d) && conv_ok_num(
                        ev,
                        offs,
                        expr,
                        base_raw,
                        em,
                        src,
                        true,
                        d,
                    )
                },
                Err(e) => {
                    &&& e == GenError::Configuration
                    &&& news == olds
                    &&& exists|x: int, y: int, z: int|
                        src.in_bounds(x, y, z) && (#[trigger] conv_cell_num(
                            ev,
                            expr,
                            offs,
                            base_raw,
                            src,
                            em,
                            x,
                            y,
                            z,
                            true,
                        )) is None
                },
            },
            GridElement::Sel(srcsel) => match r {
                Ok(_) => {
                    &&& fields_overwrote(olds, news, save)
                    &&& grid_get(news, save) matches GridElement::Sel(o) && conv_ok_sel(
                        ev,
                        offs,
                        expr,
                        base_raw > 0,
                        em,
                        srcsel@,
                        size,
                        o,
                    )
                },
                Err(e) => {
                    let bb = base_raw > 0;
                    &&& e == GenError::Configuration
                    &&& news == olds
                    &&& exists|x: int, y: int, z: int|
                        0 <= x < size.0 && 0 <= y < size.1 && 0 <= z < size.2 && (#[trigger]
                        conv_cell_bool(
                            ev,
                            expr,
                            offs,
                            bb,
                            srcsel@,
                            size,
                            em,
                            x,
                            y,
                            z,
                        )) is None
                },
            },
        }
    }
}

impl DataGrid {
    /// Convolution over the named source field with the neighborhood's
    /// offsets, combining expression and base accumulator, written to
    /// `save`.
    ///
    /// Fails with `MissingField` when the source is absent, `TypeMismatch`
    /// when it is a room or coordinate list, and `Configuration` when a
    /// combining step does not evaluate; on failure the grid is unchanged.
    pub fn sample_neighborhood<E: Evaluator>(
        &mut self,
        nh: &Neighborhood,
        em: EdgeMode,
        source: &String,
        save: &String,
        ev: &E,
    ) -> (r: Result<(), GenError>)
        requires
            old(self).wf(),
        ensures
            final(self).wf(),
            final(self).spec_size() == old(self).spec_size(),
            sample_neighborhood_post(
                ev,
                nh.offsets@,
                nh.summing_expr@,
                nh.accumulator_base,
                em,
                old(self).fields(),
                old(self).spec_size(),
                source@,
                save@,
                final(self).fields(),
                r,
            ),
    {
        proof {
            self.lemma_wf_facts();
        }
        let sz = self.size();
        let base_raw = nh.accumulator_base;
        let outcome: Result<GridElement, GenError> = match self.get_field(source) {
            None => Err(GenError::MissingField),
            Some(GridElement::Int(d)) => {
                proof {
                    self.lemma_field_wf(source@);
                }
                match convolve_num(
                    ev,
                    d,
                    &nh.offsets,
                    &nh.summing_expr,
                    fixed_trunc(base_raw),
                    em,
                    false,
                ) {
                    Ok(nd) => Ok(GridElement::Int(nd)),
                    Err(e) => Err(e),
                }
            },
            Some(GridElement::Float(d)) => {
                proof {
                    self.lemma_field_wf(source@);
                }
                match convolve_num(ev, d, &nh.offsets, &nh.summing_expr, base_raw, em, true) {
                    Ok(nd) => Ok(GridElement::Float(nd)),
                    Err(e) => Err(e),
                }
            },
            Some(GridElement::Sel(s)) => {
                proof {
                    self.lemma_field_wf(source@);
                }
                match convolve_sel(ev, s, sz, &nh.offsets, &nh.summing_expr, base_raw > 0, em) {
                    Ok(ns) => Ok(GridElement::Sel(ns)),
                    Err(e) => Err(e),
                }
            },
            Some(_) => Err(GenError::TypeMismatch),
        };
        match outcome {
            Ok(ge) => {
                self.set_field(save.clone(), ge);
                Ok(())
            },
            Err(e) => Err(e),
        }
    }
}

} // verus!
