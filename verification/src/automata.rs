use vstd::prelude::*;

use crate::collab::{entries_view, EvalContext, Evaluator};
use crate::convolve::{combine_num, conv_cell_num, conv_fold_num, Neighborhood};
use crate::dense::Dense;
use crate::edge::{resolve, EdgeMode};
use crate::errors::GenError;
use crate::fields::GridElement;
use crate::rooms::RectPrism;
use crate::scalar::{
    fixed_trunc, fixed_trunc_spec, value_as_fixed, value_as_fixed_spec, value_as_int,
    value_as_int_spec, Value,
};

verus! {

/// A cellular-automaton rule: a neighborhood kernel with its accumulation
/// expression, and a result expression mapping `(state, sum)` to the new
/// state (empty means the default — replace the state with the sum).
pub struct CellAutoRule {
    pub neighborhood: Option<Neighborhood>,
    pub result_expr: String,
}

/// True when the voxel lies in the target sub-region.
pub open spec fn ca_region(lo: (int, int, int), hi: (int, int, int), x: int, y: int, z: int) -> bool {
    lo.0 <= x < hi.0 && lo.1 <= y < hi.1 && lo.2 <= z < hi.2
}

/// The result rule applied to one voxel's pre-step state and accumulated
/// value: the default replaces the state with the accumulation; otherwise
/// the evaluator maps `(state, sum)` and its answer is read in the
/// scalar's category.
pub open spec fn ca_result_spec<E: Evaluator>(
    ev: &E,
    rexpr: Seq<char>,
    pos: (i64, i64, i64),
    state: i64,
    sum: i64,
    fl: bool,
) -> Option<i64> {
    if rexpr.len() == 0 {
        Some(sum)
    } else {
        let sv = if fl {
            Value::Float(state)
        } else {
            Value::Int(state)
        };
        let uv = if fl {
            Value::Float(sum)
        } else {
            Value::Int(sum)
        };
        match ev.eval_spec(rexpr, pos, seq![("state"@, sv), ("sum"@, uv)]) {
            Some(r) => Some(if fl { value_as_fixed_spec(r) } else { value_as_int_spec(r) }),
            None => None,
        }
    }
}

/// One synchronous step at one voxel: inside the region, accumulate over
/// the kernel (out-of-bounds neighbors skipped) reading only pre-step
/// values, then apply the result rule to the pre-step state; outside the
/// region the voxel is untouched.
pub open spec fn ca_cell_num<E: Evaluator>(
    ev: &E,
    offs: Seq<(i64, i64, i64)>,
    sexpr: Seq<char>,
    base: i64,
    rexpr: Seq<char>,
    src: Dense,
    lo: (int, int, int),
    hi: (int, int, int),
    x: int,
    y: int,
    z: int,
    fl: bool,
) -> Option<i64> {
    if ca_region(lo, hi, x, y, z) {
        match conv_cell_num(ev, sexpr, offs, base, src, EdgeMode::Ignore, x, y, z, fl) {
            Some(sum) => ca_result_spec(
                ev,
                rexpr,
                (x as i64, y as i64, z as i64),
                src.at(x, y, z),
                sum,
                fl,
            ),
            None => None,
        }
    } else {
        Some(src.at(x, y, z))
    }
}

fn ca_result<E: Evaluator>(
    ev: &E,
    rexpr: &String,
    pos: (i64, i64, i64),
    state: i64,
    sum: i64,
    fl: bool,
) -> (r: Option<i64>)
    ensures
        r == ca_result_spec(ev, rexpr@, pos, state, sum, fl),
{
    if rexpr.as_str().is_empty() {
        Some(sum)
    } else {
        let sv = if fl {
            Value::Float(state)
        } else {
            Value::Int(state)
        };
        let uv = if fl {
            Value::Float(sum)
        } else {
            Value::Int(sum)
        };
        let mut entries: Vec<(String, Value)> = Vec::new();
        entries.push(("state".to_owned(), sv));
        entries.push(("sum".to_owned(), uv));
        let ctx = EvalContext { position: pos, entries };
        proof {
            assert(entries_view(ctx.entries@) =~= seq![("state"@, sv), ("sum"@, uv)]);
        }
        match ev.eval(rexpr, &ctx) {
            Some(r) => Some(
                if fl {
                    value_as_fixed(r)
                } else {
                    value_as_int(r)
                },
            ),
            None => None,
        }
    }
}

/// One synchronous step over the whole grid: every new value is computed
/// from the pre-step buffer and written to a fresh one, so neighbor reads
/// never observe this step's writes.
pub fn ca_step_num<E: Evaluator>(
    ev: &E,
    src: &Dense,
    offsets: &Vec<(i64, i64, i64)>,
    sexpr: &String,
    base: i64,
    rexpr: &String,
    lo: (usize, usize, usize),
    hi: (usize, usize, usize),
    fl: bool,
) -> (r: Result<Dense, GenError>)
    requires
        src.wf(),
        1 <= src.dim().0,
        1 <= src.dim().1,
        1 <= src.dim().2,
        src.dim().0 * src.dim().1 * src.dim().2 <= crate::dense::MAX_CELLS,
        hi.0 <= src.dim().0,
        hi.1 <= src.dim().1,
        hi.2 <= src.dim().2,
    ensures
        match r {
            Ok(d) => {
                &&& d.wf()
                &&& d.dim() == src.dim()
                &&& forall|x: int, y: int, z: int|
                    d.in_bounds(x, y, z) ==> ca_cell_num(
                        ev,
                        offsets@,
                        sexpr@,
                        base,
                        rexpr@,
                        *src,
                        (lo.0 as int, lo.1 as int, lo.2 as int),
                        (hi.0 as int, hi.1 as int, hi.2 as int),
                        x,
                        y,
                        z,
                        fl,
                    ) == Some(#[trigger] d.at(x, y, z))
            },
            Err(e) => {
                &&& e == GenError::Configuration
                &&& exists|x: int, y: int, z: int|
                    src.in_bounds(x, y, z) && (#[trigger] ca_cell_num(
                        ev,
                        offsets@,
                        sexpr@,
                        base,
                        rexpr@,
                        *src,
                        (lo.0 as int, lo.1 as int, lo.2 as int),
                        (hi.0 as int, hi.1 as int, hi.2 as int),
                        x,
                        y,
                        z,
                        fl,
                    )) is None
            },
        },
{
    let sz = src.size();
    let (nx, ny, nz) = (sz.0, sz.1, sz.2);
    proof {
        crate::dense::lemma_dims_bounded(src.dim());
    }
    let ghost loi = (lo.0 as int, lo.1 as int, lo.2 as int);
    let ghost hii = (hi.0 as int, hi.1 as int, hi.2 as int);
    let mut out = Dense::new(nx, ny, nz);
    let mut x: usize = 0;
    while x < nx
        invariant
            src.wf(),
            out.wf(),
            out.dim() == src.dim(),
            (nx as int, ny as int, nz as int) == src.dim(),
            1 <= nx && 1 <= ny && 1 <= nz,
            nx <= crate::dense::MAX_CELLS,
            ny <= crate::dense::MAX_CELLS,
            nz <= crate::dense::MAX_CELLS,
            loi == (lo.0 as int, lo.1 as int, lo.2 as int),
            hii == (hi.0 as int, hi.1 as int, hi.2 as int),
            x <= nx,
            forall|a: int, b: int, c: int|
                0 <= a < x && 0 <= b < ny && 0 <= c < nz ==> ca_cell_num(
                    ev,
                    offsets@,
                    sexpr@,
                    base,
                    rexpr@,
                    *src,
                    loi,
                    hii,
                    a,
                    b,
                    c,
                    fl,
                ) == Some(#[trigger] out.at(a, b, c)),
        decreases nx - x,
    {
        let mut y: usize = 0;
        while y < ny
            invariant
                src.wf(),
                out.wf(),
                out.dim() == src.dim(),
                (nx as int, ny as int, nz as int) == src.dim(),
                1 <= nx && 1 <= ny && 1 <= nz,
                nx <= crate::dense::MAX_CELLS,
                ny <= crate::dense::MAX_CELLS,
                nz <= crate::dense::MAX_CELLS,
                loi == (lo.0 as int, lo.1 as int, lo.2 as int),
                hii == (hi.0 as int, hi.1 as int, hi.2 as int),
                x < nx,
                y <= ny,
                forall|a: int, b: int, c: int|
                    0 <= a < x && 0 <= b < ny && 0 <= c < nz ==> ca_cell_num(
                        ev,
                        offsets@,
                        sexpr@,
                        base,
                        rexpr@,
                        *src,
                        loi,
                        hii,
                        a,
                        b,
                        c,
                        fl,
                    ) == Some(#[trigger] out.at(a, b, c)),
                forall|b: int, c: int|
                    0 <= b < y && 0 <= c < nz ==> ca_cell_num(
                        ev,
                        offsets@,
                        sexpr@,
                        base,
                        rexpr@,
                        *src,
                        loi,
                        hii,
                        x as int,
                        b,
                        c,
                        fl,
                    ) == Some(#[trigger] out.at(x as int, b, c)),
            decreases ny - y,
        {
            let mut z: usize = 0;
            while z < nz
                invariant
                    src.wf(),
                    out.wf(),
                    out.dim() == src.dim(),
                    (nx as int, ny as int, nz as int) == src.dim(),
                    1 <= nx && 1 <= ny && 1 <= nz,
                    nx <= crate::dense::MAX_CELLS,
                    ny <= crate::dense::MAX_CELLS,
                    nz <= crate::dense::MAX_CELLS,
                    loi == (lo.0 as int, lo.1 as int, lo.2 as int),
                    hii == (hi.0 as int, hi.1 as int, hi.2 as int),
                    x < nx,
                    y < ny,
                    z <= nz,
                    forall|a: int, b: int, c: int|
                        0 <= a < x && 0 <= b < ny && 0 <= c < nz ==> ca_cell_num(
                            ev,
                            offsets@,
                            sexpr@,
                            base,
                            rexpr@,
                            *src,
                            loi,
                            hii,
                            a,
                            b,
                            c,
                            fl,
                        ) == Some(#[trigger] out.at(a, b, c)),
                    forall|b: int, c: int|
                        0 <= b < y && 0 <= c < nz ==> ca_cell_num(
                            ev,
                            offsets@,
                            sexpr@,
                            base,
                            rexpr@,
                            *src,
                            loi,
                            hii,
                            x as int,
                            b,
                            c,
                            fl,
                        ) == Some(#[trigger] out.at(x as int, b, c)),
                    forall|c: int|
                        0 <= c < z ==> ca_cell_num(
                            ev,
                            offsets@,
                            sexpr@,
                            base,
                            rexpr@,
                            *src,
                            loi,
                            hii,
                            x as int,
                            y as int,
                            c,
                            fl,
                        ) == Some(#[trigger] out.at(x as int, y as int, c)),
                decreases nz - z,
            {
                let in_region = lo.0 <= x && x < hi.0 && lo.1 <= y && y < hi.1 && lo.2 <= z && z
                    < hi.2;
                if in_region {
                    let pos: (i64, i64, i64) = (x as i64, y as i64, z as i64);
                    let mut acc: i64 = base;
                    let mut k: usize = 0;
                    let nk = offsets.len();
                    while k < nk
                        invariant
                            src.wf(),
                            (nx as int, ny as int, nz as int) == src.dim(),
                            nx <= crate::dense::MAX_CELLS,
                            ny <= crate::dense::MAX_CELLS,
                            nz <= crate::dense::MAX_CELLS,
                            1 <= nx && 1 <= ny && 1 <= nz,
                            x < nx,
                            y < ny,
                            z < nz,
                            loi == (lo.0 as int, lo.1 as int, lo.2 as int),
                            hii == (hi.0 as int, hi.1 as int, hi.2 as int),
                            lo.0 <= x < hi.0,
                            lo.1 <= y < hi.1,
                            lo.2 <= z < hi.2,
                            pos == (x as i64, y as i64, z as i64),
                            k <= nk,
                            nk == offsets@.len(),
                            conv_fold_num(
                                ev,
                                sexpr@,
                                offsets@,
                                0,
                                *src,
                                EdgeMode::Ignore,
                                pos,
                                base,
                                fl,
                            ) == conv_fold_num(
                                ev,
                                sexpr@,
                                offsets@,
                                k as int,
                                *src,
                                EdgeMode::Ignore,
                                pos,
                                acc,
                                fl,
                            ),
                        decreases nk - k,
                    {
                        let off = offsets[k];
                        match resolve((x, y, z), off, (nx, ny, nz), EdgeMode::Ignore) {
                            None => {},
                            Some(q) => {
                                let v = src.get(q.0, q.1, q.2);
                                match combine_num(ev, sexpr, pos, acc, v, fl) {
                                    Some(a2) => {
                                        acc = a2;
                                    },
                                    None => {
                                        proof {
                                            assert((conv_fold_num(
                                                ev,
                                                sexpr@,
                                                offsets@,
                                                k as int,
                                                *src,
                                                EdgeMode::Ignore,
                                                pos,
                                                acc,
                                                fl,
                                            )) is None);
                                            assert((conv_cell_num(
                                                ev,
                                                sexpr@,
                                                offsets@,
                                                base,
                                                *src,
                                                EdgeMode::Ignore,
                                                x as int,
                                                y as int,
                                                z as int,
                                                fl,
                                            )) is None);
                                            assert(ca_region(
                                                loi,
                                                hii,
                                                x as int,
                                                y as int,
                                                z as int,
                                            ));
                                            assert((ca_cell_num(
                                                ev,
                                                offsets@,
                                                sexpr@,
                                                base,
                                                rexpr@,
                                                *src,
                                                loi,
                                                hii,
                                                x as int,
                                                y as int,
                                                z as int,
                                                fl,
                                            )) is None);
                                        }
                                        return Err(GenError::Configuration);
                                    },
                                }
                            },
                        }
                        k += 1;
                    }
                    let state = src.get(x, y, z);
                    match ca_result(ev, rexpr, pos, state, acc, fl) {
                        Some(w) => {
                            out.set(x, y, z, w);
                        },
                        None => {
                            proof {
                                assert((ca_cell_num(
                                    ev,
                                    offsets@,
                                    sexpr@,
                                    base,
                                    rexpr@,
                                    *src,
                                    loi,
                                    hii,
                                    x as int,
                                    y as int,
                                    z as int,
                                    fl,
                                )) is None);
                            }
                            return Err(GenError::Configuration);
                        },
                    }
                } else {
                    let v = src.get(x, y, z);
                    out.set(x, y, z, v);
                }
                z += 1;
            }
            y += 1;
        }
        x += 1;
    }
    Ok(out)
}

/// The data a rule can run on: a dense field, well-formed and of positive,
/// allocatable extent.
pub open spec fn ca_data_ok(data: GridElement) -> bool {
    match data {
        GridElement::Int(d) => d.wf() && 1 <= d.dim().0 && 1 <= d.dim().1 && 1 <= d.dim().2
            && d.dim().0 * d.dim().1 * d.dim().2 <= crate::dense::MAX_CELLS,
        GridElement::Float(d) => d.wf() && 1 <= d.dim().0 && 1 <= d.dim().1 && 1 <= d.dim().2
            && d.dim().0 * d.dim().1 * d.dim().2 <= crate::dense::MAX_CELLS,
        _ => false,
    }
}

impl CellAutoRule {
    /// Runs the automaton for `steps` synchronous steps over the target
    /// sub-region (clamped to the grid), on a dense Int or Float field.
    ///
    /// With zero steps the input comes back unchanged.  With the default
    /// rules (empty accumulation and result expressions) the run cannot
    /// fail; and with an empty kernel besides, every region voxel holds
    /// exactly the base accumulator after any positive number of steps —
    /// the observable mark of the synchronous (never in-place) update.
    pub fn run<E: Evaluator>(
        &self,
        data: GridElement,
        area: RectPrism,
        steps: usize,
        ev: &E,
    ) -> (r: Result<GridElement, GenError>)
        requires
            (data matches GridElement::Int(_) || data matches GridElement::Float(_))
                ==> ca_data_ok(data),
        ensures
            self.neighborhood is None ==> r == Err::<GridElement, GenError>(
                GenError::Configuration,
            ),
            self.neighborhood is Some && !(data matches GridElement::Int(_) || data matches
                GridElement::Float(_)) ==> r == Err::<GridElement, GenError>(
                GenError::TypeMismatch,
            ),
            self.neighborhood is Some && (data matches GridElement::Int(_) || data matches
                GridElement::Float(_)) ==> ca_run_post(
                ev,
                self.neighborhood.unwrap().offsets@,
                self.neighborhood.unwrap().summing_expr@,
                self.neighborhood.unwrap().accumulator_base,
                self.result_expr@,
                data,
                area,
                steps as int,
                r,
            ),
    {
        let nh = match &self.neighborhood {
            Some(nh) => nh,
            None => { return Err(GenError::Configuration); },
        };
        match data {
            GridElement::Int(d) => {
                match Self::run_dense(ev, nh, &self.result_expr, d, area, steps, false) {
                    Ok(nd) => Ok(GridElement::Int(nd)),
                    Err(e) => Err(e),
                }
            },
            GridElement::Float(d) => {
                match Self::run_dense(ev, nh, &self.result_expr, d, area, steps, true) {
                    Ok(nd) => Ok(GridElement::Float(nd)),
                    Err(e) => Err(e),
                }
            },
            _ => Err(GenError::TypeMismatch),
        }
    }

    /// The iterated stepper shared by the Int and Float cases.
    fn run_dense<E: Evaluator>(
        ev: &E,
        nh: &Neighborhood,
        rexpr: &String,
        d: Dense,
        area: RectPrism,
        steps: usize,
        fl: bool,
    ) -> (r: Result<Dense, GenError>)
        requires
            d.wf(),
            1 <= d.dim().0,
            1 <= d.dim().1,
            1 <= d.dim().2,
            d.dim().0 * d.dim().1 * d.dim().2 <= crate::dense::MAX_CELLS,
        ensures
            match r {
                Ok(nd) => dense_run_post(
                    ev,
                    nh.offsets@,
                    nh.summing_expr@,
                    nh.accumulator_base,
                    rexpr@,
                    d,
                    area,
                    steps as int,
                    nd,
                    fl,
                ),
                Err(e) => e == GenError::Configuration && steps >= 1 && (nh.summing_expr@.len() > 0
                    || rexpr@.len() > 0) && ca_err_witness(
                    ev,
                    nh.offsets@,
                    nh.summing_expr@,
                    (if fl {
                        nh.accumulator_base
                    } else {
                        fixed_trunc_spec(nh.accumulator_base)
                    }),
                    rexpr@,
                    d,
                    area,
                    steps as int,
                    fl,
                ),
            },
    {
        let sz = d.size();
        let base = if fl {
            nh.accumulator_base
        } else {
            fixed_trunc(nh.accumulator_base)
        };
        let lo = (
            if area.min.0 < sz.0 { area.min.0 } else { sz.0 },
            if area.min.1 < sz.1 { area.min.1 } else { sz.1 },
            if area.min.2 < sz.2 { area.min.2 } else { sz.2 },
        );
        let hi = (
            if area.max.0 < sz.0 { area.max.0 } else { sz.0 },
            if area.max.1 < sz.1 { area.max.1 } else { sz.1 },
            if area.max.2 < sz.2 { area.max.2 } else { sz.2 },
        );
        let ghost loi = (lo.0 as int, lo.1 as int, lo.2 as int);
        let ghost hii = (hi.0 as int, hi.1 as int, hi.2 as int);
        let ghost orig = d;
        let mut cur = d;
        let mut i: usize = 0;
        while i < steps
            invariant
                orig == d,
                cur.wf(),
                cur.dim() == orig.dim(),
                1 <= orig.dim().0,
                1 <= orig.dim().1,
                1 <= orig.dim().2,
                orig.dim().0 * orig.dim().1 * orig.dim().2 <= crate::dense::MAX_CELLS,
                (sz.0 as int, sz.1 as int, sz.2 as int) == orig.dim(),
                hi.0 <= sz.0 && hi.1 <= sz.1 && hi.2 <= sz.2,
                loi == (lo.0 as int, lo.1 as int, lo.2 as int),
                hii == (hi.0 as int, hi.1 as int, hi.2 as int),
                loi == ca_clamped_lo(area, orig.dim()),
                hii == ca_clamped_hi(area, orig.dim()),
                base == (if fl {
                    nh.accumulator_base
                } else {
                    fixed_trunc_spec(nh.accumulator_base)
                }),
                i <= steps,
                ca_chain(
                    ev,
                    nh.offsets@,
                    nh.summing_expr@,
                    base,
                    rexpr@,
                    loi,
                    hii,
                    orig,
                    i as int,
                    cur,
                    fl,
                ),
                i == 0 ==> cur == orig,
                i == 1 ==> forall|x: int, y: int, z: int|
                    cur.in_bounds(x, y, z) ==> ca_cell_num(
                        ev,
                        nh.offsets@,
                        nh.summing_expr@,
                        base,
                        rexpr@,
                        orig,
                        loi,
                        hii,
                        x,
                        y,
                        z,
                        fl,
                    ) == Some(#[trigger] cur.at(x, y, z)),
                (i >= 1 && nh.offsets@.len() == 0 && nh.summing_expr@.len() == 0 && rexpr@.len()
                    == 0) ==> forall|x: int, y: int, z: int|
                    cur.in_bounds(x, y, z) ==> #[trigger] cur.at(x, y, z) == (if ca_region(
                        loi,
                        hii,
                        x,
                        y,
                        z,
                    ) {
                        base
                    } else {
                        orig.at(x, y, z)
                    }),
            decreases steps - i,
        {
            match ca_step_num(ev, &cur, &nh.offsets, &nh.summing_expr, base, rexpr, lo, hi, fl) {
                Ok(nd) => {
                    proof {
                        assert(ca_step_rel(
                            ev,
                            nh.offsets@,
                            nh.summing_expr@,
                            base,
                            rexpr@,
                            loi,
                            hii,
                            cur,
                            nd,
                            fl,
                        ));
                        lemma_ca_chain_snoc(
                            ev,
                            nh.offsets@,
                            nh.summing_expr@,
                            base,
                            rexpr@,
                            loi,
                            hii,
                            orig,
                            i as int,
                            cur,
                            nd,
                            fl,
                        );
                        if nh.offsets@.len() == 0 && nh.summing_expr@.len() == 0 && rexpr@.len()
                            == 0 {
                            assert(nh.summing_expr@ =~= Seq::<char>::empty());
                            assert(rexpr@ =~= Seq::<char>::empty());
                            assert forall|x: int, y: int, z: int|
                                nd.in_bounds(x, y, z) implies #[trigger] nd.at(x, y, z) == (
                            if ca_region(loi, hii, x, y, z) {
                                base
                            } else {
                                orig.at(x, y, z)
                            }) by {
                                lemma_default_step_total(
                                    ev,
                                    nh.offsets@,
                                    base,
                                    cur,
                                    loi,
                                    hii,
                                    x,
                                    y,
                                    z,
                                    fl,
                                );
                                assert(ca_cell_num(
                                    ev,
                                    nh.offsets@,
                                    nh.summing_expr@,
                                    base,
                                    rexpr@,
                                    cur,
                                    loi,
                                    hii,
                                    x,
                                    y,
                                    z,
                                    fl,
                                ) == Some(nd.at(x, y, z)));
                            }
                        }
                    }
                    cur = nd;
                },
                Err(e) => {
                    proof {
                        let (wx, wy, wz) = choose|x: int, y: int, z: int|
                            cur.in_bounds(x, y, z) && (#[trigger] ca_cell_num(
                                ev,
                                nh.offsets@,
                                nh.summing_expr@,
                                base,
                                rexpr@,
                                cur,
                                (lo.0 as int, lo.1 as int, lo.2 as int),
                                (hi.0 as int, hi.1 as int, hi.2 as int),
                                x,
                                y,
                                z,
                                fl,
                            )) is None;
                        assert(0 <= (i as int) && (i as int) < (steps as int));
                        assert(ca_chain(
                            ev,
                            nh.offsets@,
                            nh.summing_expr@,
                            if fl {
                                nh.accumulator_base
                            } else {
                                fixed_trunc_spec(nh.accumulator_base)
                            },
                            rexpr@,
                            ca_clamped_lo(area, orig.dim()),
                            ca_clamped_hi(area, orig.dim()),
                            orig,
                            i as int,
                            cur,
                            fl,
                        ));
                        assert((ca_cell_num(
                            ev,
                            nh.offsets@,
                            nh.summing_expr@,
                            if fl {
                                nh.accumulator_base
                            } else {
                                fixed_trunc_spec(nh.accumulator_base)
                            },
                            rexpr@,
                            cur,
                            ca_clamped_lo(area, orig.dim()),
                            ca_clamped_hi(area, orig.dim()),
                            wx,
                            wy,
                            wz,
                            fl,
                        )) is None);
                        assert(ca_err_witness(
                            ev,
                            nh.offsets@,
                            nh.summing_expr@,
                            if fl {
                                nh.accumulator_base
                            } else {
                                fixed_trunc_spec(nh.accumulator_base)
                            },
                            rexpr@,
                            orig,
                            area,
                            steps as int,
                            fl,
                        ));
                        if nh.summing_expr@.len() == 0 && rexpr@.len() == 0 {
                            assert(nh.summing_expr@ =~= Seq::<char>::empty());
                            assert(rexpr@ =~= Seq::<char>::empty());
                            lemma_default_step_total(
                                ev,
                                nh.offsets@,
                                base,
                                cur,
                                loi,
                                hii,
                                wx,
                                wy,
                                wz,
                                fl,
                            );
                        }
                    }
                    return Err(e);
                },
            }
            i += 1;
        }
        Ok(cur)
    }
}

/// The clamp of the target region's lower corner to the grid.
pub open spec fn ca_clamped_lo(area: RectPrism, dim: (int, int, int)) -> (int, int, int) {
    (
        if area.min.0 < dim.0 {
            area.min.0 as int
        } else {
            dim.0
        },
        if area.min.1 < dim.1 {
            area.min.1 as int
        } else {
            dim.1
        },
        if area.min.2 < dim.2 {
            area.min.2 as int
        } else {
            dim.2
        },
    )
}

/// The clamp of the target region's upper corner to the grid.
pub open spec fn ca_clamped_hi(area: RectPrism, dim: (int, int, int)) -> (int, int, int) {
    (
        if area.max.0 < dim.0 {
            area.max.0 as int
        } else {
            dim.0
        },
        if area.max.1 < dim.1 {
            area.max.1 as int
        } else {
            dim.1
        },
        if area.max.2 < dim.2 {
            area.max.2 as int
        } else {
            dim.2
        },
    )
}

/// One synchronous step as a relation between the pre- and post-step
/// buffers: same shape, every voxel the value of its step function.
pub open spec fn ca_step_rel<E: Evaluator>(
    ev: &E,
    offs: Seq<(i64, i64, i64)>,
    sexpr: Seq<char>,
    base: i64,
    rexpr: Seq<char>,
    lo: (int, int, int),
    hi: (int, int, int),
    d0: Dense,
    d1: Dense,
    fl: bool,
) -> bool {
    &&& d1.wf()
    &&& d1.dim() == d0.dim()
    &&& forall|x: int, y: int, z: int|
        d1.in_bounds(x, y, z) ==> ca_cell_num(ev, offs, sexpr, base, rexpr, d0, lo, hi, x, y, z, fl)
            == Some(#[trigger] d1.at(x, y, z))
}

/// `n` synchronous steps, chained: the whole run's observable output is
/// pinned, step by step, as a function of the input buffer.
pub open spec fn ca_chain<E: Evaluator>(
    ev: &E,
    offs: Seq<(i64, i64, i64)>,
    sexpr: Seq<char>,
    base: i64,
    rexpr: Seq<char>,
    lo: (int, int, int),
    hi: (int, int, int),
    d0: Dense,
    n: int,
    d1: Dense,
    fl: bool,
) -> bool
    decreases n,
{
    if n <= 0 {
        d1 == d0
    } else {
        exists|mid: Dense|
            #[trigger] ca_step_rel(ev, offs, sexpr, base, rexpr, lo, hi, d0, mid, fl)
                && ca_chain(ev, offs, sexpr, base, rexpr, lo, hi, mid, n - 1, d1, fl)
    }
}

/// A chain extends by one step at its end.
proof fn lemma_ca_chain_snoc<E: Evaluator>(
    ev: &E,
    offs: Seq<(i64, i64, i64)>,
    sexpr: Seq<char>,
    base: i64,
    rexpr: Seq<char>,
    lo: (int, int, int),
    hi: (int, int, int),
    d0: Dense,
    n: int,
    d1: Dense,
    d2: Dense,
    fl: bool,
)
    requires
        n >= 0,
        ca_chain(ev, offs, sexpr, base, rexpr, lo, hi, d0, n, d1, fl),
        ca_step_rel(ev, offs, sexpr, base, rexpr, lo, hi, d1, d2, fl),
    ensures
        ca_chain(ev, offs, sexpr, base, rexpr, lo, hi, d0, n + 1, d2, fl),
    decreases n,
{
    if n == 0 {
        assert(ca_step_rel(ev, offs, sexpr, base, rexpr, lo, hi, d0, d2, fl) && ca_chain(
            ev,
            offs,
            sexpr,
            base,
            rexpr,
            lo,
            hi,
            d2,
            0,
            d2,
            fl,
        ));
    } else {
        let mid = choose|mid: Dense|
            #[trigger] ca_step_rel(ev, offs, sexpr, base, rexpr, lo, hi, d0, mid, fl) && ca_chain(
                ev,
                offs,
                sexpr,
                base,
                rexpr,
                lo,
                hi,
                mid,
                n - 1,
                d1,
                fl,
            );
        lemma_ca_chain_snoc(ev, offs, sexpr, base, rexpr, lo, hi, mid, n - 1, d1, d2, fl);
        assert(ca_step_rel(ev, offs, sexpr, base, rexpr, lo, hi, d0, mid, fl) && ca_chain(
            ev,
            offs,
            sexpr,
            base,
            rexpr,
            lo,
            hi,
            mid,
            n,
            d2,
            fl,
        ));
    }
}

/// Evidence that a run actually failed: after some number of complete
/// steps, some region voxel's evaluation returned nothing.  `base` is the
/// accumulator already read in the field's own category.
pub open spec fn ca_err_witness<E: Evaluator>(
    ev: &E,
    offs: Seq<(i64, i64, i64)>,
    sexpr: Seq<char>,
    base: i64,
    rexpr: Seq<char>,
    orig: Dense,
    area: RectPrism,
    steps: int,
    fl: bool,
) -> bool {
    exists|k: int, mid: Dense, x: int, y: int, z: int|
        {
            &&& 0 <= k < steps
            &&& #[trigger] ca_chain(
                ev,
                offs,
                sexpr,
                base,
                rexpr,
                ca_clamped_lo(area, orig.dim()),
                ca_clamped_hi(area, orig.dim()),
                orig,
                k,
                mid,
                fl,
            )
            &&& mid.in_bounds(x, y, z)
            &&& (#[trigger] ca_cell_num(
                ev,
                offs,
                sexpr,
                base,
                rexpr,
                mid,
                ca_clamped_lo(area, orig.dim()),
                ca_clamped_hi(area, orig.dim()),
                x,
                y,
                z,
                fl,
            )) is None
        }
}

/// What `run` promises of a dense field that ran `steps` steps.
pub open spec fn dense_run_post<E: Evaluator>(
    ev: &E,
    offs: Seq<(i64, i64, i64)>,
    sexpr: Seq<char>,
    base_raw: i64,
    rexpr: Seq<char>,
    orig: Dense,
    area: RectPrism,
    steps: int,
    nd: Dense,
    fl: bool,
) -> bool {
    let base = if fl {
        base_raw
    } else {
        fixed_trunc_spec(base_raw)
    };
    let lo = ca_clamped_lo(area, orig.dim());
    let hi = ca_clamped_hi(area, orig.dim());
    &&& nd.wf()
    &&& nd.dim() == orig.dim()
    &&& steps >= 0 ==> ca_chain(ev, offs, sexpr, base, rexpr, lo, hi, orig, steps, nd, fl)
    &&& steps == 0 ==> nd == orig
    &&& steps == 1 ==> forall|x: int, y: int, z: int|
        nd.in_bounds(x, y, z) ==> ca_cell_num(
            ev,
            offs,
            sexpr,
            base,
            rexpr,
            orig,
            lo,
            hi,
            x,
            y,
            z,
            fl,
        ) == Some(#[trigger] nd.at(x, y, z))
    &&& (steps >= 1 && offs.len() == 0 && sexpr.len() == 0 && rexpr.len() == 0) ==> forall|
        x: int,
        y: int,
        z: int,
    |
        nd.in_bounds(x, y, z) ==> #[trigger] nd.at(x, y, z) == (if ca_region(lo, hi, x, y, z) {
            base
        } else {
            orig.at(x, y, z)
        })
}

/// What `run` promises of a dense Int or Float input.
pub open spec fn ca_run_post<E: Evaluator>(
    ev: &E,
    offs: Seq<(i64, i64, i64)>,
    sexpr: Seq<char>,
    base_raw: i64,
    rexpr: Seq<char>,
    data: GridElement,
    area: RectPrism,
    steps: int,
    r: Result<GridElement, GenError>,
) -> bool {
    match data {
        GridElement::Int(orig) => match r {
            Ok(ge) => ge matches GridElement::Int(nd) && dense_run_post(
                ev,
                offs,
                sexpr,
                base_raw,
                rexpr,
                orig,
                area,
                steps,
                nd,
                false,
            ),
            Err(e) => e == GenError::Configuration && steps >= 1 && (sexpr.len() > 0 || rexpr.len()
                > 0) && ca_err_witness(
                ev,
                offs,
                sexpr,
                fixed_trunc_spec(base_raw),
                rexpr,
                orig,
                area,
                steps,
                false,
            ),
        },
        GridElement::Float(orig) => match r {
            Ok(ge) => ge matches GridElement::Float(nd) && dense_run_post(
                ev,
                offs,
                sexpr,
                base_raw,
                rexpr,
                orig,
                area,
                steps,
                nd,
                true,
            ),
            Err(e) => e == GenError::Configuration && steps >= 1 && (sexpr.len() > 0 || rexpr.len()
                > 0) && ca_err_witness(ev, offs, sexpr, base_raw, rexpr, orig, area, steps, true),
        },
        _ => false,
    }
}

/// With the default rules, one step never fails, and with an empty kernel
/// besides, a region voxel's new value is exactly the base accumulator.
proof fn lemma_default_step_total<E: Evaluator>(
    ev: &E,
    offs: Seq<(i64, i64, i64)>,
    base: i64,
    src: Dense,
    lo: (int, int, int),
    hi: (int, int, int),
    x: int,
    y: int,
    z: int,
    fl: bool,
)
    ensures
        ca_cell_num(ev, offs, Seq::<char>::empty(), base, Seq::<char>::empty(), src, lo, hi, x, y, z, fl)
            is Some,
        offs.len() == 0 && ca_region(lo, hi, x, y, z) ==> ca_cell_num(
            ev,
            offs,
            Seq::<char>::empty(),
            base,
            Seq::<char>::empty(),
            src,
            lo,
            hi,
            x,
            y,
            z,
            fl,
        ) == Some(base),
{
    if ca_region(lo, hi, x, y, z) {
        lemma_default_fold_total(ev, offs, 0, src, (x as i64, y as i64, z as i64), base, fl);
    }
}

/// The default (empty-expression) accumulation fold never fails, and over
/// an empty kernel it returns its base unchanged.
proof fn lemma_default_fold_total<E: Evaluator>(
    ev: &E,
    offs: Seq<(i64, i64, i64)>,
    k: int,
    src: Dense,
    pos: (i64, i64, i64),
    acc: i64,
    fl: bool,
)
    ensures
        conv_fold_num(ev, Seq::<char>::empty(), offs, k, src, EdgeMode::Ignore, pos, acc, fl)
            is Some,
    decreases offs.len() - k,
{
    if 0 <= k < offs.len() {
        let np = (pos.0 + offs[k].0, pos.1 + offs[k].1, pos.2 + offs[k].2);
        match crate::edge::resolve_spec(np, src.dim(), EdgeMode::Ignore) {
            None => {
                lemma_default_fold_total(ev, offs, k + 1, src, pos, acc, fl);
            },
            Some(q) => {
                lemma_default_fold_total(
                    ev,
                    offs,
                    k + 1,
                    src,
                    pos,
                    acc.wrapping_add(src.at(q.0, q.1, q.2)),
                    fl,
                );
            },
        }
    }
}

} // verus!
