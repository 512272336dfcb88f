use vstd::prelude::*;

use crate::collab::{entries_view, EvalContext, Evaluator};
use crate::datagrid::{fields_overwrote, grid_get, grid_has, DataGrid};
use crate::dense::Dense;
use crate::errors::GenError;
use crate::fields::GridElement;
use crate::scalar::{
    value_as_bool, value_as_bool_spec, value_as_fixed, value_as_fixed_spec, value_as_int,
    value_as_int_spec, ElemType, Value,
};
use crate::selection::Selection;

verus! {

/// The evaluator inputs at one voxel: every current field's value there
/// (dense scalars by lookup, selections by membership; room and coordinate
/// lists carry no per-voxel scalar and are skipped), in storage order,
/// starting from field `k`.
pub open spec fn field_entries_from(
    s: Seq<(String, GridElement)>,
    k: int,
    pos: (i64, i64, i64),
    x: int,
    y: int,
    z: int,
) -> Seq<(Seq<char>, Value)>
    decreases s.len() - k,
{
    if !(0 <= k < s.len()) {
        Seq::empty()
    } else {
        let rest = field_entries_from(s, k + 1, pos, x, y, z);
        match s[k].1 {
            GridElement::Int(d) => seq![(s[k].0@, Value::Int(d.at(x, y, z)))] + rest,
            GridElement::Float(d) => seq![(s[k].0@, Value::Float(d.at(x, y, z)))] + rest,
            GridElement::Sel(sel) => seq![(s[k].0@, Value::Bool(sel@.contains(pos)))] + rest,
            _ => rest,
        }
    }
}

/// What one expression evaluates to at one voxel, over all current fields.
pub open spec fn expr_cell<E: Evaluator>(
    ev: &E,
    expr: Seq<char>,
    s: Seq<(String, GridElement)>,
    x: int,
    y: int,
    z: int,
) -> Option<Value> {
    let pos = (x as i64, y as i64, z as i64);
    ev.eval_spec(expr, pos, field_entries_from(s, 0, pos, x, y, z))
}

/// The numeric reading of one evaluated voxel (`fl` = fixed-point), or
/// `None` on evaluation failure.
pub open spec fn expr_num_val<E: Evaluator>(
    ev: &E,
    expr: Seq<char>,
    s: Seq<(String, GridElement)>,
    x: int,
    y: int,
    z: int,
    fl: bool,
) -> Option<i64> {
    match expr_cell(ev, expr, s, x, y, z) {
        Some(v) => Some(
            if fl {
                value_as_fixed_spec(v)
            } else {
                value_as_int_spec(v)
            },
        ),
        None => None,
    }
}

/// The boolean reading of one evaluated voxel, or `None` on evaluation
/// failure.
pub open spec fn expr_bool_val<E: Evaluator>(
    ev: &E,
    expr: Seq<char>,
    s: Seq<(String, GridElement)>,
    x: int,
    y: int,
    z: int,
) -> Option<bool> {
    match expr_cell(ev, expr, s, x, y, z) {
        Some(v) => Some(value_as_bool_spec(v)),
        None => None,
    }
}


impl DataGrid {
    /// The evaluator context at one voxel.
    fn build_context(&self, x: usize, y: usize, z: usize) -> (r: EvalContext)
        requires
            self.wf(),
            self.in_grid(x as int, y as int, z as int),
        ensures
            r.position == (x as i64, y as i64, z as i64),
            entries_view(r.entries@) == field_entries_from(
                self.fields(),
                0,
                (x as i64, y as i64, z as i64),
                x as int,
                y as int,
                z as int,
            ),
    {
        proof {
            self.lemma_wf_facts();
        }
        let pos: (i64, i64, i64) = (x as i64, y as i64, z as i64);
        let ghost s = self.fields();
        let mut entries: Vec<(String, Value)> = Vec::new();
        let n = self.field_count();
        let mut i: usize = 0;
        while i < n
            invariant
                self.wf(),
                self.in_grid(x as int, y as int, z as int),
                s == self.fields(),
                n == s.len(),
                pos == (x as i64, y as i64, z as i64),
                i <= n,
                entries_view(entries@) + field_entries_from(
                    s,
                    i as int,
                    pos,
                    x as int,
                    y as int,
                    z as int,
                ) == field_entries_from(s, 0, pos, x as int, y as int, z as int),
            decreases n - i,
        {
            let ghost before = entries@;
            let pair = self.field_pair(i);
            proof {
                self.lemma_field_wf_at(i as int);
            }
            match &pair.1 {
                GridElement::Int(d) => {
                    let v = d.get(x, y, z);
                    entries.push((pair.0.clone(), Value::Int(v)));
                },
                GridElement::Float(d) => {
                    let v = d.get(x, y, z);
                    entries.push((pair.0.clone(), Value::Float(v)));
                },
                GridElement::Sel(sel) => {
                    let v = sel.contains(pos);
                    entries.push((pair.0.clone(), Value::Bool(v)));
                },
                _ => {},
            }
            proof {
                if entries@ != before {
                    assert(entries_view(entries@) =~= entries_view(before).push(
                        (entries@.last().0@, entries@.last().1),
                    ));
                }
                assert(entries_view(entries@) + field_entries_from(
                    s,
                    i + 1,
                    pos,
                    x as int,
                    y as int,
                    z as int,
                ) =~= field_entries_from(s, 0, pos, x as int, y as int, z as int));
            }
            i += 1;
        }
        proof {
            assert(field_entries_from(s, n as int, pos, x as int, y as int, z as int).len() == 0);
            assert(entries_view(entries@) =~= field_entries_from(
                s,
                0,
                pos,
                x as int,
                y as int,
                z as int,
            ));
        }
        EvalContext { position: pos, entries }
    }

    /// One dense field computed by evaluating `expr` at every voxel.
    fn expr_num<E: Evaluator>(&self, expr: &String, ev: &E, fl: bool) -> (r: Result<
        Dense,
        GenError,
    >)
        requires
            self.wf(),
        ensures
            match r {
                Ok(d) => {
                    &&& d.wf()
                    &&& d.dim() == self.spec_size()
                    &&& forall|x: int, y: int, z: int|
                        d.in_bounds(x, y, z) ==> expr_num_val(ev, expr@, self.fields(), x, y, z, fl)
                            == Some(#[trigger] d.at(x, y, z))
                },
                Err(e) => {
                    &&& e == GenError::Configuration
                    &&& exists|x: int, y: int, z: int|
                        self.in_grid(x, y, z) && (#[trigger] expr_num_val(
                            ev,
                            expr@,
                            self.fields(),
                            x,
                            y,
                            z,
                            fl,
                        )) is None
                },
            },
    {
        proof {
            self.lemma_wf_facts();
            crate::dense::lemma_dims_bounded(self.spec_size());
        }
        let sz = self.size();
        let (nx, ny, nz) = (sz.0, sz.1, sz.2);
        let mut out = Dense::new(nx, ny, nz);
        let mut x: usize = 0;
        while x < nx
            invariant
                self.wf(),
                out.wf(),
                out.dim() == self.spec_size(),
                (nx as int, ny as int, nz as int) == self.spec_size(),
                x <= nx,
                forall|a: int, b: int, c: int|
                    0 <= a < x && 0 <= b < ny && 0 <= c < nz ==> expr_num_val(
                        ev,
                        expr@,
                        self.fields(),
                        a,
                        b,
                        c,
                        fl,
                    ) == Some(#[trigger] out.at(a, b, c)),
            decreases nx - x,
        {
            let mut y: usize = 0;
            while y < ny
                invariant
                    self.wf(),
                    out.wf(),
                    out.dim() == self.spec_size(),
                    (nx as int, ny as int, nz as int) == self.spec_size(),
                    x < nx,
                    y <= ny,
                    forall|a: int, b: int, c: int|
                        0 <= a < x && 0 <= b < ny && 0 <= c < nz ==> expr_num_val(
                            ev,
                            expr@,
                            self.fields(),
                            a,
                            b,
                            c,
                            fl,
                        ) == Some(#[trigger] out.at(a, b, c)),
                    forall|b: int, c: int|
                        0 <= b < y && 0 <= c < nz ==> expr_num_val(
                            ev,
                            expr@,
                            self.fields(),
                            x as int,
                            b,
                            c,
                            fl,
                        ) == Some(#[trigger] out.at(x as int, b, c)),
                decreases ny - y,
            {
                let mut z: usize = 0;
                while z < nz
                    invariant
                        self.wf(),
                        out.wf(),
                        out.dim() == self.spec_size(),
                        (nx as int, ny as int, nz as int) == self.spec_size(),
                        x < nx,
                        y < ny,
                        z <= nz,
                        forall|a: int, b: int, c: int|
                            0 <= a < x && 0 <= b < ny && 0 <= c < nz ==> expr_num_val(
                                ev,
                                expr@,
                                self.fields(),
                                a,
                                b,
                                c,
                                fl,
                            ) == Some(#[trigger] out.at(a, b, c)),
                        forall|b: int, c: int|
                            0 <= b < y && 0 <= c < nz ==> expr_num_val(
                                ev,
                                expr@,
                                self.fields(),
                                x as int,
                                b,
                                c,
                                fl,
                            ) == Some(#[trigger] out.at(x as int, b, c)),
                        forall|c: int|
                            0 <= c < z ==> expr_num_val(
                                ev,
                                expr@,
                                self.fields(),
                                x as int,
                                y as int,
                                c,
                                fl,
                            ) == Some(#[trigger] out.at(x as int, y as int, c)),
                    decreases nz - z,
                {
                    let ctx = self.build_context(x, y, z);
                    match ev.eval(expr, &ctx) {
                        Some(v) => {
                            let w = if fl {
                                value_as_fixed(v)
                            } else {
                                value_as_int(v)
                            };
                            out.set(x, y, z, w);
                        },
                        None => {
                            proof {
                                assert((expr_num_val(
                                    ev,
                                    expr@,
                                    self.fields(),
                                    x as int,
                                    y as int,
                                    z as int,
                                    fl,
                                )) is None);
                            }
                            return Err(GenError::Configuration);
                        },
                    }
                    z += 1;
                }
                y += 1;
            }
            x += 1;
        }
        Ok(out)
    }

    /// One selection field computed by evaluating `expr` at every voxel and
    /// keeping the voxels where it reads true.
    fn expr_sel<E: Evaluator>(&self, expr: &String, ev: &E) -> (r: Result<Selection, GenError>)
        requires
            self.wf(),
        ensures
            match r {
                Ok(o) => {
                    &&& o.inv()
                    &&& forall|x: int, y: int, z: int|
                        self.in_grid(x, y, z) ==> #[trigger] expr_bool_val(
                            ev,
                            expr@,
                            self.fields(),
                            x,
                            y,
                            z,
                        ) == Some(o@.contains((x as i64, y as i64, z as i64)))
                    &&& forall|c: (i64, i64, i64)| #[trigger]
                        o@.contains(c) ==> self.in_grid(c.0 as int, c.1 as int, c.2 as int)
                },
                Err(e) => {
                    &&& e == GenError::Configuration
                    &&& exists|x: int, y: int, z: int|
                        self.in_grid(x, y, z) && (#[trigger] expr_bool_val(
                            ev,
                            expr@,
                            self.fields(),
                            x,
                            y,
                            z,
                        )) is None
                },
            },
    {
        proof {
            self.lemma_wf_facts();
            crate::dense::lemma_dims_bounded(self.spec_size());
        }
        let sz = self.size();
        let (nx, ny, nz) = (sz.0, sz.1, sz.2);
        let mut out = Selection::new();
        let mut x: usize = 0;
        while x < nx
            invariant
                self.wf(),
                out.inv(),
                (nx as int, ny as int, nz as int) == self.spec_size(),
                nx <= crate::dense::MAX_CELLS,
                ny <= crate::dense::MAX_CELLS,
                nz <= crate::dense::MAX_CELLS,
                x <= nx,
                forall|a: int, b: int, c: int|
                    0 <= a < x && 0 <= b < ny && 0 <= c < nz ==> #[trigger] expr_bool_val(
                        ev,
                        expr@,
                        self.fields(),
                        a,
                        b,
                        c,
                    ) == Some(out@.contains((a as i64, b as i64, c as i64))),
                forall|c: (i64, i64, i64)| #[trigger]
                    out@.contains(c) ==> 0 <= c.0 < x && 0 <= c.1 < ny && 0 <= c.2 < nz,
            decreases nx - x,
        {
            let mut y: usize = 0;
            while y < ny
                invariant
                    self.wf(),
                    out.inv(),
                    (nx as int, ny as int, nz as int) == self.spec_size(),
                    nx <= crate::dense::MAX_CELLS,
                    ny <= crate::dense::MAX_CELLS,
                    nz <= crate::dense::MAX_CELLS,
                    x < nx,
                    y <= ny,
                    forall|a: int, b: int, c: int|
                        0 <= a < x && 0 <= b < ny && 0 <= c < nz ==> #[trigger] expr_bool_val(
                            ev,
                            expr@,
                            self.fields(),
                            a,
                            b,
                            c,
                        ) == Some(out@.contains((a as i64, b as i64, c as i64))),
                    forall|b: int, c: int|
                        0 <= b < y && 0 <= c < nz ==> #[trigger] expr_bool_val(
                            ev,
                            expr@,
                            self.fields(),
                            x as int,
                            b,
                            c,
                        ) == Some(out@.contains((x as i64, b as i64, c as i64))),
                    forall|c: (i64, i64, i64)| #[trigger]
                        out@.contains(c) ==> ((0 <= c.0 < x || (c.0 == x as i64 && 0 <= c.1 < y))
                            && 0 <= c.1 < ny && 0 <= c.2 < nz && c.0 >= 0),
                decreases ny - y,
            {
                let mut z: usize = 0;
                while z < nz
                    invariant
                        self.wf(),
                        out.inv(),
                        (nx as int, ny as int, nz as int) == self.spec_size(),
                        nx <= crate::dense::MAX_CELLS,
                        ny <= crate::dense::MAX_CELLS,
                        nz <= crate::dense::MAX_CELLS,
                        x < nx,
                        y < ny,
                        z <= nz,
                        forall|a: int, b: int, c: int|
                            0 <= a < x && 0 <= b < ny && 0 <= c < nz ==> #[trigger] expr_bool_val(
                                ev,
                                expr@,
                                self.fields(),
                                a,
                                b,
                                c,
                            ) == Some(out@.contains((a as i64, b as i64, c as i64))),
                        forall|b: int, c: int|
                            0 <= b < y && 0 <= c < nz ==> #[trigger] expr_bool_val(
                                ev,
                                expr@,
                                self.fields(),
                                x as int,
                                b,
                                c,
                            ) == Some(out@.contains((x as i64, b as i64, c as i64))),
                        forall|c: int|
                            0 <= c < z ==> #[trigger] expr_bool_val(
                                ev,
                                expr@,
                                self.fields(),
                                x as int,
                                y as int,
                                c,
                            ) == Some(out@.contains((x as i64, y as i64, c as i64))),
                        forall|c: (i64, i64, i64)| #[trigger]
                            out@.contains(c) ==> ((0 <= c.0 < x || (c.0 == x as i64 && (0 <= c.1
                                < y || (c.1 == y as i64 && 0 <= c.2 < z)))) && 0 <= c.1 < ny && 0
                                <= c.2 < nz && c.0 >= 0),
                    decreases nz - z,
                {
                    let ctx = self.build_context(x, y, z);
                    match ev.eval(expr, &ctx) {
                        Some(v) => {
                            if value_as_bool(v) {
                                out.insert((x as i64, y as i64, z as i64));
                            }
                        },
                        None => {
                            proof {
                                assert((expr_bool_val(
                                    ev,
                                    expr@,
                                    self.fields(),
                                    x as int,
                                    y as int,
                                    z as int,
                                )) is None);
                            }
                            return Err(GenError::Configuration);
                        },
                    }
                    z += 1;
                }
                y += 1;
            }
            x += 1;
        }
        Ok(out)
    }

    /// Evaluates `expr` at every voxel — the context holding the position
    /// and all current field values there — and stores the results as a new
    /// field `name` of category `typ`.
    ///
    /// Fails with `Configuration` when an evaluation fails; the grid is
    /// then unchanged.
    pub fn parallel_expr<E: Evaluator>(
        &mut self,
        name: String,
        expr: &String,
        typ: &ElemType,
        ev: &E,
    ) -> (r: Result<(), GenError>)
        requires
            old(self).wf(),
        ensures
            final(self).wf(),
            final(self).spec_size() == old(self).spec_size(),
            match r {
                Ok(_) => {
                    &&& fields_overwrote(old(self).fields(), final(self).fields(), name@)
                    &&& match typ {
                        ElemType::Int => grid_get(final(self).fields(), name@) matches
                            GridElement::Int(d) && d.dim() == old(self).spec_size() && forall|
                            x: int,
                            y: int,
                            z: int,
                        |
                            d.in_bounds(x, y, z) ==> expr_num_val(
                                ev,
                                expr@,
                                old(self).fields(),
                                x,
                                y,
                                z,
                                false,
                            ) == Some(#[trigger] d.at(x, y, z)),
                        ElemType::Float => grid_get(final(self).fields(), name@) matches
                            GridElement::Float(d) && d.dim() == old(self).spec_size() && forall|
                            x: int,
                            y: int,
                            z: int,
                        |
                            d.in_bounds(x, y, z) ==> expr_num_val(
                                ev,
                                expr@,
                                old(self).fields(),
                                x,
                                y,
                                z,
                                true,
                            ) == Some(#[trigger] d.at(x, y, z)),
                        ElemType::Bool => grid_get(final(self).fields(), name@) matches
                            GridElement::Sel(o) && forall|x: int, y: int, z: int|
                            old(self).in_grid(x, y, z) ==> #[trigger] expr_bool_val(
                                ev,
                                expr@,
                                old(self).fields(),
                                x,
                                y,
                                z,
                            ) == Some(o@.contains((x as i64, y as i64, z as i64))),
                    }
                },
                Err(e) => {
                    &&& e == GenError::Configuration
                    &&& *final(self) == *old(self)
                    &&& exists|x: int, y: int, z: int|
                        old(self).in_grid(x, y, z) && (#[trigger] expr_cell(
                            ev,
                            expr@,
                            old(self).fields(),
                            x,
                            y,
                            z,
                        )) is None
                },
            },
    {
        match typ {
            ElemType::Int => {
                match self.expr_num(expr, ev, false) {
                    Ok(d) => {
                        self.set_field(name, GridElement::Int(d));
                        Ok(())
                    },
                    Err(e) => Err(e),
                }
            },
            ElemType::Float => {
                match self.expr_num(expr, ev, true) {
                    Ok(d) => {
                        self.set_field(name, GridElement::Float(d));
                        Ok(())
                    },
                    Err(e) => Err(e),
                }
            },
            ElemType::Bool => {
                match self.expr_sel(expr, ev) {
                    Ok(o) => {
                        self.set_field(name, GridElement::Sel(o));
                        Ok(())
                    },
                    Err(e) => Err(e),
                }
            },
        }
    }
}

} // verus!
