use vstd::prelude::*;

use crate::scalar::Value;

verus! {

/// The inputs handed to the expression evaluator for one evaluation: the
/// voxel being computed and a fixed, ordered set of named scalars.
pub struct EvalContext {
    pub position: (i64, i64, i64),
    pub entries: Vec<(String, Value)>,
}

/// The entry list as the evaluator's specification sees it: names as
/// character sequences.
pub open spec fn entries_view(s: Seq<(String, Value)>) -> Seq<(Seq<char>, Value)> {
    s.map_values(|p: (String, Value)| (p.0@, p.1))
}

/// The first entry named `name`, if any.
pub open spec fn ctx_lookup(s: Seq<(Seq<char>, Value)>, name: Seq<char>) -> Option<Value>
    decreases s.len(),
{
    if s.len() == 0 {
        None
    } else if s[0].0 == name {
        Some(s[0].1)
    } else {
        ctx_lookup(s.drop_first(), name)
    }
}

/// The value of the first entry named `name` in the context, if any.
pub fn ctx_get(ctx: &EvalContext, name: &String) -> (r: Option<Value>)
    ensures
        r == ctx_lookup(entries_view(ctx.entries@), name@),
{
    let ghost m = entries_view(ctx.entries@);
    let n = ctx.entries.len();
    proof {
        assert(m.skip(0) =~= m);
    }
    let mut i: usize = 0;
    while i < n
        invariant
            i <= n,
            n == ctx.entries@.len(),
            m == entries_view(ctx.entries@),
            m.len() == n,
            ctx_lookup(m, name@) == ctx_lookup(m.skip(i as int), name@),
        decreases n - i,
    {
        proof {
            assert(m[i as int] == (ctx.entries@[i as int].0@, ctx.entries@[i as int].1));
            assert(m.skip(i as int)[0] == m[i as int]);
        }
        if ctx.entries[i].0.eq(name) {
            return Some(ctx.entries[i].1);
        }
        proof {
            assert(m.skip(i as int).drop_first() =~= m.skip(i + 1));
        }
        i += 1;
    }
    proof {
        assert(m.skip(n as int).len() == 0);
    }
    None
}

/// The injected expression evaluator.
///
/// An implementation must be a pure function of the expression and the
/// context — `eval_spec` names that function, and `eval` is required to
/// return exactly it.  `None` is an evaluation failure and aborts the
/// owning command.
pub trait Evaluator {
    spec fn eval_spec(
        &self,
        expr: Seq<char>,
        pos: (i64, i64, i64),
        entries: Seq<(Seq<char>, Value)>,
    ) -> Option<Value>;

    fn eval(&self, expr: &String, ctx: &EvalContext) -> (r: Option<Value>)
        ensures
            r == self.eval_spec(expr@, ctx.position, entries_view(ctx.entries@)),
    ;
}

/// The injected noise collaborator: a deterministic function of seed and
/// coordinate, yielding a fixed-point raw value.
pub trait NoiseField {
    spec fn noise_spec(&self, seed: i64, x: int, y: int, z: int) -> i64;

    fn sample(&self, seed: i64, x: usize, y: usize, z: usize) -> (r: i64)
        ensures
            r == self.noise_spec(seed, x as int, y as int, z as int),
    ;
}

/// A small deterministic lattice noise: a bit-mixing hash of the seed and
/// the coordinate, usable wherever a reproducible stand-in field is wanted.
pub open spec fn hash_noise_spec(seed: i64, x: int, y: int, z: int) -> i64 {
    seed.wrapping_mul(0x9E3779B97F4A7C15u64 as i64).wrapping_add(
        (x as i64).wrapping_mul(0x1000193),
    ).wrapping_add((y as i64).wrapping_mul(0x10001A7)).wrapping_add(
        (z as i64).wrapping_mul(0x10001B3),
    )
}

/// The built-in noise collaborator, for hosts that inject none of their
/// own.
pub struct SimpleNoise {}

impl NoiseField for SimpleNoise {
    open spec fn noise_spec(&self, seed: i64, x: int, y: int, z: int) -> i64 {
        hash_noise_spec(seed, x, y, z)
    }

    fn sample(&self, seed: i64, x: usize, y: usize, z: usize) -> (r: i64) {
        seed.wrapping_mul(0x9E3779B97F4A7C15u64 as i64).wrapping_add(
            (x as i64).wrapping_mul(0x1000193),
        ).wrapping_add((y as i64).wrapping_mul(0x10001A7)).wrapping_add(
            (z as i64).wrapping_mul(0x10001B3),
        )
    }
}

/// What the built-in evaluator computes for an expression.
///
/// The vocabulary is deliberately small: the voxel position's components,
/// the default accumulation forms, and bare references to a context entry.
/// Anything richer is a host-supplied `Evaluator`.
pub open spec fn builtin_eval_spec(
    expr: Seq<char>,
    pos: (i64, i64, i64),
    entries: Seq<(Seq<char>, Value)>,
) -> Option<Value> {
    if expr == "position.x"@ {
        Some(Value::Int(pos.0))
    } else if expr == "position.y"@ {
        Some(Value::Int(pos.1))
    } else if expr == "position.z"@ {
        Some(Value::Int(pos.2))
    } else if expr == "acc + this"@ {
        match (ctx_lookup(entries, "acc"@), ctx_lookup(entries, "this"@)) {
            (Some(Value::Int(a)), Some(Value::Int(b))) => Some(Value::Int(a.wrapping_add(b))),
            (Some(Value::Float(a)), Some(Value::Float(b))) => Some(
                Value::Float(a.wrapping_add(b)),
            ),
            _ => None,
        }
    } else if expr == "acc || this"@ {
        match (ctx_lookup(entries, "acc"@), ctx_lookup(entries, "this"@)) {
            (Some(Value::Bool(a)), Some(Value::Bool(b))) => Some(Value::Bool(a || b)),
            _ => None,
        }
    } else {
        ctx_lookup(entries, expr)
    }
}

/// The built-in expression evaluator: covers the common special cases so a
/// pipeline can run without a host interpreter.
pub struct BuiltinEval {}

impl Evaluator for BuiltinEval {
    open spec fn eval_spec(
        &self,
        expr: Seq<char>,
        pos: (i64, i64, i64),
        entries: Seq<(Seq<char>, Value)>,
    ) -> Option<Value> {
        builtin_eval_spec(expr, pos, entries)
    }

    fn eval(&self, expr: &String, ctx: &EvalContext) -> (r: Option<Value>) {
        if expr.eq(&"position.x".to_owned()) {
            Some(Value::Int(ctx.position.0))
        } else if expr.eq(&"position.y".to_owned()) {
            Some(Value::Int(ctx.position.1))
        } else if expr.eq(&"position.z".to_owned()) {
            Some(Value::Int(ctx.position.2))
        } else if expr.eq(&"acc + this".to_owned()) {
            let a = ctx_get(ctx, &"acc".to_owned());
            let b = ctx_get(ctx, &"this".to_owned());
            match (a, b) {
                (Some(Value::Int(a)), Some(Value::Int(b))) => Some(
                    Value::Int(a.wrapping_add(b)),
                ),
                (Some(Value::Float(a)), Some(Value::Float(b))) => Some(
                    Value::Float(a.wrapping_add(b)),
                ),
                _ => None,
            }
        } else if expr.eq(&"acc || this".to_owned()) {
            let a = ctx_get(ctx, &"acc".to_owned());
            let b = ctx_get(ctx, &"this".to_owned());
            match (a, b) {
                (Some(Value::Bool(a)), Some(Value::Bool(b))) => Some(Value::Bool(a || b)),
                _ => None,
            }
        } else {
            ctx_get(ctx, expr)
        }
    }
}

} // verus!
