use vstd::prelude::*;

verus! {

/// Scale of the fixed-point representation used for "float" scalars.
///
/// A real number `x` is carried as the integer `x * FIX_SCALE`, truncated.
/// Hosts convert between native floating point and this representation at
/// the library boundary; inside the library every computation is exact
/// integer arithmetic, which keeps generation deterministic across machines.
pub const FIX_SCALE: i64 = 8192;

/// The category of a grid field a command writes.
#[derive(Clone, Copy, Debug, PartialEq, Eq, Structural)]
pub enum ElemType {
    Int,
    Float,
    Bool,
}

/// One scalar value, as exchanged with the expression evaluator and the
/// noise collaborator.  `Float` carries a fixed-point raw value scaled by
/// [`FIX_SCALE`].
#[derive(Clone, Copy, Debug, PartialEq, Eq, Structural)]
pub enum Value {
    Int(i64),
    Float(i64),
    Bool(bool),
}

/// Integer reading of a scalar: exact for `Int`, truncated toward zero for
/// `Float`, 1/0 for `Bool`.
pub open spec fn value_as_int_spec(v: Value) -> i64 {
    match v {
        Value::Int(i) => i,
        Value::Float(raw) => fixed_trunc_spec(raw),
        Value::Bool(b) => if b { 1 } else { 0 },
    }
}

/// Fixed-point reading of a scalar: exact for `Float`, widened for `Int`
/// (saturating at the representation's limits), full/zero scale for `Bool`.
pub open spec fn value_as_fixed_spec(v: Value) -> i64 {
    match v {
        Value::Int(i) => int_to_fixed_spec(i),
        Value::Float(raw) => raw,
        Value::Bool(b) => if b { FIX_SCALE } else { 0 },
    }
}

/// Boolean reading of a scalar: exact for `Bool`, "strictly positive" for
/// the numeric categories.
pub open spec fn value_as_bool_spec(v: Value) -> bool {
    match v {
        Value::Int(i) => i > 0,
        Value::Float(raw) => raw > 0,
        Value::Bool(b) => b,
    }
}

/// Quotient truncated toward zero, for a positive divisor.
pub open spec fn div_trunc(x: int, d: int) -> int {
    if x >= 0 {
        x / d
    } else {
        -((-x) / d)
    }
}

/// Integer part of a fixed-point value, truncated toward zero.
pub open spec fn fixed_trunc_spec(raw: i64) -> i64 {
    div_trunc(raw as int, FIX_SCALE as int) as i64
}

/// An integer widened to fixed point, saturating on overflow.
pub open spec fn int_to_fixed_spec(i: i64) -> i64 {
    if i * FIX_SCALE > i64::MAX {
        i64::MAX
    } else if i * FIX_SCALE < i64::MIN {
        i64::MIN
    } else {
        (i * FIX_SCALE) as i64
    }
}

pub fn value_as_int(v: Value) -> (r: i64)
    ensures
        r == value_as_int_spec(v),
{
    match v {
        Value::Int(i) => i,
        Value::Float(raw) => fixed_trunc(raw),
        Value::Bool(b) => if b { 1 } else { 0 },
    }
}

/// Integer part of a fixed-point value, truncated toward zero.
pub fn fixed_trunc(raw: i64) -> (r: i64)
    ensures
        r == fixed_trunc_spec(raw),
{
    match raw.checked_div(FIX_SCALE) {
        Some(q) => q,
        None => 0,
    }
}

pub fn value_as_fixed(v: Value) -> (r: i64)
    ensures
        r == value_as_fixed_spec(v),
{
    match v {
        Value::Int(i) => int_to_fixed(i),
        Value::Float(raw) => raw,
        Value::Bool(b) => if b { FIX_SCALE } else { 0 },
    }
}

pub fn value_as_bool(v: Value) -> (r: bool)
    ensures
        r == value_as_bool_spec(v),
{
    match v {
        Value::Int(i) => i > 0,
        Value::Float(raw) => raw > 0,
        Value::Bool(b) => b,
    }
}

pub fn int_to_fixed(i: i64) -> (r: i64)
    ensures
        r == int_to_fixed_spec(i),
{
    match i.checked_mul(FIX_SCALE) {
        Some(r) => r,
        None => {
            if i > 0 {
                i64::MAX
            } else {
                i64::MIN
            }
        },
    }
}

} // verus!
