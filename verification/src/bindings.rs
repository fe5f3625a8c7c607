//! The binding generator and the semantics of the bindings it emits.
//!
//! The offline pass reads per-type metadata (declared operators, operand
//! passing modes, shapes) and emits one bridge method descriptor per declared
//! operator; whether an operand is taken by value or by reference is decided
//! here, from the operand's declared reference-ness in metadata, never by
//! inspecting a runtime value. The emitted methods are executed against
//! reflection references by `apply_binary` and `apply_unary`.

use vstd::prelude::*;
use vstd::wrapping::i64_specs;
use crate::error::{BridgeError, GenerationError};
use crate::reference::{ReflectReference, resolve, resolve_ref_spec, ReflectRoot};
use crate::value::{TypeShape, Value, val_eqv};
use crate::world::ScriptWorld;

verus! {

/// The closed set of operator kinds a host type can declare.
#[derive(Debug, Clone, Copy, PartialEq, Eq, Structural)]
pub enum OpName {
    Add,
    Sub,
    Eq,
    Neg,
    Index,
}

/// One declared operator in a type's metadata.
#[derive(Debug, Clone, Copy, PartialEq, Eq, Structural)]
pub struct OpDecl {
    /// Which operator is declared.
    pub op: OpName,
    /// Whether the non-receiver operand is declared as a reference; fixes the
    /// emitted passing mode at generation time.
    pub operand_by_ref: bool,
    /// Whether the result is a host value to be wrapped into a fresh
    /// owned-value reference (instead of a primitive passed through).
    pub returns_wrapped: bool,
    /// The declared operand shape, `None` when metadata could not map it to a
    /// known primitive or reflectable shape.
    pub operand_shape: Option<TypeShape>,
}

/// Per-type metadata handed to the generator.
#[derive(Debug)]
pub struct Newtype {
    /// The wrapped host type's name.
    pub wrapper_type: String,
}

/// A set of declared derive capabilities for one type.
#[derive(Debug)]
pub enum DeriveFlag {
    /// Unary operators to synthesize.
    UnaryOps { ops: Vec<OpDecl> },
    /// Binary operators to synthesize.
    BinOps { ops: Vec<OpDecl> },
}

/// One emitted bridge method: a script-facing metamethod forwarding to a
/// reflection operation.
#[derive(Debug)]
pub struct LuaMethod {
    /// The interpreter metamethod name the binding is registered under.
    pub metamethod: String,
    /// The operator the method forwards to.
    pub op: OpName,
    /// Whether the non-receiver operand is taken by reference.
    pub operand_by_ref: bool,
    /// Whether the result is wrapped into an owned-value reference.
    pub wraps_result: bool,
    /// The type the method was generated for.
    pub result_type: String,
}

/// The interpreter metamethod name for each operator.
pub open spec fn metamethod_of(op: OpName) -> Seq<char> {
    match op {
        OpName::Add => "__add"@,
        OpName::Sub => "__sub"@,
        OpName::Eq => "__eq"@,
        OpName::Neg => "__unm"@,
        OpName::Index => "__index"@,
    }
}

/// Executable form of `metamethod_of`.
pub fn metamethod_name(op: OpName) -> (r: &'static str)
    ensures
        r@ == metamethod_of(op),
{
    match op {
        OpName::Add => "__add",
        OpName::Sub => "__sub",
        OpName::Eq => "__eq",
        OpName::Neg => "__unm",
        OpName::Index => "__index",
    }
}

/// The emitted method correctly reflects one declared operator of the type.
pub open spec fn method_matches_decl(m: LuaMethod, d: OpDecl, wrapper_type: Seq<char>) -> bool {
    &&& m.metamethod@ == metamethod_of(d.op)
    &&& m.op == d.op
    &&& m.operand_by_ref == d.operand_by_ref
    &&& m.wraps_result == d.returns_wrapped
    &&& m.result_type@ == wrapper_type
}

/// Emits one bridge method per declared unary operator of the type. The
/// passing mode and wrapping of each method come from the declaration alone:
/// a generation-time decision, never a runtime one.
#[verifier::loop_isolation(false)]
pub fn make_unary_ops(flag: &DeriveFlag, new_type: &Newtype, out: &mut Vec<LuaMethod>)
    -> (r: Result<(), GenerationError>)
    requires
        old(out)@.len() < usize::MAX - 1000000,
        flag matches DeriveFlag::UnaryOps { .. },
    ensures
        ({
            let ops = flag->UnaryOps_ops;
            match r {
                Ok(()) => {
                    &&& final(out)@.len() == old(out)@.len() + ops@.len()
                    &&& forall|k: int| 0 <= k < old(out)@.len() ==> final(out)@[k] == old(out)@[k]
                    &&& forall|k: int| 0 <= k < ops@.len()
                        ==> method_matches_decl(
                            #[trigger] final(out)@[old(out)@.len() + k],
                            ops@[k],
                            new_type.wrapper_type@,
                        )
                },
                Err(e) => {
                    &&& final(out)@ == old(out)@
                    &&& e matches GenerationError::UnmappableShape { type_path }
                        && type_path@ == new_type.wrapper_type@
                    &&& exists|k: int| 0 <= k < ops@.len() && (#[trigger] ops@[k].operand_shape) is None
                },
            }
        }),
{
    let ops = match flag {
        DeriveFlag::UnaryOps { ops } => ops,
        DeriveFlag::BinOps { .. } => {
            proof {
                assert(false);
            }
            return Ok(());
        },
    };
    emit_ops(ops, new_type, out)
}

/// Emits one bridge method per declared binary operator of the type; the same
/// generation-time tie-break applies to the right-hand operand.
#[verifier::loop_isolation(false)]
pub fn make_binary_ops(flag: &DeriveFlag, new_type: &Newtype, out: &mut Vec<LuaMethod>)
    -> (r: Result<(), GenerationError>)
    requires
        old(out)@.len() < usize::MAX - 1000000,
        flag matches DeriveFlag::BinOps { .. },
    ensures
        ({
            let ops = flag->BinOps_ops;
            match r {
                Ok(()) => {
                    &&& final(out)@.len() == old(out)@.len() + ops@.len()
                    &&& forall|k: int| 0 <= k < old(out)@.len() ==> final(out)@[k] == old(out)@[k]
                    &&& forall|k: int| 0 <= k < ops@.len()
                        ==> method_matches_decl(
                            #[trigger] final(out)@[old(out)@.len() + k],
                            ops@[k],
                            new_type.wrapper_type@,
                        )
                },
                Err(e) => {
                    &&& final(out)@ == old(out)@
                    &&& e matches GenerationError::UnmappableShape { type_path }
                        && type_path@ == new_type.wrapper_type@
                    &&& exists|k: int| 0 <= k < ops@.len() && (#[trigger] ops@[k].operand_shape) is None
                },
            }
        }),
{
    let ops = match flag {
        DeriveFlag::BinOps { ops } => ops,
        DeriveFlag::UnaryOps { .. } => {
            proof {
                assert(false);
            }
            return Ok(());
        },
    };
    emit_ops(ops, new_type, out)
}

/// Shared generator body: validate every declaration's shape, then emit.
/// Aborts with a diagnostic — a build-time error, never a runtime one — when
/// a declared operand shape cannot be mapped.
#[verifier::loop_isolation(false)]
fn emit_ops(ops: &Vec<OpDecl>, new_type: &Newtype, out: &mut Vec<LuaMethod>)
    -> (r: Result<(), GenerationError>)
    requires
        old(out)@.len() < usize::MAX - 1000000,
    ensures
        match r {
            Ok(()) => {
                &&& final(out)@.len() == old(out)@.len() + ops@.len()
                &&& forall|k: int| 0 <= k < old(out)@.len() ==> final(out)@[k] == old(out)@[k]
                &&& forall|k: int| 0 <= k < ops@.len()
                    ==> method_matches_decl(
                        #[trigger] final(out)@[old(out)@.len() + k],
                        ops@[k],
                        new_type.wrapper_type@,
                    )
            },
            Err(e) => {
                &&& final(out)@ == old(out)@
                &&& e matches GenerationError::UnmappableShape { type_path }
                    && type_path@ == new_type.wrapper_type@
                &&& exists|k: int| 0 <= k < ops@.len() && (#[trigger] ops@[k].operand_shape) is None
            },
        },
{
    let n = ops.len();
    let mut i: usize = 0;
    while i < n
        invariant
            i <= n,
            forall|k: int| 0 <= k < i as int ==> (#[trigger] ops@[k].operand_shape) is Some,
        decreases n - i,
    {
        if ops[i].operand_shape.is_none() {
            return Err(GenerationError::UnmappableShape { type_path: new_type.wrapper_type.clone() });
        }
        i = i + 1;
    }
    let ghost base = out@.len() as int;
    let mut j: usize = 0;
    while j < n
        invariant
            j <= n,
            out@.len() == base + j as int,
            forall|k: int| 0 <= k < base ==> out@[k] == old(out)@[k],
            forall|k: int| 0 <= k < j as int
                ==> method_matches_decl(#[trigger] out@[base + k], ops@[k], new_type.wrapper_type@),
        decreases n - j,
    {
        let d = ops[j];
        out.push(LuaMethod {
            metamethod: metamethod_name(d.op).to_owned(),
            op: d.op,
            operand_by_ref: d.operand_by_ref,
            wraps_result: d.returns_wrapped,
            result_type: new_type.wrapper_type.clone(),
        });
        j = j + 1;
    }
    Ok(())
}

/// A dynamically typed value crossing the bridge between script and host:
/// a primitive passed through unwrapped, or a reflection reference.
#[derive(Debug)]
pub enum ScriptValue {
    Unit,
    Integer(i64),
    Boolean(bool),
    Text(String),
    Reference(ReflectReference),
}

/// Two values can be combined element-wise by an arithmetic operator: equal
/// structure of integers, matching field names position for position.
pub open spec fn addable(a: Value, b: Value) -> bool
    decreases a,
{
    match (a, b) {
        (Value::Int(_), Value::Int(_)) => true,
        (Value::Struct(xs), Value::Struct(ys)) => xs@.len() == ys@.len() && (forall|i: int|
            0 <= i < xs@.len() ==> xs@[i].0@ == ys@[i].0@ && addable(xs@[i].1, ys@[i].1)),
        (Value::List(xs), Value::List(ys)) => xs@.len() == ys@.len() && (forall|i: int|
            0 <= i < xs@.len() ==> addable(xs@[i], ys@[i])),
        _ => false,
    }
}

/// `r` is the element-wise wrapping sum (or difference) of `a` and `b`.
pub open spec fn is_value_binop(a: Value, b: Value, sub: bool, r: Value) -> bool
    decreases a,
{
    match (a, b) {
        (Value::Int(x), Value::Int(y)) => r == Value::Int(
            if sub {
                i64_specs::wrapping_sub(x, y)
            } else {
                i64_specs::wrapping_add(x, y)
            },
        ),
        (Value::Struct(xs), Value::Struct(ys)) => {
            &&& xs@.len() == ys@.len()
            &&& r matches Value::Struct(rs)
            &&& rs@.len() == xs@.len()
            &&& forall|i: int| 0 <= i < xs@.len()
                ==> (#[trigger] rs@[i]).0@ == xs@[i].0@ && is_value_binop(xs@[i].1, ys@[i].1, sub, rs@[i].1)
        },
        (Value::List(xs), Value::List(ys)) => {
            &&& xs@.len() == ys@.len()
            &&& r matches Value::List(rs)
            &&& rs@.len() == xs@.len()
            &&& forall|i: int| 0 <= i < xs@.len()
                ==> is_value_binop(xs@[i], ys@[i], sub, #[trigger] rs@[i])
        },
        _ => false,
    }
}

/// Element-wise wrapping addition or subtraction of two value trees; fails
/// with a type mismatch exactly when the trees' shapes do not line up as
/// integers.
#[verifier::loop_isolation(false)]
pub fn value_binop(a: &Value, b: &Value, sub: bool) -> (r: Result<Value, BridgeError>)
    ensures
        r matches Ok(v) ==> addable(*a, *b) && is_value_binop(*a, *b, sub, v),
        r is Err ==> !addable(*a, *b) && r == Err::<Value, BridgeError>(BridgeError::TypeMismatch),
    decreases a,
{
    match (a, b) {
        (Value::Int(x), Value::Int(y)) => Ok(Value::Int(
            if sub {
                (*x).wrapping_sub(*y)
            } else {
                (*x).wrapping_add(*y)
            },
        )),
        (Value::Struct(xs), Value::Struct(ys)) => {
            if xs.len() != ys.len() {
                return Err(BridgeError::TypeMismatch);
            }
            let mut out: Vec<(String, Value)> = Vec::new();
            let mut i: usize = 0;
            while i < xs.len()
                invariant
                    i <= xs.len(),
                    out@.len() == i as int,
                    forall|k: int| #![trigger xs@[k]] 0 <= k < i as int
                        ==> out@[k].0@ == xs@[k].0@ && xs@[k].0@ == ys@[k].0@
                            && addable(xs@[k].1, ys@[k].1)
                            && is_value_binop(xs@[k].1, ys@[k].1, sub, out@[k].1),
                decreases xs.len() - i,
            {
                if !(xs[i].0 == ys[i].0) {
                    assert(!addable(*a, *b));
                    return Err(BridgeError::TypeMismatch);
                }
                proof {
                    assert(decreases_to!(a => xs));
                    assert(decreases_to!(xs => xs@));
                    assert(decreases_to!(xs@ => xs@[i as int]));
                    assert(decreases_to!(xs@[i as int] => xs@[i as int].1));
                }
                match value_binop(&xs[i].1, &ys[i].1, sub) {
                    Ok(v) => {
                        out.push((xs[i].0.clone(), v));
                    },
                    Err(e) => {
                        assert(!addable(*a, *b));
                        return Err(e);
                    },
                }
                i = i + 1;
            }
            assert(addable(*a, *b));
            assert(is_value_binop(*a, *b, sub, Value::Struct(out)));
            Ok(Value::Struct(out))
        },
        (Value::List(xs), Value::List(ys)) => {
            if xs.len() != ys.len() {
                return Err(BridgeError::TypeMismatch);
            }
            let mut out: Vec<Value> = Vec::new();
            let mut i: usize = 0;
            while i < xs.len()
                invariant
                    i <= xs.len(),
                    out@.len() == i as int,
                    forall|k: int| #![trigger xs@[k]] 0 <= k < i as int
                        ==> addable(xs@[k], ys@[k])
                            && is_value_binop(xs@[k], ys@[k], sub, out@[k]),
                decreases xs.len() - i,
            {
                proof {
                    assert(decreases_to!(a => xs));
                    assert(decreases_to!(xs => xs@));
                    assert(decreases_to!(xs@ => xs@[i as int]));
                }
                match value_binop(&xs[i], &ys[i], sub) {
                    Ok(v) => {
                        out.push(v);
                    },
                    Err(e) => {
                        assert(!addable(*a, *b));
                        return Err(e);
                    },
                }
                i = i + 1;
            }
            assert(addable(*a, *b));
            assert(is_value_binop(*a, *b, sub, Value::List(out)));
            Ok(Value::List(out))
        },
        _ => Err(BridgeError::TypeMismatch),
    }
}

/// A value can be negated element-wise: an integer, or a structure of
/// negatable elements.
pub open spec fn negatable(a: Value) -> bool
    decreases a,
{
    match a {
        Value::Int(_) => true,
        Value::Struct(xs) => forall|i: int| 0 <= i < xs@.len() ==> negatable((#[trigger] xs@[i]).1),
        Value::List(xs) => forall|i: int| 0 <= i < xs@.len() ==> negatable(#[trigger] xs@[i]),
        _ => false,
    }
}

/// `r` is the element-wise wrapping negation of `a`.
pub open spec fn is_value_neg(a: Value, r: Value) -> bool
    decreases a,
{
    match a {
        Value::Int(x) => r == Value::Int(i64_specs::wrapping_sub(0, x)),
        Value::Struct(xs) => {
            &&& r matches Value::Struct(rs)
            &&& rs@.len() == xs@.len()
            &&& forall|i: int| #![trigger xs@[i]] 0 <= i < xs@.len()
                ==> rs@[i].0@ == xs@[i].0@ && is_value_neg(xs@[i].1, rs@[i].1)
        },
        Value::List(xs) => {
            &&& r matches Value::List(rl)
            &&& rl@.len() == xs@.len()
            &&& forall|i: int| #![trigger xs@[i]] 0 <= i < xs@.len()
                ==> is_value_neg(xs@[i], rl@[i])
        },
        _ => false,
    }
}

/// Element-wise wrapping negation of a value tree; a type mismatch exactly
/// when the tree is not a structure of integers.
#[verifier::loop_isolation(false)]
pub fn value_neg(a: &Value) -> (r: Result<Value, BridgeError>)
    ensures
        r matches Ok(v) ==> negatable(*a) && is_value_neg(*a, v),
        r is Err ==> !negatable(*a) && r == Err::<Value, BridgeError>(BridgeError::TypeMismatch),
    decreases a,
{
    match a {
        Value::Int(x) => Ok(Value::Int(0i64.wrapping_sub(*x))),
        Value::Struct(xs) => {
            let mut out: Vec<(String, Value)> = Vec::new();
            let mut i: usize = 0;
            while i < xs.len()
                invariant
                    i <= xs.len(),
                    out@.len() == i as int,
                    forall|k: int| #![trigger xs@[k]] 0 <= k < i as int
                        ==> out@[k].0@ == xs@[k].0@ && negatable(xs@[k].1)
                            && is_value_neg(xs@[k].1, out@[k].1),
                decreases xs.len() - i,
            {
                proof {
                    assert(decreases_to!(a => xs));
                    assert(decreases_to!(xs => xs@));
                    assert(decreases_to!(xs@ => xs@[i as int]));
                    assert(decreases_to!(xs@[i as int] => xs@[i as int].1));
                }
                match value_neg(&xs[i].1) {
                    Ok(v) => {
                        out.push((xs[i].0.clone(), v));
                    },
                    Err(e) => {
                        assert(!negatable(*a));
                        return Err(e);
                    },
                }
                i = i + 1;
            }
            assert(negatable(*a));
            assert(is_value_neg(*a, Value::Struct(out)));
            Ok(Value::Struct(out))
        },
        Value::List(xs) => {
            let mut out: Vec<Value> = Vec::new();
            let mut i: usize = 0;
            while i < xs.len()
                invariant
                    i <= xs.len(),
                    out@.len() == i as int,
                    forall|k: int| #![trigger xs@[k]] 0 <= k < i as int
                        ==> negatable(xs@[k]) && is_value_neg(xs@[k], out@[k]),
                decreases xs.len() - i,
            {
                proof {
                    assert(decreases_to!(a => xs));
                    assert(decreases_to!(xs => xs@));
                    assert(decreases_to!(xs@ => xs@[i as int]));
                }
                match value_neg(&xs[i]) {
                    Ok(v) => {
                        out.push(v);
                    },
                    Err(e) => {
                        assert(!negatable(*a));
                        return Err(e);
                    },
                }
                i = i + 1;
            }
            assert(negatable(*a));
            assert(is_value_neg(*a, Value::List(out)));
            Ok(Value::List(out))
        },
        _ => Err(BridgeError::TypeMismatch),
    }
}

/// A generated unary forwarder applied at runtime: resolve the operand,
/// negate it element-wise, and wrap the result as the declaration asked.
pub fn apply_unary(world: &mut ScriptWorld, method: &LuaMethod, operand: &ReflectReference)
    -> (r: Result<ScriptValue, BridgeError>)
    requires
        method.op == OpName::Neg,
    ensures
        ({
            match resolve_ref_spec(*old(world), *operand) {
                Err(e) => r == Err::<ScriptValue, BridgeError>(e) && *final(world) == *old(world),
                Ok(a) => {
                    if negatable(a) {
                        r matches Ok(sv) && exists|v: Value| is_value_neg(a, v)
                            && #[trigger] wrapped_result(*old(world), *final(world), v, sv)
                    } else {
                        r == Err::<ScriptValue, BridgeError>(BridgeError::TypeMismatch)
                            && *final(world) == *old(world)
                    }
                },
            }
        }),
{
    let v: Value;
    {
        let a_ref = match resolve(operand, world) {
            Ok(v) => v,
            Err(e) => {
                return Err(e);
            },
        };
        match value_neg(a_ref) {
            Ok(nv) => {
                v = nv;
            },
            Err(e) => {
                return Err(e);
            },
        }
    }
    Ok(wrap_result(world, v))
}

/// Deep equality test of two value trees, by `val_eqv`.
#[verifier::loop_isolation(false)]
pub fn value_eq(a: &Value, b: &Value) -> (r: bool)
    ensures
        r == val_eqv(*a, *b),
    decreases a,
{
    match (a, b) {
        (Value::Unit, Value::Unit) => true,
        (Value::Int(x), Value::Int(y)) => *x == *y,
        (Value::Bool(x), Value::Bool(y)) => *x == *y,
        (Value::Str(x), Value::Str(y)) => *x == *y,
        (Value::Struct(xs), Value::Struct(ys)) => {
            if xs.len() != ys.len() {
                return false;
            }
            let mut i: usize = 0;
            while i < xs.len()
                invariant
                    i <= xs.len(),
                    forall|k: int| #![trigger xs@[k]] 0 <= k < i as int
                        ==> xs@[k].0@ == ys@[k].0@ && val_eqv(xs@[k].1, ys@[k].1),
                decreases xs.len() - i,
            {
                proof {
                    assert(decreases_to!(a => xs));
                    assert(decreases_to!(xs => xs@));
                    assert(decreases_to!(xs@ => xs@[i as int]));
                    assert(decreases_to!(xs@[i as int] => xs@[i as int].1));
                }
                if !(xs[i].0 == ys[i].0) || !value_eq(&xs[i].1, &ys[i].1) {
                    assert(!val_eqv(*a, *b));
                    return false;
                }
                i = i + 1;
            }
            assert(val_eqv(*a, *b));
            true
        },
        (Value::List(xs), Value::List(ys)) => {
            if xs.len() != ys.len() {
                return false;
            }
            let mut i: usize = 0;
            while i < xs.len()
                invariant
                    i <= xs.len(),
                    forall|k: int| #![trigger xs@[k]] 0 <= k < i as int ==> val_eqv(xs@[k], ys@[k]),
                decreases xs.len() - i,
            {
                proof {
                    assert(decreases_to!(a => xs));
                    assert(decreases_to!(xs => xs@));
                    assert(decreases_to!(xs@ => xs@[i as int]));
                }
                if !value_eq(&xs[i], &ys[i]) {
                    assert(!val_eqv(*a, *b));
                    return false;
                }
                i = i + 1;
            }
            assert(val_eqv(*a, *b));
            true
        },
        (Value::Dict(xs), Value::Dict(ys)) => {
            if xs.len() != ys.len() {
                return false;
            }
            let mut i: usize = 0;
            while i < xs.len()
                invariant
                    i <= xs.len(),
                    forall|k: int| #![trigger xs@[k]] 0 <= k < i as int
                        ==> xs@[k].0 == ys@[k].0 && val_eqv(xs@[k].1, ys@[k].1),
                decreases xs.len() - i,
            {
                proof {
                    assert(decreases_to!(a => xs));
                    assert(decreases_to!(xs => xs@));
                    assert(decreases_to!(xs@ => xs@[i as int]));
                    assert(decreases_to!(xs@[i as int] => xs@[i as int].1));
                }
                if xs[i].0 != ys[i].0 || !value_eq(&xs[i].1, &ys[i].1) {
                    assert(!val_eqv(*a, *b));
                    return false;
                }
                i = i + 1;
            }
            assert(val_eqv(*a, *b));
            true
        },
        (Value::Enum(xv, xs), Value::Enum(yv, ys)) => {
            if !(*xv == *yv) || xs.len() != ys.len() {
                return false;
            }
            let mut i: usize = 0;
            while i < xs.len()
                invariant
                    i <= xs.len(),
                    forall|k: int| #![trigger xs@[k]] 0 <= k < i as int ==> val_eqv(xs@[k], ys@[k]),
                decreases xs.len() - i,
            {
                proof {
                    assert(decreases_to!(a => xs));
                    assert(decreases_to!(xs => xs@));
                    assert(decreases_to!(xs@ => xs@[i as int]));
                }
                if !value_eq(&xs[i], &ys[i]) {
                    assert(!val_eqv(*a, *b));
                    return false;
                }
                i = i + 1;
            }
            assert(val_eqv(*a, *b));
            true
        },
        _ => {
            assert(!val_eqv(*a, *b));
            false
        },
    }
}

/// How a computed host value crosses back to script code: primitives pass
/// through unwrapped; a reflectable value is moved into the owned-value arena
/// and handed back as a fresh owned-value-rooted reference.
pub open spec fn wrapped_result(w0: ScriptWorld, w1: ScriptWorld, v: Value, sv: ScriptValue) -> bool {
    match v {
        Value::Unit => sv == ScriptValue::Unit && w1 == w0,
        Value::Int(x) => sv == ScriptValue::Integer(x) && w1 == w0,
        Value::Bool(x) => sv == ScriptValue::Boolean(x) && w1 == w0,
        Value::Str(s) => sv == ScriptValue::Text(s) && w1 == w0,
        _ => {
            &&& w1.owned@ == w0.owned@.push(v)
            &&& w1.entities@ == w0.entities@
            &&& w1.resources@ == w0.resources@
            &&& w1.registry == w0.registry
            &&& w1.next_id == w0.next_id
            &&& sv matches ScriptValue::Reference(rr)
            &&& rr.root == (ReflectRoot::Owned { id: w0.owned@.len() as usize })
            &&& rr.path@.len() == 0
        },
    }
}

/// Passes a computed value back to script code, wrapping reflectable values
/// into the owned-value arena.
pub fn wrap_result(world: &mut ScriptWorld, v: Value) -> (sv: ScriptValue)
    ensures
        wrapped_result(*old(world), *final(world), v, sv),
{
    match v {
        Value::Unit => ScriptValue::Unit,
        Value::Int(x) => ScriptValue::Integer(x),
        Value::Bool(x) => ScriptValue::Boolean(x),
        Value::Str(s) => ScriptValue::Text(s),
        other => ScriptValue::Reference(world.new_owned(other)),
    }
}

/// What a binary forwarder sees of its right-hand operand: a primitive turned
/// into its host value, or a reference resolved against the world.
pub open spec fn rhs_value_spec(w: ScriptWorld, sv: ScriptValue) -> Result<Value, BridgeError> {
    match sv {
        ScriptValue::Unit => Ok(Value::Unit),
        ScriptValue::Integer(x) => Ok(Value::Int(x)),
        ScriptValue::Boolean(x) => Ok(Value::Bool(x)),
        ScriptValue::Text(s) => Ok(Value::Str(s)),
        ScriptValue::Reference(rr) => resolve_ref_spec(w, rr),
    }
}

/// A generated binary forwarder applied at runtime: resolve the receiver,
/// resolve or unwrap the right-hand operand, perform the operation, and wrap
/// the result. Equality compares by deep equivalence and never mutates the
/// world; addition and subtraction produce a fresh value, wrapped into an
/// owned-value reference when it is reflectable.
pub fn apply_binary(world: &mut ScriptWorld, method: &LuaMethod, lhs: &ReflectReference, rhs: &ScriptValue)
    -> (r: Result<ScriptValue, BridgeError>)
    requires
        method.op == OpName::Add || method.op == OpName::Sub || method.op == OpName::Eq,
    ensures
        ({
            match resolve_ref_spec(*old(world), *lhs) {
                Err(e) => r == Err::<ScriptValue, BridgeError>(e) && *final(world) == *old(world),
                Ok(a) => match rhs_value_spec(*old(world), *rhs) {
                    Err(e) => r == Err::<ScriptValue, BridgeError>(e) && *final(world) == *old(world),
                    Ok(b) => {
                        if method.op == OpName::Eq {
                            r == Ok::<ScriptValue, BridgeError>(ScriptValue::Boolean(val_eqv(a, b)))
                                && *final(world) == *old(world)
                        } else if addable(a, b) {
                            r matches Ok(sv) && exists|v: Value|
                                is_value_binop(a, b, method.op == OpName::Sub, v)
                                    && #[trigger] wrapped_result(*old(world), *final(world), v, sv)
                        } else {
                            r == Err::<ScriptValue, BridgeError>(BridgeError::TypeMismatch)
                                && *final(world) == *old(world)
                        }
                    },
                },
            }
        }),
{
    let a_val: Value;
    {
        let a_ref = match resolve(lhs, world) {
            Ok(v) => v,
            Err(e) => {
                return Err(e);
            },
        };
        match rhs {
            ScriptValue::Unit => {
                if matches!(method.op, OpName::Eq) {
                    return Ok(ScriptValue::Boolean(value_eq(a_ref, &Value::Unit)));
                }
                assert(!addable(resolve_ref_spec(*old(world), *lhs)->Ok_0, Value::Unit));
                return Err(BridgeError::TypeMismatch);
            },
            ScriptValue::Boolean(x) => {
                if matches!(method.op, OpName::Eq) {
                    return Ok(ScriptValue::Boolean(value_eq(a_ref, &Value::Bool(*x))));
                }
                assert(!addable(resolve_ref_spec(*old(world), *lhs)->Ok_0, Value::Bool(*x)));
                return Err(BridgeError::TypeMismatch);
            },
            ScriptValue::Text(s) => {
                if matches!(method.op, OpName::Eq) {
                    let same = match a_ref {
                        Value::Str(av) => *av == *s,
                        _ => {
                            assert(!val_eqv(resolve_ref_spec(*old(world), *lhs)->Ok_0, Value::Str(*s)));
                            false
                        },
                    };
                    return Ok(ScriptValue::Boolean(same));
                }
                assert(!addable(resolve_ref_spec(*old(world), *lhs)->Ok_0, Value::Str(*s)));
                return Err(BridgeError::TypeMismatch);
            },
            ScriptValue::Integer(x) => {
                let bv = Value::Int(*x);
                if matches!(method.op, OpName::Eq) {
                    return Ok(ScriptValue::Boolean(value_eq(a_ref, &bv)));
                }
                match value_binop(a_ref, &bv, matches!(method.op, OpName::Sub)) {
                    Ok(v) => {
                        a_val = v;
                    },
                    Err(e) => {
                        return Err(e);
                    },
                }
            },
            ScriptValue::Reference(rr) => {
                let b_ref = match resolve(rr, world) {
                    Ok(v) => v,
                    Err(e) => {
                        return Err(e);
                    },
                };
                if matches!(method.op, OpName::Eq) {
                    return Ok(ScriptValue::Boolean(value_eq(a_ref, b_ref)));
                }
                match value_binop(a_ref, b_ref, matches!(method.op, OpName::Sub)) {
                    Ok(v) => {
                        a_val = v;
                    },
                    Err(e) => {
                        return Err(e);
                    },
                }
            },
        }
    }
    Ok(wrap_result(world, a_val))
}

} // verus!
