//! The type-erased value tree that the bridge navigates.
//!
//! A `Value` stands for one host value reachable through reflection: a
//! primitive, a struct with named fields, a list, a map keyed by integers, or
//! an enum variant with a payload. Reflection references address into this
//! tree with `AccessStep`s.

use vstd::prelude::*;
use crate::error::BridgeError;

verus! {

/// A type-erased view of one reflected host value.
#[derive(Debug, PartialEq, Eq)]
pub enum Value {
    /// The unit value.
    Unit,
    /// An integer primitive.
    Int(i64),
    /// A boolean primitive.
    Bool(bool),
    /// A string primitive.
    Str(String),
    /// A struct: named fields in declaration order.
    Struct(Vec<(String, Value)>),
    /// A list, array or tuple: elements in order.
    List(Vec<Value>),
    /// A map from integer keys to values, in insertion order.
    Dict(Vec<(i64, Value)>),
    /// An enum value: active variant name and its payload fields.
    Enum(String, Vec<Value>),
}

/// One step of a reflection path.
#[derive(Debug, Clone, PartialEq, Eq)]
pub enum AccessStep {
    /// Look a field up by name in a struct.
    Field(String),
    /// Index into a list, array or tuple.
    Index(usize),
    /// Look a value up by key in a map.
    Key(i64),
}

/// The structural shape of a registered host type.
#[derive(Debug, Clone, Copy, PartialEq, Eq, Structural)]
pub enum TypeShape {
    Struct,
    TupleStruct,
    Tuple,
    List,
    Array,
    Dict,
    Enum,
    /// An opaque value type; it has no structure the bridge can navigate.
    Opaque,
}

/// The index of the first field with the given name, scanning from `i`.
pub open spec fn field_index_spec(fields: Seq<(String, Value)>, name: Seq<char>, i: int) -> Option<int>
    decreases fields.len() - i,
{
    if i < 0 || i >= fields.len() {
        None
    } else if fields[i].0@ == name {
        Some(i)
    } else {
        field_index_spec(fields, name, i + 1)
    }
}

/// Scanning for a name can start anywhere before the first match without
/// changing the outcome.
pub proof fn lemma_field_index_shift(fields: Seq<(String, Value)>, name: Seq<char>, i: int, j: int)
    requires
        0 <= i <= j <= fields.len(),
        forall|k: int| i <= k < j ==> fields[k].0@ != name,
    ensures
        field_index_spec(fields, name, i) == field_index_spec(fields, name, j),
    decreases j - i,
{
    if i < j {
        lemma_field_index_shift(fields, name, i + 1, j);
    }
}

/// The index of the first entry with the given key, scanning from `i`.
pub open spec fn key_index_spec(entries: Seq<(i64, Value)>, key: i64, i: int) -> Option<int>
    decreases entries.len() - i,
{
    if i < 0 || i >= entries.len() {
        None
    } else if entries[i].0 == key {
        Some(i)
    } else {
        key_index_spec(entries, key, i + 1)
    }
}

/// Scanning for a key can start anywhere before the first match without
/// changing the outcome.
pub proof fn lemma_key_index_shift(entries: Seq<(i64, Value)>, key: i64, i: int, j: int)
    requires
        0 <= i <= j <= entries.len(),
        forall|k: int| i <= k < j ==> entries[k].0 != key,
    ensures
        key_index_spec(entries, key, i) == key_index_spec(entries, key, j),
    decreases j - i,
{
    if i < j {
        lemma_key_index_shift(entries, key, i + 1, j);
    }
}

/// What applying one path step to a value yields: the addressed child, or the
/// precise bridge error when the step does not fit the value's shape.
pub open spec fn apply_step_spec(v: Value, step: AccessStep) -> Result<Value, BridgeError> {
    match step {
        AccessStep::Field(name) => match v {
            Value::Struct(fields) => match field_index_spec(fields@, name@, 0) {
                Some(i) => Ok(fields@[i].1),
                None => Err(BridgeError::NoSuchField),
            },
            _ => Err(BridgeError::TypeMismatch),
        },
        AccessStep::Index(i) => match v {
            Value::List(items) => if (i as int) < items@.len() {
                Ok(items@[i as int])
            } else {
                Err(BridgeError::IndexOutOfRange)
            },
            _ => Err(BridgeError::TypeMismatch),
        },
        AccessStep::Key(k) => match v {
            Value::Dict(entries) => match key_index_spec(entries@, k, 0) {
                Some(i) => Ok(entries@[i].1),
                None => Err(BridgeError::NoSuchKey),
            },
            _ => Err(BridgeError::TypeMismatch),
        },
    }
}

/// The manual traversal: apply the path's steps to `v` in order, failing fast
/// on the first step that does not fit.
pub open spec fn resolve_path_spec(v: Value, path: Seq<AccessStep>) -> Result<Value, BridgeError>
    decreases path.len(),
{
    if path.len() == 0 {
        Ok(v)
    } else {
        match apply_step_spec(v, path[0]) {
            Ok(child) => resolve_path_spec(child, path.drop_first()),
            Err(e) => Err(e),
        }
    }
}

/// Deep equivalence of two value trees: equal structure and equal primitive
/// contents, comparing strings by their characters.
pub open spec fn val_eqv(a: Value, b: Value) -> bool
    decreases a,
{
    match (a, b) {
        (Value::Unit, Value::Unit) => true,
        (Value::Int(x), Value::Int(y)) => x == y,
        (Value::Bool(x), Value::Bool(y)) => x == y,
        (Value::Str(x), Value::Str(y)) => x@ == y@,
        (Value::Struct(xs), Value::Struct(ys)) => xs@.len() == ys@.len() && (forall|i: int|
            0 <= i < xs@.len() ==> xs@[i].0@ == ys@[i].0@ && val_eqv(xs@[i].1, ys@[i].1)),
        (Value::List(xs), Value::List(ys)) => xs@.len() == ys@.len() && (forall|i: int|
            0 <= i < xs@.len() ==> val_eqv(xs@[i], ys@[i])),
        (Value::Dict(xs), Value::Dict(ys)) => xs@.len() == ys@.len() && (forall|i: int|
            0 <= i < xs@.len() ==> xs@[i].0 == ys@[i].0 && val_eqv(xs@[i].1, ys@[i].1)),
        (Value::Enum(xv, xs), Value::Enum(yv, ys)) => xv@ == yv@ && xs@.len() == ys@.len() && (forall|i: int|
            0 <= i < xs@.len() ==> val_eqv(xs@[i], ys@[i])),
        _ => false,
    }
}

/// Deep copy of a value tree; the copy is deeply equivalent to the input.
#[verifier::loop_isolation(false)]
pub fn clone_value(v: &Value) -> (r: Value)
    ensures
        val_eqv(r, *v),
    decreases v,
{
    match v {
        Value::Unit => Value::Unit,
        Value::Int(i) => Value::Int(*i),
        Value::Bool(b) => Value::Bool(*b),
        Value::Str(s) => Value::Str(s.clone()),
        Value::Struct(fields) => {
            let mut out: Vec<(String, Value)> = Vec::new();
            let mut i: usize = 0;
            while i < fields.len()
                invariant
                    i <= fields.len(),
                    out@.len() == i as int,
                    forall|k: int| 0 <= k < i as int ==> out@[k].0@ == fields@[k].0@
                        && val_eqv(out@[k].1, fields@[k].1),
                decreases fields.len() - i,
            {
                proof {
                    assert(decreases_to!(v => fields));
                    assert(decreases_to!(fields => fields@));
                    assert(decreases_to!(fields@ => fields@[i as int]));
                    assert(decreases_to!(fields@[i as int] => fields@[i as int].1));
                }
                let name = fields[i].0.clone();
                let val = clone_value(&fields[i].1);
                out.push((name, val));
                i = i + 1;
            }
            assert(val_eqv(Value::Struct(out), *v));
            Value::Struct(out)
        },
        Value::List(items) => {
            let mut out: Vec<Value> = Vec::new();
            let mut i: usize = 0;
            while i < items.len()
                invariant
                    i <= items.len(),
                    out@.len() == i as int,
                    forall|k: int| 0 <= k < i as int ==> val_eqv(out@[k], items@[k]),
                decreases items.len() - i,
            {
                proof {
                    assert(decreases_to!(v => items));
                    assert(decreases_to!(items => items@));
                    assert(decreases_to!(items@ => items@[i as int]));
                }
                let val = clone_value(&items[i]);
                out.push(val);
                i = i + 1;
            }
            assert(val_eqv(Value::List(out), *v));
            Value::List(out)
        },
        Value::Dict(entries) => {
            let mut out: Vec<(i64, Value)> = Vec::new();
            let mut i: usize = 0;
            while i < entries.len()
                invariant
                    i <= entries.len(),
                    out@.len() == i as int,
                    forall|k: int| 0 <= k < i as int ==> out@[k].0 == entries@[k].0
                        && val_eqv(out@[k].1, entries@[k].1),
                decreases entries.len() - i,
            {
                proof {
                    assert(decreases_to!(v => entries));
                    assert(decreases_to!(entries => entries@));
                    assert(decreases_to!(entries@ => entries@[i as int]));
                    assert(decreases_to!(entries@[i as int] => entries@[i as int].1));
                }
                let key = entries[i].0;
                let val = clone_value(&entries[i].1);
                out.push((key, val));
                i = i + 1;
            }
            assert(val_eqv(Value::Dict(out), *v));
            Value::Dict(out)
        },
        Value::Enum(variant, payload) => {
            let mut out: Vec<Value> = Vec::new();
            let mut i: usize = 0;
            while i < payload.len()
                invariant
                    i <= payload.len(),
                    out@.len() == i as int,
                    forall|k: int| 0 <= k < i as int ==> val_eqv(out@[k], payload@[k]),
                decreases payload.len() - i,
            {
                proof {
                    assert(decreases_to!(v => payload));
                    assert(decreases_to!(payload => payload@));
                    assert(decreases_to!(payload@ => payload@[i as int]));
                }
                let val = clone_value(&payload[i]);
                out.push(val);
                i = i + 1;
            }
            let variant_copy = variant.clone();
            assert(val_eqv(Value::Enum(variant_copy, out), *v));
            Value::Enum(variant_copy, out)
        },
    }
}

/// `r` is `v` with the value at `path[i..]` replaced by `nv`: along the path
/// the addressed child is rewritten, every sibling is kept (up to deep
/// equivalence, since untouched subtrees are copied), and at the path's end
/// the new value stands exactly.
pub open spec fn is_set_path(v: Value, path: Seq<AccessStep>, i: int, nv: Value, r: Value) -> bool
    decreases path.len() - i,
{
    if i < 0 || i >= path.len() {
        r == nv
    } else {
        match path[i] {
            AccessStep::Field(name) => {
                &&& v matches Value::Struct(fs)
                &&& r matches Value::Struct(rs)
                &&& field_index_spec(fs@, name@, 0) matches Some(j)
                &&& rs@.len() == fs@.len()
                &&& forall|k: int| #![trigger rs@[k]] 0 <= k < fs@.len() && k != j
                    ==> rs@[k].0@ == fs@[k].0@ && val_eqv(rs@[k].1, fs@[k].1)
                &&& rs@[j].0@ == fs@[j].0@
                &&& is_set_path(fs@[j].1, path, i + 1, nv, rs@[j].1)
            },
            AccessStep::Index(ix) => {
                &&& v matches Value::List(xs)
                &&& r matches Value::List(rl)
                &&& (ix as int) < xs@.len()
                &&& rl@.len() == xs@.len()
                &&& forall|k: int| #![trigger rl@[k]] 0 <= k < xs@.len() && k != ix as int
                    ==> val_eqv(rl@[k], xs@[k])
                &&& is_set_path(xs@[ix as int], path, i + 1, nv, rl@[ix as int])
            },
            AccessStep::Key(key) => {
                &&& v matches Value::Dict(es)
                &&& r matches Value::Dict(rd)
                &&& key_index_spec(es@, key, 0) matches Some(j)
                &&& rd@.len() == es@.len()
                &&& forall|k: int| #![trigger rd@[k]] 0 <= k < es@.len() && k != j
                    ==> rd@[k].0 == es@[k].0 && val_eqv(rd@[k].1, es@[k].1)
                &&& rd@[j].0 == es@[j].0
                &&& is_set_path(es@[j].1, path, i + 1, nv, rd@[j].1)
            },
        }
    }
}

/// Functional write at a path: rebuilds `v` with the value at `path[i..]`
/// replaced by `nv`. Fails exactly where reading the same path would fail.
#[verifier::loop_isolation(false)]
pub fn set_in_value(v: &Value, path: &Vec<AccessStep>, i: usize, nv: Value) -> (r: Result<Value, BridgeError>)
    requires
        i <= path@.len(),
    ensures
        r matches Ok(rv) ==> is_set_path(*v, path@, i as int, nv, rv)
            && resolve_path_spec(*v, path@.skip(i as int)) is Ok,
        r matches Err(e) ==> resolve_path_spec(*v, path@.skip(i as int)) == Err::<Value, BridgeError>(e),
    decreases path@.len() - i,
{
    proof {
        if i < path.len() {
            assert(path@.skip(i as int)[0] == path@[i as int]);
            assert(path@.skip(i as int).drop_first() =~= path@.skip(i as int + 1));
        } else {
            assert(path@.skip(i as int) =~= Seq::<AccessStep>::empty());
        }
    }
    if i == path.len() {
        return Ok(nv);
    }
    match (&path[i], v) {
        (AccessStep::Field(name), Value::Struct(fs)) => {
            let j = match field_position(fs, name) {
                Some(j) => j,
                None => {
                    return Err(BridgeError::NoSuchField);
                },
            };
            let updated = match set_in_value(&fs[j].1, path, i + 1, nv) {
                Ok(u) => u,
                Err(e) => {
                    return Err(e);
                },
            };
            let mut rs: Vec<(String, Value)> = Vec::new();
            let mut k: usize = 0;
            while k < j
                invariant
                    k <= j,
                    rs@.len() == k as int,
                    forall|m: int| #![trigger rs@[m]] 0 <= m < k as int
                        ==> rs@[m].0@ == fs@[m].0@ && val_eqv(rs@[m].1, fs@[m].1),
                decreases j - k,
            {
                rs.push((fs[k].0.clone(), clone_value(&fs[k].1)));
                k = k + 1;
            }
            rs.push((fs[j].0.clone(), updated));
            let n_fields = fs.len();
            assert(j < n_fields);
            let mut k2: usize = j + 1;
            while k2 < fs.len()
                invariant
                    j < k2 <= fs@.len(),
                    rs@.len() == k2 as int,
                    forall|m: int| #![trigger rs@[m]] 0 <= m < k2 as int && m != j as int
                        ==> rs@[m].0@ == fs@[m].0@ && val_eqv(rs@[m].1, fs@[m].1),
                    rs@[j as int].0@ == fs@[j as int].0@,
                    is_set_path(fs@[j as int].1, path@, i as int + 1, nv, rs@[j as int].1),
                decreases fs@.len() - k2,
            {
                rs.push((fs[k2].0.clone(), clone_value(&fs[k2].1)));
                k2 = k2 + 1;
            }
            Ok(Value::Struct(rs))
        },
        (AccessStep::Index(ix), Value::List(xs)) => {
            if *ix >= xs.len() {
                return Err(BridgeError::IndexOutOfRange);
            }
            let updated = match set_in_value(&xs[*ix], path, i + 1, nv) {
                Ok(u) => u,
                Err(e) => {
                    return Err(e);
                },
            };
            let mut rl: Vec<Value> = Vec::new();
            let mut k: usize = 0;
            while k < *ix
                invariant
                    k <= *ix,
                    rl@.len() == k as int,
                    forall|m: int| #![trigger rl@[m]] 0 <= m < k as int ==> val_eqv(rl@[m], xs@[m]),
                decreases *ix - k,
            {
                rl.push(clone_value(&xs[k]));
                k = k + 1;
            }
            rl.push(updated);
            let mut k2: usize = *ix + 1;
            while k2 < xs.len()
                invariant
                    *ix < k2 <= xs@.len(),
                    rl@.len() == k2 as int,
                    forall|m: int| #![trigger rl@[m]] 0 <= m < k2 as int && m != ix as int
                        ==> val_eqv(rl@[m], xs@[m]),
                    is_set_path(xs@[ix as int], path@, i as int + 1, nv, rl@[ix as int]),
                decreases xs@.len() - k2,
            {
                rl.push(clone_value(&xs[k2]));
                k2 = k2 + 1;
            }
            Ok(Value::List(rl))
        },
        (AccessStep::Key(key), Value::Dict(es)) => {
            let j = match key_position(es, *key) {
                Some(j) => j,
                None => {
                    return Err(BridgeError::NoSuchKey);
                },
            };
            let updated = match set_in_value(&es[j].1, path, i + 1, nv) {
                Ok(u) => u,
                Err(e) => {
                    return Err(e);
                },
            };
            let mut rd: Vec<(i64, Value)> = Vec::new();
            let mut k: usize = 0;
            while k < j
                invariant
                    k <= j,
                    rd@.len() == k as int,
                    forall|m: int| #![trigger rd@[m]] 0 <= m < k as int
                        ==> rd@[m].0 == es@[m].0 && val_eqv(rd@[m].1, es@[m].1),
                decreases j - k,
            {
                rd.push((es[k].0, clone_value(&es[k].1)));
                k = k + 1;
            }
            rd.push((es[j].0, updated));
            let n_entries = es.len();
            assert(j < n_entries);
            let mut k2: usize = j + 1;
            while k2 < es.len()
                invariant
                    j < k2 <= es@.len(),
                    rd@.len() == k2 as int,
                    forall|m: int| #![trigger rd@[m]] 0 <= m < k2 as int && m != j as int
                        ==> rd@[m].0 == es@[m].0 && val_eqv(rd@[m].1, es@[m].1),
                    rd@[j as int].0 == es@[j as int].0,
                    is_set_path(es@[j as int].1, path@, i as int + 1, nv, rd@[j as int].1),
                decreases es@.len() - k2,
            {
                rd.push((es[k2].0, clone_value(&es[k2].1)));
                k2 = k2 + 1;
            }
            Ok(Value::Dict(rd))
        },
        _ => Err(BridgeError::TypeMismatch),
    }
}

/// Find the position of a field by name in a struct's field table.
#[verifier::loop_isolation(false)]
fn field_position(fields: &Vec<(String, Value)>, name: &String) -> (r: Option<usize>)
    ensures
        r matches Some(j) ==> field_index_spec(fields@, name@, 0) == Some(j as int)
            && j < fields@.len(),
        r is None ==> field_index_spec(fields@, name@, 0) is None,
{
    let n = fields.len();
    let mut i: usize = 0;
    while i < n
        invariant
            i <= n,
            forall|k: int| 0 <= k < i as int ==> fields@[k].0@ != name@,
        decreases n - i,
    {
        if fields[i].0 == *name {
            proof {
                lemma_field_index_shift(fields@, name@, 0, i as int);
            }
            return Some(i);
        }
        i = i + 1;
    }
    proof {
        lemma_field_index_shift(fields@, name@, 0, n as int);
    }
    None
}

/// Find the position of an entry by key in a map's entry table.
#[verifier::loop_isolation(false)]
fn key_position(entries: &Vec<(i64, Value)>, key: i64) -> (r: Option<usize>)
    ensures
        r matches Some(j) ==> key_index_spec(entries@, key, 0) == Some(j as int)
            && j < entries@.len(),
        r is None ==> key_index_spec(entries@, key, 0) is None,
{
    let n = entries.len();
    let mut i: usize = 0;
    while i < n
        invariant
            i <= n,
            forall|k: int| 0 <= k < i as int ==> entries@[k].0 != key,
        decreases n - i,
    {
        if entries[i].0 == key {
            proof {
                lemma_key_index_shift(entries@, key, 0, i as int);
            }
            return Some(i);
        }
        i = i + 1;
    }
    proof {
        lemma_key_index_shift(entries@, key, 0, n as int);
    }
    None
}

/// Apply one path step to a value, returning a borrow of the addressed child.
#[verifier::loop_isolation(false)]
pub fn apply_step<'a>(v: &'a Value, step: &AccessStep) -> (r: Result<&'a Value, BridgeError>)
    ensures
        r matches Ok(c) ==> apply_step_spec(*v, *step) == Ok::<Value, BridgeError>(*c),
        r matches Err(e) ==> apply_step_spec(*v, *step) == Err::<Value, BridgeError>(e),
{
    match step {
        AccessStep::Field(name) => match v {
            Value::Struct(fields) => {
                let mut i: usize = 0;
                while i < fields.len()
                    invariant
                        i <= fields.len(),
                        forall|k: int| 0 <= k < i as int ==> fields@[k].0@ != name@,
                    decreases fields.len() - i,
                {
                    if fields[i].0 == *name {
                        proof {
                            lemma_field_index_shift(fields@, name@, 0, i as int);
                        }
                        return Ok(&fields[i].1);
                    }
                    i = i + 1;
                }
                proof {
                    lemma_field_index_shift(fields@, name@, 0, fields@.len() as int);
                }
                Err(BridgeError::NoSuchField)
            },
            _ => Err(BridgeError::TypeMismatch),
        },
        AccessStep::Index(i) => match v {
            Value::List(items) => if *i < items.len() {
                Ok(&items[*i])
            } else {
                Err(BridgeError::IndexOutOfRange)
            },
            _ => Err(BridgeError::TypeMismatch),
        },
        AccessStep::Key(key) => match v {
            Value::Dict(entries) => {
                let mut i: usize = 0;
                while i < entries.len()
                    invariant
                        i <= entries.len(),
                        forall|k: int| 0 <= k < i as int ==> entries@[k].0 != key,
                    decreases entries.len() - i,
                {
                    if entries[i].0 == *key {
                        proof {
                            lemma_key_index_shift(entries@, *key, 0, i as int);
                        }
                        return Ok(&entries[i].1);
                    }
                    i = i + 1;
                }
                proof {
                    lemma_key_index_shift(entries@, *key, 0, entries@.len() as int);
                }
                Err(BridgeError::NoSuchKey)
            },
            _ => Err(BridgeError::TypeMismatch),
        },
    }
}

} // verus!
