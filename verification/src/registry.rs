//! Type registration handles and the type registry.
//!
//! A `ScriptTypeRegistration` is the bridge's handle to one registered host
//! type: its short name, fully qualified path, structural shape, capability
//! tags and, for opaque value types, an explicit default value. A
//! `TypeRegistry` holds all registrations; lookup by name prefers an exact
//! full-path match and falls back to the first short-name match.

use vstd::prelude::*;
use crate::value::{TypeShape, Value, clone_value, val_eqv};

verus! {

/// A handle to one registered host type's metadata.
#[derive(Debug)]
pub struct ScriptTypeRegistration {
    /// The type's short name (last path segment), possibly ambiguous.
    pub short_name: String,
    /// The fully qualified type path; two handles with equal paths are
    /// interchangeable.
    pub type_path: String,
    /// The type's structural shape.
    pub shape: TypeShape,
    /// Capability tag: the type can be attached to an entity as a component.
    pub is_component: bool,
    /// Capability tag: the type can exist as a world-global resource.
    pub is_resource: bool,
    /// The registered default value, for types whose shape alone does not
    /// determine one; its presence is the has-default capability tag.
    pub default_value: Option<Value>,
}

impl ScriptTypeRegistration {
    /// Makes a registration handle from its metadata.
    pub fn new(
        short_name: String,
        type_path: String,
        shape: TypeShape,
        is_component: bool,
        is_resource: bool,
        default_value: Option<Value>,
    ) -> (r: Self)
        ensures
            r.short_name@ == short_name@,
            r.type_path@ == type_path@,
            r.shape == shape,
            r.is_component == is_component,
            r.is_resource == is_resource,
            r.default_value == default_value,
    {
        ScriptTypeRegistration { short_name, type_path, shape, is_component, is_resource, default_value }
    }

    /// The type's short name.
    pub fn short_name(&self) -> (r: &str)
        ensures
            r@ == self.short_name@,
    {
        self.short_name.as_str()
    }

    /// The type's fully qualified path.
    pub fn full_path(&self) -> (r: &str)
        ensures
            r@ == self.type_path@,
    {
        self.type_path.as_str()
    }

    /// Whether this registration and `other` are interchangeable: their fully
    /// qualified paths are equal.
    pub open spec fn same_type_spec(&self, other: &Self) -> bool {
        self.type_path@ == other.type_path@
    }

    /// A deep copy of the handle; every field is preserved, the default value
    /// up to deep equivalence.
    pub fn duplicate(&self) -> (r: Self)
        ensures
            r.short_name@ == self.short_name@,
            r.type_path@ == self.type_path@,
            r.shape == self.shape,
            r.is_component == self.is_component,
            r.is_resource == self.is_resource,
            r.default_value is Some <==> self.default_value is Some,
            r.default_value matches Some(d) ==> val_eqv(d, self.default_value->Some_0),
    {
        let default_value = match &self.default_value {
            Some(d) => Some(clone_value(d)),
            None => None,
        };
        ScriptTypeRegistration {
            short_name: self.short_name.clone(),
            type_path: self.type_path.clone(),
            shape: self.shape,
            is_component: self.is_component,
            is_resource: self.is_resource,
            default_value,
        }
    }
}

/// All registered host types, in registration order.
#[derive(Debug)]
pub struct TypeRegistry {
    pub types: Vec<ScriptTypeRegistration>,
}

/// The index of the first registration whose fully qualified path equals
/// `name`, scanning from `i`.
pub open spec fn path_index_spec(types: Seq<ScriptTypeRegistration>, name: Seq<char>, i: int) -> Option<int>
    decreases types.len() - i,
{
    if i < 0 || i >= types.len() {
        None
    } else if types[i].type_path@ == name {
        Some(i)
    } else {
        path_index_spec(types, name, i + 1)
    }
}

/// The index of the first registration whose short name equals `name`,
/// scanning from `i`.
pub open spec fn short_index_spec(types: Seq<ScriptTypeRegistration>, name: Seq<char>, i: int) -> Option<int>
    decreases types.len() - i,
{
    if i < 0 || i >= types.len() {
        None
    } else if types[i].short_name@ == name {
        Some(i)
    } else {
        short_index_spec(types, name, i + 1)
    }
}

/// Name lookup: an exact full-path match is preferred; a short-name match is
/// the fallback, since short names may be ambiguous.
pub open spec fn lookup_index_spec(types: Seq<ScriptTypeRegistration>, name: Seq<char>) -> Option<int> {
    match path_index_spec(types, name, 0) {
        Some(i) => Some(i),
        None => short_index_spec(types, name, 0),
    }
}

pub proof fn lemma_path_index_shift(types: Seq<ScriptTypeRegistration>, name: Seq<char>, i: int, j: int)
    requires
        0 <= i <= j <= types.len(),
        forall|k: int| i <= k < j ==> types[k].type_path@ != name,
    ensures
        path_index_spec(types, name, i) == path_index_spec(types, name, j),
    decreases j - i,
{
    if i < j {
        lemma_path_index_shift(types, name, i + 1, j);
    }
}

pub proof fn lemma_short_index_shift(types: Seq<ScriptTypeRegistration>, name: Seq<char>, i: int, j: int)
    requires
        0 <= i <= j <= types.len(),
        forall|k: int| i <= k < j ==> types[k].short_name@ != name,
    ensures
        short_index_spec(types, name, i) == short_index_spec(types, name, j),
    decreases j - i,
{
    if i < j {
        lemma_short_index_shift(types, name, i + 1, j);
    }
}

impl TypeRegistry {
    /// An empty registry.
    pub fn new() -> (r: Self)
        ensures
            r.types@.len() == 0,
    {
        TypeRegistry { types: Vec::new() }
    }

    /// Registers one more type; registration order is preserved.
    pub fn register(&mut self, t: ScriptTypeRegistration)
        ensures
            final(self).types@ == old(self).types@.push(t),
    {
        self.types.push(t);
    }

    /// Finds the registration `name` refers to: the one with that exact full
    /// path if any, else the first with that short name.
    #[verifier::loop_isolation(false)]
    pub fn find(&self, name: &str) -> (r: Option<&ScriptTypeRegistration>)
        ensures
            r matches Some(t) ==> lookup_index_spec(self.types@, name@) matches Some(i)
                && *t == self.types@[i],
            r is None ==> lookup_index_spec(self.types@, name@) is None,
    {
        let name_owned = name.to_owned();
        let n = self.types.len();
        let mut i: usize = 0;
        while i < n
            invariant
                i <= n,
                forall|k: int| 0 <= k < i as int ==> self.types@[k].type_path@ != name@,
            decreases n - i,
        {
            if self.types[i].type_path == name_owned {
                proof {
                    lemma_path_index_shift(self.types@, name@, 0, i as int);
                }
                return Some(&self.types[i]);
            }
            i = i + 1;
        }
        proof {
            lemma_path_index_shift(self.types@, name@, 0, n as int);
        }
        let mut j: usize = 0;
        while j < n
            invariant
                j <= n,
                forall|k: int| 0 <= k < j as int ==> self.types@[k].short_name@ != name@,
            decreases n - j,
        {
            if self.types[j].short_name == name_owned {
                proof {
                    lemma_short_index_shift(self.types@, name@, 0, j as int);
                }
                return Some(&self.types[j]);
            }
            j = j + 1;
        }
        proof {
            lemma_short_index_shift(self.types@, name@, 0, n as int);
        }
        None
    }
}

} // verus!
