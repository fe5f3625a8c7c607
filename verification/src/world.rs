//! The modeled host data store.
//!
//! The bridge reads and mutates host data only through the reflection
//! facility; this module models exactly what that facility exposes: entities
//! carrying components and hierarchy links, world-global resources, the
//! owned-value arena for bridge-created values, and the type registry.
//! Components and resources are tables from fully qualified type path to a
//! type-erased `Value`.

use vstd::prelude::*;
use crate::error::BridgeError;
use crate::registry::{ScriptTypeRegistration, TypeRegistry, lookup_index_spec};
use crate::reference::ReflectReference;
use crate::value::{TypeShape, Value, clone_value, val_eqv, field_index_spec, lemma_field_index_shift};

verus! {

/// One live entity: its id, hierarchy links, and attached components.
#[derive(Debug)]
pub struct EntityRecord {
    /// The entity's identifier, unique while the entity lives.
    pub id: u64,
    /// The entity this one is parented under, if any.
    pub parent: Option<u64>,
    /// The entity's children, in insertion order.
    pub children: Vec<u64>,
    /// Attached components: fully qualified type path to value.
    pub components: Vec<(String, Value)>,
}

/// The index of the first entity with the given id, scanning from `i`.
pub open spec fn entity_index_spec(entities: Seq<EntityRecord>, id: u64, i: int) -> Option<int>
    decreases entities.len() - i,
{
    if i < 0 || i >= entities.len() {
        None
    } else if entities[i].id == id {
        Some(i)
    } else {
        entity_index_spec(entities, id, i + 1)
    }
}

pub proof fn lemma_entity_index_shift(entities: Seq<EntityRecord>, id: u64, i: int, j: int)
    requires
        0 <= i <= j <= entities.len(),
        forall|k: int| i <= k < j ==> entities[k].id != id,
    ensures
        entity_index_spec(entities, id, i) == entity_index_spec(entities, id, j),
    decreases j - i,
{
    if i < j {
        lemma_entity_index_shift(entities, id, i + 1, j);
    }
}

/// The default value the bridge constructs for a type of the given
/// registration: an empty container for structural shapes, the registered
/// default for opaque value types.
pub open spec fn is_default_of(t: ScriptTypeRegistration, d: Value) -> bool {
    match t.shape {
        TypeShape::Struct => d matches Value::Struct(f) && f@.len() == 0,
        TypeShape::TupleStruct | TypeShape::Tuple => d matches Value::List(f) && f@.len() == 0,
        TypeShape::List | TypeShape::Array => d matches Value::List(f) && f@.len() == 0,
        TypeShape::Dict => d matches Value::Dict(f) && f@.len() == 0,
        TypeShape::Enum => d matches Value::Enum(v, f) && v@.len() == 0 && f@.len() == 0,
        TypeShape::Opaque => t.default_value matches Some(dv) && val_eqv(d, dv),
    }
}

/// The world `w1` is `w0` with the value `v` attached to `entity` under the
/// type path `tp`: replacing the component in place if one was present, else
/// appended to the entity's component table; nothing else differs.
pub open spec fn component_upserted(w0: ScriptWorld, w1: ScriptWorld, entity: u64, tp: Seq<char>, v: Value) -> bool {
    match entity_index_spec(w0.entities@, entity, 0) {
        Some(i) => {
            &&& w1.entities@.len() == w0.entities@.len()
            &&& forall|k: int| 0 <= k < w0.entities@.len() && k != i ==> w1.entities@[k] == w0.entities@[k]
            &&& w1.entities@[i].id == w0.entities@[i].id
            &&& w1.entities@[i].parent == w0.entities@[i].parent
            &&& w1.entities@[i].children@ == w0.entities@[i].children@
            &&& match field_index_spec(w0.entities@[i].components@, tp, 0) {
                Some(j) => {
                    &&& w1.entities@[i].components@.len() == w0.entities@[i].components@.len()
                    &&& forall|k: int| 0 <= k < w0.entities@[i].components@.len() && k != j
                        ==> w1.entities@[i].components@[k] == w0.entities@[i].components@[k]
                    &&& w1.entities@[i].components@[j].0 == w0.entities@[i].components@[j].0
                    &&& w1.entities@[i].components@[j].1 == v
                },
                None => {
                    &&& w1.entities@[i].components@.len() == w0.entities@[i].components@.len() + 1
                    &&& forall|k: int| 0 <= k < w0.entities@[i].components@.len()
                        ==> w1.entities@[i].components@[k] == w0.entities@[i].components@[k]
                    &&& w1.entities@[i].components@.last().0@ == tp
                    &&& w1.entities@[i].components@.last().1 == v
                },
            }
            &&& w1.resources@ == w0.resources@
            &&& w1.owned@ == w0.owned@
            &&& w1.registry == w0.registry
            &&& w1.next_id == w0.next_id
        },
        None => false,
    }
}

/// Helper trait for retrieving a view of the world from a script context:
/// world access is re-derived at every dereference, never cached across
/// invocations.
pub trait GetWorld {
    type Error;

    /// The world this context may currently access, or why it may not.
    fn get_world(&self) -> Result<&ScriptWorld, Self::Error>;
}

/// The modeled world: everything the bridge can reach through reflection.
#[derive(Debug)]
pub struct ScriptWorld {
    /// Live entities, in spawn order.
    pub entities: Vec<EntityRecord>,
    /// World-global resources: fully qualified type path to value.
    pub resources: Vec<(String, Value)>,
    /// The owned-value arena: values created by bridge operations, addressed
    /// by owned-value-rooted references.
    pub owned: Vec<Value>,
    /// The host's type registry.
    pub registry: TypeRegistry,
    /// The next never-used entity id.
    pub next_id: u64,
}

impl ScriptWorld {
    /// A world with no entities, resources or owned values.
    pub fn new(registry: TypeRegistry) -> (r: Self)
        ensures
            r.entities@.len() == 0,
            r.resources@.len() == 0,
            r.owned@.len() == 0,
            r.registry == registry,
            r.next_id == 0,
    {
        ScriptWorld { entities: Vec::new(), resources: Vec::new(), owned: Vec::new(), registry, next_id: 0 }
    }

    /// Whether an entity with this id is live.
    pub open spec fn has_entity(&self, id: u64) -> bool {
        entity_index_spec(self.entities@, id, 0) is Some
    }

    /// Spawns a fresh entity with no components, no parent and no children.
    pub fn spawn(&mut self) -> (id: u64)
        requires
            old(self).next_id < u64::MAX,
        ensures
            id == old(self).next_id,
            final(self).next_id == old(self).next_id + 1,
            final(self).entities@.len() == old(self).entities@.len() + 1,
            forall|k: int| 0 <= k < old(self).entities@.len() ==> final(self).entities@[k] == old(self).entities@[k],
            final(self).entities@.last().id == id,
            final(self).entities@.last().parent is None,
            final(self).entities@.last().children@.len() == 0,
            final(self).entities@.last().components@.len() == 0,
            final(self).resources@ == old(self).resources@,
            final(self).owned@ == old(self).owned@,
            final(self).registry == old(self).registry,
    {
        let id = self.next_id;
        self.next_id = self.next_id + 1;
        self.entities.push(EntityRecord { id, parent: None, children: Vec::new(), components: Vec::new() });
        id
    }

    /// Find the position of an entity by id.
    #[verifier::loop_isolation(false)]
    pub(crate) fn entity_position(&self, id: u64) -> (r: Option<usize>)
        ensures
            r matches Some(i) ==> entity_index_spec(self.entities@, id, 0) == Some(i as int)
                && i < self.entities@.len() && self.entities@[i as int].id == id,
            r is None ==> entity_index_spec(self.entities@, id, 0) is None,
    {
        let n = self.entities.len();
        let mut i: usize = 0;
        while i < n
            invariant
                i <= n,
                forall|k: int| 0 <= k < i as int ==> self.entities@[k].id != id,
            decreases n - i,
        {
            if self.entities[i].id == id {
                proof {
                    lemma_entity_index_shift(self.entities@, id, 0, i as int);
                }
                return Some(i);
            }
            i = i + 1;
        }
        proof {
            lemma_entity_index_shift(self.entities@, id, 0, n as int);
        }
        None
    }

    /// Attaches (or replaces) a component value on an entity; returns whether
    /// the entity was live. Used by the host when synchronizing its store into
    /// the bridge's view.
    #[verifier::loop_isolation(false)]
    pub fn insert_component(&mut self, entity: u64, type_path: String, v: Value) -> (r: bool)
        ensures
            r == old(self).has_entity(entity),
            !r ==> *final(self) == *old(self),
            r ==> component_upserted(*old(self), *final(self), entity, type_path@, v),
    {
        let i = match self.entity_position(entity) {
            Some(i) => i,
            None => {
                return false;
            },
        };
        let mut rec = self.entities.remove(i);
        let n = rec.components.len();
        let mut j: usize = 0;
        let mut found: Option<usize> = None;
        while j < n
            invariant
                j <= n,
                found is None ==> forall|k: int| 0 <= k < j as int ==> rec.components@[k].0@ != type_path@,
                found matches Some(f) ==> f < j && field_index_spec(rec.components@, type_path@, 0) == Some(f as int),
            decreases n - j,
        {
            if found.is_none() && rec.components[j].0 == type_path {
                proof {
                    lemma_field_index_shift(rec.components@, type_path@, 0, j as int);
                }
                found = Some(j);
            }
            j = j + 1;
        }
        proof {
            if found is None {
                lemma_field_index_shift(rec.components@, type_path@, 0, n as int);
            }
        }
        match found {
            Some(f) => {
                let old_pair = rec.components.remove(f);
                rec.components.insert(f, (old_pair.0, v));
            },
            None => {
                rec.components.push((type_path, v));
            },
        }
        let ghost rec2 = rec;
        self.entities.insert(i, rec);
        proof {
            assert(final(self).entities@ =~= old(self).entities@.update(i as int, rec2));
        }
        true
    }

    /// Adds (or replaces) a world-global resource value.
    #[verifier::loop_isolation(false)]
    pub fn insert_resource(&mut self, type_path: String, v: Value)
        ensures
            match field_index_spec(old(self).resources@, type_path@, 0) {
                Some(j) => {
                    &&& final(self).resources@.len() == old(self).resources@.len()
                    &&& forall|k: int| 0 <= k < old(self).resources@.len() && k != j
                        ==> final(self).resources@[k] == old(self).resources@[k]
                    &&& final(self).resources@[j].0 == old(self).resources@[j].0
                    &&& final(self).resources@[j].1 == v
                },
                None => {
                    &&& final(self).resources@.len() == old(self).resources@.len() + 1
                    &&& forall|k: int| 0 <= k < old(self).resources@.len()
                        ==> final(self).resources@[k] == old(self).resources@[k]
                    &&& final(self).resources@.last().0@ == type_path@
                    &&& final(self).resources@.last().1 == v
                },
            },
            final(self).entities@ == old(self).entities@,
            final(self).owned@ == old(self).owned@,
            final(self).registry == old(self).registry,
    {
        let n = self.resources.len();
        let mut j: usize = 0;
        let mut found: Option<usize> = None;
        while j < n
            invariant
                j <= n,
                found is None ==> forall|k: int| 0 <= k < j as int ==> self.resources@[k].0@ != type_path@,
                found matches Some(f) ==> f < j && field_index_spec(self.resources@, type_path@, 0) == Some(f as int),
            decreases n - j,
        {
            if found.is_none() && self.resources[j].0 == type_path {
                proof {
                    lemma_field_index_shift(self.resources@, type_path@, 0, j as int);
                }
                found = Some(j);
            }
            j = j + 1;
        }
        proof {
            if found is None {
                lemma_field_index_shift(self.resources@, type_path@, 0, n as int);
            }
        }
        match found {
            Some(f) => {
                let old_pair = self.resources.remove(f);
                self.resources.insert(f, (old_pair.0, v));
            },
            None => {
                self.resources.push((type_path, v));
            },
        }
    }

    /// Moves a bridge-created value into the owned-value arena and hands back
    /// a reference rooted at it.
    pub fn new_owned(&mut self, v: Value) -> (r: ReflectReference)
        ensures
            final(self).owned@ == old(self).owned@.push(v),
            r.root == (crate::reference::ReflectRoot::Owned { id: old(self).owned@.len() as usize }),
            r.path@.len() == 0,
            final(self).entities@ == old(self).entities@,
            final(self).resources@ == old(self).resources@,
            final(self).registry == old(self).registry,
            final(self).next_id == old(self).next_id,
    {
        let id = self.owned.len();
        self.owned.push(v);
        ReflectReference::new_owned_ref(id)
    }

    /// Looks a type up by name in the registry: an exact full-path match is
    /// preferred, then the first short-name match.
    pub fn get_type_by_name(&self, name: &str) -> (r: Option<ScriptTypeRegistration>)
        ensures
            r matches Some(t) ==> lookup_index_spec(self.registry.types@, name@) matches Some(i)
                && t.short_name@ == self.registry.types@[i].short_name@
                && t.type_path@ == self.registry.types@[i].type_path@
                && t.shape == self.registry.types@[i].shape
                && t.is_component == self.registry.types@[i].is_component
                && t.is_resource == self.registry.types@[i].is_resource
                && (t.default_value is Some <==> self.registry.types@[i].default_value is Some)
                && (t.default_value matches Some(d)
                    ==> val_eqv(d, self.registry.types@[i].default_value->Some_0)),
            r is None ==> lookup_index_spec(self.registry.types@, name@) is None,
    {
        match self.registry.find(name) {
            Some(t) => Some(t.duplicate()),
            None => None,
        }
    }

    /// Fetches a component of the given registered type from an entity as a
    /// reflection reference, `Ok(None)` when the entity lives but carries no
    /// such component.
    pub fn get_component(&self, entity: u64, comp_type: ScriptTypeRegistration)
        -> (r: Result<Option<ReflectReference>, BridgeError>)
        ensures
            !self.has_entity(entity)
                ==> r == Err::<Option<ReflectReference>, BridgeError>(BridgeError::InvalidRoot),
            self.has_entity(entity) && !comp_type.is_component
                ==> r == Err::<Option<ReflectReference>, BridgeError>(BridgeError::NotAComponent),
            self.has_entity(entity) && comp_type.is_component ==> ({
                let i = entity_index_spec(self.entities@, entity, 0)->Some_0;
                match field_index_spec(self.entities@[i].components@, comp_type.type_path@, 0) {
                    Some(_) => r matches Ok(o) && o matches Some(rr)
                        && rr.root matches crate::reference::ReflectRoot::Component { entity: e2, type_path: tp }
                        && e2 == entity && tp@ == comp_type.type_path@
                        && rr.path@.len() == 0,
                    None => r matches Ok(o) && o is None,
                }
            }),
    {
        let i = match self.entity_position(entity) {
            Some(i) => i,
            None => {
                return Err(BridgeError::InvalidRoot);
            },
        };
        if !comp_type.is_component {
            return Err(BridgeError::NotAComponent);
        }
        match comp_position(&self.entities[i].components, &comp_type.type_path) {
            Some(_) => Ok(Some(ReflectReference::new_component_ref(entity, comp_type.type_path))),
            None => Ok(None),
        }
    }

    /// Whether an entity carries a component of the given registered type.
    pub fn has_component(&self, entity: u64, comp_type: ScriptTypeRegistration)
        -> (r: Result<bool, BridgeError>)
        ensures
            !comp_type.is_component ==> r == Err::<bool, BridgeError>(BridgeError::NotAComponent),
            comp_type.is_component && !self.has_entity(entity)
                ==> r == Err::<bool, BridgeError>(BridgeError::InvalidRoot),
            comp_type.is_component && self.has_entity(entity) ==> ({
                let i = entity_index_spec(self.entities@, entity, 0)->Some_0;
                r == Ok::<bool, BridgeError>(
                    field_index_spec(self.entities@[i].components@, comp_type.type_path@, 0) is Some,
                )
            }),
    {
        if !comp_type.is_component {
            return Err(BridgeError::NotAComponent);
        }
        let i = match self.entity_position(entity) {
            Some(i) => i,
            None => {
                return Err(BridgeError::InvalidRoot);
            },
        };
        match comp_position(&self.entities[i].components, &comp_type.type_path) {
            Some(_) => Ok(true),
            None => Ok(false),
        }
    }

    /// Detaches a component of the given registered type from an entity; a
    /// missing component is not an error.
    pub fn remove_component(&mut self, entity: u64, comp_type: ScriptTypeRegistration)
        -> (r: Result<(), BridgeError>)
        ensures
            !old(self).has_entity(entity)
                ==> r == Err::<(), BridgeError>(BridgeError::InvalidRoot) && *final(self) == *old(self),
            old(self).has_entity(entity) && !comp_type.is_component
                ==> r == Err::<(), BridgeError>(BridgeError::NotAComponent) && *final(self) == *old(self),
            old(self).has_entity(entity) && comp_type.is_component ==> r == Ok::<(), BridgeError>(())
                && ({
                    let i = entity_index_spec(old(self).entities@, entity, 0)->Some_0;
                    match field_index_spec(old(self).entities@[i].components@, comp_type.type_path@, 0) {
                        Some(j) => {
                            &&& final(self).entities@.len() == old(self).entities@.len()
                            &&& forall|k: int| 0 <= k < old(self).entities@.len() && k != i
                                ==> final(self).entities@[k] == old(self).entities@[k]
                            &&& final(self).entities@[i].id == old(self).entities@[i].id
                            &&& final(self).entities@[i].parent == old(self).entities@[i].parent
                            &&& final(self).entities@[i].children@ == old(self).entities@[i].children@
                            &&& final(self).entities@[i].components@ == old(self).entities@[i].components@.remove(j)
                            &&& final(self).resources@ == old(self).resources@
                            &&& final(self).owned@ == old(self).owned@
                            &&& final(self).registry == old(self).registry
                            &&& final(self).next_id == old(self).next_id
                        },
                        None => *final(self) == *old(self),
                    }
                }),
    {
        let i = match self.entity_position(entity) {
            Some(i) => i,
            None => {
                return Err(BridgeError::InvalidRoot);
            },
        };
        if !comp_type.is_component {
            return Err(BridgeError::NotAComponent);
        }
        let j = match comp_position(&self.entities[i].components, &comp_type.type_path) {
            Some(j) => j,
            None => {
                return Ok(());
            },
        };
        let mut rec = self.entities.remove(i);
        rec.components.remove(j);
        let ghost rec2 = rec;
        self.entities.insert(i, rec);
        proof {
            assert(final(self).entities@ =~= old(self).entities@.update(i as int, rec2));
        }
        Ok(())
    }

    /// Attaches a freshly constructed default value of the given registered
    /// component type to an entity, and hands back a reference to it. Opaque
    /// value types need a registered default; all other shapes start empty.
    pub fn add_default_component(&mut self, entity: u64, comp_type: ScriptTypeRegistration)
        -> (r: Result<ReflectReference, BridgeError>)
        ensures
            !old(self).has_entity(entity)
                ==> (r matches Err(e) && e == BridgeError::InvalidRoot && *final(self) == *old(self)),
            old(self).has_entity(entity) && !comp_type.is_component
                ==> (r matches Err(e) && e == BridgeError::NotAComponent && *final(self) == *old(self)),
            old(self).has_entity(entity) && comp_type.is_component
                && comp_type.shape == TypeShape::Opaque && comp_type.default_value is None
                ==> (r matches Err(e) && e == BridgeError::NoDefaultValue && *final(self) == *old(self)),
            old(self).has_entity(entity) && comp_type.is_component
                && !(comp_type.shape == TypeShape::Opaque && comp_type.default_value is None)
                ==> (r matches Ok(rr)
                    && rr.root matches crate::reference::ReflectRoot::Component { entity: e2, type_path: tp }
                    && e2 == entity && tp@ == comp_type.type_path@
                    && rr.path@.len() == 0
                    && exists|d: Value| #[trigger] is_default_of(comp_type, d)
                        && component_upserted(*old(self), *final(self), entity, comp_type.type_path@, d)),
    {
        if !self.has_entity_exec(entity) {
            return Err(BridgeError::InvalidRoot);
        }
        if !comp_type.is_component {
            return Err(BridgeError::NotAComponent);
        }
        let d: Value = match comp_type.shape {
            TypeShape::Struct => Value::Struct(Vec::new()),
            TypeShape::TupleStruct | TypeShape::Tuple => Value::List(Vec::new()),
            TypeShape::List | TypeShape::Array => Value::List(Vec::new()),
            TypeShape::Dict => Value::Dict(Vec::new()),
            TypeShape::Enum => Value::Enum(String::new(), Vec::new()),
            TypeShape::Opaque => match &comp_type.default_value {
                Some(dv) => clone_value(dv),
                None => {
                    return Err(BridgeError::NoDefaultValue);
                },
            },
        };
        proof {
            assert(is_default_of(comp_type, d));
        }
        let tp = comp_type.type_path.clone();
        self.insert_component(entity, tp, d);
        Ok(ReflectReference::new_component_ref(entity, comp_type.type_path))
    }

    /// Whether an entity with this id is live (executable form).
    pub fn has_entity_exec(&self, id: u64) -> (r: bool)
        ensures
            r == self.has_entity(id),
    {
        self.entity_position(id).is_some()
    }

    /// Fetches a world resource of the given registered type as a reflection
    /// reference, `Ok(None)` when no such resource exists.
    pub fn get_resource(&self, res_type: ScriptTypeRegistration)
        -> (r: Result<Option<ReflectReference>, BridgeError>)
        ensures
            !res_type.is_resource
                ==> r == Err::<Option<ReflectReference>, BridgeError>(BridgeError::NotAResource),
            res_type.is_resource ==> match field_index_spec(self.resources@, res_type.type_path@, 0) {
                Some(_) => r matches Ok(o) && o matches Some(rr)
                    && rr.root matches crate::reference::ReflectRoot::Resource { type_path: tp }
                    && tp@ == res_type.type_path@
                    && rr.path@.len() == 0,
                None => r matches Ok(o) && o is None,
            },
    {
        if !res_type.is_resource {
            return Err(BridgeError::NotAResource);
        }
        match comp_position(&self.resources, &res_type.type_path) {
            Some(_) => Ok(Some(ReflectReference::new_resource_ref(res_type.type_path))),
            None => Ok(None),
        }
    }

    /// Whether a world resource of the given registered type exists.
    pub fn has_resource(&self, res_type: ScriptTypeRegistration) -> (r: Result<bool, BridgeError>)
        ensures
            !res_type.is_resource ==> r == Err::<bool, BridgeError>(BridgeError::NotAResource),
            res_type.is_resource ==> r == Ok::<bool, BridgeError>(
                field_index_spec(self.resources@, res_type.type_path@, 0) is Some,
            ),
    {
        if !res_type.is_resource {
            return Err(BridgeError::NotAResource);
        }
        match comp_position(&self.resources, &res_type.type_path) {
            Some(_) => Ok(true),
            None => Ok(false),
        }
    }

    /// Removes a world resource of the given registered type; a missing
    /// resource is not an error.
    pub fn remove_resource(&mut self, res_type: ScriptTypeRegistration) -> (r: Result<(), BridgeError>)
        ensures
            !res_type.is_resource
                ==> r == Err::<(), BridgeError>(BridgeError::NotAResource) && *final(self) == *old(self),
            res_type.is_resource ==> r == Ok::<(), BridgeError>(())
                && match field_index_spec(old(self).resources@, res_type.type_path@, 0) {
                    Some(j) => {
                        &&& final(self).resources@ == old(self).resources@.remove(j)
                        &&& final(self).entities@ == old(self).entities@
                        &&& final(self).owned@ == old(self).owned@
                        &&& final(self).registry == old(self).registry
                        &&& final(self).next_id == old(self).next_id
                    },
                    None => *final(self) == *old(self),
                },
    {
        if !res_type.is_resource {
            return Err(BridgeError::NotAResource);
        }
        let j = match comp_position(&self.resources, &res_type.type_path) {
            Some(j) => j,
            None => {
                return Ok(());
            },
        };
        self.resources.remove(j);
        Ok(())
    }
}

/// Whether a vector of ids holds the given id.
#[verifier::loop_isolation(false)]
fn contains_u64(v: &Vec<u64>, x: u64) -> (r: bool)
    ensures
        r == v@.contains(x),
{
    let n = v.len();
    let mut i: usize = 0;
    while i < n
        invariant
            i <= n,
            forall|k: int| 0 <= k < i as int ==> v@[k] != x,
        decreases n - i,
    {
        if v[i] == x {
            return true;
        }
        i = i + 1;
    }
    false
}

/// An entity index of `Some` points at a record carrying the id.
pub proof fn lemma_entity_index_some(entities: Seq<EntityRecord>, id: u64, i: int)
    requires
        0 <= i <= entities.len(),
        entity_index_spec(entities, id, i) is Some,
    ensures
        ({
            let m = entity_index_spec(entities, id, i)->Some_0;
            i <= m < entities.len() && entities[m].id == id
        }),
    decreases entities.len() - i,
{
    if entities[i].id == id {
    } else {
        lemma_entity_index_some(entities, id, i + 1);
    }
}

/// An entity index of `None` means no record carries the id, and conversely.
pub proof fn lemma_entity_index_none(entities: Seq<EntityRecord>, id: u64, i: int)
    requires
        0 <= i <= entities.len(),
        entity_index_spec(entities, id, i) is None,
    ensures
        forall|k: int| i <= k < entities.len() ==> entities[k].id != id,
    decreases entities.len() - i,
{
    if i < entities.len() {
        lemma_entity_index_none(entities, id, i + 1);
    }
}

/// A children list with every id of `drop` removed, order of the rest kept.
pub open spec fn children_without(children: Seq<u64>, drop: Seq<u64>) -> Seq<u64>
    decreases children.len(),
{
    if children.len() == 0 {
        Seq::empty()
    } else {
        let rest = children_without(children.drop_last(), drop);
        if drop.contains(children.last()) {
            rest
        } else {
            rest.push(children.last())
        }
    }
}

/// Whether a record is due for removal in a recursive despawn: its own id, or
/// its parent, is already among the removed ids — except a record whose id is
/// explicitly kept.
pub open spec fn doomed_spec(e: EntityRecord, removed: Seq<u64>, keep: Option<u64>) -> bool {
    (match keep {
        Some(k) => e.id != k,
        None => true,
    }) && (removed.contains(e.id) || match e.parent {
        Some(p) => removed.contains(p),
        None => false,
    })
}

impl ScriptWorld {
    /// The position of the first record due for removal, if any.
    #[verifier::loop_isolation(false)]
    fn find_doomed(&self, removed: &Vec<u64>, keep: Option<u64>) -> (r: Option<usize>)
        ensures
            r matches Some(j) ==> j < self.entities@.len()
                && doomed_spec(self.entities@[j as int], removed@, keep),
            r is None ==> forall|m: int| 0 <= m < self.entities@.len()
                ==> !doomed_spec(#[trigger] self.entities@[m], removed@, keep),
    {
        let n = self.entities.len();
        let mut j: usize = 0;
        while j < n
            invariant
                j <= n,
                forall|m: int| 0 <= m < j as int
                    ==> !doomed_spec(#[trigger] self.entities@[m], removed@, keep),
            decreases n - j,
        {
            let kept = match keep {
                Some(k) => self.entities[j].id == k,
                None => false,
            };
            let doomed = !kept && (contains_u64(removed, self.entities[j].id)
                || match self.entities[j].parent {
                    Some(p) => contains_u64(removed, p),
                    None => false,
                });
            if doomed {
                return Some(j);
            }
            j = j + 1;
        }
        None
    }

    /// The children of an entity, in insertion order; an unknown entity has
    /// none.
    #[verifier::loop_isolation(false)]
    pub fn get_children(&self, parent: u64) -> (r: Vec<u64>)
        ensures
            match entity_index_spec(self.entities@, parent, 0) {
                Some(i) => r@ == self.entities@[i].children@,
                None => r@.len() == 0,
            },
    {
        let mut out: Vec<u64> = Vec::new();
        let i = match self.entity_position(parent) {
            Some(i) => i,
            None => {
                return out;
            },
        };
        let n = self.entities[i].children.len();
        let mut j: usize = 0;
        while j < n
            invariant
                j <= n,
                out@ == self.entities@[i as int].children@.take(j as int),
            decreases n - j,
        {
            out.push(self.entities[i].children[j]);
            proof {
                assert(out@ =~= self.entities@[i as int].children@.take(j as int + 1));
            }
            j = j + 1;
        }
        proof {
            assert(out@ =~= self.entities@[i as int].children@);
        }
        out
    }

    /// The parent of an entity, if it is live and parented.
    pub fn get_parent(&self, entity: u64) -> (r: Option<u64>)
        ensures
            match entity_index_spec(self.entities@, entity, 0) {
                Some(i) => r == self.entities@[i].parent,
                None => r is None,
            },
    {
        match self.entity_position(entity) {
            Some(i) => self.entities[i].parent,
            None => None,
        }
    }

    /// Appends a child to a parent's children and points the child's parent
    /// link at it. A missing parent, or a child equal to the parent, is a
    /// no-op.
    pub fn push_child(&mut self, parent: u64, child: u64)
        ensures
            (entity_index_spec(old(self).entities@, parent, 0) is None || parent == child)
                ==> *final(self) == *old(self),
            parent != child ==> (entity_index_spec(old(self).entities@, parent, 0) matches Some(i) ==> {
                &&& final(self).entities@.len() == old(self).entities@.len()
                &&& final(self).entities@[i].id == old(self).entities@[i].id
                &&& final(self).entities@[i].parent == old(self).entities@[i].parent
                &&& final(self).entities@[i].components@ == old(self).entities@[i].components@
                &&& final(self).entities@[i].children@ == old(self).entities@[i].children@.push(child)
                &&& forall|k: int| #![trigger final(self).entities@[k]]
                    0 <= k < old(self).entities@.len() && k != i ==> ({
                    let o = old(self).entities@[k];
                    let f = final(self).entities@[k];
                    &&& f.id == o.id
                    &&& f.children@ == o.children@
                    &&& f.components@ == o.components@
                    &&& f.parent == if o.id == child {
                        Some(parent)
                    } else {
                        o.parent
                    }
                })
                &&& final(self).resources@ == old(self).resources@
                &&& final(self).owned@ == old(self).owned@
                &&& final(self).registry == old(self).registry
                &&& final(self).next_id == old(self).next_id
            }),
    {
        if parent == child {
            return;
        }
        let i = match self.entity_position(parent) {
            Some(i) => i,
            None => {
                return;
            },
        };
        let mut rec = self.entities.remove(i);
        rec.children.push(child);
        let ghost rec2 = rec;
        self.entities.insert(i, rec);
        proof {
            assert(self.entities@ =~= old(self).entities@.update(i as int, rec2));
        }
        let ghost mid = self.entities@;
        let n = self.entities.len();
        let mut k: usize = 0;
        while k < n
            invariant
                n == mid.len(),
                k <= n,
                self.entities@.len() == mid.len(),
                forall|m: int| k as int <= m < n as int ==> self.entities@[m] == mid[m],
                forall|m: int| #![trigger self.entities@[m]] 0 <= m < k as int ==> ({
                    let o = mid[m];
                    let f = self.entities@[m];
                    &&& f.id == o.id
                    &&& f.children@ == o.children@
                    &&& f.components@ == o.components@
                    &&& f.parent == if o.id == child && m != i as int {
                        Some(parent)
                    } else {
                        o.parent
                    }
                }),
                self.resources@ == old(self).resources@,
                self.owned@ == old(self).owned@,
                self.registry == old(self).registry,
                self.next_id == old(self).next_id,
            decreases n - k,
        {
            if k != i && self.entities[k].id == child {
                let mut r2 = self.entities.remove(k);
                r2.parent = Some(parent);
                let ghost r2g = r2;
                let ghost before = self.entities@;
                self.entities.insert(k, r2);
                proof {
                    assert(self.entities@ =~= before.insert(k as int, r2g));
                }
            }
            k = k + 1;
        }
    }

    /// Detaches the listed children from a parent: they leave its children
    /// list, and each listed entity still parented under it loses its parent
    /// link. A missing parent is a no-op.
    pub fn remove_children(&mut self, parent: u64, children: &Vec<u64>)
        ensures
            entity_index_spec(old(self).entities@, parent, 0) is None ==> *final(self) == *old(self),
            entity_index_spec(old(self).entities@, parent, 0) matches Some(i) ==> ({
                &&& final(self).entities@.len() == old(self).entities@.len()
                &&& final(self).entities@[i].id == old(self).entities@[i].id
                &&& final(self).entities@[i].parent == old(self).entities@[i].parent
                &&& final(self).entities@[i].components@ == old(self).entities@[i].components@
                &&& final(self).entities@[i].children@
                    == children_without(old(self).entities@[i].children@, children@)
                &&& forall|k: int| #![trigger final(self).entities@[k]]
                    0 <= k < old(self).entities@.len() && k != i ==> ({
                    let o = old(self).entities@[k];
                    let f = final(self).entities@[k];
                    &&& f.id == o.id
                    &&& f.children@ == o.children@
                    &&& f.components@ == o.components@
                    &&& f.parent == if children@.contains(o.id) && o.parent == Some(parent) {
                        None
                    } else {
                        o.parent
                    }
                })
                &&& final(self).resources@ == old(self).resources@
                &&& final(self).owned@ == old(self).owned@
                &&& final(self).registry == old(self).registry
                &&& final(self).next_id == old(self).next_id
            }),
    {
        let i = match self.entity_position(parent) {
            Some(i) => i,
            None => {
                return;
            },
        };
        let mut rec = self.entities.remove(i);
        let ghost old_children = rec.children@;
        let n = rec.children.len();
        let mut kept: Vec<u64> = Vec::new();
        let mut j: usize = 0;
        proof {
            assert(old_children.take(0) =~= Seq::<u64>::empty());
        }
        while j < n
            invariant
                j <= n,
                n == old_children.len(),
                rec.children@ == old_children,
                kept@ == children_without(old_children.take(j as int), children@),
            decreases n - j,
        {
            proof {
                assert(old_children.take(j as int + 1).drop_last() =~= old_children.take(j as int));
                assert(old_children.take(j as int + 1).last() == old_children[j as int]);
            }
            let c = rec.children[j];
            if !contains_u64(children, c) {
                kept.push(c);
            }
            j = j + 1;
        }
        proof {
            assert(old_children.take(n as int) =~= old_children);
        }
        rec.children = kept;
        let ghost rec2 = rec;
        self.entities.insert(i, rec);
        proof {
            assert(self.entities@ =~= old(self).entities@.update(i as int, rec2));
        }
        let ghost mid = self.entities@;
        let total = self.entities.len();
        let mut k: usize = 0;
        while k < total
            invariant
                total == mid.len(),
                k <= total,
                self.entities@.len() == mid.len(),
                forall|m: int| k as int <= m < total as int ==> self.entities@[m] == mid[m],
                forall|m: int| #![trigger self.entities@[m]] 0 <= m < k as int ==> ({
                    let o = mid[m];
                    let f = self.entities@[m];
                    &&& f.id == o.id
                    &&& f.children@ == o.children@
                    &&& f.components@ == o.components@
                    &&& f.parent == if m != i as int && children@.contains(o.id)
                        && o.parent == Some(parent) {
                        None
                    } else {
                        o.parent
                    }
                }),
                self.resources@ == old(self).resources@,
                self.owned@ == old(self).owned@,
                self.registry == old(self).registry,
                self.next_id == old(self).next_id,
            decreases total - k,
        {
            let listed = contains_u64(children, self.entities[k].id);
            let pointed = match self.entities[k].parent {
                Some(p) => p == parent,
                None => false,
            };
            if k != i && listed && pointed {
                let mut r2 = self.entities.remove(k);
                r2.parent = None;
                let ghost r2g = r2;
                let ghost before = self.entities@;
                self.entities.insert(k, r2);
                proof {
                    assert(self.entities@ =~= before.insert(k as int, r2g));
                }
            }
            k = k + 1;
        }
    }

    /// Inserts the listed children into a parent's children list at the given
    /// position (clamped to the list's length) and points each listed entity's
    /// parent link at the parent. A missing parent is a no-op.
    pub fn insert_children(&mut self, parent: u64, index: usize, children: &Vec<u64>)
        ensures
            entity_index_spec(old(self).entities@, parent, 0) is None ==> *final(self) == *old(self),
            entity_index_spec(old(self).entities@, parent, 0) matches Some(i) ==> ({
                let m = if index as int <= old(self).entities@[i].children@.len() {
                    index as int
                } else {
                    old(self).entities@[i].children@.len() as int
                };
                &&& final(self).entities@.len() == old(self).entities@.len()
                &&& final(self).entities@[i].id == old(self).entities@[i].id
                &&& final(self).entities@[i].parent == old(self).entities@[i].parent
                &&& final(self).entities@[i].components@ == old(self).entities@[i].components@
                &&& final(self).entities@[i].children@
                    == old(self).entities@[i].children@.take(m) + children@
                        + old(self).entities@[i].children@.skip(m)
                &&& forall|k: int| #![trigger final(self).entities@[k]]
                    0 <= k < old(self).entities@.len() && k != i ==> ({
                    let o = old(self).entities@[k];
                    let f = final(self).entities@[k];
                    &&& f.id == o.id
                    &&& f.children@ == o.children@
                    &&& f.components@ == o.components@
                    &&& f.parent == if children@.contains(o.id) && o.id != parent {
                        Some(parent)
                    } else {
                        o.parent
                    }
                })
                &&& final(self).resources@ == old(self).resources@
                &&& final(self).owned@ == old(self).owned@
                &&& final(self).registry == old(self).registry
                &&& final(self).next_id == old(self).next_id
            }),
    {
        let i = match self.entity_position(parent) {
            Some(i) => i,
            None => {
                return;
            },
        };
        let mut rec = self.entities.remove(i);
        let ghost old_children = rec.children@;
        let n = rec.children.len();
        let m: usize = if index <= n {
            index
        } else {
            n
        };
        let mut spliced: Vec<u64> = Vec::new();
        let mut j: usize = 0;
        while j < m
            invariant
                j <= m,
                m <= n,
                n == old_children.len(),
                rec.children@ == old_children,
                spliced@ == old_children.take(j as int),
            decreases m - j,
        {
            spliced.push(rec.children[j]);
            proof {
                assert(spliced@ =~= old_children.take(j as int + 1));
            }
            j = j + 1;
        }
        let extra = children.len();
        let mut a: usize = 0;
        while a < extra
            invariant
                a <= extra,
                extra == children@.len(),
                m <= n,
                n == old_children.len(),
                rec.children@ == old_children,
                spliced@ == old_children.take(m as int) + children@.take(a as int),
            decreases extra - a,
        {
            spliced.push(children[a]);
            proof {
                assert(children@.take(a as int + 1) =~= children@.take(a as int).push(children@[a as int]));
                assert(spliced@ =~= old_children.take(m as int) + children@.take(a as int + 1));
            }
            a = a + 1;
        }
        proof {
            assert(children@.take(extra as int) =~= children@);
        }
        let mut b: usize = m;
        while b < n
            invariant
                m <= b <= n,
                n == old_children.len(),
                rec.children@ == old_children,
                spliced@ == old_children.take(m as int) + children@
                    + old_children.skip(m as int).take(b as int - m as int),
            decreases n - b,
        {
            spliced.push(rec.children[b]);
            proof {
                assert(old_children.skip(m as int).take(b as int + 1 - m as int)
                    =~= old_children.skip(m as int).take(b as int - m as int).push(old_children[b as int]));
                assert(spliced@ =~= old_children.take(m as int) + children@
                    + old_children.skip(m as int).take(b as int + 1 - m as int));
            }
            b = b + 1;
        }
        proof {
            assert(old_children.skip(m as int).take(n as int - m as int) =~= old_children.skip(m as int));
        }
        rec.children = spliced;
        let ghost rec2 = rec;
        self.entities.insert(i, rec);
        proof {
            assert(self.entities@ =~= old(self).entities@.update(i as int, rec2));
        }
        let ghost mid = self.entities@;
        let total = self.entities.len();
        let mut k: usize = 0;
        while k < total
            invariant
                total == mid.len(),
                k <= total,
                self.entities@.len() == mid.len(),
                forall|g: int| k as int <= g < total as int ==> self.entities@[g] == mid[g],
                forall|g: int| #![trigger self.entities@[g]] 0 <= g < k as int ==> ({
                    let o = mid[g];
                    let f = self.entities@[g];
                    &&& f.id == o.id
                    &&& f.children@ == o.children@
                    &&& f.components@ == o.components@
                    &&& f.parent == if g != i as int && children@.contains(o.id) && o.id != parent {
                        Some(parent)
                    } else {
                        o.parent
                    }
                }),
                self.resources@ == old(self).resources@,
                self.owned@ == old(self).owned@,
                self.registry == old(self).registry,
                self.next_id == old(self).next_id,
            decreases total - k,
        {
            let listed = contains_u64(children, self.entities[k].id);
            if k != i && listed && self.entities[k].id != parent {
                let mut r2 = self.entities.remove(k);
                r2.parent = Some(parent);
                let ghost r2g = r2;
                let ghost before = self.entities@;
                self.entities.insert(k, r2);
                proof {
                    assert(self.entities@ =~= before.insert(k as int, r2g));
                }
            }
            k = k + 1;
        }
    }

    /// Despawns an entity and, transitively, every entity parented (directly
    /// or through other despawned entities) under it. Afterwards the entity is
    /// gone, only entities of the old world remain, and no surviving entity is
    /// parented under one this call removed.
    pub fn despawn_recursive(&mut self, entity: u64)
        ensures
            !final(self).has_entity(entity),
            forall|k: int| 0 <= k < final(self).entities@.len()
                ==> old(self).entities@.contains(#[trigger] final(self).entities@[k]),
            forall|k: int| 0 <= k < final(self).entities@.len()
                ==> match (#[trigger] final(self).entities@[k]).parent {
                    Some(p) => final(self).has_entity(p) || !old(self).has_entity(p),
                    None => true,
                },
            final(self).resources@ == old(self).resources@,
            final(self).owned@ == old(self).owned@,
            final(self).registry == old(self).registry,
            final(self).next_id == old(self).next_id,
    {
        let mut removed: Vec<u64> = Vec::new();
        removed.push(entity);
        proof {
            assert(removed@[0] == entity);
        }
        loop
            invariant
                removed@.contains(entity),
                forall|k: int| 0 <= k < self.entities@.len()
                    ==> old(self).entities@.contains(#[trigger] self.entities@[k]),
                forall|id: u64| #![trigger removed@.contains(id)]
                    (exists|m: int| 0 <= m < old(self).entities@.len()
                        && old(self).entities@[m].id == id)
                    && !(exists|m: int| 0 <= m < self.entities@.len()
                        && self.entities@[m].id == id)
                    ==> removed@.contains(id),
                self.resources@ == old(self).resources@,
                self.owned@ == old(self).owned@,
                self.registry == old(self).registry,
                self.next_id == old(self).next_id,
            ensures
                forall|k: int| 0 <= k < self.entities@.len()
                    ==> !doomed_spec(#[trigger] self.entities@[k], removed@, None),
            decreases self.entities.len(),
        {
            let hit = self.find_doomed(&removed, None);
            match hit {
                Some(idx) => {
                    let ghost before = self.entities@;
                    let ghost removed_before = removed@;
                    let rec = self.entities.remove(idx);
                    removed.push(rec.id);
                    proof {
                        let we = choose|w: int| 0 <= w < removed_before.len()
                            && removed_before[w] == entity;
                        assert(removed@[we] == entity);
                        assert forall|k: int| 0 <= k < self.entities@.len()
                            implies old(self).entities@.contains(#[trigger] self.entities@[k]) by {
                            if k < idx {
                                assert(self.entities@[k] == before[k]);
                            } else {
                                assert(self.entities@[k] == before[k + 1]);
                            }
                        }
                        assert forall|id: u64|
                            (exists|m: int| 0 <= m < old(self).entities@.len()
                                && old(self).entities@[m].id == id)
                            && !(exists|m: int| 0 <= m < self.entities@.len()
                                && self.entities@[m].id == id)
                            implies #[trigger] removed@.contains(id) by {
                            if removed_before.contains(id) {
                                let w = choose|w: int| 0 <= w < removed_before.len()
                                    && removed_before[w] == id;
                                assert(removed@[w] == id);
                            } else if id == rec.id {
                                assert(removed@.last() == rec.id);
                            } else {
                                let m0 = choose|m0: int| 0 <= m0 < before.len() && before[m0].id == id;
                                if m0 < idx {
                                    assert(self.entities@[m0].id == id);
                                } else if m0 > idx {
                                    assert(self.entities@[m0 - 1].id == id);
                                } else {
                                    assert(before[idx as int] == rec);
                                }
                            }
                        }
                    }
                },
                None => {
                    break;
                },
            }
        }
        proof {
            assert forall|k: int| 0 <= k < self.entities@.len()
                implies (#[trigger] self.entities@[k]).id != entity by {
                assert(!removed@.contains(self.entities@[k].id));
            }
            lemma_entity_index_shift(self.entities@, entity, 0, self.entities@.len() as int);
            assert forall|k: int| 0 <= k < self.entities@.len()
                implies match (#[trigger] self.entities@[k]).parent {
                    Some(p) => entity_index_spec(self.entities@, p, 0) is Some
                        || entity_index_spec(old(self).entities@, p, 0) is None,
                    None => true,
                } by {
                match self.entities@[k].parent {
                    Some(p) => {
                        if entity_index_spec(self.entities@, p, 0) is None {
                            lemma_entity_index_none(self.entities@, p, 0);
                            match entity_index_spec(old(self).entities@, p, 0) {
                                Some(mi) => {
                                    lemma_entity_index_some(old(self).entities@, p, 0);
                                    assert(old(self).entities@[mi].id == p);
                                    assert(removed@.contains(p));
                                    assert(!removed@.contains(p));
                                },
                                None => {},
                            }
                        }
                    },
                    None => {},
                }
            }
        }
    }

    /// Despawns an entity's whole subtree but keeps the entity itself: every
    /// entity parented (directly or transitively) under it is removed.
    pub fn despawn_children_recursive(&mut self, entity: u64)
        ensures
            old(self).has_entity(entity) ==> final(self).has_entity(entity),
            forall|k: int| 0 <= k < final(self).entities@.len()
                ==> old(self).entities@.contains(#[trigger] final(self).entities@[k]),
            forall|k: int| 0 <= k < final(self).entities@.len()
                && (#[trigger] final(self).entities@[k]).id != entity
                ==> match final(self).entities@[k].parent {
                    Some(p) => final(self).has_entity(p) || !old(self).has_entity(p),
                    None => true,
                },
            final(self).resources@ == old(self).resources@,
            final(self).owned@ == old(self).owned@,
            final(self).registry == old(self).registry,
            final(self).next_id == old(self).next_id,
    {
        let mut removed: Vec<u64> = Vec::new();
        removed.push(entity);
        proof {
            assert(removed@[0] == entity);
        }
        loop
            invariant
                removed@.contains(entity),
                forall|k: int| 0 <= k < self.entities@.len()
                    ==> old(self).entities@.contains(#[trigger] self.entities@[k]),
                (exists|m: int| 0 <= m < self.entities@.len()
                    && (#[trigger] self.entities@[m].id) == entity)
                    == (exists|m: int| 0 <= m < old(self).entities@.len()
                        && (#[trigger] old(self).entities@[m].id) == entity),
                forall|id: u64| #![trigger removed@.contains(id)]
                    (exists|m: int| 0 <= m < old(self).entities@.len()
                        && old(self).entities@[m].id == id)
                    && !(exists|m: int| 0 <= m < self.entities@.len()
                        && self.entities@[m].id == id)
                    ==> removed@.contains(id),
                self.resources@ == old(self).resources@,
                self.owned@ == old(self).owned@,
                self.registry == old(self).registry,
                self.next_id == old(self).next_id,
            ensures
                forall|k: int| 0 <= k < self.entities@.len()
                    ==> !doomed_spec(#[trigger] self.entities@[k], removed@, Some(entity)),
            decreases self.entities.len(),
        {
            let hit = self.find_doomed(&removed, Some(entity));
            match hit {
                Some(idx) => {
                    let ghost before = self.entities@;
                    let ghost removed_before = removed@;
                    let rec = self.entities.remove(idx);
                    removed.push(rec.id);
                    proof {
                        let we = choose|w: int| 0 <= w < removed_before.len()
                            && removed_before[w] == entity;
                        assert(removed@[we] == entity);
                        assert forall|k: int| 0 <= k < self.entities@.len()
                            implies old(self).entities@.contains(#[trigger] self.entities@[k]) by {
                            if k < idx {
                                assert(self.entities@[k] == before[k]);
                            } else {
                                assert(self.entities@[k] == before[k + 1]);
                            }
                        }
                        if exists|m: int| 0 <= m < before.len() && (#[trigger] before[m].id) == entity {
                            let m0 = choose|m0: int| 0 <= m0 < before.len() && before[m0].id == entity;
                            assert(rec.id != entity);
                            if m0 < idx {
                                assert(self.entities@[m0].id == entity);
                            } else {
                                assert(before[idx as int] == rec);
                                assert(m0 != idx);
                                assert(self.entities@[m0 - 1].id == entity);
                            }
                        }
                        assert forall|id: u64|
                            (exists|m: int| 0 <= m < old(self).entities@.len()
                                && old(self).entities@[m].id == id)
                            && !(exists|m: int| 0 <= m < self.entities@.len()
                                && self.entities@[m].id == id)
                            implies #[trigger] removed@.contains(id) by {
                            if removed_before.contains(id) {
                                let w = choose|w: int| 0 <= w < removed_before.len()
                                    && removed_before[w] == id;
                                assert(removed@[w] == id);
                            } else if id == rec.id {
                                assert(removed@.last() == rec.id);
                            } else {
                                let m0 = choose|m0: int| 0 <= m0 < before.len() && before[m0].id == id;
                                if m0 < idx {
                                    assert(self.entities@[m0].id == id);
                                } else if m0 > idx {
                                    assert(self.entities@[m0 - 1].id == id);
                                } else {
                                    assert(before[idx as int] == rec);
                                }
                            }
                        }
                    }
                },
                None => {
                    break;
                },
            }
        }
        proof {
            if entity_index_spec(old(self).entities@, entity, 0) is Some {
                lemma_entity_index_some(old(self).entities@, entity, 0);
                if entity_index_spec(self.entities@, entity, 0) is None {
                    lemma_entity_index_none(self.entities@, entity, 0);
                }
            }
            assert forall|k: int| 0 <= k < self.entities@.len()
                && (#[trigger] self.entities@[k]).id != entity
                implies match self.entities@[k].parent {
                    Some(p) => entity_index_spec(self.entities@, p, 0) is Some
                        || entity_index_spec(old(self).entities@, p, 0) is None,
                    None => true,
                } by {
                match self.entities@[k].parent {
                    Some(p) => {
                        if entity_index_spec(self.entities@, p, 0) is None {
                            lemma_entity_index_none(self.entities@, p, 0);
                            match entity_index_spec(old(self).entities@, p, 0) {
                                Some(mi) => {
                                    lemma_entity_index_some(old(self).entities@, p, 0);
                                    assert(old(self).entities@[mi].id == p);
                                    assert(removed@.contains(p));
                                    assert(!removed@.contains(p));
                                },
                                None => {},
                            }
                        }
                    },
                    None => {},
                }
            }
        }
    }
}

/// Find a value's position by type path in a component or resource table.
#[verifier::loop_isolation(false)]
pub(crate) fn comp_position(table: &Vec<(String, Value)>, type_path: &String) -> (r: Option<usize>)
    ensures
        r matches Some(j) ==> field_index_spec(table@, type_path@, 0) == Some(j as int)
            && j < table@.len() && table@[j as int].0@ == type_path@,
        r is None ==> field_index_spec(table@, type_path@, 0) is None,
{
    let n = table.len();
    let mut i: usize = 0;
    while i < n
        invariant
            i <= n,
            forall|k: int| 0 <= k < i as int ==> table@[k].0@ != type_path@,
        decreases n - i,
    {
        if table[i].0 == *type_path {
            proof {
                lemma_field_index_shift(table@, type_path@, 0, i as int);
            }
            return Some(i);
        }
        i = i + 1;
    }
    proof {
        lemma_field_index_shift(table@, type_path@, 0, n as int);
    }
    None
}

} // verus!
