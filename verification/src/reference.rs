//! Reflection references and the dereference protocol.
//!
//! A `ReflectReference` is inert path data: a root (a component on an entity,
//! a world resource, or an owned value) and a sequence of access steps. It
//! holds no borrow of host data; every dereference revalidates the root
//! against the current world and re-walks the path.

use vstd::prelude::*;
use crate::error::BridgeError;
use crate::value::{AccessStep, Value, apply_step, apply_step_spec, is_set_path, resolve_path_spec, set_in_value, field_index_spec, lemma_field_index_shift};
use crate::world::{ScriptWorld, entity_index_spec, lemma_entity_index_shift};

verus! {

/// The root a reflection reference starts from.
#[derive(Debug)]
pub enum ReflectRoot {
    /// A component of the given registered type attached to an entity.
    Component { entity: u64, type_path: String },
    /// A world-global resource of the given registered type.
    Resource { type_path: String },
    /// A value owned by the bridge itself, held in the world's owned-value
    /// arena (results of operator bindings live here).
    Owned { id: usize },
}

/// An inert, copyable handle to a value reachable through reflection.
#[derive(Debug)]
pub struct ReflectReference {
    /// Where the walk starts.
    pub root: ReflectRoot,
    /// The access steps applied to the root, in order.
    pub path: Vec<AccessStep>,
}

impl ReflectReference {
    /// A reference to a whole component on an entity.
    pub fn new_component_ref(entity: u64, type_path: String) -> (r: Self)
        ensures
            r.root == (ReflectRoot::Component { entity, type_path }),
            r.path@.len() == 0,
    {
        ReflectReference { root: ReflectRoot::Component { entity, type_path }, path: Vec::new() }
    }

    /// A reference to a whole world resource.
    pub fn new_resource_ref(type_path: String) -> (r: Self)
        ensures
            r.root == (ReflectRoot::Resource { type_path }),
            r.path@.len() == 0,
    {
        ReflectReference { root: ReflectRoot::Resource { type_path }, path: Vec::new() }
    }

    /// A reference to a value in the owned-value arena.
    pub fn new_owned_ref(id: usize) -> (r: Self)
        ensures
            r.root == (ReflectRoot::Owned { id }),
            r.path@.len() == 0,
    {
        ReflectReference { root: ReflectRoot::Owned { id }, path: Vec::new() }
    }

    /// The same reference with one more access step appended; created when a
    /// binding yields a nested or container value to script code.
    pub fn pushed(self, step: AccessStep) -> (r: Self)
        ensures
            r.root == self.root,
            r.path@ == self.path@.push(step),
    {
        let ReflectReference { root, mut path } = self;
        path.push(step);
        ReflectReference { root, path }
    }
}

/// What resolving a reference's root yields: the root value, or `InvalidRoot`
/// exactly when the root entity, component or resource no longer exists.
pub open spec fn resolve_root_spec(w: ScriptWorld, root: ReflectRoot) -> Result<Value, BridgeError> {
    match root {
        ReflectRoot::Component { entity, type_path } => match entity_index_spec(w.entities@, entity, 0) {
            Some(i) => match field_index_spec(w.entities@[i].components@, type_path@, 0) {
                Some(j) => Ok(w.entities@[i].components@[j].1),
                None => Err(BridgeError::InvalidRoot),
            },
            None => Err(BridgeError::InvalidRoot),
        },
        ReflectRoot::Resource { type_path } => match field_index_spec(w.resources@, type_path@, 0) {
            Some(j) => Ok(w.resources@[j].1),
            None => Err(BridgeError::InvalidRoot),
        },
        ReflectRoot::Owned { id } => if (id as int) < w.owned@.len() {
            Ok(w.owned@[id as int])
        } else {
            Err(BridgeError::InvalidRoot)
        },
    }
}

/// The full dereference: resolve the root, then apply each path step in order.
pub open spec fn resolve_ref_spec(w: ScriptWorld, r: ReflectReference) -> Result<Value, BridgeError> {
    match resolve_root_spec(w, r.root) {
        Ok(v) => resolve_path_spec(v, r.path@),
        Err(e) => Err(e),
    }
}

/// A reference whose root no longer exists resolves to `InvalidRoot`, whatever
/// its path holds.
pub proof fn lemma_invalid_root(w: ScriptWorld, r: ReflectReference)
    requires
        resolve_root_spec(w, r.root) is Err,
    ensures
        resolve_ref_spec(w, r) == Err::<Value, BridgeError>(BridgeError::InvalidRoot),
{
}

/// Path traversal composes: walking `p1 + p2` is walking `p1`, then walking
/// `p2` from wherever `p1` arrived. Hence a resolved reference, extended by
/// further steps, reaches exactly the value that manual traversal reaches.
pub proof fn lemma_resolve_path_concat(v: Value, p1: Seq<AccessStep>, p2: Seq<AccessStep>)
    ensures
        resolve_path_spec(v, p1 + p2) == match resolve_path_spec(v, p1) {
            Ok(m) => resolve_path_spec(m, p2),
            Err(e) => Err(e),
        },
    decreases p1.len(),
{
    if p1.len() == 0 {
        assert(p1 + p2 =~= p2);
    } else {
        assert((p1 + p2)[0] == p1[0]);
        assert((p1 + p2).drop_first() =~= p1.drop_first() + p2);
        match apply_step_spec(v, p1[0]) {
            Ok(child) => {
                lemma_resolve_path_concat(child, p1.drop_first(), p2);
            },
            Err(_) => {},
        }
    }
}

/// Resolving a reference extended by one step applies that step to what the
/// reference resolved to.
pub proof fn lemma_resolve_extend(w: ScriptWorld, r: ReflectReference, step: AccessStep, ext: ReflectReference)
    requires
        ext.root == r.root,
        ext.path@ == r.path@.push(step),
    ensures
        resolve_ref_spec(w, ext) == match resolve_ref_spec(w, r) {
            Ok(m) => apply_step_spec(m, step),
            Err(e) => Err(e),
        },
{
    assert(ext.path@ =~= r.path@ + seq![step]);
    assert(seq![step].len() == 1);
    assert(seq![step][0] == step);
    match resolve_root_spec(w, r.root) {
        Ok(v) => {
            lemma_resolve_path_concat(v, r.path@, seq![step]);
            match resolve_path_spec(v, r.path@) {
                Ok(m) => {
                    assert(seq![step].drop_first() =~= Seq::<AccessStep>::empty());
                    match apply_step_spec(m, step) {
                        Ok(c) => {
                            assert(resolve_path_spec(c, Seq::<AccessStep>::empty()) == Ok::<Value, BridgeError>(c));
                        },
                        Err(_) => {},
                    }
                },
                Err(_) => {},
            }
        },
        Err(_) => {},
    }
}

/// Dereference a reflection reference against the current world: resolve the
/// root, then apply each path step in order, failing fast. Never allocates
/// host data; only navigates existing storage.
#[verifier::loop_isolation(false)]
pub fn resolve<'a>(r: &ReflectReference, world: &'a ScriptWorld) -> (res: Result<&'a Value, BridgeError>)
    ensures
        res matches Ok(v) ==> resolve_ref_spec(*world, *r) == Ok::<Value, BridgeError>(*v),
        res matches Err(e) ==> resolve_ref_spec(*world, *r) == Err::<Value, BridgeError>(e),
{
    let root_val: &Value = match resolve_root(r, world) {
        Ok(v) => v,
        Err(e) => {
            return Err(e);
        },
    };
    let ghost path = r.path@;
    proof {
        assert(path.skip(0) =~= path);
    }
    let mut cur: &Value = root_val;
    let mut i: usize = 0;
    while i < r.path.len()
        invariant
            i <= path.len(),
            resolve_path_spec(*root_val, path) == resolve_path_spec(*cur, path.skip(i as int)),
        decreases path.len() - i,
    {
        proof {
            assert(path.skip(i as int)[0] == path[i as int]);
            assert(path.skip(i as int).drop_first() =~= path.skip(i as int + 1));
        }
        match apply_step(cur, &r.path[i]) {
            Ok(child) => {
                cur = child;
            },
            Err(e) => {
                return Err(e);
            },
        }
        i = i + 1;
    }
    proof {
        assert(path.skip(path.len() as int) =~= Seq::<AccessStep>::empty());
    }
    Ok(cur)
}

/// The world `w1` is `w0` with the root location of `root` holding `rv`;
/// nothing else differs. The root must exist in `w0`.
pub open spec fn root_written(w0: ScriptWorld, w1: ScriptWorld, root: ReflectRoot, rv: Value) -> bool {
    match root {
        ReflectRoot::Component { entity, type_path } => {
            &&& entity_index_spec(w0.entities@, entity, 0) matches Some(i)
            &&& field_index_spec(w0.entities@[entity_index_spec(w0.entities@, entity, 0)->Some_0].components@, type_path@, 0) is Some
            &&& ({
                let i = entity_index_spec(w0.entities@, entity, 0)->Some_0;
                let j = field_index_spec(w0.entities@[i].components@, type_path@, 0)->Some_0;
                &&& w1.entities@.len() == w0.entities@.len()
                &&& forall|k: int| 0 <= k < w0.entities@.len() && k != i
                    ==> w1.entities@[k] == w0.entities@[k]
                &&& w1.entities@[i].id == w0.entities@[i].id
                &&& w1.entities@[i].parent == w0.entities@[i].parent
                &&& w1.entities@[i].children@ == w0.entities@[i].children@
                &&& w1.entities@[i].components@.len() == w0.entities@[i].components@.len()
                &&& forall|k: int| 0 <= k < w0.entities@[i].components@.len() && k != j
                    ==> w1.entities@[i].components@[k] == w0.entities@[i].components@[k]
                &&& w1.entities@[i].components@[j].0 == w0.entities@[i].components@[j].0
                &&& w1.entities@[i].components@[j].1 == rv
                &&& w1.resources@ == w0.resources@
                &&& w1.owned@ == w0.owned@
                &&& w1.registry == w0.registry
                &&& w1.next_id == w0.next_id
            })
        },
        ReflectRoot::Resource { type_path } => {
            &&& field_index_spec(w0.resources@, type_path@, 0) matches Some(j)
            &&& ({
                let j = field_index_spec(w0.resources@, type_path@, 0)->Some_0;
                &&& w1.resources@.len() == w0.resources@.len()
                &&& forall|k: int| 0 <= k < w0.resources@.len() && k != j
                    ==> w1.resources@[k] == w0.resources@[k]
                &&& w1.resources@[j].0 == w0.resources@[j].0
                &&& w1.resources@[j].1 == rv
                &&& w1.entities@ == w0.entities@
                &&& w1.owned@ == w0.owned@
                &&& w1.registry == w0.registry
                &&& w1.next_id == w0.next_id
            })
        },
        ReflectRoot::Owned { id } => {
            &&& (id as int) < w0.owned@.len()
            &&& w1.owned@ == w0.owned@.update(id as int, rv)
            &&& w1.entities@ == w0.entities@
            &&& w1.resources@ == w0.resources@
            &&& w1.registry == w0.registry
            &&& w1.next_id == w0.next_id
        },
    }
}

/// The symmetric write: resolve the reference's root under exclusive world
/// access, rewrite the value its path addresses, and store the rebuilt root
/// value back. Same algorithm and error taxonomy as `resolve`; only the
/// access mode differs.
pub fn write_reference(r: &ReflectReference, world: &mut ScriptWorld, nv: Value)
    -> (res: Result<(), BridgeError>)
    ensures
        resolve_root_spec(*old(world), r.root) matches Err(e)
            ==> res == Err::<(), BridgeError>(e) && *final(world) == *old(world),
        resolve_root_spec(*old(world), r.root) matches Ok(rootv) ==> match res {
            Err(e) => resolve_path_spec(rootv, r.path@) == Err::<Value, BridgeError>(e)
                && *final(world) == *old(world),
            Ok(()) => resolve_path_spec(rootv, r.path@) is Ok && exists|rv: Value|
                is_set_path(rootv, r.path@, 0, nv, rv)
                    && #[trigger] root_written(*old(world), *final(world), r.root, rv),
        },
{
    proof {
        assert(r.path@.skip(0) =~= r.path@);
    }
    match &r.root {
        crate::reference::ReflectRoot::Component { entity, type_path } => {
            let i = match world.entity_position(*entity) {
                Some(i) => i,
                None => {
                    return Err(BridgeError::InvalidRoot);
                },
            };
            let j = match crate::world::comp_position(&world.entities[i].components, type_path) {
                Some(j) => j,
                None => {
                    return Err(BridgeError::InvalidRoot);
                },
            };
            let rv = match set_in_value(&world.entities[i].components[j].1, &r.path, 0, nv) {
                Ok(rv) => rv,
                Err(e) => {
                    return Err(e);
                },
            };
            let ghost rvg = rv;
            let mut rec = world.entities.remove(i);
            let pair = rec.components.remove(j);
            rec.components.insert(j, (pair.0, rv));
            let ghost rec2 = rec;
            world.entities.insert(i, rec);
            proof {
                assert(world.entities@ =~= old(world).entities@.update(i as int, rec2));
                assert(root_written(*old(world), *world, r.root, rvg));
            }
            Ok(())
        },
        crate::reference::ReflectRoot::Resource { type_path } => {
            let j = match crate::world::comp_position(&world.resources, type_path) {
                Some(j) => j,
                None => {
                    return Err(BridgeError::InvalidRoot);
                },
            };
            let rv = match set_in_value(&world.resources[j].1, &r.path, 0, nv) {
                Ok(rv) => rv,
                Err(e) => {
                    return Err(e);
                },
            };
            let ghost rvg = rv;
            let pair = world.resources.remove(j);
            world.resources.insert(j, (pair.0, rv));
            proof {
                assert(root_written(*old(world), *world, r.root, rvg));
            }
            Ok(())
        },
        crate::reference::ReflectRoot::Owned { id } => {
            if *id >= world.owned.len() {
                return Err(BridgeError::InvalidRoot);
            }
            let rv = match set_in_value(&world.owned[*id], &r.path, 0, nv) {
                Ok(rv) => rv,
                Err(e) => {
                    return Err(e);
                },
            };
            let ghost rvg = rv;
            world.owned.remove(*id);
            world.owned.insert(*id, rv);
            proof {
                assert(world.owned@ =~= old(world).owned@.update(*id as int, rvg));
                assert(root_written(*old(world), *world, r.root, rvg));
            }
            Ok(())
        },
    }
}

/// Resolve only the root of a reference.
#[verifier::loop_isolation(false)]
pub fn resolve_root<'a>(r: &ReflectReference, world: &'a ScriptWorld) -> (res: Result<&'a Value, BridgeError>)
    ensures
        res matches Ok(v) ==> resolve_root_spec(*world, r.root) == Ok::<Value, BridgeError>(*v),
        res matches Err(e) ==> resolve_root_spec(*world, r.root) == Err::<Value, BridgeError>(e),
{
    match &r.root {
        ReflectRoot::Component { entity, type_path } => {
            let n = world.entities.len();
            let mut i: usize = 0;
            while i < n
                invariant
                    i <= n,
                    forall|k: int| 0 <= k < i as int ==> world.entities@[k].id != entity,
                decreases n - i,
            {
                if world.entities[i].id == *entity {
                    proof {
                        lemma_entity_index_shift(world.entities@, *entity, 0, i as int);
                    }
                    return lookup_component(&world.entities[i].components, type_path);
                }
                i = i + 1;
            }
            proof {
                lemma_entity_index_shift(world.entities@, *entity, 0, n as int);
            }
            Err(BridgeError::InvalidRoot)
        },
        ReflectRoot::Resource { type_path } => lookup_component(&world.resources, type_path),
        ReflectRoot::Owned { id } => {
            if *id < world.owned.len() {
                Ok(&world.owned[*id])
            } else {
                Err(BridgeError::InvalidRoot)
            }
        },
    }
}

/// Find a value by type path in a component or resource table; absence is an
/// invalid root.
#[verifier::loop_isolation(false)]
fn lookup_component<'a>(table: &'a Vec<(String, Value)>, type_path: &String) -> (res: Result<&'a Value, BridgeError>)
    ensures
        res matches Ok(v) ==> field_index_spec(table@, type_path@, 0) matches Some(j)
            && *v == table@[j].1,
        res matches Err(e) ==> field_index_spec(table@, type_path@, 0) is None
            && e == BridgeError::InvalidRoot,
{
    let n = table.len();
    let mut i: usize = 0;
    while i < n
        invariant
            i <= n,
            forall|k: int| 0 <= k < i as int ==> table@[k].0@ != type_path@,
        decreases n - i,
    {
        if table[i].0 == *type_path {
            proof {
                lemma_field_index_shift(table@, type_path@, 0, i as int);
            }
            return Ok(&table[i].1);
        }
        i = i + 1;
    }
    proof {
        lemma_field_index_shift(table@, type_path@, 0, n as int);
    }
    Err(BridgeError::InvalidRoot)
}

} // verus!
