use script_bridge::error::BridgeError;
use script_bridge::reference::{resolve, write_reference, ReflectReference};
use script_bridge::registry::{ScriptTypeRegistration, TypeRegistry};
use script_bridge::value::{clone_value, AccessStep, TypeShape, Value};
use script_bridge::world::ScriptWorld;

fn vec2_registration() -> ScriptTypeRegistration {
    ScriptTypeRegistration::new(
        "Vec2".to_string(),
        "game::math::Vec2".to_string(),
        TypeShape::Struct,
        true,
        false,
        None,
    )
}

fn tag_not_component() -> ScriptTypeRegistration {
    ScriptTypeRegistration::new(
        "Tag".to_string(),
        "game::Tag".to_string(),
        TypeShape::Struct,
        false,
        false,
        None,
    )
}

fn score_resource() -> ScriptTypeRegistration {
    ScriptTypeRegistration::new(
        "Score".to_string(),
        "game::Score".to_string(),
        TypeShape::Opaque,
        false,
        true,
        None,
    )
}

fn vec2_value(x: i64, y: i64) -> Value {
    Value::Struct(vec![
        ("x".to_string(), Value::Int(x)),
        ("y".to_string(), Value::Int(y)),
    ])
}

fn world_with_vec2() -> ScriptWorld {
    let mut registry = TypeRegistry::new();
    registry.register(vec2_registration());
    ScriptWorld::new(registry)
}

#[test]
fn resolve_component_and_field() {
    let mut world = world_with_vec2();
    let e = world.spawn();
    assert!(world.insert_component(e, "game::math::Vec2".to_string(), vec2_value(1, 2)));

    let r = world
        .get_component(e, vec2_registration())
        .unwrap()
        .unwrap();
    assert_eq!(resolve(&r, &world).unwrap(), &vec2_value(1, 2));

    // Extending the resolved reference by a field step reaches the same value
    // as manual traversal from the root.
    let rx = r.pushed(AccessStep::Field("x".to_string()));
    let manual = match vec2_value(1, 2) {
        Value::Struct(fields) => clone_value(&fields[0].1),
        _ => Value::Unit,
    };
    assert_eq!(resolve(&rx, &world).unwrap(), &Value::Int(1));
    assert_eq!(resolve(&rx, &world).unwrap(), &manual);
}

#[test]
fn resolve_nested_steps() {
    let mut world = world_with_vec2();
    let e = world.spawn();
    let nested = Value::Struct(vec![(
        "items".to_string(),
        Value::List(vec![Value::Int(7), Value::Dict(vec![(4, Value::Int(9))])]),
    )]);
    assert!(world.insert_component(e, "game::math::Vec2".to_string(), nested));

    let r = ReflectReference::new_component_ref(e, "game::math::Vec2".to_string())
        .pushed(AccessStep::Field("items".to_string()))
        .pushed(AccessStep::Index(1))
        .pushed(AccessStep::Key(4));
    assert_eq!(resolve(&r, &world).unwrap(), &Value::Int(9));
}

#[test]
fn resolve_step_errors() {
    let mut world = world_with_vec2();
    let e = world.spawn();
    assert!(world.insert_component(e, "game::math::Vec2".to_string(), vec2_value(1, 2)));

    let bad_field = ReflectReference::new_component_ref(e, "game::math::Vec2".to_string())
        .pushed(AccessStep::Field("z".to_string()));
    assert_eq!(resolve(&bad_field, &world), Err(BridgeError::NoSuchField));

    let bad_kind = ReflectReference::new_component_ref(e, "game::math::Vec2".to_string())
        .pushed(AccessStep::Index(0));
    assert_eq!(resolve(&bad_kind, &world), Err(BridgeError::TypeMismatch));

    let into_leaf = ReflectReference::new_component_ref(e, "game::math::Vec2".to_string())
        .pushed(AccessStep::Field("x".to_string()))
        .pushed(AccessStep::Field("w".to_string()));
    assert_eq!(resolve(&into_leaf, &world), Err(BridgeError::TypeMismatch));
}

#[test]
fn resolve_list_and_map_errors() {
    let mut world = world_with_vec2();
    let e = world.spawn();
    let v = Value::Struct(vec![
        ("l".to_string(), Value::List(vec![Value::Int(1)])),
        ("m".to_string(), Value::Dict(vec![(1, Value::Int(2))])),
    ]);
    assert!(world.insert_component(e, "game::math::Vec2".to_string(), v));

    let oob = ReflectReference::new_component_ref(e, "game::math::Vec2".to_string())
        .pushed(AccessStep::Field("l".to_string()))
        .pushed(AccessStep::Index(3));
    assert_eq!(resolve(&oob, &world), Err(BridgeError::IndexOutOfRange));

    let nokey = ReflectReference::new_component_ref(e, "game::math::Vec2".to_string())
        .pushed(AccessStep::Field("m".to_string()))
        .pushed(AccessStep::Key(9));
    assert_eq!(resolve(&nokey, &world), Err(BridgeError::NoSuchKey));
}

#[test]
fn write_reference_updates_only_the_addressed_value() {
    let mut world = world_with_vec2();
    let e = world.spawn();
    assert!(world.insert_component(e, "game::math::Vec2".to_string(), vec2_value(1, 2)));

    let rx = ReflectReference::new_component_ref(e, "game::math::Vec2".to_string())
        .pushed(AccessStep::Field("x".to_string()));
    write_reference(&rx, &mut world, Value::Int(10)).unwrap();

    let whole = ReflectReference::new_component_ref(e, "game::math::Vec2".to_string());
    assert_eq!(resolve(&whole, &world).unwrap(), &vec2_value(10, 2));

    // Writing through a path that does not resolve fails with the same error
    // reading it would give, and changes nothing.
    let bad = ReflectReference::new_component_ref(e, "game::math::Vec2".to_string())
        .pushed(AccessStep::Field("z".to_string()));
    assert_eq!(
        write_reference(&bad, &mut world, Value::Int(0)).unwrap_err(),
        BridgeError::NoSuchField
    );
    assert_eq!(resolve(&whole, &world).unwrap(), &vec2_value(10, 2));

    // Writing through a stale root is an invalid root, never a crash.
    let stale = ReflectReference::new_component_ref(999, "game::math::Vec2".to_string());
    assert_eq!(
        write_reference(&stale, &mut world, Value::Int(0)).unwrap_err(),
        BridgeError::InvalidRoot
    );
}

#[test]
fn invalid_root_never_crashes() {
    let mut world = world_with_vec2();
    let e = world.spawn();
    assert!(world.insert_component(e, "game::math::Vec2".to_string(), vec2_value(1, 2)));
    let r = world
        .get_component(e, vec2_registration())
        .unwrap()
        .unwrap();

    // The root entity goes away; the stale reference resolves to InvalidRoot.
    world.despawn_recursive(e);
    assert_eq!(resolve(&r, &world), Err(BridgeError::InvalidRoot));

    // A resource root that never existed behaves the same.
    let rr = ReflectReference::new_resource_ref("game::Missing".to_string());
    assert_eq!(resolve(&rr, &world), Err(BridgeError::InvalidRoot));

    // And a missing entity root.
    let re = ReflectReference::new_component_ref(999, "game::math::Vec2".to_string());
    assert_eq!(resolve(&re, &world), Err(BridgeError::InvalidRoot));
}

#[test]
fn component_ops_and_errors() {
    let mut world = world_with_vec2();
    let e = world.spawn();

    assert_eq!(
        world.get_component(999, vec2_registration()).unwrap_err(),
        BridgeError::InvalidRoot
    );
    assert_eq!(
        world.get_component(e, tag_not_component()).unwrap_err(),
        BridgeError::NotAComponent
    );
    assert!(world.get_component(e, vec2_registration()).unwrap().is_none());

    assert!(world.insert_component(e, "game::math::Vec2".to_string(), vec2_value(3, 4)));
    assert!(world.has_component(e, vec2_registration()).unwrap());
    assert!(world.get_component(e, vec2_registration()).unwrap().is_some());

    assert_eq!(
        world.has_component(e, tag_not_component()).unwrap_err(),
        BridgeError::NotAComponent
    );
    assert_eq!(
        world.has_component(999, vec2_registration()).unwrap_err(),
        BridgeError::InvalidRoot
    );

    world.remove_component(e, vec2_registration()).unwrap();
    assert!(!world.has_component(e, vec2_registration()).unwrap());
    assert_eq!(
        world.remove_component(999, vec2_registration()).unwrap_err(),
        BridgeError::InvalidRoot
    );
}

#[test]
fn add_default_component_by_shape() {
    let mut world = world_with_vec2();
    let e = world.spawn();

    let r = world.add_default_component(e, vec2_registration()).unwrap();
    assert_eq!(resolve(&r, &world).unwrap(), &Value::Struct(vec![]));

    let opaque_no_default = ScriptTypeRegistration::new(
        "Counter".to_string(),
        "game::Counter".to_string(),
        TypeShape::Opaque,
        true,
        false,
        None,
    );
    assert_eq!(
        world.add_default_component(e, opaque_no_default).unwrap_err(),
        BridgeError::NoDefaultValue
    );

    let opaque_with_default = ScriptTypeRegistration::new(
        "Counter".to_string(),
        "game::Counter".to_string(),
        TypeShape::Opaque,
        true,
        false,
        Some(Value::Int(41)),
    );
    let rc = world.add_default_component(e, opaque_with_default).unwrap();
    assert_eq!(resolve(&rc, &world).unwrap(), &Value::Int(41));

    assert_eq!(
        world.add_default_component(999, vec2_registration()).unwrap_err(),
        BridgeError::InvalidRoot
    );
}

#[test]
fn resource_ops_and_errors() {
    let mut world = world_with_vec2();

    assert_eq!(
        world.get_resource(vec2_registration()).unwrap_err(),
        BridgeError::NotAResource
    );
    assert!(world.get_resource(score_resource()).unwrap().is_none());

    world.insert_resource("game::Score".to_string(), Value::Int(10));
    assert!(world.has_resource(score_resource()).unwrap());
    let r = world.get_resource(score_resource()).unwrap().unwrap();
    assert_eq!(resolve(&r, &world).unwrap(), &Value::Int(10));

    assert_eq!(
        world.has_resource(vec2_registration()).unwrap_err(),
        BridgeError::NotAResource
    );
    assert_eq!(
        world.remove_resource(vec2_registration()).unwrap_err(),
        BridgeError::NotAResource
    );

    world.remove_resource(score_resource()).unwrap();
    assert!(!world.has_resource(score_resource()).unwrap());
}

#[test]
fn type_lookup_prefers_full_path() {
    let mut registry = TypeRegistry::new();
    registry.register(ScriptTypeRegistration::new(
        "Vec2".to_string(),
        "alpha::other::Vec2".to_string(),
        TypeShape::Struct,
        true,
        false,
        None,
    ));
    registry.register(ScriptTypeRegistration::new(
        "Vec2".to_string(),
        "game::math::Vec2".to_string(),
        TypeShape::Struct,
        true,
        false,
        None,
    ));
    let world = ScriptWorld::new(registry);

    // Exact full-path match wins even when a short name matched earlier.
    let t = world.get_type_by_name("game::math::Vec2").unwrap();
    assert_eq!(t.full_path(), "game::math::Vec2");

    // Short-name lookup falls back to the first short-name match.
    let s = world.get_type_by_name("Vec2").unwrap();
    assert_eq!(s.full_path(), "alpha::other::Vec2");
    assert_eq!(s.short_name(), "Vec2");

    assert!(world.get_type_by_name("game::Nope").is_none());
}

#[test]
fn hierarchy_links() {
    let mut world = world_with_vec2();
    let parent = world.spawn();
    let a = world.spawn();
    let b = world.spawn();

    assert!(world.get_children(parent).is_empty());
    assert_eq!(world.get_parent(a), None);

    world.push_child(parent, a);
    world.push_child(parent, b);
    assert_eq!(world.get_children(parent), vec![a, b]);
    assert_eq!(world.get_parent(a), Some(parent));
    assert_eq!(world.get_parent(b), Some(parent));

    // Unknown parents and self-parenting are no-ops.
    world.push_child(999, a);
    world.push_child(parent, parent);
    assert_eq!(world.get_children(parent), vec![a, b]);
}

#[test]
fn insert_and_remove_children() {
    let mut world = world_with_vec2();
    let parent = world.spawn();
    let a = world.spawn();
    let b = world.spawn();
    let c = world.spawn();
    world.push_child(parent, a);
    world.push_child(parent, c);

    // Insertion lands at the given position and links the children's parents.
    world.insert_children(parent, 1, &vec![b]);
    assert_eq!(world.get_children(parent), vec![a, b, c]);
    assert_eq!(world.get_parent(b), Some(parent));

    // An out-of-range position clamps to the end.
    let d = world.spawn();
    world.insert_children(parent, 99, &vec![d]);
    assert_eq!(world.get_children(parent), vec![a, b, c, d]);

    // Removal detaches exactly the listed children.
    world.remove_children(parent, &vec![b, d]);
    assert_eq!(world.get_children(parent), vec![a, c]);
    assert_eq!(world.get_parent(b), None);
    assert_eq!(world.get_parent(d), None);
    assert_eq!(world.get_parent(a), Some(parent));

    // A missing parent is a no-op.
    world.remove_children(999, &vec![a]);
    assert_eq!(world.get_parent(a), Some(parent));
}

#[test]
fn despawn_children_recursive_keeps_the_root() {
    let mut world = world_with_vec2();
    let root = world.spawn();
    let mid = world.spawn();
    let leaf = world.spawn();
    let bystander = world.spawn();
    world.push_child(root, mid);
    world.push_child(mid, leaf);

    world.despawn_children_recursive(root);
    assert!(world.has_entity_exec(root));
    assert!(!world.has_entity_exec(mid));
    assert!(!world.has_entity_exec(leaf));
    assert!(world.has_entity_exec(bystander));
}

#[test]
fn despawn_recursive_removes_subtree() {
    let mut world = world_with_vec2();
    let root = world.spawn();
    let mid = world.spawn();
    let leaf = world.spawn();
    let bystander = world.spawn();
    world.push_child(root, mid);
    world.push_child(mid, leaf);

    world.despawn_recursive(root);
    // The whole chain is gone; the bystander survives.
    assert!(!world.has_entity_exec(root));
    assert!(!world.has_entity_exec(mid));
    assert!(!world.has_entity_exec(leaf));
    assert!(world.has_entity_exec(bystander));
}
