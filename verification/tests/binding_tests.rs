use script_bridge::bindings::{
    apply_binary, apply_unary, make_binary_ops, make_unary_ops, metamethod_name, DeriveFlag,
    LuaMethod, Newtype, OpDecl, OpName, ScriptValue,
};
use script_bridge::error::{BridgeError, GenerationError};
use script_bridge::reference::resolve;
use script_bridge::registry::TypeRegistry;
use script_bridge::value::{TypeShape, Value};
use script_bridge::world::ScriptWorld;

fn vec2_value(x: i64, y: i64) -> Value {
    Value::Struct(vec![
        ("x".to_string(), Value::Int(x)),
        ("y".to_string(), Value::Int(y)),
    ])
}

fn add_method() -> LuaMethod {
    LuaMethod {
        metamethod: "__add".to_string(),
        op: OpName::Add,
        operand_by_ref: true,
        wraps_result: true,
        result_type: "game::math::Vec2".to_string(),
    }
}

fn sub_method() -> LuaMethod {
    LuaMethod {
        metamethod: "__sub".to_string(),
        op: OpName::Sub,
        operand_by_ref: true,
        wraps_result: true,
        result_type: "game::math::Vec2".to_string(),
    }
}

fn eq_method() -> LuaMethod {
    LuaMethod {
        metamethod: "__eq".to_string(),
        op: OpName::Eq,
        operand_by_ref: true,
        wraps_result: false,
        result_type: "game::math::Vec2".to_string(),
    }
}

#[test]
fn generated_add_on_owned_vec2() {
    let mut world = ScriptWorld::new(TypeRegistry::new());
    let a = world.new_owned(vec2_value(1, 2));
    let b = world.new_owned(vec2_value(3, 4));

    let r = apply_binary(&mut world, &add_method(), &a, &ScriptValue::Reference(b)).unwrap();
    match r {
        ScriptValue::Reference(rr) => {
            assert_eq!(resolve(&rr, &world).unwrap(), &vec2_value(4, 6));
        }
        other => panic!("expected a wrapped owned-value reference, got {:?}", other),
    }
}

#[test]
fn generated_sub_and_integer_passthrough() {
    let mut world = ScriptWorld::new(TypeRegistry::new());
    let a = world.new_owned(Value::Int(10));
    let r = apply_binary(&mut world, &sub_method(), &a, &ScriptValue::Integer(4)).unwrap();
    match r {
        ScriptValue::Integer(n) => assert_eq!(n, 6),
        other => panic!("expected a primitive pass-through, got {:?}", other),
    }
}

#[test]
fn generated_eq_compares_deeply() {
    let mut world = ScriptWorld::new(TypeRegistry::new());
    let a = world.new_owned(vec2_value(1, 2));
    let b = world.new_owned(vec2_value(1, 2));
    let c = world.new_owned(vec2_value(9, 2));

    let ab = apply_binary(&mut world, &eq_method(), &a, &ScriptValue::Reference(b)).unwrap();
    assert!(matches!(ab, ScriptValue::Boolean(true)));
    let ac = apply_binary(&mut world, &eq_method(), &a, &ScriptValue::Reference(c)).unwrap();
    assert!(matches!(ac, ScriptValue::Boolean(false)));
}

#[test]
fn mismatched_shapes_are_a_type_error() {
    let mut world = ScriptWorld::new(TypeRegistry::new());
    let a = world.new_owned(vec2_value(1, 2));
    let b = world.new_owned(Value::List(vec![Value::Int(1)]));
    assert_eq!(
        apply_binary(&mut world, &add_method(), &a, &ScriptValue::Reference(b)).unwrap_err(),
        BridgeError::TypeMismatch
    );
    assert_eq!(
        apply_binary(&mut world, &add_method(), &a, &ScriptValue::Boolean(true)).unwrap_err(),
        BridgeError::TypeMismatch
    );
}

#[test]
fn generated_negation_on_owned_vec2() {
    let mut world = ScriptWorld::new(TypeRegistry::new());
    let a = world.new_owned(vec2_value(1, -2));
    let neg = LuaMethod {
        metamethod: "__unm".to_string(),
        op: OpName::Neg,
        operand_by_ref: true,
        wraps_result: true,
        result_type: "game::math::Vec2".to_string(),
    };
    let r = apply_unary(&mut world, &neg, &a).unwrap();
    match r {
        ScriptValue::Reference(rr) => {
            assert_eq!(resolve(&rr, &world).unwrap(), &vec2_value(-1, 2));
        }
        other => panic!("expected a wrapped owned-value reference, got {:?}", other),
    }

    let s = world.new_owned(Value::Str("no".to_string()));
    assert_eq!(
        apply_unary(&mut world, &neg, &s).unwrap_err(),
        BridgeError::TypeMismatch
    );
}

#[test]
fn unary_op_generation_follows_metadata() {
    let newtype = Newtype {
        wrapper_type: "game::math::Vec2".to_string(),
    };
    let flag = DeriveFlag::UnaryOps {
        ops: vec![OpDecl {
            op: OpName::Neg,
            operand_by_ref: true,
            returns_wrapped: true,
            operand_shape: Some(TypeShape::Struct),
        }],
    };
    let mut out: Vec<LuaMethod> = Vec::new();
    make_unary_ops(&flag, &newtype, &mut out).unwrap();
    assert_eq!(out.len(), 1);
    assert_eq!(out[0].metamethod, "__unm");
    assert!(out[0].operand_by_ref);
    assert!(out[0].wraps_result);
    assert_eq!(out[0].result_type, "game::math::Vec2");
}

#[test]
fn binary_op_generation_and_unmappable_shape() {
    let newtype = Newtype {
        wrapper_type: "game::math::Vec2".to_string(),
    };
    let good = DeriveFlag::BinOps {
        ops: vec![
            OpDecl {
                op: OpName::Add,
                operand_by_ref: false,
                returns_wrapped: true,
                operand_shape: Some(TypeShape::Struct),
            },
            OpDecl {
                op: OpName::Eq,
                operand_by_ref: true,
                returns_wrapped: false,
                operand_shape: Some(TypeShape::Struct),
            },
        ],
    };
    let mut out: Vec<LuaMethod> = Vec::new();
    make_binary_ops(&good, &newtype, &mut out).unwrap();
    assert_eq!(out.len(), 2);
    assert_eq!(out[0].metamethod, "__add");
    assert!(!out[0].operand_by_ref);
    assert_eq!(out[1].metamethod, "__eq");
    assert!(out[1].operand_by_ref);

    let bad = DeriveFlag::BinOps {
        ops: vec![OpDecl {
            op: OpName::Sub,
            operand_by_ref: false,
            returns_wrapped: true,
            operand_shape: None,
        }],
    };
    let mut out2: Vec<LuaMethod> = Vec::new();
    let err = make_binary_ops(&bad, &newtype, &mut out2).unwrap_err();
    match err {
        GenerationError::UnmappableShape { type_path } => {
            assert_eq!(type_path.as_str(), "game::math::Vec2");
        }
    }
    assert!(out2.is_empty());
}

#[test]
fn metamethod_names_cover_the_operator_set() {
    assert_eq!(metamethod_name(OpName::Add), "__add");
    assert_eq!(metamethod_name(OpName::Sub), "__sub");
    assert_eq!(metamethod_name(OpName::Eq), "__eq");
    assert_eq!(metamethod_name(OpName::Neg), "__unm");
    assert_eq!(metamethod_name(OpName::Index), "__index");
}

#[test]
fn stale_owned_reference_is_invalid_root() {
    let world = ScriptWorld::new(TypeRegistry::new());
    let stale = script_bridge::reference::ReflectReference::new_owned_ref(5);
    assert_eq!(resolve(&stale, &world), Err(BridgeError::InvalidRoot));
}
