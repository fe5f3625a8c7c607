use std::collections::HashSet;

use script_bridge::bindings::{LuaMethod, OpName};
use script_bridge::codegen::{codegen, template_files, TemplateKind};

#[test]
fn test_templates_exist() {
    let template_files: HashSet<&str> = template_files().into_iter().collect();

    TemplateKind::variants().iter().for_each(|f| {
        assert!(
            template_files.contains(f),
            "Template file not in variants: {}",
            f
        );
    });
}

#[test]
fn codegen_renders_the_crate_artifact() {
    let methods = vec![
        LuaMethod {
            metamethod: "__add".to_string(),
            op: OpName::Add,
            operand_by_ref: true,
            wraps_result: true,
            result_type: "game::math::Vec2".to_string(),
        },
        LuaMethod {
            metamethod: "__unm".to_string(),
            op: OpName::Neg,
            operand_by_ref: true,
            wraps_result: true,
            result_type: "game::math::Vec2".to_string(),
        },
    ];
    let (file_name, contents) = codegen("game_api", &methods);
    assert_eq!(file_name, "game_api.rs");
    assert_eq!(
        contents,
        "// bridge bindings for game_api\nregister(\"__add\")\nregister(\"__unm\")\n"
    );
}

#[test]
fn codegen_of_no_methods_is_just_the_header() {
    let methods: Vec<LuaMethod> = Vec::new();
    let (file_name, contents) = codegen("empty", &methods);
    assert_eq!(file_name, "empty.rs");
    assert_eq!(contents, "// bridge bindings for empty\n");
}
