//! A scripting bridge: lets an embedded, dynamically typed scripting language
//! read, mutate and invoke operations on a host application's reflection-capable
//! entity/component/resource data, and delivers named events into per-script
//! callback hooks.

pub mod bindings;
pub mod codegen;
pub mod docs;
pub mod error;
pub mod event;
pub mod host;
pub mod lua_api;
pub mod reference;
pub mod registry;
pub mod value;
pub mod world;
