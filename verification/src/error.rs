//! Error taxonomy of the bridge.
//!
//! `BridgeError` covers failures while navigating reflected data; `ScriptError`
//! covers script lifecycle and runtime failures surfaced to the host;
//! `GenerationError` is raised only by the offline binding-generation pass.

use vstd::prelude::*;

verus! {

/// A recoverable failure while dereferencing a reflection reference.
#[derive(Debug, Clone, PartialEq, Eq, Structural)]
pub enum BridgeError {
    /// The root entity or resource of the reference no longer exists.
    InvalidRoot,
    /// A path step's kind disagrees with the shape of the value it is applied to.
    TypeMismatch,
    /// A field-by-name step names a field the struct does not have.
    NoSuchField,
    /// A numeric index step is out of range for the list it is applied to.
    IndexOutOfRange,
    /// A map-key step uses a key the map does not contain.
    NoSuchKey,
    /// The named type is registered but carries no component capability.
    NotAComponent,
    /// The named type is registered but carries no resource capability.
    NotAResource,
    /// The type's shape requires an explicit default value and none is registered.
    NoDefaultValue,
}

impl BridgeError {
    /// A short, stable description of the error kind.
    pub fn message(&self) -> (r: &'static str)
        ensures
            r@ == self.message_spec(),
    {
        match self {
            BridgeError::InvalidRoot => "invalid root",
            BridgeError::TypeMismatch => "type mismatch",
            BridgeError::NoSuchField => "no such field",
            BridgeError::IndexOutOfRange => "index out of range",
            BridgeError::NoSuchKey => "no such key",
            BridgeError::NotAComponent => "not a component",
            BridgeError::NotAResource => "not a resource",
            BridgeError::NoDefaultValue => "no default value",
        }
    }

    /// What `message` returns for each variant.
    pub open spec fn message_spec(&self) -> Seq<char> {
        match self {
            BridgeError::InvalidRoot => "invalid root"@,
            BridgeError::TypeMismatch => "type mismatch"@,
            BridgeError::NoSuchField => "no such field"@,
            BridgeError::IndexOutOfRange => "index out of range"@,
            BridgeError::NoSuchKey => "no such key"@,
            BridgeError::NotAComponent => "not a component"@,
            BridgeError::NotAResource => "not a resource"@,
            BridgeError::NoDefaultValue => "no default value"@,
        }
    }
}

/// A script lifecycle or runtime failure, tagged with the script it came from.
#[derive(Debug, Clone)]
pub enum ScriptError {
    /// The script source failed to load or execute; fatal to that script's
    /// activation, not to the host.
    LoadError { script: String, msg: String },
    /// An uncaught failure during a hook invocation.
    RuntimeError { script: String, msg: String },
    /// Any other failure, described in prose.
    Other { msg: String },
}

/// A build-time failure of the binding-generation pass; never seen at runtime.
#[derive(Debug, Clone)]
pub enum GenerationError {
    /// A declared operator's operand or return shape cannot be mapped to a
    /// known primitive or reflectable shape.
    UnmappableShape { type_path: String },
}

} // verus!
