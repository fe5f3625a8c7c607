//! Events delivered to scripts and notifications emitted by the host.

use vstd::prelude::*;
use crate::error::ScriptError;

verus! {

/// Which script contexts receive an event.
#[derive(Debug, Clone, Copy, PartialEq, Eq, Structural)]
pub enum Recipients {
    /// Every live script.
    All,
    /// Every script attached to the given entity.
    Entity(u64),
    /// The single script instance with the given id.
    ScriptID(u32),
}

impl Recipients {
    /// Whether a context with this script id and owning entity is selected.
    pub open spec fn selects_spec(&self, sid: u32, entity: u64) -> bool {
        match self {
            Recipients::All => true,
            Recipients::Entity(e) => entity == e,
            Recipients::ScriptID(s) => sid == s,
        }
    }

    /// Executable form of `selects_spec`.
    pub fn selects(&self, sid: u32, entity: u64) -> (r: bool)
        ensures
            r == self.selects_spec(sid, entity),
    {
        match self {
            Recipients::All => true,
            Recipients::Entity(e) => entity == *e,
            Recipients::ScriptID(s) => sid == *s,
        }
    }
}

/// A value allowed as a hook callback argument.
#[derive(Debug, Clone, Copy, PartialEq, Eq, Structural)]
pub enum LuaCallbackArgument {
    Integer(i64),
}

/// One scripting event: the hook to call, its arguments, and who receives it.
#[derive(Debug, Clone)]
pub struct LuaEvent {
    /// The name of the global callback the event targets.
    pub hook_name: String,
    /// The arguments handed to the callback, in order.
    pub args: Vec<LuaCallbackArgument>,
    /// Which contexts receive this event.
    pub recipients: Recipients,
}

/// A trait for events to be handled by scripts.
pub trait ScriptEvent: Send + Sync + Clone + 'static {
    /// Retrieves the recipient scripts for this event.
    fn recipients(&self) -> &Recipients;
}

impl ScriptEvent for LuaEvent {
    fn recipients(&self) -> &Recipients {
        &self.recipients
    }
}

/// An error coming from a script, surfaced to the host as an event; one is
/// emitted per failure, never batched.
#[derive(Debug, Clone)]
pub struct ScriptErrorEvent {
    pub error: ScriptError,
}

/// Emitted when a script was loaded or re-loaded (with a hot-reload),
/// guaranteed to be sent for every script at least once and immediately after
/// it's loaded.
#[derive(Debug, Clone, Copy, PartialEq, Eq, Structural)]
pub struct ScriptLoaded {
    /// The instance id of the freshly loaded script.
    pub sid: u32,
}

} // verus!
