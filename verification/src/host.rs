//! Script contexts, the host lifecycle state machine, and event dispatch.
//!
//! A `ScriptContext` owns one interpreter instance for one script attached to
//! one entity. `ScriptContexts` is the host's set of live (Active) contexts;
//! script-add, script-remove and hot-reload transitions mutate it, and
//! `handle_events` delivers a batch of events to every live context in batch
//! order, collecting one error event per failed hook invocation — a failing
//! invocation never stops delivery to other events or contexts.
//!
//! World access during a hook is not cached inside any context: bindings take
//! the world as an explicit argument at every dereference.

use vstd::prelude::*;
use crate::error::ScriptError;
use crate::event::{LuaCallbackArgument, LuaEvent, ScriptErrorEvent, ScriptLoaded};
use crate::lua_api::{lua_call_global, lua_get_global_int, lua_has_global_function, lua_load_exec, lua_new, lua_set_global_int};

verus! {

/// A lua code file in bytes.
#[derive(Debug)]
pub struct LuaFile {
    /// The script source, as loaded from the asset store.
    pub bytes: Vec<u8>,
}

impl LuaFile {
    /// The raw script source.
    pub fn bytes(&self) -> (r: &[u8])
        ensures
            r@ == self.bytes@,
    {
        self.bytes.as_slice()
    }
}

/// One interpreter instance plus its identity: lifecycle-tied to one script
/// asset attached to one entity. Replaced wholesale on hot-reload.
pub struct ScriptContext {
    /// The interpreter; no borrow of host data is ever cached inside it
    /// between invocations.
    pub lua: rlua::Lua,
    /// The entity this script is attached to.
    pub entity: u64,
    /// The monotonic script-instance id (detects stale hot-reload races).
    pub sid: u32,
    /// The script's name, used in diagnostics.
    pub name: String,
}

impl ScriptContext {
    /// Reads an integer global from this context's interpreter; lets the host
    /// (and tests) observe script effects.
    pub fn get_global_int(&self, name: &str) -> Option<i64> {
        lua_get_global_int(&self.lua, name)
    }

    /// Whether the script currently defines a global function of this name.
    pub fn has_hook(&self, name: &str) -> bool {
        lua_has_global_function(&self.lua, name)
    }
}

/// The index of the first context with the given script id, scanning from `i`.
pub open spec fn sid_index_spec(ctxs: Seq<ScriptContext>, sid: u32, i: int) -> Option<int>
    decreases ctxs.len() - i,
{
    if i < 0 || i >= ctxs.len() {
        None
    } else if ctxs[i].sid == sid {
        Some(i)
    } else {
        sid_index_spec(ctxs, sid, i + 1)
    }
}

pub proof fn lemma_sid_index_shift(ctxs: Seq<ScriptContext>, sid: u32, i: int, j: int)
    requires
        0 <= i <= j <= ctxs.len(),
        forall|k: int| i <= k < j ==> ctxs[k].sid != sid,
    ensures
        sid_index_spec(ctxs, sid, i) == sid_index_spec(ctxs, sid, j),
    decreases j - i,
{
    if i < j {
        lemma_sid_index_shift(ctxs, sid, i + 1, j);
    }
}

/// The context sequence with every context of the given entity removed, order
/// of the rest preserved.
pub open spec fn remove_entity_spec(s: Seq<ScriptContext>, entity: u64) -> Seq<ScriptContext>
    decreases s.len(),
{
    if s.len() == 0 {
        Seq::empty()
    } else {
        let rest = remove_entity_spec(s.drop_last(), entity);
        if s.last().entity == entity {
            rest
        } else {
            rest.push(s.last())
        }
    }
}

/// After removal, no context of that entity remains, and every remaining
/// context stood in the input.
pub proof fn lemma_remove_entity_absent(s: Seq<ScriptContext>, entity: u64)
    ensures
        forall|k: int| 0 <= k < remove_entity_spec(s, entity).len()
            ==> #[trigger] remove_entity_spec(s, entity)[k].entity != entity
                && s.contains(remove_entity_spec(s, entity)[k]),
    decreases s.len(),
{
    if s.len() > 0 {
        lemma_remove_entity_absent(s.drop_last(), entity);
        let res = remove_entity_spec(s, entity);
        let prev = remove_entity_spec(s.drop_last(), entity);
        assert(forall|k: int| 0 <= k < s.drop_last().len() ==> s.drop_last()[k] == s[k]);
        assert forall|c: ScriptContext| s.drop_last().contains(c) implies s.contains(c) by {
            let k0 = choose|k0: int| 0 <= k0 < s.drop_last().len() && s.drop_last()[k0] == c;
            assert(s[k0] == c);
        }
        if s.last().entity == entity {
            assert(res == prev);
        } else {
            assert(res == prev.push(s.last()));
            assert(forall|k: int| 0 <= k < prev.len() ==> res[k] == prev[k]);
            assert(res[res.len() - 1] == s.last());
            assert(s.contains(s.last()));
        }
    }
}

/// One attempted hook invocation during a dispatch pass.
pub struct InvocationRecord {
    /// The receiving script instance.
    pub sid: u32,
    /// The entity that script is attached to.
    pub entity: u64,
    /// The position of the delivered event in the batch.
    pub event_index: usize,
    /// The receiving script's name.
    pub script_name: String,
    /// What the interpreter did with the invocation.
    pub outcome: InvokeOutcome,
}

/// What one hook invocation came to.
pub enum InvokeOutcome {
    /// The script defines no global of the hook's name: silently skipped,
    /// explicitly not an error.
    NotSubscribed,
    /// The hook ran to completion.
    Succeeded,
    /// The hook raised a runtime error, carried here.
    Failed(String),
}

/// The identity of a record: which script got which event.
pub open spec fn rec_view(r: InvocationRecord) -> (u32, u64, int) {
    (r.sid, r.entity, r.event_index as int)
}

/// The deliveries one context receives from the events before `n`, in batch
/// order: one per event whose recipients select this context.
pub open spec fn ctx_plan(sid: u32, entity: u64, events: Seq<LuaEvent>, n: int) -> Seq<(u32, u64, int)>
    decreases n,
{
    if n <= 0 {
        Seq::empty()
    } else {
        let prev = ctx_plan(sid, entity, events, n - 1);
        if events[n - 1].recipients.selects_spec(sid, entity) {
            prev.push((sid, entity, n - 1))
        } else {
            prev
        }
    }
}

/// The deliveries of a whole dispatch pass over the first `m` contexts: each
/// context's plan in turn, contexts in registration order.
pub open spec fn dispatch_plan_upto(ctxs: Seq<ScriptContext>, events: Seq<LuaEvent>, m: int) -> Seq<(u32, u64, int)>
    decreases m,
{
    if m <= 0 {
        Seq::empty()
    } else {
        dispatch_plan_upto(ctxs, events, m - 1)
            + ctx_plan(ctxs[m - 1].sid, ctxs[m - 1].entity, events, events.len() as int)
    }
}

/// Every delivery a dispatch pass makes, in order.
pub open spec fn dispatch_plan(ctxs: Seq<ScriptContext>, events: Seq<LuaEvent>) -> Seq<(u32, u64, int)> {
    dispatch_plan_upto(ctxs, events, ctxs.len() as int)
}

/// Each context receives its selected events in the exact batch order
/// `E1..En`: within one context's plan the event indices are strictly
/// increasing, every planned delivery is a selected event, and every selected
/// event is planned. A context not selected for an event (or later found not
/// to subscribe to its hook) affects no other delivery.
pub proof fn lemma_ctx_plan_ordered(sid: u32, entity: u64, events: Seq<LuaEvent>, n: int)
    requires
        n <= events.len(),
    ensures
        forall|k1: int, k2: int| 0 <= k1 < k2 < ctx_plan(sid, entity, events, n).len()
            ==> #[trigger] ctx_plan(sid, entity, events, n)[k1].2
                < #[trigger] ctx_plan(sid, entity, events, n)[k2].2,
        forall|k: int| #![trigger ctx_plan(sid, entity, events, n)[k]] 0 <= k < ctx_plan(sid, entity, events, n).len()
            ==> 0 <= ctx_plan(sid, entity, events, n)[k].2 < n
                && events[ctx_plan(sid, entity, events, n)[k].2].recipients.selects_spec(sid, entity)
                && ctx_plan(sid, entity, events, n)[k].0 == sid
                && ctx_plan(sid, entity, events, n)[k].1 == entity,
        forall|j: int| 0 <= j < n && #[trigger] events[j].recipients.selects_spec(sid, entity)
            ==> exists|k: int| 0 <= k < ctx_plan(sid, entity, events, n).len()
                && #[trigger] ctx_plan(sid, entity, events, n)[k].2 == j,
    decreases n,
{
    if n > 0 {
        lemma_ctx_plan_ordered(sid, entity, events, n - 1);
        let prev = ctx_plan(sid, entity, events, n - 1);
        if events[n - 1].recipients.selects_spec(sid, entity) {
            let cur = prev.push((sid, entity, n - 1));
            assert(forall|k: int| 0 <= k < prev.len() ==> cur[k] == prev[k]);
            assert(cur.last().2 == n - 1);
            assert forall|j: int| 0 <= j < n && #[trigger] events[j].recipients.selects_spec(sid, entity)
                implies exists|k: int| 0 <= k < cur.len() && #[trigger] cur[k].2 == j by {
                if j == n - 1 {
                    assert(cur[cur.len() - 1].2 == j);
                } else {
                    let k0 = choose|k0: int| 0 <= k0 < prev.len() && #[trigger] prev[k0].2 == j;
                    assert(cur[k0].2 == j);
                }
            }
        } else {
            assert(ctx_plan(sid, entity, events, n) == prev);
        }
    }
}

/// A context of a removed entity receives nothing: no delivery in the plan
/// names it.
pub proof fn lemma_no_deliveries_to_absent_entity(ctxs: Seq<ScriptContext>, events: Seq<LuaEvent>, entity: u64, m: int)
    requires
        m <= ctxs.len(),
        forall|k: int| 0 <= k < ctxs.len() ==> #[trigger] ctxs[k].entity != entity,
    ensures
        forall|k: int| 0 <= k < dispatch_plan_upto(ctxs, events, m).len()
            ==> #[trigger] dispatch_plan_upto(ctxs, events, m)[k].1 != entity,
    decreases m,
{
    if m > 0 {
        lemma_no_deliveries_to_absent_entity(ctxs, events, entity, m - 1);
        lemma_ctx_plan_ordered(ctxs[m - 1].sid, ctxs[m - 1].entity, events, events.len() as int);
        let prev = dispatch_plan_upto(ctxs, events, m - 1);
        let cp = ctx_plan(ctxs[m - 1].sid, ctxs[m - 1].entity, events, events.len() as int);
        assert(dispatch_plan_upto(ctxs, events, m) == prev + cp);
        assert forall|k: int| 0 <= k < (prev + cp).len() implies (prev + cp)[k].1 != entity by {
            if k < prev.len() {
                assert((prev + cp)[k] == prev[k]);
            } else {
                assert((prev + cp)[k] == cp[k - prev.len()]);
                assert(cp[k - prev.len()].1 == ctxs[m - 1].entity);
            }
        }
    }
}

/// The error events of a dispatch pass correspond one to one, in order, to its
/// failed invocations: each carries the failing script's name and the
/// interpreter's message; skipped and succeeded invocations contribute none.
pub open spec fn errors_match(recs: Seq<InvocationRecord>, errs: Seq<ScriptErrorEvent>) -> bool
    decreases recs.len(),
{
    if recs.len() == 0 {
        errs.len() == 0
    } else {
        match recs.last().outcome {
            InvokeOutcome::Failed(m) => errs.len() > 0
                && errors_match(recs.drop_last(), errs.drop_last())
                && (errs.last().error matches ScriptError::RuntimeError { script, msg }
                    && script@ == recs.last().script_name@
                    && msg@ == m@),
            _ => errors_match(recs.drop_last(), errs),
        }
    }
}

/// How many invocations of a pass failed.
pub open spec fn count_failed(recs: Seq<InvocationRecord>) -> int
    decreases recs.len(),
{
    if recs.len() == 0 {
        0
    } else {
        count_failed(recs.drop_last()) + if recs.last().outcome is Failed {
            1int
        } else {
            0int
        }
    }
}

/// The number of emitted error events equals the number of failed hook
/// invocations.
pub proof fn lemma_error_count(recs: Seq<InvocationRecord>, errs: Seq<ScriptErrorEvent>)
    requires
        errors_match(recs, errs),
    ensures
        errs.len() == count_failed(recs),
    decreases recs.len(),
{
    if recs.len() > 0 {
        match recs.last().outcome {
            InvokeOutcome::Failed(_) => {
                lemma_error_count(recs.drop_last(), errs.drop_last());
            },
            _ => {
                lemma_error_count(recs.drop_last(), errs);
            },
        }
    }
}

/// The host's set of live script contexts, keyed by script-instance id.
pub struct ScriptContexts {
    /// Every Active context, in load order.
    pub contexts: Vec<ScriptContext>,
    /// The next never-used script-instance id.
    pub next_sid: u32,
}

impl ScriptContexts {
    /// No scripts loaded yet.
    pub fn new() -> (r: Self)
        ensures
            r.contexts@.len() == 0,
            r.next_sid == 0,
    {
        ScriptContexts { contexts: Vec::new(), next_sid: 0 }
    }

    /// Script-add synchronization: loads the script's source into a fresh
    /// interpreter. On success the pair becomes Active — the context is
    /// appended under a fresh instance id and exactly one `ScriptLoaded` is
    /// emitted. On failure nothing is retained and exactly one load-error
    /// event is emitted instead.
    pub fn add_script(&mut self, entity: u64, script_name: &str, source: &str)
        -> (r: (Vec<ScriptLoaded>, Vec<ScriptErrorEvent>))
        requires
            old(self).next_sid < u32::MAX,
        ensures
            ({
                ||| {
                    &&& r.0@.len() == 1
                    &&& r.1@.len() == 0
                    &&& r.0@[0].sid == old(self).next_sid
                    &&& final(self).contexts@.len() == old(self).contexts@.len() + 1
                    &&& forall|k: int| 0 <= k < old(self).contexts@.len()
                        ==> final(self).contexts@[k] == old(self).contexts@[k]
                    &&& final(self).contexts@.last().sid == old(self).next_sid
                    &&& final(self).contexts@.last().entity == entity
                    &&& final(self).contexts@.last().name@ == script_name@
                    &&& final(self).next_sid == old(self).next_sid + 1
                }
                ||| {
                    &&& r.0@.len() == 0
                    &&& r.1@.len() == 1
                    &&& r.1@[0].error matches ScriptError::LoadError { script, msg } && script@ == script_name@
                    &&& final(self).contexts@ == old(self).contexts@
                    &&& final(self).next_sid == old(self).next_sid
                }
            }),
    {
        let mut loaded: Vec<ScriptLoaded> = Vec::new();
        let mut errors: Vec<ScriptErrorEvent> = Vec::new();
        let lua = lua_new();
        match lua_load_exec(&lua, source, script_name) {
            Ok(()) => {
                let sid = self.next_sid;
                self.next_sid = self.next_sid + 1;
                self.contexts.push(ScriptContext { lua, entity, sid, name: script_name.to_owned() });
                loaded.push(ScriptLoaded { sid });
            },
            Err(msg) => {
                errors.push(ScriptErrorEvent {
                    error: ScriptError::LoadError { script: script_name.to_owned(), msg },
                });
            },
        }
        (loaded, errors)
    }

    /// Script-remove synchronization: every context of the entity leaves the
    /// active set (its interpreter is dropped); the rest keep their order.
    /// Later batches plan no delivery to the removed entity
    /// (`lemma_no_deliveries_to_absent_entity`).
    #[verifier::loop_isolation(false)]
    pub fn remove_script(&mut self, entity: u64)
        ensures
            final(self).contexts@ == remove_entity_spec(old(self).contexts@, entity),
            final(self).next_sid == old(self).next_sid,
    {
        let ghost orig = self.contexts@;
        let n = self.contexts.len();
        let mut kept: Vec<ScriptContext> = Vec::new();
        proof {
            assert(orig.skip(0) =~= orig);
        }
        let mut i: usize = 0;
        while i < n
            invariant
                i <= n,
                self.contexts@ == orig.skip(i as int),
                self.next_sid == old(self).next_sid,
                kept@ == remove_entity_spec(orig.take(i as int), entity),
            decreases n - i,
        {
            proof {
                assert(orig.take(i as int + 1).drop_last() =~= orig.take(i as int));
                assert(orig.take(i as int + 1).last() == orig[i as int]);
            }
            let c = self.contexts.remove(0);
            proof {
                assert(c == orig[i as int]);
                assert(orig.skip(i as int).remove(0) =~= orig.skip(i as int + 1));
            }
            if c.entity != entity {
                kept.push(c);
            }
            i = i + 1;
        }
        proof {
            assert(orig.take(n as int) =~= orig);
        }
        self.contexts = kept;
    }

    /// Find the position of a context by script-instance id.
    #[verifier::loop_isolation(false)]
    fn sid_position(&self, sid: u32) -> (r: Option<usize>)
        ensures
            r matches Some(i) ==> sid_index_spec(self.contexts@, sid, 0) == Some(i as int)
                && i < self.contexts@.len() && self.contexts@[i as int].sid == sid,
            r is None ==> sid_index_spec(self.contexts@, sid, 0) is None,
    {
        let n = self.contexts.len();
        let mut i: usize = 0;
        while i < n
            invariant
                i <= n,
                forall|k: int| 0 <= k < i as int ==> self.contexts@[k].sid != sid,
            decreases n - i,
        {
            if self.contexts[i].sid == sid {
                proof {
                    lemma_sid_index_shift(self.contexts@, sid, 0, i as int);
                }
                return Some(i);
            }
            i = i + 1;
        }
        proof {
            lemma_sid_index_shift(self.contexts@, sid, 0, n as int);
        }
        None
    }

    /// Hot-reload: the old context is dropped and a fresh one is built from
    /// the new source, under a fresh instance id. Exactly one `ScriptLoaded`
    /// is emitted once the new context is Active, even if the content is
    /// unchanged; on a failed reload the pair leaves the active set and one
    /// load-error event is emitted. An unknown id is a no-op. The host applies
    /// this only between batches, never during one: delivery of an in-flight
    /// batch completes first.
    pub fn reload_script(&mut self, sid: u32, source: &str)
        -> (r: (Vec<ScriptLoaded>, Vec<ScriptErrorEvent>))
        requires
            old(self).next_sid < u32::MAX,
        ensures
            sid_index_spec(old(self).contexts@, sid, 0) is None ==> ({
                &&& r.0@.len() == 0
                &&& r.1@.len() == 0
                &&& final(self).contexts@ == old(self).contexts@
                &&& final(self).next_sid == old(self).next_sid
            }),
            sid_index_spec(old(self).contexts@, sid, 0) matches Some(i) ==> ({
                ||| {
                    &&& r.0@.len() == 1
                    &&& r.1@.len() == 0
                    &&& r.0@[0].sid == old(self).next_sid
                    &&& final(self).contexts@.len() == old(self).contexts@.len()
                    &&& forall|k: int| 0 <= k < old(self).contexts@.len() && k != i
                        ==> final(self).contexts@[k] == old(self).contexts@[k]
                    &&& final(self).contexts@[i].sid == old(self).next_sid
                    &&& final(self).contexts@[i].entity == old(self).contexts@[i].entity
                    &&& final(self).contexts@[i].name@ == old(self).contexts@[i].name@
                    &&& final(self).next_sid == old(self).next_sid + 1
                }
                ||| {
                    &&& r.0@.len() == 0
                    &&& r.1@.len() == 1
                    &&& r.1@[0].error matches ScriptError::LoadError { script, msg }
                        && script@ == old(self).contexts@[i].name@
                    &&& final(self).contexts@ == old(self).contexts@.remove(i)
                    &&& final(self).next_sid == old(self).next_sid
                }
            }),
    {
        let mut loaded: Vec<ScriptLoaded> = Vec::new();
        let mut errors: Vec<ScriptErrorEvent> = Vec::new();
        let i = match self.sid_position(sid) {
            Some(i) => i,
            None => {
                return (loaded, errors);
            },
        };
        let old_ctx = self.contexts.remove(i);
        let entity = old_ctx.entity;
        let name = old_ctx.name;
        let lua = lua_new();
        match lua_load_exec(&lua, source, name.as_str()) {
            Ok(()) => {
                let new_sid = self.next_sid;
                self.next_sid = self.next_sid + 1;
                self.contexts.insert(i, ScriptContext { lua, entity, sid: new_sid, name });
                loaded.push(ScriptLoaded { sid: new_sid });
                proof {
                    assert(forall|k: int| 0 <= k < old(self).contexts@.len() && k != i as int
                        ==> self.contexts@[k] == old(self).contexts@[k]);
                }
            },
            Err(msg) => {
                errors.push(ScriptErrorEvent {
                    error: ScriptError::LoadError { script: name, msg },
                });
            },
        }
        (loaded, errors)
    }

    /// Event delivery: every live context, in order, receives every event of
    /// the batch whose recipients select it, in exact batch order. A context
    /// without the hook's global is skipped silently; a hook that raises is
    /// recorded as failed and contributes exactly one error event, and
    /// delivery continues with the next event and the next context. The
    /// returned records are exactly the dispatch plan, in order; the error
    /// events match the failed records one to one (`errors_match`, counted by
    /// `lemma_error_count`).
    #[verifier::loop_isolation(false)]
    pub fn handle_events(&self, events: &Vec<LuaEvent>)
        -> (r: (Vec<InvocationRecord>, Vec<ScriptErrorEvent>))
        ensures
            r.0@.len() == dispatch_plan(self.contexts@, events@).len(),
            forall|k: int| 0 <= k < r.0@.len()
                ==> rec_view(r.0@[k]) == dispatch_plan(self.contexts@, events@)[k],
            errors_match(r.0@, r.1@),
    {
        let mut records: Vec<InvocationRecord> = Vec::new();
        let mut errors: Vec<ScriptErrorEvent> = Vec::new();
        let n = self.contexts.len();
        let m = events.len();
        let mut i: usize = 0;
        while i < n
            invariant
                i <= n,
                records@.len() == dispatch_plan_upto(self.contexts@, events@, i as int).len(),
                forall|k: int| 0 <= k < records@.len()
                    ==> rec_view(records@[k]) == dispatch_plan_upto(self.contexts@, events@, i as int)[k],
                errors_match(records@, errors@),
            decreases n - i,
        {
            let ctx = &self.contexts[i];
            let ghost sid = ctx.sid;
            let ghost entity = ctx.entity;
            let _ = lua_set_global_int(&ctx.lua, "entity", #[verifier::truncate] (ctx.entity as i64));
            let mut j: usize = 0;
            while j < m
                invariant
                    j <= m,
                    records@.len() == dispatch_plan_upto(self.contexts@, events@, i as int).len()
                        + ctx_plan(sid, entity, events@, j as int).len(),
                    forall|k: int| 0 <= k < records@.len()
                        ==> rec_view(records@[k]) == (dispatch_plan_upto(self.contexts@, events@, i as int)
                            + ctx_plan(sid, entity, events@, j as int))[k],
                    errors_match(records@, errors@),
                decreases m - j,
            {
                let ev = &events[j];
                if ev.recipients.selects(ctx.sid, ctx.entity) {
                    let outcome: InvokeOutcome = if !lua_has_global_function(&ctx.lua, ev.hook_name.as_str()) {
                        InvokeOutcome::NotSubscribed
                    } else {
                        let mut args: Vec<i64> = Vec::new();
                        let mut a: usize = 0;
                        while a < ev.args.len()
                            invariant
                                a <= ev.args@.len(),
                            decreases ev.args@.len() - a,
                        {
                            match ev.args[a] {
                                LuaCallbackArgument::Integer(x) => {
                                    args.push(x);
                                },
                            }
                            a = a + 1;
                        }
                        match lua_call_global(&ctx.lua, ev.hook_name.as_str(), &args) {
                            Ok(()) => InvokeOutcome::Succeeded,
                            Err(msg) => InvokeOutcome::Failed(msg),
                        }
                    };
                    let rec = InvocationRecord {
                        sid: ctx.sid,
                        entity: ctx.entity,
                        event_index: j,
                        script_name: ctx.name.clone(),
                        outcome,
                    };
                    let ghost old_errors = errors@;
                    match &rec.outcome {
                        InvokeOutcome::Failed(msg) => {
                            errors.push(ScriptErrorEvent {
                                error: ScriptError::RuntimeError {
                                    script: rec.script_name.clone(),
                                    msg: msg.clone(),
                                },
                            });
                        },
                        _ => {},
                    }
                    let ghost old_records = records@;
                    let ghost rec_snapshot = rec;
                    records.push(rec);
                    proof {
                        assert(records@.drop_last() =~= old_records);
                        assert(records@.last() == rec_snapshot);
                        match rec_snapshot.outcome {
                            InvokeOutcome::Failed(_) => {
                                assert(errors@.drop_last() =~= old_errors);
                                assert(errors_match(records@, errors@));
                            },
                            _ => {
                                assert(errors@ == old_errors);
                                assert(errors_match(records@, errors@));
                            },
                        }
                        assert(dispatch_plan_upto(self.contexts@, events@, i as int)
                            + ctx_plan(sid, entity, events@, j as int + 1)
                            =~= (dispatch_plan_upto(self.contexts@, events@, i as int)
                                + ctx_plan(sid, entity, events@, j as int)).push((sid, entity, j as int)));
                    }
                } else {
                    proof {
                        assert(ctx_plan(sid, entity, events@, j as int + 1)
                            =~= ctx_plan(sid, entity, events@, j as int));
                    }
                }
                j = j + 1;
            }
            proof {
                assert(dispatch_plan_upto(self.contexts@, events@, i as int + 1)
                    =~= dispatch_plan_upto(self.contexts@, events@, i as int)
                        + ctx_plan(sid, entity, events@, m as int));
            }
            i = i + 1;
        }
        (records, errors)
    }
}

} // verus!
