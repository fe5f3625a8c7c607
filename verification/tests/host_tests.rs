use script_bridge::error::ScriptError;
use script_bridge::event::{LuaCallbackArgument, LuaEvent, Recipients};
use script_bridge::host::{InvokeOutcome, ScriptContexts};

fn tick_event(hook: &str, args: Vec<i64>, recipients: Recipients) -> LuaEvent {
    LuaEvent {
        hook_name: hook.to_string(),
        args: args.into_iter().map(LuaCallbackArgument::Integer).collect(),
        recipients,
    }
}

#[test]
fn on_tick_scenario() {
    let mut host = ScriptContexts::new();
    let (loaded, errs) = host.add_script(
        1,
        "s.lua",
        "t = 0\nfunction on_tick(x) t = t + x end",
    );
    assert_eq!(loaded.len(), 1);
    assert!(errs.is_empty());

    let events = vec![tick_event("on_tick", vec![5], Recipients::All)];
    let (records, errors) = host.handle_events(&events);
    assert_eq!(records.len(), 1);
    assert!(matches!(records[0].outcome, InvokeOutcome::Succeeded));
    assert!(errors.is_empty());
    assert_eq!(host.contexts[0].get_global_int("t"), Some(5));

    // A hook the script does not define: zero invocations, zero errors.
    let missing = vec![tick_event("on_damage", vec![], Recipients::All)];
    let (records, errors) = host.handle_events(&missing);
    assert_eq!(records.len(), 1);
    assert!(matches!(records[0].outcome, InvokeOutcome::NotSubscribed));
    assert!(errors.is_empty());
    assert_eq!(host.contexts[0].get_global_int("t"), Some(5));
}

#[test]
fn events_delivered_in_batch_order() {
    let mut host = ScriptContexts::new();
    host.add_script(
        1,
        "order.lua",
        "order = 0\nfunction first() order = order * 10 + 1 end\nfunction second() order = order * 10 + 2 end",
    );
    let events = vec![
        tick_event("first", vec![], Recipients::All),
        tick_event("second", vec![], Recipients::All),
        tick_event("first", vec![], Recipients::All),
    ];
    let (records, errors) = host.handle_events(&events);
    assert_eq!(records.len(), 3);
    assert!(errors.is_empty());
    assert_eq!(records[0].event_index, 0);
    assert_eq!(records[1].event_index, 1);
    assert_eq!(records[2].event_index, 2);
    assert_eq!(host.contexts[0].get_global_int("order"), Some(121));
}

#[test]
fn failing_hook_does_not_stop_delivery() {
    let mut host = ScriptContexts::new();
    host.add_script(1, "bad.lua", "function on_t() error('boom') end");
    host.add_script(2, "good.lua", "n = 0\nfunction on_t() n = n + 1 end");

    let events = vec![
        tick_event("on_t", vec![], Recipients::All),
        tick_event("on_t", vec![], Recipients::All),
    ];
    let (records, errors) = host.handle_events(&events);

    // Both events reached both contexts; the failures equal the error events.
    assert_eq!(records.len(), 4);
    let failed = records
        .iter()
        .filter(|r| matches!(r.outcome, InvokeOutcome::Failed(_)))
        .count();
    assert_eq!(failed, 2);
    assert_eq!(errors.len(), 2);
    for e in errors.iter() {
        match &e.error {
            ScriptError::RuntimeError { script, msg } => {
                assert_eq!(script.as_str(), "bad.lua");
                assert!(msg.contains("boom"));
            }
            other => panic!("unexpected error kind: {:?}", other),
        }
    }
    assert_eq!(host.contexts[1].get_global_int("n"), Some(2));
}

#[test]
fn recipients_route_events() {
    let mut host = ScriptContexts::new();
    host.add_script(1, "a.lua", "hits = 0\nfunction h() hits = hits + 1 end");
    host.add_script(2, "b.lua", "hits = 0\nfunction h() hits = hits + 1 end");
    let sid_b = host.contexts[1].sid;

    let events = vec![
        tick_event("h", vec![], Recipients::All),
        tick_event("h", vec![], Recipients::Entity(1)),
        tick_event("h", vec![], Recipients::ScriptID(sid_b)),
    ];
    let (records, errors) = host.handle_events(&events);
    assert!(errors.is_empty());
    assert_eq!(records.len(), 4);
    assert_eq!(host.contexts[0].get_global_int("hits"), Some(2));
    assert_eq!(host.contexts[1].get_global_int("hits"), Some(2));
}

#[test]
fn load_failure_reports_error_and_keeps_no_context() {
    let mut host = ScriptContexts::new();
    let (loaded, errs) = host.add_script(1, "broken.lua", "function ( nonsense");
    assert!(loaded.is_empty());
    assert_eq!(errs.len(), 1);
    match &errs[0].error {
        ScriptError::LoadError { script, .. } => assert_eq!(script.as_str(), "broken.lua"),
        other => panic!("unexpected error kind: {:?}", other),
    }
    assert!(host.contexts.is_empty());
}

#[test]
fn hot_reload_emits_exactly_one_loaded_and_swaps_source() {
    let mut host = ScriptContexts::new();
    let (loaded, _) = host.add_script(7, "r.lua", "function v() result = 1 end");
    let old_sid = loaded[0].sid;

    let events = vec![tick_event("v", vec![], Recipients::All)];
    host.handle_events(&events);
    assert_eq!(host.contexts[0].get_global_int("result"), Some(1));

    let (loaded2, errs2) = host.reload_script(old_sid, "function v() result = 2 end");
    assert_eq!(loaded2.len(), 1);
    assert!(errs2.is_empty());
    let new_sid = loaded2[0].sid;
    assert_ne!(new_sid, old_sid);
    assert_eq!(host.contexts.len(), 1);
    assert_eq!(host.contexts[0].sid, new_sid);
    assert_eq!(host.contexts[0].entity, 7);

    // The new context answers with the new source.
    host.handle_events(&events);
    assert_eq!(host.contexts[0].get_global_int("result"), Some(2));

    // Reloading an unknown instance id is a no-op.
    let (l3, e3) = host.reload_script(old_sid, "function v() end");
    assert!(l3.is_empty());
    assert!(e3.is_empty());
}

#[test]
fn reload_failure_drops_the_context() {
    let mut host = ScriptContexts::new();
    let (loaded, _) = host.add_script(3, "r.lua", "function v() end");
    let sid = loaded[0].sid;
    let (l2, e2) = host.reload_script(sid, "function ( nope");
    assert!(l2.is_empty());
    assert_eq!(e2.len(), 1);
    assert!(host.contexts.is_empty());
}

#[test]
fn removed_entity_gets_no_deliveries() {
    let mut host = ScriptContexts::new();
    host.add_script(1, "a.lua", "function h() end");
    host.add_script(2, "b.lua", "n = 0\nfunction h() n = n + 1 end");

    host.remove_script(1);
    assert_eq!(host.contexts.len(), 1);
    assert_eq!(host.contexts[0].entity, 2);

    let events = vec![tick_event("h", vec![], Recipients::All)];
    let (records, errors) = host.handle_events(&events);
    assert_eq!(records.len(), 1);
    assert_eq!(records[0].entity, 2);
    assert!(errors.is_empty());

    // Removing every script leaves nothing to deliver to, and no errors.
    host.remove_script(2);
    let (records, errors) = host.handle_events(&events);
    assert!(records.is_empty());
    assert!(errors.is_empty());
}
