use script_host::lifecycle::{
    dispatch_pending, initialize, is_deliverable, load, reload, reload_all, run, run_all,
    spawn_script, unload,
};
use script_host::types::{
    rust_version_below_minimum, EventData, HostGuestState, MessageType, Sandbox, ScriptContext,
    ScriptModuleBytecode, MAXIMUM_ERROR_COUNT,
};
use script_host::world::ScriptWorld;

/// Accepts any non-empty bytecode; every call succeeds quietly.
struct QuietSandbox;

impl Sandbox for QuietSandbox {
    fn instantiate(bytecode: &[u8], _interface_version: u32) -> Result<Self, String> {
        if bytecode.is_empty() {
            Err("malformed bytecode".to_string())
        } else {
            Ok(QuietSandbox)
        }
    }

    fn call(&mut self, _shared: &mut HostGuestState, _ctx: &ScriptContext) -> Result<(), String> {
        Ok(())
    }
}

/// Raises a fault on every call.
struct FaultySandbox;

impl Sandbox for FaultySandbox {
    fn instantiate(bytecode: &[u8], _interface_version: u32) -> Result<Self, String> {
        if bytecode.is_empty() {
            Err("malformed bytecode".to_string())
        } else {
            Ok(FaultySandbox)
        }
    }

    fn call(&mut self, _shared: &mut HostGuestState, _ctx: &ScriptContext) -> Result<(), String> {
        Err("boom".to_string())
    }
}

/// Records two spawned entities while handling the load event.
struct SpawnerSandbox;

impl Sandbox for SpawnerSandbox {
    fn instantiate(bytecode: &[u8], _interface_version: u32) -> Result<Self, String> {
        if bytecode.is_empty() {
            Err("malformed bytecode".to_string())
        } else {
            Ok(SpawnerSandbox)
        }
    }

    fn call(&mut self, shared: &mut HostGuestState, ctx: &ScriptContext) -> Result<(), String> {
        if ctx.event_name == "core/module_load" {
            shared.spawned_entities.push(11);
            shared.spawned_entities.push(22);
        }
        Ok(())
    }
}

/// Remembers every event name it was called with.
struct RecordingSandbox {
    seen: Vec<String>,
}

impl Sandbox for RecordingSandbox {
    fn instantiate(bytecode: &[u8], _interface_version: u32) -> Result<Self, String> {
        if bytecode.is_empty() {
            Err("malformed bytecode".to_string())
        } else {
            Ok(RecordingSandbox { seen: Vec::new() })
        }
    }

    fn call(&mut self, _shared: &mut HostGuestState, ctx: &ScriptContext) -> Result<(), String> {
        self.seen.push(ctx.event_name.clone());
        Ok(())
    }
}

/// Subscribes to `custom/ping` at load time and emits `custom/pong`
/// whenever it receives it.
struct ChattySandbox;

impl Sandbox for ChattySandbox {
    fn instantiate(bytecode: &[u8], _interface_version: u32) -> Result<Self, String> {
        if bytecode.is_empty() {
            Err("malformed bytecode".to_string())
        } else {
            Ok(ChattySandbox)
        }
    }

    fn call(&mut self, shared: &mut HostGuestState, ctx: &ScriptContext) -> Result<(), String> {
        if ctx.event_name == "core/module_load" {
            shared.subscribed_events.push("custom/ping".to_string());
        }
        if ctx.event_name == "custom/ping" {
            shared.events.push(script_host::types::Event {
                name: "custom/pong".to_string(),
                data: EventData::new(),
            });
        }
        Ok(())
    }
}

fn world_with_module<S>(name: &str, bytecode: Option<Vec<u8>>) -> (ScriptWorld<S>, u64) {
    let mut w: ScriptWorld<S> = ScriptWorld::new();
    let id = spawn_script(
        &mut w,
        &name.to_string(),
        "a test module".to_string(),
        true,
        "/tmp/mods".to_string(),
        None,
    )
    .unwrap();
    if let Some(bc) = bytecode {
        w.modules[0].bytecode = Some(ScriptModuleBytecode(bc));
    }
    (w, id)
}

fn frame_context() -> ScriptContext {
    ScriptContext::new("core/frame", EventData::new(), 16, 16)
}

#[test]
fn unload_is_idempotent() {
    let (mut w, id) = world_with_module::<QuietSandbox>("mod_a", Some(vec![1, 2, 3]));
    reload_all(&mut w);
    assert!(w.modules[0].state.is_some());

    let first = unload(&mut w, id, "shutdown");
    assert!(first.is_empty());
    assert!(w.modules[0].state.is_none());

    let messages_before = w.messages.len();
    let despawns_before = w.despawn_queue.len();
    let second = unload(&mut w, id, "shutdown");
    assert!(second.is_empty());
    assert_eq!(w.messages.len(), messages_before);
    assert_eq!(w.despawn_queue.len(), despawns_before);
    assert!(w.modules[0].state.is_none());
}

#[test]
fn unload_despawns_spawned_entities_exactly_once() {
    let (mut w, id) = world_with_module::<SpawnerSandbox>("mod_spawn", Some(vec![1]));
    reload_all(&mut w);
    assert!(w.modules[0].state.is_some());
    assert_eq!(w.modules[0].state.as_ref().unwrap().shared_state.spawned_entities, vec![11, 22]);

    unload(&mut w, id, "cleanup");
    assert_eq!(w.despawn_queue, vec![11, 22]);

    unload(&mut w, id, "cleanup");
    assert_eq!(w.despawn_queue, vec![11, 22]);
}

#[test]
fn unsubscribed_event_is_a_silent_no_op() {
    let (mut w, id) = world_with_module::<FaultySandbox>("mod_deaf", Some(vec![1]));
    // Attach the state by hand so that not even the load event reaches
    // this always-faulting module.
    w.modules[0].state = Some(script_host::types::ScriptModuleState {
        sandbox: FaultySandbox,
        shared_state: HostGuestState::new(),
    });

    let messages_before = w.messages.len();
    let ctx = ScriptContext::new("custom/quake", EventData::new(), 0, 0);
    let err = run(&mut w, id, &ctx);
    assert!(err.is_none());
    assert_eq!(w.messages.len(), messages_before);
    assert!(w.modules[0].state.is_some());
    assert!(w.modules[0].errors.runtime.is_empty());
}

#[test]
fn lifecycle_events_are_always_delivered() {
    assert!(is_deliverable(&"core/module_load".to_string(), &vec![]));
    assert!(is_deliverable(&"core/frame".to_string(), &vec![]));
    assert!(!is_deliverable(&"core/module_unload".to_string(), &vec![]));
    assert!(is_deliverable(
        &"custom/quake".to_string(),
        &vec!["custom/quake".to_string()]
    ));
    assert!(!is_deliverable(&"custom/quake".to_string(), &vec!["other".to_string()]));
}

#[test]
fn faulting_module_is_unloaded_after_budget_is_exceeded() {
    let (mut w, _id) = world_with_module::<FaultySandbox>("mod_bad", Some(vec![1]));
    // Dispatch 1: the load event itself faults.
    reload_all(&mut w);
    assert!(w.modules[0].state.is_some());
    assert_eq!(w.modules[0].errors.runtime.len(), 1);
    assert_eq!(w.modules[0].errors.runtime[0], "boom");

    // Dispatches 2..=MAXIMUM_ERROR_COUNT keep it loaded.
    for _ in 0..MAXIMUM_ERROR_COUNT - 1 {
        run_all(&mut w, &frame_context());
        assert!(w.modules[0].state.is_some());
    }
    assert_eq!(w.modules[0].errors.runtime.len(), MAXIMUM_ERROR_COUNT);

    // Dispatch MAXIMUM_ERROR_COUNT + 1 trips the circuit breaker.
    run_all(&mut w, &frame_context());
    assert!(w.modules[0].state.is_none());
    let last = w.messages.last().unwrap();
    assert_eq!(last.kind, MessageType::Info);
    assert_eq!(last.text, "Unloaded (reason: too many errors)");
    // The run-time stream was cleared by the forced unload.
    assert!(w.modules[0].errors.runtime.is_empty());

    // No further dispatches reach it: nothing changes any more.
    let messages_before = w.messages.len();
    run_all(&mut w, &frame_context());
    assert_eq!(w.messages.len(), messages_before);
}

#[test]
fn a_batch_crossing_the_cap_from_below_trips_the_breaker() {
    let (mut w, id) = world_with_module::<QuietSandbox>("mod_burst", Some(vec![1]));
    reload_all(&mut w);
    assert!(w.modules[0].state.is_some());
    // Five earlier faults, then one burst of six: 11 > 10.
    w.modules[0].errors.runtime = (0..5).map(|k| format!("old{k}")).collect();
    let batch: Vec<(u64, String)> = (0..6).map(|k| (id, format!("new{k}"))).collect();
    script_host::lifecycle::update_errors(&mut w, &batch, true);
    assert!(w.modules[0].state.is_none());
    let last = w.messages.last().unwrap();
    assert_eq!(last.kind, MessageType::Info);
    assert_eq!(last.text, "Unloaded (reason: too many errors)");
}

#[test]
fn toolchain_version_gate_is_lexicographic() {
    assert!(rust_version_below_minimum(1, 64, 9));
    assert!(rust_version_below_minimum(0, 99, 0));
    assert!(!rust_version_below_minimum(1, 65, 0));
    assert!(!rust_version_below_minimum(1, 66, 0));
    assert!(!rust_version_below_minimum(2, 0, 0));
}

#[test]
fn compile_errors_trip_the_breaker_independently() {
    let (mut w, id) = world_with_module::<QuietSandbox>("mod_cc", Some(vec![1]));
    reload_all(&mut w);
    assert!(w.modules[0].state.is_some());

    let batch: Vec<(u64, String)> =
        (0..MAXIMUM_ERROR_COUNT + 1).map(|k| (id, format!("E{k}"))).collect();
    script_host::lifecycle::update_errors(&mut w, &batch, false);

    assert!(w.modules[0].state.is_none());
    // The compile-time stream survives the forced unload.
    assert_eq!(w.modules[0].errors.compiletime.len(), MAXIMUM_ERROR_COUNT + 1);
    assert!(w.modules[0].errors.runtime.is_empty());
    assert_eq!(w.messages[0].kind, MessageType::Error);
    assert_eq!(w.messages[0].text, "Compile error: E0");
}

#[test]
fn failed_instantiation_on_reload_is_reported_and_stays_unloaded() {
    /// Accepts only the single byte `1`.
    struct PickySandbox;
    impl Sandbox for PickySandbox {
        fn instantiate(bytecode: &[u8], _v: u32) -> Result<Self, String> {
            if bytecode == [1] {
                Ok(PickySandbox)
            } else {
                Err("unsupported bytecode".to_string())
            }
        }
        fn call(&mut self, _s: &mut HostGuestState, _c: &ScriptContext) -> Result<(), String> {
            Ok(())
        }
    }
    let (mut w, id) = world_with_module::<PickySandbox>("mod_picky", None);
    let before = w.messages.len();
    reload(&mut w, &vec![(id, Some(ScriptModuleBytecode(vec![9])))]);
    assert!(w.modules[0].state.is_none());
    assert!(w.messages[before..]
        .iter()
        .any(|m| m.module == id
            && m.kind == MessageType::Error
            && m.text == "Run error: unsupported bytecode"));
    assert_eq!(w.modules[0].errors.runtime, vec!["unsupported bytecode"]);
}

#[test]
fn reload_with_absent_bytecode_leaves_module_unloaded() {
    let (mut w, id) = world_with_module::<QuietSandbox>("mod_off", Some(vec![1]));
    reload_all(&mut w);
    assert!(w.modules[0].state.is_some());

    reload(&mut w, &vec![(id, None)]);
    assert!(w.modules[0].state.is_none());
}

#[test]
fn reload_with_empty_bytecode_leaves_module_unloaded() {
    let (mut w, id) = world_with_module::<QuietSandbox>("mod_empty", Some(vec![1]));
    reload_all(&mut w);
    assert!(w.modules[0].state.is_some());

    reload(&mut w, &vec![(id, Some(ScriptModuleBytecode(vec![])))]);
    assert!(w.modules[0].state.is_none());
    let last = w.messages.last().unwrap();
    assert_eq!(last.text, "Unloaded (reason: reloading)");
}

#[test]
fn later_duplicate_entry_wins_a_reload() {
    let (mut w, id) = world_with_module::<QuietSandbox>("mod_dup", Some(vec![1]));
    // The same module listed twice: first without bytecode, then with.
    reload(
        &mut w,
        &vec![(id, None), (id, Some(ScriptModuleBytecode(vec![7])))],
    );
    assert!(w.modules[0].state.is_some());

    // And the other way round: the trailing empty entry unloads it.
    reload(
        &mut w,
        &vec![(id, Some(ScriptModuleBytecode(vec![7]))), (id, None)],
    );
    assert!(w.modules[0].state.is_none());
}

#[test]
fn reload_notifies_every_previously_loaded_module() {
    let (mut w, id) = world_with_module::<QuietSandbox>("mod_note", Some(vec![1]));
    reload_all(&mut w);
    assert!(w.modules[0].state.is_some());

    let before = w.messages.len();
    reload(&mut w, &vec![(id, Some(ScriptModuleBytecode(vec![2])))]);
    assert!(w.messages[before..]
        .iter()
        .any(|m| m.module == id
            && m.kind == MessageType::Info
            && m.text == "Unloaded (reason: reloading)"));
}

#[test]
fn disabled_module_is_never_instantiated() {
    let (mut w, _id) = world_with_module::<QuietSandbox>("mod_disabled", Some(vec![1]));
    w.modules[0].enabled = false;
    reload_all(&mut w);
    assert!(w.modules[0].state.is_none());
}

#[test]
fn duplicate_name_is_rejected_without_mutation() {
    let mut w: ScriptWorld<QuietSandbox> = ScriptWorld::new();
    spawn_script(
        &mut w,
        &"mod_a".to_string(),
        "first".to_string(),
        false,
        "/tmp/a".to_string(),
        None,
    )
    .unwrap();

    let before = w.modules.len();
    let next_id_before = w.next_id;
    let result = spawn_script(
        &mut w,
        &"mod_a".to_string(),
        "second".to_string(),
        true,
        "/tmp/b".to_string(),
        None,
    );
    assert_eq!(
        result.unwrap_err(),
        "a script module by the name mod_a already exists"
    );
    assert_eq!(w.modules.len(), before);
    assert_eq!(w.next_id, next_id_before);
}

#[test]
fn instantiation_failure_records_error_and_stays_unloaded() {
    let (mut w, id) = world_with_module::<QuietSandbox>("mod_nobc", None);
    let mut errors = Vec::new();
    // Empty bytecode is rejected by the sandbox itself.
    load(&mut w, id, &[], &mut errors);
    assert!(w.modules[0].state.is_none());
    assert_eq!(errors, vec![(id, "malformed bytecode".to_string())]);
}

#[test]
fn written_files_compile_and_load_to_a_module_that_receives_module_load() {
    // Round trip: scaffold source files, build bytecode from them with
    // the stand-in toolchain, and load the result.
    let mut w: ScriptWorld<RecordingSandbox> = ScriptWorld::new();
    let files = vec![("src/main.rs".to_string(), "fn main() {}".to_string())];
    let id = spawn_script(
        &mut w,
        &"mod_rt".to_string(),
        "round trip".to_string(),
        true,
        "/tmp/mod_rt".to_string(),
        Some(files),
    )
    .unwrap();

    // The toolchain of this test turns the owned sources into bytes.
    let bytecode: Vec<u8> = w.modules[0]
        .owned_files
        .as_ref()
        .unwrap()
        .iter()
        .flat_map(|(_, contents)| contents.bytes())
        .collect();
    assert!(!bytecode.is_empty());

    w.modules[0].bytecode = Some(ScriptModuleBytecode(bytecode));
    reload_all(&mut w);

    let state = w.modules[0].state.as_ref().unwrap();
    assert_eq!(state.sandbox.seen, vec!["core/module_load".to_string()]);
    let _ = id;
}

#[test]
fn emitted_events_queue_and_drain_under_a_budget() {
    let (mut w, _id) = world_with_module::<ChattySandbox>("mod_chat", Some(vec![1]));
    reload_all(&mut w);
    assert!(w.pending_events.is_empty());

    // A ping makes the module emit a pong into the queue.
    run_all(
        &mut w,
        &ScriptContext::new("custom/ping", EventData::new(), 1, 1),
    );
    assert_eq!(w.pending_events.len(), 1);
    assert_eq!(w.pending_events[0].name, "custom/pong");

    // Draining dispatches it; nobody subscribes to pong, so the queue
    // empties without new emissions.
    let processed = dispatch_pending(&mut w, 5);
    assert_eq!(processed, 1);
    assert!(w.pending_events.is_empty());
}

#[test]
fn run_error_is_reported_with_run_label() {
    let (mut w, _id) = world_with_module::<FaultySandbox>("mod_label", Some(vec![1]));
    reload_all(&mut w);
    assert!(w
        .messages
        .iter()
        .any(|m| m.kind == MessageType::Error && m.text == "Run error: boom"));
}

#[test]
fn initialize_publishes_configuration() {
    let mut w: ScriptWorld<QuietSandbox> = ScriptWorld::new();
    let interfaces = vec![(
        "core".to_string(),
        vec![("lib.rs".to_string(), "// interface".to_string())],
    )];
    initialize(
        &mut w,
        interfaces,
        "core".to_string(),
        "/opt/toolchain".to_string(),
        "/srv/world".to_string(),
    );
    let config = w.config.as_ref().unwrap();
    assert_eq!(config.scripting_interface_name, "core");
    assert_eq!(config.install_dirs.rustup_path, "/opt/toolchain/rustup");
    assert_eq!(config.install_dirs.cargo_path, "/opt/toolchain/cargo");
    assert_eq!(config.scripting_interface_root_path, "/srv/world");
}

#[test]
fn stdout_is_forwarded_tagged_with_the_module() {
    struct NoisySandbox;
    impl Sandbox for NoisySandbox {
        fn instantiate(_bytecode: &[u8], _v: u32) -> Result<Self, String> {
            Ok(NoisySandbox)
        }
        fn call(&mut self, shared: &mut HostGuestState, _ctx: &ScriptContext) -> Result<(), String> {
            shared.stdout.push("hello".to_string());
            Err("panic: teapot".to_string())
        }
    }
    let (mut w, id) = world_with_module::<NoisySandbox>("mod_noise", Some(vec![1]));
    w.modules[0].state = Some(script_host::types::ScriptModuleState {
        sandbox: NoisySandbox,
        shared_state: HostGuestState::new(),
    });
    let err = run(&mut w, id, &frame_context());
    assert_eq!(err, Some((id, "panic: teapot".to_string())));
    assert_eq!(w.messages.len(), 1);
    assert_eq!(w.messages[0].module, id);
    assert_eq!(w.messages[0].kind, MessageType::Stdout);
    assert_eq!(w.messages[0].text, "hello");
}
