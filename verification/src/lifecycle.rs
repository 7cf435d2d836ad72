//! Load / unload / reload / dispatch orchestration across every
//! registered module, the failure-budget policy, and the spawned-entity
//! cleanup protocol.
//!
//! Events a module emits during a call are not re-dispatched from inside
//! the call: they queue on [`ScriptWorld::pending_events`] and the tick
//! driver drains them with [`dispatch_pending`] under an explicit budget,
//! so one dispatch pass cannot recurse without bound.

use vstd::prelude::*;
use crate::types::{
    Event, EventData, Message, MessageType, Sandbox, ScriptContext, ScriptModuleBytecode,
    ScriptModuleErrors, ScriptModuleState, MAXIMUM_ERROR_COUNT, INTERFACE_VERSION,
};
use crate::world::{HostConfig, InstallDirs, ModuleRecord, ScriptWorld};

verus! {

/// The delivery rule of the event dispatcher: the two lifecycle events
/// are always delivered, every other event only to subscribers.
pub open spec fn deliverable(name: Seq<char>, subscribed: Seq<String>) -> bool {
    ||| name == "core/module_load"@
    ||| name == "core/frame"@
    ||| exists|i: int| 0 <= i < subscribed.len() && #[trigger] subscribed[i]@ == name
}

/// The text of the notice sent when a module is unloaded.
pub open spec fn unload_text(reason: Seq<char>) -> Seq<char> {
    "Unloaded (reason: "@ + reason + ")"@
}

/// The text of the notice sent for one recorded error.
pub open spec fn error_text(runtime: bool, err: Seq<char>) -> Seq<char> {
    (if runtime {
        "Run error: "@
    } else {
        "Compile error: "@
    }) + err
}

/// Between `pre` and `post`, the messenger was handed one labelled
/// notice for every error of the batch.
pub open spec fn errors_reported(
    pre: Seq<Message>,
    post: Seq<Message>,
    errors: Seq<(u64, String)>,
    runtime: bool,
) -> bool {
    forall|k: int|
        #![trigger errors[k]]
        0 <= k < errors.len() ==> exists|j: int|
            #![trigger post[j]]
            pre.len() <= j < post.len() && post[j].module == errors[k].0 && post[j].kind
                == MessageType::Error && post[j].text@ == error_text(runtime, errors[k].1@)
}

/// Between `pre` and `post`, the messenger was handed the notice that
/// module `id` was unloaded for `reason`.
pub open spec fn unload_notice_in(
    pre: Seq<Message>,
    post: Seq<Message>,
    id: u64,
    reason: Seq<char>,
) -> bool {
    exists|j: int|
        #![trigger post[j]]
        pre.len() <= j < post.len() && post[j].module == id && post[j].kind == MessageType::Info
            && post[j].text@ == unload_text(reason)
}

/// The messages of a batch that name module `id`, in batch order.
pub open spec fn batch_errors_for(errors: Seq<(u64, String)>, id: u64) -> Seq<String>
    decreases errors.len(),
{
    if errors.len() == 0 {
        Seq::empty()
    } else if errors.last().0 == id {
        batch_errors_for(errors.drop_last(), id).push(errors.last().1)
    } else {
        batch_errors_for(errors.drop_last(), id)
    }
}

/// One more batch entry extends exactly the named module's share.
proof fn lemma_batch_push(errors: Seq<(u64, String)>, e: (u64, String), id: u64)
    ensures
        e.0 == id ==> batch_errors_for(errors.push(e), id) == batch_errors_for(
            errors,
            id,
        ).push(e.1),
        e.0 != id ==> batch_errors_for(errors.push(e), id) == batch_errors_for(errors, id),
{
    assert(errors.push(e).drop_last() =~= errors);
    assert(errors.push(e).last() == e);
}

/// An entry naming the module gives it at least one batch message.
proof fn lemma_batch_named(errors: Seq<(u64, String)>, id: u64, k2: int)
    requires
        0 <= k2 < errors.len(),
        errors[k2].0 == id,
    ensures
        batch_errors_for(errors, id).len() >= 1,
    decreases errors.len(),
{
    if k2 < errors.len() - 1 {
        lemma_batch_named(errors.drop_last(), id, k2);
    }
}

/// Between `pre` and `post`, the messenger was handed an error notice
/// naming module `id`, labelled as a run-time error.
pub open spec fn run_error_notice_in(pre: Seq<Message>, post: Seq<Message>, id: u64) -> bool {
    exists|j: int|
        #![trigger post[j]]
        pre.len() <= j < post.len() && post[j].module == id && post[j].kind == MessageType::Error
            && (exists|t: Seq<char>| post[j].text@ == error_text(true, t))
}

/// No entry of `scripts` strictly between `k` and `upto` names the
/// same module as entry `k`: within that range, entry `k` speaks last.
pub open spec fn no_later_entry(
    scripts: Seq<(u64, Option<ScriptModuleBytecode>)>,
    k: int,
    upto: int,
) -> bool {
    forall|l: int| #![trigger scripts[l]] k < l < upto ==> scripts[l].0 != scripts[k].0
}

/// Some entry of `scripts` before `upto` names module `id`.
pub open spec fn names_module(
    scripts: Seq<(u64, Option<ScriptModuleBytecode>)>,
    upto: int,
    id: u64,
) -> bool {
    exists|k: int| 0 <= k < upto && (#[trigger] scripts[k]).0 == id
}

/// Between `pre` and `post`, the despawn queue gained the whole of
/// `spawned`, contiguously and in order.
pub open spec fn despawned_in(pre: Seq<u64>, post: Seq<u64>, spawned: Seq<u64>) -> bool {
    exists|off: int|
        #![trigger post.subrange(off, off + spawned.len() as int)]
        pre.len() <= off && off + spawned.len() <= post.len() && post.subrange(
            off,
            off + spawned.len() as int,
        ) == spawned
}

/// A window of a prefix is the same window of the whole.
proof fn lemma_prefix_subrange<T>(a: Seq<T>, b: Seq<T>, off: int, len: int)
    requires
        a.is_prefix_of(b),
        0 <= off,
        0 <= len,
        off + len <= a.len(),
    ensures
        b.subrange(off, off + len) == a.subrange(off, off + len),
{
    assert forall|i: int|
        #![trigger a.subrange(off, off + len)[i]]
        0 <= i < len implies b.subrange(off, off + len)[i] == a.subrange(off, off + len)[i] by {
        lemma_prefix_element(a, b, off + i);
    }
    assert(b.subrange(off, off + len) =~= a.subrange(off, off + len));
}

/// The error stream that a pass writes: run-time or compile-time.
pub open spec fn stream_of<S>(m: ModuleRecord<S>, runtime: bool) -> Seq<String> {
    if runtime {
        m.errors.runtime@
    } else {
        m.errors.compiletime@
    }
}

/// The record fields, clocks and configuration are untouched, and no
/// module was registered or removed.
pub open spec fn records_preserved<S>(pre: ScriptWorld<S>, post: ScriptWorld<S>) -> bool {
    &&& post.modules@.len() == pre.modules@.len()
    &&& forall|i: int|
        0 <= i < pre.modules@.len() ==> #[trigger] post.modules@[i].same_record(pre.modules@[i])
    &&& post.next_id == pre.next_id
    &&& post.time == pre.time
    &&& post.frametime == pre.frametime
    &&& post.config == pre.config
}

/// The effect queues only grow: nothing owed to the host is retracted.
pub open spec fn effects_extended<S>(pre: ScriptWorld<S>, post: ScriptWorld<S>) -> bool {
    &&& pre.messages@.is_prefix_of(post.messages@)
    &&& pre.despawn_queue@.is_prefix_of(post.despawn_queue@)
    &&& pre.pending_events@.is_prefix_of(post.pending_events@)
}

/// An element of a prefix is an element of the whole.
proof fn lemma_prefix_element<T>(a: Seq<T>, b: Seq<T>, i: int)
    requires
        a.is_prefix_of(b),
        0 <= i < a.len(),
    ensures
        a[i] == b[i],
{
    assert(a[i] == b.subrange(0, a.len() as int)[i]);
}

/// Being a prefix is transitive.
proof fn lemma_prefix_trans<T>(a: Seq<T>, b: Seq<T>, c: Seq<T>)
    requires
        a.is_prefix_of(b),
        b.is_prefix_of(c),
    ensures
        a.is_prefix_of(c),
{
    assert forall|i: int| 0 <= i < a.len() implies a[i] == c.subrange(0, a.len() as int)[i] by {
        lemma_prefix_element(a, b, i);
        lemma_prefix_element(b, c, i);
    }
    assert(a =~= c.subrange(0, a.len() as int));
}

/// Growing the effect queues composes.
proof fn lemma_effects_trans<S>(a: ScriptWorld<S>, b: ScriptWorld<S>, c: ScriptWorld<S>)
    requires
        effects_extended(a, b),
        effects_extended(b, c),
    ensures
        effects_extended(a, c),
{
    lemma_prefix_trans(a.messages@, b.messages@, c.messages@);
    lemma_prefix_trans(a.despawn_queue@, b.despawn_queue@, c.despawn_queue@);
    lemma_prefix_trans(a.pending_events@, b.pending_events@, c.pending_events@);
}

/// `is_loaded` read off the module's position in the store.
proof fn lemma_is_loaded_at<S>(w: ScriptWorld<S>, id: u64, i: int)
    requires
        w.wf(),
        0 <= i < w.modules@.len(),
        w.modules@[i].id == id,
    ensures
        w.is_loaded(id) == (w.modules@[i].state is Some),
        w.has_module(id),
        w.index_of(id) == i,
{
    w.lemma_index_of(id, i);
}

/// A registered module stays registered while the records are preserved.
proof fn lemma_has_module_preserved<S>(pre: ScriptWorld<S>, post: ScriptWorld<S>, id: u64)
    requires
        records_preserved(pre, post),
        pre.has_module(id),
    ensures
        post.has_module(id),
{
    let i = choose|i: int| 0 <= i < pre.modules@.len() && #[trigger] pre.modules@[i].id == id;
    assert(post.modules@[i].same_record(pre.modules@[i]));
    assert(post.modules@[i].id == id);
}

/// Decides whether `event_name` is delivered to a module with the given
/// subscription set.
pub fn is_deliverable(event_name: &String, subscribed: &Vec<String>) -> (b: bool)
    ensures
        b == deliverable(event_name@, subscribed@),
{
    if *event_name == String::from_str("core/module_load") {
        return true;
    }
    if *event_name == String::from_str("core/frame") {
        return true;
    }
    let n = subscribed.len();
    let mut i: usize = 0;
    while i < n
        invariant
            n == subscribed@.len(),
            i <= n,
            forall|j: int| 0 <= j < i ==> #[trigger] subscribed@[j]@ != event_name@,
        decreases n - i,
    {
        if subscribed[i] == *event_name {
            return true;
        }
        i += 1;
    }
    false
}

/// The two lifecycle events are delivered whatever a module has
/// subscribed to: a freshly loaded module always receives
/// `core/module_load`, and every loaded module receives `core/frame`.
pub proof fn lemma_lifecycle_events_always_delivered(subscribed: Seq<String>)
    ensures
        deliverable("core/module_load"@, subscribed),
        deliverable("core/frame"@, subscribed),
{
}

/// Forwards one module's captured output to the messenger — every line
/// tagged with the module, stdout first, then stderr — and queues the
/// events it emitted, in order, for later dispatch to all loaded
/// modules. Nothing else in the world moves.
pub fn forward_output<S>(
    w: &mut ScriptWorld<S>,
    id: u64,
    stdout: Vec<String>,
    stderr: Vec<String>,
    events: Vec<Event>,
)
    ensures
        final(w).modules == old(w).modules,
        final(w).next_id == old(w).next_id,
        final(w).time == old(w).time,
        final(w).frametime == old(w).frametime,
        final(w).config == old(w).config,
        final(w).despawn_queue == old(w).despawn_queue,
        final(w).pending_events@ == old(w).pending_events@ + events@,
        old(w).messages@.is_prefix_of(final(w).messages@),
        final(w).messages@.len() == old(w).messages@.len() + stdout@.len() + stderr@.len(),
        forall|i: int|
            0 <= i < stdout@.len() ==> final(w).messages@[old(w).messages@.len() + i] == (Message {
                module: id,
                kind: MessageType::Stdout,
                text: stdout@[i],
            }),
        forall|i: int|
            0 <= i < stderr@.len() ==> final(w).messages@[old(w).messages@.len() + stdout@.len()
                + i] == (Message { module: id, kind: MessageType::Stderr, text: stderr@[i] }),
{
    let mut events = events;
    w.pending_events.append(&mut events);
    let ghost pre = *w;
    let n_out = stdout.len();
    let mut k: usize = 0;
    while k < n_out
        invariant
            k <= n_out,
            n_out == stdout@.len(),
            w.messages@.len() == old(w).messages@.len() + k,
            old(w).messages@.is_prefix_of(w.messages@),
            forall|i: int|
                0 <= i < k ==> w.messages@[old(w).messages@.len() + i] == (Message {
                    module: id,
                    kind: MessageType::Stdout,
                    text: stdout@[i],
                }),
            w.modules == pre.modules,
            w.next_id == pre.next_id,
            w.time == pre.time,
            w.frametime == pre.frametime,
            w.config == pre.config,
            w.despawn_queue == pre.despawn_queue,
            w.pending_events == pre.pending_events,
        decreases n_out - k,
    {
        let text = stdout[k].clone();
        w.messages.push(Message { module: id, kind: MessageType::Stdout, text });
        k += 1;
    }
    let n_err = stderr.len();
    let mut k2: usize = 0;
    while k2 < n_err
        invariant
            k2 <= n_err,
            n_err == stderr@.len(),
            n_out == stdout@.len(),
            w.messages@.len() == old(w).messages@.len() + n_out + k2,
            old(w).messages@.is_prefix_of(w.messages@),
            forall|i: int|
                0 <= i < n_out ==> w.messages@[old(w).messages@.len() + i] == (Message {
                    module: id,
                    kind: MessageType::Stdout,
                    text: stdout@[i],
                }),
            forall|i: int|
                0 <= i < k2 ==> w.messages@[old(w).messages@.len() + n_out + i] == (Message {
                    module: id,
                    kind: MessageType::Stderr,
                    text: stderr@[i],
                }),
            w.modules == pre.modules,
            w.next_id == pre.next_id,
            w.time == pre.time,
            w.frametime == pre.frametime,
            w.config == pre.config,
            w.despawn_queue == pre.despawn_queue,
            w.pending_events == pre.pending_events,
        decreases n_err - k2,
    {
        let text = stderr[k2].clone();
        w.messages.push(Message { module: id, kind: MessageType::Stderr, text });
        k2 += 1;
    }
}

/// One dispatch of `context` to module `id`.
///
/// A silent no-op unless the module is loaded and the event is
/// deliverable under its current subscription set. On a delivered event
/// the sandbox runs once; whatever it did, the module's event outbox is
/// drained into the world's pending-event queue, its captured output is
/// forwarded as messages tagged with the module, and a guest fault comes
/// back as a value instead of propagating.
pub fn run<S: Sandbox>(w: &mut ScriptWorld<S>, id: u64, context: &ScriptContext) -> (r: Option<
    (u64, String),
>)
    requires
        old(w).wf(),
    ensures
        final(w).wf(),
        records_preserved(*old(w), *final(w)),
        effects_extended(*old(w), *final(w)),
        final(w).despawn_queue@ == old(w).despawn_queue@,
        forall|i: int|
            0 <= i < old(w).modules@.len() ==> {
                &&& (#[trigger] final(w).modules@[i].state is Some)
                    == (old(w).modules@[i].state is Some)
                &&& final(w).modules@[i].errors == old(w).modules@[i].errors
            },
        forall|i: int|
            0 <= i < old(w).modules@.len() && old(w).modules@[i].id != id
                ==> #[trigger] final(w).modules@[i] == old(w).modules@[i],
        !old(w).is_loaded(id) ==> *final(w) == *old(w) && r is None,
        old(w).is_loaded(id) && !deliverable(
            context.event_name@,
            old(w).module(id).state->0.shared_state.subscribed_events@,
        ) ==> *final(w) == *old(w) && r is None,
        r is Some ==> (r->0).0 == id && old(w).is_loaded(id),
        forall|k: int|
            old(w).messages@.len() <= k < final(w).messages@.len() ==> {
                &&& (#[trigger] final(w).messages@[k]).module == id
                &&& (final(w).messages@[k].kind == MessageType::Stdout
                    || final(w).messages@[k].kind == MessageType::Stderr)
            },
        old(w).is_loaded(id) && deliverable(
            context.event_name@,
            old(w).module(id).state->0.shared_state.subscribed_events@,
        ) ==> {
            &&& final(w).module(id).state->0.shared_state.events@.len() == 0
            &&& final(w).module(id).state->0.shared_state.stdout@.len() == 0
            &&& final(w).module(id).state->0.shared_state.stderr@.len() == 0
        },
{
    let idx = match w.find_module(id) {
        Some(i) => i,
        None => {
            return None;
        },
    };
    if w.modules[idx].state.is_none() {
        return None;
    }
    let deliver = match &w.modules[idx].state {
        Some(st) => is_deliverable(&context.event_name, &st.shared_state.subscribed_events),
        None => false,
    };
    if !deliver {
        return None;
    }
    let entry = &mut w.modules[idx];
    let result: Result<(), String>;
    let mut outbox: Vec<Event>;
    let mut out_lines: Vec<String>;
    let mut err_lines: Vec<String>;
    match &mut entry.state {
        Some(st) => {
            result = st.dispatch(context);
            outbox = st.shared_state.events.split_off(0);
            out_lines = st.shared_state.stdout.split_off(0);
            err_lines = st.shared_state.stderr.split_off(0);
        },
        None => {
            proof {
                assert(false);
            }
            return None;
        },
    }
    proof {
        w.lemma_index_of(id, idx as int);
    }
    let ghost pre = *w;
    forward_output(w, id, out_lines, err_lines, outbox);
    proof {
        assert forall|j: int|
            pre.messages@.len() <= j < w.messages@.len() implies (w.messages@[j].module == id && (
        w.messages@[j].kind == MessageType::Stdout || w.messages@[j].kind
            == MessageType::Stderr)) by {
            let i = j - pre.messages@.len();
            if i < out_lines@.len() {
                assert(w.messages@[pre.messages@.len() + i] == (Message {
                    module: id,
                    kind: MessageType::Stdout,
                    text: out_lines@[i],
                }));
            } else {
                let i2 = i - out_lines@.len();
                assert(w.messages@[pre.messages@.len() + out_lines@.len() + i2] == (Message {
                    module: id,
                    kind: MessageType::Stderr,
                    text: err_lines@[i2],
                }));
            }
        }
    }
    match result {
        Ok(_) => None,
        Err(e) => Some((id, e)),
    }
}

/// The spawned-entity cleanup protocol: detaches the live state of a
/// loaded module, queues every entity the module recorded as spawned for
/// despawning exactly once, and clears the run-time error stream. The
/// compile-time stream and every persisted record field survive.
pub fn detach<S: Sandbox>(w: &mut ScriptWorld<S>, id: u64)
    requires
        old(w).wf(),
        old(w).is_loaded(id),
    ensures
        final(w).wf(),
        records_preserved(*old(w), *final(w)),
        forall|i: int|
            0 <= i < old(w).modules@.len() && old(w).modules@[i].id != id
                ==> #[trigger] final(w).modules@[i] == old(w).modules@[i],
        final(w).module(id).state is None,
        !final(w).is_loaded(id),
        final(w).module(id).errors.runtime@ =~= Seq::<String>::empty(),
        final(w).module(id).errors.compiletime == old(w).module(id).errors.compiletime,
        final(w).despawn_queue@ == old(w).despawn_queue@ + old(w).module(
            id,
        ).state->0.shared_state.spawned_entities@,
        final(w).messages == old(w).messages,
        final(w).pending_events == old(w).pending_events,
{
    let idx = match w.find_module(id) {
        Some(i) => i,
        None => {
            proof {
                assert(false);
            }
            return ;
        },
    };
    let entry = &mut w.modules[idx];
    let st_opt = entry.state.take();
    entry.errors.runtime = Vec::new();
    proof {
        w.lemma_index_of(id, idx as int);
    }
    match st_opt {
        Some(st) => {
            let mut spawned = st.shared_state.spawned_entities;
            w.despawn_queue.append(&mut spawned);
        },
        None => {
            proof {
                assert(false);
            }
        },
    }
}

/// Loads module `script_id` from `bytecode`: the `Unloaded -> Loaded`
/// transition.
///
/// On success the synthetic `core/module_load` event is dispatched at
/// once — it is always delivered — so the module can set itself up, and
/// any fault it raises is appended to `errors`. If the sandbox cannot be
/// instantiated, the instantiation error is appended instead, the world
/// is untouched and the module stays `Unloaded`.
pub fn load<S: Sandbox>(
    w: &mut ScriptWorld<S>,
    script_id: u64,
    bytecode: &[u8],
    errors: &mut Vec<(u64, String)>,
)
    requires
        old(w).wf(),
        old(w).has_module(script_id),
        !old(w).is_loaded(script_id),
    ensures
        final(w).wf(),
        records_preserved(*old(w), *final(w)),
        effects_extended(*old(w), *final(w)),
        final(w).despawn_queue@ == old(w).despawn_queue@,
        forall|i: int|
            0 <= i < old(w).modules@.len() && old(w).modules@[i].id != script_id
                ==> #[trigger] final(w).modules@[i] == old(w).modules@[i],
        forall|i: int|
            0 <= i < old(w).modules@.len() ==> #[trigger] final(w).modules@[i].errors == old(w).modules@[i].errors,
        old(errors)@.is_prefix_of(final(errors)@),
        final(errors)@.len() <= old(errors)@.len() + 1,
        forall|k: int|
            old(errors)@.len() <= k < final(errors)@.len() ==> (#[trigger] final(errors)@[k]).0 == script_id,
        !final(w).is_loaded(script_id) ==> *final(w) == *old(w) && final(errors)@.len() == old(errors)@.len() + 1,
        final(w).is_loaded(script_id) ==> final(w).module(
            script_id,
        ).state->0.shared_state.events@.len() == 0,
        forall|k: int|
            old(w).messages@.len() <= k < final(w).messages@.len() ==> {
                &&& (#[trigger] final(w).messages@[k]).module == script_id
                &&& (final(w).messages@[k].kind == MessageType::Stdout
                    || final(w).messages@[k].kind == MessageType::Stderr)
            },
{
    let idx = match w.find_module(script_id) {
        Some(i) => i,
        None => {
            proof {
                assert(false);
            }
            return ;
        },
    };
    let result = ScriptModuleState::<S>::new(bytecode, INTERFACE_VERSION);
    match result {
        Ok(sms) => {
            let entry = &mut w.modules[idx];
            entry.state = Some(sms);
            let ghost attached = *w;
            proof {
                assert(w.modules@[idx as int].id == script_id);
                assert(w.wf());
                w.lemma_index_of(script_id, idx as int);
            }
            let ctx = ScriptContext::new("core/module_load", EventData::new(), w.time,
                w.frametime);
            let run_error = run(w, script_id, &ctx);
            if let Some(err) = run_error {
                errors.push(err);
            }
            proof {
                assert forall|i: int|
                    0 <= i < old(w).modules@.len() implies #[trigger] w.modules@[i].same_record(
                    old(w).modules@[i],
                ) by {
                    assert(w.modules@[i].same_record(attached.modules@[i]));
                    assert(attached.modules@[i].same_record(old(w).modules@[i]));
                }
                assert(w.modules@[idx as int].same_record(old(w).modules@[idx as int]));
                assert(w.modules@[idx as int].id == script_id);
                w.lemma_index_of(script_id, idx as int);
            }
        },
        Err(e) => {
            errors.push((script_id, e));
        },
    }
}

/// Unloads module `id`, releasing everything it owns.
///
/// A synthetic unload event is dispatched first so a subscribed module
/// can clean up; then every entity the module spawned is queued for
/// despawning, its run-time error stream is cleared, its live state is
/// detached, and the messenger is owed a notice naming `reason`.
///
/// Unloading a module that is not loaded is a no-op that returns no
/// errors; since the module is never loaded afterwards, a second unload
/// right after a first one is exactly that no-op.
///
/// For a module subscribed to the unload event, the guest may grow the
/// spawned set during that last call, so the despawn queue is pinned
/// outright only in the unsubscribed case here; [`detach`] states the
/// cleanup exactly for whatever the set holds at teardown.
pub fn unload<S: Sandbox>(w: &mut ScriptWorld<S>, script_id: u64, reason: &str) -> (errors: Vec<
    (u64, String),
>)
    requires
        old(w).wf(),
    ensures
        final(w).wf(),
        records_preserved(*old(w), *final(w)),
        effects_extended(*old(w), *final(w)),
        !final(w).is_loaded(script_id),
        !old(w).is_loaded(script_id) ==> *final(w) == *old(w) && errors@ =~= Seq::<(
            u64,
            String,
        )>::empty(),
        errors@.len() <= 1,
        forall|k: int| 0 <= k < errors@.len() ==> (#[trigger] errors@[k]).0 == script_id,
        forall|i: int|
            0 <= i < old(w).modules@.len() && old(w).modules@[i].id != script_id
                ==> #[trigger] final(w).modules@[i] == old(w).modules@[i],
        forall|i: int|
            0 <= i < old(w).modules@.len() && old(w).modules@[i].id != script_id
                ==> (#[trigger] final(w).modules@[i].state is Some)
                    == (old(w).modules@[i].state is Some),
        // no compile-time stream is touched by an unload
        forall|i: int|
            0 <= i < old(w).modules@.len() ==> (#[trigger] final(w).modules@[i]).errors.compiletime
                == old(w).modules@[i].errors.compiletime,
        old(w).is_loaded(script_id) ==> {
            &&& final(w).module(script_id).errors.runtime@ =~= Seq::<String>::empty()
            &&& final(w).module(script_id).errors.compiletime == old(w).module(
                script_id,
            ).errors.compiletime
            &&& final(w).messages@.len() > old(w).messages@.len()
            &&& final(w).messages@.last().module == script_id
            &&& final(w).messages@.last().kind == MessageType::Info
            &&& final(w).messages@.last().text@ == unload_text(reason@)
            &&& forall|k: int|
                old(w).messages@.len() <= k < final(w).messages@.len() - 1 ==> {
                    &&& (#[trigger] final(w).messages@[k]).module == script_id
                    &&& (final(w).messages@[k].kind == MessageType::Stdout
                        || final(w).messages@[k].kind == MessageType::Stderr)
                }
        },
        old(w).is_loaded(script_id) && !deliverable(
            "core/module_unload"@,
            old(w).module(script_id).state->0.shared_state.subscribed_events@,
        ) ==> {
            &&& final(w).despawn_queue@ == old(w).despawn_queue@ + old(w).module(
                script_id,
            ).state->0.shared_state.spawned_entities@
            &&& errors@ =~= Seq::<(u64, String)>::empty()
            &&& final(w).pending_events == old(w).pending_events
            &&& final(w).messages@.len() == old(w).messages@.len() + 1
        },
{
    let idx_opt = w.find_module(script_id);
    let loaded = match idx_opt {
        Some(i) => w.modules[i].state.is_some(),
        None => false,
    };
    if !loaded {
        return Vec::new();
    }
    let ghost gidx = idx_opt->0 as int;
    let ctx = ScriptContext::new("core/module_unload", EventData::new(), w.time, w.frametime);
    let run_error = run(w, script_id, &ctx);
    let ghost after_run = *w;
    proof {
        assert(w.modules@[gidx].same_record(old(w).modules@[gidx]));
        w.lemma_index_of(script_id, gidx);
    }
    detach(w, script_id);
    let text = String::from_str("Unloaded (reason: ").concat(reason).concat(")");
    w.messages.push(Message { module: script_id, kind: MessageType::Info, text });
    proof {
        assert forall|i: int|
            0 <= i < old(w).modules@.len() implies #[trigger] w.modules@[i].same_record(
            old(w).modules@[i],
        ) by {
            assert(w.modules@[i].same_record(after_run.modules@[i]));
            assert(after_run.modules@[i].same_record(old(w).modules@[i]));
        }
        assert forall|i: int|
            0 <= i < old(w).modules@.len() implies (#[trigger] w.modules@[i]).errors.compiletime
            == old(w).modules@[i].errors.compiletime by {
            assert(after_run.modules@[i].errors == old(w).modules@[i].errors);
            if after_run.modules@[i].id == script_id {
                assert(i == gidx) by {
                    if i != gidx {
                        assert(after_run.modules@[i].id != after_run.modules@[gidx].id);
                    }
                }
                assert(w.modules@[gidx].same_record(old(w).modules@[gidx]));
                assert(w.modules@[gidx].id == script_id);
                w.lemma_index_of(script_id, gidx);
                assert(w.module(script_id) == w.modules@[gidx]);
                assert(w.modules@[i].errors.compiletime
                    == after_run.module(script_id).errors.compiletime);
            } else {
                assert(w.modules@[i] == after_run.modules@[i]);
            }
        }
    }
    match run_error {
        Some(e) => {
            let mut errors: Vec<(u64, String)> = Vec::new();
            errors.push(e);
            errors
        },
        None => Vec::new(),
    }
}

/// Records a batch of `(module, message)` errors: each is forwarded to
/// the messenger with a `Run`/`Compile` label and appended to the
/// module's matching stream, and any module whose stream exceeds
/// [`MAXIMUM_ERROR_COUNT`] is forcibly unloaded with reason
/// `too many errors` — a hard circuit breaker.
pub fn update_errors<S: Sandbox>(w: &mut ScriptWorld<S>, errors: &Vec<(u64, String)>, runtime: bool)
    requires
        old(w).wf(),
    ensures
        final(w).wf(),
        records_preserved(*old(w), *final(w)),
        effects_extended(*old(w), *final(w)),
        // no module is loaded by recording errors
        forall|x: int|
            0 <= x < old(w).modules@.len() && (#[trigger] final(w).modules@[x]).state is Some
                ==> old(w).modules@[x].state is Some,
        // a module that survives the batch is within the budget, or
        // was never written
        forall|x: int|
            0 <= x < old(w).modules@.len() && (#[trigger] final(w).modules@[x]).state is Some ==> {
                ||| stream_of(final(w).modules@[x], runtime).len() <= MAXIMUM_ERROR_COUNT
                ||| stream_of(final(w).modules@[x], runtime) == stream_of(
                    old(w).modules@[x],
                    runtime,
                )
            },
        // the circuit breaker: a batch that pushes a loaded module's
        // stream past the cap unloads it, and the messenger is told why
        forall|x: int|
            0 <= x < old(w).modules@.len() && (#[trigger] old(w).modules@[x]).state is Some
                && batch_errors_for(errors@, old(w).modules@[x].id).len() > 0 && stream_of(
                old(w).modules@[x],
                runtime,
            ).len() + batch_errors_for(errors@, old(w).modules@[x].id).len()
                > MAXIMUM_ERROR_COUNT ==> final(w).modules@[x].state is None && unload_notice_in(
                old(w).messages@,
                final(w).messages@,
                old(w).modules@[x].id,
                "too many errors"@,
            ),
        // a module named by no error is untouched
        forall|x: int|
            0 <= x < old(w).modules@.len() && !(exists|k: int|
                0 <= k < errors@.len() && (#[trigger] errors@[k]).0 == old(w).modules@[x].id)
                ==> (#[trigger] final(w).modules@[x]) == old(w).modules@[x],
        // a survivor's live state is untouched and its stream grew by
        // exactly its errors of the batch, in order
        forall|x: int|
            0 <= x < old(w).modules@.len() && (#[trigger] final(w).modules@[x]).state is Some ==> {
                &&& final(w).modules@[x].state == old(w).modules@[x].state
                &&& stream_of(final(w).modules@[x], runtime) == stream_of(
                    old(w).modules@[x],
                    runtime,
                ) + batch_errors_for(errors@, old(w).modules@[x].id)
            },
        // the breaker fires only past the cap: a loaded module whose
        // stream stays within it survives the batch
        forall|x: int|
            0 <= x < old(w).modules@.len() && (#[trigger] old(w).modules@[x]).state is Some
                && stream_of(old(w).modules@[x], runtime).len() + batch_errors_for(
                errors@,
                old(w).modules@[x].id,
            ).len() <= MAXIMUM_ERROR_COUNT ==> final(w).modules@[x].state is Some,
        // the two streams are independent: a run-time pass never writes
        // the compile-time stream, and a compile-time pass never writes
        // a surviving module's run-time stream
        runtime ==> forall|x: int|
            0 <= x < old(w).modules@.len()
                ==> (#[trigger] final(w).modules@[x]).errors.compiletime == old(w).modules@[x].errors.compiletime,
        !runtime ==> forall|x: int|
            0 <= x < old(w).modules@.len() && (#[trigger] final(w).modules@[x]).state is Some
                ==> final(w).modules@[x].errors.runtime == old(w).modules@[x].errors.runtime,
        // every error of the batch is reported to the messenger; the
        // first notice stands right after the messages already owed
        errors_reported(old(w).messages@, final(w).messages@, errors@, runtime),
        final(w).messages@.len() >= old(w).messages@.len() + errors@.len(),
        errors@.len() > 0 ==> {
            &&& final(w).messages@[old(w).messages@.len() as int].module == errors@[0].0
            &&& final(w).messages@[old(w).messages@.len() as int].kind == MessageType::Error
            &&& final(w).messages@[old(w).messages@.len() as int].text@ == error_text(
                runtime,
                errors@[0].1@,
            )
        },
{
    let n = errors.len();
    proof {
        assert forall|x: int| 0 <= x < w.modules@.len() implies stream_of(w.modules@[x], runtime)
            == stream_of(w.modules@[x], runtime) + batch_errors_for(
            errors@.take(0),
            w.modules@[x].id,
        ) by {
            assert(errors@.take(0) =~= Seq::<(u64, String)>::empty());
            assert(stream_of(w.modules@[x], runtime) + batch_errors_for(
                errors@.take(0),
                w.modules@[x].id,
            ) =~= stream_of(w.modules@[x], runtime));
        }
    }
    let mut k: usize = 0;
    while k < n
        invariant
            old(w).wf(),
            w.wf(),
            k <= n,
            n == errors@.len(),
            records_preserved(*old(w), *w),
            effects_extended(*old(w), *w),
            forall|x: int|
                0 <= x < old(w).modules@.len() && (#[trigger] w.modules@[x]).state is Some ==> old(w).modules@[x].state is Some,
            forall|x: int|
                0 <= x < old(w).modules@.len() && (#[trigger] w.modules@[x]).state is Some
                    ==> stream_of(old(w).modules@[x], runtime).is_prefix_of(
                    stream_of(w.modules@[x], runtime),
                ),
            forall|x: int|
                0 <= x < old(w).modules@.len() && (#[trigger] w.modules@[x]).state is Some ==> {
                    ||| stream_of(w.modules@[x], runtime).len() <= MAXIMUM_ERROR_COUNT
                    ||| stream_of(w.modules@[x], runtime) == stream_of(
                        old(w).modules@[x],
                        runtime,
                    )
                },
            forall|x: int|
                0 <= x < old(w).modules@.len() && (#[trigger] old(w).modules@[x]).state is Some
                    && batch_errors_for(errors@.take(k as int), old(w).modules@[x].id).len() > 0
                    && stream_of(old(w).modules@[x], runtime).len() + batch_errors_for(
                    errors@.take(k as int),
                    old(w).modules@[x].id,
                ).len() > MAXIMUM_ERROR_COUNT ==> w.modules@[x].state is None && unload_notice_in(
                    old(w).messages@,
                    w.messages@,
                    old(w).modules@[x].id,
                    "too many errors"@,
                ),
            forall|x: int|
                0 <= x < old(w).modules@.len() && !(exists|k2: int|
                    0 <= k2 < k && (#[trigger] errors@[k2]).0 == old(w).modules@[x].id)
                    ==> (#[trigger] w.modules@[x]) == old(w).modules@[x],
            forall|x: int|
                0 <= x < old(w).modules@.len() && (#[trigger] w.modules@[x]).state is Some ==> {
                    &&& w.modules@[x].state == old(w).modules@[x].state
                    &&& stream_of(w.modules@[x], runtime) == stream_of(
                        old(w).modules@[x],
                        runtime,
                    ) + batch_errors_for(errors@.take(k as int), old(w).modules@[x].id)
                },
            forall|x: int|
                0 <= x < old(w).modules@.len() && (#[trigger] old(w).modules@[x]).state is Some
                    && stream_of(old(w).modules@[x], runtime).len() + batch_errors_for(
                    errors@.take(k as int),
                    old(w).modules@[x].id,
                ).len() <= MAXIMUM_ERROR_COUNT ==> w.modules@[x].state is Some,
            runtime ==> forall|x: int|
                0 <= x < old(w).modules@.len()
                    ==> (#[trigger] w.modules@[x]).errors.compiletime == old(w).modules@[x].errors.compiletime,
            !runtime ==> forall|x: int|
                0 <= x < old(w).modules@.len() && (#[trigger] w.modules@[x]).state is Some
                    ==> w.modules@[x].errors.runtime == old(w).modules@[x].errors.runtime,
            errors_reported(old(w).messages@, w.messages@, errors@.take(k as int), runtime),
            w.messages@.len() >= old(w).messages@.len() + k,
            k == 0 ==> w.messages@ == old(w).messages@,
            k > 0 ==> {
                &&& w.messages@[old(w).messages@.len() as int].module == errors@[0].0
                &&& w.messages@[old(w).messages@.len() as int].kind == MessageType::Error
                &&& w.messages@[old(w).messages@.len() as int].text@ == error_text(
                    runtime,
                    errors@[0].1@,
                )
            },
        decreases n - k,
    {
        let ghost at_entry = *w;
        let id = errors[k].0;
        let label = if runtime {
            "Run error: "
        } else {
            "Compile error: "
        };
        let mut text = String::from_str(label);
        text.append(errors[k].1.as_str());
        w.messages.push(Message { module: id, kind: MessageType::Error, text });
        let ghost reported = *w;
        let ghost mut tripped_messages: Seq<Message> = Seq::empty();
        let ghost mut tripped_now: bool = false;
        match w.find_module(id) {
            Some(idx) => {
                let entry = &mut w.modules[idx];
                let overflow;
                if runtime {
                    entry.errors.runtime.push(errors[k].1.clone());
                    overflow = entry.errors.runtime.len() > MAXIMUM_ERROR_COUNT;
                } else {
                    entry.errors.compiletime.push(errors[k].1.clone());
                    overflow = entry.errors.compiletime.len() > MAXIMUM_ERROR_COUNT;
                }
                let ghost pushed = *w;
                proof {
                    assert(w.wf());
                    assert forall|x: int|
                        0 <= x < old(w).modules@.len() && x != idx implies #[trigger] w.modules@[x]
                        == at_entry.modules@[x] by {}
                }
                if overflow {
                    let _ = unload(w, id, "too many errors");
                    proof {
                        tripped_messages = w.messages@;
                        tripped_now = true;
                        assert(w.modules@[idx as int].same_record(pushed.modules@[idx as int]));
                        assert(w.modules@[idx as int].id == id);
                        w.lemma_index_of(id, idx as int);
                        assert(w.modules@[idx as int].state is None);
                    }
                }
                proof {
                    assert forall|x: int|
                        0 <= x < old(w).modules@.len() implies #[trigger] w.modules@[x].same_record(
                        old(w).modules@[x],
                    ) by {
                        assert(w.modules@[x].same_record(pushed.modules@[x]));
                        assert(pushed.modules@[x].same_record(at_entry.modules@[x]));
                        assert(at_entry.modules@[x].same_record(old(w).modules@[x]));
                    }
                    let e = errors@[k as int];
                    assert(errors@.take(k as int + 1) =~= errors@.take(k as int).push(e));
                    assert(e.0 == id);
                    assert forall|x: int|
                        0 <= x < old(w).modules@.len() && (
                    #[trigger] w.modules@[x]).state is Some implies (w.modules@[x].state == old(w).modules@[x].state && stream_of(w.modules@[x], runtime) == stream_of(
                        old(w).modules@[x],
                        runtime,
                    ) + batch_errors_for(errors@.take(k as int + 1), old(w).modules@[x].id)) by {
                        let xid = old(w).modules@[x].id;
                        lemma_batch_push(errors@.take(k as int), e, xid);
                        if x == idx as int {
                            assert(w.modules@[x] == pushed.modules@[x]);
                            assert(at_entry.modules@[x].state is Some);
                            assert(at_entry.modules@[x].state == old(w).modules@[x].state);
                            assert(stream_of(at_entry.modules@[x], runtime) == stream_of(
                                old(w).modules@[x],
                                runtime,
                            ) + batch_errors_for(errors@.take(k as int), xid));
                            assert(at_entry.modules@[x].same_record(old(w).modules@[x]));
                            assert(xid == id);
                            assert(stream_of(pushed.modules@[x], runtime) == stream_of(
                                at_entry.modules@[x],
                                runtime,
                            ).push(e.1));
                            assert((stream_of(old(w).modules@[x], runtime) + batch_errors_for(
                                errors@.take(k as int),
                                xid,
                            )).push(e.1) =~= stream_of(old(w).modules@[x], runtime)
                                + batch_errors_for(errors@.take(k as int), xid).push(e.1));
                        } else {
                            assert(w.modules@[x] == at_entry.modules@[x]);
                            assert(at_entry.modules@[x].state is Some);
                            assert(at_entry.modules@[x].state == old(w).modules@[x].state);
                            assert(stream_of(at_entry.modules@[x], runtime) == stream_of(
                                old(w).modules@[x],
                                runtime,
                            ) + batch_errors_for(errors@.take(k as int), xid));
                            assert(at_entry.modules@[x].same_record(old(w).modules@[x]));
                            assert(at_entry.modules@[x].id == xid);
                            assert(xid != id);
                        }
                    }
                    assert forall|x: int|
                        0 <= x < old(w).modules@.len() && (
                    #[trigger] old(w).modules@[x]).state is Some && stream_of(
                        old(w).modules@[x],
                        runtime,
                    ).len() + batch_errors_for(errors@.take(k as int + 1), old(w).modules@[x].id).len()
                        <= MAXIMUM_ERROR_COUNT implies w.modules@[x].state is Some by {
                        let xid = old(w).modules@[x].id;
                        lemma_batch_push(errors@.take(k as int), e, xid);
                        assert(at_entry.modules@[x].state is Some);
                        if x == idx as int {
                            if overflow {
                                assert(at_entry.modules@[x].same_record(old(w).modules@[x]));
                                assert(xid == id);
                                assert(stream_of(pushed.modules@[x], runtime) == stream_of(
                                    at_entry.modules@[x],
                                    runtime,
                                ).push(e.1));
                                assert(stream_of(at_entry.modules@[x], runtime) == stream_of(
                                    old(w).modules@[x],
                                    runtime,
                                ) + batch_errors_for(errors@.take(k as int), xid));
                                assert(stream_of(pushed.modules@[x], runtime).len() == stream_of(
                                    old(w).modules@[x],
                                    runtime,
                                ).len() + batch_errors_for(errors@.take(k as int + 1), xid).len());
                                assert(false);
                            } else {
                                assert(w.modules@[x] == pushed.modules@[x]);
                            }
                        } else {
                            assert(w.modules@[x] == at_entry.modules@[x]);
                        }
                    }
                    assert forall|x: int|
                        0 <= x < old(w).modules@.len() && (
                    #[trigger] old(w).modules@[x]).state is Some && batch_errors_for(
                        errors@.take(k as int + 1),
                        old(w).modules@[x].id,
                    ).len() > 0 && stream_of(old(w).modules@[x], runtime).len()
                        + batch_errors_for(errors@.take(k as int + 1), old(w).modules@[x].id).len()
                        > MAXIMUM_ERROR_COUNT implies (w.modules@[x].state is None
                        && unload_notice_in(
                        old(w).messages@,
                        w.messages@,
                        old(w).modules@[x].id,
                        "too many errors"@,
                    )) by {
                        let xid = old(w).modules@[x].id;
                        lemma_batch_push(errors@.take(k as int), e, xid);
                        let prior = batch_errors_for(errors@.take(k as int), xid);
                        if prior.len() > 0 && stream_of(old(w).modules@[x], runtime).len()
                            + prior.len() > MAXIMUM_ERROR_COUNT {
                            // tripped at an earlier entry: the state and the
                            // notice carry over
                            assert(at_entry.modules@[x].state is None);
                            if x == idx as int {
                                assert(pushed.modules@[x].state is None);
                                assert(pushed.modules@[x].same_record(at_entry.modules@[x]));
                                assert(pushed.modules@[x].id == id);
                                if overflow {
                                    lemma_is_loaded_at(pushed, id, idx as int);
                                    assert(!pushed.is_loaded(id));
                                    assert(w.modules@[x].state is None);
                                } else {
                                    assert(w.modules@[x] == pushed.modules@[x]);
                                }
                            } else {
                                assert(w.modules@[x] == at_entry.modules@[x]);
                            }
                            let j = choose|j: int|
                                #![trigger at_entry.messages@[j]]
                                old(w).messages@.len() <= j < at_entry.messages@.len()
                                    && at_entry.messages@[j].module == xid
                                    && at_entry.messages@[j].kind == MessageType::Info
                                    && at_entry.messages@[j].text@ == unload_text(
                                    "too many errors"@,
                                );
                            assert(reported.messages@.is_prefix_of(w.messages@));
                            lemma_prefix_trans(
                                at_entry.messages@,
                                reported.messages@,
                                w.messages@,
                            );
                            lemma_prefix_element(at_entry.messages@, w.messages@, j);
                        } else {
                            // this entry pushes the stream past the cap
                            assert(e.0 == xid);
                            assert(xid == id);
                            assert(at_entry.modules@[x].same_record(old(w).modules@[x]));
                            assert(at_entry.modules@[idx as int].id == id);
                            assert(x == idx as int) by {
                                if x != idx as int {
                                    assert(at_entry.modules@[x].id
                                        != at_entry.modules@[idx as int].id);
                                }
                            }
                            if prior.len() == 0 {
                                // never named before, hence untouched and
                                // still loaded
                                assert(!(exists|k2: int|
                                    0 <= k2 < k && (#[trigger] errors@[k2]).0 == xid)) by {
                                    if exists|k2: int|
                                        0 <= k2 < k && (#[trigger] errors@[k2]).0 == xid {
                                        let k2 = choose|k2: int|
                                            0 <= k2 < k && (#[trigger] errors@[k2]).0 == xid;
                                        assert(errors@.take(k as int)[k2] == errors@[k2]);
                                        lemma_batch_named(errors@.take(k as int), xid, k2);
                                    }
                                }
                                assert(at_entry.modules@[x] == old(w).modules@[x]);
                            }
                            assert(at_entry.modules@[x].state is Some);
                            assert(stream_of(at_entry.modules@[x], runtime) == stream_of(
                                old(w).modules@[x],
                                runtime,
                            ) + batch_errors_for(errors@.take(k as int), xid));
                            assert(stream_of(pushed.modules@[x], runtime) == stream_of(
                                at_entry.modules@[x],
                                runtime,
                            ).push(e.1));
                            assert(stream_of(pushed.modules@[x], runtime).len()
                                > MAXIMUM_ERROR_COUNT);
                            assert(overflow);
                            assert(tripped_now);
                            assert(tripped_messages == w.messages@);
                            assert(w.modules@[x].state is None);
                            lemma_is_loaded_at(pushed, id, idx as int);
                            assert(pushed.is_loaded(id));
                            let j = tripped_messages.len() - 1;
                            assert(w.messages@[j].module == xid);
                            assert(w.messages@[j].kind == MessageType::Info);
                            assert(w.messages@[j].text@ == unload_text("too many errors"@));
                            assert(old(w).messages@.len() <= j);
                        }
                    }
                    if !runtime {
                        assert forall|x: int|
                            0 <= x < old(w).modules@.len() && (
                        #[trigger] w.modules@[x]).state is Some implies w.modules@[x].errors.runtime
                            == old(w).modules@[x].errors.runtime by {
                            if x == idx as int {
                                assert(w.modules@[x] == pushed.modules@[x]);
                                assert(pushed.modules@[x].errors.runtime
                                    == at_entry.modules@[x].errors.runtime);
                                assert(at_entry.modules@[x].state is Some);
                            } else {
                                assert(w.modules@[x] == at_entry.modules@[x]);
                                assert(at_entry.modules@[x].state is Some);
                            }
                        }
                    }
                }
            },
            None => {
                proof {
                    let e = errors@[k as int];
                    assert(errors@.take(k as int + 1) =~= errors@.take(k as int).push(e));
                    assert forall|x: int|
                        0 <= x < old(w).modules@.len() implies old(w).modules@[x].id != e.0 by {
                        assert(w.modules@[x].same_record(old(w).modules@[x]));
                        assert(w.modules@[x].id != id);
                    }
                    assert forall|x: int|
                        0 <= x < old(w).modules@.len() && (
                    #[trigger] w.modules@[x]).state is Some implies stream_of(
                        w.modules@[x],
                        runtime,
                    ) == stream_of(old(w).modules@[x], runtime) + batch_errors_for(
                        errors@.take(k as int + 1),
                        old(w).modules@[x].id,
                    ) by {
                        lemma_batch_push(errors@.take(k as int), e, old(w).modules@[x].id);
                    }
                    assert(at_entry.messages@.is_prefix_of(w.messages@));
                    assert forall|x: int|
                        0 <= x < old(w).modules@.len() && (
                    #[trigger] old(w).modules@[x]).state is Some && batch_errors_for(
                        errors@.take(k as int + 1),
                        old(w).modules@[x].id,
                    ).len() > 0 && stream_of(old(w).modules@[x], runtime).len()
                        + batch_errors_for(errors@.take(k as int + 1), old(w).modules@[x].id).len()
                        > MAXIMUM_ERROR_COUNT implies (w.modules@[x].state is None
                        && unload_notice_in(
                        old(w).messages@,
                        w.messages@,
                        old(w).modules@[x].id,
                        "too many errors"@,
                    )) by {
                        let xid = old(w).modules@[x].id;
                        lemma_batch_push(errors@.take(k as int), e, xid);
                        assert(at_entry.modules@[x].state is None);
                        assert(w.modules@[x] == at_entry.modules@[x]);
                        let j = choose|j: int|
                            #![trigger at_entry.messages@[j]]
                            old(w).messages@.len() <= j < at_entry.messages@.len()
                                && at_entry.messages@[j].module == xid
                                && at_entry.messages@[j].kind == MessageType::Info
                                && at_entry.messages@[j].text@ == unload_text("too many errors"@);
                        lemma_prefix_element(at_entry.messages@, w.messages@, j);
                    }
                    assert forall|x: int|
                        0 <= x < old(w).modules@.len() && (
                    #[trigger] old(w).modules@[x]).state is Some && stream_of(
                        old(w).modules@[x],
                        runtime,
                    ).len() + batch_errors_for(errors@.take(k as int + 1), old(w).modules@[x].id).len()
                        <= MAXIMUM_ERROR_COUNT implies w.modules@[x].state is Some by {
                        lemma_batch_push(errors@.take(k as int), e, old(w).modules@[x].id);
                        assert(at_entry.modules@[x].state is Some);
                        assert(w.modules@[x] == at_entry.modules@[x]);
                    }
                }
            },
        }
        proof {
            assert(reported.messages@.is_prefix_of(w.messages@));
            lemma_prefix_trans(at_entry.messages@, reported.messages@, w.messages@);
            if k > 0 {
                lemma_prefix_element(
                    at_entry.messages@,
                    w.messages@,
                    old(w).messages@.len() as int,
                );
            } else {
                lemma_prefix_element(
                    reported.messages@,
                    w.messages@,
                    old(w).messages@.len() as int,
                );
            }
            let s_prev = errors@.take(k as int);
            let s_next = errors@.take(k as int + 1);
            assert forall|k2: int|
                #![trigger s_next[k2]]
                0 <= k2 < s_next.len() implies exists|j: int|
                #![trigger w.messages@[j]]
                old(w).messages@.len() <= j < w.messages@.len() && w.messages@[j].module
                    == s_next[k2].0 && w.messages@[j].kind == MessageType::Error
                    && w.messages@[j].text@ == error_text(runtime, s_next[k2].1@) by {
                assert(s_next[k2] == errors@[k2]);
                if k2 < k {
                    assert(s_prev[k2] == errors@[k2]);
                    let j = choose|j: int|
                        #![trigger at_entry.messages@[j]]
                        old(w).messages@.len() <= j < at_entry.messages@.len()
                            && at_entry.messages@[j].module == s_prev[k2].0
                            && at_entry.messages@[j].kind == MessageType::Error
                            && at_entry.messages@[j].text@ == error_text(runtime, s_prev[k2].1@);
                    lemma_prefix_element(at_entry.messages@, w.messages@, j);
                } else {
                    let j = reported.messages@.len() - 1;
                    lemma_prefix_element(reported.messages@, w.messages@, j);
                    assert(old(w).messages@.len() <= j < w.messages@.len() && w.messages@[j].module
                        == errors@[k2].0 && w.messages@[j].kind == MessageType::Error
                        && w.messages@[j].text@ == error_text(runtime, errors@[k2].1@));
                }
            }
            assert(errors_reported(old(w).messages@, w.messages@, s_next, runtime));
        }
        k += 1;
    }
    proof {
        assert(errors@.take(n as int) =~= errors@);
        assert(errors_reported(old(w).messages@, w.messages@, errors@, runtime));
        assert forall|x: int|
            0 <= x < old(w).modules@.len() && (
        #[trigger] w.modules@[x]).state is Some implies stream_of(w.modules@[x], runtime)
            == stream_of(old(w).modules@[x], runtime) + batch_errors_for(
            errors@,
            old(w).modules@[x].id,
        ) by {
            assert(stream_of(w.modules@[x], runtime) == stream_of(old(w).modules@[x], runtime)
                + batch_errors_for(errors@.take(n as int), old(w).modules@[x].id));
        }
        assert forall|x: int|
            0 <= x < old(w).modules@.len() && (#[trigger] old(w).modules@[x]).state is Some
                && batch_errors_for(errors@, old(w).modules@[x].id).len() > 0 && stream_of(
            old(w).modules@[x],
            runtime,
        ).len() + batch_errors_for(errors@, old(w).modules@[x].id).len()
            > MAXIMUM_ERROR_COUNT implies (w.modules@[x].state is None && unload_notice_in(
            old(w).messages@,
            w.messages@,
            old(w).modules@[x].id,
            "too many errors"@,
        )) by {
            assert(batch_errors_for(errors@.take(n as int), old(w).modules@[x].id)
                == batch_errors_for(errors@, old(w).modules@[x].id));
        }
        assert forall|x: int|
            0 <= x < old(w).modules@.len() && (#[trigger] old(w).modules@[x]).state is Some
                && stream_of(old(w).modules@[x], runtime).len() + batch_errors_for(
            errors@,
            old(w).modules@[x].id,
        ).len() <= MAXIMUM_ERROR_COUNT implies w.modules@[x].state is Some by {
            assert(batch_errors_for(errors@.take(n as int), old(w).modules@[x].id)
                == batch_errors_for(errors@, old(w).modules@[x].id));
        }
    }
}

/// One dispatch pass: delivers `context` to every loaded module in store
/// order, then records every fault the pass produced as run-time errors.
/// All modules of one pass observe the same context.
pub fn run_all<S: Sandbox>(w: &mut ScriptWorld<S>, context: &ScriptContext)
    requires
        old(w).wf(),
    ensures
        final(w).wf(),
        records_preserved(*old(w), *final(w)),
        effects_extended(*old(w), *final(w)),
        forall|x: int|
            0 <= x < old(w).modules@.len() && (#[trigger] final(w).modules@[x]).state is Some
                ==> old(w).modules@[x].state is Some,
        // an event that is not deliverable to a module leaves it as it was
        forall|x: int|
            0 <= x < old(w).modules@.len() && (#[trigger] old(w).modules@[x]).state is Some
                && !deliverable(
                context.event_name@,
                old(w).modules@[x].state->0.shared_state.subscribed_events@,
            ) ==> final(w).modules@[x] == old(w).modules@[x],
        // the failure budget holds after the pass
        forall|x: int|
            0 <= x < old(w).modules@.len() && (#[trigger] final(w).modules@[x]).state is Some ==> {
                ||| stream_of(final(w).modules@[x], true).len() <= MAXIMUM_ERROR_COUNT
                ||| stream_of(final(w).modules@[x], true) == stream_of(old(w).modules@[x], true)
            },
        // a loaded module the event was deliverable to ends the pass
        // with its outbox drained into the queue
        forall|x: int|
            0 <= x < old(w).modules@.len() && (#[trigger] old(w).modules@[x]).state is Some
                && deliverable(
                context.event_name@,
                old(w).modules@[x].state->0.shared_state.subscribed_events@,
            ) && final(w).modules@[x].state is Some
                ==> final(w).modules@[x].state->0.shared_state.events@.len() == 0,
{
    let n = w.modules.len();
    let mut errs: Vec<(u64, String)> = Vec::new();
    let mut i: usize = 0;
    while i < n
        invariant
            old(w).wf(),
            w.wf(),
            i <= n,
            n == old(w).modules@.len(),
            records_preserved(*old(w), *w),
            effects_extended(*old(w), *w),
            forall|x: int|
                0 <= x < old(w).modules@.len() && (#[trigger] w.modules@[x]).state is Some ==> old(w).modules@[x].state is Some,
            forall|x: int|
                0 <= x < old(w).modules@.len()
                    ==> (#[trigger] w.modules@[x]).errors == old(w).modules@[x].errors,
            forall|x: int|
                0 <= x < old(w).modules@.len() && (#[trigger] old(w).modules@[x]).state is Some
                    && !deliverable(
                    context.event_name@,
                    old(w).modules@[x].state->0.shared_state.subscribed_events@,
                ) ==> w.modules@[x] == old(w).modules@[x],
            forall|x: int, k: int|
                #![trigger old(w).modules@[x], errs@[k]]
                0 <= x < old(w).modules@.len() && old(w).modules@[x].state is Some && !deliverable(
                    context.event_name@,
                    old(w).modules@[x].state->0.shared_state.subscribed_events@,
                ) && 0 <= k < errs@.len() ==> errs@[k].0 != old(w).modules@[x].id,
            forall|x: int|
                i <= x < old(w).modules@.len() ==> #[trigger] w.modules@[x] == old(w).modules@[x],
            forall|x: int|
                0 <= x < i && (#[trigger] old(w).modules@[x]).state is Some && deliverable(
                    context.event_name@,
                    old(w).modules@[x].state->0.shared_state.subscribed_events@,
                ) && w.modules@[x].state is Some
                    ==> w.modules@[x].state->0.shared_state.events@.len() == 0,
        decreases n - i,
    {
        let id = w.modules[i].id;
        proof {
            w.lemma_index_of(id, i as int);
        }
        let ghost before = *w;
        let e = run(w, id, context);
        proof {
            if old(w).modules@[i as int].state is Some && !deliverable(
                context.event_name@,
                old(w).modules@[i as int].state->0.shared_state.subscribed_events@,
            ) {
                assert(before.modules@[i as int] == old(w).modules@[i as int]);
                assert(before.is_loaded(id));
                assert(e is None);
            }
        }
        if let Some(err) = e {
            errs.push(err);
        }
        proof {
            assert forall|x: int| 0 <= x < old(w).modules@.len() implies {
                &&& (#[trigger] w.modules@[x]).same_record(old(w).modules@[x])
                &&& w.modules@[x].errors == old(w).modules@[x].errors
            } by {
                assert(w.modules@[x].same_record(before.modules@[x]));
                assert(before.modules@[x].same_record(old(w).modules@[x]));
                assert(w.modules@[x].errors == before.modules@[x].errors);
                assert(before.modules@[x].errors == old(w).modules@[x].errors);
            }
            assert forall|x: int|
                0 <= x < old(w).modules@.len() && x != i as int implies #[trigger] w.modules@[x]
                == before.modules@[x] by {
                assert(before.modules@[x].same_record(old(w).modules@[x]));
                assert(before.modules@[x].id == old(w).modules@[x].id);
                assert(before.modules@[x].id != id);
            }
            assert forall|x: int|
                0 <= x < i + 1 && (#[trigger] old(w).modules@[x]).state is Some && deliverable(
                    context.event_name@,
                    old(w).modules@[x].state->0.shared_state.subscribed_events@,
                ) && w.modules@[x].state is Some implies w.modules@[x].state->0.shared_state.events@.len()
                == 0 by {
                if x == i as int {
                    assert(before.modules@[x] == old(w).modules@[x]);
                    assert(before.is_loaded(id));
                    assert(w.modules@[x].same_record(before.modules@[x]));
                    w.lemma_index_of(id, i as int);
                    assert(w.module(id) == w.modules@[x]);
                } else {
                    assert(w.modules@[x] == before.modules@[x]);
                }
            }
        }
        i += 1;
    }
    let ghost mid = *w;
    update_errors(w, &errs, true);
    proof {
        assert forall|x: int|
            0 <= x < old(w).modules@.len() && (#[trigger] old(w).modules@[x]).state is Some
                && !deliverable(
                context.event_name@,
                old(w).modules@[x].state->0.shared_state.subscribed_events@,
            ) implies w.modules@[x] == old(w).modules@[x] by {
            assert(mid.modules@[x] == old(w).modules@[x]);
            assert(!(exists|k: int|
                0 <= k < errs@.len() && (#[trigger] errs@[k]).0 == mid.modules@[x].id)) by {
                if exists|k: int| 0 <= k < errs@.len() && (#[trigger] errs@[k]).0
                    == mid.modules@[x].id {
                    let k = choose|k: int|
                        0 <= k < errs@.len() && (#[trigger] errs@[k]).0 == mid.modules@[x].id;
                    assert(errs@[k].0 != old(w).modules@[x].id);
                }
            }
        }
        assert forall|x: int|
            0 <= x < old(w).modules@.len() implies #[trigger] w.modules@[x].same_record(
            old(w).modules@[x],
        ) by {
            assert(w.modules@[x].same_record(mid.modules@[x]));
            assert(mid.modules@[x].same_record(old(w).modules@[x]));
        }
        lemma_prefix_trans(old(w).messages@, mid.messages@, w.messages@);
        lemma_prefix_trans(old(w).despawn_queue@, mid.despawn_queue@, w.despawn_queue@);
        lemma_prefix_trans(old(w).pending_events@, mid.pending_events@, w.pending_events@);
        assert forall|x: int|
            0 <= x < old(w).modules@.len() && (#[trigger] old(w).modules@[x]).state is Some
                && deliverable(
                context.event_name@,
                old(w).modules@[x].state->0.shared_state.subscribed_events@,
            ) && w.modules@[x].state is Some implies w.modules@[x].state->0.shared_state.events@.len()
            == 0 by {
            assert(w.modules@[x].state == mid.modules@[x].state);
            assert(mid.modules@[x].state is Some);
        }
    }
}

/// Reloads each listed module: unconditional unload (reason
/// `reloading`), then a fresh load if bytecode is present and
/// non-empty. An entry with absent or empty bytecode leaves its module
/// `Unloaded`: this is also how a module is disabled.
/// One `reload` step re-established, record side: what one
/// unload / load / update_errors round for entry `k` does to the
/// module clauses `reload` promises.
#[verifier::rlimit(100)]
proof fn lemma_reload_step_modules<S>(
    prev: ScriptWorld<S>,
    at_entry: ScriptWorld<S>,
    after_unload: ScriptWorld<S>,
    after_load: ScriptWorld<S>,
    cur: ScriptWorld<S>,
    scripts: Seq<(u64, Option<ScriptModuleBytecode>)>,
    k: int,
    errors_mid: Seq<(u64, String)>,
    errors_all: Seq<(u64, String)>,
)
    requires
        0 <= k < scripts.len(),
        prev.wf(),
        at_entry.wf(),
        after_unload.wf(),
        after_load.wf(),
        cur.wf(),
        forall|k2: int| 0 <= k2 < scripts.len() ==> prev.has_module((#[trigger] scripts[k2]).0),
        records_preserved(prev, at_entry),
        records_preserved(at_entry, after_unload),
        records_preserved(after_unload, after_load),
        records_preserved(after_load, cur),
        prev.messages@.is_prefix_of(at_entry.messages@),
        at_entry.messages@.is_prefix_of(after_unload.messages@),
        after_unload.messages@.is_prefix_of(after_load.messages@),
        after_load.messages@.is_prefix_of(cur.messages@),
        forall|x: int|
            0 <= x < prev.modules@.len() && !names_module(scripts, k, prev.modules@[x].id)
                ==> (#[trigger] at_entry.modules@[x]) == prev.modules@[x],
        forall|k2: int|
            #![trigger scripts[k2]]
            0 <= k2 < k && no_later_entry(scripts, k2, k) && (scripts[k2].1 is None || (
            scripts[k2].1->0).0@.len() == 0) ==> !at_entry.is_loaded(scripts[k2].0),
        forall|k2: int|
            #![trigger scripts[k2]]
            0 <= k2 < k && no_later_entry(scripts, k2, k) && at_entry.is_loaded(scripts[k2].0)
                ==> scripts[k2].1 is Some && (scripts[k2].1->0).0@.len() > 0,
        forall|k2: int|
            #![trigger scripts[k2]]
            0 <= k2 < k && prev.is_loaded(scripts[k2].0) ==> unload_notice_in(
                prev.messages@,
                at_entry.messages@,
                scripts[k2].0,
                "reloading"@,
            ),
        !after_unload.is_loaded(scripts[k].0),
        forall|i: int|
            0 <= i < at_entry.modules@.len() && at_entry.modules@[i].id != scripts[k].0
                ==> #[trigger] after_unload.modules@[i] == at_entry.modules@[i],
        at_entry.is_loaded(scripts[k].0) ==> after_unload.messages@.len()
            > at_entry.messages@.len() && after_unload.messages@.last().module == scripts[k].0
            && after_unload.messages@.last().kind == MessageType::Info
            && after_unload.messages@.last().text@ == unload_text("reloading"@),
        (scripts[k].1 is None || (scripts[k].1->0).0@.len() == 0) ==> after_load == after_unload,
        forall|i: int|
            0 <= i < after_unload.modules@.len() && after_unload.modules@[i].id != scripts[k].0
                ==> #[trigger] after_load.modules@[i] == after_unload.modules@[i],
        forall|x: int|
            0 <= x < after_load.modules@.len() && (#[trigger] cur.modules@[x]).state is Some
                ==> after_load.modules@[x].state is Some,
        forall|x: int|
            0 <= x < after_load.modules@.len() && !(exists|k3: int|
                0 <= k3 < errors_all.len() && (#[trigger] errors_all[k3]).0
                    == after_load.modules@[x].id) ==> (#[trigger] cur.modules@[x])
                == after_load.modules@[x],
        errors_mid.is_prefix_of(errors_all),
        forall|k3: int|
            0 <= k3 < errors_mid.len() ==> (#[trigger] errors_mid[k3]).0 == scripts[k].0,
        forall|k3: int|
            errors_mid.len() <= k3 < errors_all.len() ==> (#[trigger] errors_all[k3]).0
                == scripts[k].0,
    ensures
        forall|x: int|
            0 <= x < prev.modules@.len() ==> #[trigger] cur.modules@[x].same_record(
                prev.modules@[x],
            ),
        forall|k2: int| 0 <= k2 < scripts.len() ==> cur.has_module((#[trigger] scripts[k2]).0),
        forall|x: int|
            0 <= x < prev.modules@.len() && !names_module(scripts, k + 1, prev.modules@[x].id)
                ==> (#[trigger] cur.modules@[x]) == prev.modules@[x],
        forall|k2: int|
            #![trigger scripts[k2]]
            0 <= k2 < k + 1 && no_later_entry(scripts, k2, k + 1) && (scripts[k2].1 is None || (
            scripts[k2].1->0).0@.len() == 0) ==> !cur.is_loaded(scripts[k2].0),
        forall|k2: int|
            #![trigger scripts[k2]]
            0 <= k2 < k + 1 && no_later_entry(scripts, k2, k + 1) && cur.is_loaded(scripts[k2].0)
                ==> scripts[k2].1 is Some && (scripts[k2].1->0).0@.len() > 0,
{
    let sid = scripts[k].0;
    assert forall|x: int|
        0 <= x < prev.modules@.len() implies #[trigger] cur.modules@[x].same_record(
        prev.modules@[x],
    ) by {
        assert(cur.modules@[x].same_record(after_load.modules@[x]));
        assert(after_load.modules@[x].same_record(after_unload.modules@[x]));
        assert(after_unload.modules@[x].same_record(at_entry.modules@[x]));
        assert(at_entry.modules@[x].same_record(prev.modules@[x]));
    }
    assert forall|k2: int|
        0 <= k2 < scripts.len() implies cur.has_module((#[trigger] scripts[k2]).0) by {
        let id2 = scripts[k2].0;
        let i2 = choose|i: int| 0 <= i < prev.modules@.len() && #[trigger] prev.modules@[i].id
            == id2;
        assert(cur.modules@[i2].same_record(prev.modules@[i2]));
        assert(cur.modules@[i2].id == id2);
    }
    assert forall|x: int|
        0 <= x < prev.modules@.len() && !names_module(scripts, k + 1, prev.modules@[x].id) implies (
    #[trigger] cur.modules@[x]) == prev.modules@[x] by {
        assert(scripts[k].0 != prev.modules@[x].id);
        assert(!names_module(scripts, k, prev.modules@[x].id));
        assert(at_entry.modules@[x] == prev.modules@[x]);
        assert(at_entry.modules@[x].id != sid);
        assert(after_unload.modules@[x] == at_entry.modules@[x]);
        assert(after_load.modules@[x] == after_unload.modules@[x]);
        assert(!(exists|k3: int|
            0 <= k3 < errors_all.len() && (#[trigger] errors_all[k3]).0
                == after_load.modules@[x].id)) by {
            if exists|k3: int|
                0 <= k3 < errors_all.len() && (#[trigger] errors_all[k3]).0
                    == after_load.modules@[x].id {
                let k3 = choose|k3: int|
                    0 <= k3 < errors_all.len() && (#[trigger] errors_all[k3]).0
                        == after_load.modules@[x].id;
                if k3 < errors_mid.len() {
                    lemma_prefix_element(errors_mid, errors_all, k3);
                    assert(errors_mid[k3].0 == sid);
                }
                assert(errors_all[k3].0 == sid);
            }
        }
        assert(cur.modules@[x] == after_load.modules@[x]);
    }
    assert forall|k2: int|
        #![trigger scripts[k2]]
        0 <= k2 < k + 1 && no_later_entry(scripts, k2, k + 1) implies {
        &&& ((scripts[k2].1 is None || (scripts[k2].1->0).0@.len() == 0) ==> !cur.is_loaded(
            scripts[k2].0,
        ))
        &&& (cur.is_loaded(scripts[k2].0) ==> scripts[k2].1 is Some && (scripts[k2].1->0).0@.len()
            > 0)
    } by {
        let id2 = scripts[k2].0;
        if k2 < k {
            assert(no_later_entry(scripts, k2, k));
        }
        assert(prev.has_module(id2));
        let i2 = choose|i: int| 0 <= i < prev.modules@.len() && #[trigger] prev.modules@[i].id
            == id2;
        assert(at_entry.modules@[i2].same_record(prev.modules@[i2]));
        assert(after_unload.modules@[i2].same_record(at_entry.modules@[i2]));
        assert(after_load.modules@[i2].same_record(after_unload.modules@[i2]));
        assert(cur.modules@[i2].same_record(after_load.modules@[i2]));
        if k2 == k {
            lemma_is_loaded_at(after_unload, id2, i2);
            if scripts[k2].1 is None || (scripts[k2].1->0).0@.len() == 0 {
                assert(after_load.modules@[i2] == after_unload.modules@[i2]);
                assert(after_load.modules@[i2].state is None);
                assert(cur.modules@[i2].state is None);
                lemma_is_loaded_at(cur, id2, i2);
            } else {
                lemma_is_loaded_at(cur, id2, i2);
            }
        } else {
            assert(scripts[k2].0 != scripts[k].0);
            lemma_is_loaded_at(at_entry, id2, i2);
            assert(after_unload.modules@[i2] == at_entry.modules@[i2]);
            assert(after_load.modules@[i2] == after_unload.modules@[i2]);
            assert((cur.modules@[i2].state is Some) ==> (after_load.modules@[i2].state is Some));
            lemma_is_loaded_at(cur, id2, i2);
        }
    }
}

/// One `reload` step re-established, messenger side: the reloading
/// notice owed for every module that was loaded.
#[verifier::rlimit(100)]
proof fn lemma_reload_step_notice<S>(
    prev: ScriptWorld<S>,
    at_entry: ScriptWorld<S>,
    after_unload: ScriptWorld<S>,
    after_load: ScriptWorld<S>,
    cur: ScriptWorld<S>,
    scripts: Seq<(u64, Option<ScriptModuleBytecode>)>,
    k: int,
    errors_mid: Seq<(u64, String)>,
    errors_all: Seq<(u64, String)>,
)
    requires
        0 <= k < scripts.len(),
        prev.wf(),
        at_entry.wf(),
        after_unload.wf(),
        after_load.wf(),
        cur.wf(),
        forall|k2: int| 0 <= k2 < scripts.len() ==> prev.has_module((#[trigger] scripts[k2]).0),
        records_preserved(prev, at_entry),
        records_preserved(at_entry, after_unload),
        records_preserved(after_unload, after_load),
        records_preserved(after_load, cur),
        prev.messages@.is_prefix_of(at_entry.messages@),
        at_entry.messages@.is_prefix_of(after_unload.messages@),
        after_unload.messages@.is_prefix_of(after_load.messages@),
        after_load.messages@.is_prefix_of(cur.messages@),
        forall|x: int|
            0 <= x < prev.modules@.len() && !names_module(scripts, k, prev.modules@[x].id)
                ==> (#[trigger] at_entry.modules@[x]) == prev.modules@[x],
        forall|k2: int|
            #![trigger scripts[k2]]
            0 <= k2 < k && no_later_entry(scripts, k2, k) && (scripts[k2].1 is None || (
            scripts[k2].1->0).0@.len() == 0) ==> !at_entry.is_loaded(scripts[k2].0),
        forall|k2: int|
            #![trigger scripts[k2]]
            0 <= k2 < k && no_later_entry(scripts, k2, k) && at_entry.is_loaded(scripts[k2].0)
                ==> scripts[k2].1 is Some && (scripts[k2].1->0).0@.len() > 0,
        forall|k2: int|
            #![trigger scripts[k2]]
            0 <= k2 < k && prev.is_loaded(scripts[k2].0) ==> unload_notice_in(
                prev.messages@,
                at_entry.messages@,
                scripts[k2].0,
                "reloading"@,
            ),
        !after_unload.is_loaded(scripts[k].0),
        forall|i: int|
            0 <= i < at_entry.modules@.len() && at_entry.modules@[i].id != scripts[k].0
                ==> #[trigger] after_unload.modules@[i] == at_entry.modules@[i],
        at_entry.is_loaded(scripts[k].0) ==> after_unload.messages@.len()
            > at_entry.messages@.len() && after_unload.messages@.last().module == scripts[k].0
            && after_unload.messages@.last().kind == MessageType::Info
            && after_unload.messages@.last().text@ == unload_text("reloading"@),
        (scripts[k].1 is None || (scripts[k].1->0).0@.len() == 0) ==> after_load == after_unload,
        forall|i: int|
            0 <= i < after_unload.modules@.len() && after_unload.modules@[i].id != scripts[k].0
                ==> #[trigger] after_load.modules@[i] == after_unload.modules@[i],
        forall|x: int|
            0 <= x < after_load.modules@.len() && (#[trigger] cur.modules@[x]).state is Some
                ==> after_load.modules@[x].state is Some,
        forall|x: int|
            0 <= x < after_load.modules@.len() && !(exists|k3: int|
                0 <= k3 < errors_all.len() && (#[trigger] errors_all[k3]).0
                    == after_load.modules@[x].id) ==> (#[trigger] cur.modules@[x])
                == after_load.modules@[x],
        errors_mid.is_prefix_of(errors_all),
        forall|k3: int|
            0 <= k3 < errors_mid.len() ==> (#[trigger] errors_mid[k3]).0 == scripts[k].0,
        forall|k3: int|
            errors_mid.len() <= k3 < errors_all.len() ==> (#[trigger] errors_all[k3]).0
                == scripts[k].0,
    ensures
        forall|k2: int|
            #![trigger scripts[k2]]
            0 <= k2 < k + 1 && prev.is_loaded(scripts[k2].0) ==> unload_notice_in(
                prev.messages@,
                cur.messages@,
                scripts[k2].0,
                "reloading"@,
            ),
{
    let sid = scripts[k].0;
    assert forall|k2: int|
        #![trigger scripts[k2]]
        0 <= k2 < k + 1 && prev.is_loaded(scripts[k2].0) implies unload_notice_in(
        prev.messages@,
        cur.messages@,
        scripts[k2].0,
        "reloading"@,
    ) by {
        let id2 = scripts[k2].0;
        if k2 < k {
            let j = choose|j: int|
                #![trigger at_entry.messages@[j]]
                prev.messages@.len() <= j < at_entry.messages@.len() && at_entry.messages@[j].module
                    == id2 && at_entry.messages@[j].kind == MessageType::Info
                    && at_entry.messages@[j].text@ == unload_text("reloading"@);
            lemma_prefix_trans(at_entry.messages@, after_unload.messages@, after_load.messages@);
            lemma_prefix_trans(at_entry.messages@, after_load.messages@, cur.messages@);
            lemma_prefix_element(at_entry.messages@, cur.messages@, j);
        } else if names_module(scripts, k, id2) {
            let k3 = choose|k3: int| 0 <= k3 < k && (#[trigger] scripts[k3]).0 == id2;
            assert(prev.is_loaded(scripts[k3].0));
            let j = choose|j: int|
                #![trigger at_entry.messages@[j]]
                prev.messages@.len() <= j < at_entry.messages@.len() && at_entry.messages@[j].module
                    == scripts[k3].0 && at_entry.messages@[j].kind == MessageType::Info
                    && at_entry.messages@[j].text@ == unload_text("reloading"@);
            lemma_prefix_trans(at_entry.messages@, after_unload.messages@, after_load.messages@);
            lemma_prefix_trans(at_entry.messages@, after_load.messages@, cur.messages@);
            lemma_prefix_element(at_entry.messages@, cur.messages@, j);
        } else {
            // first entry to name this module: it was untouched, so still
            // loaded, and this unload produced the notice
            let i2 = choose|i: int| 0 <= i < prev.modules@.len() && #[trigger] prev.modules@[i].id
                == id2;
            assert(at_entry.modules@[i2] == prev.modules@[i2]);
            lemma_is_loaded_at(prev, id2, i2);
            lemma_is_loaded_at(at_entry, id2, i2);
            assert(at_entry.is_loaded(sid));
            let j = after_unload.messages@.len() - 1;
            assert(after_unload.messages@.len() > at_entry.messages@.len());
            assert(after_unload.messages@[j].module == sid);
            assert(after_unload.messages@[j].kind == MessageType::Info);
            assert(after_unload.messages@[j].text@ == unload_text("reloading"@));
            lemma_prefix_trans(after_unload.messages@, after_load.messages@, cur.messages@);
            lemma_prefix_element(after_unload.messages@, cur.messages@, j);
        }
    }
}


/// One `reload` step re-established, error side: an entry with real
/// bytecode whose module did not end loaded left a run-labelled error
/// notice behind.
#[verifier::rlimit(100)]
proof fn lemma_reload_step_errors<S>(
    prev: ScriptWorld<S>,
    at_entry: ScriptWorld<S>,
    after_unload: ScriptWorld<S>,
    after_load: ScriptWorld<S>,
    cur: ScriptWorld<S>,
    scripts: Seq<(u64, Option<ScriptModuleBytecode>)>,
    k: int,
    errors_mid: Seq<(u64, String)>,
    errors_all: Seq<(u64, String)>,
)
    requires
        0 <= k < scripts.len(),
        prev.wf(),
        at_entry.wf(),
        after_unload.wf(),
        after_load.wf(),
        cur.wf(),
        forall|k2: int| 0 <= k2 < scripts.len() ==> prev.has_module((#[trigger] scripts[k2]).0),
        records_preserved(prev, at_entry),
        records_preserved(at_entry, after_unload),
        records_preserved(after_unload, after_load),
        records_preserved(after_load, cur),
        prev.messages@.is_prefix_of(at_entry.messages@),
        at_entry.messages@.is_prefix_of(after_unload.messages@),
        after_unload.messages@.is_prefix_of(after_load.messages@),
        after_load.messages@.is_prefix_of(cur.messages@),
        forall|x: int|
            0 <= x < prev.modules@.len() && !names_module(scripts, k, prev.modules@[x].id)
                ==> (#[trigger] at_entry.modules@[x]) == prev.modules@[x],
        forall|k2: int|
            #![trigger scripts[k2]]
            0 <= k2 < k && no_later_entry(scripts, k2, k) && (scripts[k2].1 is None || (
            scripts[k2].1->0).0@.len() == 0) ==> !at_entry.is_loaded(scripts[k2].0),
        forall|k2: int|
            #![trigger scripts[k2]]
            0 <= k2 < k && no_later_entry(scripts, k2, k) && at_entry.is_loaded(scripts[k2].0)
                ==> scripts[k2].1 is Some && (scripts[k2].1->0).0@.len() > 0,
        forall|k2: int|
            #![trigger scripts[k2]]
            0 <= k2 < k && prev.is_loaded(scripts[k2].0) ==> unload_notice_in(
                prev.messages@,
                at_entry.messages@,
                scripts[k2].0,
                "reloading"@,
            ),
        !after_unload.is_loaded(scripts[k].0),
        forall|i: int|
            0 <= i < at_entry.modules@.len() && at_entry.modules@[i].id != scripts[k].0
                ==> #[trigger] after_unload.modules@[i] == at_entry.modules@[i],
        at_entry.is_loaded(scripts[k].0) ==> after_unload.messages@.len()
            > at_entry.messages@.len() && after_unload.messages@.last().module == scripts[k].0
            && after_unload.messages@.last().kind == MessageType::Info
            && after_unload.messages@.last().text@ == unload_text("reloading"@),
        (scripts[k].1 is None || (scripts[k].1->0).0@.len() == 0) ==> after_load == after_unload,
        forall|i: int|
            0 <= i < after_unload.modules@.len() && after_unload.modules@[i].id != scripts[k].0
                ==> #[trigger] after_load.modules@[i] == after_unload.modules@[i],
        forall|x: int|
            0 <= x < after_load.modules@.len() && (#[trigger] cur.modules@[x]).state is Some
                ==> after_load.modules@[x].state is Some,
        forall|x: int|
            0 <= x < after_load.modules@.len() && !(exists|k3: int|
                0 <= k3 < errors_all.len() && (#[trigger] errors_all[k3]).0
                    == after_load.modules@[x].id) ==> (#[trigger] cur.modules@[x])
                == after_load.modules@[x],
        errors_mid.is_prefix_of(errors_all),
        forall|k3: int|
            0 <= k3 < errors_mid.len() ==> (#[trigger] errors_mid[k3]).0 == scripts[k].0,
        forall|k3: int|
            errors_mid.len() <= k3 < errors_all.len() ==> (#[trigger] errors_all[k3]).0
                == scripts[k].0,
        errors_reported(after_load.messages@, cur.messages@, errors_all, true),
        (scripts[k].1 is Some && (scripts[k].1->0).0@.len() > 0 && !after_load.is_loaded(
            scripts[k].0,
        )) ==> errors_all.len() == errors_mid.len() + 1,
        forall|k2: int|
            #![trigger scripts[k2]]
            0 <= k2 < k && no_later_entry(scripts, k2, k) && scripts[k2].1 is Some && (
            scripts[k2].1->0).0@.len() > 0 && !at_entry.is_loaded(scripts[k2].0)
                ==> run_error_notice_in(prev.messages@, at_entry.messages@, scripts[k2].0),
    ensures
        forall|k2: int|
            #![trigger scripts[k2]]
            0 <= k2 < k + 1 && no_later_entry(scripts, k2, k + 1) && scripts[k2].1 is Some && (
            scripts[k2].1->0).0@.len() > 0 && !cur.is_loaded(scripts[k2].0)
                ==> run_error_notice_in(prev.messages@, cur.messages@, scripts[k2].0),
{
    let sid = scripts[k].0;
    assert forall|k2: int|
        #![trigger scripts[k2]]
        0 <= k2 < k + 1 && no_later_entry(scripts, k2, k + 1) && scripts[k2].1 is Some && (
    scripts[k2].1->0).0@.len() > 0 && !cur.is_loaded(scripts[k2].0) implies run_error_notice_in(
        prev.messages@,
        cur.messages@,
        scripts[k2].0,
    ) by {
        let id2 = scripts[k2].0;
        assert(prev.has_module(id2));
        let i2 = choose|i: int| 0 <= i < prev.modules@.len() && #[trigger] prev.modules@[i].id
            == id2;
        assert(at_entry.modules@[i2].same_record(prev.modules@[i2]));
        assert(after_unload.modules@[i2].same_record(at_entry.modules@[i2]));
        assert(after_load.modules@[i2].same_record(after_unload.modules@[i2]));
        assert(cur.modules@[i2].same_record(after_load.modules@[i2]));
        if k2 < k {
            assert(no_later_entry(scripts, k2, k));
            assert(scripts[k2].0 != scripts[k].0);
            assert(after_unload.modules@[i2] == at_entry.modules@[i2]);
            assert(after_load.modules@[i2] == after_unload.modules@[i2]);
            assert(!(exists|k3: int|
                0 <= k3 < errors_all.len() && (#[trigger] errors_all[k3]).0
                    == after_load.modules@[i2].id)) by {
                if exists|k3: int|
                    0 <= k3 < errors_all.len() && (#[trigger] errors_all[k3]).0
                        == after_load.modules@[i2].id {
                    let k3 = choose|k3: int|
                        0 <= k3 < errors_all.len() && (#[trigger] errors_all[k3]).0
                            == after_load.modules@[i2].id;
                    if k3 < errors_mid.len() {
                        lemma_prefix_element(errors_mid, errors_all, k3);
                        assert(errors_mid[k3].0 == sid);
                    }
                    assert(errors_all[k3].0 == sid);
                }
            }
            assert(cur.modules@[i2] == after_load.modules@[i2]);
            lemma_is_loaded_at(cur, id2, i2);
            lemma_is_loaded_at(at_entry, id2, i2);
            assert(!at_entry.is_loaded(id2));
            let j = choose|j: int|
                #![trigger at_entry.messages@[j]]
                prev.messages@.len() <= j < at_entry.messages@.len() && at_entry.messages@[j].module
                    == id2 && at_entry.messages@[j].kind == MessageType::Error && (exists|
                t: Seq<char>,
            | at_entry.messages@[j].text@ == error_text(true, t));
            lemma_prefix_trans(at_entry.messages@, after_unload.messages@, after_load.messages@);
            lemma_prefix_trans(at_entry.messages@, after_load.messages@, cur.messages@);
            lemma_prefix_element(at_entry.messages@, cur.messages@, j);
        } else {
            // the current entry: real bytecode, yet not loaded afterwards
            let k3: int = if after_load.is_loaded(sid) {
                // the breaker unloaded it during error recording, so some
                // batch entry names it
                assert(cur.modules@[i2].id == id2);
                lemma_is_loaded_at(cur, id2, i2);
                assert(cur.modules@[i2].state is None);
                lemma_is_loaded_at(after_load, id2, i2);
                assert(after_load.modules@[i2].state is Some);
                assert(exists|k3: int|
                    0 <= k3 < errors_all.len() && (#[trigger] errors_all[k3]).0
                        == after_load.modules@[i2].id) by {
                    if !(exists|k3: int|
                        0 <= k3 < errors_all.len() && (#[trigger] errors_all[k3]).0
                            == after_load.modules@[i2].id) {
                        assert(cur.modules@[i2] == after_load.modules@[i2]);
                    }
                }
                choose|k3: int|
                    0 <= k3 < errors_all.len() && (#[trigger] errors_all[k3]).0
                        == after_load.modules@[i2].id
            } else {
                // instantiation or the load event failed: exactly one more
                // error was recorded, tagged with the module
                errors_mid.len() as int
            };
            assert(0 <= k3 < errors_all.len());
            assert(errors_all[k3].0 == sid);
            let j = choose|j: int|
                #![trigger cur.messages@[j]]
                after_load.messages@.len() <= j < cur.messages@.len() && cur.messages@[j].module
                    == errors_all[k3].0 && cur.messages@[j].kind == MessageType::Error
                    && cur.messages@[j].text@ == error_text(true, errors_all[k3].1@);
            assert(prev.messages@.len() <= after_load.messages@.len());
            assert(cur.messages@[j].text@ == error_text(true, errors_all[k3].1@));
        }
    }
}

pub fn reload<S: Sandbox>(w: &mut ScriptWorld<S>, scripts: &Vec<(u64, Option<ScriptModuleBytecode>)>)
    requires
        old(w).wf(),
        forall|k: int| 0 <= k < scripts@.len() ==> old(w).has_module((#[trigger] scripts@[k]).0),
    ensures
        final(w).wf(),
        records_preserved(*old(w), *final(w)),
        effects_extended(*old(w), *final(w)),
        // absent or empty bytecode leaves the module unloaded — judged
        // by the entry that speaks last about its module
        forall|k: int|
            #![trigger scripts@[k]]
            0 <= k < scripts@.len() && no_later_entry(scripts@, k, scripts@.len() as int) && (
            scripts@[k].1 is None || (scripts@[k].1->0).0@.len() == 0) ==> !final(w).is_loaded(
                scripts@[k].0,
            ),
        // only an entry with real bytecode can end loaded
        forall|k: int|
            #![trigger scripts@[k]]
            0 <= k < scripts@.len() && no_later_entry(scripts@, k, scripts@.len() as int)
                && final(w).is_loaded(scripts@[k].0) ==> scripts@[k].1 is Some && (
            scripts@[k].1->0).0@.len() > 0,
        // every module that was loaded is owed the reloading notice
        forall|k: int|
            #![trigger scripts@[k]]
            0 <= k < scripts@.len() && old(w).is_loaded(scripts@[k].0) ==> unload_notice_in(
                old(w).messages@,
                final(w).messages@,
                scripts@[k].0,
                "reloading"@,
            ),
        // an entry with real bytecode whose module did not end loaded
        // left a run-labelled error notice behind
        forall|k: int|
            #![trigger scripts@[k]]
            0 <= k < scripts@.len() && no_later_entry(scripts@, k, scripts@.len() as int)
                && scripts@[k].1 is Some && (scripts@[k].1->0).0@.len() > 0 && !final(w).is_loaded(
                scripts@[k].0,
            ) ==> run_error_notice_in(old(w).messages@, final(w).messages@, scripts@[k].0),
        // a module no entry names is untouched
        forall|x: int|
            0 <= x < old(w).modules@.len() && !names_module(
                scripts@,
                scripts@.len() as int,
                old(w).modules@[x].id,
            ) ==> (#[trigger] final(w).modules@[x]) == old(w).modules@[x],
        // reload errors are run-time errors: no compile-time stream moves
        forall|x: int|
            0 <= x < old(w).modules@.len() ==> (#[trigger] final(w).modules@[x]).errors.compiletime
                == old(w).modules@[x].errors.compiletime,
        // a loaded module not subscribed to the unload event has its
        // whole recorded spawned set standing in the despawn queue
        forall|k: int|
            #![trigger scripts@[k]]
            0 <= k < scripts@.len() && old(w).is_loaded(scripts@[k].0) && !deliverable(
                "core/module_unload"@,
                old(w).module(scripts@[k].0).state->0.shared_state.subscribed_events@,
            ) ==> despawned_in(
                old(w).despawn_queue@,
                final(w).despawn_queue@,
                old(w).module(scripts@[k].0).state->0.shared_state.spawned_entities@,
            ),
{
    let n = scripts.len();
    let mut k: usize = 0;
    while k < n
        invariant
            old(w).wf(),
            w.wf(),
            k <= n,
            n == scripts@.len(),
            records_preserved(*old(w), *w),
            effects_extended(*old(w), *w),
            forall|k2: int|
                0 <= k2 < scripts@.len() ==> old(w).has_module((#[trigger] scripts@[k2]).0),
            forall|k2: int| 0 <= k2 < scripts@.len() ==> w.has_module((#[trigger] scripts@[k2]).0),
            forall|x: int|
                0 <= x < old(w).modules@.len() && !names_module(
                    scripts@,
                    k as int,
                    old(w).modules@[x].id,
                ) ==> (#[trigger] w.modules@[x]) == old(w).modules@[x],
            forall|k2: int|
                #![trigger scripts@[k2]]
                0 <= k2 < k && no_later_entry(scripts@, k2, k as int) && (scripts@[k2].1 is None
                    || (scripts@[k2].1->0).0@.len() == 0) ==> !w.is_loaded(scripts@[k2].0),
            forall|k2: int|
                #![trigger scripts@[k2]]
                0 <= k2 < k && no_later_entry(scripts@, k2, k as int) && w.is_loaded(
                    scripts@[k2].0,
                ) ==> scripts@[k2].1 is Some && (scripts@[k2].1->0).0@.len() > 0,
            forall|k2: int|
                #![trigger scripts@[k2]]
                0 <= k2 < k && old(w).is_loaded(scripts@[k2].0) ==> unload_notice_in(
                    old(w).messages@,
                    w.messages@,
                    scripts@[k2].0,
                    "reloading"@,
                ),
            forall|k2: int|
                #![trigger scripts@[k2]]
                0 <= k2 < k && no_later_entry(scripts@, k2, k as int) && scripts@[k2].1 is Some
                    && (scripts@[k2].1->0).0@.len() > 0 && !w.is_loaded(scripts@[k2].0)
                    ==> run_error_notice_in(old(w).messages@, w.messages@, scripts@[k2].0),
            forall|x: int|
                0 <= x < old(w).modules@.len() ==> (#[trigger] w.modules@[x]).errors.compiletime
                    == old(w).modules@[x].errors.compiletime,
            forall|k2: int|
                #![trigger scripts@[k2]]
                0 <= k2 < k && old(w).is_loaded(scripts@[k2].0) && !deliverable(
                    "core/module_unload"@,
                    old(w).module(scripts@[k2].0).state->0.shared_state.subscribed_events@,
                ) ==> despawned_in(
                    old(w).despawn_queue@,
                    w.despawn_queue@,
                    old(w).module(scripts@[k2].0).state->0.shared_state.spawned_entities@,
                ),
        decreases n - k,
    {
        let sid = scripts[k].0;
        let ghost at_entry = *w;
        let mut errors = unload(w, sid, "reloading");
        let ghost errors_mid = errors@;
        let ghost after_unload = *w;
        match &scripts[k].1 {
            Some(bc) => {
                if bc.0.len() > 0 {
                    proof {
                        lemma_has_module_preserved(at_entry, *w, sid);
                    }
                    load(w, sid, bc.0.as_slice(), &mut errors);
                }
            },
            None => {
            },
        }
        let ghost after_load = *w;
        update_errors(w, &errors, true);
        proof {
            lemma_effects_trans(at_entry, after_unload, after_load);
            lemma_effects_trans(at_entry, after_load, *w);
            lemma_effects_trans(*old(w), at_entry, *w);
            assert forall|x: int|
                0 <= x < old(w).modules@.len() implies (#[trigger] w.modules@[x]).errors.compiletime
                == old(w).modules@[x].errors.compiletime by {
                assert(w.modules@[x].errors.compiletime
                    == after_load.modules@[x].errors.compiletime);
                assert(after_load.modules@[x].errors == after_unload.modules@[x].errors);
                assert(after_unload.modules@[x].errors.compiletime
                    == at_entry.modules@[x].errors.compiletime);
                assert(at_entry.modules@[x].errors.compiletime
                    == old(w).modules@[x].errors.compiletime);
            }
            lemma_effects_trans(after_unload, after_load, *w);
            assert forall|k2: int|
                #![trigger scripts@[k2]]
                0 <= k2 < k + 1 && old(w).is_loaded(scripts@[k2].0) && !deliverable(
                    "core/module_unload"@,
                    old(w).module(scripts@[k2].0).state->0.shared_state.subscribed_events@,
                ) implies despawned_in(
                old(w).despawn_queue@,
                w.despawn_queue@,
                old(w).module(scripts@[k2].0).state->0.shared_state.spawned_entities@,
            ) by {
                let id2 = scripts@[k2].0;
                let spawned = old(w).module(id2).state->0.shared_state.spawned_entities@;
                if k2 < k || names_module(scripts@, k as int, id2) {
                    if k2 == k as int {
                        let k3 = choose|k3: int|
                            0 <= k3 < k && (#[trigger] scripts@[k3]).0 == id2;
                        assert(old(w).is_loaded(scripts@[k3].0));
                    }
                    let off = choose|off: int|
                        #![trigger at_entry.despawn_queue@.subrange(off, off + spawned.len() as int)]
                        old(w).despawn_queue@.len() <= off && off + spawned.len()
                            <= at_entry.despawn_queue@.len()
                            && at_entry.despawn_queue@.subrange(off, off + spawned.len() as int)
                            == spawned;
                    lemma_prefix_subrange(
                        at_entry.despawn_queue@,
                        w.despawn_queue@,
                        off,
                        spawned.len() as int,
                    );
                } else {
                    // first entry to name this module: its unload queued
                    // the set right at the end of the queue of that moment
                    let i2 = choose|i: int|
                        0 <= i < old(w).modules@.len() && #[trigger] old(w).modules@[i].id == id2;
                    assert(at_entry.modules@[i2] == old(w).modules@[i2]);
                    lemma_is_loaded_at(*old(w), id2, i2);
                    lemma_is_loaded_at(at_entry, id2, i2);
                    assert(at_entry.module(id2) == at_entry.modules@[i2]);
                    assert(old(w).module(id2) == old(w).modules@[i2]);
                    assert(at_entry.is_loaded(sid));
                    assert(after_unload.despawn_queue@ == at_entry.despawn_queue@ + spawned);
                    let off = at_entry.despawn_queue@.len() as int;
                    assert(after_unload.despawn_queue@.subrange(off, off + spawned.len() as int)
                        =~= spawned);
                    assert(old(w).despawn_queue@.len() <= off);
                    lemma_prefix_subrange(
                        after_unload.despawn_queue@,
                        w.despawn_queue@,
                        off,
                        spawned.len() as int,
                    );
                }
            }
            lemma_reload_step_modules(
                *old(w),
                at_entry,
                after_unload,
                after_load,
                *w,
                scripts@,
                k as int,
                errors_mid,
                errors@,
            );
            lemma_reload_step_notice(
                *old(w),
                at_entry,
                after_unload,
                after_load,
                *w,
                scripts@,
                k as int,
                errors_mid,
                errors@,
            );
            lemma_reload_step_errors(
                *old(w),
                at_entry,
                after_unload,
                after_load,
                *w,
                scripts@,
                k as int,
                errors_mid,
                errors@,
            );
        }
        k += 1;
    }
}

/// Reloads every module that has bytecode: the enabled ones from their
/// current bytecode, the disabled ones to `Unloaded`. A module with
/// `enabled == false` is never left instantiated, even if bytecode is
/// present; a module without bytecode is not touched at all.
#[verifier::rlimit(100)]
pub fn reload_all<S: Sandbox>(w: &mut ScriptWorld<S>)
    requires
        old(w).wf(),
    ensures
        final(w).wf(),
        records_preserved(*old(w), *final(w)),
        effects_extended(*old(w), *final(w)),
        // every reloaded module that was loaded is owed the notice
        forall|x: int|
            0 <= x < old(w).modules@.len() && (#[trigger] old(w).modules@[x]).bytecode is Some
                && old(w).modules@[x].state is Some ==> unload_notice_in(
                old(w).messages@,
                final(w).messages@,
                old(w).modules@[x].id,
                "reloading"@,
            ),
        // an enabled module with real bytecode ends loaded, or a
        // run-labelled error notice names it
        forall|x: int|
            0 <= x < old(w).modules@.len() && (#[trigger] old(w).modules@[x]).bytecode is Some
                && old(w).modules@[x].enabled && ((old(w).modules@[x]).bytecode->0).0@.len() > 0
                && final(w).modules@[x].state is None ==> run_error_notice_in(
                old(w).messages@,
                final(w).messages@,
                old(w).modules@[x].id,
            ),
        forall|x: int|
            0 <= x < old(w).modules@.len() && (#[trigger] old(w).modules@[x]).bytecode is Some
                && !old(w).modules@[x].enabled ==> final(w).modules@[x].state is None,
        forall|x: int|
            0 <= x < old(w).modules@.len() && (#[trigger] old(w).modules@[x]).bytecode is Some && (
            (old(w).modules@[x]).bytecode->0).0@.len() == 0 ==> final(w).modules@[x].state is None,
        forall|x: int|
            0 <= x < old(w).modules@.len() && (#[trigger] old(w).modules@[x]).bytecode is None
                ==> final(w).modules@[x] == old(w).modules@[x],
        // reload errors are run-time errors: no compile-time stream moves
        forall|x: int|
            0 <= x < old(w).modules@.len() ==> (#[trigger] final(w).modules@[x]).errors.compiletime
                == old(w).modules@[x].errors.compiletime,
{
    let n = w.modules.len();
    let mut i: usize = 0;
    while i < n
        invariant
            old(w).wf(),
            w.wf(),
            i <= n,
            n == old(w).modules@.len(),
            records_preserved(*old(w), *w),
            effects_extended(*old(w), *w),
            forall|x: int|
                i <= x < old(w).modules@.len() ==> #[trigger] w.modules@[x] == old(w).modules@[x],
            forall|x: int|
                0 <= x < i && (#[trigger] old(w).modules@[x]).bytecode is Some && old(
                    w,
                ).modules@[x].state is Some ==> unload_notice_in(
                    old(w).messages@,
                    w.messages@,
                    old(w).modules@[x].id,
                    "reloading"@,
                ),
            forall|x: int|
                0 <= x < i && (#[trigger] old(w).modules@[x]).bytecode is Some && old(
                    w,
                ).modules@[x].enabled && ((old(w).modules@[x]).bytecode->0).0@.len() > 0
                    && w.modules@[x].state is None ==> run_error_notice_in(
                    old(w).messages@,
                    w.messages@,
                    old(w).modules@[x].id,
                ),
            forall|x: int|
                0 <= x < i && (#[trigger] old(w).modules@[x]).bytecode is Some && !old(w).modules@[x].enabled ==> w.modules@[x].state is None,
            forall|x: int|
                0 <= x < i && (#[trigger] old(w).modules@[x]).bytecode is Some && ((old(w).modules@[x]).bytecode->0).0@.len() == 0 ==> w.modules@[x].state is None,
            forall|x: int|
                0 <= x < i && (#[trigger] old(w).modules@[x]).bytecode is None ==> w.modules@[x]
                    == old(w).modules@[x],
            forall|x: int|
                0 <= x < old(w).modules@.len() ==> (#[trigger] w.modules@[x]).errors.compiletime
                    == old(w).modules@[x].errors.compiletime,
        decreases n - i,
    {
        let ghost at_entry = *w;
        let has_bytecode = w.modules[i].bytecode.is_some();
        if has_bytecode {
            let id = w.modules[i].id;
            let enabled = w.modules[i].enabled;
            let bytes_opt: Option<Vec<u8>> = if enabled {
                match &w.modules[i].bytecode {
                    Some(bc) => Some(bc.0.clone()),
                    None => None,
                }
            } else {
                None
            };
            let mut errors = unload(w, id, "reloading");
            let ghost errors_mid = errors@;
            let ghost after_unload = *w;
            proof {
                assert(after_unload.modules@[i as int].same_record(at_entry.modules@[i as int]));
                lemma_is_loaded_at(after_unload, id, i as int);
            }
            match &bytes_opt {
                Some(bytes) => {
                    if bytes.len() > 0 {
                        proof {
                            lemma_is_loaded_at(*w, id, i as int);
                        }
                        load(w, id, bytes.as_slice(), &mut errors);
                    }
                },
                None => {
                },
            }
            let ghost after_load = *w;
            update_errors(w, &errors, true);
            proof {
                assert forall|x: int|
                    0 <= x < old(w).modules@.len() && x != i as int implies #[trigger] w.modules@[x]
                    == at_entry.modules@[x] by {
                    assert(at_entry.modules@[x].same_record(old(w).modules@[x]));
                    assert(at_entry.modules@[x].id != id);
                    assert(after_unload.modules@[x] == at_entry.modules@[x]);
                    assert(after_load.modules@[x] == after_unload.modules@[x]);
                    assert(!(exists|k: int|
                        0 <= k < errors@.len() && (#[trigger] errors@[k]).0
                            == after_load.modules@[x].id)) by {
                        if exists|k: int|
                            0 <= k < errors@.len() && (#[trigger] errors@[k]).0
                                == after_load.modules@[x].id {
                            let k = choose|k: int|
                                0 <= k < errors@.len() && (#[trigger] errors@[k]).0
                                    == after_load.modules@[x].id;
                            if k < errors_mid.len() {
                                lemma_prefix_element(errors_mid, errors@, k);
                                assert(errors_mid[k].0 == id);
                            }
                            assert(errors@[k].0 == id);
                        }
                    }
                    assert(w.modules@[x] == after_load.modules@[x]);
                }
                assert forall|x: int|
                    0 <= x < old(w).modules@.len() implies #[trigger] w.modules@[x].same_record(
                    old(w).modules@[x],
                ) by {
                    if x == i as int {
                        assert(w.modules@[x].same_record(after_load.modules@[x]));
                        assert(after_load.modules@[x].same_record(after_unload.modules@[x]));
                        assert(after_unload.modules@[x].same_record(at_entry.modules@[x]));
                        assert(at_entry.modules@[x].same_record(old(w).modules@[x]));
                    } else {
                        assert(w.modules@[x] == at_entry.modules@[x]);
                        assert(at_entry.modules@[x].same_record(old(w).modules@[x]));
                    }
                }
                if old(w).modules@[i as int].bytecode is Some && (!old(w).modules@[i as int].enabled || ((old(w).modules@[i as int]).bytecode->0).0@.len() == 0) {
                    assert(after_load.modules@[i as int] == after_unload.modules@[i as int]);
                    assert(after_load.modules@[i as int].state is None);
                    assert(w.modules@[i as int].state is Some ==> (
                    after_load.modules@[i as int].state is Some));
                    assert(w.modules@[i as int].state is None);
                }
                lemma_effects_trans(at_entry, after_unload, after_load);
                lemma_effects_trans(at_entry, after_load, *w);
                lemma_effects_trans(*old(w), at_entry, *w);
                assert forall|x: int|
                    0 <= x < old(w).modules@.len() implies (
                #[trigger] w.modules@[x]).errors.compiletime == old(
                    w,
                ).modules@[x].errors.compiletime by {
                    assert(w.modules@[x].errors.compiletime
                        == after_load.modules@[x].errors.compiletime);
                    assert(after_load.modules@[x].errors == after_unload.modules@[x].errors);
                    assert(after_unload.modules@[x].errors.compiletime
                        == at_entry.modules@[x].errors.compiletime);
                    assert(at_entry.modules@[x].errors.compiletime
                        == old(w).modules@[x].errors.compiletime);
                }
                assert forall|x: int|
                    0 <= x < i + 1 && (#[trigger] old(w).modules@[x]).bytecode is Some && old(
                    w,
                ).modules@[x].state is Some implies unload_notice_in(
                    old(w).messages@,
                    w.messages@,
                    old(w).modules@[x].id,
                    "reloading"@,
                ) by {
                    let xid = old(w).modules@[x].id;
                    if x == i as int {
                        assert(at_entry.modules@[x] == old(w).modules@[x]);
                        lemma_is_loaded_at(at_entry, id, i as int);
                        assert(at_entry.is_loaded(id));
                        let j = after_unload.messages@.len() - 1;
                        assert(after_unload.messages@.len() > at_entry.messages@.len());
                        assert(after_unload.messages@[j].module == id);
                        assert(after_unload.messages@[j].kind == MessageType::Info);
                        assert(after_unload.messages@[j].text@ == unload_text("reloading"@));
                        lemma_prefix_trans(
                            after_unload.messages@,
                            after_load.messages@,
                            w.messages@,
                        );
                        lemma_prefix_element(after_unload.messages@, w.messages@, j);
                    } else {
                        let j = choose|j: int|
                            #![trigger at_entry.messages@[j]]
                            old(w).messages@.len() <= j < at_entry.messages@.len()
                                && at_entry.messages@[j].module == xid
                                && at_entry.messages@[j].kind == MessageType::Info
                                && at_entry.messages@[j].text@ == unload_text("reloading"@);
                        lemma_prefix_trans(
                            at_entry.messages@,
                            after_unload.messages@,
                            after_load.messages@,
                        );
                        lemma_prefix_trans(at_entry.messages@, after_load.messages@, w.messages@);
                        lemma_prefix_element(at_entry.messages@, w.messages@, j);
                    }
                }
                assert forall|x: int|
                    0 <= x < i + 1 && (#[trigger] old(w).modules@[x]).bytecode is Some && old(
                    w,
                ).modules@[x].enabled && ((old(w).modules@[x]).bytecode->0).0@.len() > 0
                    && w.modules@[x].state is None implies run_error_notice_in(
                    old(w).messages@,
                    w.messages@,
                    old(w).modules@[x].id,
                ) by {
                    let xid = old(w).modules@[x].id;
                    if x == i as int {
                        assert(at_entry.modules@[x] == old(w).modules@[x]);
                        let k3: int = if after_load.modules@[x].state is Some {
                            assert(exists|k: int|
                                0 <= k < errors@.len() && (#[trigger] errors@[k]).0
                                    == after_load.modules@[x].id) by {
                                if !(exists|k: int|
                                    0 <= k < errors@.len() && (#[trigger] errors@[k]).0
                                        == after_load.modules@[x].id) {
                                    assert(w.modules@[x] == after_load.modules@[x]);
                                }
                            }
                            choose|k: int|
                                0 <= k < errors@.len() && (#[trigger] errors@[k]).0
                                    == after_load.modules@[x].id
                        } else {
                            lemma_is_loaded_at(after_load, id, i as int);
                            assert(errors@.len() == errors_mid.len() + 1);
                            errors_mid.len() as int
                        };
                        assert(0 <= k3 < errors@.len());
                        assert(errors@[k3].0 == id);
                        let j = choose|j: int|
                            #![trigger w.messages@[j]]
                            after_load.messages@.len() <= j < w.messages@.len()
                                && w.messages@[j].module == errors@[k3].0 && w.messages@[j].kind
                                == MessageType::Error && w.messages@[j].text@ == error_text(
                                true,
                                errors@[k3].1@,
                            );
                        assert(old(w).messages@.len() <= after_load.messages@.len());
                        assert(w.messages@[j].text@ == error_text(true, errors@[k3].1@));
                    } else {
                        let j = choose|j: int|
                            #![trigger at_entry.messages@[j]]
                            old(w).messages@.len() <= j < at_entry.messages@.len()
                                && at_entry.messages@[j].module == xid
                                && at_entry.messages@[j].kind == MessageType::Error && (exists|
                            t: Seq<char>,
                        | at_entry.messages@[j].text@ == error_text(true, t));
                        lemma_prefix_trans(
                            at_entry.messages@,
                            after_unload.messages@,
                            after_load.messages@,
                        );
                        lemma_prefix_trans(at_entry.messages@, after_load.messages@, w.messages@);
                        lemma_prefix_element(at_entry.messages@, w.messages@, j);
                    }
                }
            }
        }
        i += 1;
    }
}

/// Drains the queue of module-emitted events: pops events in order and
/// delivers each to all loaded modules with [`run_all`], until the queue
/// is empty or `budget` events have been dispatched. The per-tick budget
/// keeps module-to-module signalling from starving the tick. Forced
/// unloads that one pass triggers take effect before the next queued
/// event is popped: a module past its failure budget receives nothing
/// further.
pub fn dispatch_pending<S: Sandbox>(w: &mut ScriptWorld<S>, budget: usize) -> (processed: usize)
    requires
        old(w).wf(),
    ensures
        final(w).wf(),
        records_preserved(*old(w), *final(w)),
        old(w).messages@.is_prefix_of(final(w).messages@),
        old(w).despawn_queue@.is_prefix_of(final(w).despawn_queue@),
        processed <= budget,
        processed < budget ==> final(w).pending_events@.len() == 0,
        // one queued event is dispatched per unit of budget spent
        processed + final(w).pending_events@.len() >= old(w).pending_events@.len(),
        processed >= budget || processed >= old(w).pending_events@.len(),
        // the queue after the call is the queue before it, extended by
        // whatever the dispatched events made modules emit, less the
        // `processed` events taken off its front
        exists|emitted: Seq<Event>|
            final(w).pending_events@ == (#[trigger] (old(w).pending_events@ + emitted)).skip(
                processed as int,
            ),
{
    let mut processed: usize = 0;
    let ghost mut emitted: Seq<Event> = Seq::empty();
    proof {
        assert((old(w).pending_events@ + emitted).skip(0) =~= old(w).pending_events@);
    }
    while processed < budget && w.pending_events.len() > 0
        invariant
            old(w).wf(),
            w.wf(),
            processed <= budget,
            records_preserved(*old(w), *w),
            old(w).messages@.is_prefix_of(w.messages@),
            old(w).despawn_queue@.is_prefix_of(w.despawn_queue@),
            processed + w.pending_events@.len() >= old(w).pending_events@.len(),
            processed <= old(w).pending_events@.len() + emitted.len(),
            w.pending_events@ == (old(w).pending_events@ + emitted).skip(processed as int),
        decreases budget - processed,
    {
        let ghost at_entry = *w;
        let ghost q_entry = w.pending_events@;
        let ev = w.pending_events.remove(0);
        let ghost q_popped = w.pending_events@;
        let ctx = ScriptContext::new(ev.name.as_str(), ev.data, w.time, w.frametime);
        run_all(w, &ctx);
        proof {
            assert forall|x: int|
                0 <= x < old(w).modules@.len() implies #[trigger] w.modules@[x].same_record(
                old(w).modules@[x],
            ) by {
                assert(w.modules@[x].same_record(at_entry.modules@[x]));
                assert(at_entry.modules@[x].same_record(old(w).modules@[x]));
            }
            lemma_prefix_trans(old(w).messages@, at_entry.messages@, w.messages@);
            lemma_prefix_trans(old(w).despawn_queue@, at_entry.despawn_queue@, w.despawn_queue@);
            // account for the popped event and the new emissions
            let whole = old(w).pending_events@ + emitted;
            let delta = w.pending_events@.skip(q_popped.len() as int);
            assert(q_popped =~= whole.skip(processed as int + 1));
            assert(q_popped.is_prefix_of(w.pending_events@));
            assert forall|i: int|
                0 <= i < q_popped.len() implies w.pending_events@[i] == q_popped[i] by {
                lemma_prefix_element(q_popped, w.pending_events@, i);
            }
            assert(w.pending_events@ =~= q_popped + delta);
            assert(old(w).pending_events@ + (emitted + delta) =~= whole + delta);
            assert((whole + delta).skip(processed as int + 1) =~= whole.skip(processed as int + 1)
                + delta);
            assert((old(w).pending_events@ + (emitted + delta)).skip(processed as int + 1)
                =~= w.pending_events@);
            emitted = emitted + delta;
        }
        processed += 1;
    }
    proof {
        assert(w.pending_events@ == (old(w).pending_events@ + emitted).skip(processed as int));
    }
    processed
}

/// A rooted staging path, as this host stages toolchains and
/// interface files.
pub open spec fn absolute_root(path: Seq<char>) -> bool {
    path.len() > 0 && path[0] == '/'
}

/// The text of the rejection when a module name is already taken.
pub open spec fn duplicate_name_text(name: Seq<char>) -> Seq<char> {
    "a script module by the name "@ + name + " already exists"@
}

/// Registers a new script module record: disabled unless asked for,
/// no bytecode yet, empty error streams, not loaded. Rejected — with
/// nothing mutated — when a module of the same name is already
/// registered, enabled or not.
pub fn spawn_script<S>(
    w: &mut ScriptWorld<S>,
    name: &String,
    description: String,
    enabled: bool,
    script_path: String,
    files: Option<Vec<(String, String)>>,
) -> (r: Result<u64, String>)
    requires
        old(w).wf(),
        old(w).next_id < u64::MAX,
    ensures
        final(w).wf(),
        r is Err <==> old(w).has_module_named(name@),
        r is Err ==> *final(w) == *old(w) && r->Err_0@ == duplicate_name_text(name@),
        r is Ok ==> {
            &&& r->Ok_0 == old(w).next_id
            &&& final(w).next_id == old(w).next_id + 1
            &&& final(w).modules@.len() == old(w).modules@.len() + 1
            &&& final(w).modules@.last().id == old(w).next_id
            &&& final(w).modules@.last().name == *name
            &&& final(w).modules@.last().description == description
            &&& final(w).modules@.last().enabled == enabled
            &&& final(w).modules@.last().path == script_path
            &&& final(w).modules@.last().owned_files == files
            &&& final(w).modules@.last().bytecode is None
            &&& final(w).modules@.last().errors.compiletime@ =~= Seq::<String>::empty()
            &&& final(w).modules@.last().errors.runtime@ =~= Seq::<String>::empty()
            &&& final(w).modules@.last().state is None
            &&& final(w).has_module(old(w).next_id)
            &&& !final(w).is_loaded(old(w).next_id)
        },
        forall|i: int|
            0 <= i < old(w).modules@.len() ==> #[trigger] final(w).modules@[i] == old(w).modules@[i],
        final(w).messages == old(w).messages,
        final(w).despawn_queue == old(w).despawn_queue,
        final(w).pending_events == old(w).pending_events,
        final(w).config == old(w).config,
        final(w).time == old(w).time,
        final(w).frametime == old(w).frametime,
{
    let n = w.modules.len();
    let mut i: usize = 0;
    while i < n
        invariant
            *w == *old(w),
            old(w).wf(),
            n == w.modules@.len(),
            i <= n,
            forall|j: int| 0 <= j < i ==> #[trigger] w.modules@[j].name@ != name@,
        decreases n - i,
    {
        if w.modules[i].name == *name {
            let text = String::from_str("a script module by the name ").concat(
                name.as_str(),
            ).concat(" already exists");
            return Err(text);
        }
        i += 1;
    }
    let id = w.next_id;
    let record = ModuleRecord {
        id,
        name: name.clone(),
        description,
        enabled,
        path: script_path,
        owned_files: files,
        bytecode: None,
        errors: ScriptModuleErrors::new(),
        state: None,
    };
    w.modules.push(record);
    w.next_id = id + 1;
    proof {
        w.lemma_index_of(id, w.modules@.len() - 1);
    }
    Ok(id)
}

/// One-time process-wide setup: publishes the interface catalog, the
/// chosen default interface and the toolchain paths, for the lifecycle
/// manager to read. The caller owes the checks the preconditions name:
/// the default interface is among those offered, and both root paths
/// are absolute. Provisioning the toolchain itself and writing the
/// interface files to disk belong to the embedding host.
pub fn initialize<S>(
    w: &mut ScriptWorld<S>,
    scripting_interfaces: Vec<(String, Vec<(String, String)>)>,
    primary_scripting_interface_name: String,
    rust_path: String,
    scripting_interface_root_path: String,
)
    requires
        exists|i: int|
            0 <= i < scripting_interfaces@.len() && (#[trigger] scripting_interfaces@[i]).0@
                == primary_scripting_interface_name@,
        absolute_root(rust_path@),
        absolute_root(scripting_interface_root_path@),
    ensures
        final(w).config is Some,
        final(w).config->0.scripting_interfaces == scripting_interfaces,
        final(w).config->0.scripting_interface_name == primary_scripting_interface_name,
        final(w).config->0.rust_path == rust_path,
        final(w).config->0.install_dirs.rustup_path@ == rust_path@ + "/rustup"@,
        final(w).config->0.install_dirs.cargo_path@ == rust_path@ + "/cargo"@,
        final(w).config->0.scripting_interface_root_path == scripting_interface_root_path,
        final(w).modules == old(w).modules,
        final(w).next_id == old(w).next_id,
        final(w).time == old(w).time,
        final(w).frametime == old(w).frametime,
        final(w).messages == old(w).messages,
        final(w).despawn_queue == old(w).despawn_queue,
        final(w).pending_events == old(w).pending_events,
{
    let rustup_path = rust_path.clone().concat("/rustup");
    let cargo_path = rust_path.clone().concat("/cargo");
    w.config = Some(
        HostConfig {
            scripting_interfaces,
            scripting_interface_name: primary_scripting_interface_name,
            rust_path,
            install_dirs: InstallDirs { rustup_path, cargo_path },
            scripting_interface_root_path,
        },
    );
}

} // verus!
