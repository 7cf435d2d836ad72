//! Plain data carried between the host and the lifecycle manager.

use vstd::prelude::*;

verus! {

/// Seconds to wait after a parameter change before recompiling.
pub const PARAMETER_CHANGE_DEBOUNCE_SECONDS: u64 = 2;

/// Errors allowed in one stream; one more forces an unload.
pub const MAXIMUM_ERROR_COUNT: usize = 10;

/// The oldest toolchain the host will build modules with.
pub const MINIMUM_RUST_VERSION_MAJOR: u32 = 1;

pub const MINIMUM_RUST_VERSION_MINOR: u32 = 65;

pub const MINIMUM_RUST_VERSION_PATCH: u32 = 0;

/// Version of the capability interface a sandbox is built against;
/// instantiation fails on a mismatch.
pub const INTERFACE_VERSION: u32 = 1;

/// The toolchain-update rule: an installed version below the oldest
/// supported one, compared lexicographically by major, minor, patch.
pub open spec fn spec_below_minimum_rust(major: u32, minor: u32, patch: u32) -> bool {
    ||| major < MINIMUM_RUST_VERSION_MAJOR
    ||| (major == MINIMUM_RUST_VERSION_MAJOR && minor < MINIMUM_RUST_VERSION_MINOR)
    ||| (major == MINIMUM_RUST_VERSION_MAJOR && minor == MINIMUM_RUST_VERSION_MINOR && patch
        < MINIMUM_RUST_VERSION_PATCH)
}

/// Decides whether an installed toolchain must be updated before it
/// may build modules.
pub fn rust_version_below_minimum(major: u32, minor: u32, patch: u32) -> (b: bool)
    ensures
        b == spec_below_minimum_rust(major, minor, patch),
{
    if major != MINIMUM_RUST_VERSION_MAJOR {
        major < MINIMUM_RUST_VERSION_MAJOR
    } else if minor != MINIMUM_RUST_VERSION_MINOR {
        minor < MINIMUM_RUST_VERSION_MINOR
    } else {
        patch < MINIMUM_RUST_VERSION_PATCH
    }
}

/// Category of a message forwarded to the host's messenger.
#[derive(Clone, Copy, Debug, PartialEq, Eq, PartialOrd, Ord, Structural)]
pub enum MessageType {
    Info,
    Error,
    Stdout,
    Stderr,
}

/// One typed value of an event payload.
#[derive(Clone, Debug)]
pub enum Value {
    Bool(bool),
    Signed(i64),
    Unsigned(u64),
    Text(String),
    Entity(u64),
}

/// An event payload: a set of named typed values.
#[derive(Clone, Debug)]
pub struct EventData {
    pub entries: Vec<(String, Value)>,
}

impl EventData {
    /// An empty payload.
    pub fn new() -> (r: EventData)
        ensures
            r.entries@ =~= Seq::<(String, Value)>::empty(),
    {
        EventData { entries: Vec::new() }
    }
}

/// A named event together with its payload, as queued for dispatch.
#[derive(Clone, Debug)]
pub struct Event {
    pub name: String,
    pub data: EventData,
}

/// The snapshot a module sees during one dispatch.
#[derive(Clone, Debug)]
pub struct ScriptContext {
    pub event_name: String,
    pub event_data: EventData,
    /// Microseconds since the simulation started.
    pub time: u64,
    /// Microseconds since the previous tick.
    pub frametime: u64,
}

impl ScriptContext {
    pub fn new(event_name: &str, event_data: EventData, time: u64, frametime: u64) -> (r:
        ScriptContext)
        ensures
            r.event_name@ == event_name@,
            r.event_data == event_data,
            r.time == time,
            r.frametime == frametime,
    {
        ScriptContext { event_name: event_name.to_owned(), event_data, time, frametime }
    }
}

/// A message owed to the host's messenger, tagged with the module it
/// originated from.
#[derive(Clone, Debug)]
pub struct Message {
    pub module: u64,
    pub kind: MessageType,
    pub text: String,
}

/// Compiled bytecode of a module.
#[derive(Clone, Debug)]
pub struct ScriptModuleBytecode(pub Vec<u8>);

/// The two independent error streams of a module.
#[derive(Clone, Debug)]
pub struct ScriptModuleErrors {
    pub compiletime: Vec<String>,
    pub runtime: Vec<String>,
}

impl ScriptModuleErrors {
    pub fn new() -> (r: ScriptModuleErrors)
        ensures
            r.compiletime@ =~= Seq::<String>::empty(),
            r.runtime@ =~= Seq::<String>::empty(),
    {
        ScriptModuleErrors { compiletime: Vec::new(), runtime: Vec::new() }
    }
}

/// The state shared between the host-call surface and the sandbox during
/// one call: the event outbox, the set of entities the module spawned
/// (recorded for cleanup by their stable unique identifiers), the event
/// names the module subscribed to, and the output the module produced.
#[derive(Clone, Debug)]
pub struct HostGuestState {
    pub spawned_entities: Vec<u64>,
    pub subscribed_events: Vec<String>,
    pub events: Vec<Event>,
    pub stdout: Vec<String>,
    pub stderr: Vec<String>,
}

impl HostGuestState {
    pub open spec fn is_fresh(self) -> bool {
        &&& self.spawned_entities@ =~= Seq::<u64>::empty()
        &&& self.subscribed_events@ =~= Seq::<String>::empty()
        &&& self.events@ =~= Seq::<Event>::empty()
        &&& self.stdout@ =~= Seq::<String>::empty()
        &&& self.stderr@ =~= Seq::<String>::empty()
    }

    pub fn new() -> (r: HostGuestState)
        ensures
            r.is_fresh(),
    {
        HostGuestState {
            spawned_entities: Vec::new(),
            subscribed_events: Vec::new(),
            events: Vec::new(),
            stdout: Vec::new(),
            stderr: Vec::new(),
        }
    }
}

/// An isolated execution context holding one instantiated module.
///
/// The host is generic over the sandbox implementation, exactly as it is
/// generic over the capability set wired into a fresh instance: the
/// implementor installs its capabilities at instantiation time and routes
/// every guest call-in through the shared [`HostGuestState`] it is handed.
/// Nothing is assumed of a call's outcome: the lifecycle manager is
/// verified against every behaviour, including a fault on every call.
/// Implementations must catch any guest-side fatal fault and return it as
/// the `Err` string rather than letting it unwind into the host.
pub trait Sandbox: Sized {
    /// Instantiates a sandbox from bytecode, or reports an
    /// instantiation error (malformed bytecode, interface-version
    /// mismatch, a capability that failed to link).
    fn instantiate(bytecode: &[u8], interface_version: u32) -> Result<Self, String>;

    /// Runs the module's entry point for one event. Reads and writes the
    /// shared state through the capabilities installed at instantiation.
    fn call(&mut self, shared: &mut HostGuestState, ctx: &ScriptContext) -> Result<(), String>;
}

/// The live state of one loaded module: its sandbox plus the state block
/// shared between the host-call surface and the sandbox.
#[derive(Clone, Debug)]
pub struct ScriptModuleState<S> {
    pub sandbox: S,
    pub shared_state: HostGuestState,
}

impl<S: Sandbox> ScriptModuleState<S> {
    /// Builds the live state for one module: instantiates the sandbox
    /// from the bytecode and pairs it with a fresh shared state block.
    pub fn new(bytecode: &[u8], interface_version: u32) -> (r: Result<
        ScriptModuleState<S>,
        String,
    >)
        ensures
            r is Ok ==> r->Ok_0.shared_state.is_fresh(),
    {
        match S::instantiate(bytecode, interface_version) {
            Ok(sandbox) => Ok(ScriptModuleState { sandbox, shared_state: HostGuestState::new() }),
            Err(e) => Err(e),
        }
    }

    /// One call into the sandbox. The guest may mutate the shared state
    /// arbitrarily; the result reports a guest fault as a string.
    pub fn dispatch(&mut self, ctx: &ScriptContext) -> Result<(), String> {
        self.sandbox.call(&mut self.shared_state, ctx)
    }
}

} // verus!
