//! The slice of the simulation the lifecycle manager reads and writes:
//! the registered module records, and the effects the host still owes the
//! rest of the system (messenger calls, despawns, queued events).

use vstd::prelude::*;
use crate::types::{Event, Message, ScriptModuleBytecode, ScriptModuleErrors, ScriptModuleState};

verus! {

/// Where the toolchain's own programs are installed.
#[derive(Clone, Debug)]
pub struct InstallDirs {
    pub rustup_path: String,
    pub cargo_path: String,
}

/// Process-wide configuration published by [`initialize`](crate::lifecycle).
#[derive(Clone, Debug)]
pub struct HostConfig {
    /// All available capability interfaces: name, then the interface's
    /// files as (relative path, contents).
    pub scripting_interfaces: Vec<(String, Vec<(String, String)>)>,
    /// The interface new modules are scaffolded against.
    pub scripting_interface_name: String,
    /// Where the toolchain should be installed.
    pub rust_path: String,
    pub install_dirs: InstallDirs,
    /// Root under which the interface files are staged for toolchains.
    pub scripting_interface_root_path: String,
}

/// One registered script module: its record fields, persisted by the
/// entity store, plus the live state while it is loaded.
///
/// A module is `Loaded` exactly while `state` is `Some`.
#[derive(Clone, Debug)]
pub struct ModuleRecord<S> {
    /// Identity of the owning entity.
    pub id: u64,
    pub name: String,
    pub description: String,
    pub enabled: bool,
    /// On-disk staging path of the module's project.
    pub path: String,
    /// Source files as (relative path, contents); absent for binary-only
    /// modules.
    pub owned_files: Option<Vec<(String, String)>>,
    /// Produced asynchronously by the build trigger.
    pub bytecode: Option<ScriptModuleBytecode>,
    pub errors: ScriptModuleErrors,
    pub state: Option<ScriptModuleState<S>>,
}

impl<S> ModuleRecord<S> {
    /// The persisted fields of `self` and `other` agree; only the live
    /// state and the error streams may differ.
    pub open spec fn same_record(self, other: ModuleRecord<S>) -> bool {
        &&& self.id == other.id
        &&& self.name == other.name
        &&& self.description == other.description
        &&& self.enabled == other.enabled
        &&& self.path == other.path
        &&& self.owned_files == other.owned_files
        &&& self.bytecode == other.bytecode
    }
}

/// The world as the lifecycle manager sees it: module records, the clock
/// resources every dispatch of one pass observes, the published
/// configuration, and the effect queues the embedding host drains.
pub struct ScriptWorld<S> {
    pub modules: Vec<ModuleRecord<S>>,
    /// Identity the next registered module receives.
    pub next_id: u64,
    /// Microseconds since the simulation started; set by the tick driver.
    pub time: u64,
    /// Microseconds since the previous tick; set by the tick driver.
    pub frametime: u64,
    pub config: Option<HostConfig>,
    /// Messages owed to the host's messenger, oldest first.
    pub messages: Vec<Message>,
    /// Stable identifiers of entities the host must despawn, oldest
    /// first.
    pub despawn_queue: Vec<u64>,
    /// Events emitted by modules, awaiting dispatch to all loaded
    /// modules after the current pass.
    pub pending_events: Vec<Event>,
}

impl<S> ScriptWorld<S> {
    /// Module identities are unique and below the allocation cursor.
    pub open spec fn wf(self) -> bool {
        &&& forall|i: int, j: int|
            0 <= i < j < self.modules@.len() ==> self.modules@[i].id != self.modules@[j].id
        &&& forall|i: int| 0 <= i < self.modules@.len() ==> #[trigger] self.modules@[i].id
            < self.next_id
    }

    pub open spec fn has_module(self, id: u64) -> bool {
        exists|i: int| 0 <= i < self.modules@.len() && #[trigger] self.modules@[i].id == id
    }

    pub open spec fn index_of(self, id: u64) -> int {
        choose|i: int| 0 <= i < self.modules@.len() && #[trigger] self.modules@[i].id == id
    }

    /// The record of module `id`; meaningful only when `has_module(id)`.
    pub open spec fn module(self, id: u64) -> ModuleRecord<S> {
        self.modules@[self.index_of(id)]
    }

    /// A module is loaded exactly while its live state is attached.
    pub open spec fn is_loaded(self, id: u64) -> bool {
        self.has_module(id) && self.module(id).state is Some
    }

    pub open spec fn has_module_named(self, name: Seq<char>) -> bool {
        exists|i: int| 0 <= i < self.modules@.len() && #[trigger] self.modules@[i].name@ == name
    }

    /// An empty world with nothing registered and nothing owed.
    pub fn new() -> (r: ScriptWorld<S>)
        ensures
            r.modules@ =~= Seq::<ModuleRecord<S>>::empty(),
            r.next_id == 1,
            r.time == 0,
            r.frametime == 0,
            r.config is None,
            r.messages@ =~= Seq::<Message>::empty(),
            r.despawn_queue@ =~= Seq::<u64>::empty(),
            r.pending_events@ =~= Seq::<Event>::empty(),
            r.wf(),
    {
        ScriptWorld {
            modules: Vec::new(),
            next_id: 1,
            time: 0,
            frametime: 0,
            config: None,
            messages: Vec::new(),
            despawn_queue: Vec::new(),
            pending_events: Vec::new(),
        }
    }

    /// With unique identities, `index_of` agrees with any witness index.
    pub proof fn lemma_index_of(self, id: u64, i: int)
        requires
            self.wf(),
            0 <= i < self.modules@.len(),
            self.modules@[i].id == id,
        ensures
            self.has_module(id),
            self.index_of(id) == i,
    {
        assert(self.has_module(id));
        let j = self.index_of(id);
        if j < i {
            assert(self.modules@[j].id != self.modules@[i].id);
        } else if i < j {
            assert(self.modules@[i].id != self.modules@[j].id);
        }
    }

    /// Position of module `id` in the store, if it is registered.
    pub fn find_module(&self, id: u64) -> (r: Option<usize>)
        requires
            self.wf(),
        ensures
            match r {
                Some(i) => i < self.modules@.len() && self.modules@[i as int].id == id
                    && self.has_module(id) && self.index_of(id) == i,
                None => !self.has_module(id),
            },
    {
        let n = self.modules.len();
        let mut i: usize = 0;
        while i < n
            invariant
                n == self.modules@.len(),
                i <= n,
                self.wf(),
                forall|j: int| 0 <= j < i ==> #[trigger] self.modules@[j].id != id,
            decreases n - i,
        {
            if self.modules[i].id == id {
                proof {
                    assert forall|k: int|
                        0 <= k < self.modules@.len() && #[trigger] self.modules@[k].id
                            == id implies k == i by {
                        if k != i {
                            assert(self.modules@[k].id != self.modules@[i as int].id);
                        }
                    }
                }
                return Some(i);
            }
            i += 1;
        }
        None
    }
}

} // verus!
