//! Host-side lifecycle manager for sandboxed script modules.
//!
//! Script modules are units of guest code attached to entities of a live
//! simulation. The library owns the bookkeeping around them: registering
//! records, instantiating sandboxes from bytecode, dispatching events
//! through a subscription filter, collecting errors against a failure
//! budget, and tearing a module's resources down on unload.

pub mod lifecycle;
pub mod types;
pub mod ui;
pub mod world;

pub use types::MessageType;
