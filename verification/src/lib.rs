//! Verified core of a desktop supervisor for ActivityWatch modules.
//!
//! The library holds the logic of the supervisor: lifecycle state and the
//! crash-restart policy, the projection of that state into a tray menu,
//! the line-framed notification protocol of the `aw-notify` module, module
//! discovery over a filesystem model, the configuration format with its
//! parser and printer, directory resolution, and log-rotation decisions.
//! Process spawning, signals, the GUI and all other I/O live outside, in a
//! thin shell that feeds plain values in and carries the decided actions out.

pub mod config;
pub mod dirs;
pub mod logging;
pub mod discovery;
pub mod manager;
pub mod menu;
pub mod notify;
pub mod parse;
pub mod roundtrip;
pub mod setup;
pub mod text;

use vstd::prelude::*;

verus! {

/// The default TCP port of the embedded server; modules assume it themselves,
/// so no `--port` argument is passed when the configured port equals it.
pub const DEFAULT_PORT: u16 = 5600;

} // verus!
