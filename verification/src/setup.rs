//! Startup and steady-state decisions around the GUI shell: the port
//! check, the autostart registration intent, whether the main window shows,
//! the first-run notification, and the single-instance sentinel.

use vstd::prelude::*;
use vstd::string::StrSliceExecFns;
use vstd::string::StringExecFns;
use crate::notify::Notification;
use crate::text::concat2;
use crate::text::dec_str;
use crate::text::str_eq;
use crate::text::u16_to_string;

verus! {

/// Decides the port check: when the port is taken, the startup aborts with
/// exactly this dialog text.
pub fn check_port(port: u16, available: bool) -> (r: Result<(), String>)
    ensures
        (r is Ok) == available,
        r matches Err(msg) ==> msg@ == "Port "@ + dec_str(port as nat) + " is already in use"@,
{
    if available {
        Ok(())
    } else {
        let head = concat2("Port ", u16_to_string(port).as_str());
        let msg = concat2(head.as_str(), " is already in use");
        proof {
            assert(msg@ =~= "Port "@ + dec_str(port as nat) + " is already in use"@);
        }
        Err(msg)
    }
}

/// What the host's autostart registration is asked to do.
#[derive(Clone, Copy, PartialEq, Eq, Structural, Debug)]
pub enum AutostartAction {
    /// Register: the configuration wants autostart and it is off.
    Enable,
    /// Unregister: the configuration does not want autostart.
    Disable,
    /// Leave it: it is already registered.
    Nothing,
}

/// Decides the autostart registration from the configured intent and the
/// currently registered state.
pub fn autostart_action(enabled: bool, currently_enabled: bool) -> (r: AutostartAction)
    ensures
        r == (if enabled && !currently_enabled {
            AutostartAction::Enable
        } else if !enabled {
            AutostartAction::Disable
        } else {
            AutostartAction::Nothing
        }),
{
    if enabled && !currently_enabled {
        AutostartAction::Enable
    } else if !enabled {
        AutostartAction::Disable
    } else {
        AutostartAction::Nothing
    }
}

/// Whether the main window shows at startup: autostart is on and not
/// minimized.
pub fn should_show_window(enabled: bool, minimized: bool) -> (r: bool)
    ensures
        r == (enabled && !minimized),
{
    enabled && !minimized
}

/// The notification shown once on first run, welcoming the user.
pub fn first_run_notification(first_run: bool) -> (r: Option<Notification>)
    ensures
        (r is Some) == first_run,
        r matches Some(n) ==> {
            &&& n.title@ == "Aw-Tauri"@
            &&& n.body@ == "Welcome to Aw-Tauri! Click on the tray icon to launch the dashboard"@
        },
{
    if first_run {
        Some(
            Notification {
                title: String::from_str("Aw-Tauri"),
                body: String::from_str(
                    "Welcome to Aw-Tauri! Click on the tray icon to launch the dashboard",
                ),
            },
        )
    } else {
        None
    }
}

/// The sentinel a second launch writes under the runtime directory.
pub fn lock_file_name() -> (r: &'static str)
    ensures
        r@ == "single_instance.lock"@,
{
    "single_instance.lock"
}

/// The sentinel's full path under the runtime directory.
pub fn lock_file_path(runtime_dir: &str) -> (r: String)
    ensures
        r@ == runtime_dir@ + "/"@ + "single_instance.lock"@,
{
    crate::text::concat3(runtime_dir, "/", "single_instance.lock")
}

/// The kind of a filesystem watch event, as the watcher reported it.
#[derive(Clone, Copy, PartialEq, Eq, Structural)]
pub enum WatchEventKind {
    Create,
    Modify,
    Other,
}

/// A path stands in the list of the event's paths.
pub open spec fn path_listed(paths: Seq<Seq<char>>, target: Seq<char>) -> bool {
    exists|i: int| 0 <= i < paths.len() && #[trigger] paths[i] == target
}

/// Whether a watch event means the sentinel appeared: a create or modify
/// event naming the target path.
pub fn event_matches(kind: WatchEventKind, paths: &Vec<String>, target: &str) -> (r: bool)
    ensures
        r == ((kind == WatchEventKind::Create || kind == WatchEventKind::Modify) && path_listed(
            paths.deep_view(),
            target@,
        )),
{
    let active = match kind {
        WatchEventKind::Create => true,
        WatchEventKind::Modify => true,
        WatchEventKind::Other => false,
    };
    proof {
        assert(active == (kind == WatchEventKind::Create || kind == WatchEventKind::Modify));
    }
    if !active {
        return false;
    }
    let mut i: usize = 0;
    while i < paths.len()
        invariant
            kind == WatchEventKind::Create || kind == WatchEventKind::Modify,
            0 <= i <= paths.len(),
            forall|j: int| 0 <= j < i ==> #[trigger] paths.deep_view()[j] != target@,
        decreases paths.len() - i,
    {
        if str_eq(paths[i].as_str(), target) {
            proof {
                assert(paths.deep_view()[i as int] == target@);
            }
            return true;
        }
        i += 1;
    }
    proof {
        if path_listed(paths.deep_view(), target@) {
            let j = choose|j: int|
                0 <= j < paths.deep_view().len() && #[trigger] paths.deep_view()[j] == target@;
        }
    }
    false
}

/// Whether a list of module names includes every essential watcher: under
/// Wayland the unified watcher, elsewhere the afk and window watchers.
pub fn has_essential_modules(modules: &Vec<String>, wayland: bool) -> (r: bool)
    ensures
        wayland ==> r == path_listed(modules.deep_view(), "aw-awatcher"@),
        !wayland ==> r == (path_listed(modules.deep_view(), "aw-watcher-afk"@) && path_listed(
            modules.deep_view(),
            "aw-watcher-window"@,
        )),
{
    if wayland {
        contains_name(modules, "aw-awatcher")
    } else {
        contains_name(modules, "aw-watcher-afk") && contains_name(modules, "aw-watcher-window")
    }
}

/// Whether the list holds this name.
fn contains_name(modules: &Vec<String>, name: &str) -> (r: bool)
    ensures
        r == path_listed(modules.deep_view(), name@),
{
    let mut i: usize = 0;
    while i < modules.len()
        invariant
            0 <= i <= modules.len(),
            forall|j: int| 0 <= j < i ==> #[trigger] modules.deep_view()[j] != name@,
        decreases modules.len() - i,
    {
        if str_eq(modules[i].as_str(), name) {
            proof {
                assert(modules.deep_view()[i as int] == name@);
            }
            return true;
        }
        i += 1;
    }
    proof {
        if path_listed(modules.deep_view(), name@) {
            let j = choose|j: int|
                0 <= j < modules.deep_view().len() && #[trigger] modules.deep_view()[j] == name@;
        }
    }
    false
}

} // verus!
