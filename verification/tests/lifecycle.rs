use aw_tauri::config::ModuleEntry;
use aw_tauri::manager::ClickOutcome;
use aw_tauri::manager::DiscoveredModule;
use aw_tauri::manager::ManagerState;
use aw_tauri::manager::ModuleMessage;
use aw_tauri::manager::RestartDecision;
use aw_tauri::manager::StartOutcome;
use aw_tauri::manager::effective_args;
use aw_tauri::manager::parse_autostart_args;

fn state_with(names: &[(&str, &str)], port: u16) -> ManagerState {
    let discovered = names
        .iter()
        .map(|(n, p)| DiscoveredModule { name: String::from(*n), path: String::from(*p) })
        .collect();
    ManagerState::new(discovered, port)
}

fn record_of<'a>(
    st: &'a ManagerState,
    name: &str,
) -> Option<&'a aw_tauri::manager::ModuleRecord> {
    st.records.iter().find(|r| r.name == name)
}

#[test]
fn started_then_stopped_tracks_pid_and_running() {
    let mut st = state_with(&[("aw-watcher-afk", "/bin/aw-watcher-afk")], 5600);
    st.started_module("aw-watcher-afk", 42, None);
    {
        let r = record_of(&st, "aw-watcher-afk").unwrap();
        // pid present exactly while running
        assert!(r.running);
        assert_eq!(r.pid, Some(42));
    }
    st.stopped_module("aw-watcher-afk");
    let r = record_of(&st, "aw-watcher-afk").unwrap();
    assert!(!r.running);
    assert_eq!(r.pid, None);
}

#[test]
fn start_module_decisions() {
    let mut st = state_with(&[("aw-sync", "/opt/aw-sync")], 5600);
    match st.start_module("aw-sync", None) {
        StartOutcome::Spawn(req) => {
            assert_eq!(req.name, "aw-sync");
            assert_eq!(req.path, "/opt/aw-sync");
            assert_eq!(req.args, None);
        },
        _ => panic!("expected a spawn"),
    }
    match st.start_module("aw-missing", None) {
        StartOutcome::NotDiscovered => {},
        _ => panic!("expected not discovered"),
    }
    st.started_module("aw-sync", 7, None);
    match st.start_module("aw-sync", None) {
        StartOutcome::AlreadyRunning => {},
        _ => panic!("expected already running"),
    }
}

#[test]
fn stop_sets_pending_and_returns_pid() {
    let mut st = state_with(&[("aw-sync", "/opt/aw-sync")], 5600);
    st.started_module("aw-sync", 99, None);
    let req = st.stop_module("aw-sync").expect("a terminate request");
    assert_eq!(req.name, "aw-sync");
    assert_eq!(req.pid, 99);
    assert!(record_of(&st, "aw-sync").unwrap().pending_shutdown);
    // stopping a module without a live pid is a no-op
    assert!(st.stop_module("aw-missing").is_none());
}

#[test]
fn crash_loop_bound() {
    // a module that keeps crashing: counts 1, 2, 3, then the limit dialog
    // and no further spawn
    let mut st = state_with(&[("aw-watcher-afk", "/bin/aw-watcher-afk")], 5600);
    for round in 1..=3u32 {
        st.started_module("aw-watcher-afk", 10 + round, None);
        let check = st.handle_message(ModuleMessage::Stopped {
            name: String::from("aw-watcher-afk"),
            success: false,
        });
        assert_eq!(check.as_deref(), Some("aw-watcher-afk"));
        match st.arbiter_tick("aw-watcher-afk") {
            RestartDecision::Restart { dialog, outcome } => {
                assert_eq!(dialog, "aw-watcher-afk crashed. Restarting...");
                assert!(matches!(outcome, StartOutcome::Spawn(_)));
            },
            _ => panic!("expected a restart in round {round}"),
        }
        assert_eq!(record_of(&st, "aw-watcher-afk").unwrap().restart_count, round);
    }
    // the fourth failing exit
    st.started_module("aw-watcher-afk", 14, None);
    st.handle_message(ModuleMessage::Stopped {
        name: String::from("aw-watcher-afk"),
        success: false,
    });
    match st.arbiter_tick("aw-watcher-afk") {
        RestartDecision::LimitReached { dialog } => {
            assert_eq!(dialog, "aw-watcher-afk keeps on crashing. Restart limit reached.");
        },
        _ => panic!("expected the restart limit"),
    }
    assert_eq!(record_of(&st, "aw-watcher-afk").unwrap().restart_count, 3);
}

#[test]
fn crash_of_one_module_leaves_others_alone() {
    let mut st = state_with(
        &[("aw-watcher-afk", "/a"), ("aw-watcher-window", "/b")],
        5600,
    );
    st.started_module("aw-watcher-afk", 1, None);
    st.started_module("aw-watcher-window", 2, None);
    st.stopped_module("aw-watcher-afk");
    st.arbiter_tick("aw-watcher-afk");
    let other = record_of(&st, "aw-watcher-window").unwrap();
    assert!(other.running);
    assert_eq!(other.restart_count, 0);
}

#[test]
fn pending_shutdown_suppresses_restart() {
    // a user stop, then the failing exit: no restart, the counter unchanged
    let mut st = state_with(&[("aw-sync", "/opt/aw-sync")], 5600);
    st.started_module("aw-sync", 5, Some(vec![String::from("daemon")]));
    let _ = st.stop_module("aw-sync");
    let check = st.handle_message(ModuleMessage::Stopped {
        name: String::from("aw-sync"),
        success: false,
    });
    assert_eq!(check.as_deref(), Some("aw-sync"));
    match st.arbiter_tick("aw-sync") {
        RestartDecision::Aborted => {},
        _ => panic!("expected the pending shutdown to win"),
    }
    assert_eq!(record_of(&st, "aw-sync").unwrap().restart_count, 0);
    // a later click starts it again with the last-used args
    match st.handle_system_click("aw-sync") {
        ClickOutcome::Start(StartOutcome::Spawn(req)) => {
            assert_eq!(req.args, Some(vec![String::from("daemon")]));
        },
        _ => panic!("expected a start with the stored args"),
    }
}

#[test]
fn click_toggles_running_module() {
    let mut st = state_with(&[("aw-sync", "/opt/aw-sync")], 5600);
    st.started_module("aw-sync", 31, None);
    match st.handle_system_click("aw-sync") {
        ClickOutcome::Stop(Some(req)) => assert_eq!(req.pid, 31),
        _ => panic!("expected a stop request"),
    }
}

#[test]
fn stop_modules_terminates_each_live_pid() {
    let mut st = state_with(&[("a", "/a"), ("b", "/b"), ("c", "/c")], 5600);
    st.started_module("a", 1, None);
    st.started_module("b", 2, None);
    st.started_module("c", 3, None);
    st.stopped_module("b");
    let reqs = st.stop_modules();
    let pids: Vec<u32> = reqs.iter().map(|r| r.pid).collect();
    assert_eq!(pids, vec![1, 3]);
    for r in st.records.iter() {
        if r.pid.is_some() {
            assert!(r.pending_shutdown);
        }
    }
}

#[test]
fn successful_exit_schedules_no_restart() {
    let mut st = state_with(&[("aw-sync", "/opt/aw-sync")], 5600);
    st.started_module("aw-sync", 8, None);
    let check = st.handle_message(ModuleMessage::Stopped {
        name: String::from("aw-sync"),
        success: true,
    });
    assert!(check.is_none());
}

#[test]
fn default_args_omit_port_at_default() {
    // port exactly 5600: no --port argument
    let args = effective_args(None, 5600);
    assert!(args.is_empty());
    let args = effective_args(None, 5601);
    assert_eq!(args, vec![String::from("--port"), String::from("5601")]);
    let custom = vec![String::from("daemon")];
    let args = effective_args(Some(&custom), 5601);
    assert_eq!(args, vec![String::from("daemon")]);
}

#[test]
fn autostart_args_tokenize_shell_style() {
    assert_eq!(parse_autostart_args(""), None);
    assert_eq!(
        parse_autostart_args("daemon --verbose"),
        Some(vec![String::from("daemon"), String::from("--verbose")])
    );
    // quoting is respected
    assert_eq!(
        parse_autostart_args("daemon \"a b\""),
        Some(vec![String::from("daemon"), String::from("a b")])
    );
    // an unmatched quote degrades to no arguments
    assert_eq!(parse_autostart_args("\"open"), Some(vec![]));
}

#[test]
fn autostart_starts_each_module_once() {
    // a name both configured and discovered is started exactly once
    let st = state_with(&[("aw-watcher-afk", "/a"), ("aw-sync", "/s")], 5600);
    let entries = vec![
        ModuleEntry::Simple(String::from("aw-watcher-afk")),
        ModuleEntry::Simple(String::from("aw-watcher-afk")),
        ModuleEntry::Full { name: String::from("aw-sync"), args: String::from("daemon") },
        ModuleEntry::Simple(String::from("aw-ghost")),
    ];
    let plan = st.autostart_plan(&entries);
    let names: Vec<&str> = plan.iter().map(|r| r.name.as_str()).collect();
    assert_eq!(names, vec!["aw-watcher-afk", "aw-sync"]);
    assert_eq!(plan[1].args, Some(vec![String::from("daemon")]));
}
