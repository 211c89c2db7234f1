use aw_tauri::logging::LogFile;
use aw_tauri::logging::LogLevel;
use aw_tauri::logging::TimeParts;
use aw_tauri::logging::cleanup_old_logs;
use aw_tauri::logging::format_log_line;
use aw_tauri::logging::format_timestamp;
use aw_tauri::logging::is_rotated_log;
use aw_tauri::logging::local_time_parts;
use aw_tauri::logging::log_levels;
use aw_tauri::logging::needs_rotation;
use aw_tauri::logging::rotated_log_name;
use aw_tauri::manager::DiscoveredModule;
use aw_tauri::manager::ManagerState;
use aw_tauri::menu::ClickTarget;
use aw_tauri::menu::TopItem;
use aw_tauri::menu::classify_click;
use aw_tauri::menu::update_tray_menu;

#[test]
fn rotation_threshold_is_32_mib() {
    assert!(!needs_rotation(false, 1 << 30));
    assert!(!needs_rotation(true, 32 * 1024 * 1024));
    assert!(needs_rotation(true, 32 * 1024 * 1024 + 1));
}

#[test]
fn rotated_name_has_padded_timestamp() {
    let t = TimeParts { year: 2024, month: 3, day: 7, hour: 9, minute: 5, second: 0 };
    assert_eq!(format_timestamp(&t), "2024-03-07_09-05-00");
    assert_eq!(rotated_log_name("aw-tauri", &t), "aw-tauri.2024-03-07_09-05-00.log");
}

#[test]
fn clock_gives_calendar_ranges() {
    let t = local_time_parts();
    assert!((1..=12).contains(&t.month));
    assert!((1..=31).contains(&t.day));
    assert!(t.hour <= 23 && t.minute <= 59 && t.second <= 59);
    // the formatted stamp has the fixed shape
    let ts = format_timestamp(&t);
    assert_eq!(ts.len(), format!("{:04}", t.year).len() + 15);
}

#[test]
fn log_line_shape() {
    let t = TimeParts { year: 2024, month: 3, day: 7, hour: 9, minute: 5, second: 0 };
    assert_eq!(
        format_log_line(&t, "INFO", "aw_tauri", "Logging initialized"),
        "[2024-03-07 09:05:00][INFO][aw_tauri] Logging initialized"
    );
}

#[test]
fn rotated_log_filter() {
    assert!(is_rotated_log("aw-tauri.2024-01-01_00-00-00.log", "aw-tauri"));
    assert!(!is_rotated_log("aw-tauri.log", "aw-tauri"));
    assert!(!is_rotated_log("other.2024.log", "aw-tauri"));
    assert!(!is_rotated_log("aw-tauri.2024.txt", "aw-tauri"));
}

#[test]
fn cleanup_keeps_five_newest() {
    let entries: Vec<LogFile> = (0..8u64)
        .map(|i| LogFile { name: format!("aw-tauri.{i}.log"), mtime: 100 + i })
        .collect();
    let removed = cleanup_old_logs(&entries);
    // the three oldest go
    assert_eq!(
        removed,
        vec![
            String::from("aw-tauri.0.log"),
            String::from("aw-tauri.1.log"),
            String::from("aw-tauri.2.log"),
        ]
    );
    let few: Vec<LogFile> = (0..3u64)
        .map(|i| LogFile { name: format!("aw-tauri.{i}.log"), mtime: i })
        .collect();
    assert!(cleanup_old_logs(&few).is_empty());
}

#[test]
fn levels_follow_environment_toggles() {
    // the supervisor's own crate logs at Debug, Trace under the trace
    // toggle; foreign modules default to Error, Info under either toggle
    let l = log_levels(false, false);
    assert_eq!(l.own_level, LogLevel::Debug);
    assert_eq!(l.default_level, LogLevel::Error);
    let l = log_levels(true, false);
    assert_eq!(l.own_level, LogLevel::Debug);
    assert_eq!(l.default_level, LogLevel::Info);
    let l = log_levels(false, true);
    assert_eq!(l.own_level, LogLevel::Trace);
    assert_eq!(l.default_level, LogLevel::Info);
}

#[test]
fn menu_lists_running_then_discovered() {
    let discovered = vec![
        DiscoveredModule { name: String::from("aw-watcher-afk"), path: String::from("/a") },
        DiscoveredModule { name: String::from("aw-sync"), path: String::from("/s") },
    ];
    let mut st = ManagerState::new(discovered, 5600);
    st.started_module("aw-watcher-afk", 4, None);
    let menu = update_tray_menu(&st);
    // top structure: open, sep, submenu, sep, config, log, sep, quit
    assert_eq!(menu.top.len(), 8);
    match &menu.top[0] {
        TopItem::Entry { id, label } => {
            assert_eq!(id, "open");
            assert_eq!(label, "Open Dashboard");
        },
        _ => panic!("expected the dashboard entry first"),
    }
    match &menu.top[7] {
        TopItem::Entry { id, label } => {
            assert_eq!(id, "quit");
            assert_eq!(label, "Quit ActivityWatch");
        },
        _ => panic!("expected quit last"),
    }
    // the submenu: the recorded module checkable and checked, the
    // never-run discovered one plain, each exactly once
    assert_eq!(menu.modules.len(), 2);
    assert_eq!(menu.modules[0].id, "aw-watcher-afk");
    assert!(menu.modules[0].checkable);
    assert!(menu.modules[0].checked);
    assert_eq!(menu.modules[1].id, "aw-sync");
    assert!(!menu.modules[1].checkable);
    assert!(!menu.modules[1].checked);
    // after a stop the check clears but the item stays
    st.stopped_module("aw-watcher-afk");
    let menu = update_tray_menu(&st);
    assert_eq!(menu.modules.len(), 2);
    assert!(menu.modules[0].checkable);
    assert!(!menu.modules[0].checked);
}

#[test]
fn clicks_route_by_id() {
    assert!(matches!(classify_click("open"), ClickTarget::OpenDashboard));
    assert!(matches!(classify_click("quit"), ClickTarget::Quit));
    assert!(matches!(classify_click("config_folder"), ClickTarget::ConfigFolder));
    assert!(matches!(classify_click("log_folder"), ClickTarget::LogFolder));
    match classify_click("aw-watcher-afk") {
        ClickTarget::Module(name) => assert_eq!(name, "aw-watcher-afk"),
        _ => panic!("expected a module toggle"),
    }
}
