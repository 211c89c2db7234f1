use aw_tauri::setup::AutostartAction;
use aw_tauri::setup::WatchEventKind;
use aw_tauri::setup::autostart_action;
use aw_tauri::setup::check_port;
use aw_tauri::setup::event_matches;
use aw_tauri::setup::first_run_notification;
use aw_tauri::setup::has_essential_modules;
use aw_tauri::setup::lock_file_name;
use aw_tauri::setup::lock_file_path;
use aw_tauri::setup::should_show_window;

#[test]
fn taken_port_aborts_with_exact_dialog() {
    // the port-conflict dialog text, verbatim
    let err = check_port(5600, false).unwrap_err();
    assert_eq!(err, "Port 5600 is already in use");
    assert!(check_port(5600, true).is_ok());
}

#[test]
fn autostart_registration_intent() {
    assert_eq!(autostart_action(true, false), AutostartAction::Enable);
    assert_eq!(autostart_action(true, true), AutostartAction::Nothing);
    assert_eq!(autostart_action(false, true), AutostartAction::Disable);
    assert_eq!(autostart_action(false, false), AutostartAction::Disable);
}

#[test]
fn window_shows_when_not_minimized() {
    assert!(should_show_window(true, false));
    assert!(!should_show_window(true, true));
    assert!(!should_show_window(false, false));
}

#[test]
fn first_run_emits_one_welcome() {
    let n = first_run_notification(true).expect("a first run notifies");
    assert_eq!(n.title, "Aw-Tauri");
    assert_eq!(n.body, "Welcome to Aw-Tauri! Click on the tray icon to launch the dashboard");
    assert!(first_run_notification(false).is_none());
}

#[test]
fn lock_file_location() {
    assert_eq!(lock_file_name(), "single_instance.lock");
    assert_eq!(lock_file_path("/run/aw"), "/run/aw/single_instance.lock");
}

#[test]
fn sentinel_event_detection() {
    let target = lock_file_path("/run/aw");
    let paths = vec![String::from("/run/aw/other"), target.clone()];
    assert!(event_matches(WatchEventKind::Create, &paths, &target));
    assert!(event_matches(WatchEventKind::Modify, &paths, &target));
    assert!(!event_matches(WatchEventKind::Other, &paths, &target));
    let misses = vec![String::from("/run/aw/other")];
    assert!(!event_matches(WatchEventKind::Create, &misses, &target));
}

#[test]
fn essential_modules_per_display_server() {
    let both = vec![String::from("aw-watcher-afk"), String::from("aw-watcher-window")];
    let one = vec![String::from("aw-watcher-afk")];
    let uni = vec![String::from("aw-awatcher")];
    assert!(has_essential_modules(&both, false));
    assert!(!has_essential_modules(&one, false));
    assert!(has_essential_modules(&uni, true));
    assert!(!has_essential_modules(&both, true));
}
