use aw_tauri::dirs::Platform;
use aw_tauri::dirs::get_config_dir;
use aw_tauri::dirs::get_config_path;
use aw_tauri::dirs::get_data_dir;
use aw_tauri::dirs::get_discovery_paths;
use aw_tauri::dirs::get_log_dir;
use aw_tauri::dirs::get_log_path;
use aw_tauri::dirs::get_runtime_dir;

#[test]
fn test_get_dirs() {
    get_config_dir("/test/config");
    get_log_dir(Platform::Linux, "/test/cache");
    get_data_dir("/test/data");
    let _ = get_config_path("/test/config");
    let _ = get_log_path(Platform::Linux, "/test/cache");
    let _ = get_runtime_dir(Platform::Linux, None, "/test/cache");
    let _ = get_discovery_paths(Platform::Linux, None, None, None);
}

#[test]
fn test_paths_exist() {
    let config_path = get_config_path("/test/config");
    let log_path = get_log_path(Platform::Linux, "/test/cache");

    // The paths lie inside the directories the resolver yields.
    let config_dir = get_config_dir("/test/config");
    let log_dir = get_log_dir(Platform::Linux, "/test/cache");
    assert!(config_path.starts_with(&config_dir));
    assert!(log_path.starts_with(&log_dir));
    assert_eq!(config_path, "/test/config/aw-tauri/config.toml");
    assert_eq!(log_path, "/test/cache/aw-tauri/log/aw-tauri.log");
}

#[test]
fn config_dir_appends_app_name() {
    assert_eq!(get_config_dir("/home/u/.config/activitywatch"), "/home/u/.config/activitywatch/aw-tauri");
    assert_eq!(get_data_dir("/d"), "/d/aw-tauri");
}

#[test]
fn log_dir_per_platform() {
    assert_eq!(get_log_dir(Platform::Linux, "/c"), "/c/aw-tauri/log");
    assert_eq!(get_log_dir(Platform::MacOs, "/l"), "/l/aw-tauri");
    assert_eq!(get_log_dir(Platform::Windows, "/l"), "/l/aw-tauri");
}

#[test]
fn runtime_dir_uses_xdg_when_set() {
    let rt = String::from("/run/user/1000");
    assert_eq!(
        get_runtime_dir(Platform::Linux, Some(&rt), "/cache"),
        "/run/user/1000/activitywatch/aw-tauri"
    );
    assert_eq!(get_runtime_dir(Platform::Linux, None, "/cache"), "/cache/aw-tauri");
    assert_eq!(get_runtime_dir(Platform::Windows, None, "/data"), "/data/aw-tauri");
}

#[test]
fn discovery_paths_linux_order() {
    let home = String::from("/home/u");
    let got = get_discovery_paths(Platform::Linux, Some(&home), None, None);
    assert_eq!(
        got,
        vec![
            String::from("/home/u/bin"),
            String::from("/home/u/.local/bin"),
            String::from("/home/u/.local/share/activitywatch/aw-tauri/modules"),
            String::from("/home/u/aw-modules"),
        ]
    );
}

#[test]
fn discovery_paths_respect_xdg_data_home() {
    let home = String::from("/home/u");
    let data = String::from("/xdg/data");
    let got = get_discovery_paths(Platform::Linux, Some(&home), Some(&data), None);
    assert_eq!(got[2], "/xdg/data/activitywatch/aw-tauri/modules");
}

#[test]
fn discovery_paths_windows() {
    let user = String::from("bob");
    let got = get_discovery_paths(Platform::Windows, None, None, Some(&user));
    assert_eq!(
        got,
        vec![
            String::from("C:/Users/bob/aw-modules"),
            String::from("C:/Users/bob/AppData/Local/Programs/ActivityWatch"),
        ]
    );
}

#[test]
fn discovery_paths_macos() {
    let home = String::from("/Users/u");
    let got = get_discovery_paths(Platform::MacOs, Some(&home), None, None);
    assert_eq!(
        got,
        vec![
            String::from("/Users/u/aw-modules"),
            String::from("/Applications/ActivityWatch.app/Contents/MacOS"),
            String::from("/Applications/ActivityWatch.app/Contents/Resources"),
        ]
    );
}
