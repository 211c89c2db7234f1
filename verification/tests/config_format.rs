use aw_tauri::config::ModuleEntry;
use aw_tauri::config::UserConfig;
use aw_tauri::config::default_config;
use aw_tauri::config::format_config;
use aw_tauri::config::is_wayland;
use aw_tauri::dirs::Platform;
use aw_tauri::parse::load_config;
use aw_tauri::parse::parse_config;

fn entry_name(m: &ModuleEntry) -> &str {
    m.name()
}

#[test]
fn defaults_on_x11_linux() {
    // first-run defaults on a non-Wayland Linux host
    let c = default_config(Platform::Linux, false, vec![String::from("/home/u/bin")]);
    assert_eq!(c.port, 5600);
    assert!(c.autostart.enabled);
    assert!(c.autostart.minimized);
    let names: Vec<&str> = c.autostart.modules.iter().map(entry_name).collect();
    assert_eq!(names, vec!["aw-watcher-afk", "aw-watcher-window", "aw-sync"]);
    assert_eq!(c.autostart.modules[2].args(), "daemon");
}

#[test]
fn defaults_on_wayland_linux() {
    let c = default_config(Platform::Linux, true, vec![]);
    let names: Vec<&str> = c.autostart.modules.iter().map(entry_name).collect();
    assert_eq!(names, vec!["aw-awatcher", "aw-sync"]);
}

#[test]
fn wayland_detection() {
    let w = String::from("wayland");
    let x = String::from("x11");
    assert!(is_wayland(Some(&w), false));
    assert!(!is_wayland(Some(&x), false));
    assert!(is_wayland(None, true));
    assert!(!is_wayland(None, false));
}

#[test]
fn written_config_text_is_exact() {
    let c = UserConfig {
        port: 5600,
        discovery_paths: vec![String::from("/home/u/bin")],
        autostart: aw_tauri::config::AutostartConfig {
            enabled: true,
            minimized: true,
            modules: vec![
                ModuleEntry::Simple(String::from("aw-watcher-afk")),
                ModuleEntry::Full { name: String::from("aw-sync"), args: String::from("daemon") },
            ],
        },
    };
    let text = format_config(&c);
    let expected = "port = 5600\n\
                    discovery_paths = [\n  \"/home/u/bin\",\n]\n\n\
                    [autostart]\n\
                    enabled = true\n\
                    minimized = true\n\
                    modules = [\n  \"aw-watcher-afk\",\n  { name = \"aw-sync\", args = \"daemon\" }\n]\n";
    assert_eq!(text, expected);
}

#[test]
fn round_trip_of_defaults() {
    // writing the defaults and reading them back restores them
    let c = default_config(Platform::Linux, false, vec![String::from("/home/u/bin")]);
    let text = format_config(&c);
    let parsed = parse_config(&text).expect("the written text parses");
    assert_eq!(parsed.port, Some(5600));
    assert_eq!(parsed.discovery_paths, Some(vec![String::from("/home/u/bin")]));
    assert_eq!(parsed.enabled, Some(true));
    assert_eq!(parsed.minimized, Some(true));
    let modules = parsed.modules.unwrap();
    let names: Vec<&str> = modules.iter().map(entry_name).collect();
    assert_eq!(names, vec!["aw-watcher-afk", "aw-watcher-window", "aw-sync"]);
    assert_eq!(modules[2].args(), "daemon");
}

#[test]
fn round_trip_of_empty_lists() {
    let c = UserConfig {
        port: 1234,
        discovery_paths: vec![],
        autostart: aw_tauri::config::AutostartConfig {
            enabled: false,
            minimized: false,
            modules: vec![],
        },
    };
    let text = format_config(&c);
    let parsed = parse_config(&text).expect("the written text parses");
    assert_eq!(parsed.port, Some(1234));
    assert_eq!(parsed.discovery_paths, Some(vec![]));
    assert_eq!(parsed.enabled, Some(false));
    assert_eq!(parsed.minimized, Some(false));
    assert_eq!(parsed.modules.map(|m| m.len()), Some(0));
}

#[test]
fn missing_autostart_section_still_parses() {
    // defaults fill the missing subtree
    let text = "port = 7700\ndiscovery_paths = []\n";
    let parsed = parse_config(text).expect("a config without [autostart] parses");
    assert_eq!(parsed.port, Some(7700));
    assert_eq!(parsed.enabled, None);
    assert!(parsed.modules.is_none());
    let defaults = default_config(Platform::Linux, false, vec![]);
    let merged = load_config(Some(&String::from(text)), defaults);
    assert!(!merged.malformed);
    assert!(!merged.first_run);
    assert_eq!(merged.config.port, 7700);
    assert!(merged.config.autostart.enabled);
    let names: Vec<&str> = merged.config.autostart.modules.iter().map(entry_name).collect();
    assert_eq!(names, vec!["aw-watcher-afk", "aw-watcher-window", "aw-sync"]);
}

#[test]
fn missing_file_is_first_run() {
    let defaults = default_config(Platform::Linux, false, vec![]);
    let loaded = load_config(None, defaults);
    assert!(loaded.first_run);
    assert!(!loaded.malformed);
    assert_eq!(loaded.config.port, 5600);
}

#[test]
fn malformed_file_keeps_defaults() {
    let defaults = default_config(Platform::Linux, false, vec![]);
    let bad = String::from("port = not-a-number\n");
    let loaded = load_config(Some(&bad), defaults);
    assert!(loaded.malformed);
    assert!(!loaded.first_run);
    assert_eq!(loaded.config.port, 5600);
}

#[test]
fn port_value_bounds() {
    assert!(parse_config("port = 65535\n").expect("in range").port == Some(65535));
    assert!(parse_config("port = 65536\n").is_none());
    assert!(parse_config("port = -1\n").is_none());
}

#[test]
fn comments_and_unknown_keys_are_ignored() {
    let text = "# a comment\nport = 81\nfancy = \"ignored\"\n\n[other]\nstuff = true\n";
    let parsed = parse_config(text).expect("tolerant parse");
    assert_eq!(parsed.port, Some(81));
}

#[test]
fn module_entries_accept_both_forms() {
    let text = "[autostart]\nmodules = [\n  \"aw-notify\",\n  { name = \"aw-sync\", args = \"daemon --x\" },\n]\n";
    let parsed = parse_config(text).expect("both entry forms parse");
    let modules = parsed.modules.unwrap();
    assert_eq!(modules.len(), 2);
    assert_eq!(modules[0].name(), "aw-notify");
    assert_eq!(modules[0].args(), "");
    assert_eq!(modules[1].name(), "aw-sync");
    assert_eq!(modules[1].args(), "daemon --x");
}

#[test]
fn object_entry_without_args_defaults_to_empty() {
    // the object form may omit the args field
    let text = "[autostart]\nmodules = [\n  { name = \"aw-sync\" },\n  { name = \"aw-notify\" }\n]\n";
    let parsed = parse_config(text).expect("the args-less object form parses");
    let modules = parsed.modules.unwrap();
    assert_eq!(modules.len(), 2);
    assert_eq!(modules[0].name(), "aw-sync");
    assert_eq!(modules[0].args(), "");
    assert_eq!(modules[1].name(), "aw-notify");
    assert_eq!(modules[1].args(), "");
}

#[test]
fn unclosed_list_is_malformed() {
    assert!(parse_config("[autostart]\nmodules = [\n  \"aw-notify\",\n").is_none());
}
