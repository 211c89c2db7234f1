use aw_tauri::dirs::Platform;
use aw_tauri::discovery::DiscoveryState;
use aw_tauri::discovery::EntryKind;
use aw_tauri::discovery::FsDir;
use aw_tauri::discovery::FsEntry;
use aw_tauri::discovery::FsModel;
use aw_tauri::discovery::discover_modules;
use aw_tauri::discovery::excluded;

fn entry(name: &str, kind: EntryKind, exec_bit: bool, canon: &str, path: &str) -> FsEntry {
    FsEntry {
        name: String::from(name),
        kind,
        exec_bit,
        canon: String::from(canon),
        path: String::from(path),
    }
}

fn dir(path: &str, entries: Vec<FsEntry>) -> FsDir {
    FsDir { path: String::from(path), entries }
}

#[test]
fn finds_executables_with_aw_prefix() {
    let fs = FsModel {
        dirs: vec![dir(
            "/bin",
            vec![
                entry("aw-watcher-afk", EntryKind::File, true, "/bin/aw-watcher-afk", "/bin/aw-watcher-afk"),
                entry("aw-notes.txt", EntryKind::File, true, "/bin/aw-notes.txt", "/bin/aw-notes.txt"),
                entry("watcher", EntryKind::File, true, "/bin/watcher", "/bin/watcher"),
                entry("aw-no-exec", EntryKind::File, false, "/bin/aw-no-exec", "/bin/aw-no-exec"),
                entry("aw-link", EntryKind::Symlink, true, "/bin/aw-link", "/bin/aw-link"),
            ],
        )],
    };
    let found = discover_modules(Platform::Linux, vec![String::from("/bin")], &fs);
    let names: Vec<&str> = found.iter().map(|m| m.name.as_str()).collect();
    assert_eq!(names, vec!["aw-watcher-afk", "aw-link"]);
}

#[test]
fn excluded_names_are_skipped() {
    assert!(excluded("aw-tauri"));
    assert!(excluded("aw-server-rust"));
    assert!(!excluded("aw-watcher-afk"));
    let fs = FsModel {
        dirs: vec![dir(
            "/bin",
            vec![
                entry("aw-tauri", EntryKind::File, true, "/bin/aw-tauri", "/bin/aw-tauri"),
                entry("aw-server", EntryKind::File, true, "/bin/aw-server", "/bin/aw-server"),
                entry("aw-sync", EntryKind::File, true, "/bin/aw-sync", "/bin/aw-sync"),
            ],
        )],
    };
    let found = discover_modules(Platform::Linux, vec![String::from("/bin")], &fs);
    let names: Vec<&str> = found.iter().map(|m| m.name.as_str()).collect();
    assert_eq!(names, vec!["aw-sync"]);
}

#[test]
fn earlier_roots_win_name_collisions() {
    let fs = FsModel {
        dirs: vec![
            dir("/first", vec![entry("aw-sync", EntryKind::File, true, "/first/aw-sync", "/first/aw-sync")]),
            dir("/second", vec![entry("aw-sync", EntryKind::File, true, "/second/aw-sync", "/second/aw-sync")]),
        ],
    };
    let found = discover_modules(
        Platform::Linux,
        vec![String::from("/first"), String::from("/second")],
        &fs,
    );
    assert_eq!(found.len(), 1);
    assert_eq!(found[0].path, "/first/aw-sync");
}

#[test]
fn descends_into_aw_directories() {
    let fs = FsModel {
        dirs: vec![
            dir("/root", vec![entry("aw-extras", EntryKind::Dir, false, "/root/aw-extras", "/root/aw-extras")]),
            dir("/root/aw-extras", vec![entry(
                "aw-deep",
                EntryKind::File,
                true,
                "/root/aw-extras/aw-deep",
                "/root/aw-extras/aw-deep",
            )]),
        ],
    };
    let found = discover_modules(Platform::Linux, vec![String::from("/root")], &fs);
    assert_eq!(found[0].name, "aw-deep");
}

#[test]
fn symlink_cycles_terminate() {
    // two directories whose aw- subdirectory links point at each other; the
    // walk still ends and finds the one module
    let fs = FsModel {
        dirs: vec![
            dir(
                "/a",
                vec![
                    entry("aw-loop", EntryKind::Dir, false, "/b", "/a/aw-loop"),
                    entry("aw-found", EntryKind::File, true, "/a/aw-found", "/a/aw-found"),
                ],
            ),
            dir("/b", vec![entry("aw-back", EntryKind::Dir, false, "/a", "/b/aw-back")]),
        ],
    };
    let found = discover_modules(Platform::Linux, vec![String::from("/a")], &fs);
    let names: Vec<&str> = found.iter().map(|m| m.name.as_str()).collect();
    assert_eq!(names, vec!["aw-found"]);
}

#[test]
fn self_cycle_terminates() {
    let fs = FsModel {
        dirs: vec![dir("/a", vec![entry("aw-self", EntryKind::Dir, false, "/a", "/a/aw-self")])],
    };
    let found = discover_modules(Platform::Linux, vec![String::from("/a")], &fs);
    assert!(found.is_empty());
}

#[test]
fn windows_rule_lowercases_exe_stems() {
    let fs = FsModel {
        dirs: vec![dir(
            "C:/mods",
            vec![
                entry("aw-Watcher-AFK.exe", EntryKind::File, false, "C:/mods/aw-Watcher-AFK.exe", "C:/mods/aw-Watcher-AFK.exe"),
                entry("aw-sync", EntryKind::File, true, "C:/mods/aw-sync", "C:/mods/aw-sync"),
                entry("aw-TAURI.exe", EntryKind::File, false, "C:/mods/aw-TAURI.exe", "C:/mods/aw-TAURI.exe"),
                entry("aw-\u{c4}rger.exe", EntryKind::File, false, "C:/mods/x.exe", "C:/mods/x.exe"),
            ],
        )],
    };
    let found = discover_modules(Platform::Windows, vec![String::from("C:/mods")], &fs);
    let names: Vec<&str> = found.iter().map(|m| m.name.as_str()).collect();
    // the stem is lower-cased — Unicode included — the extensionless file
    // is not a candidate on Windows, and the excluded name stays out
    assert_eq!(names, vec!["aw-watcher-afk", "aw-\u{e4}rger"]);
}

#[test]
fn walk_can_be_driven_stepwise() {
    let mut st = DiscoveryState::new(Platform::Linux, vec![String::from("/x")]);
    let d = st.next_dir().expect("the root comes first");
    assert_eq!(d, "/x");
    st.offer_entry("aw-one", EntryKind::File, true, "/x/aw-one", "/x/aw-one");
    assert!(st.next_dir().is_none());
    let found = st.into_found();
    assert_eq!(found[0].name, "aw-one");
}
