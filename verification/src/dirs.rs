//! Directory resolution for the supervisor.
//!
//! Every function here is a pure computation from environment values that the
//! caller has already read (home directory, platform base directories, the
//! XDG variables) to the path the supervisor uses. Creating the directories
//! and querying the operating system stay outside the library. Paths are
//! joined with `/`.

use vstd::prelude::*;
use crate::text::concat2;
use crate::text::concat3;

verus! {

/// The operating systems whose directory layout the supervisor knows.
#[derive(Clone, Copy, PartialEq, Eq, Structural)]
pub enum Platform {
    Linux,
    Windows,
    MacOs,
}

/// `a` and `b` joined with a single separator.
pub open spec fn join_path(a: Seq<char>, b: Seq<char>) -> Seq<char> {
    a + "/"@ + b
}

/// The supervisor's configuration directory under the user configuration root.
pub fn get_config_dir(config_root: &str) -> (r: String)
    ensures
        r@ == join_path(config_root@, "aw-tauri"@),
{
    concat3(config_root, "/", "aw-tauri")
}

/// The supervisor's data directory under the user data root.
pub fn get_data_dir(data_root: &str) -> (r: String)
    ensures
        r@ == join_path(data_root@, "aw-tauri"@),
{
    concat3(data_root, "/", "aw-tauri")
}

/// The log directory: under the user cache root on Linux, under the
/// dedicated log root elsewhere.
pub open spec fn log_dir_spec(platform: Platform, root: Seq<char>) -> Seq<char> {
    match platform {
        Platform::Linux => join_path(join_path(root, "aw-tauri"@), "log"@),
        _ => join_path(root, "aw-tauri"@),
    }
}

/// The supervisor's log directory under the platform's base root.
pub fn get_log_dir(platform: Platform, root: &str) -> (r: String)
    ensures
        r@ == log_dir_spec(platform, root@),
{
    match platform {
        Platform::Linux => {
            let base = concat3(root, "/", "aw-tauri");
            concat3(base.as_str(), "/", "log")
        },
        _ => concat3(root, "/", "aw-tauri"),
    }
}

/// The configuration file inside the configuration directory.
pub fn get_config_path(config_root: &str) -> (r: String)
    ensures
        r@ == join_path(join_path(config_root@, "aw-tauri"@), "config.toml"@),
{
    let dir = get_config_dir(config_root);
    concat3(dir.as_str(), "/", "config.toml")
}

/// The live log file inside the log directory.
pub fn get_log_path(platform: Platform, root: &str) -> (r: String)
    ensures
        r@ == join_path(log_dir_spec(platform, root@), "aw-tauri.log"@),
{
    let dir = get_log_dir(platform, root);
    concat3(dir.as_str(), "/", "aw-tauri.log")
}

/// The runtime directory: `$XDG_RUNTIME_DIR/activitywatch/aw-tauri` when the
/// variable is set on Linux, the cache fallback otherwise; the data directory
/// on Windows and macOS.
pub open spec fn runtime_dir_spec(
    platform: Platform,
    xdg_runtime_dir: Option<Seq<char>>,
    root: Seq<char>,
) -> Seq<char> {
    match platform {
        Platform::Linux => match xdg_runtime_dir {
            Some(rt) => join_path(join_path(rt, "activitywatch"@), "aw-tauri"@),
            None => join_path(root, "aw-tauri"@),
        },
        _ => join_path(root, "aw-tauri"@),
    }
}

/// The directory for volatile runtime files such as the single-instance
/// sentinel. On Linux `root` is the user cache root used when
/// `XDG_RUNTIME_DIR` is unset; elsewhere it is the user data root.
pub fn get_runtime_dir(platform: Platform, xdg_runtime_dir: Option<&String>, root: &str) -> (r:
    String)
    ensures
        r@ == runtime_dir_spec(
            platform,
            match xdg_runtime_dir {
                Some(rt) => Some(rt@),
                None => None,
            },
            root@,
        ),
{
    match platform {
        Platform::Linux => match xdg_runtime_dir {
            Some(rt) => {
                let base = concat3(rt.as_str(), "/", "activitywatch");
                concat3(base.as_str(), "/", "aw-tauri")
            },
            None => concat3(root, "/", "aw-tauri"),
        },
        _ => concat3(root, "/", "aw-tauri"),
    }
}

/// The ordered module-discovery roots per platform; earlier entries win on a
/// name collision during discovery.
pub open spec fn discovery_paths_spec(
    platform: Platform,
    home: Option<Seq<char>>,
    xdg_data_home: Option<Seq<char>>,
    username: Option<Seq<char>>,
) -> Seq<Seq<char>> {
    match platform {
        Platform::Linux => match home {
            Some(h) => {
                let data = match xdg_data_home {
                    Some(d) => d,
                    None => join_path(join_path(h, ".local"@), "share"@),
                };
                seq![
                    join_path(h, "bin"@),
                    join_path(join_path(h, ".local"@), "bin"@),
                    join_path(join_path(data, "activitywatch"@), join_path("aw-tauri"@, "modules"@)),
                    join_path(h, "aw-modules"@),
                ]
            },
            None => Seq::empty(),
        },
        Platform::Windows => match username {
            Some(u) => seq![
                "C:/Users/"@ + u + "/aw-modules"@,
                "C:/Users/"@ + u + "/AppData/Local/Programs/ActivityWatch"@,
            ],
            None => Seq::empty(),
        },
        Platform::MacOs => {
            let tail = seq![
                "/Applications/ActivityWatch.app/Contents/MacOS"@,
                "/Applications/ActivityWatch.app/Contents/Resources"@,
            ];
            match home {
                Some(h) => seq![join_path(h, "aw-modules"@)] + tail,
                None => tail,
            }
        },
    }
}

/// The ordered list of discovery roots computed from the environment values
/// the caller read: `HOME` and `XDG_DATA_HOME` on Unix-likes, `USERNAME` on
/// Windows.
pub fn get_discovery_paths(
    platform: Platform,
    home: Option<&String>,
    xdg_data_home: Option<&String>,
    username: Option<&String>,
) -> (r: Vec<String>)
    ensures
        r.deep_view() == discovery_paths_spec(
            platform,
            match home {
                Some(h) => Some(h@),
                None => None,
            },
            match xdg_data_home {
                Some(d) => Some(d@),
                None => None,
            },
            match username {
                Some(u) => Some(u@),
                None => None,
            },
        ),
{
    let mut out: Vec<String> = Vec::new();
    match platform {
        Platform::Linux => {
            if let Some(h) = home {
                let local = concat3(h.as_str(), "/", ".local");
                let data = match xdg_data_home {
                    Some(d) => concat2(d.as_str(), ""),
                    None => concat3(local.as_str(), "/", "share"),
                };
                let modules_tail = concat3("aw-tauri", "/", "modules");
                let aw_dir = concat3(data.as_str(), "/", "activitywatch");
                out.push(concat3(h.as_str(), "/", "bin"));
                out.push(concat3(local.as_str(), "/", "bin"));
                out.push(concat3(aw_dir.as_str(), "/", modules_tail.as_str()));
                out.push(concat3(h.as_str(), "/", "aw-modules"));
                proof {
                    reveal_strlit("");
                    let hv = h@;
                    let dv = match xdg_data_home {
                        Some(d) => d@,
                        None => join_path(join_path(hv, ".local"@), "share"@),
                    };
                    assert(data@ =~= dv);
                    assert(out.deep_view() =~= discovery_paths_spec(
                        platform,
                        Some(hv),
                        match xdg_data_home {
                            Some(d) => Some(d@),
                            None => None,
                        },
                        match username {
                            Some(u) => Some(u@),
                            None => None,
                        },
                    ));
                }
            } else {
                proof {
                    assert(out.deep_view() =~= Seq::<Seq<char>>::empty());
                }
            }
        },
        Platform::Windows => {
            if let Some(u) = username {
                out.push(concat3("C:/Users/", u.as_str(), "/aw-modules"));
                out.push(concat3("C:/Users/", u.as_str(), "/AppData/Local/Programs/ActivityWatch"));
                proof {
                    assert(out.deep_view() =~= discovery_paths_spec(
                        platform,
                        match home {
                            Some(h) => Some(h@),
                            None => None,
                        },
                        match xdg_data_home {
                            Some(d) => Some(d@),
                            None => None,
                        },
                        Some(u@),
                    ));
                }
            } else {
                proof {
                    assert(out.deep_view() =~= Seq::<Seq<char>>::empty());
                }
            }
        },
        Platform::MacOs => {
            if let Some(h) = home {
                out.push(concat3(h.as_str(), "/", "aw-modules"));
            }
            out.push(concat2("/Applications/ActivityWatch.app/Contents/MacOS", ""));
            out.push(concat2("/Applications/ActivityWatch.app/Contents/Resources", ""));
            proof {
                reveal_strlit("");
                assert(out.deep_view() =~= discovery_paths_spec(
                    platform,
                    match home {
                        Some(h) => Some(h@),
                        None => None,
                    },
                    match xdg_data_home {
                        Some(d) => Some(d@),
                        None => None,
                    },
                    match username {
                        Some(u) => Some(u@),
                        None => None,
                    },
                ));
            }
        },
    }
    out
}

} // verus!
