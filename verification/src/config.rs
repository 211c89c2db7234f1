//! User configuration: the data model, the platform defaults, and the exact
//! text the supervisor writes to `config.toml`.
//!
//! Reading and writing the file stay outside the library; this module decides
//! the content. [`crate::parse`] reads the same format back.

use vstd::prelude::*;
use vstd::string::StrSliceExecFns;
use vstd::string::StringExecFns;
use crate::dirs::Platform;
use crate::text::dec_str;
use crate::text::u16_to_string;

verus! {

/// A configured autostart module: either a bare name, or a name with an
/// argument string that is tokenized shell-style before the spawn.
#[derive(Debug, Clone)]
pub enum ModuleEntry {
    Simple(String),
    Full { name: String, args: String },
}

/// The mathematical value of a [`ModuleEntry`].
pub enum ModuleEntryV {
    Simple(Seq<char>),
    Full { name: Seq<char>, args: Seq<char> },
}

impl View for ModuleEntry {
    type V = ModuleEntryV;

    open spec fn view(&self) -> ModuleEntryV {
        match self {
            ModuleEntry::Simple(name) => ModuleEntryV::Simple(name@),
            ModuleEntry::Full { name, args } => ModuleEntryV::Full {
                name: name@,
                args: args@,
            },
        }
    }
}

impl DeepView for ModuleEntry {
    type V = ModuleEntryV;

    open spec fn deep_view(&self) -> ModuleEntryV {
        self.view()
    }
}

/// The name of a configured entry.
pub open spec fn entry_name(m: ModuleEntryV) -> Seq<char> {
    match m {
        ModuleEntryV::Simple(name) => name,
        ModuleEntryV::Full { name, .. } => name,
    }
}

/// The argument string of a configured entry; empty for the bare form.
pub open spec fn entry_args(m: ModuleEntryV) -> Seq<char> {
    match m {
        ModuleEntryV::Simple(..) => Seq::empty(),
        ModuleEntryV::Full { args, .. } => args,
    }
}

impl ModuleEntry {
    /// The module name of this entry.
    pub fn name(&self) -> (r: &str)
        ensures
            r@ == entry_name(self@),
    {
        match self {
            ModuleEntry::Simple(name) => name.as_str(),
            ModuleEntry::Full { name, .. } => name.as_str(),
        }
    }

    /// The argument string of this entry; empty for the bare form.
    pub fn args(&self) -> (r: &str)
        ensures
            r@ == entry_args(self@),
    {
        proof {
            reveal_strlit("");
        }
        match self {
            ModuleEntry::Simple(..) => "",
            ModuleEntry::Full { args, .. } => args.as_str(),
        }
    }
}

/// The `[autostart]` table of the configuration.
#[derive(Debug, Clone)]
pub struct AutostartConfig {
    pub enabled: bool,
    pub minimized: bool,
    pub modules: Vec<ModuleEntry>,
}

/// The mathematical value of an [`AutostartConfig`].
#[verifier::ext_equal]
pub struct AutostartConfigV {
    pub enabled: bool,
    pub minimized: bool,
    pub modules: Seq<ModuleEntryV>,
}

impl View for AutostartConfig {
    type V = AutostartConfigV;

    open spec fn view(&self) -> AutostartConfigV {
        AutostartConfigV {
            enabled: self.enabled,
            minimized: self.minimized,
            modules: self.modules.deep_view(),
        }
    }
}

/// The user configuration the supervisor loads once at startup.
#[derive(Debug, Clone)]
pub struct UserConfig {
    pub port: u16,
    pub discovery_paths: Vec<String>,
    pub autostart: AutostartConfig,
}

/// The mathematical value of a [`UserConfig`].
#[verifier::ext_equal]
pub struct UserConfigV {
    pub port: u16,
    pub discovery_paths: Seq<Seq<char>>,
    pub autostart: AutostartConfigV,
}

impl View for UserConfig {
    type V = UserConfigV;

    open spec fn view(&self) -> UserConfigV {
        UserConfigV {
            port: self.port,
            discovery_paths: self.discovery_paths.deep_view(),
            autostart: self.autostart@,
        }
    }
}

/// Whether the session runs under Wayland, judged from `XDG_SESSION_TYPE`
/// and the presence of `WAYLAND_DISPLAY`.
pub fn is_wayland(session_type: Option<&String>, wayland_display_set: bool) -> (r: bool)
    ensures
        r == (match session_type {
            Some(s) => s@ == "wayland"@,
            None => false,
        } || wayland_display_set),
{
    let by_session = match session_type {
        Some(s) => crate::text::str_eq(s.as_str(), "wayland"),
        None => false,
    };
    by_session || wayland_display_set
}

/// The default module list: `aw-awatcher` on Linux under Wayland, the afk and
/// window watchers otherwise, and always `aw-sync` with args `daemon`.
pub open spec fn default_modules_spec(platform: Platform, wayland: bool) -> Seq<ModuleEntryV> {
    let sync = ModuleEntryV::Full { name: "aw-sync"@, args: "daemon"@ };
    if platform == Platform::Linux && wayland {
        seq![ModuleEntryV::Simple("aw-awatcher"@), sync]
    } else {
        seq![
            ModuleEntryV::Simple("aw-watcher-afk"@),
            ModuleEntryV::Simple("aw-watcher-window"@),
            sync,
        ]
    }
}

/// Builds the default module list for the platform and display server.
pub fn default_modules(platform: Platform, wayland: bool) -> (r: Vec<ModuleEntry>)
    ensures
        r.deep_view() == default_modules_spec(platform, wayland),
{
    let mut out: Vec<ModuleEntry> = Vec::new();
    if matches!(platform, Platform::Linux) && wayland {
        out.push(ModuleEntry::Simple(String::from_str("aw-awatcher")));
    } else {
        out.push(ModuleEntry::Simple(String::from_str("aw-watcher-afk")));
        out.push(ModuleEntry::Simple(String::from_str("aw-watcher-window")));
    }
    out.push(
        ModuleEntry::Full { name: String::from_str("aw-sync"), args: String::from_str("daemon") },
    );
    proof {
        assert(out.deep_view() =~= default_modules_spec(platform, wayland));
    }
    out
}

/// The default configuration written on first run.
pub open spec fn default_config_spec(
    platform: Platform,
    wayland: bool,
    discovery_paths: Seq<Seq<char>>,
) -> UserConfigV {
    UserConfigV {
        port: crate::DEFAULT_PORT,
        discovery_paths: discovery_paths,
        autostart: AutostartConfigV {
            enabled: true,
            minimized: true,
            modules: default_modules_spec(platform, wayland),
        },
    }
}

/// Builds the default configuration: port 5600, the given discovery roots,
/// autostart enabled and minimized, and the platform's default modules.
pub fn default_config(platform: Platform, wayland: bool, discovery_paths: Vec<String>) -> (r:
    UserConfig)
    ensures
        r@ == default_config_spec(platform, wayland, discovery_paths.deep_view()),
{
    UserConfig {
        port: crate::DEFAULT_PORT,
        discovery_paths,
        autostart: AutostartConfig {
            enabled: true,
            minimized: true,
            modules: default_modules(platform, wayland),
        },
    }
}

/// `true` or `false` as written in the configuration file.
pub open spec fn bool_seq(b: bool) -> Seq<char> {
    if b {
        "true"@
    } else {
        "false"@
    }
}

/// The text of a boolean value.
pub fn bool_str(b: bool) -> (r: &'static str)
    ensures
        r@ == bool_seq(b),
{
    if b {
        "true"
    } else {
        "false"
    }
}

/// One written discovery-path line: two spaces, the quoted path, a comma.
pub open spec fn path_line(p: Seq<char>) -> Seq<char> {
    "  \""@ + p + "\",\n"@
}

/// All discovery-path lines in order.
pub open spec fn path_lines(ps: Seq<Seq<char>>) -> Seq<char>
    decreases ps.len(),
{
    if ps.len() == 0 {
        Seq::empty()
    } else {
        path_lines(ps.drop_last()) + path_line(ps.last())
    }
}

/// The written `discovery_paths` value, brackets included: multi-line when
/// non-empty, `]` closing on its own line; `[]` when empty.
pub open spec fn paths_block(ps: Seq<Seq<char>>) -> Seq<char> {
    if ps.len() > 0 {
        "["@ + "\n"@ + path_lines(ps) + "]"@
    } else {
        "[]\n"@
    }
}

/// One written module entry, without its line ending: the quoted name for the
/// bare form, an inline table for the full form.
pub open spec fn entry_text(m: ModuleEntryV) -> Seq<char> {
    match m {
        ModuleEntryV::Simple(name) => "  \""@ + name + "\""@,
        ModuleEntryV::Full { name, args } => "  { name = \""@ + name + "\", args = \""@ + args
            + "\" }"@,
    }
}

/// Module entries each followed by a comma and newline.
pub open spec fn entry_lines(ms: Seq<ModuleEntryV>) -> Seq<char>
    decreases ms.len(),
{
    if ms.len() == 0 {
        Seq::empty()
    } else {
        entry_lines(ms.drop_last()) + entry_text(ms.last()) + ",\n"@
    }
}

/// The written `modules` list body: every entry on its own line, a comma
/// after each but the last.
pub open spec fn modules_block(ms: Seq<ModuleEntryV>) -> Seq<char> {
    if ms.len() == 0 {
        Seq::empty()
    } else {
        entry_lines(ms.drop_last()) + entry_text(ms.last()) + "\n"@
    }
}

/// The exact text the supervisor writes for a configuration.
pub open spec fn format_config_spec(c: UserConfigV) -> Seq<char> {
    "port = "@ + dec_str(c.port as nat) + "\n"@ + "discovery_paths = "@ + paths_block(
        c.discovery_paths,
    ) + "\n\n"@ + "[autostart]\n"@ + "enabled = "@ + bool_seq(c.autostart.enabled) + "\n"@
        + "minimized = "@ + bool_seq(c.autostart.minimized) + "\n"@ + "modules = [\n"@
        + modules_block(c.autostart.modules) + "]\n"@
}

/// Appends every discovery-path line to `out`.
fn push_path_lines(ps: &Vec<String>, out: &mut String)
    ensures
        final(out)@ == old(out)@ + path_lines(ps.deep_view()),
{
    let mut i: usize = 0;
    while i < ps.len()
        invariant
            0 <= i <= ps.len(),
            out@ == old(out)@ + path_lines(ps.deep_view().take(i as int)),
        decreases ps.len() - i,
    {
        out.append("  \"");
        out.append(ps[i].as_str());
        out.append("\",\n");
        proof {
            let pv = ps.deep_view();
            assert(pv.take(i + 1).drop_last() =~= pv.take(i as int));
            assert(pv.take(i + 1).last() == pv[i as int]);
            assert(out@ =~= old(out)@ + path_lines(pv.take(i + 1)));
        }
        i += 1;
    }
    proof {
        assert(ps.deep_view().take(ps@.len() as int) =~= ps.deep_view());
    }
}

/// Appends one module entry, without its line ending.
fn push_entry(m: &ModuleEntry, out: &mut String)
    ensures
        final(out)@ == old(out)@ + entry_text(m@),
{
    match m {
        ModuleEntry::Simple(name) => {
            out.append("  \"");
            out.append(name.as_str());
            out.append("\"");
        },
        ModuleEntry::Full { name, args } => {
            out.append("  { name = \"");
            out.append(name.as_str());
            out.append("\", args = \"");
            out.append(args.as_str());
            out.append("\" }");
        },
    }
    proof {
        assert(out@ =~= old(out)@ + entry_text(m@));
    }
}

/// Appends the `modules` list body to `out`.
fn push_modules_block(ms: &Vec<ModuleEntry>, out: &mut String)
    ensures
        final(out)@ == old(out)@ + modules_block(ms.deep_view()),
{
    let n = ms.len();
    if n == 0 {
        proof {
            assert(out@ =~= old(out)@ + modules_block(ms.deep_view()));
        }
        return ;
    }
    let mut i: usize = 0;
    while i + 1 < n
        invariant
            n == ms@.len(),
            1 <= n,
            0 <= i <= n - 1,
            out@ == old(out)@ + entry_lines(ms.deep_view().take(i as int)),
        decreases n - i,
    {
        push_entry(&ms[i], out);
        out.append(",\n");
        proof {
            let mv = ms.deep_view();
            assert(mv.take(i + 1).drop_last() =~= mv.take(i as int));
            assert(mv.take(i + 1).last() == mv[i as int]);
            assert(out@ =~= old(out)@ + entry_lines(mv.take(i + 1)));
        }
        i += 1;
    }
    push_entry(&ms[n - 1], out);
    out.append("\n");
    proof {
        let mv = ms.deep_view();
        assert(mv.take(n - 1) =~= mv.drop_last());
        assert(mv.last() == mv[n - 1]);
        assert(out@ =~= old(out)@ + modules_block(mv));
    }
}

/// Renders a configuration exactly as the supervisor persists it.
pub fn format_config(c: &UserConfig) -> (r: String)
    ensures
        r@ == format_config_spec(c@),
{
    let mut out = String::new();
    out.append("port = ");
    let port_str = u16_to_string(c.port);
    out.append(port_str.as_str());
    out.append("\n");
    out.append("discovery_paths = ");
    if c.discovery_paths.len() > 0 {
        out.append("[");
        out.append("\n");
        push_path_lines(&c.discovery_paths, &mut out);
        out.append("]");
    } else {
        out.append("[]\n");
    }
    out.append("\n\n");
    out.append("[autostart]\n");
    out.append("enabled = ");
    out.append(bool_str(c.autostart.enabled));
    out.append("\n");
    out.append("minimized = ");
    out.append(bool_str(c.autostart.minimized));
    out.append("\n");
    out.append("modules = [\n");
    push_modules_block(&c.autostart.modules, &mut out);
    out.append("]\n");
    proof {
        assert(c.discovery_paths.deep_view().len() == c.discovery_paths@.len());
        assert(out@ =~= format_config_spec(c@));
    }
    out
}

} // verus!
