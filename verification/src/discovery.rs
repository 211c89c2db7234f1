//! Module discovery: a depth-first walk over the search roots with cycle
//! protection.
//!
//! The walk itself is split from the filesystem: [`DiscoveryState`] keeps
//! the stack of directories still to visit, the visited set keyed by
//! canonical path, and the modules found so far; the caller reads
//! directories and feeds each entry in. [`discover_modules`] drives the same
//! state over an in-memory filesystem model and terminates for every model,
//! symlink cycles included, because no directory is entered twice.
//!
//! A candidate is accepted when its name begins with `aw-` and, on Unix, it
//! is a regular file or symlink without an extension and with an executable
//! bit; on Windows, a regular `.exe` file, stored under its lower-cased
//! stem. Directories beginning with `aw-` are descended into. A fixed list
//! excludes the supervisor itself and its non-module siblings. The first
//! root that yields a name keeps it: later occurrences do not replace it.

use vstd::prelude::*;
use vstd::string::StrSliceExecFns;
use crate::dirs::Platform;
use crate::manager::DiscoveredModule;
use crate::manager::DiscoveredModuleV;
use crate::text::contains_seq;
use crate::text::contains_str;
use crate::text::ends_with_seq;
use crate::text::ends_with_str;
use crate::text::starts_with_seq;
use crate::text::starts_with_str;
use crate::text::str_eq;

verus! {

/// What a directory entry is, as the caller's metadata query reported it.
#[derive(Clone, Copy, PartialEq, Eq, Structural)]
pub enum EntryKind {
    Dir,
    File,
    Symlink,
    Other,
}

/// The names that are never modules: the supervisor itself and the
/// non-module siblings of the ActivityWatch distribution.
pub open spec fn is_excluded(name: Seq<char>) -> bool {
    ||| name == "aw-tauri"@
    ||| name == "aw-client"@
    ||| name == "aw-cli"@
    ||| name == "aw-qt"@
    ||| name == "aw-server"@
    ||| name == "aw-server-rust"@
    ||| name == "awk"@
}

/// Whether the name stands on the exclusion list.
pub fn excluded(name: &str) -> (r: bool)
    ensures
        r == is_excluded(name@),
{
    str_eq(name, "aw-tauri") || str_eq(name, "aw-client") || str_eq(name, "aw-cli") || str_eq(
        name,
        "aw-qt",
    ) || str_eq(name, "aw-server") || str_eq(name, "aw-server-rust") || str_eq(name, "awk")
}

/// What the walk does with one directory entry.
#[derive(Clone, Copy, PartialEq, Eq, Structural)]
pub enum Verdict {
    /// A directory beginning with `aw-`: descend into it.
    PushDir,
    /// An accepted module candidate.
    Accept,
    /// Anything else: ignore it.
    Skip,
}

/// The Unix candidate rule.
pub open spec fn unix_verdict_spec(name: Seq<char>, kind: EntryKind, exec_bit: bool) -> Verdict {
    if !starts_with_seq(name, "aw-"@) {
        Verdict::Skip
    } else if kind == EntryKind::Dir {
        Verdict::PushDir
    } else if kind == EntryKind::File || kind == EntryKind::Symlink {
        if contains_seq(name, "."@) || is_excluded(name) {
            Verdict::Skip
        } else if exec_bit {
            Verdict::Accept
        } else {
            Verdict::Skip
        }
    } else {
        Verdict::Skip
    }
}

/// What `str::to_lowercase` yields for a string: its Unicode lower-casing.
pub uninterp spec fn lower_of(s: Seq<char>) -> Seq<char>;

/// Relies on `str::to_lowercase`: the Unicode lower-casing of the string, a
/// function of its characters alone.
#[verifier::external_body]
fn to_lowercase(s: &str) -> (r: String)
    ensures
        r@ == lower_of(s@),
{
    s.to_lowercase()
}

/// The Windows candidate rule.
pub open spec fn win_verdict_spec(name: Seq<char>, kind: EntryKind) -> Verdict {
    if !starts_with_seq(name, "aw-"@) {
        Verdict::Skip
    } else if kind == EntryKind::Dir {
        Verdict::PushDir
    } else if kind == EntryKind::File && ends_with_seq(name, ".exe"@) && !is_excluded(
        win_stored_name(name),
    ) {
        Verdict::Accept
    } else {
        Verdict::Skip
    }
}

/// The name a Windows candidate is stored under: the lower-cased stem.
pub open spec fn win_stored_name(name: Seq<char>) -> Seq<char> {
    lower_of(name.take(name.len() - 4))
}

/// The candidate rule of the platform; macOS follows the Unix rule.
pub open spec fn verdict_spec(
    platform: Platform,
    name: Seq<char>,
    kind: EntryKind,
    exec_bit: bool,
) -> Verdict {
    match platform {
        Platform::Windows => win_verdict_spec(name, kind),
        _ => unix_verdict_spec(name, kind, exec_bit),
    }
}

/// The name an accepted candidate is stored under.
pub open spec fn stored_name_spec(platform: Platform, name: Seq<char>) -> Seq<char> {
    match platform {
        Platform::Windows => win_stored_name(name),
        _ => name,
    }
}

/// A path stands in the list.
pub open spec fn in_list(l: Seq<Seq<char>>, p: Seq<char>) -> bool {
    exists|i: int| 0 <= i < l.len() && #[trigger] l[i] == p
}

/// A found module with this name exists.
pub open spec fn found_has(fs: Seq<DiscoveredModuleV>, name: Seq<char>) -> bool {
    crate::manager::disc_has(fs, name)
}

/// The walk state: directories still to visit, canonical paths already
/// claimed, and the modules found.
pub struct DiscoveryState {
    pub platform: Platform,
    pub stack: Vec<String>,
    pub visited: Vec<String>,
    pub found: Vec<DiscoveredModule>,
}

/// The mathematical value of a [`DiscoveryState`].
pub struct DiscoveryStateV {
    pub platform: Platform,
    pub stack: Seq<Seq<char>>,
    pub visited: Seq<Seq<char>>,
    pub found: Seq<DiscoveredModuleV>,
}

impl View for DiscoveryState {
    type V = DiscoveryStateV;

    open spec fn view(&self) -> DiscoveryStateV {
        DiscoveryStateV {
            platform: self.platform,
            stack: self.stack.deep_view(),
            visited: self.visited.deep_view(),
            found: self.found.deep_view(),
        }
    }
}

impl DiscoveryState {
    /// A fresh walk over the given roots, in order: the first root is
    /// visited first, so on a name collision the earliest root wins.
    pub fn new(platform: Platform, roots: Vec<String>) -> (r: DiscoveryState)
        ensures
            r@.platform == platform,
            r@.stack == roots.deep_view().reverse(),
            r@.visited == Seq::<Seq<char>>::empty(),
            r@.found == Seq::<DiscoveredModuleV>::empty(),
    {
        let mut stack: Vec<String> = Vec::new();
        let n = roots.len();
        let mut i: usize = 0;
        while i < n
            invariant
                n == roots@.len(),
                0 <= i <= n,
                stack@.len() == i,
                forall|j: int| 0 <= j < i ==> #[trigger] stack@[j]@ == roots@[n - 1 - j]@,
        decreases n - i,
        {
            let c = roots[n - 1 - i].clone();
            assert(c@ == roots@[n - 1 - i as int]@);
            stack.push(c);
            i += 1;
        }
        let r = DiscoveryState { platform, stack, visited: Vec::new(), found: Vec::new() };
        proof {
            assert(r@.stack =~= roots.deep_view().reverse());
            assert(r@.visited =~= Seq::<Seq<char>>::empty());
            assert(r@.found =~= Seq::<DiscoveredModuleV>::empty());
        }
        r
    }

    /// Whether this canonical path was already claimed.
    fn is_visited(&self, p: &str) -> (r: bool)
        ensures
            r == in_list(self@.visited, p@),
    {
        let mut i: usize = 0;
        while i < self.visited.len()
            invariant
                0 <= i <= self.visited.len(),
                forall|j: int| 0 <= j < i ==> #[trigger] self@.visited[j] != p@,
            decreases self.visited.len() - i,
        {
            if str_eq(self.visited[i].as_str(), p) {
                proof {
                    assert(self@.visited[i as int] == p@);
                }
                return true;
            }
            i += 1;
        }
        proof {
            if in_list(self@.visited, p@) {
                let j = choose|j: int|
                    0 <= j < self@.visited.len() && #[trigger] self@.visited[j] == p@;
            }
        }
        false
    }

    /// Takes the next directory to enter: already-claimed entries come off
    /// the stack until a fresh one surfaces — the last element of the stack
    /// not yet in the visited set — which is claimed and returned with the
    /// stack truncated below it. `None` comes only when every stacked
    /// directory was already claimed, so none is ever silently dropped.
    pub fn next_dir(&mut self) -> (r: Option<String>)
        ensures
            final(self)@.platform == old(self)@.platform,
            final(self)@.found == old(self)@.found,
            r matches Some(d) ==> {
                let k = final(self)@.stack.len() as int;
                &&& k < old(self)@.stack.len()
                &&& final(self)@.stack == old(self)@.stack.take(k)
                &&& d@ == old(self)@.stack[k]
                &&& !in_list(old(self)@.visited, d@)
                &&& final(self)@.visited == old(self)@.visited.push(d@)
                &&& forall|j: int|
                    k < j < old(self)@.stack.len() ==> in_list(
                        old(self)@.visited,
                        #[trigger] old(self)@.stack[j],
                    )
            },
            r is None ==> {
                &&& final(self)@.stack.len() == 0
                &&& final(self)@.visited == old(self)@.visited
                &&& forall|j: int|
                    0 <= j < old(self)@.stack.len() ==> in_list(
                        old(self)@.visited,
                        #[trigger] old(self)@.stack[j],
                    )
            },
    {
        loop
            invariant
                self.platform == old(self).platform,
                self@.found == old(self)@.found,
                self@.visited == old(self)@.visited,
                self@.stack.len() <= old(self)@.stack.len(),
                self@.stack == old(self)@.stack.take(self@.stack.len() as int),
                forall|j: int|
                    self@.stack.len() <= j < old(self)@.stack.len() ==> in_list(
                        old(self)@.visited,
                        #[trigger] old(self)@.stack[j],
                    ),
            decreases self@.stack.len(),
        {
            let ghost pre_stack = self@.stack;
            let ghost pre_len = self@.stack.len() as int;
            let popped = self.stack.pop();
            match popped {
                Some(d) => {
                    proof {
                        assert(self@.stack =~= pre_stack.drop_last());
                        assert(d@ == pre_stack.last());
                        assert(pre_stack =~= old(self)@.stack.take(pre_len));
                        assert(pre_stack.last() == old(self)@.stack.take(pre_len)[pre_len - 1]);
                        assert(old(self)@.stack.take(pre_len)[pre_len - 1] == old(
                            self,
                        )@.stack[pre_len - 1]);
                        assert(self@.stack =~= old(self)@.stack.take(self@.stack.len() as int));
                    }
                    if !self.is_visited(d.as_str()) {
                        self.visited.push(d.clone());
                        proof {
                            assert(self@.visited =~= old(self)@.visited.push(d@));
                        }
                        return Some(d);
                    }
                },
                None => {
                    return None;
                },
            }
        }
    }

    /// Feeds one directory entry of the directory just entered. `name` is
    /// the entry's file name, `canon` its canonical path — pushed when the
    /// verdict is to descend — and `path` the path stored for an accepted
    /// candidate. The first accepted occurrence of a name keeps its path.
    pub fn offer_entry(&mut self, name: &str, kind: EntryKind, exec_bit: bool, canon: &str, path:
        &str)
        ensures
            final(self)@.platform == old(self)@.platform,
            final(self)@.visited == old(self)@.visited,
            verdict_spec(old(self)@.platform, name@, kind, exec_bit) == Verdict::PushDir ==> {
                &&& final(self)@.stack == old(self)@.stack.push(canon@)
                &&& final(self)@.found == old(self)@.found
            },
            verdict_spec(old(self)@.platform, name@, kind, exec_bit) == Verdict::Skip ==> {
                &&& final(self)@.stack == old(self)@.stack
                &&& final(self)@.found == old(self)@.found
            },
            verdict_spec(old(self)@.platform, name@, kind, exec_bit) == Verdict::Accept ==> {
                &&& final(self)@.stack == old(self)@.stack
                &&& (found_has(old(self)@.found, stored_name_spec(old(self)@.platform, name@))
                    ==> final(self)@.found == old(self)@.found)
                &&& (!found_has(old(self)@.found, stored_name_spec(old(self)@.platform, name@))
                    ==> final(self)@.found == old(self)@.found.push(
                    DiscoveredModuleV {
                        name: stored_name_spec(old(self)@.platform, name@),
                        path: path@,
                    },
                ))
            },
    {
        if !starts_with_str(name, "aw-") {
            return ;
        }
        if matches!(kind, EntryKind::Dir) {
            self.stack.push(String::from_str(canon));
            proof {
                assert(self@.stack =~= old(self)@.stack.push(canon@));
            }
            return ;
        }
        match self.platform {
            Platform::Windows => {
                if matches!(kind, EntryKind::File) && ends_with_str(name, ".exe") {
                    let len = name.unicode_len();
                    proof {
                        reveal_strlit(".exe");
                        assert(name@.len() >= 4);
                    }
                    let stem = name.substring_char(0, len - 4);
                    proof {
                        assert(stem@ =~= name@.take(name@.len() - 4));
                    }
                    let stored = to_lowercase(stem);
                    if !excluded(stored.as_str()) {
                        self.insert_found(stored, path);
                    }
                }
            },
            _ => {
                if (matches!(kind, EntryKind::File) || matches!(kind, EntryKind::Symlink))
                    && !contains_str(name, ".") && !excluded(name) && exec_bit {
                    self.insert_found(String::from_str(name), path);
                }
            },
        }
    }

    /// Records an accepted candidate unless its name was already found.
    fn insert_found(&mut self, name: String, path: &str)
        ensures
            final(self)@ == (DiscoveryStateV {
                found: if found_has(old(self)@.found, name@) {
                    old(self)@.found
                } else {
                    old(self)@.found.push(DiscoveredModuleV { name: name@, path: path@ })
                },
                ..old(self)@
            }),
    {
        let mut i: usize = 0;
        while i < self.found.len()
            invariant
                self == old(self),
                0 <= i <= self.found.len(),
                forall|j: int| 0 <= j < i ==> #[trigger] self@.found[j].name != name@,
            decreases self.found.len() - i,
        {
            if str_eq(self.found[i].name.as_str(), name.as_str()) {
                proof {
                    assert(self@.found[i as int].name == name@);
                    assert(found_has(old(self)@.found, name@));
                }
                return ;
            }
            i += 1;
        }
        proof {
            if found_has(self@.found, name@) {
                let j = choose|j: int|
                    0 <= j < self@.found.len() && #[trigger] self@.found[j].name == name@;
            }
        }
        self.found.push(DiscoveredModule { name, path: String::from_str(path) });
        proof {
            assert(self@.found =~= old(self)@.found.push(
                DiscoveredModuleV { name: name@, path: path@ },
            ));
            assert(self@ =~= (DiscoveryStateV {
                found: old(self)@.found.push(DiscoveredModuleV { name: name@, path: path@ }),
                ..old(self)@
            }));
        }
    }

    /// Hands the found modules over, names unique by construction.
    pub fn into_found(self) -> (r: Vec<DiscoveredModule>)
        requires
            crate::manager::disc_names_unique(self@.found),
        ensures
            r.deep_view() == self@.found,
    {
        self.found
    }
}

/// One directory entry of the filesystem model.
pub struct FsEntry {
    pub name: String,
    pub kind: EntryKind,
    pub exec_bit: bool,
    pub canon: String,
    pub path: String,
}

/// One directory of the filesystem model, keyed by its canonical path.
pub struct FsDir {
    pub path: String,
    pub entries: Vec<FsEntry>,
}

/// An in-memory filesystem: the directories the walk can enter. Symlink
/// cycles appear as entries whose canonical path is a directory already in
/// the model.
pub struct FsModel {
    pub dirs: Vec<FsDir>,
}

impl FsModel {
    /// The index of the first directory with this canonical path.
    fn lookup(&self, path: &str) -> (r: Option<usize>)
        ensures
            r matches Some(i) ==> i < self.dirs.len() && self.dirs@[i as int].path@ == path@ && (
            forall|j: int| 0 <= j < i ==> #[trigger] self.dirs@[j].path@ != path@),
            r is None ==> forall|j: int|
                0 <= j < self.dirs@.len() ==> #[trigger] self.dirs@[j].path@ != path@,
    {
        let mut i: usize = 0;
        while i < self.dirs.len()
            invariant
                0 <= i <= self.dirs.len(),
                forall|j: int| 0 <= j < i ==> #[trigger] self.dirs@[j].path@ != path@,
            decreases self.dirs.len() - i,
        {
            if str_eq(self.dirs[i].path.as_str(), path) {
                return Some(i);
            }
            i += 1;
        }
        None
    }
}

/// How many model directories are not yet visited.
pub open spec fn count_unvisited(dirs: Seq<Seq<char>>, visited: Seq<Seq<char>>) -> nat
    decreases dirs.len(),
{
    if dirs.len() == 0 {
        0
    } else {
        let here: nat = if in_list(visited, dirs.last()) {
            0
        } else {
            1
        };
        count_unvisited(dirs.drop_last(), visited) + here
    }
}

/// Claiming one more path never raises the count, and claiming a fresh
/// model path strictly lowers it.
proof fn lemma_count_unvisited_push(dirs: Seq<Seq<char>>, visited: Seq<Seq<char>>, p: Seq<char>)
    ensures
        count_unvisited(dirs, visited.push(p)) <= count_unvisited(dirs, visited),
        in_list(dirs, p) && !in_list(visited, p) ==> count_unvisited(dirs, visited.push(p))
            < count_unvisited(dirs, visited),
    decreases dirs.len(),
{
    if dirs.len() > 0 {
        let prior = dirs.drop_last();
        assert forall|q: Seq<char>| in_list(visited, q) implies in_list(visited.push(p), q) by {
            let i = choose|i: int| 0 <= i < visited.len() && #[trigger] visited[i] == q;
            assert(visited.push(p)[i] == q);
        }
        if in_list(dirs, p) && !in_list(visited, p) {
            let k = choose|k: int| 0 <= k < dirs.len() && #[trigger] dirs[k] == p;
            if k == dirs.len() - 1 {
                lemma_count_unvisited_push(prior, visited, p);
                assert(in_list(visited.push(p), p)) by {
                    assert(visited.push(p)[visited.len() as int] == p);
                }
            } else {
                assert(prior[k] == p);
                assert(in_list(prior, p));
                lemma_count_unvisited_push(prior, visited, p);
            }
        } else {
            lemma_count_unvisited_push(prior, visited, p);
        }
    }
}

/// The canonical paths of the model's directories.
pub open spec fn model_paths(m: FsModel) -> Seq<Seq<char>> {
    Seq::new(m.dirs@.len(), |i: int| m.dirs@[i].path@)
}

/// The index of the first model directory with this path, or `-1`.
pub open spec fn dir_idx_at(dirs: Seq<FsDir>, p: Seq<char>, i: int) -> int
    decreases dirs.len() - i,
{
    if i >= dirs.len() {
        -1
    } else if dirs[i].path@ == p {
        i
    } else {
        dir_idx_at(dirs, p, i + 1)
    }
}

/// The entries of the directory at this path, when the model holds one.
pub open spec fn dir_entries(fs: FsModel, p: Seq<char>) -> Option<Seq<FsEntry>> {
    let k = dir_idx_at(fs.dirs@, p, 0);
    if k < 0 {
        None
    } else {
        Some(fs.dirs@[k].entries@)
    }
}

/// `p` is found at `k`, and nowhere before `k` at or after `from`.
proof fn lemma_dir_idx_hit(dirs: Seq<FsDir>, p: Seq<char>, from: int, k: int)
    requires
        0 <= from <= k < dirs.len(),
        dirs[k].path@ == p,
        forall|j: int| from <= j < k ==> #[trigger] dirs[j].path@ != p,
    ensures
        dir_idx_at(dirs, p, from) == k,
    decreases k - from,
{
    if from < k {
        lemma_dir_idx_hit(dirs, p, from + 1, k);
    }
}

/// `p` is nowhere at or after `from`.
proof fn lemma_dir_idx_miss(dirs: Seq<FsDir>, p: Seq<char>, from: int)
    requires
        0 <= from,
        forall|j: int| from <= j < dirs.len() ==> #[trigger] dirs[j].path@ != p,
    ensures
        dir_idx_at(dirs, p, from) == -1,
    decreases dirs.len() - from,
{
    if from < dirs.len() {
        lemma_dir_idx_miss(dirs, p, from + 1);
    }
}

/// The verdict of one model entry.
pub open spec fn entry_verdict(platform: Platform, e: FsEntry) -> Verdict {
    verdict_spec(platform, e.name@, e.kind, e.exec_bit)
}

/// Directory `a` holds an entry the walk descends through into `b`.
pub open spec fn links_to(platform: Platform, fs: FsModel, a: Seq<char>, b: Seq<char>) -> bool {
    match dir_entries(fs, a) {
        Some(es) => exists|i: int|
            0 <= i < es.len() && entry_verdict(platform, #[trigger] es[i]) == Verdict::PushDir
                && es[i].canon@ == b,
        None => false,
    }
}

/// A descent chain: it begins at a root and each step descends.
pub open spec fn chain_ok(
    platform: Platform,
    fs: FsModel,
    roots: Seq<Seq<char>>,
    chain: Seq<Seq<char>>,
) -> bool {
    &&& chain.len() >= 1
    &&& in_list(roots, chain[0])
    &&& forall|i: int|
        0 <= i < chain.len() - 1 ==> links_to(platform, fs, #[trigger] chain[i], chain[i + 1])
}

/// `p` can be reached from the roots through descend verdicts.
pub open spec fn reachable(
    platform: Platform,
    fs: FsModel,
    roots: Seq<Seq<char>>,
    p: Seq<char>,
) -> bool {
    exists|chain: Seq<Seq<char>>| chain_ok(platform, fs, roots, chain) && chain.last() == p
}

/// The directory at `p` holds an accepted candidate stored under `n`.
pub open spec fn accepts_name(platform: Platform, fs: FsModel, p: Seq<char>, n: Seq<char>) -> bool {
    match dir_entries(fs, p) {
        Some(es) => exists|i: int|
            0 <= i < es.len() && entry_verdict(platform, #[trigger] es[i]) == Verdict::Accept
                && stored_name_spec(platform, es[i].name@) == n,
        None => false,
    }
}

/// The directory at `p` holds an accepted candidate with exactly this
/// stored name and path.
pub open spec fn accepts_module(
    platform: Platform,
    fs: FsModel,
    p: Seq<char>,
    m: DiscoveredModuleV,
) -> bool {
    match dir_entries(fs, p) {
        Some(es) => exists|i: int|
            0 <= i < es.len() && entry_verdict(platform, #[trigger] es[i]) == Verdict::Accept
                && stored_name_spec(platform, es[i].name@) == m.name && es[i].path@ == m.path,
        None => false,
    }
}

/// A module with this name stands in some reachable directory.
pub open spec fn model_has_module(
    platform: Platform,
    fs: FsModel,
    roots: Seq<Seq<char>>,
    n: Seq<char>,
) -> bool {
    exists|p: Seq<char>|
        #[trigger] reachable(platform, fs, roots, p) && accepts_name(platform, fs, p, n)
}

/// A found module is justified: some reachable directory holds an accepted
/// entry with its name and path.
pub open spec fn found_ok(
    platform: Platform,
    fs: FsModel,
    roots: Seq<Seq<char>>,
    m: DiscoveredModuleV,
) -> bool {
    exists|p: Seq<char>|
        #[trigger] reachable(platform, fs, roots, p) && accepts_module(platform, fs, p, m)
}

/// One entry of a claimed directory has been carried out: a descend target
/// stands in the visited set or on the stack, an accepted name stands in
/// the found list.
pub open spec fn entry_done(platform: Platform, st: DiscoveryStateV, e: FsEntry) -> bool {
    &&& (entry_verdict(platform, e) == Verdict::PushDir ==> in_list(st.visited, e.canon@)
        || in_list(st.stack, e.canon@))
    &&& (entry_verdict(platform, e) == Verdict::Accept ==> found_has(
        st.found,
        stored_name_spec(platform, e.name@),
    ))
}

/// Every entry of the directory at `p` has been carried out.
pub open spec fn dir_done(platform: Platform, fs: FsModel, st: DiscoveryStateV, p: Seq<char>) -> bool {
    match dir_entries(fs, p) {
        Some(es) => forall|i: int| 0 <= i < es.len() ==> entry_done(platform, st, #[trigger] es[i]),
        None => true,
    }
}

/// Reaching one step further keeps reachability.
proof fn lemma_reach_step(
    platform: Platform,
    fs: FsModel,
    roots: Seq<Seq<char>>,
    a: Seq<char>,
    b: Seq<char>,
)
    requires
        reachable(platform, fs, roots, a),
        links_to(platform, fs, a, b),
    ensures
        reachable(platform, fs, roots, b),
{
    let chain = choose|chain: Seq<Seq<char>>|
        chain_ok(platform, fs, roots, chain) && chain.last() == a;
    let chain2 = chain.push(b);
    assert(chain2[0] == chain[0]);
    assert forall|i: int| 0 <= i < chain2.len() - 1 implies links_to(
        platform,
        fs,
        #[trigger] chain2[i],
        chain2[i + 1],
    ) by {
        if i < chain.len() - 1 {
            assert(chain2[i] == chain[i] && chain2[i + 1] == chain[i + 1]);
        } else {
            assert(chain2[i] == chain.last() && chain2[i + 1] == b);
        }
    }
    assert(chain_ok(platform, fs, roots, chain2) && chain2.last() == b);
}

/// Once the stack is empty and every claimed directory is carried out,
/// every reachable directory has been claimed.
proof fn lemma_chain_visited(
    platform: Platform,
    fs: FsModel,
    roots: Seq<Seq<char>>,
    st: DiscoveryStateV,
    chain: Seq<Seq<char>>,
)
    requires
        st.stack.len() == 0,
        forall|j: int| 0 <= j < roots.len() ==> in_list(st.visited, #[trigger] roots[j]),
        forall|j: int|
            0 <= j < st.visited.len() ==> dir_done(platform, fs, st, #[trigger] st.visited[j]),
        chain_ok(platform, fs, roots, chain),
    ensures
        in_list(st.visited, chain.last()),
    decreases chain.len(),
{
    if chain.len() == 1 {
        let j = choose|j: int| 0 <= j < roots.len() && #[trigger] roots[j] == chain[0];
        assert(in_list(st.visited, roots[j]));
    } else {
        let pre = chain.drop_last();
        assert(pre[0] == chain[0]);
        assert forall|i: int| 0 <= i < pre.len() - 1 implies links_to(
            platform,
            fs,
            #[trigger] pre[i],
            pre[i + 1],
        ) by {
            assert(pre[i] == chain[i] && pre[i + 1] == chain[i + 1]);
        }
        lemma_chain_visited(platform, fs, roots, st, pre);
        let a = pre.last();
        assert(a == chain[chain.len() - 2]);
        let jv = choose|j: int| 0 <= j < st.visited.len() && #[trigger] st.visited[j] == a;
        assert(dir_done(platform, fs, st, a));
        assert(links_to(platform, fs, a, chain.last())) by {
            assert(chain[chain.len() - 2] == a);
        }
        let es = dir_entries(fs, a)->0;
        let i = choose|i: int|
            0 <= i < es.len() && entry_verdict(platform, #[trigger] es[i]) == Verdict::PushDir
                && es[i].canon@ == chain.last();
        assert(entry_done(platform, st, es[i]));
        if in_list(st.stack, es[i].canon@) {
            let t = choose|t: int| 0 <= t < st.stack.len() && #[trigger] st.stack[t] == es[i].canon@;
        }
    }
}

/// When the stack is exhausted, the claimed set holds every root and
/// stays carried out on its own.
proof fn lemma_exit_state(
    platform: Platform,
    fs: FsModel,
    rootsv: Seq<Seq<char>>,
    pre: DiscoveryStateV,
    st: DiscoveryStateV,
)
    requires
        st.visited == pre.visited,
        st.found == pre.found,
        st.stack.len() == 0,
        forall|j: int|
            0 <= j < pre.stack.len() ==> in_list(pre.visited, #[trigger] pre.stack[j]),
        forall|j: int|
            0 <= j < rootsv.len() ==> in_list(pre.visited, #[trigger] rootsv[j]) || in_list(
                pre.stack,
                rootsv[j],
            ),
        forall|j: int|
            0 <= j < pre.visited.len() ==> dir_done(platform, fs, pre, #[trigger] pre.visited[j]),
    ensures
        forall|j: int| 0 <= j < rootsv.len() ==> in_list(st.visited, #[trigger] rootsv[j]),
        forall|j: int|
            0 <= j < st.visited.len() ==> dir_done(platform, fs, st, #[trigger] st.visited[j]),
{
    assert forall|j: int| 0 <= j < st.visited.len() implies dir_done(
        platform,
        fs,
        st,
        #[trigger] st.visited[j],
    ) by {
        let p = st.visited[j];
        assert(dir_done(platform, fs, pre, p));
        if dir_entries(fs, p) is Some {
            let es = dir_entries(fs, p)->0;
            assert forall|i: int| 0 <= i < es.len() implies entry_done(
                platform,
                st,
                #[trigger] es[i],
            ) by {
                assert(entry_done(platform, pre, es[i]));
                if entry_verdict(platform, es[i]) == Verdict::PushDir && in_list(
                    pre.stack,
                    es[i].canon@,
                ) {
                    let t = choose|t: int|
                        0 <= t < pre.stack.len() && #[trigger] pre.stack[t] == es[i].canon@;
                    assert(in_list(st.visited, pre.stack[t]));
                }
            }
        }
    }
    assert forall|j: int| 0 <= j < rootsv.len() implies in_list(
        st.visited,
        #[trigger] rootsv[j],
    ) by {
        if in_list(pre.stack, rootsv[j]) {
            let t = choose|t: int|
                0 <= t < pre.stack.len() && #[trigger] pre.stack[t] == rootsv[j];
            assert(in_list(st.visited, pre.stack[t]));
        }
    }
}

/// At the end of a walk, the found list holds exactly the names that some
/// reachable directory accepts.
proof fn lemma_walk_membership(
    platform: Platform,
    fs: FsModel,
    rootsv: Seq<Seq<char>>,
    st: DiscoveryStateV,
)
    requires
        st.stack.len() == 0,
        forall|j: int| 0 <= j < rootsv.len() ==> in_list(st.visited, #[trigger] rootsv[j]),
        forall|j: int|
            0 <= j < st.visited.len() ==> dir_done(platform, fs, st, #[trigger] st.visited[j]),
        forall|i: int|
            0 <= i < st.found.len() ==> found_ok(platform, fs, rootsv, #[trigger] st.found[i]),
    ensures
        forall|n: Seq<char>|
            #[trigger] crate::manager::disc_has(st.found, n) == model_has_module(
                platform,
                fs,
                rootsv,
                n,
            ),
{
    assert forall|n: Seq<char>| #[trigger] crate::manager::disc_has(st.found, n)
        == model_has_module(platform, fs, rootsv, n) by {
        if crate::manager::disc_has(st.found, n) {
            let i = choose|i: int| 0 <= i < st.found.len() && #[trigger] st.found[i].name == n;
            assert(found_ok(platform, fs, rootsv, st.found[i]));
            let p = choose|p: Seq<char>|
                #[trigger] reachable(platform, fs, rootsv, p) && accepts_module(
                    platform,
                    fs,
                    p,
                    st.found[i],
                );
            let es = dir_entries(fs, p)->0;
            let t = choose|t: int|
                0 <= t < es.len() && entry_verdict(platform, #[trigger] es[t]) == Verdict::Accept
                    && stored_name_spec(platform, es[t].name@) == st.found[i].name && es[t].path@
                    == st.found[i].path;
            assert(accepts_name(platform, fs, p, n));
            assert(model_has_module(platform, fs, rootsv, n));
        }
        if model_has_module(platform, fs, rootsv, n) {
            let p = choose|p: Seq<char>|
                #[trigger] reachable(platform, fs, rootsv, p) && accepts_name(platform, fs, p, n);
            let chain = choose|chain: Seq<Seq<char>>|
                chain_ok(platform, fs, rootsv, chain) && chain.last() == p;
            lemma_chain_visited(platform, fs, rootsv, st, chain);
            let j = choose|j: int| 0 <= j < st.visited.len() && #[trigger] st.visited[j] == p;
            assert(dir_done(platform, fs, st, p));
            let es = dir_entries(fs, p)->0;
            let t = choose|t: int|
                0 <= t < es.len() && entry_verdict(platform, #[trigger] es[t]) == Verdict::Accept
                    && stored_name_spec(platform, es[t].name@) == n;
            assert(entry_done(platform, st, es[t]));
        }
    }
}

/// After a directory is claimed, every walk invariant still stands, with
/// the claimed directory itself left to carry out.
proof fn lemma_after_claim(
    platform: Platform,
    fs: FsModel,
    rootsv: Seq<Seq<char>>,
    pre: DiscoveryStateV,
    st1: DiscoveryStateV,
    d: Seq<char>,
)
    requires
        ({
            let k = st1.stack.len() as int;
            &&& k < pre.stack.len()
            &&& st1.stack == pre.stack.take(k)
            &&& d == pre.stack[k]
            &&& !in_list(pre.visited, d)
            &&& st1.visited == pre.visited.push(d)
            &&& forall|j: int|
                k < j < pre.stack.len() ==> in_list(pre.visited, #[trigger] pre.stack[j])
        }),
        st1.found == pre.found,
        forall|j: int|
            0 <= j < rootsv.len() ==> in_list(pre.visited, #[trigger] rootsv[j]) || in_list(
                pre.stack,
                rootsv[j],
            ),
        forall|j: int|
            0 <= j < pre.stack.len() ==> reachable(platform, fs, rootsv, #[trigger] pre.stack[j]),
        forall|j: int|
            0 <= j < pre.visited.len() ==> reachable(
                platform,
                fs,
                rootsv,
                #[trigger] pre.visited[j],
            ),
        forall|j: int|
            0 <= j < pre.visited.len() ==> dir_done(platform, fs, pre, #[trigger] pre.visited[j]),
    ensures
        st1.visited.len() >= 1,
        st1.visited[st1.visited.len() - 1] == d,
        in_list(st1.visited, d),
        reachable(platform, fs, rootsv, d),
        forall|j: int|
            0 <= j < rootsv.len() ==> in_list(st1.visited, #[trigger] rootsv[j]) || in_list(
                st1.stack,
                rootsv[j],
            ),
        forall|j: int|
            0 <= j < st1.stack.len() ==> reachable(platform, fs, rootsv, #[trigger] st1.stack[j]),
        forall|j: int|
            0 <= j < st1.visited.len() ==> reachable(
                platform,
                fs,
                rootsv,
                #[trigger] st1.visited[j],
            ),
        forall|j: int|
            0 <= j < st1.visited.len() - 1 ==> dir_done(
                platform,
                fs,
                st1,
                #[trigger] st1.visited[j],
            ),
{
    let k = st1.stack.len() as int;
    assert(st1.visited[pre.visited.len() as int] == d);
    assert forall|x: Seq<char>| in_list(pre.stack, x) implies in_list(st1.stack, x) || in_list(
        st1.visited,
        x,
    ) by {
        let t = choose|t: int| 0 <= t < pre.stack.len() && #[trigger] pre.stack[t] == x;
        if t < k {
            assert(st1.stack[t] == x);
        } else if t == k {
            assert(x == d);
        } else {
            assert(in_list(pre.visited, pre.stack[t]));
            lemma_in_list_push(pre.visited, x, d);
        }
    }
    assert forall|x: Seq<char>| in_list(pre.visited, x) implies in_list(st1.visited, x) by {
        lemma_in_list_push(pre.visited, x, d);
    }
    assert forall|j: int| 0 <= j < st1.stack.len() implies reachable(
        platform,
        fs,
        rootsv,
        #[trigger] st1.stack[j],
    ) by {
        assert(st1.stack[j] == pre.stack[j]);
    }
    assert forall|j: int| 0 <= j < st1.visited.len() implies reachable(
        platform,
        fs,
        rootsv,
        #[trigger] st1.visited[j],
    ) by {
        if j < pre.visited.len() {
            assert(st1.visited[j] == pre.visited[j]);
        } else {
            assert(st1.visited[j] == d && d == pre.stack[k]);
        }
    }
    assert forall|j: int| 0 <= j < st1.visited.len() - 1 implies dir_done(
        platform,
        fs,
        st1,
        #[trigger] st1.visited[j],
    ) by {
        let p = st1.visited[j];
        assert(p == pre.visited[j]);
        assert(dir_done(platform, fs, pre, p));
        if dir_entries(fs, p) is Some {
            let es = dir_entries(fs, p)->0;
            assert forall|i: int| 0 <= i < es.len() implies entry_done(
                platform,
                st1,
                #[trigger] es[i],
            ) by {
                assert(entry_done(platform, pre, es[i]));
            }
        }
    }
}

/// A claimed value stays claimed when one more is pushed.
proof fn lemma_in_list_push(l: Seq<Seq<char>>, x: Seq<char>, p: Seq<char>)
    requires
        in_list(l, x),
    ensures
        in_list(l.push(p), x),
{
    let i = choose|i: int| 0 <= i < l.len() && #[trigger] l[i] == x;
    assert(l.push(p)[i] == x);
}

/// The walk's running invariant: unique found names, every root claimed or
/// still stacked, every stacked or claimed directory reachable, and every
/// found module justified by a reachable accepting entry.
pub open spec fn walk_inv(
    platform: Platform,
    fs: FsModel,
    rootsv: Seq<Seq<char>>,
    st: DiscoveryStateV,
) -> bool {
    &&& st.platform == platform
    &&& crate::manager::disc_names_unique(st.found)
    &&& (forall|j: int|
        0 <= j < rootsv.len() ==> in_list(st.visited, #[trigger] rootsv[j]) || in_list(
            st.stack,
            rootsv[j],
        ))
    &&& (forall|j: int|
        0 <= j < st.stack.len() ==> reachable(platform, fs, rootsv, #[trigger] st.stack[j]))
    &&& (forall|j: int|
        0 <= j < st.visited.len() ==> reachable(platform, fs, rootsv, #[trigger] st.visited[j]))
    &&& (forall|i: int|
        0 <= i < st.found.len() ==> found_ok(platform, fs, rootsv, #[trigger] st.found[i]))
}

/// Carries out every entry of the directory just claimed: descend targets
/// are stacked, accepted candidates recorded. The claimed set does not
/// change, and afterwards every claimed directory is carried out.
fn process_dir(
    st: &mut DiscoveryState,
    fs: &FsModel,
    d: &String,
    Ghost(rootsv): Ghost<Seq<Seq<char>>>,
    Ghost(platform): Ghost<Platform>,
)
    requires
        walk_inv(platform, *fs, rootsv, old(st)@),
        old(st)@.visited.len() >= 1,
        old(st)@.visited[old(st)@.visited.len() - 1] == d@,
        reachable(platform, *fs, rootsv, d@),
        forall|j: int|
            0 <= j < old(st)@.visited.len() - 1 ==> dir_done(
                platform,
                *fs,
                old(st)@,
                #[trigger] old(st)@.visited[j],
            ),
    ensures
        walk_inv(platform, *fs, rootsv, final(st)@),
        final(st)@.visited == old(st)@.visited,
        forall|j: int|
            0 <= j < final(st)@.visited.len() ==> dir_done(
                platform,
                *fs,
                final(st)@,
                #[trigger] final(st)@.visited[j],
            ),
        in_list(model_paths(*fs), d@) || final(st)@.stack == old(st)@.stack,
{
    let di_opt = fs.lookup(d.as_str());
    match di_opt {
        Some(di) => {
            proof {
                lemma_dir_idx_hit(fs.dirs@, d@, 0, di as int);
                assert(model_paths(*fs)[di as int] == d@);
                assert(in_list(model_paths(*fs), d@));
            }
            let ghost es = fs.dirs@[di as int].entries@;
            let ghost visited1 = st@.visited;
            proof {
                assert(dir_entries(*fs, d@) == Some(es));
            }
            let n = fs.dirs[di].entries.len();
            let mut e: usize = 0;
            while e < n
                invariant
                    walk_inv(platform, *fs, rootsv, st@),
                    di < fs.dirs.len(),
                    n == es.len(),
                    es == fs.dirs@[di as int].entries@,
                    dir_entries(*fs, d@) == Some(es),
                    0 <= e <= n,
                    st@.visited == visited1,
                    visited1.len() >= 1,
                    visited1[visited1.len() - 1] == d@,
                    reachable(platform, *fs, rootsv, d@),
                    forall|j: int|
                        0 <= j < st@.visited.len() - 1 ==> dir_done(
                            platform,
                            *fs,
                            st@,
                            #[trigger] st@.visited[j],
                        ),
                    forall|i: int| 0 <= i < e ==> entry_done(platform, st@, #[trigger] es[i]),
                decreases n - e,
            {
                let ghost mid = st@;
                let entry = &fs.dirs[di].entries[e];
                proof {
                    assert(entry == es[e as int]);
                }
                st.offer_entry(
                    entry.name.as_str(),
                    entry.kind,
                    entry.exec_bit,
                    entry.canon.as_str(),
                    entry.path.as_str(),
                );
                proof {
                    lemma_offer_transport(platform, *fs, rootsv, d@, es, e as int, mid, st@);
                }
                e += 1;
            }
            proof {
                assert forall|j: int| 0 <= j < st@.visited.len() implies dir_done(
                    platform,
                    *fs,
                    st@,
                    #[trigger] st@.visited[j],
                ) by {
                    if j == st@.visited.len() - 1 {
                        assert(st@.visited[j] == d@);
                    }
                }
            }
        },
        None => {
            proof {
                lemma_dir_idx_miss(fs.dirs@, d@, 0);
                assert(dir_entries(*fs, d@) is None);
                assert forall|j: int| 0 <= j < st@.visited.len() implies dir_done(
                    platform,
                    *fs,
                    st@,
                    #[trigger] st@.visited[j],
                ) by {
                    if j == st@.visited.len() - 1 {
                        assert(st@.visited[j] == d@);
                    }
                }
            }
        },
    }
}

/// One offered entry keeps the walk invariant: the walk state only grows,
/// the processed prefix stays carried out, and the entry itself is now
/// carried out.
proof fn lemma_offer_transport(
    platform: Platform,
    fs: FsModel,
    rootsv: Seq<Seq<char>>,
    d: Seq<char>,
    es: Seq<FsEntry>,
    e: int,
    mid: DiscoveryStateV,
    st: DiscoveryStateV,
)
    requires
        walk_inv(platform, fs, rootsv, mid),
        dir_entries(fs, d) == Some(es),
        0 <= e < es.len(),
        reachable(platform, fs, rootsv, d),
        forall|j: int|
            0 <= j < mid.visited.len() - 1 ==> dir_done(
                platform,
                fs,
                mid,
                #[trigger] mid.visited[j],
            ),
        forall|i: int| 0 <= i < e ==> entry_done(platform, mid, #[trigger] es[i]),
        st.platform == mid.platform,
        st.visited == mid.visited,
        entry_verdict(platform, es[e]) == Verdict::PushDir ==> st.stack == mid.stack.push(
            es[e].canon@,
        ) && st.found == mid.found,
        entry_verdict(platform, es[e]) == Verdict::Skip ==> st.stack == mid.stack && st.found
            == mid.found,
        entry_verdict(platform, es[e]) == Verdict::Accept ==> st.stack == mid.stack && (found_has(
            mid.found,
            stored_name_spec(platform, es[e].name@),
        ) ==> st.found == mid.found) && (!found_has(
            mid.found,
            stored_name_spec(platform, es[e].name@),
        ) ==> st.found == mid.found.push(
            DiscoveredModuleV {
                name: stored_name_spec(platform, es[e].name@),
                path: es[e].path@,
            },
        )),
    ensures
        walk_inv(platform, fs, rootsv, st),
        forall|j: int|
            0 <= j < st.visited.len() - 1 ==> dir_done(platform, fs, st, #[trigger] st.visited[j]),
        forall|i: int| 0 <= i < e + 1 ==> entry_done(platform, st, #[trigger] es[i]),
{
    let v = entry_verdict(platform, es[e]);
    assert forall|x: Seq<char>| in_list(mid.stack, x) implies in_list(st.stack, x) by {
        if v == Verdict::PushDir {
            lemma_in_list_push(mid.stack, x, es[e].canon@);
        }
    }
    assert forall|m: Seq<char>| found_has(mid.found, m) implies found_has(st.found, m) by {
        let t = choose|t: int| 0 <= t < mid.found.len() && #[trigger] mid.found[t].name == m;
        assert(st.found[t].name == m);
    }
    assert forall|j: int| 0 <= j < st.visited.len() - 1 implies dir_done(
        platform,
        fs,
        st,
        #[trigger] st.visited[j],
    ) by {
        let p = st.visited[j];
        assert(dir_done(platform, fs, mid, p));
        if dir_entries(fs, p) is Some {
            let pes = dir_entries(fs, p)->0;
            assert forall|i: int| 0 <= i < pes.len() implies entry_done(
                platform,
                st,
                #[trigger] pes[i],
            ) by {
                assert(entry_done(platform, mid, pes[i]));
            }
        }
    }
    assert forall|i: int| 0 <= i < e + 1 implies entry_done(platform, st, #[trigger] es[i]) by {
        if i < e {
            assert(entry_done(platform, mid, es[i]));
        } else {
            if v == Verdict::PushDir {
                assert(in_list(st.stack, es[i].canon@)) by {
                    assert(st.stack[st.stack.len() - 1] == es[i].canon@);
                }
            } else if v == Verdict::Accept {
                let nm = stored_name_spec(platform, es[i].name@);
                if found_has(mid.found, nm) {
                } else {
                    assert(found_has(st.found, nm)) by {
                        assert(st.found[st.found.len() - 1].name == nm);
                    }
                }
            }
        }
    }
    if v == Verdict::PushDir {
        assert(links_to(platform, fs, d, es[e].canon@));
        lemma_reach_step(platform, fs, rootsv, d, es[e].canon@);
        assert forall|j: int| 0 <= j < st.stack.len() implies reachable(
            platform,
            fs,
            rootsv,
            #[trigger] st.stack[j],
        ) by {
            if j < mid.stack.len() {
                assert(st.stack[j] == mid.stack[j]);
            }
        }
    }
    if v == Verdict::Accept {
        let nm = stored_name_spec(platform, es[e].name@);
        if !found_has(mid.found, nm) {
            assert(accepts_module(platform, fs, d, st.found.last()));
            assert(found_ok(platform, fs, rootsv, st.found.last()));
            assert forall|a: int, b: int| 0 <= a < b < st.found.len() implies #[trigger] st
                .found[a].name != #[trigger] st.found[b].name by {
                if b == st.found.len() - 1 {
                    assert(st.found[a] == mid.found[a]);
                    assert(st.found[b].name == nm);
                    if mid.found[a].name == nm {
                        assert(found_has(mid.found, nm));
                    }
                } else {
                    assert(st.found[a] == mid.found[a]);
                    assert(st.found[b] == mid.found[b]);
                }
            }
        }
        assert forall|i: int| 0 <= i < st.found.len() implies found_ok(
            platform,
            fs,
            rootsv,
            #[trigger] st.found[i],
        ) by {
            if i < mid.found.len() {
                assert(st.found[i] == mid.found[i]);
            }
        }
    }
    assert forall|j: int| 0 <= j < rootsv.len() implies in_list(st.visited, #[trigger] rootsv[j])
        || in_list(st.stack, rootsv[j]) by {}
}

/// Walks the whole filesystem model from the given roots and returns the
/// modules found. The walk terminates for every model — symlink cycles
/// included — because a directory, once visited, is never entered again.
/// The result lists each name once; a name stands in it exactly when some
/// directory reachable from the roots through descend verdicts holds an
/// accepted candidate stored under that name, and every listed path comes
/// from such an accepted entry.
pub fn discover_modules(platform: Platform, roots: Vec<String>, fs: &FsModel) -> (r: Vec<
    DiscoveredModule,
>)
    ensures
        crate::manager::disc_names_unique(r.deep_view()),
        forall|n: Seq<char>|
            #[trigger] crate::manager::disc_has(r.deep_view(), n) == model_has_module(
                platform,
                *fs,
                roots.deep_view(),
                n,
            ),
        forall|i: int|
            0 <= i < r.deep_view().len() ==> found_ok(
                platform,
                *fs,
                roots.deep_view(),
                #[trigger] r.deep_view()[i],
            ),
{
    let ghost rootsv = roots.deep_view();
    let mut st = DiscoveryState::new(platform, roots);
    proof {
        assert forall|j: int| 0 <= j < rootsv.len() implies in_list(
            st@.visited,
            #[trigger] rootsv[j],
        ) || in_list(st@.stack, rootsv[j]) by {
            assert(st@.stack[rootsv.len() - 1 - j] == rootsv[j]);
        }
        assert forall|j: int| 0 <= j < st@.stack.len() implies reachable(
            platform,
            *fs,
            rootsv,
            #[trigger] st@.stack[j],
        ) by {
            let p = st@.stack[j];
            assert(rootsv[st@.stack.len() - 1 - j] == p);
            assert(in_list(rootsv, p));
            let chain = seq![p];
            assert(chain_ok(platform, *fs, rootsv, chain) && chain.last() == p);
        }
        assert(walk_inv(platform, *fs, rootsv, st@));
    }
    loop
        invariant
            walk_inv(platform, *fs, rootsv, st@),
            forall|j: int|
                0 <= j < st@.visited.len() ==> dir_done(
                    platform,
                    *fs,
                    st@,
                    #[trigger] st@.visited[j],
                ),
        ensures
            crate::manager::disc_names_unique(st@.found),
            forall|n: Seq<char>|
                #[trigger] crate::manager::disc_has(st@.found, n) == model_has_module(
                    platform,
                    *fs,
                    rootsv,
                    n,
                ),
            forall|i: int|
                0 <= i < st@.found.len() ==> found_ok(
                    platform,
                    *fs,
                    rootsv,
                    #[trigger] st@.found[i],
                ),
        decreases count_unvisited(model_paths(*fs), st@.visited), st@.stack.len(),
    {
        let ghost pre = st@;
        let ghost pre_count = count_unvisited(model_paths(*fs), st@.visited);
        let next = st.next_dir();
        let d = match next {
            Some(d) => d,
            None => {
                proof {
                    lemma_exit_state(platform, *fs, rootsv, pre, st@);
                    lemma_walk_membership(platform, *fs, rootsv, st@);
                }
                break ;
            },
        };
        proof {
            lemma_count_unvisited_push(model_paths(*fs), pre.visited, d@);
            lemma_after_claim(platform, *fs, rootsv, pre, st@, d@);
            assert(st@.visited[st@.visited.len() - 1] == d@);
            assert(walk_inv(platform, *fs, rootsv, st@));
        }
        let ghost st1 = st@;
        process_dir(&mut st, fs, &d, Ghost(rootsv), Ghost(platform));
        proof {
            if in_list(model_paths(*fs), d@) {
                assert(count_unvisited(model_paths(*fs), st@.visited) < pre_count);
            } else {
                assert(st@.stack == st1.stack);
                assert(st@.stack.len() < pre.stack.len());
                assert(count_unvisited(model_paths(*fs), st@.visited) <= pre_count);
            }
        }
    }
    st.into_found()
}

} // verus!
