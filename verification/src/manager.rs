//! The module supervisor's lifecycle state and its transitions.
//!
//! One record per module carries the authoritative flags: `running`, the pid
//! (present exactly while running), the arguments of the most recent spawn,
//! the crash counter and the pending-shutdown mark. The exec methods mirror
//! the spec-level transition function [`step`], so that the laws below —
//! pid presence, the crash budget of three restarts, and the precedence of a
//! pending shutdown over the restart arbiter — hold over any finite sequence
//! of lifecycle events.
//!
//! The methods only decide; spawning processes, sending signals and showing
//! dialogs are carried out by the caller from the returned requests.

use vstd::prelude::*;
use vstd::string::StringExecFns;
use crate::text::concat2;
use crate::text::str_eq;

verus! {

/// The lifecycle record of one module.
pub struct ModuleRecord {
    pub name: String,
    pub running: bool,
    pub pid: Option<u32>,
    pub args: Option<Vec<String>>,
    pub restart_count: u32,
    pub pending_shutdown: bool,
}

/// The mathematical value of a [`ModuleRecord`].
pub struct ModuleRecordV {
    pub name: Seq<char>,
    pub running: bool,
    pub pid: Option<u32>,
    pub args: Option<Seq<Seq<char>>>,
    pub restart_count: u32,
    pub pending_shutdown: bool,
}

impl View for ModuleRecord {
    type V = ModuleRecordV;

    open spec fn view(&self) -> ModuleRecordV {
        ModuleRecordV {
            name: self.name@,
            running: self.running,
            pid: self.pid,
            args: self.args.deep_view(),
            restart_count: self.restart_count,
            pending_shutdown: self.pending_shutdown,
        }
    }
}

impl DeepView for ModuleRecord {
    type V = ModuleRecordV;

    open spec fn deep_view(&self) -> ModuleRecordV {
        self.view()
    }
}

/// A module found on the search path: its name and the executable's path.
pub struct DiscoveredModule {
    pub name: String,
    pub path: String,
}

/// The mathematical value of a [`DiscoveredModule`].
pub struct DiscoveredModuleV {
    pub name: Seq<char>,
    pub path: Seq<char>,
}

impl View for DiscoveredModule {
    type V = DiscoveredModuleV;

    open spec fn view(&self) -> DiscoveredModuleV {
        DiscoveredModuleV { name: self.name@, path: self.path@ }
    }
}

impl DeepView for DiscoveredModule {
    type V = DiscoveredModuleV;

    open spec fn deep_view(&self) -> DiscoveredModuleV {
        self.view()
    }
}

/// The supervisor's shared state: lifecycle records, the discovery results,
/// the configured port, and whether a menu has been projected yet.
pub struct ManagerState {
    pub records: Vec<ModuleRecord>,
    pub discovered: Vec<DiscoveredModule>,
    pub port: u16,
    pub modules_menu_set: bool,
}

/// The mathematical value of a [`ManagerState`].
pub struct StateV {
    pub records: Seq<ModuleRecordV>,
    pub discovered: Seq<DiscoveredModuleV>,
    pub port: u16,
    pub modules_menu_set: bool,
}

impl View for ManagerState {
    type V = StateV;

    open spec fn view(&self) -> StateV {
        StateV {
            records: self.records.deep_view(),
            discovered: self.discovered.deep_view(),
            port: self.port,
            modules_menu_set: self.modules_menu_set,
        }
    }
}

/// No two records share a name.
pub open spec fn names_unique(rs: Seq<ModuleRecordV>) -> bool {
    forall|i: int, j: int|
        0 <= i < j < rs.len() ==> #[trigger] rs[i].name != #[trigger] rs[j].name
}

/// No two discovered modules share a name.
pub open spec fn disc_names_unique(ds: Seq<DiscoveredModuleV>) -> bool {
    forall|i: int, j: int|
        0 <= i < j < ds.len() ==> #[trigger] ds[i].name != #[trigger] ds[j].name
}

/// Some record carries this name.
pub open spec fn has_rec(rs: Seq<ModuleRecordV>, name: Seq<char>) -> bool {
    exists|i: int| 0 <= i < rs.len() && #[trigger] rs[i].name == name
}

/// The index of the record with this name.
pub open spec fn idx_of(rs: Seq<ModuleRecordV>, name: Seq<char>) -> int {
    choose|i: int| 0 <= i < rs.len() && #[trigger] rs[i].name == name
}

/// The record with this name.
pub open spec fn rec_of(rs: Seq<ModuleRecordV>, name: Seq<char>) -> ModuleRecordV {
    rs[idx_of(rs, name)]
}

/// The index given by [`idx_of`] is in range and carries the name.
pub proof fn lemma_idx_of(rs: Seq<ModuleRecordV>, name: Seq<char>)
    requires
        has_rec(rs, name),
    ensures
        0 <= idx_of(rs, name) < rs.len(),
        rec_of(rs, name).name == name,
{
}

/// Under unique names, any index carrying the name is the index of the name.
pub proof fn lemma_idx_unique(rs: Seq<ModuleRecordV>, name: Seq<char>, i: int)
    requires
        names_unique(rs),
        0 <= i < rs.len(),
        rs[i].name == name,
    ensures
        has_rec(rs, name),
        idx_of(rs, name) == i,
{
    assert(has_rec(rs, name));
    let j = idx_of(rs, name);
    lemma_idx_of(rs, name);
    if i < j {
        assert(rs[i].name != rs[j].name);
    } else if j < i {
        assert(rs[j].name != rs[i].name);
    }
}

/// A single record is well formed: the pid is present exactly while the
/// module runs, and the crash counter never passes three.
pub open spec fn rec_wf(r: ModuleRecordV) -> bool {
    &&& (r.pid is Some <==> r.running)
    &&& r.restart_count <= 3
}

/// The state is well formed: unique names and well-formed records.
pub open spec fn state_wf(s: StateV) -> bool {
    &&& names_unique(s.records)
    &&& (forall|i: int| 0 <= i < s.records.len() ==> rec_wf(#[trigger] s.records[i]))
    &&& disc_names_unique(s.discovered)
}

/// The name is recorded and its record marks it running.
pub open spec fn spec_is_running(s: StateV, name: Seq<char>) -> bool {
    has_rec(s.records, name) && rec_of(s.records, name).running
}

/// A discovered module carries this name.
pub open spec fn disc_has(ds: Seq<DiscoveredModuleV>, name: Seq<char>) -> bool {
    exists|i: int| 0 <= i < ds.len() && #[trigger] ds[i].name == name
}

/// The index of the discovered module with this name.
pub open spec fn disc_idx(ds: Seq<DiscoveredModuleV>, name: Seq<char>) -> int {
    choose|i: int| 0 <= i < ds.len() && #[trigger] ds[i].name == name
}

/// The executable path of the discovered module with this name.
pub open spec fn disc_path(ds: Seq<DiscoveredModuleV>, name: Seq<char>) -> Seq<char> {
    ds[disc_idx(ds, name)].path
}

/// Replaces the record with the same name, or appends a new one.
pub open spec fn upsert(rs: Seq<ModuleRecordV>, r: ModuleRecordV) -> Seq<ModuleRecordV> {
    if has_rec(rs, r.name) {
        rs.update(idx_of(rs, r.name), r)
    } else {
        rs.push(r)
    }
}

/// An upsert keeps the names unique, places `r` under its name, and leaves
/// every other record as it was.
pub proof fn lemma_upsert_unique(rs: Seq<ModuleRecordV>, r: ModuleRecordV)
    requires
        names_unique(rs),
    ensures
        names_unique(upsert(rs, r)),
        has_rec(upsert(rs, r), r.name),
        rec_of(upsert(rs, r), r.name) == r,
        forall|i: int|
            0 <= i < upsert(rs, r).len() ==> (#[trigger] upsert(rs, r)[i] == r || (0 <= i
                < rs.len() && upsert(rs, r)[i] == rs[i])),
        forall|n: Seq<char>| n != r.name ==> #[trigger] has_rec(upsert(rs, r), n) == has_rec(rs, n),
        forall|n: Seq<char>|
            n != r.name && has_rec(rs, n) ==> #[trigger] rec_of(upsert(rs, r), n) == rec_of(rs, n),
{
    let out = upsert(rs, r);
    let k: int = if has_rec(rs, r.name) {
        idx_of(rs, r.name)
    } else {
        rs.len() as int
    };
    if has_rec(rs, r.name) {
        lemma_idx_of(rs, r.name);
    } else {
        assert forall|i: int| 0 <= i < rs.len() implies rs[i].name != r.name by {
            if rs[i].name == r.name {
                assert(has_rec(rs, r.name));
            }
        }
    }
    assert(out.len() == if has_rec(rs, r.name) {
        rs.len()
    } else {
        rs.len() + 1
    });
    assert(out[k] == r);
    assert(forall|i: int| 0 <= i < out.len() && i != k ==> out[i] == rs[i]);
    assert forall|i: int, j: int| 0 <= i < j < out.len() implies #[trigger] out[i].name
        != #[trigger] out[j].name by {
        if i == k {
            assert(out[j] == rs[j]);
            if has_rec(rs, r.name) {
                assert(rs[k].name == r.name);
                assert(rs[k].name != rs[j].name);
            }
        } else if j == k {
            assert(out[i] == rs[i]);
            if has_rec(rs, r.name) {
                assert(rs[k].name == r.name);
            }
        } else {
            assert(out[i] == rs[i] && out[j] == rs[j]);
        }
    }
    assert(has_rec(out, r.name)) by {
        assert(out[k].name == r.name);
    }
    lemma_idx_unique(out, r.name, k);
    assert forall|n: Seq<char>| n != r.name implies #[trigger] has_rec(out, n) == has_rec(
        rs,
        n,
    ) by {
        if has_rec(rs, n) {
            let i = choose|i: int| 0 <= i < rs.len() && #[trigger] rs[i].name == n;
            assert(i != k);
            assert(out[i].name == n);
        }
        if has_rec(out, n) {
            let i = choose|i: int| 0 <= i < out.len() && #[trigger] out[i].name == n;
            assert(i != k);
            assert(rs[i].name == n);
        }
    }
    assert forall|n: Seq<char>| n != r.name && has_rec(rs, n) implies #[trigger] rec_of(out, n)
        == rec_of(rs, n) by {
        let i = idx_of(rs, n);
        lemma_idx_of(rs, n);
        assert(i != k);
        assert(out[i].name == n);
        lemma_idx_unique(out, n, i);
    }
}

/// One lifecycle event, as the consumer and the restart arbiter see it.
pub enum EventV {
    /// A worker reported a successful spawn.
    Started { name: Seq<char>, pid: u32, args: Option<Seq<Seq<char>>> },
    /// A worker reported the child's exit.
    Stopped { name: Seq<char>, success: bool },
    /// The delayed restart arbiter fired for this module.
    RestartTick { name: Seq<char> },
    /// The user asked to stop the module.
    StopClick { name: Seq<char> },
    /// The boot-time request to project a first menu.
    Init,
}

/// State after consuming `Started`: running with this pid and these args,
/// any pending shutdown cleared; the crash counter is kept.
pub open spec fn spec_started(
    s: StateV,
    name: Seq<char>,
    pid: u32,
    args: Option<Seq<Seq<char>>>,
) -> StateV {
    let count = if has_rec(s.records, name) {
        rec_of(s.records, name).restart_count
    } else {
        0
    };
    let r = ModuleRecordV {
        name: name,
        running: true,
        pid: Some(pid),
        args: args,
        restart_count: count,
        pending_shutdown: false,
    };
    StateV { records: upsert(s.records, r), modules_menu_set: true, ..s }
}

/// State after consuming `Stopped`: not running, pid dropped; arguments,
/// counter and the pending mark are kept.
pub open spec fn spec_stopped(s: StateV, name: Seq<char>) -> StateV {
    let r = if has_rec(s.records, name) {
        ModuleRecordV { running: false, pid: None, ..rec_of(s.records, name) }
    } else {
        ModuleRecordV {
            name: name,
            running: false,
            pid: None,
            args: None,
            restart_count: 0,
            pending_shutdown: false,
        }
    };
    StateV { records: upsert(s.records, r), modules_menu_set: true, ..s }
}

/// State after a stop request: the pending mark is set when a pid is live,
/// so the coming exit is not treated as a crash.
pub open spec fn spec_stop(s: StateV, name: Seq<char>) -> StateV {
    if has_rec(s.records, name) && rec_of(s.records, name).pid is Some {
        let r = ModuleRecordV { pending_shutdown: true, ..rec_of(s.records, name) };
        StateV { records: upsert(s.records, r), ..s }
    } else {
        s
    }
}

/// The arbiter would ask for a restart: the exit was not user-initiated and
/// the crash budget is not exhausted.
pub open spec fn tick_restarts(s: StateV, name: Seq<char>) -> bool {
    &&& has_rec(s.records, name)
    &&& !rec_of(s.records, name).pending_shutdown
    &&& rec_of(s.records, name).restart_count < 3
}

/// State after the restart arbiter fired: the crash counter advances exactly
/// when a restart is requested.
pub open spec fn spec_tick(s: StateV, name: Seq<char>) -> StateV {
    if tick_restarts(s, name) {
        let r = ModuleRecordV {
            restart_count: (rec_of(s.records, name).restart_count + 1) as u32,
            ..rec_of(s.records, name)
        };
        StateV { records: upsert(s.records, r), ..s }
    } else {
        s
    }
}

/// The transition of the supervisor state under one event.
pub open spec fn step(s: StateV, e: EventV) -> StateV {
    match e {
        EventV::Started { name, pid, args } => spec_started(s, name, pid, args),
        EventV::Stopped { name, .. } => spec_stopped(s, name),
        EventV::RestartTick { name } => spec_tick(s, name),
        EventV::StopClick { name } => spec_stop(s, name),
        EventV::Init => StateV { modules_menu_set: true, ..s },
    }
}

/// The state after a finite sequence of events.
pub open spec fn run_events(s: StateV, es: Seq<EventV>) -> StateV
    decreases es.len(),
{
    if es.len() == 0 {
        s
    } else {
        run_events(step(s, es[0]), es.drop_first())
    }
}

/// One step preserves well-formedness: pids stay tied to `running` and the
/// crash counter stays within its budget of three.
pub proof fn lemma_step_wf(s: StateV, e: EventV)
    requires
        state_wf(s),
    ensures
        state_wf(step(s, e)),
{
    let out = step(s, e);
    match e {
        EventV::Started { name, pid, args } => {
            if has_rec(s.records, name) {
                lemma_idx_of(s.records, name);
            }
            let count = if has_rec(s.records, name) {
                rec_of(s.records, name).restart_count
            } else {
                0
            };
            let r = ModuleRecordV {
                name: name,
                running: true,
                pid: Some(pid),
                args: args,
                restart_count: count,
                pending_shutdown: false,
            };
            lemma_upsert_unique(s.records, r);
            assert forall|i: int| 0 <= i < out.records.len() implies rec_wf(
                #[trigger] out.records[i],
            ) by {
                if out.records[i] != r {
                    assert(0 <= i < s.records.len() && out.records[i] == s.records[i]);
                }
            }
        },
        EventV::Stopped { name, .. } => {
            if has_rec(s.records, name) {
                lemma_idx_of(s.records, name);
            }
            let r = if has_rec(s.records, name) {
                ModuleRecordV { running: false, pid: None, ..rec_of(s.records, name) }
            } else {
                ModuleRecordV {
                    name: name,
                    running: false,
                    pid: None,
                    args: None,
                    restart_count: 0,
                    pending_shutdown: false,
                }
            };
            lemma_upsert_unique(s.records, r);
            assert forall|i: int| 0 <= i < out.records.len() implies rec_wf(
                #[trigger] out.records[i],
            ) by {
                if out.records[i] != r {
                    assert(0 <= i < s.records.len() && out.records[i] == s.records[i]);
                }
            }
        },
        EventV::RestartTick { name } => {
            if tick_restarts(s, name) {
                lemma_idx_of(s.records, name);
                let r = ModuleRecordV {
                    restart_count: (rec_of(s.records, name).restart_count + 1) as u32,
                    ..rec_of(s.records, name)
                };
                lemma_upsert_unique(s.records, r);
                assert(rec_wf(rec_of(s.records, name)));
                assert forall|i: int| 0 <= i < out.records.len() implies rec_wf(
                    #[trigger] out.records[i],
                ) by {
                    if out.records[i] != r {
                        assert(0 <= i < s.records.len() && out.records[i] == s.records[i]);
                    }
                }
            }
        },
        EventV::StopClick { name } => {
            if has_rec(s.records, name) && rec_of(s.records, name).pid is Some {
                lemma_idx_of(s.records, name);
                let r = ModuleRecordV { pending_shutdown: true, ..rec_of(s.records, name) };
                lemma_upsert_unique(s.records, r);
                assert(rec_wf(rec_of(s.records, name)));
                assert forall|i: int| 0 <= i < out.records.len() implies rec_wf(
                    #[trigger] out.records[i],
                ) by {
                    if out.records[i] != r {
                        assert(0 <= i < s.records.len() && out.records[i] == s.records[i]);
                    }
                }
            }
        },
        EventV::Init => {},
    }
}

/// Well-formedness holds after any finite sequence of events. In particular,
/// at every reachable state a pid is recorded exactly for running modules,
/// and no crash counter ever exceeds three.
pub proof fn lemma_run_events_wf(s: StateV, es: Seq<EventV>)
    requires
        state_wf(s),
    ensures
        state_wf(run_events(s, es)),
    decreases es.len(),
{
    if es.len() > 0 {
        lemma_step_wf(s, es[0]);
        lemma_run_events_wf(step(s, es[0]), es.drop_first());
    }
}

/// Pid presence and `running` agree for every module at every reachable
/// state: `pid` is present if and only if the record marks the module
/// running.
pub proof fn lemma_pid_iff_running(s: StateV, es: Seq<EventV>, name: Seq<char>)
    requires
        state_wf(s),
        has_rec(run_events(s, es).records, name),
    ensures
        rec_of(run_events(s, es).records, name).pid is Some <==> rec_of(
            run_events(s, es).records,
            name,
        ).running,
{
    lemma_run_events_wf(s, es);
    lemma_idx_of(run_events(s, es).records, name);
}

/// The crash budget: no restart counter passes three at any reachable state,
/// and once it stands at three a further arbiter tick neither changes the
/// state nor requests a restart.
pub proof fn lemma_restart_budget(s: StateV, es: Seq<EventV>, name: Seq<char>)
    requires
        state_wf(s),
    ensures
        has_rec(run_events(s, es).records, name) ==> rec_of(
            run_events(s, es).records,
            name,
        ).restart_count <= 3,
        rec_of(run_events(s, es).records, name).restart_count == 3 ==> {
            &&& !tick_restarts(run_events(s, es), name)
            &&& step(run_events(s, es), EventV::RestartTick { name }) == run_events(s, es)
        },
{
    lemma_run_events_wf(s, es);
    let out = run_events(s, es);
    if has_rec(out.records, name) {
        lemma_idx_of(out.records, name);
    }
}

/// A pending shutdown silences the arbiter: when the record carries the
/// pending mark, an arbiter tick leaves the state unchanged — the crash
/// counter in particular — and requests no restart.
pub proof fn lemma_pending_shutdown_wins(s: StateV, name: Seq<char>)
    requires
        has_rec(s.records, name),
        rec_of(s.records, name).pending_shutdown,
    ensures
        !tick_restarts(s, name),
        step(s, EventV::RestartTick { name }) == s,
{
}

/// Whether an event is a successful-start report for this module — the only
/// kind of event that clears a pending shutdown.
pub open spec fn is_started_for(e: EventV, name: Seq<char>) -> bool {
    match e {
        EventV::Started { name: n, .. } => n == name,
        _ => false,
    }
}

/// A pending shutdown survives any events that are not a `Started` report
/// for the module, so the arbiter still yields when it finally fires.
pub proof fn lemma_pending_preserved(s: StateV, es: Seq<EventV>, name: Seq<char>)
    requires
        state_wf(s),
        has_rec(s.records, name),
        rec_of(s.records, name).pending_shutdown,
        forall|i: int| 0 <= i < es.len() ==> !is_started_for(#[trigger] es[i], name),
    ensures
        has_rec(run_events(s, es).records, name),
        rec_of(run_events(s, es).records, name).pending_shutdown,
        !tick_restarts(run_events(s, es), name),
    decreases es.len(),
{
    if es.len() == 0 {
    } else {
        let e = es[0];
        let s1 = step(s, e);
        lemma_step_wf(s, e);
        assert(has_rec(s1.records, name) && rec_of(s1.records, name).pending_shutdown) by {
            lemma_idx_of(s.records, name);
            match e {
                EventV::Started { name: n, pid, args } => {
                    assert(n != name);
                    if has_rec(s.records, n) {
                        lemma_idx_of(s.records, n);
                    }
                    let count = if has_rec(s.records, n) {
                        rec_of(s.records, n).restart_count
                    } else {
                        0
                    };
                    let r = ModuleRecordV {
                        name: n,
                        running: true,
                        pid: Some(pid),
                        args: args,
                        restart_count: count,
                        pending_shutdown: false,
                    };
                    lemma_upsert_unique(s.records, r);
                },
                EventV::Stopped { name: n, .. } => {
                    if has_rec(s.records, n) {
                        lemma_idx_of(s.records, n);
                    }
                    let r = if has_rec(s.records, n) {
                        ModuleRecordV { running: false, pid: None, ..rec_of(s.records, n) }
                    } else {
                        ModuleRecordV {
                            name: n,
                            running: false,
                            pid: None,
                            args: None,
                            restart_count: 0,
                            pending_shutdown: false,
                        }
                    };
                    lemma_upsert_unique(s.records, r);
                    if n == name {
                        assert(r.pending_shutdown);
                    }
                },
                EventV::RestartTick { name: n } => {
                    if tick_restarts(s, n) {
                        lemma_idx_of(s.records, n);
                        let r = ModuleRecordV {
                            restart_count: (rec_of(s.records, n).restart_count + 1) as u32,
                            ..rec_of(s.records, n)
                        };
                        lemma_upsert_unique(s.records, r);
                        assert(n != name);
                    }
                },
                EventV::StopClick { name: n } => {
                    if has_rec(s.records, n) && rec_of(s.records, n).pid is Some {
                        lemma_idx_of(s.records, n);
                        let r = ModuleRecordV { pending_shutdown: true, ..rec_of(s.records, n) };
                        lemma_upsert_unique(s.records, r);
                        if n == name {
                            assert(r.pending_shutdown);
                        }
                    }
                },
                EventV::Init => {},
            }
        }
        assert(es.drop_first().len() == es.len() - 1);
        assert forall|i: int| 0 <= i < es.drop_first().len() implies !is_started_for(
            #[trigger] es.drop_first()[i],
            name,
        ) by {
            assert(es.drop_first()[i] == es[i + 1]);
        }
        lemma_pending_preserved(s1, es.drop_first(), name);
    }
}

/// A copy of a string vector, element for element.
pub fn clone_string_vec(v: &Vec<String>) -> (r: Vec<String>)
    ensures
        r.deep_view() == v.deep_view(),
{
    let mut out: Vec<String> = Vec::new();
    let mut i: usize = 0;
    while i < v.len()
        invariant
            0 <= i <= v.len(),
            out@.len() == i,
            forall|j: int| 0 <= j < i ==> #[trigger] out@[j]@ == v@[j]@,
        decreases v.len() - i,
    {
        let c = v[i].clone();
        assert(c@ == v@[i as int]@);
        out.push(c);
        i += 1;
    }
    proof {
        assert(out.deep_view() =~= v.deep_view());
    }
    out
}

/// A copy of an optional argument vector.
pub fn clone_args(v: &Option<Vec<String>>) -> (r: Option<Vec<String>>)
    ensures
        r.deep_view() == v.deep_view(),
{
    match v {
        Some(args) => Some(clone_string_vec(args)),
        None => None,
    }
}

/// A request to spawn one module: the executable and its arguments as the
/// worker thread must pass them.
pub struct SpawnRequest {
    pub name: String,
    pub path: String,
    pub args: Option<Vec<String>>,
}

/// The mathematical value of a [`SpawnRequest`].
pub struct SpawnRequestV {
    pub name: Seq<char>,
    pub path: Seq<char>,
    pub args: Option<Seq<Seq<char>>>,
}

impl View for SpawnRequest {
    type V = SpawnRequestV;

    open spec fn view(&self) -> SpawnRequestV {
        SpawnRequestV { name: self.name@, path: self.path@, args: self.args.deep_view() }
    }
}

impl DeepView for SpawnRequest {
    type V = SpawnRequestV;

    open spec fn deep_view(&self) -> SpawnRequestV {
        self.view()
    }
}

/// What the supervisor decided when asked to start a module.
pub enum StartOutcome {
    /// Start it: the caller spawns this executable with these arguments.
    Spawn(SpawnRequest),
    /// The module already runs; starting is a no-op.
    AlreadyRunning,
    /// The module was never discovered; the caller reports an error.
    NotDiscovered,
}

/// A start request would spawn: the module is not running and its executable
/// was discovered.
pub open spec fn start_spawns(s: StateV, name: Seq<char>) -> bool {
    !spec_is_running(s, name) && disc_has(s.discovered, name)
}

/// A request to send the terminate signal to one module's process.
pub struct TerminateRequest {
    pub name: String,
    pub pid: u32,
}

impl ManagerState {
    /// A fresh supervisor state over the discovery results.
    pub fn new(discovered: Vec<DiscoveredModule>, port: u16) -> (r: ManagerState)
        requires
            disc_names_unique(discovered.deep_view()),
        ensures
            state_wf(r@),
            r@.records == Seq::<ModuleRecordV>::empty(),
            r@.discovered == discovered.deep_view(),
            r@.port == port,
            !r@.modules_menu_set,
    {
        let r = ManagerState { records: Vec::new(), discovered, port, modules_menu_set: false };
        proof {
            assert(r@.records =~= Seq::<ModuleRecordV>::empty());
        }
        r
    }

    /// The index of the record with this name.
    fn lookup(&self, name: &str) -> (r: Option<usize>)
        requires
            names_unique(self@.records),
        ensures
            r matches Some(i) ==> {
                &&& i < self.records.len()
                &&& self@.records[i as int].name == name@
                &&& has_rec(self@.records, name@)
                &&& idx_of(self@.records, name@) == i
            },
            r is None ==> !has_rec(self@.records, name@),
    {
        let mut i: usize = 0;
        while i < self.records.len()
            invariant
                names_unique(self@.records),
                0 <= i <= self.records.len(),
                forall|j: int| 0 <= j < i ==> #[trigger] self@.records[j].name != name@,
            decreases self.records.len() - i,
        {
            if str_eq(self.records[i].name.as_str(), name) {
                proof {
                    lemma_idx_unique(self@.records, name@, i as int);
                }
                return Some(i);
            }
            i += 1;
        }
        proof {
            if has_rec(self@.records, name@) {
                let j = choose|j: int|
                    0 <= j < self@.records.len() && #[trigger] self@.records[j].name == name@;
                assert(self@.records[j].name != name@);
            }
        }
        None
    }

    /// The index of the discovered module with this name.
    fn disc_lookup(&self, name: &str) -> (r: Option<usize>)
        ensures
            r matches Some(i) ==> {
                &&& i < self.discovered.len()
                &&& self@.discovered[i as int].name == name@
                &&& disc_has(self@.discovered, name@)
            },
            r is None ==> !disc_has(self@.discovered, name@),
    {
        let mut i: usize = 0;
        while i < self.discovered.len()
            invariant
                0 <= i <= self.discovered.len(),
                forall|j: int| 0 <= j < i ==> #[trigger] self@.discovered[j].name != name@,
            decreases self.discovered.len() - i,
        {
            if str_eq(self.discovered[i].name.as_str(), name) {
                return Some(i);
            }
            i += 1;
        }
        proof {
            if disc_has(self@.discovered, name@) {
                let j = choose|j: int|
                    0 <= j < self@.discovered.len() && #[trigger] self@.discovered[j].name == name@;
                assert(self@.discovered[j].name != name@);
            }
        }
        None
    }

    /// Whether the record of this module marks it running; an unknown module
    /// is not running.
    pub fn is_module_running(&self, name: &str) -> (r: bool)
        requires
            names_unique(self@.records),
        ensures
            r == spec_is_running(self@, name@),
    {
        match self.lookup(name) {
            Some(i) => {
                proof {
                    lemma_idx_of(self@.records, name@);
                }
                self.records[i].running
            },
            None => false,
        }
    }

    /// Consumes a `Started` report: the module now runs under this pid with
    /// these arguments, and any pending shutdown is cleared.
    pub fn started_module(&mut self, name: &str, pid: u32, args: Option<Vec<String>>)
        requires
            state_wf(old(self)@),
        ensures
            final(self)@ == step(
                old(self)@,
                EventV::Started { name: name@, pid, args: args.deep_view() },
            ),
            state_wf(final(self)@),
    {
        proof {
            lemma_step_wf(old(self)@, EventV::Started { name: name@, pid, args: args.deep_view() });
        }
        let found = self.lookup(name);
        match found {
            Some(i) => {
                proof {
                    lemma_idx_of(self@.records, name@);
                }
                let old_rec = self.records.remove(i);
                let new_rec = ModuleRecord {
                    name: old_rec.name,
                    running: true,
                    pid: Some(pid),
                    args,
                    restart_count: old_rec.restart_count,
                    pending_shutdown: false,
                };
                self.records.insert(i, new_rec);
                proof {
                    let target = spec_started(old(self)@, name@, pid, args.deep_view());
                    assert(new_rec@.name == name@);
                    assert(self@.records =~= old(self)@.records.update(i as int, new_rec@));
                    assert(self@.records =~= target.records);
                }
            },
            None => {
                let new_rec = ModuleRecord {
                    name: String::from_str(name),
                    running: true,
                    pid: Some(pid),
                    args,
                    restart_count: 0,
                    pending_shutdown: false,
                };
                self.records.push(new_rec);
                proof {
                    let target = spec_started(old(self)@, name@, pid, args.deep_view());
                    assert(self@.records =~= target.records);
                }
            },
        }
        self.modules_menu_set = true;
    }

    /// Consumes a `Stopped` report: the module no longer runs and its pid is
    /// dropped; arguments, crash counter and the pending mark are kept.
    pub fn stopped_module(&mut self, name: &str)
        requires
            state_wf(old(self)@),
        ensures
            final(self)@ == spec_stopped(old(self)@, name@),
            state_wf(final(self)@),
    {
        proof {
            lemma_step_wf(old(self)@, EventV::Stopped { name: name@, success: true });
        }
        let found = self.lookup(name);
        match found {
            Some(i) => {
                proof {
                    lemma_idx_of(self@.records, name@);
                }
                let old_rec = self.records.remove(i);
                let new_rec = ModuleRecord { running: false, pid: None, ..old_rec };
                self.records.insert(i, new_rec);
                proof {
                    let target = spec_stopped(old(self)@, name@);
                    assert(self@.records =~= old(self)@.records.update(i as int, new_rec@));
                    assert(self@.records =~= target.records);
                }
            },
            None => {
                let new_rec = ModuleRecord {
                    name: String::from_str(name),
                    running: false,
                    pid: None,
                    args: None,
                    restart_count: 0,
                    pending_shutdown: false,
                };
                self.records.push(new_rec);
                proof {
                    let target = spec_stopped(old(self)@, name@);
                    assert(self@.records =~= target.records);
                }
            },
        }
        self.modules_menu_set = true;
    }

    /// Decides a start request. Starting a running module is a no-op; a
    /// module that was never discovered is reported, not spawned. The state
    /// itself does not change: the record appears when the spawned child
    /// reports `Started`.
    pub fn start_module(&self, name: &str, args: Option<&Vec<String>>) -> (r: StartOutcome)
        requires
            state_wf(self@),
        ensures
            (r is Spawn) == start_spawns(self@, name@),
            (r is AlreadyRunning) == spec_is_running(self@, name@),
            r matches StartOutcome::Spawn(req) ==> {
                &&& req.name@ == name@
                &&& disc_has(self@.discovered, name@)
                &&& req.path@ == disc_path(self@.discovered, name@)
                &&& req.args.deep_view() == match args {
                    Some(v) => Some(v.deep_view()),
                    None => None::<Seq<Seq<char>>>,
                }
            },
    {
        if self.is_module_running(name) {
            return StartOutcome::AlreadyRunning;
        }
        match self.disc_lookup(name) {
            Some(i) => {
                let cloned_args = match args {
                    Some(v) => Some(clone_string_vec(v)),
                    None => None,
                };
                let r = StartOutcome::Spawn(
                    SpawnRequest {
                        name: String::from_str(name),
                        path: self.discovered[i].path.clone(),
                        args: cloned_args,
                    },
                );
                proof {
                    let ds = self@.discovered;
                    let j = disc_idx(ds, name@);
                    assert(0 <= j < ds.len() && ds[j].name == name@);
                    if j != i {
                        if j < i {
                            assert(ds[j].name != ds[i as int].name);
                        } else {
                            assert(ds[i as int].name != ds[j].name);
                        }
                    }
                }
                r
            },
            None => StartOutcome::NotDiscovered,
        }
    }

    /// Decides a stop request: when the module has a live pid, the pending
    /// mark is set — so the coming exit does not count as a crash — and the
    /// caller sends the terminate signal to the returned pid.
    pub fn stop_module(&mut self, name: &str) -> (r: Option<TerminateRequest>)
        requires
            state_wf(old(self)@),
        ensures
            final(self)@ == spec_stop(old(self)@, name@),
            state_wf(final(self)@),
            (r is Some) == (has_rec(old(self)@.records, name@) && rec_of(
                old(self)@.records,
                name@,
            ).pid is Some),
            r matches Some(req) ==> {
                &&& req.name@ == name@
                &&& Some(req.pid) == rec_of(old(self)@.records, name@).pid
            },
    {
        proof {
            lemma_step_wf(old(self)@, EventV::StopClick { name: name@ });
        }
        let found = self.lookup(name);
        match found {
            Some(i) => {
                proof {
                    lemma_idx_of(self@.records, name@);
                }
                if let Some(pid) = self.records[i].pid {
                    let old_rec = self.records.remove(i);
                    let new_rec = ModuleRecord { pending_shutdown: true, ..old_rec };
                    self.records.insert(i, new_rec);
                    proof {
                        let target = spec_stop(old(self)@, name@);
                        assert(self@.records =~= old(self)@.records.update(i as int, new_rec@));
                        assert(self@.records =~= target.records);
                    }
                    Some(TerminateRequest { name: String::from_str(name), pid })
                } else {
                    None
                }
            },
            None => None,
        }
    }
}


/// A record after a global stop: the pending mark set where a pid is live.
pub open spec fn stop_one_rec(r: ModuleRecordV) -> ModuleRecordV {
    if r.pid is Some {
        ModuleRecordV { pending_shutdown: true, ..r }
    } else {
        r
    }
}

/// All records after a global stop.
pub open spec fn spec_stop_all(rs: Seq<ModuleRecordV>) -> Seq<ModuleRecordV> {
    Seq::new(rs.len(), |i: int| stop_one_rec(rs[i]))
}

/// The mathematical value of a [`TerminateRequest`].
pub struct TerminateRequestV {
    pub name: Seq<char>,
    pub pid: u32,
}

impl View for TerminateRequest {
    type V = TerminateRequestV;

    open spec fn view(&self) -> TerminateRequestV {
        TerminateRequestV { name: self.name@, pid: self.pid }
    }
}

impl DeepView for TerminateRequest {
    type V = TerminateRequestV;

    open spec fn deep_view(&self) -> TerminateRequestV {
        self.view()
    }
}

/// The terminate signals a global stop sends: one per live pid, in record
/// order.
pub open spec fn terminate_list(rs: Seq<ModuleRecordV>) -> Seq<TerminateRequestV>
    decreases rs.len(),
{
    if rs.len() == 0 {
        Seq::empty()
    } else {
        terminate_list(rs.drop_last()) + (match rs.last().pid {
            Some(p) => seq![TerminateRequestV { name: rs.last().name, pid: p }],
            None => Seq::empty(),
        })
    }
}

/// The arguments a module is spawned with: the stored custom arguments
/// verbatim when present; otherwise `--port <port>` exactly when the
/// configured port is not the default, and no arguments at all when it is.
pub open spec fn effective_args_spec(custom: Option<Seq<Seq<char>>>, port: u16) -> Seq<Seq<char>> {
    match custom {
        Some(a) => a,
        None => if port != crate::DEFAULT_PORT {
            seq!["--port"@, crate::text::dec_str(port as nat)]
        } else {
            Seq::empty()
        },
    }
}

/// Computes the spawn arguments for a module.
pub fn effective_args(custom: Option<&Vec<String>>, port: u16) -> (r: Vec<String>)
    ensures
        r.deep_view() == effective_args_spec(
            match custom {
                Some(v) => Some(v.deep_view()),
                None => None,
            },
            port,
        ),
{
    match custom {
        Some(v) => clone_string_vec(v),
        None => {
            let mut out: Vec<String> = Vec::new();
            if port != crate::DEFAULT_PORT {
                out.push(String::from_str("--port"));
                out.push(crate::text::u16_to_string(port));
            }
            proof {
                if port != crate::DEFAULT_PORT {
                    assert(out.deep_view() =~= effective_args_spec(None, port));
                } else {
                    assert(out.deep_view() =~= effective_args_spec(None, port));
                }
            }
            out
        },
    }
}

/// What the restart arbiter decided one second after a failing exit.
pub enum RestartDecision {
    /// The module has no record; nothing to arbitrate.
    NoRecord,
    /// The exit was user-initiated; do nothing.
    Aborted,
    /// The crash budget is spent; the caller shows the dialog and the module
    /// stays stopped.
    LimitReached { dialog: String },
    /// The crash counter advanced; the caller shows the dialog and performs
    /// the start outcome.
    Restart { dialog: String, outcome: StartOutcome },
}

impl ManagerState {
    /// The delayed restart arbiter: a pending shutdown aborts it, a spent
    /// crash budget only warns, and otherwise the counter advances and the
    /// module is started again with the arguments of its most recent spawn.
    pub fn arbiter_tick(&mut self, name: &str) -> (r: RestartDecision)
        requires
            state_wf(old(self)@),
        ensures
            final(self)@ == spec_tick(old(self)@, name@),
            state_wf(final(self)@),
            (r is NoRecord) == !has_rec(old(self)@.records, name@),
            (r is Aborted) == (has_rec(old(self)@.records, name@) && rec_of(
                old(self)@.records,
                name@,
            ).pending_shutdown),
            (r is LimitReached) == (has_rec(old(self)@.records, name@) && !rec_of(
                old(self)@.records,
                name@,
            ).pending_shutdown && rec_of(old(self)@.records, name@).restart_count >= 3),
            (r is Restart) == tick_restarts(old(self)@, name@),
            r matches RestartDecision::LimitReached { dialog } ==> dialog@ == name@
                + " keeps on crashing. Restart limit reached."@,
            r matches RestartDecision::Restart { dialog, outcome } ==> {
                &&& dialog@ == name@ + " crashed. Restarting..."@
                &&& (outcome is Spawn) == start_spawns(final(self)@, name@)
                &&& (outcome matches StartOutcome::Spawn(req) ==> {
                    &&& req.name@ == name@
                    &&& req.path@ == disc_path(old(self)@.discovered, name@)
                    &&& req.args.deep_view() == rec_of(old(self)@.records, name@).args
                })
            },
    {
        proof {
            lemma_step_wf(old(self)@, EventV::RestartTick { name: name@ });
        }
        let found = self.lookup(name);
        match found {
            Some(i) => {
                proof {
                    lemma_idx_of(self@.records, name@);
                }
                if self.records[i].pending_shutdown {
                    return RestartDecision::Aborted;
                }
                if self.records[i].restart_count >= 3 {
                    return RestartDecision::LimitReached {
                        dialog: concat2(name, " keeps on crashing. Restart limit reached."),
                    };
                }
                let stored_args = clone_args(&self.records[i].args);
                let old_rec = self.records.remove(i);
                let new_rec = ModuleRecord { restart_count: old_rec.restart_count + 1, ..old_rec };
                self.records.insert(i, new_rec);
                proof {
                    let target = spec_tick(old(self)@, name@);
                    assert(self@.records =~= old(self)@.records.update(i as int, new_rec@));
                    assert(self@.records =~= target.records);
                }
                let outcome = self.start_module(name, stored_args.as_ref());
                proof {
                    if outcome is Spawn {
                        assert(disc_has(old(self)@.discovered, name@));
                    }
                }
                RestartDecision::Restart {
                    dialog: concat2(name, " crashed. Restarting..."),
                    outcome,
                }
            },
            None => RestartDecision::NoRecord,
        }
    }

    /// Decides a global stop: every module with a live pid gets the pending
    /// mark, and the caller sends one terminate signal per returned request.
    /// The pid set is fixed before the walk, as the records do not change
    /// under it.
    pub fn stop_modules(&mut self) -> (r: Vec<TerminateRequest>)
        requires
            state_wf(old(self)@),
        ensures
            final(self)@ == (StateV { records: spec_stop_all(old(self)@.records), ..old(self)@ }),
            state_wf(final(self)@),
            r.deep_view() == terminate_list(old(self)@.records),
    {
        let mut reqs: Vec<TerminateRequest> = Vec::new();
        let n = self.records.len();
        let mut i: usize = 0;
        while i < n
            invariant
                n == self.records@.len(),
                n == old(self)@.records.len(),
                0 <= i <= n,
                self.discovered == old(self).discovered,
                self.port == old(self).port,
                self.modules_menu_set == old(self).modules_menu_set,
                forall|j: int|
                    0 <= j < i ==> #[trigger] self@.records[j] == stop_one_rec(
                        old(self)@.records[j],
                    ),
                forall|j: int| i <= j < n ==> #[trigger] self@.records[j] == old(self)@.records[j],
                reqs.deep_view() == terminate_list(old(self)@.records.take(i as int)),
            decreases n - i,
        {
            let ghost pre = self@.records;
            let ghost pre_reqs = reqs.deep_view();
            let pid_opt = self.records[i].pid;
            proof {
                assert(pre[i as int] == old(self)@.records[i as int]);
            }
            if let Some(pid) = pid_opt {
                let name_c = self.records[i].name.clone();
                proof {
                    assert(name_c@ == pre[i as int].name);
                }
                reqs.push(TerminateRequest { name: name_c, pid });
                let old_rec = self.records.remove(i);
                proof {
                    assert(old_rec@ == pre[i as int]);
                }
                let new_rec = ModuleRecord { pending_shutdown: true, ..old_rec };
                self.records.insert(i, new_rec);
                proof {
                    assert(self@.records =~= pre.update(i as int, new_rec@));
                    assert(new_rec@ == stop_one_rec(old(self)@.records[i as int]));
                    assert(reqs.deep_view() =~= pre_reqs.push(
                        TerminateRequestV { name: name_c@, pid },
                    ));
                }
            } else {
                proof {
                    assert(self@.records[i as int] == stop_one_rec(old(self)@.records[i as int]));
                }
            }
            proof {
                let rs = old(self)@.records;
                assert(rs.take(i + 1).drop_last() =~= rs.take(i as int));
                assert(rs.take(i + 1).last() == rs[i as int]);
                assert(reqs.deep_view() =~= terminate_list(rs.take(i + 1)));
            }
            i += 1;
        }
        proof {
            assert(old(self)@.records.take(n as int) =~= old(self)@.records);
            assert(self@.records =~= spec_stop_all(old(self)@.records));
            assert(self@ =~= (StateV { records: spec_stop_all(old(self)@.records), ..old(self)@ }));
            let out = self@;
            assert forall|a: int, b: int|
                0 <= a < b < out.records.len() implies #[trigger] out.records[a].name
                != #[trigger] out.records[b].name by {
                assert(old(self)@.records[a].name != old(self)@.records[b].name);
            }
            assert forall|a: int| 0 <= a < out.records.len() implies rec_wf(
                #[trigger] out.records[a],
            ) by {
                assert(rec_wf(old(self)@.records[a]));
            }
        }
        reqs
    }

    /// What a click on a module's menu item did.
    pub fn handle_system_click(&mut self, name: &str) -> (r: ClickOutcome)
        requires
            state_wf(old(self)@),
        ensures
            state_wf(final(self)@),
            spec_is_running(old(self)@, name@) ==> {
                &&& r is Stop
                &&& final(self)@ == spec_stop(old(self)@, name@)
            },
            !spec_is_running(old(self)@, name@) ==> {
                &&& r is Start
                &&& final(self)@ == old(self)@
            },
            r matches ClickOutcome::Stop(t) ==> ((t is Some) == (has_rec(
                old(self)@.records,
                name@,
            ) && rec_of(old(self)@.records, name@).pid is Some) && (t matches Some(req) ==> {
                &&& req.name@ == name@
                &&& Some(req.pid) == rec_of(old(self)@.records, name@).pid
            })),
            r matches ClickOutcome::Start(o) ==> {
                &&& (o is Spawn) == start_spawns(old(self)@, name@)
                &&& (o matches StartOutcome::Spawn(req) ==> {
                    &&& req.name@ == name@
                    &&& req.path@ == disc_path(old(self)@.discovered, name@)
                    &&& req.args.deep_view() == (if has_rec(old(self)@.records, name@) {
                        rec_of(old(self)@.records, name@).args
                    } else {
                        None
                    })
                })
            },
    {
        if self.is_module_running(name) {
            let t = self.stop_module(name);
            ClickOutcome::Stop(t)
        } else {
            let stored_args = match self.lookup(name) {
                Some(i) => {
                    proof {
                        lemma_idx_of(self@.records, name@);
                    }
                    clone_args(&self.records[i].args)
                },
                None => None,
            };
            let o = self.start_module(name, stored_args.as_ref());
            ClickOutcome::Start(o)
        }
    }
}

/// What a click on a module's checkable menu item led to: a stop request for
/// a running module, a start outcome for a stopped one — started again with
/// the arguments of its most recent spawn.
pub enum ClickOutcome {
    Stop(Option<TerminateRequest>),
    Start(StartOutcome),
}

/// One message on the lifecycle channel, as the worker threads post it.
pub enum ModuleMessage {
    /// The child was spawned: its name, pid, and the arguments used.
    Started { name: String, pid: u32, args: Option<Vec<String>> },
    /// The child exited; `success` is whether its exit status was zero.
    Stopped { name: String, success: bool },
    /// The boot-time request to project a first menu.
    Init,
}

impl View for ModuleMessage {
    type V = EventV;

    open spec fn view(&self) -> EventV {
        match self {
            ModuleMessage::Started { name, pid, args } => EventV::Started {
                name: name@,
                pid: *pid,
                args: args.deep_view(),
            },
            ModuleMessage::Stopped { name, success } => EventV::Stopped {
                name: name@,
                success: *success,
            },
            ModuleMessage::Init => EventV::Init,
        }
    }
}

impl ManagerState {
    /// Consumes one lifecycle message, as the dedicated consumer thread does:
    /// the state takes one [`step`], and a failing exit asks the caller to
    /// schedule the delayed restart arbiter for the module. The caller
    /// projects a fresh menu from the new state before releasing the lock.
    pub fn handle_message(&mut self, msg: ModuleMessage) -> (r: Option<String>)
        requires
            state_wf(old(self)@),
        ensures
            final(self)@ == step(old(self)@, msg@),
            state_wf(final(self)@),
            (r is Some) == (msg matches ModuleMessage::Stopped { success: false, .. }),
            r matches Some(n) ==> (msg matches ModuleMessage::Stopped { name, .. } && n@ == name@),
    {
        match msg {
            ModuleMessage::Started { name, pid, args } => {
                self.started_module(name.as_str(), pid, args);
                None
            },
            ModuleMessage::Stopped { name, success } => {
                self.stopped_module(name.as_str());
                if success {
                    None
                } else {
                    Some(name)
                }
            },
            ModuleMessage::Init => {
                self.modules_menu_set = true;
                proof {
                    assert(self@ =~= step(old(self)@, EventV::Init));
                }
                None
            },
        }
    }
}


/// What `shell_words::split` yields for an argument string: the words under
/// POSIX-shell splitting, or nothing when a quote is unmatched.
pub uninterp spec fn shell_split(s: Seq<char>) -> Option<Seq<Seq<char>>>;

/// Relies on `shell_words::split`: splits a command line by the parsing
/// rules of the POSIX shell, a function of the string alone; it errs exactly
/// on an unmatched quote.
#[verifier::external_body]
fn shell_split_words(s: &str) -> (r: Option<Vec<String>>)
    ensures
        (r is Some) == (shell_split(s@) is Some),
        r matches Some(v) ==> Some(v.deep_view()) == shell_split(s@),
{
    match shell_words::split(s) {
        Ok(words) => Some(words),
        Err(_) => None,
    }
}

/// The arguments a configured entry contributes: none for an empty argument
/// string, the shell-split words otherwise, an empty list when the argument
/// string cannot be split.
pub open spec fn autostart_args_spec(s: Seq<char>) -> Option<Seq<Seq<char>>> {
    if s.len() == 0 {
        None
    } else {
        match shell_split(s) {
            Some(w) => Some(w),
            None => Some(Seq::empty()),
        }
    }
}

/// Tokenizes a configured argument string for the spawn.
pub fn parse_autostart_args(args_str: &str) -> (r: Option<Vec<String>>)
    ensures
        r.deep_view() == autostart_args_spec(args_str@),
{
    if args_str.unicode_len() == 0 {
        None
    } else {
        match shell_split_words(args_str) {
            Some(v) => Some(v),
            None => Some(Vec::new()),
        }
    }
}

/// A spawn with this name stands in the plan.
pub open spec fn plan_has(ps: Seq<SpawnRequestV>, name: Seq<char>) -> bool {
    exists|i: int| 0 <= i < ps.len() && #[trigger] ps[i].name == name
}

/// The autostart plan over a prefix of the configured entries: one spawn per
/// distinct configured name that is discovered and not yet running; the
/// first entry with a name decides the arguments.
pub open spec fn plan_pre(s: StateV, es: Seq<crate::config::ModuleEntryV>) -> Seq<SpawnRequestV>
    decreases es.len(),
{
    if es.len() == 0 {
        Seq::empty()
    } else {
        let prior = plan_pre(s, es.drop_last());
        let name = crate::config::entry_name(es.last());
        if disc_has(s.discovered, name) && !spec_is_running(s, name) && !plan_has(prior, name) {
            prior.push(
                SpawnRequestV {
                    name: name,
                    path: disc_path(s.discovered, name),
                    args: autostart_args_spec(crate::config::entry_args(es.last())),
                },
            )
        } else {
            prior
        }
    }
}

/// Autostart starts each configured module at most once: the plan's names
/// are unique, and a name stands in the plan exactly when some configured
/// entry carries it, its executable was discovered, and it is not running.
pub proof fn lemma_autostart_once(s: StateV, es: Seq<crate::config::ModuleEntryV>)
    ensures
        forall|i: int, j: int|
            0 <= i < j < plan_pre(s, es).len() ==> #[trigger] plan_pre(s, es)[i].name
                != #[trigger] plan_pre(s, es)[j].name,
        forall|name: Seq<char>|
            #[trigger] plan_has(plan_pre(s, es), name) == ((exists|i: int|
                0 <= i < es.len() && crate::config::entry_name(#[trigger] es[i]) == name)
                && disc_has(s.discovered, name) && !spec_is_running(s, name)),
    decreases es.len(),
{
    if es.len() == 0 {
        assert forall|name: Seq<char>| !(#[trigger] plan_has(plan_pre(s, es), name)) by {
            if plan_has(plan_pre(s, es), name) {
                let i = choose|i: int|
                    0 <= i < plan_pre(s, es).len() && #[trigger] plan_pre(s, es)[i].name == name;
            }
        }
    } else {
        let prior = plan_pre(s, es.drop_last());
        let cur = plan_pre(s, es);
        let name = crate::config::entry_name(es.last());
        lemma_autostart_once(s, es.drop_last());
        if disc_has(s.discovered, name) && !spec_is_running(s, name) && !plan_has(prior, name) {
            assert(cur == prior.push(
                SpawnRequestV {
                    name: name,
                    path: disc_path(s.discovered, name),
                    args: autostart_args_spec(crate::config::entry_args(es.last())),
                },
            ));
            assert forall|a: int, b: int| 0 <= a < b < cur.len() implies #[trigger] cur[a].name
                != #[trigger] cur[b].name by {
                if b < cur.len() - 1 {
                    assert(cur[a] == prior[a] && cur[b] == prior[b]);
                } else {
                    assert(cur[a] == prior[a] && cur[b].name == name);
                    if prior[a].name == name {
                        assert(plan_has(prior, name));
                    }
                }
            }
        }
        assert forall|n: Seq<char>| #[trigger] plan_has(cur, n) == ((exists|i: int|
            0 <= i < es.len() && crate::config::entry_name(#[trigger] es[i]) == n) && disc_has(
            s.discovered,
            n,
        ) && !spec_is_running(s, n)) by {
            let grows = disc_has(s.discovered, name) && !spec_is_running(s, name) && !plan_has(
                prior,
                name,
            );
            assert(plan_has(cur, n) == (plan_has(prior, n) || (grows && n == name))) by {
                if plan_has(cur, n) {
                    let i = choose|i: int| 0 <= i < cur.len() && #[trigger] cur[i].name == n;
                    if grows && i == cur.len() - 1 {
                    } else {
                        assert(cur[i] == prior[i]);
                    }
                }
                if plan_has(prior, n) {
                    let i = choose|i: int| 0 <= i < prior.len() && #[trigger] prior[i].name == n;
                    assert(cur[i].name == n);
                }
                if grows && n == name {
                    assert(cur[cur.len() - 1].name == n);
                }
            }
            if plan_has(cur, n) {
                if plan_has(prior, n) {
                    let i = choose|i: int|
                        0 <= i < es.drop_last().len() && crate::config::entry_name(
                            #[trigger] es.drop_last()[i],
                        ) == n;
                    assert(crate::config::entry_name(es[i]) == n);
                } else {
                    assert(crate::config::entry_name(es[es.len() - 1]) == n);
                }
            }
            if (exists|i: int|
                0 <= i < es.len() && crate::config::entry_name(#[trigger] es[i]) == n) && disc_has(
                s.discovered,
                n,
            ) && !spec_is_running(s, n) {
                let i = choose|i: int|
                    0 <= i < es.len() && crate::config::entry_name(#[trigger] es[i]) == n;
                if i < es.len() - 1 {
                    assert(crate::config::entry_name(es.drop_last()[i]) == n);
                    assert(plan_has(prior, n));
                } else {
                    if !plan_has(prior, n) {
                        assert(grows && n == name);
                    }
                }
            }
        }
    }
}

impl ManagerState {
    /// Plans the boot-time autostart pass over the configured entries: the
    /// spawn requests for every distinct configured module that is
    /// discovered and not running, each exactly once, with the arguments of
    /// its first entry.
    pub fn autostart_plan(&self, entries: &Vec<crate::config::ModuleEntry>) -> (r: Vec<
        SpawnRequest,
    >)
        requires
            state_wf(self@),
        ensures
            r.deep_view() == plan_pre(self@, entries.deep_view()),
    {
        let mut out: Vec<SpawnRequest> = Vec::new();
        let mut i: usize = 0;
        while i < entries.len()
            invariant
                state_wf(self@),
                0 <= i <= entries.len(),
                out.deep_view() == plan_pre(self@, entries.deep_view().take(i as int)),
            decreases entries.len() - i,
        {
            let ghost pre_out = out.deep_view();
            let name = entries[i].name();
            let mut already: bool = false;
            let mut k: usize = 0;
            while k < out.len()
                invariant
                    0 <= k <= out.len(),
                    out.deep_view() == pre_out,
                    already == (exists|j: int|
                        0 <= j < k && #[trigger] out.deep_view()[j].name == name@),
                decreases out.len() - k,
            {
                if str_eq(out[k].name.as_str(), name) {
                    proof {
                        assert(out.deep_view()[k as int].name == name@);
                    }
                    already = true;
                }
                k += 1;
            }
            proof {
                assert(already == plan_has(pre_out, name@));
            }
            if !already {
                let args = parse_autostart_args(entries[i].args());
                match self.start_module(name, args.as_ref()) {
                    StartOutcome::Spawn(req) => {
                        out.push(req);
                    },
                    StartOutcome::AlreadyRunning => {},
                    StartOutcome::NotDiscovered => {},
                }
            }
            proof {
                let es = entries.deep_view();
                assert(es.take(i + 1).drop_last() =~= es.take(i as int));
                assert(es.take(i + 1).last() == es[i as int]);
                assert(crate::config::entry_name(es[i as int]) == name@);
                assert(out.deep_view() =~= plan_pre(self@, es.take(i + 1)));
            }
            i += 1;
        }
        proof {
            assert(entries.deep_view().take(entries@.len() as int) =~= entries.deep_view());
        }
        out
    }
}

} // verus!
