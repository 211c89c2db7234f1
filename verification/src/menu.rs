//! The tray-menu projection of the supervisor state.
//!
//! After every lifecycle mutation the caller rebuilds the menu descriptor
//! from the state, under the same lock that produced the change, and hands
//! it to the GUI. The modules submenu lists one checkable item per recorded
//! module — checked exactly when it runs — followed by one plain item per
//! discovered module that never ran.

use vstd::prelude::*;
use vstd::string::StringExecFns;
use crate::manager::DiscoveredModuleV;
use crate::manager::ManagerState;
use crate::manager::ModuleRecordV;
use crate::manager::disc_has;
use crate::manager::disc_names_unique;
use crate::manager::has_rec;
use crate::manager::names_unique;
use crate::manager::rec_of;
use crate::manager::state_wf;
use crate::text::str_eq;

verus! {

/// One entry of the modules submenu.
pub struct ModuleMenuItem {
    pub id: String,
    pub label: String,
    pub checkable: bool,
    pub checked: bool,
}

/// The mathematical value of a [`ModuleMenuItem`].
pub struct ModuleMenuItemV {
    pub id: Seq<char>,
    pub label: Seq<char>,
    pub checkable: bool,
    pub checked: bool,
}

impl View for ModuleMenuItem {
    type V = ModuleMenuItemV;

    open spec fn view(&self) -> ModuleMenuItemV {
        ModuleMenuItemV {
            id: self.id@,
            label: self.label@,
            checkable: self.checkable,
            checked: self.checked,
        }
    }
}

impl DeepView for ModuleMenuItem {
    type V = ModuleMenuItemV;

    open spec fn deep_view(&self) -> ModuleMenuItemV {
        self.view()
    }
}

/// One fixed item of the top-level menu.
pub enum TopItem {
    /// A plain clickable entry.
    Entry { id: String, label: String },
    /// A separator line.
    Separator,
    /// The place of the `Modules` submenu.
    ModulesSubmenu,
}

/// The mathematical value of a [`TopItem`].
pub enum TopItemV {
    Entry { id: Seq<char>, label: Seq<char> },
    Separator,
    ModulesSubmenu,
}

impl View for TopItem {
    type V = TopItemV;

    open spec fn view(&self) -> TopItemV {
        match self {
            TopItem::Entry { id, label } => TopItemV::Entry { id: id@, label: label@ },
            TopItem::Separator => TopItemV::Separator,
            TopItem::ModulesSubmenu => TopItemV::ModulesSubmenu,
        }
    }
}

impl DeepView for TopItem {
    type V = TopItemV;

    open spec fn deep_view(&self) -> TopItemV {
        self.view()
    }
}

/// The whole tray menu: the fixed top-level items and the modules submenu.
pub struct TrayMenu {
    pub top: Vec<TopItem>,
    pub modules: Vec<ModuleMenuItem>,
}

/// The fixed top-level structure: dashboard, the modules submenu, the two
/// folder entries, and quit, separated as the supervisor lays them out.
pub open spec fn top_items_spec() -> Seq<TopItemV> {
    seq![
        TopItemV::Entry { id: "open"@, label: "Open Dashboard"@ },
        TopItemV::Separator,
        TopItemV::ModulesSubmenu,
        TopItemV::Separator,
        TopItemV::Entry { id: "config_folder"@, label: "Open config folder"@ },
        TopItemV::Entry { id: "log_folder"@, label: "Open log folder"@ },
        TopItemV::Separator,
        TopItemV::Entry { id: "quit"@, label: "Quit ActivityWatch"@ },
    ]
}

/// The submenu item of one lifecycle record: checkable, checked while
/// running.
pub open spec fn record_item(r: ModuleRecordV) -> ModuleMenuItemV {
    ModuleMenuItemV { id: r.name, label: r.name, checkable: true, checked: r.running }
}

/// The submenu item of a discovered module that never ran.
pub open spec fn disc_item(d: DiscoveredModuleV) -> ModuleMenuItemV {
    ModuleMenuItemV { id: d.name, label: d.name, checkable: false, checked: false }
}

/// The trailing submenu items: one per discovered module without a record.
pub open spec fn disc_items(
    rs: Seq<ModuleRecordV>,
    ds: Seq<DiscoveredModuleV>,
) -> Seq<ModuleMenuItemV>
    decreases ds.len(),
{
    if ds.len() == 0 {
        Seq::empty()
    } else {
        disc_items(rs, ds.drop_last()) + (if has_rec(rs, ds.last().name) {
            Seq::empty()
        } else {
            seq![disc_item(ds.last())]
        })
    }
}

/// The leading submenu items: one checkable item per record, in order.
pub open spec fn record_items(rs: Seq<ModuleRecordV>) -> Seq<ModuleMenuItemV> {
    Seq::new(rs.len(), |i: int| record_item(rs[i]))
}

/// The full modules submenu: every record's item, then the never-run
/// discovered items.
pub open spec fn module_items_spec(
    rs: Seq<ModuleRecordV>,
    ds: Seq<DiscoveredModuleV>,
) -> Seq<ModuleMenuItemV> {
    record_items(rs) + disc_items(rs, ds)
}

/// An item with this id stands in the submenu.
pub open spec fn items_have(items: Seq<ModuleMenuItemV>, id: Seq<char>) -> bool {
    exists|i: int| 0 <= i < items.len() && #[trigger] items[i].id == id
}

/// The modules submenu is exact: under unique names it lists exactly the
/// union of the recorded and the discovered modules, each id once; a
/// recorded module's item is checkable and checked exactly while it runs,
/// and a discovered module that never ran gets one non-checkable item.
pub proof fn lemma_menu_exact(rs: Seq<ModuleRecordV>, ds: Seq<DiscoveredModuleV>)
    requires
        names_unique(rs),
        disc_names_unique(ds),
    ensures
        forall|i: int, j: int|
            0 <= i < j < module_items_spec(rs, ds).len() ==> #[trigger] module_items_spec(
                rs,
                ds,
            )[i].id != #[trigger] module_items_spec(rs, ds)[j].id,
        forall|id: Seq<char>|
            #[trigger] items_have(module_items_spec(rs, ds), id) == (has_rec(rs, id) || disc_has(
                ds,
                id,
            )),
        forall|i: int|
            0 <= i < module_items_spec(rs, ds).len() ==> (#[trigger] module_items_spec(
                rs,
                ds,
            )[i].checkable == has_rec(rs, module_items_spec(rs, ds)[i].id)),
        forall|i: int|
            0 <= i < module_items_spec(rs, ds).len() ==> (#[trigger] module_items_spec(
                rs,
                ds,
            )[i].checked == (has_rec(rs, module_items_spec(rs, ds)[i].id) && rec_of(
                rs,
                module_items_spec(rs, ds)[i].id,
            ).running)),
{
    lemma_disc_items(rs, ds);
    let items = module_items_spec(rs, ds);
    let rn = rs.len() as int;
    assert forall|i: int| 0 <= i < items.len() implies (#[trigger] items[i].checkable == has_rec(
        rs,
        items[i].id,
    ) && items[i].checked == (has_rec(rs, items[i].id) && rec_of(rs, items[i].id).running)) by {
        if i < rn {
            assert(items[i] == record_item(rs[i]));
            crate::manager::lemma_idx_unique(rs, rs[i].name, i);
        } else {
            assert(items[i] == disc_items(rs, ds)[i - rn]);
            assert(!has_rec(rs, items[i].id));
        }
    }
    assert forall|i: int, j: int| 0 <= i < j < items.len() implies #[trigger] items[i].id
        != #[trigger] items[j].id by {
        if j < rn {
            assert(items[i].id == rs[i].name && items[j].id == rs[j].name);
        } else if i < rn {
            assert(items[j] == disc_items(rs, ds)[j - rn]);
            assert(!has_rec(rs, items[j].id));
            assert(items[i].id == rs[i].name);
            if items[i].id == items[j].id {
                crate::manager::lemma_idx_unique(rs, rs[i].name, i);
            }
        } else {
            assert(items[i] == disc_items(rs, ds)[i - rn]);
            assert(items[j] == disc_items(rs, ds)[j - rn]);
        }
    }
    assert forall|id: Seq<char>| #[trigger] items_have(items, id) == (has_rec(rs, id) || disc_has(
        ds,
        id,
    )) by {
        if items_have(items, id) {
            let i = choose|i: int| 0 <= i < items.len() && #[trigger] items[i].id == id;
            if i < rn {
                assert(rs[i].name == id);
                assert(has_rec(rs, id));
            } else {
                assert(items[i] == disc_items(rs, ds)[i - rn]);
            }
        }
        if has_rec(rs, id) {
            let i = choose|i: int| 0 <= i < rs.len() && #[trigger] rs[i].name == id;
            assert(items[i].id == id);
        }
        if disc_has(ds, id) && !has_rec(rs, id) {
            assert(items_have(disc_items(rs, ds), id));
            let k = choose|k: int|
                0 <= k < disc_items(rs, ds).len() && #[trigger] disc_items(rs, ds)[k].id == id;
            assert(items[rn + k].id == id);
        }
    }
}

/// The discovered part of the submenu: its ids are unique, each belongs to a
/// discovered module without a record, and every such module appears.
proof fn lemma_disc_items(rs: Seq<ModuleRecordV>, ds: Seq<DiscoveredModuleV>)
    requires
        disc_names_unique(ds),
    ensures
        forall|i: int, j: int|
            0 <= i < j < disc_items(rs, ds).len() ==> #[trigger] disc_items(rs, ds)[i].id
                != #[trigger] disc_items(rs, ds)[j].id,
        forall|i: int|
            0 <= i < disc_items(rs, ds).len() ==> (!has_rec(
                rs,
                #[trigger] disc_items(rs, ds)[i].id,
            ) && disc_has(ds, disc_items(rs, ds)[i].id) && !disc_items(rs, ds)[i].checkable
                && !disc_items(rs, ds)[i].checked),
        forall|id: Seq<char>|
            #[trigger] items_have(disc_items(rs, ds), id) == (disc_has(ds, id) && !has_rec(rs, id)),
    decreases ds.len(),
{
    let items = disc_items(rs, ds);
    if ds.len() == 0 {
        assert forall|id: Seq<char>| !(#[trigger] items_have(items, id)) by {
            if items_have(items, id) {
                let i = choose|i: int| 0 <= i < items.len() && #[trigger] items[i].id == id;
            }
        }
        assert forall|id: Seq<char>| !(#[trigger] disc_has(ds, id)) by {
            if disc_has(ds, id) {
                let i = choose|i: int| 0 <= i < ds.len() && #[trigger] ds[i].name == id;
            }
        }
    } else {
        let dprior = ds.drop_last();
        let prior = disc_items(rs, dprior);
        let name = ds.last().name;
        lemma_disc_items(rs, dprior);
        assert forall|i: int| 0 <= i < items.len() implies (!has_rec(rs, #[trigger] items[i].id)
            && disc_has(ds, items[i].id) && !items[i].checkable && !items[i].checked) by {
            if i < prior.len() {
                assert(items[i] == prior[i]);
                assert(disc_has(dprior, items[i].id));
                let k = choose|k: int|
                    0 <= k < dprior.len() && #[trigger] dprior[k].name == items[i].id;
                assert(ds[k].name == items[i].id);
            } else {
                assert(items[i] == disc_item(ds.last()));
                assert(ds[ds.len() - 1].name == items[i].id);
            }
        }
        assert forall|i: int, j: int| 0 <= i < j < items.len() implies #[trigger] items[i].id
            != #[trigger] items[j].id by {
            if j < prior.len() {
                assert(items[i] == prior[i] && items[j] == prior[j]);
            } else {
                assert(items[i] == prior[i]);
                assert(items[j].id == name);
                assert(items_have(prior, prior[i].id)) by {
                    assert(prior[i].id == prior[i].id);
                }
                assert(disc_has(dprior, prior[i].id));
                let k = choose|k: int|
                    0 <= k < dprior.len() && #[trigger] dprior[k].name == prior[i].id;
                if prior[i].id == name {
                    assert(ds[k].name == ds[ds.len() - 1].name);
                }
            }
        }
        assert forall|id: Seq<char>| #[trigger] items_have(items, id) == (disc_has(ds, id)
            && !has_rec(rs, id)) by {
            if items_have(items, id) {
                let i = choose|i: int| 0 <= i < items.len() && #[trigger] items[i].id == id;
            }
            if disc_has(ds, id) && !has_rec(rs, id) {
                let k = choose|k: int| 0 <= k < ds.len() && #[trigger] ds[k].name == id;
                if k < dprior.len() {
                    assert(dprior[k].name == id);
                    assert(disc_has(dprior, id));
                    assert(items_have(prior, id));
                    let i = choose|i: int| 0 <= i < prior.len() && #[trigger] prior[i].id == id;
                    assert(items[i].id == id);
                } else {
                    assert(ds.last().name == id);
                    assert(items[items.len() - 1].id == id);
                }
            }
        }
    }
}

/// Builds the tray menu from the supervisor state, exactly as it is shown:
/// the fixed top-level items around a modules submenu that lists every
/// recorded module as a checkable item — checked while it runs — followed
/// by every discovered module that never ran.
pub fn update_tray_menu(state: &ManagerState) -> (r: TrayMenu)
    requires
        state_wf(state@),
    ensures
        r.top.deep_view() == top_items_spec(),
        r.modules.deep_view() == module_items_spec(state@.records, state@.discovered),
{
    let mut top: Vec<TopItem> = Vec::new();
    top.push(
        TopItem::Entry {
            id: String::from_str("open"),
            label: String::from_str("Open Dashboard"),
        },
    );
    top.push(TopItem::Separator);
    top.push(TopItem::ModulesSubmenu);
    top.push(TopItem::Separator);
    top.push(
        TopItem::Entry {
            id: String::from_str("config_folder"),
            label: String::from_str("Open config folder"),
        },
    );
    top.push(
        TopItem::Entry {
            id: String::from_str("log_folder"),
            label: String::from_str("Open log folder"),
        },
    );
    top.push(TopItem::Separator);
    top.push(
        TopItem::Entry {
            id: String::from_str("quit"),
            label: String::from_str("Quit ActivityWatch"),
        },
    );
    proof {
        assert(top.deep_view() =~= top_items_spec());
    }
    let mut modules: Vec<ModuleMenuItem> = Vec::new();
    let mut i: usize = 0;
    while i < state.records.len()
        invariant
            0 <= i <= state.records.len(),
            modules.deep_view() == record_items(state@.records.take(i as int)),
        decreases state.records.len() - i,
    {
        let ghost pre = modules.deep_view();
        let item = ModuleMenuItem {
            id: state.records[i].name.clone(),
            label: state.records[i].name.clone(),
            checkable: true,
            checked: state.records[i].running,
        };
        proof {
            assert(item@ == record_item(state@.records[i as int]));
        }
        modules.push(item);
        proof {
            assert(modules.deep_view() =~= pre.push(record_item(state@.records[i as int])));
            assert(modules.deep_view() =~= record_items(state@.records.take(i + 1)));
        }
        i += 1;
    }
    proof {
        assert(state@.records.take(state@.records.len() as int) =~= state@.records);
    }
    let mut k: usize = 0;
    while k < state.discovered.len()
        invariant
            state_wf(state@),
            0 <= k <= state.discovered.len(),
            modules.deep_view() == record_items(state@.records) + disc_items(
                state@.records,
                state@.discovered.take(k as int),
            ),
        decreases state.discovered.len() - k,
    {
        let mut found: bool = false;
        let name = &state.discovered[k].name;
        let mut j: usize = 0;
        while j < state.records.len()
            invariant
                0 <= j <= state.records.len(),
                name@ == state@.discovered[k as int].name,
                k < state.discovered.len(),
                found == (exists|t: int|
                    0 <= t < j && #[trigger] state@.records[t].name == name@),
            decreases state.records.len() - j,
        {
            if str_eq(state.records[j].name.as_str(), name.as_str()) {
                proof {
                    assert(state@.records[j as int].name == name@);
                }
                found = true;
            }
            j += 1;
        }
        proof {
            assert(found == has_rec(state@.records, state@.discovered[k as int].name));
        }
        let ghost pre = modules.deep_view();
        if !found {
            let item = ModuleMenuItem {
                id: state.discovered[k].name.clone(),
                label: state.discovered[k].name.clone(),
                checkable: false,
                checked: false,
            };
            proof {
                assert(item@ == disc_item(state@.discovered[k as int]));
            }
            modules.push(item);
            proof {
                assert(modules.deep_view() =~= pre.push(disc_item(state@.discovered[k as int])));
            }
        }
        proof {
            let ds = state@.discovered;
            assert(ds.take(k + 1).drop_last() =~= ds.take(k as int));
            assert(ds.take(k + 1).last() == ds[k as int]);
            assert(modules.deep_view() =~= record_items(state@.records) + disc_items(
                state@.records,
                ds.take(k + 1),
            ));
        }
        k += 1;
    }
    proof {
        assert(state@.discovered.take(state@.discovered.len() as int) =~= state@.discovered);
    }
    TrayMenu { top, modules }
}

/// Where a tray click is routed.
pub enum ClickTarget {
    /// Show and focus the main window.
    OpenDashboard,
    /// Stop every module and exit.
    Quit,
    /// Reveal the configuration directory.
    ConfigFolder,
    /// Reveal the log directory.
    LogFolder,
    /// Toggle the module with this name.
    Module(String),
}

/// Routes a menu click by its id: the four fixed ids go to their actions,
/// and any other id is a module name to toggle.
pub fn classify_click(id: &str) -> (r: ClickTarget)
    ensures
        (r is OpenDashboard) == (id@ == "open"@),
        (r is Quit) == (id@ == "quit"@),
        (r is ConfigFolder) == (id@ == "config_folder"@),
        (r is LogFolder) == (id@ == "log_folder"@),
        r matches ClickTarget::Module(name) ==> name@ == id@ && id@ != "open"@ && id@ != "quit"@
            && id@ != "config_folder"@ && id@ != "log_folder"@,
{
    proof {
        reveal_strlit("open");
        reveal_strlit("quit");
        reveal_strlit("config_folder");
        reveal_strlit("log_folder");
        assert("open"@[0] == 'o' && "quit"@[0] == 'q' && "config_folder"@[0] == 'c'
            && "log_folder"@[0] == 'l');
        assert("open"@ != "quit"@ && "open"@ != "config_folder"@ && "open"@ != "log_folder"@);
        assert("quit"@ != "config_folder"@ && "quit"@ != "log_folder"@);
        assert("config_folder"@ != "log_folder"@);
    }
    if str_eq(id, "open") {
        ClickTarget::OpenDashboard
    } else if str_eq(id, "quit") {
        ClickTarget::Quit
    } else if str_eq(id, "config_folder") {
        ClickTarget::ConfigFolder
    } else if str_eq(id, "log_folder") {
        ClickTarget::LogFolder
    } else {
        ClickTarget::Module(String::from_str(id))
    }
}

} // verus!
