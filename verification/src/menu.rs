//! The menu of the tray icon.
use vstd::prelude::*;
use vstd::string::*;

use crate::names::{
    key_list, law_key_list, law_key_order_exists, law_key_order_unique, lemma_push_contains,
    lists_keys, NameMap,
};
use crate::text::{law_order_irreflexive, text_lt};

verus! {

/// A module in the menu. Selecting it starts or stops the module; its
/// identifier and its label are its name.
#[derive(Debug)]
pub struct ModuleItem {
    pub name: String,
    /// Whether the item is ticked. A module that was never started has no
    /// tick box.
    pub checked: Option<bool>,
}

/// An entry of the menu. All entries are enabled.
#[derive(Debug)]
pub enum MenuEntry {
    Item { id: String, label: String },
    Separator,
    Modules { label: String, items: Vec<ModuleItem> },
}

/// A module in the menu as contracts speak of it: its name and its tick.
pub type ItemModel = (Seq<char>, Option<bool>);

/// An entry as contracts speak of it.
pub enum EntryModel {
    Item { id: Seq<char>, label: Seq<char> },
    Separator,
    Modules { label: Seq<char>, items: Seq<ItemModel> },
}

/// Several modules in the menu as contracts speak of them.
pub open spec fn item_models(items: Seq<ModuleItem>) -> Seq<ItemModel> {
    Seq::new(items.len(), |i: int| (items[i].name@, items[i].checked))
}

impl View for MenuEntry {
    type V = EntryModel;

    open spec fn view(&self) -> EntryModel {
        match *self {
            MenuEntry::Item { id, label } => EntryModel::Item { id: id@, label: label@ },
            MenuEntry::Separator => EntryModel::Separator,
            MenuEntry::Modules { label, items } => EntryModel::Modules {
                label: label@,
                items: item_models(items@),
            },
        }
    }
}

/// A menu as contracts speak of it.
pub open spec fn entry_models(menu: Seq<MenuEntry>) -> Seq<EntryModel> {
    Seq::new(menu.len(), |i: int| menu[i]@)
}

/// The modules in the menu: first those that were started at some time, in
/// the order of the names and ticked while they run, then the other known
/// ones, in the order of the names.
pub open spec fn module_items(
    running: Map<Seq<char>, bool>,
    known: Set<Seq<char>>,
) -> Seq<ItemModel> {
    key_list(running.dom()).map_values(|k: Seq<char>| (k, Some(running[k]))) + key_list(
        known.difference(running.dom()),
    ).map_values(|k: Seq<char>| (k, None::<bool>))
}

/// The whole menu.
pub open spec fn tray_menu(running: Map<Seq<char>, bool>, known: Set<Seq<char>>) -> Seq<EntryModel> {
    seq![
        EntryModel::Item { id: "open"@, label: "Open Dashboard"@ },
        EntryModel::Separator,
        EntryModel::Modules { label: "Modules"@, items: module_items(running, known) },
        EntryModel::Separator,
        EntryModel::Item { id: "config_folder"@, label: "Open config folder"@ },
        EntryModel::Item { id: "log_folder"@, label: "Open log folder"@ },
        EntryModel::Separator,
        EntryModel::Item { id: "quit"@, label: "Quit ActivityWatch"@ },
    ]
}

/// Every module that was started at some time or is known is in the menu,
/// and no other.
pub proof fn law_menu_is_complete(
    running: Map<Seq<char>, bool>,
    known: Set<Seq<char>>,
    name: Seq<char>,
)
    requires
        running.dom().finite(),
        known.finite(),
    ensures
        (exists|i: int|
            0 <= i < module_items(running, known).len() && (#[trigger] module_items(
                running,
                known,
            )[i]).0 == name) <==> running.contains_key(name) || known.contains(name),
{
    let started = key_list(running.dom());
    let others = key_list(known.difference(running.dom()));
    law_key_order_exists(running.dom());
    law_key_order_exists(known.difference(running.dom()));
    let all = module_items(running, known);
    if running.contains_key(name) {
        assert(started.contains(name));
        let i = started.index_of(name);
        assert(all[i].0 == name);
    } else if known.contains(name) {
        assert(known.difference(running.dom()).contains(name));
        assert(others.contains(name));
        let i = others.index_of(name);
        assert(all[started.len() + i].0 == name);
    }
    if exists|i: int| 0 <= i < all.len() && (#[trigger] all[i]).0 == name {
        let i = choose|i: int| 0 <= i < all.len() && (#[trigger] all[i]).0 == name;
        if i < started.len() {
            assert(started[i] == name);
            assert(started.contains(name));
            assert(running.dom().contains(name));
        } else {
            assert(others[i - started.len()] == name);
            assert(others.contains(name));
            assert(known.difference(running.dom()).contains(name));
        }
    }
}

/// No module stands in the menu twice; one that was started at some time is
/// ticked exactly while it runs, and one that never was has no tick box.
pub proof fn law_menu_shows_state(
    running: Map<Seq<char>, bool>,
    known: Set<Seq<char>>,
    i: int,
    j: int,
)
    requires
        running.dom().finite(),
        known.finite(),
        0 <= i < module_items(running, known).len(),
        0 <= j < module_items(running, known).len(),
    ensures
        module_items(running, known)[i].1 == tick_of(running, module_items(running, known)[i].0),
        i != j ==> module_items(running, known)[i].0 != module_items(running, known)[j].0,
{
    let started = key_list(running.dom());
    let others = key_list(known.difference(running.dom()));
    law_key_order_exists(running.dom());
    law_key_order_exists(known.difference(running.dom()));
    let all = module_items(running, known);
    assert forall|k: int| 0 <= k < all.len() implies (#[trigger] all[k]).1 == tick_of(
        running,
        all[k].0,
    ) && (k < started.len() <==> running.contains_key(all[k].0)) by {
        if k < started.len() {
            assert(started.contains(started[k]));
            assert(running.dom().contains(started[k]));
        } else {
            let other = others[k - started.len()];
            assert(others.contains(other));
            assert(known.difference(running.dom()).contains(other));
        }
    }
    law_order_irreflexive(all[i].0);
    let low = if i < j {
        i
    } else {
        j
    };
    let high = if i < j {
        j
    } else {
        i
    };
    if low < high < started.len() {
        assert(text_lt(started[low], started[high]));
    } else if started.len() <= low < high {
        assert(text_lt(others[low - started.len()], others[high - started.len()]));
    }
}

/// The tick of a module in the menu.
pub open spec fn tick_of(running: Map<Seq<char>, bool>, name: Seq<char>) -> Option<bool> {
    if running.contains_key(name) {
        Some(running[name])
    } else {
        None
    }
}

fn item(id: &str, label: &str) -> (r: MenuEntry)
    ensures
        r@ == (EntryModel::Item { id: id@, label: label@ }),
{
    MenuEntry::Item { id: id.to_owned(), label: label.to_owned() }
}

/// The menu for the modules that were started at some time, with whether
/// they run, and the modules that are known.
pub fn update_tray_menu<P>(running: &NameMap<bool>, discovered: &NameMap<P>) -> (r: Vec<MenuEntry>)
    ensures
        entry_models(r@) == tray_menu(running@, discovered@.dom()),
{
    let mut items: Vec<ModuleItem> = Vec::new();
    let n: usize = running.len();
    let ghost first = key_list(running@.dom()).map_values(|k: Seq<char>| (k, Some(running@[k])));
    let mut i: usize = 0;
    while i < n
        invariant
            i <= n,
            n == running.names().len(),
            running.names() == key_list(running@.dom()),
            first == key_list(running@.dom()).map_values(|k: Seq<char>| (k, Some(running@[k]))),
            item_models(items@) == first.take(i as int),
        decreases n - i,
    {
        let ghost before = item_models(items@);
        let name = running.name_at(i);
        let checked: bool = *running.value_at(i);
        items.push(ModuleItem { name: name.to_owned(), checked: Some(checked) });
        assert(item_models(items@) =~= before.push((name@, Some(checked))));
        assert(first.take(i + 1) =~= first.take(i as int).push(first[i as int]));
        i = i + 1;
    }
    assert(first.take(n as int) =~= first);

    let m: usize = discovered.len();
    let ghost names = discovered.names();
    let ghost mut others: Seq<Seq<char>> = Seq::empty();
    let mut j: usize = 0;
    assert(item_models(items@) =~= first + others.map_values(|k: Seq<char>| (k, None::<bool>)));
    while j < m
        invariant
            j <= m,
            m == names.len(),
            names == discovered.names(),
            lists_keys(names, discovered@.dom()),
            item_models(items@) == first + others.map_values(|k: Seq<char>| (k, None::<bool>)),
            forall|p: int, q: int| 0 <= p < q < others.len() ==> text_lt(others[p], others[q]),
            forall|p: int, q: int|
                0 <= p < others.len() && j <= q < names.len() ==> text_lt(others[p], names[q]),
            forall|k: Seq<char>| #[trigger]
                others.contains(k) <==> names.take(j as int).contains(k)
                    && !running@.contains_key(k),
        decreases m - j,
    {
        let name = discovered.name_at(j);
        let ghost was = others;
        let ghost shown = item_models(items@);
        if !running.contains_key(name) {
            items.push(ModuleItem { name: name.to_owned(), checked: None });
            proof {
                others = others.push(name@);
                assert(item_models(items@) =~= shown.push((name@, None::<bool>)));
                assert(item_models(items@) =~= first + others.map_values(
                    |k: Seq<char>| (k, None::<bool>),
                ));
            }
        }
        proof {
            let part = names.take(j as int);
            assert(names.take(j + 1) =~= part.push(names[j as int]));
            assert forall|k: Seq<char>| #[trigger] others.contains(k) <==> names.take(
                j + 1,
            ).contains(k) && !running@.contains_key(k) by {
                assert(was.contains(k) <==> part.contains(k) && !running@.contains_key(k));
                lemma_push_contains(part, names[j as int], k);
                lemma_push_contains(was, name@, k);
            }
        }
        j = j + 1;
    }
    proof {
        assert(names.take(m as int) =~= names);
        let rest = discovered@.dom().difference(running@.dom());
        assert forall|k: Seq<char>| others.contains(k) <==> #[trigger] rest.contains(k) by {
            assert(names.contains(k) <==> discovered@.dom().contains(k));
        }
        law_key_order_unique(others, rest);
    }

    let mut menu: Vec<MenuEntry> = Vec::new();
    menu.push(item("open", "Open Dashboard"));
    menu.push(MenuEntry::Separator);
    menu.push(MenuEntry::Modules { label: "Modules".to_owned(), items });
    menu.push(MenuEntry::Separator);
    menu.push(item("config_folder", "Open config folder"));
    menu.push(item("log_folder", "Open log folder"));
    menu.push(MenuEntry::Separator);
    menu.push(item("quit", "Quit ActivityWatch"));
    assert(entry_models(menu@) =~= tray_menu(running@, discovered@.dom()));
    menu
}

/// The modules that were started at some time come before the others, and
/// both in the order of the names.
pub proof fn law_menu_order(
    running: Map<Seq<char>, bool>,
    known: Set<Seq<char>>,
    i: int,
    j: int,
)
    requires
        running.dom().finite(),
        known.finite(),
        0 <= i < j < module_items(running, known).len(),
    ensures
        ({
            let a = module_items(running, known)[i].0;
            let b = module_items(running, known)[j].0;
            &&& running.contains_key(b) ==> running.contains_key(a)
            &&& running.contains_key(a) == running.contains_key(b) ==> text_lt(a, b)
        }),
{
    let started = key_list(running.dom());
    let others = key_list(known.difference(running.dom()));
    law_key_list(running.dom());
    law_key_list(known.difference(running.dom()));
    let all = module_items(running, known);
    if j < started.len() {
        assert(started.contains(started[i]));
        assert(started.contains(started[j]));
        assert(running.dom().contains(started[i]));
        assert(text_lt(started[i], started[j]));
    } else {
        let y = others[j - started.len()];
        assert(others.contains(y));
        assert(known.difference(running.dom()).contains(y));
        if i < started.len() {
            assert(started.contains(started[i]));
            assert(running.dom().contains(started[i]));
        } else {
            let x = others[i - started.len()];
            assert(others.contains(x));
            assert(known.difference(running.dom()).contains(x));
            assert(text_lt(x, y));
        }
    }
}

/// Whatever the modules, the menu offers the dashboard first, then the modules,
/// then the folders, and quitting last, in four groups.
pub proof fn law_menu_entries(running: Map<Seq<char>, bool>, known: Set<Seq<char>>)
    ensures
        ({
            let menu = tray_menu(running, known);
            &&& menu.len() == 8
            &&& menu[0] is Item && menu[0]->id == "open"@ && menu[0]->Item_label
                == "Open Dashboard"@
            &&& menu[1] is Separator
            &&& menu[2] is Modules && menu[2]->Modules_label == "Modules"@ && menu[2]->items
                == module_items(running, known)
            &&& menu[3] is Separator
            &&& menu[4] is Item && menu[4]->id == "config_folder"@ && menu[4]->Item_label
                == "Open config folder"@
            &&& menu[5] is Item && menu[5]->id == "log_folder"@ && menu[5]->Item_label
                == "Open log folder"@
            &&& menu[6] is Separator
            &&& menu[7] is Item && menu[7]->id == "quit"@ && menu[7]->Item_label
                == "Quit ActivityWatch"@
        }),
{
}

/// The menu and the modules in it stand as their entries, one for one.
pub proof fn law_menu_view(menu: Seq<MenuEntry>, items: Seq<ModuleItem>)
    ensures
        entry_models(menu).len() == menu.len(),
        forall|i: int| 0 <= i < menu.len() ==> #[trigger] entry_models(menu)[i] == menu[i]@,
        item_models(items).len() == items.len(),
        forall|i: int|
            0 <= i < items.len() ==> (#[trigger] item_models(items)[i]).0 == items[i].name@
                && item_models(items)[i].1 == items[i].checked,
{
}

/// An entry of the menu stands as what it shows.
pub proof fn law_entry_view(id: String, label: String, items: Vec<ModuleItem>)
    ensures
        MenuEntry::Separator@ is Separator,
        (MenuEntry::Item { id, label })@ == (EntryModel::Item { id: id@, label: label@ }),
        (MenuEntry::Modules { label, items })@ == (EntryModel::Modules {
            label: label@,
            items: item_models(items@),
        }),
{
}

} // verus!
