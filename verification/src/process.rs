//! The processes of the system: reading their listing, and finding module
//! processes that lost their parent.
use vstd::prelude::*;
use vstd::string::*;
use vstd::utf8::{decode_utf8, valid_utf8};

use crate::names::{
    key_list, law_key_list, lemma_push_contains, lemma_sorted_unique, lists_keys, strictly_sorted,
    NameMap,
};
use crate::outside::{lossy_text, text_from_bytes};
use crate::paths::{clone_bytes, opt_bytes};
use crate::state::path_models;
use crate::text::{
    chars_of, first_field, is_space, is_whitespace, law_first_field, law_lines, law_no_first_field,
    law_order_irreflexive, law_order_total, law_order_transitive, law_trim_start, lines, parse_u32,
    same_text, split_lines, starts_with, strip_cr, text_less, text_lt, texts, trim_start,
    trim_start_text, u32_value,
};

pub use crate::text::split_first_field;

verus! {

/// What a finished command left behind.
pub struct CommandOutput {
    pub success: bool,
    pub stdout: Vec<u8>,
}

/// A process of the system.
pub struct RunningProcess {
    pub pid: u32,
    pub ppid: u32,
    pub command: String,
}

/// A process as contracts speak of it.
pub struct ProcessModel {
    pub pid: u32,
    pub ppid: u32,
    pub command: Seq<char>,
}

impl View for RunningProcess {
    type V = ProcessModel;

    open spec fn view(&self) -> ProcessModel {
        ProcessModel { pid: self.pid, ppid: self.ppid, command: self.command@ }
    }
}

/// Several processes as contracts speak of them.
pub open spec fn processes(v: Seq<RunningProcess>) -> Seq<ProcessModel> {
    v.map_values(|p: RunningProcess| p@)
}

/// The process that a line of the listing describes: its number, its
/// parent's number and its command, separated by white space.
pub open spec fn process_of(line: Seq<char>) -> Option<ProcessModel> {
    match first_field(line) {
        Some((pid, rest)) => match first_field(rest) {
            Some((ppid, command)) => match (u32_value(pid), u32_value(ppid)) {
                (Some(pid), Some(ppid)) => Some(
                    ProcessModel { pid, ppid, command: trim_start(command) },
                ),
                _ => None,
            },
            None => None,
        },
        None => None,
    }
}

/// The processes in the text of a listing. Lines that describe none are
/// passed over.
pub open spec fn listed(text: Seq<char>) -> Seq<ProcessModel> {
    lines(text).filter_map(|line: Seq<char>| process_of(line))
}

/// Reads one line of the listing.
pub fn parse_process(line: &str) -> (r: Option<RunningProcess>)
    ensures
        match r {
            Some(p) => process_of(line@) == Some(p@),
            None => process_of(line@) is None,
        },
{
    match split_first_field(line) {
        Some((pid_text, rest)) => match split_first_field(rest) {
            Some((ppid_text, command)) => match parse_u32(pid_text) {
                Some(pid) => match parse_u32(ppid_text) {
                    Some(ppid) => Some(
                        RunningProcess { pid, ppid, command: trim_start_text(command).to_owned() },
                    ),
                    None => None,
                },
                None => None,
            },
            None => None,
        },
        None => None,
    }
}

/// Reads the text of a listing.
pub fn parse_processes(text: &str) -> (r: Vec<RunningProcess>)
    ensures
        processes(r@) == listed(text@),
{
    let rows: Vec<String> = split_lines(text);
    let ghost all = lines(text@);
    let ghost f = |line: Seq<char>| process_of(line);
    let mut r: Vec<RunningProcess> = Vec::new();
    let mut i: usize = 0;
    proof {
        assert(all.take(0) =~= Seq::<Seq<char>>::empty());
        assert(processes(r@) =~= all.take(0).filter_map(f));
    }
    while i < rows.len()
        invariant
            i <= rows.len(),
            all == lines(text@),
            texts(rows@) == all,
            f == (|line: Seq<char>| process_of(line)),
            processes(r@) == all.take(i as int).filter_map(f),
        decreases rows.len() - i,
    {
        let ghost before = r@;
        assert(texts(rows@)[i as int] == rows@[i as int]@);
        assert(all.len() == rows@.len());
        let row = parse_process(rows[i].as_str());
        proof {
            all.lemma_filter_map_take_succ(f, i as int);
        }
        match row {
            Some(p) => {
                r.push(p);
                assert(processes(r@) =~= processes(before).push(p@));
                assert(f(all[i as int]) == Some(p@));
            },
            None => {},
        }
        i = i + 1;
    }
    assert(all.take(all.len() as int) =~= all);
    r
}

/// The processes that a finished listing command reported. There are none
/// where the command could not be run or failed.
pub open spec fn reported(output: Option<CommandOutput>) -> Seq<ProcessModel> {
    match output {
        Some(o) => if o.success {
            listed(lossy_text(o.stdout@))
        } else {
            Seq::empty()
        },
        None => Seq::empty(),
    }
}

/// Whether a listing command succeeded and wrote valid UTF-8.
pub open spec fn reports_utf8(output: Option<CommandOutput>) -> bool {
    match output {
        Some(o) => o.success && valid_utf8(o.stdout@),
        None => false,
    }
}

/// Reads what a finished listing command reported.
pub fn list_running_processes(output: &Option<CommandOutput>) -> (r: Vec<RunningProcess>)
    ensures
        processes(r@) == reported(*output),
        reports_utf8(*output) ==> processes(r@) == listed(decode_utf8(output->0.stdout@)),
{
    match output {
        Some(o) => {
            if o.success {
                let text: String = text_from_bytes(&o.stdout);
                return parse_processes(text.as_str());
            }
        },
        None => {},
    }
    let none: Vec<RunningProcess> = Vec::new();
    assert(processes(none@) =~= Seq::empty());
    none
}

/// Whether a command line runs the program at `path`: it is the path, or the
/// path and white space stand at its start.
pub open spec fn runs_path(command: Seq<char>, path: Seq<char>) -> bool {
    ||| command == path
    ||| path.is_prefix_of(command) && path.len() < command.len() && is_space(
        command[path.len() as int],
    )
}

/// Whether a command line runs the program at `path`.
pub fn command_starts_with_path(command: &str, path: &str) -> (r: bool)
    ensures
        r == runs_path(command@, path@),
{
    if same_text(command, path) {
        return true;
    }
    if !starts_with(command, path) {
        return false;
    }
    let v: Vec<char> = chars_of(command);
    let n: usize = path.unicode_len();
    n < v.len() && is_whitespace(v[n])
}

/// Where a module's program is: the path it was found under, and the path
/// with all links resolved where the file system gives one.
pub struct ModuleLocation {
    pub path: String,
    pub canonical: Option<String>,
}

/// A location as contracts speak of it.
pub struct LocationModel {
    pub path: Seq<char>,
    pub canonical: Option<Seq<char>>,
}

impl View for ModuleLocation {
    type V = LocationModel;

    open spec fn view(&self) -> LocationModel {
        LocationModel {
            path: self.path@,
            canonical: match self.canonical {
                Some(c) => Some(c@),
                None => None,
            },
        }
    }
}

/// The location that two raw paths denote.
pub open spec fn location_of(path: Seq<u8>, canonical: Option<Seq<u8>>) -> LocationModel {
    LocationModel {
        path: lossy_text(path),
        canonical: match canonical {
            Some(c) => Some(lossy_text(c)),
            None => None,
        },
    }
}

/// The location that two paths in valid UTF-8 denote.
pub open spec fn utf8_location(path: Seq<u8>, canonical: Option<Seq<u8>>) -> LocationModel {
    LocationModel {
        path: decode_utf8(path),
        canonical: match canonical {
            Some(c) => Some(decode_utf8(c)),
            None => None,
        },
    }
}

/// Whether the paths of a location are valid UTF-8.
pub open spec fn is_utf8_location(path: Seq<u8>, canonical: Option<Seq<u8>>) -> bool {
    valid_utf8(path) && (match canonical {
        Some(c) => valid_utf8(c),
        None => true,
    })
}

/// Whether a command line runs the program at a location, under either path.
pub open spec fn runs_at(command: Seq<char>, location: LocationModel) -> bool {
    ||| runs_path(command, location.path)
    ||| match location.canonical {
        Some(c) => runs_path(command, c),
        None => false,
    }
}

/// Reads the raw paths of a module's program.
pub fn locate_module(path: &Vec<u8>, canonical: &Option<Vec<u8>>) -> (r: ModuleLocation)
    ensures
        r@ == location_of(path@, opt_bytes(*canonical)),
        is_utf8_location(path@, opt_bytes(*canonical)) ==> r@ == utf8_location(
            path@,
            opt_bytes(*canonical),
        ),
{
    let canonical_text: Option<String> = match canonical {
        Some(c) => Some(text_from_bytes(c)),
        None => None,
    };
    ModuleLocation { path: text_from_bytes(path), canonical: canonical_text }
}

/// Whether a command line runs the program at a location.
pub fn command_runs_at(command: &str, location: &ModuleLocation) -> (r: bool)
    ensures
        r == runs_at(command@, location@),
{
    if command_starts_with_path(command, location.path.as_str()) {
        return true;
    }
    match &location.canonical {
        Some(c) => command_starts_with_path(command, c.as_str()),
        None => false,
    }
}

/// Whether a command line runs the program at a raw path, `canonical` being
/// that path with all links resolved, if it could be resolved.
pub fn process_command_matches_path(
    command: &str,
    path: &Vec<u8>,
    canonical: &Option<Vec<u8>>,
) -> (r: bool)
    ensures
        r == runs_at(command@, location_of(path@, opt_bytes(*canonical))),
        is_utf8_location(path@, opt_bytes(*canonical)) ==> r == runs_at(
            command@,
            utf8_location(path@, opt_bytes(*canonical)),
        ),
{
    let location: ModuleLocation = locate_module(path, canonical);
    command_runs_at(command, &location)
}

/// Locations by module name as contracts speak of them.
pub open spec fn locations(m: Map<Seq<char>, ModuleLocation>) -> Map<Seq<char>, LocationModel> {
    m.map_values(|l: ModuleLocation| l@)
}

/// Whether `name` is the first module, in the order of the names, whose
/// program a command line runs.
pub open spec fn first_match(
    command: Seq<char>,
    modules: Map<Seq<char>, LocationModel>,
    name: Seq<char>,
) -> bool {
    &&& modules.contains_key(name)
    &&& runs_at(command, modules[name])
    &&& forall|other: Seq<char>| #[trigger]
        modules.contains_key(other) && runs_at(command, modules[other]) ==> !text_lt(other, name)
}

/// Whether a process other than `current` whose parent is the init process
/// runs the program of a module, `name` being the first such module.
pub open spec fn is_orphan_of(
    p: ProcessModel,
    current: u32,
    modules: Map<Seq<char>, LocationModel>,
    name: Seq<char>,
) -> bool {
    p.pid != current && p.ppid == 1 && first_match(p.command, modules, name)
}

/// Whether some process in `list` with number `pid` is an orphan of `name`.
pub open spec fn is_orphan(
    list: Seq<ProcessModel>,
    current: u32,
    modules: Map<Seq<char>, LocationModel>,
    name: Seq<char>,
    pid: u32,
) -> bool {
    exists|i: int|
        0 <= i < list.len() && (#[trigger] list[i]).pid == pid && is_orphan_of(
            list[i],
            current,
            modules,
            name,
        )
}

/// The order of module processes: by module name, then by number.
pub open spec fn pair_lt(a: (Seq<char>, u32), b: (Seq<char>, u32)) -> bool {
    text_lt(a.0, b.0) || (a.0 == b.0 && a.1 < b.1)
}

/// Module processes as contracts speak of them.
pub open spec fn pairs(v: Seq<(String, u32)>) -> Seq<(Seq<char>, u32)> {
    Seq::new(v.len(), |i: int| (v[i].0@, v[i].1))
}

/// Whether `found` lists the orphans among the processes of `list`, each
/// once, in increasing order.
pub open spec fn lists_orphans(
    found: Seq<(Seq<char>, u32)>,
    list: Seq<ProcessModel>,
    current: u32,
    modules: Map<Seq<char>, LocationModel>,
) -> bool {
    &&& strictly_sorted(found, |a: (Seq<char>, u32), b: (Seq<char>, u32)| pair_lt(a, b))
    &&& forall|name: Seq<char>, pid: u32|
        #![trigger found.contains((name, pid))]
        found.contains((name, pid)) <==> is_orphan(list, current, modules, name, pid)
}

/// The orphans among given processes, each once, in increasing order.
pub open spec fn orphan_list(
    list: Seq<ProcessModel>,
    current: u32,
    modules: Map<Seq<char>, LocationModel>,
) -> Seq<(Seq<char>, u32)> {
    choose|found: Seq<(Seq<char>, u32)>| lists_orphans(found, list, current, modules)
}

/// The orphans among given processes can be listed in one way only.
pub proof fn law_orphan_list_unique(
    a: Seq<(Seq<char>, u32)>,
    b: Seq<(Seq<char>, u32)>,
    list: Seq<ProcessModel>,
    current: u32,
    modules: Map<Seq<char>, LocationModel>,
)
    requires
        lists_orphans(a, list, current, modules),
        lists_orphans(b, list, current, modules),
    ensures
        a == b,
{
    let lt = |x: (Seq<char>, u32), y: (Seq<char>, u32)| pair_lt(x, y);
    assert forall|x: (Seq<char>, u32)| !(#[trigger] lt(x, x)) by {
        law_order_irreflexive(x.0);
    }
    assert forall|x: (Seq<char>, u32), y: (Seq<char>, u32), z: (Seq<char>, u32)| #[trigger]
        lt(x, y) && #[trigger] lt(y, z) implies lt(x, z) by {
        if text_lt(x.0, y.0) && text_lt(y.0, z.0) {
            law_order_transitive(x.0, y.0, z.0);
        }
    }
    assert forall|k: (Seq<char>, u32)| a.contains(k) <==> b.contains(k) by {
        assert(a.contains((k.0, k.1)) <==> is_orphan(list, current, modules, k.0, k.1));
        assert(b.contains((k.0, k.1)) <==> is_orphan(list, current, modules, k.0, k.1));
    }
    lemma_sorted_unique(a, b, lt);
}

/// One process is reported for one module at most.
pub proof fn law_one_module_per_process(
    p: ProcessModel,
    current: u32,
    modules: Map<Seq<char>, LocationModel>,
    a: Seq<char>,
    b: Seq<char>,
)
    requires
        is_orphan_of(p, current, modules, a),
        is_orphan_of(p, current, modules, b),
    ensures
        a == b,
{
    law_order_total(a, b);
}

/// Whether `a` comes before `(name, pid)` in the order of module processes.
fn pair_less(a: &(String, u32), name: &str, pid: u32) -> (r: bool)
    ensures
        r == pair_lt((a.0@, a.1), (name@, pid)),
{
    text_less(a.0.as_str(), name) || (same_text(a.0.as_str(), name) && a.1 < pid)
}

/// Puts a module process into an ordered list, unless it is there already.
fn insert_pair(list: &mut Vec<(String, u32)>, name: &str, pid: u32)
    requires
        strictly_sorted(
            pairs(old(list)@),
            |a: (Seq<char>, u32), b: (Seq<char>, u32)| pair_lt(a, b),
        ),
    ensures
        strictly_sorted(
            pairs(final(list)@),
            |a: (Seq<char>, u32), b: (Seq<char>, u32)| pair_lt(a, b),
        ),
        forall|k: (Seq<char>, u32)| #[trigger]
            pairs(final(list)@).contains(k) <==> pairs(old(list)@).contains(k) || k == (name@, pid),
{
    let ghost lt = |a: (Seq<char>, u32), b: (Seq<char>, u32)| pair_lt(a, b);
    let ghost was = pairs(list@);
    let ghost key = (name@, pid);
    let mut i: usize = 0;
    while i < list.len() && pair_less(&list[i], name, pid)
        invariant
            i <= list.len(),
            was == pairs(list@),
            key == (name@, pid),
            forall|j: int| 0 <= j < i ==> pair_lt(#[trigger] was[j], key),
        decreases list.len() - i,
    {
        assert(was[i as int] == (list@[i as int].0@, list@[i as int].1));
        i = i + 1;
    }
    if i < list.len() && list[i].1 == pid && same_text(list[i].0.as_str(), name) {
        assert(was[i as int] == key);
        assert(was.contains(key));
        return;
    }
    proof {
        assert forall|j: int| i <= j < was.len() implies pair_lt(key, #[trigger] was[j]) by {
            let at = was[i as int];
            assert(at == (list@[i as int].0@, list@[i as int].1));
            law_order_total(at.0, key.0);
            assert(pair_lt(key, at));
            if j > i {
                assert(lt(was[i as int], was[j]));
                if text_lt(key.0, at.0) && text_lt(at.0, was[j].0) {
                    law_order_transitive(key.0, at.0, was[j].0);
                }
            }
        }
    }
    list.insert(i, (name.to_owned(), pid));
    proof {
        let new = pairs(list@);
        assert(new =~= was.insert(i as int, key));
        assert(strictly_sorted(new, lt));
        assert forall|k: (Seq<char>, u32)| #[trigger] new.contains(k) <==> was.contains(k) || k
            == key by {
            if was.contains(k) {
                let j = was.index_of(k);
                assert(was[j] == k);
                if j < i {
                    assert(new[j] == k);
                } else {
                    assert(new[j + 1] == k);
                }
            }
            if k == key {
                assert(new[i as int] == k);
            }
            if new.contains(k) {
                let j = new.index_of(k);
                assert(new[j] == k);
                if j < i {
                    assert(was[j] == k);
                } else if j > i {
                    assert(was[j - 1] == k);
                }
            }
        }
    }
}

/// The index of the first module whose program a command line runs.
fn first_module(command: &str, modules: &NameMap<ModuleLocation>) -> (r: Option<usize>)
    ensures
        match r {
            Some(i) => i < modules.names().len() && first_match(
                command@,
                locations(modules@),
                modules.names()[i as int],
            ),
            None => forall|name: Seq<char>| !first_match(command@, locations(modules@), name),
        },
{
    let n: usize = modules.len();
    let ghost names = modules.names();
    let ghost places = locations(modules@);
    let mut i: usize = 0;
    while i < n
        invariant
            i <= n,
            n == names.len(),
            names == modules.names(),
            places == locations(modules@),
            lists_keys(names, modules@.dom()),
            forall|j: int| 0 <= j < i ==> !runs_at(command@, places[#[trigger] names[j]]),
        decreases n - i,
    {
        let place = modules.value_at(i);
        if command_runs_at(command, place) {
            proof {
                let name = names[i as int];
                assert forall|other: Seq<char>| #[trigger]
                    places.contains_key(other) && runs_at(
                        command@,
                        places[other],
                    ) implies !text_lt(other, name) by {
                    assert(modules@.contains_key(other));
                    let j = names.index_of(other);
                    assert(names[j] == other);
                    law_order_irreflexive(name);
                    if j > i {
                        assert(text_lt(name, other));
                        if text_lt(other, name) {
                            law_order_transitive(name, other, name);
                        }
                    }
                }
            }
            return Some(i);
        }
        i = i + 1;
    }
    proof {
        assert forall|name: Seq<char>| !first_match(command@, places, name) by {
            if places.contains_key(name) {
                assert(modules@.contains_key(name));
                let j = names.index_of(name);
                assert(names[j] == name);
            }
        }
    }
    None
}

/// The orphans among given processes, in increasing order.
pub fn orphans_among(
    list: &Vec<RunningProcess>,
    current_pid: u32,
    modules: &NameMap<ModuleLocation>,
) -> (r: Vec<(String, u32)>)
    ensures
        lists_orphans(pairs(r@), processes(list@), current_pid, locations(modules@)),
{
    let ghost places = locations(modules@);
    let ghost all = processes(list@);
    let mut found: Vec<(String, u32)> = Vec::new();
    let mut i: usize = 0;
    while i < list.len()
        invariant
            i <= list.len(),
            all == processes(list@),
            places == locations(modules@),
            strictly_sorted(
                pairs(found@),
                |a: (Seq<char>, u32), b: (Seq<char>, u32)| pair_lt(a, b),
            ),
            forall|name: Seq<char>, pid: u32|
                #![trigger pairs(found@).contains((name, pid))]
                pairs(found@).contains((name, pid)) <==> is_orphan(
                    all.take(i as int),
                    current_pid,
                    places,
                    name,
                    pid,
                ),
        decreases list.len() - i,
    {
        let ghost before = pairs(found@);
        let p = &list[i];
        assert(all[i as int] == p@);
        let matched: Option<usize> = if p.pid != current_pid && p.ppid == 1 {
            first_module(p.command.as_str(), modules)
        } else {
            None
        };
        match matched {
            Some(k) => {
                insert_pair(&mut found, modules.name_at(k), p.pid);
            },
            None => {},
        }
        proof {
            assert forall|name: Seq<char>, pid: u32|
                #![trigger pairs(found@).contains((name, pid))]
                pairs(found@).contains((name, pid)) <==> is_orphan(
                    all.take(i + 1),
                    current_pid,
                    places,
                    name,
                    pid,
                ) by {
                lemma_is_orphan_step(all, i as int, current_pid, places, name, pid);
                assert(before.contains((name, pid)) <==> is_orphan(
                    all.take(i as int),
                    current_pid,
                    places,
                    name,
                    pid,
                ));
                match matched {
                    Some(k) => {
                        let first = modules.names()[k as int];
                        assert(is_orphan_of(p@, current_pid, places, first));
                        if is_orphan_of(p@, current_pid, places, name) {
                            law_one_module_per_process(p@, current_pid, places, name, first);
                        }
                    },
                    None => {
                        assert(!is_orphan_of(p@, current_pid, places, name));
                    },
                }
            }
        }
        i = i + 1;
    }
    assert(all.take(all.len() as int) =~= all);
    found
}

proof fn lemma_is_orphan_step(
    all: Seq<ProcessModel>,
    i: int,
    current: u32,
    modules: Map<Seq<char>, LocationModel>,
    name: Seq<char>,
    pid: u32,
)
    requires
        0 <= i < all.len(),
    ensures
        is_orphan(all.take(i + 1), current, modules, name, pid) <==> is_orphan(
            all.take(i),
            current,
            modules,
            name,
            pid,
        ) || (all[i].pid == pid && is_orphan_of(all[i], current, modules, name)),
{
    let new = all.take(i + 1);
    let was = all.take(i);
    if is_orphan(new, current, modules, name, pid) {
        let j = choose|j: int|
            0 <= j < new.len() && (#[trigger] new[j]).pid == pid && is_orphan_of(
                new[j],
                current,
                modules,
                name,
            );
        if j < i {
            assert(was[j] == new[j]);
        }
    }
    if is_orphan(was, current, modules, name, pid) {
        let j = choose|j: int|
            0 <= j < was.len() && (#[trigger] was[j]).pid == pid && is_orphan_of(
                was[j],
                current,
                modules,
                name,
            );
        assert(new[j] == was[j]);
    }
    assert(new[i] == all[i]);
}

/// The orphans in a finished listing, in increasing order.
pub fn find_orphaned_module_processes(
    output: &Option<CommandOutput>,
    current_pid: u32,
    modules: &NameMap<ModuleLocation>,
) -> (r: Vec<(String, u32)>)
    ensures
        lists_orphans(pairs(r@), reported(*output), current_pid, locations(modules@)),
        reports_utf8(*output) ==> lists_orphans(
            pairs(r@),
            listed(decode_utf8(output->0.stdout@)),
            current_pid,
            locations(modules@),
        ),
{
    let list: Vec<RunningProcess> = list_running_processes(output);
    orphans_among(&list, current_pid, modules)
}

/// The resolved path of a module's program, if there is one.
pub open spec fn resolved(canonical: Map<Seq<char>, Seq<u8>>, name: Seq<char>) -> Option<Seq<u8>> {
    if canonical.contains_key(name) {
        Some(canonical[name])
    } else {
        None
    }
}

/// The locations of modules, given the paths of their programs and those of
/// these paths that could be resolved.
pub open spec fn module_locations(
    modules: Map<Seq<char>, Seq<u8>>,
    canonical: Map<Seq<char>, Seq<u8>>,
) -> Map<Seq<char>, LocationModel> {
    Map::new(
        |name: Seq<char>| modules.contains_key(name),
        |name: Seq<char>| location_of(modules[name], resolved(canonical, name)),
    )
}

/// The same where all these paths are valid UTF-8.
pub open spec fn utf8_module_locations(
    modules: Map<Seq<char>, Seq<u8>>,
    canonical: Map<Seq<char>, Seq<u8>>,
) -> Map<Seq<char>, LocationModel> {
    Map::new(
        |name: Seq<char>| modules.contains_key(name),
        |name: Seq<char>| utf8_location(modules[name], resolved(canonical, name)),
    )
}

/// Whether all paths of modules are valid UTF-8.
pub open spec fn are_utf8_locations(
    modules: Map<Seq<char>, Seq<u8>>,
    canonical: Map<Seq<char>, Seq<u8>>,
) -> bool {
    forall|name: Seq<char>| #[trigger]
        modules.contains_key(name) ==> is_utf8_location(modules[name], resolved(canonical, name))
}

/// Reads the raw paths of the programs of modules.
pub fn locate_modules(modules: &NameMap<Vec<u8>>, canonical: &NameMap<Vec<u8>>) -> (r: NameMap<
    ModuleLocation,
>)
    ensures
        locations(r@) == module_locations(path_models(modules@), path_models(canonical@)),
        are_utf8_locations(path_models(modules@), path_models(canonical@)) ==> locations(r@)
            == utf8_module_locations(path_models(modules@), path_models(canonical@)),
{
    let ghost paths = path_models(modules@);
    let ghost links = path_models(canonical@);
    let n: usize = modules.len();
    let ghost names = modules.names();
    let mut r: NameMap<ModuleLocation> = NameMap::new();
    let mut i: usize = 0;
    while i < n
        invariant
            i <= n,
            n == names.len(),
            names == modules.names(),
            paths == path_models(modules@),
            links == path_models(canonical@),
            lists_keys(names, modules@.dom()),
            forall|k: Seq<char>| #[trigger]
                r@.contains_key(k) <==> names.take(i as int).contains(k),
            forall|k: Seq<char>| #[trigger]
                r@.contains_key(k) ==> paths.contains_key(k) && r@[k]@ == location_of(
                    paths[k],
                    resolved(links, k),
                ) && (is_utf8_location(paths[k], resolved(links, k)) ==> r@[k]@ == utf8_location(
                    paths[k],
                    resolved(links, k),
                )),
        decreases n - i,
    {
        let name = modules.name_at(i);
        let path = modules.value_at(i);
        let link: Option<Vec<u8>> = match canonical.get(name) {
            Some(c) => Some(clone_bytes(c)),
            None => None,
        };
        assert(opt_bytes(link) == resolved(links, name@));
        r.insert(name, locate_module(path, &link));
        proof {
            assert(names.take(i + 1) =~= names.take(i as int).push(name@));
            assert forall|k: Seq<char>| #[trigger] names.take(i + 1).contains(k) <==> names.take(
                i as int,
            ).contains(k) || k == name@ by {
                lemma_push_contains(names.take(i as int), name@, k);
            }
        }
        i = i + 1;
    }
    proof {
        assert(names.take(n as int) =~= names);
        assert forall|k: Seq<char>| #[trigger] r@.contains_key(k) <==> paths.contains_key(k) by {
            assert(names.contains(k) <==> modules@.dom().contains(k));
        }
        assert(locations(r@) =~= module_locations(paths, links));
        if are_utf8_locations(paths, links) {
            assert(locations(r@) =~= utf8_module_locations(paths, links));
        }
    }
    r
}

/// A line with a number, a number and a command, with white space between
/// them, describes the process with these; it describes none if either is no
/// number.
pub proof fn law_listing_line(
    a: Seq<char>,
    pid: Seq<char>,
    b: Seq<char>,
    ppid: Seq<char>,
    c: Seq<char>,
    command: Seq<char>,
)
    requires
        forall|i: int| 0 <= i < a.len() ==> is_space(#[trigger] a[i]),
        forall|i: int| 0 <= i < b.len() ==> is_space(#[trigger] b[i]),
        forall|i: int| 0 <= i < c.len() ==> is_space(#[trigger] c[i]),
        b.len() > 0,
        c.len() > 0,
        pid.len() > 0,
        ppid.len() > 0,
        forall|i: int| 0 <= i < pid.len() ==> !is_space(#[trigger] pid[i]),
        forall|i: int| 0 <= i < ppid.len() ==> !is_space(#[trigger] ppid[i]),
        command.len() > 0 ==> !is_space(command[0]),
    ensures
        match process_of(a + pid + b + ppid + c + command) {
            Some(p) => u32_value(pid) == Some(p.pid) && u32_value(ppid) == Some(p.ppid)
                && p.command == command,
            None => u32_value(pid) is None || u32_value(ppid) is None,
        },
{
    let tail = c + command;
    let rest = b + ppid + tail;
    assert(a + pid + b + ppid + c + command =~= a + pid + rest);
    assert(rest[0] == b[0]);
    assert(tail[0] == c[0]);
    law_first_field(a, pid, rest);
    law_first_field(b, ppid, tail);
    law_trim_start(c, command);
}

/// A line with fewer than two fields and what follows them describes no
/// process.
pub proof fn law_short_line(a: Seq<char>, pid: Seq<char>, b: Seq<char>, ppid: Seq<char>)
    requires
        forall|i: int| 0 <= i < a.len() ==> is_space(#[trigger] a[i]),
        forall|i: int| 0 <= i < b.len() ==> is_space(#[trigger] b[i]),
        forall|i: int| 0 <= i < pid.len() ==> !is_space(#[trigger] pid[i]),
        forall|i: int| 0 <= i < ppid.len() ==> !is_space(#[trigger] ppid[i]),
    ensures
        process_of(a + pid) is None,
        pid.len() > 0 && b.len() > 0 ==> process_of(a + pid + b + ppid) is None,
{
    law_no_first_field(a, pid);
    if pid.len() > 0 && b.len() > 0 {
        assert(a + pid + b + ppid =~= a + pid + (b + ppid));
        assert((b + ppid)[0] == b[0]);
        law_first_field(a, pid, b + ppid);
        law_no_first_field(b, ppid);
    }
}

proof fn lemma_filter_map_front(x: Seq<char>, s: Seq<Seq<char>>)
    ensures
        (seq![x] + s).filter_map(|line: Seq<char>| process_of(line)) == (match process_of(x) {
            Some(p) => seq![p],
            None => Seq::empty(),
        }) + s.filter_map(|line: Seq<char>| process_of(line)),
    decreases s.len(),
{
    let f = |line: Seq<char>| process_of(line);
    let all = seq![x] + s;
    if s.len() == 0 {
        assert(all =~= seq![x]);
        assert(all.drop_last() =~= Seq::empty());
        assert(Seq::<Seq<char>>::empty().filter_map(f) =~= Seq::empty());
        assert(s =~= Seq::empty());
        all.lemma_filter_map_take_succ(f, 0);
        assert(all.take(0) =~= Seq::empty());
        assert(all.take(1) =~= all);
    } else {
        let t = seq![x] + s.drop_last();
        lemma_filter_map_front(x, s.drop_last());
        all.lemma_filter_map_take_succ(f, s.len() as int);
        assert(all.take(s.len() as int) =~= t);
        assert(all.take(s.len() as int + 1) =~= all);
        s.lemma_filter_map_take_succ(f, s.len() - 1);
        assert(s.take(s.len() - 1) =~= s.drop_last());
        assert(s.take(s.len() as int) =~= s);
    }
}

/// The processes of a listing are those of its lines, in their order: a line
/// in front adds the process it describes, if it describes one.
pub proof fn law_listing(line: Seq<char>, rest: Seq<char>)
    requires
        !line.contains('\n'),
    ensures
        listed(line.push('\n') + rest) == (match process_of(strip_cr(line)) {
            Some(p) => seq![p],
            None => Seq::empty(),
        }) + listed(rest),
        line.len() > 0 ==> listed(line) == (match process_of(line) {
            Some(p) => seq![p],
            None => Seq::empty(),
        }),
        listed(Seq::empty()).len() == 0,
{
    let f = |l: Seq<char>| process_of(l);
    law_lines(line, rest);
    lemma_filter_map_front(strip_cr(line), lines(rest));
    lemma_filter_map_front(line, Seq::empty());
    assert(Seq::<Seq<char>>::empty().filter_map(f) =~= Seq::empty());
    assert(lines(Seq::<char>::empty()) =~= Seq::empty());
    assert(seq![line] + Seq::<Seq<char>>::empty() =~= seq![line]);
}

/// Only a command that could be run and succeeded reports processes, and these
/// are the ones in its output.
pub proof fn law_reported(output: CommandOutput)
    ensures
        reported(None).len() == 0,
        output.success ==> reported(Some(output)) == listed(lossy_text(output.stdout@)),
        !output.success ==> reported(Some(output)).len() == 0,
{
}

/// A command line runs a program if it is the program's path, or goes on with
/// white space behind it; any other character behind the path makes it a
/// different program.
pub proof fn law_command_runs_path(path: Seq<char>, c: char, args: Seq<char>, other: Seq<char>)
    ensures
        runs_path(path, path),
        runs_path(path + seq![c] + args, path) <==> is_space(c),
        runs_path(other, path) ==> path.is_prefix_of(other),
{
    let command = path + seq![c] + args;
    assert(command.len() > path.len());
    assert(command[path.len() as int] == c);
    assert(path.is_prefix_of(command)) by {
        assert(command.subrange(0, path.len() as int) =~= path);
    }
    assert(path.is_prefix_of(path)) by {
        assert(path.subrange(0, path.len() as int) =~= path);
    }
}

/// A program runs at a location exactly if it runs under the path or under the
/// resolved path, if there is one.
pub proof fn law_runs_under_either_path(
    command: Seq<char>,
    path: Seq<char>,
    link: Seq<char>,
)
    ensures
        runs_at(command, LocationModel { path, canonical: None }) <==> runs_path(command, path),
        runs_path(command, path) ==> runs_at(
            command,
            LocationModel { path, canonical: Some(link) },
        ),
        runs_path(command, link) ==> runs_at(
            command,
            LocationModel { path, canonical: Some(link) },
        ),
        runs_at(command, LocationModel { path, canonical: Some(link) }) && !runs_path(
            command,
            link,
        ) ==> runs_path(command, path),
{
}

/// Every module has its location, under the texts of its path and of its
/// resolved path, and nothing else has one.
pub proof fn law_module_locations(
    modules: Map<Seq<char>, Seq<u8>>,
    canonical: Map<Seq<char>, Seq<u8>>,
    name: Seq<char>,
)
    ensures
        module_locations(modules, canonical).contains_key(name) <==> modules.contains_key(name),
        modules.contains_key(name) ==> {
            let place = module_locations(modules, canonical)[name];
            &&& place.path == lossy_text(modules[name])
            &&& place.canonical is Some <==> canonical.contains_key(name)
            &&& canonical.contains_key(name) ==> place.canonical == Some(
                lossy_text(canonical[name]),
            )
        },
{
}

/// A process other than the manager's whose parent is the init process and
/// which runs the program of some module is reported, for the first such
/// module in the order of the names.
pub proof fn law_orphans_are_reported(
    found: Seq<(Seq<char>, u32)>,
    list: Seq<ProcessModel>,
    current: u32,
    modules: Map<Seq<char>, LocationModel>,
    i: int,
    name: Seq<char>,
)
    requires
        lists_orphans(found, list, current, modules),
        modules.dom().finite(),
        0 <= i < list.len(),
        list[i].ppid == 1,
        list[i].pid != current,
        modules.contains_key(name),
        runs_at(list[i].command, modules[name]),
    ensures
        exists|first: Seq<char>| #[trigger]
            found.contains((first, list[i].pid)) && modules.contains_key(first) && runs_at(
                list[i].command,
                modules[first],
            ) && !text_lt(name, first),
{
    let p = list[i];
    let runs = modules.dom().filter(|n: Seq<char>| runs_at(p.command, modules[n]));
    law_key_list(runs);
    let names = key_list(runs);
    assert(runs.contains(name));
    assert(names.contains(name));
    let first = names[0];
    assert(names.contains(first));
    assert(runs.contains(first));
    assert forall|other: Seq<char>| #[trigger]
        modules.contains_key(other) && runs_at(p.command, modules[other]) implies !text_lt(
        other,
        first,
    ) by {
        assert(runs.contains(other));
        assert(names.contains(other));
        let j = names.index_of(other);
        assert(names[j] == other);
        law_order_irreflexive(first);
        if j > 0 {
            assert(text_lt(names[0], names[j]));
            if text_lt(other, first) {
                law_order_transitive(first, other, first);
            }
        }
    }
    assert(is_orphan_of(p, current, modules, first));
    assert(is_orphan(list, current, modules, first, p.pid));
    assert(found.contains((first, p.pid)));
    let k = names.index_of(name);
    assert(names[k] == name);
    law_order_irreflexive(first);
    if k > 0 && text_lt(name, first) {
        assert(text_lt(names[0], names[k]));
        law_order_transitive(first, name, first);
    }
}

/// Only processes other than the manager's whose parent is the init process
/// are reported, each for a module whose program it runs, and none for a
/// module that comes behind another one whose program it runs.
pub proof fn law_only_orphans_are_reported(
    found: Seq<(Seq<char>, u32)>,
    list: Seq<ProcessModel>,
    current: u32,
    modules: Map<Seq<char>, LocationModel>,
    name: Seq<char>,
    pid: u32,
)
    requires
        lists_orphans(found, list, current, modules),
        found.contains((name, pid)),
    ensures
        pid != current,
        modules.contains_key(name),
        exists|i: int|
            0 <= i < list.len() && (#[trigger] list[i]).pid == pid && list[i].ppid == 1 && runs_at(
                list[i].command,
                modules[name],
            ) && (forall|other: Seq<char>| #[trigger]
                modules.contains_key(other) && runs_at(list[i].command, modules[other])
                    ==> !text_lt(other, name)),
{
    assert(is_orphan(list, current, modules, name, pid));
    let i = choose|i: int|
        0 <= i < list.len() && (#[trigger] list[i]).pid == pid && is_orphan_of(
            list[i],
            current,
            modules,
            name,
        );
    assert(first_match(list[i].command, modules, name));
}

/// The orphans are listed by module name and then by number, none twice.
pub proof fn law_orphans_in_order(
    found: Seq<(Seq<char>, u32)>,
    list: Seq<ProcessModel>,
    current: u32,
    modules: Map<Seq<char>, LocationModel>,
    i: int,
    j: int,
)
    requires
        lists_orphans(found, list, current, modules),
        0 <= i < j < found.len(),
    ensures
        text_lt(found[i].0, found[j].0) || (found[i].0 == found[j].0 && found[i].1 < found[j].1),
{
    assert(pair_lt(found[i], found[j]));
}

/// Module processes stand as name and number, one for one.
pub proof fn law_pairs(v: Seq<(String, u32)>)
    ensures
        pairs(v).len() == v.len(),
        forall|i: int|
            0 <= i < v.len() ==> (#[trigger] pairs(v)[i]).0 == v[i].0@ && pairs(v)[i].1 == v[i].1,
{
}

/// Processes and locations stand as what they hold, several of them one for
/// one.
pub proof fn law_process_views(
    v: Seq<RunningProcess>,
    p: RunningProcess,
    place: ModuleLocation,
    places: Map<Seq<char>, ModuleLocation>,
    name: Seq<char>,
    path: Seq<u8>,
    link: Seq<u8>,
)
    ensures
        p@.pid == p.pid && p@.ppid == p.ppid && p@.command == p.command@,
        processes(v).len() == v.len(),
        forall|i: int| 0 <= i < v.len() ==> #[trigger] processes(v)[i] == v[i]@,
        place@.path == place.path@,
        place.canonical is None <==> place@.canonical is None,
        place.canonical is Some ==> place@.canonical == Some(place.canonical->0@),
        locations(places).contains_key(name) <==> places.contains_key(name),
        places.contains_key(name) ==> locations(places)[name] == places[name]@,
        location_of(path, Some(link)).path == lossy_text(path),
        location_of(path, Some(link)).canonical == Some(lossy_text(link)),
        location_of(path, None).path == lossy_text(path),
        location_of(path, None).canonical is None,
{
}

} // verus!
