//! Finding modules: walking the directories of the search path and picking
//! the programs in them that are modules.
use vstd::prelude::*;
use vstd::string::*;
use vstd::utf8::{decode_utf8, is_ascii_chars, valid_utf8};

use crate::names::{lemma_push_contains, NameMap};
use crate::outside::{ascii_lower, lowercase, lowercase_text, utf8_text};
use crate::paths::{clone_bytes, paths, search_directories, search_list};
use crate::state::path_models;
use crate::text::{chars_of, same_text, starts_with};

verus! {

/// What the file system says of a directory entry.
#[derive(Clone, Copy, Debug, PartialEq, Eq, Structural)]
pub struct EntryMeta {
    pub is_dir: bool,
    pub is_file: bool,
    pub is_symlink: bool,
    /// The permission bits.
    pub mode: u32,
}

/// A directory entry.
#[derive(Debug)]
pub struct Entry {
    pub path: Vec<u8>,
    pub file_name: Vec<u8>,
    /// Nothing if the file system could not be asked.
    pub meta: Option<EntryMeta>,
}

/// An entry as contracts speak of it.
pub struct EntryView {
    pub path: Seq<u8>,
    pub file_name: Seq<u8>,
    pub meta: Option<EntryMeta>,
}

impl View for Entry {
    type V = EntryView;

    open spec fn view(&self) -> EntryView {
        EntryView { path: self.path@, file_name: self.file_name@, meta: self.meta }
    }
}

/// Several entries as contracts speak of them.
pub open spec fn entry_views(v: Seq<Entry>) -> Seq<EntryView> {
    Seq::new(v.len(), |i: int| v[i]@)
}

/// What a directory entry is.
#[derive(Debug)]
pub enum Verdict {
    /// Of no interest.
    Skip,
    /// A directory to search.
    Descend,
    /// The program of the module with this name.
    Module(String),
}

/// A verdict as contracts speak of it.
pub enum VerdictModel {
    Skip,
    Descend,
    Module(Seq<char>),
}

impl View for Verdict {
    type V = VerdictModel;

    open spec fn view(&self) -> VerdictModel {
        match *self {
            Verdict::Skip => VerdictModel::Skip,
            Verdict::Descend => VerdictModel::Descend,
            Verdict::Module(name) => VerdictModel::Module(name@),
        }
    }
}

/// Programs of the project that are no modules.
pub open spec fn is_launcher(name: Seq<char>) -> bool {
    ||| name == "aw-tauri"@
    ||| name == "aw-client"@
    ||| name == "aw-cli"@
    ||| name == "aw-qt"@
    ||| name == "aw-server"@
    ||| name == "aw-server-rust"@
}

/// Programs that are no modules on Unix.
pub open spec fn is_excluded(name: Seq<char>) -> bool {
    is_launcher(name) || name == "aw-watcher-window-macos"@
}

/// Whether permission bits let anybody execute a file.
pub open spec fn is_executable(mode: u32) -> bool {
    mode & 0o111 != 0
}

/// Whether a file name is that of a module's program on Unix.
pub open spec fn is_module_name(name: Seq<char>) -> bool {
    "aw-"@.is_prefix_of(name) && !name.contains('.') && !is_excluded(name)
}

/// What a directory entry is on Unix.
pub open spec fn verdict_of(entry: EntryView) -> VerdictModel {
    match entry.meta {
        Some(meta) => {
            let name = decode_utf8(entry.file_name);
            if !valid_utf8(entry.file_name) || !"aw-"@.is_prefix_of(name) {
                VerdictModel::Skip
            } else if meta.is_dir {
                VerdictModel::Descend
            } else if (meta.is_file || meta.is_symlink) && is_module_name(name) && is_executable(
                meta.mode,
            ) {
                VerdictModel::Module(name)
            } else {
                VerdictModel::Skip
            }
        },
        None => VerdictModel::Skip,
    }
}

/// `name` without the ending of programs on Windows, if it has it.
pub open spec fn without_exe(name: Seq<char>) -> Option<Seq<char>> {
    if name.len() >= 4 && name.skip(name.len() - 4) == ".exe"@ {
        Some(name.take(name.len() - 4))
    } else {
        None
    }
}

/// What a directory entry is on Windows. `lower` is the lower case of the
/// file name without its ending.
pub open spec fn windows_verdict(
    name: Seq<char>,
    is_dir: bool,
    is_file: bool,
    lower: Seq<char>,
) -> VerdictModel {
    if !"aw-"@.is_prefix_of(name) {
        VerdictModel::Skip
    } else if is_dir {
        if is_launcher(name) {
            VerdictModel::Skip
        } else {
            VerdictModel::Descend
        }
    } else if is_file && without_exe(name) is Some && !is_launcher(lower) {
        VerdictModel::Module(lower)
    } else {
        VerdictModel::Skip
    }
}

/// What a directory entry is on Windows.
pub open spec fn windows_verdict_of(entry: EntryView) -> VerdictModel {
    match entry.meta {
        Some(meta) => if valid_utf8(entry.file_name) {
            let name = decode_utf8(entry.file_name);
            windows_verdict(
                name,
                meta.is_dir,
                meta.is_file,
                match without_exe(name) {
                    Some(stem) => lowercase(stem),
                    None => name,
                },
            )
        } else {
            VerdictModel::Skip
        },
        None => VerdictModel::Skip,
    }
}

/// Whether the file name of an entry without the ending of programs on
/// Windows is ASCII.
pub open spec fn has_ascii_stem(entry: EntryView) -> bool {
    match without_exe(decode_utf8(entry.file_name)) {
        Some(stem) => is_ascii_chars(stem),
        None => false,
    }
}

/// What a directory entry with an ASCII name is on Windows.
pub open spec fn ascii_windows_verdict(entry: EntryView) -> VerdictModel {
    match entry.meta {
        Some(meta) => if valid_utf8(entry.file_name) {
            let name = decode_utf8(entry.file_name);
            windows_verdict(
                name,
                meta.is_dir,
                meta.is_file,
                match without_exe(name) {
                    Some(stem) => stem.map_values(|c: char| ascii_lower(c)),
                    None => name,
                },
            )
        } else {
            VerdictModel::Skip
        },
        None => VerdictModel::Skip,
    }
}

fn launcher(name: &str) -> (r: bool)
    ensures
        r == is_launcher(name@),
{
    same_text(name, "aw-tauri") || same_text(name, "aw-client") || same_text(name, "aw-cli")
        || same_text(name, "aw-qt") || same_text(name, "aw-server") || same_text(
        name,
        "aw-server-rust",
    )
}

/// Whether a text holds a full stop.
fn has_dot(name: &str) -> (r: bool)
    ensures
        r == name@.contains('.'),
{
    let v: Vec<char> = chars_of(name);
    let mut i: usize = 0;
    while i < v.len()
        invariant
            i <= v.len(),
            v@ == name@,
            forall|j: int| 0 <= j < i ==> #[trigger] v@[j] != '.',
        decreases v.len() - i,
    {
        if v[i] == '.' {
            assert(name@[i as int] == '.');
            return true;
        }
        i = i + 1;
    }
    false
}

/// Tells what a directory entry is on Unix.
pub fn classify(entry: &Entry) -> (r: Verdict)
    ensures
        r@ == verdict_of(entry@),
{
    let meta: EntryMeta = match entry.meta {
        Some(meta) => meta,
        None => {
            return Verdict::Skip;
        },
    };
    let name: String = match utf8_text(&entry.file_name) {
        Some(name) => name,
        None => {
            return Verdict::Skip;
        },
    };
    if !starts_with(name.as_str(), "aw-") {
        return Verdict::Skip;
    }
    if meta.is_dir {
        return Verdict::Descend;
    }
    if !(meta.is_file || meta.is_symlink) {
        return Verdict::Skip;
    }
    if has_dot(name.as_str()) || launcher(name.as_str()) || same_text(
        name.as_str(),
        "aw-watcher-window-macos",
    ) {
        return Verdict::Skip;
    }
    if meta.mode & 0o111 != 0 {
        Verdict::Module(name)
    } else {
        Verdict::Skip
    }
}

/// Tells what a directory entry is on Windows, given its name, the file
/// system's word on it, and the lower case of its name without the ending.
pub fn classify_windows_name(name: &str, is_dir: bool, is_file: bool, lower: String) -> (r: Verdict)
    ensures
        r@ == windows_verdict(name@, is_dir, is_file, lower@),
{
    if !starts_with(name, "aw-") {
        return Verdict::Skip;
    }
    if is_dir {
        return if launcher(name) {
            Verdict::Skip
        } else {
            Verdict::Descend
        };
    }
    let has_ending: bool = match strip_exe(name) {
        Some(_) => true,
        None => false,
    };
    if is_file && has_ending && !launcher(lower.as_str()) {
        Verdict::Module(lower)
    } else {
        Verdict::Skip
    }
}

/// `name` without the ending of programs on Windows, if it has it.
pub fn strip_exe(name: &str) -> (r: Option<&str>)
    ensures
        match r {
            Some(stem) => without_exe(name@) == Some(stem@),
            None => without_exe(name@) is None,
        },
{
    let n: usize = name.unicode_len();
    proof {
        reveal_strlit(".exe");
    }
    if n >= 4 {
        let ending = name.substring_char(n - 4, n);
        assert(ending@ =~= name@.skip(name@.len() - 4));
        if same_text(ending, ".exe") {
            let stem = name.substring_char(0, n - 4);
            assert(stem@ =~= name@.take(name@.len() - 4));
            return Some(stem);
        }
    }
    None
}

/// Tells what a directory entry is on Windows.
pub fn classify_windows(entry: &Entry) -> (r: Verdict)
    ensures
        r@ == windows_verdict_of(entry@),
        has_ascii_stem(entry@) ==> r@ == ascii_windows_verdict(entry@),
{
    let meta: EntryMeta = match entry.meta {
        Some(meta) => meta,
        None => {
            return Verdict::Skip;
        },
    };
    match utf8_text(&entry.file_name) {
        Some(name) => {
            let lower: String = match strip_exe(name.as_str()) {
                Some(stem) => lowercase_text(stem),
                None => name.clone(),
            };
            classify_windows_name(name.as_str(), meta.is_dir, meta.is_file, lower)
        },
        None => Verdict::Skip,
    }
}

/// The systems whose rules differ.
#[derive(Clone, Copy, Debug, PartialEq, Eq, Structural)]
pub enum Platform {
    Unix,
    Windows,
}

/// What a directory entry is on a system.
pub open spec fn verdict_on(platform: Platform, entry: EntryView) -> VerdictModel {
    match platform {
        Platform::Unix => verdict_of(entry),
        Platform::Windows => windows_verdict_of(entry),
    }
}

/// The state of the search for modules.
pub struct Discovery {
    platform: Platform,
    pending: Vec<Vec<u8>>,
    visited: Vec<(u64, u64)>,
    found: NameMap<Vec<u8>>,
}

/// The state of the search as contracts speak of it.
#[verifier::ext_equal]
pub struct DiscoveryModel {
    pub platform: Platform,
    /// The directories still to search, the next one last.
    pub pending: Seq<Seq<u8>>,
    /// The identities of the directories that were searched.
    pub visited: Set<(u64, u64)>,
    /// The modules found so far and the paths of their programs.
    pub found: Map<Seq<char>, Seq<u8>>,
}

impl View for Discovery {
    type V = DiscoveryModel;

    closed spec fn view(&self) -> DiscoveryModel {
        DiscoveryModel {
            platform: self.platform,
            pending: paths(self.pending@),
            visited: self.visited@.to_set(),
            found: path_models(self.found@),
        }
    }
}

impl DiscoveryModel {
    /// The state before the search of `directories`.
    pub open spec fn initial(platform: Platform, directories: Seq<Seq<u8>>) -> DiscoveryModel {
        DiscoveryModel {
            platform,
            pending: directories,
            visited: Set::empty(),
            found: Map::empty(),
        }
    }

    /// The next directory was taken.
    pub open spec fn advanced(self) -> DiscoveryModel {
        DiscoveryModel { pending: self.pending.drop_last(), ..self }
    }

    /// Whether a directory is to be searched, given its identity.
    pub open spec fn admits(self, id: Option<(u64, u64)>) -> bool {
        match id {
            Some(i) => !self.visited.contains(i),
            None => false,
        }
    }

    /// A directory was entered.
    pub open spec fn entered(self, id: (u64, u64)) -> DiscoveryModel {
        DiscoveryModel { visited: self.visited.insert(id), ..self }
    }

    /// A directory entry was looked at.
    pub open spec fn seen(self, entry: EntryView) -> DiscoveryModel {
        match verdict_on(self.platform, entry) {
            VerdictModel::Skip => self,
            VerdictModel::Descend => DiscoveryModel {
                pending: self.pending.push(entry.path),
                ..self
            },
            VerdictModel::Module(name) => DiscoveryModel {
                found: self.found.insert(name, entry.path),
                ..self
            },
        }
    }

    /// The entries of a directory were looked at, one after the other.
    pub open spec fn scanned(self, entries: Seq<EntryView>) -> DiscoveryModel
        decreases entries.len(),
    {
        if entries.len() == 0 {
            self
        } else {
            self.scanned(entries.drop_last()).seen(entries.last())
        }
    }

    /// The state after a step of the search.
    pub open spec fn stepped(self, step: SearchStep) -> DiscoveryModel {
        match step {
            SearchStep::Take => self.advanced(),
            SearchStep::Enter { id } => self.entered(id),
            SearchStep::Scan { entries } => self.scanned(entries),
        }
    }

    /// The state after several steps of the search.
    pub open spec fn walked(self, steps: Seq<SearchStep>) -> DiscoveryModel
        decreases steps.len(),
    {
        if steps.len() == 0 {
            self
        } else {
            self.walked(steps.drop_last()).stepped(steps.last())
        }
    }
}

/// A step of the search.
pub enum SearchStep {
    /// The next directory was taken.
    Take,
    /// A directory was entered.
    Enter { id: (u64, u64) },
    /// The entries of a directory were looked at.
    Scan { entries: Seq<EntryView> },
}

impl Discovery {
    /// Starts a search of `directories`, the last of them first.
    pub fn new(platform: Platform, directories: Vec<Vec<u8>>) -> (r: Discovery)
        ensures
            r@ == DiscoveryModel::initial(platform, paths(directories@)),
    {
        let r = Discovery {
            platform,
            pending: directories,
            visited: Vec::new(),
            found: NameMap::new(),
        };
        assert(r@ =~= DiscoveryModel::initial(platform, paths(directories@)));
        r
    }

    /// Takes the next directory to search, if one is left.
    pub fn next_directory(&mut self) -> (r: Option<Vec<u8>>)
        ensures
            match r {
                Some(dir) => {
                    &&& old(self)@.pending.len() > 0
                    &&& dir@ == old(self)@.pending.last()
                    &&& final(self)@ == old(self)@.advanced()
                },
                None => old(self)@.pending.len() == 0 && final(self)@ == old(self)@,
            },
    {
        let r: Option<Vec<u8>> = self.pending.pop();
        proof {
            if r is Some {
                assert(self@ =~= old(self)@.advanced());
            } else {
                assert(self@ =~= old(self)@);
            }
        }
        r
    }

    /// Decides whether to search a directory, given its identity in the file
    /// system: not if it has none, and not if it was searched before.
    pub fn enter(&mut self, id: Option<(u64, u64)>) -> (r: bool)
        ensures
            match id {
                Some(i) => {
                    &&& r == !old(self)@.visited.contains(i)
                    &&& final(self)@ == old(self)@.entered(i)
                },
                None => !r && final(self)@ == old(self)@,
            },
            r == old(self)@.admits(id),
    {
        let wanted: (u64, u64) = match id {
            Some(i) => i,
            None => {
                return false;
            },
        };
        let mut k: usize = 0;
        while k < self.visited.len()
            invariant
                k <= self.visited.len(),
                *self == *old(self),
                forall|j: int| 0 <= j < k ==> #[trigger] self.visited@[j] != wanted,
                id == Some(wanted),
            decreases self.visited.len() - k,
        {
            if self.visited[k].0 == wanted.0 && self.visited[k].1 == wanted.1 {
                proof {
                    assert(self.visited@[k as int] == wanted);
                    assert(self@.visited.contains(wanted));
                    assert(self@ =~= old(self)@.entered(wanted));
                }
                return false;
            }
            k = k + 1;
        }
        self.visited.push(wanted);
        proof {
            assert(!old(self)@.visited.contains(wanted));
            old(self).visited@.lemma_push_to_set_commute(wanted);
            assert(self@ =~= old(self)@.entered(wanted));
        }
        true
    }

    /// Looks at the entries of a directory.
    pub fn scan(&mut self, entries: &Vec<Entry>)
        ensures
            final(self)@ == old(self)@.scanned(entry_views(entries@)),
            forall|i: int|
                0 <= i < entries@.len() && old(self)@.platform is Windows && has_ascii_stem(
                    (#[trigger] entries@[i])@,
                ) ==> windows_verdict_of(entries@[i]@) == ascii_windows_verdict(entries@[i]@),
    {
        let ghost all = entry_views(entries@);
        let mut i: usize = 0;
        assert(all.take(0) =~= Seq::empty());
        while i < entries.len()
            invariant
                i <= entries.len(),
                all == entry_views(entries@),
                self@ == old(self)@.scanned(all.take(i as int)),
                forall|j: int|
                    0 <= j < i && old(self)@.platform is Windows && has_ascii_stem(
                        (#[trigger] entries@[j])@,
                    ) ==> windows_verdict_of(entries@[j]@) == ascii_windows_verdict(entries@[j]@),
            decreases entries.len() - i,
        {
            proof {
                assert(all.take(i + 1).drop_last() =~= all.take(i as int));
                assert(all.take(i + 1).last() == entries@[i as int]@);
                lemma_scan(old(self)@, all.take(i as int));
            }
            self.look_at(&entries[i]);
            i = i + 1;
        }
        assert(all.take(all.len() as int) =~= all);
    }

    /// Looks at one directory entry.
    pub fn look_at(&mut self, entry: &Entry)
        ensures
            final(self)@ == old(self)@.seen(entry@),
            old(self)@.platform is Windows && has_ascii_stem(entry@) ==> windows_verdict_of(entry@)
                == ascii_windows_verdict(entry@),
    {
        let verdict: Verdict = match self.platform {
            Platform::Unix => classify(entry),
            Platform::Windows => classify_windows(entry),
        };
        match verdict {
            Verdict::Skip => {},
            Verdict::Descend => {
                self.pending.push(clone_bytes(&entry.path));
                assert(self@ =~= old(self)@.seen(entry@));
            },
            Verdict::Module(name) => {
                self.found.insert(name.as_str(), clone_bytes(&entry.path));
                assert(self@ =~= old(self)@.seen(entry@));
            },
        }
    }

    /// Ends the search and hands out the modules that were found.
    pub fn finish(self) -> (r: NameMap<Vec<u8>>)
        ensures
            path_models(r@) == self@.found,
    {
        self.found
    }
}

/// Starts the search for modules in the directories of the search path
/// variable and of the configuration on Unix.
pub fn discover_modules(path_list: &Vec<u8>, discovery_paths: &Vec<Vec<u8>>) -> (r: Discovery)
    ensures
        r@ == DiscoveryModel::initial(
            Platform::Unix,
            search_list(path_list@, paths(discovery_paths@)),
        ),
{
    Discovery::new(Platform::Unix, search_directories(path_list, discovery_paths))
}

/// `list` with the numbers in `extra` put in front, one after the other, each
/// unless it is in the list by then.
pub open spec fn with_numbers(list: Seq<u64>, extra: Seq<u64>) -> Seq<u64>
    decreases extra.len(),
{
    if extra.len() == 0 {
        list
    } else {
        let so_far = with_numbers(list, extra.drop_last());
        if so_far.contains(extra.last()) {
            so_far
        } else {
            seq![extra.last()] + so_far
        }
    }
}

/// The directories to search on Windows, where each path stands as a number:
/// those of the search path variable, with the directory of the program, if it
/// is known, and then those of the configuration in front.
pub open spec fn windows_order(
    listed: Seq<u64>,
    program_directory: Option<u64>,
    discovery_paths: Seq<u64>,
) -> Seq<u64> {
    with_numbers(
        match program_directory {
            Some(own) => with_numbers(listed, seq![own]),
            None => listed,
        },
        discovery_paths,
    )
}

/// Puts a number in front of a list unless it is there.
fn prepend_number(list: Vec<u64>, number: u64) -> (r: Vec<u64>)
    ensures
        r@ == with_numbers(list@, seq![number]),
{
    let ghost base = list@;
    let mut r: Vec<u64> = list;
    let mut i: usize = 0;
    assert(seq![number].drop_last() =~= Seq::empty());
    assert(with_numbers(base, seq![number].drop_last()) == base);
    while i < r.len()
        invariant
            i <= r.len(),
            base == list@,
            r@ == base,
            forall|j: int| 0 <= j < i ==> #[trigger] base[j] != number,
            with_numbers(base, seq![number].drop_last()) == base,
        decreases r.len() - i,
    {
        if r[i] == number {
            assert(base[i as int] == number);
            assert(base.contains(number));
            return r;
        }
        i = i + 1;
    }
    r.insert(0, number);
    assert(r@ =~= seq![number] + base);
    r
}

proof fn lemma_with_numbers_step(list: Seq<u64>, extra: Seq<u64>, next: u64)
    ensures
        with_numbers(list, extra.push(next)) == with_numbers(
            with_numbers(list, extra),
            seq![next],
        ),
{
    let so_far = with_numbers(list, extra);
    assert(extra.push(next).drop_last() =~= extra);
    assert(seq![next].drop_last() =~= Seq::empty());
    assert(with_numbers(so_far, seq![next].drop_last()) == so_far);
}

/// The order in which the directories to search stand on Windows. Each path
/// stands as a number, the same number for paths that the system takes for
/// the same.
pub fn windows_search_order(
    listed: Vec<u64>,
    program_directory: Option<u64>,
    discovery_paths: &Vec<u64>,
) -> (r: Vec<u64>)
    ensures
        r@ == windows_order(listed@, program_directory, discovery_paths@),
{
    let mut r: Vec<u64> = match program_directory {
        Some(own) => prepend_number(listed, own),
        None => listed,
    };
    let ghost base = r@;
    let ghost extra = discovery_paths@;
    let mut i: usize = 0;
    assert(extra.take(0) =~= Seq::empty());
    while i < discovery_paths.len()
        invariant
            i <= discovery_paths.len(),
            extra == discovery_paths@,
            r@ == with_numbers(base, extra.take(i as int)),
        decreases discovery_paths.len() - i,
    {
        r = prepend_number(r, discovery_paths[i]);
        proof {
            lemma_with_numbers_step(base, extra.take(i as int), extra[i as int]);
            assert(extra.take(i + 1) =~= extra.take(i as int).push(extra[i as int]));
        }
        i = i + 1;
    }
    assert(extra.take(extra.len() as int) =~= extra);
    r
}

proof fn lemma_with_numbers(list: Seq<u64>, extra: Seq<u64>)
    ensures
        with_numbers(list, extra).len() >= list.len(),
        with_numbers(list, extra).skip(with_numbers(list, extra).len() - list.len()) == list,
        forall|n: u64| #[trigger]
            with_numbers(list, extra).contains(n) <==> list.contains(n) || extra.contains(n),
    decreases extra.len(),
{
    let all = with_numbers(list, extra);
    if extra.len() == 0 {
        assert(all.skip(0) =~= list);
    } else {
        let shorter = extra.drop_last();
        let so_far = with_numbers(list, shorter);
        lemma_with_numbers(list, shorter);
        if !so_far.contains(extra.last()) {
            assert(all.skip(all.len() - list.len()) =~= so_far.skip(so_far.len() - list.len()));
        }
        assert forall|n: u64| #[trigger] all.contains(n) <==> list.contains(n) || extra.contains(
            n,
        ) by {
            assert(so_far.contains(n) <==> list.contains(n) || shorter.contains(n));
            assert(extra =~= shorter.push(extra.last()));
            lemma_push_contains(shorter, extra.last(), n);
            if so_far.contains(n) && !so_far.contains(extra.last()) {
                let i = so_far.index_of(n);
                assert(all[i + 1] == n);
            }
            if !so_far.contains(extra.last()) {
                assert(all[0] == extra.last());
                if all.contains(n) && n != extra.last() {
                    let i = all.index_of(n);
                    assert(so_far[i - 1] == n);
                }
            }
        }
    }
}

/// On Windows the directories of the search path variable stay behind the
/// others as they were, and no directory is left out or made up.
pub proof fn law_windows_order(
    listed: Seq<u64>,
    program_directory: Option<u64>,
    discovery_paths: Seq<u64>,
    n: u64,
)
    ensures
        ({
            let all = windows_order(listed, program_directory, discovery_paths);
            &&& all.len() >= listed.len()
            &&& all.skip(all.len() - listed.len()) == listed
            &&& all.contains(n) <==> listed.contains(n) || program_directory == Some(n)
                || discovery_paths.contains(n)
        }),
{
    let all = windows_order(listed, program_directory, discovery_paths);
    match program_directory {
        Some(own) => {
            let with_own = with_numbers(listed, seq![own]);
            lemma_with_numbers(listed, seq![own]);
            lemma_with_numbers(with_own, discovery_paths);
            assert(seq![own].contains(n) <==> n == own) by {
                assert(seq![own][0] == own);
            }
            assert(all.skip(all.len() - listed.len()) =~= all.skip(
                all.len() - with_own.len(),
            ).skip(with_own.len() - listed.len()));
        },
        None => {
            lemma_with_numbers(listed, discovery_paths);
        },
    }
}

pub proof fn lemma_scan(m: DiscoveryModel, entries: Seq<EntryView>)
    ensures
        m.scanned(entries).platform == m.platform,
        m.scanned(entries).visited == m.visited,
        m.scanned(entries).pending.len() >= m.pending.len(),
        m.scanned(entries).pending.take(m.pending.len() as int) == m.pending,
        m.found.dom().subset_of(m.scanned(entries).found.dom()),
    decreases entries.len(),
{
    if entries.len() > 0 {
        let before = m.scanned(entries.drop_last());
        lemma_scan(m, entries.drop_last());
        assert(m.scanned(entries).pending.take(m.pending.len() as int) =~= before.pending.take(
            m.pending.len() as int,
        ));
    } else {
        assert(m.pending.take(m.pending.len() as int) =~= m.pending);
    }
}

/// Looking at the entries of a directory loses neither a directory still to
/// search nor a module found before, and enters no directory.
pub proof fn law_scan_loses_nothing(m: DiscoveryModel, entries: Seq<EntryView>)
    ensures
        m.scanned(entries).visited == m.visited,
        m.scanned(entries).pending.len() >= m.pending.len(),
        m.scanned(entries).pending.take(m.pending.len() as int) == m.pending,
        m.found.dom().subset_of(m.scanned(entries).found.dom()),
{
    lemma_scan(m, entries);
}

/// Of several programs with the name of one module, the one seen last is
/// taken.
pub proof fn law_last_program_taken(m: DiscoveryModel, entry: EntryView, name: Seq<char>)
    requires
        verdict_on(m.platform, entry) == VerdictModel::Module(name),
    ensures
        m.seen(entry).found.contains_key(name),
        m.seen(entry).found[name] == entry.path,
{
}

/// The directory at the front of the list is searched last of those in the
/// list: it stays in front as long as another one is left, whatever the
/// others hold.
pub proof fn law_front_searched_last(m: DiscoveryModel, entries: Seq<EntryView>)
    requires
        m.pending.len() > 1,
    ensures
        m.advanced().pending.len() > 0,
        m.advanced().scanned(entries).pending.len() > 0,
        m.advanced().scanned(entries).pending[0] == m.pending[0],
{
    let next = m.advanced();
    lemma_scan(next, entries);
    assert(next.scanned(entries).pending.take(next.pending.len() as int)[0]
        == next.scanned(entries).pending[0]);
}

/// An entry that cannot be asked about, or whose name does not start with
/// the prefix of modules, changes nothing.
pub proof fn law_foreign_entries_ignored(m: DiscoveryModel, entry: EntryView)
    requires
        entry.meta is None || !valid_utf8(entry.file_name) || !"aw-"@.is_prefix_of(
            decode_utf8(entry.file_name),
        ),
    ensures
        m.seen(entry) == m,
{
}

proof fn lemma_walk(m: DiscoveryModel, steps: Seq<SearchStep>)
    ensures
        m.walked(steps).platform == m.platform,
        m.visited.subset_of(m.walked(steps).visited),
        m.found.dom().subset_of(m.walked(steps).found.dom()),
    decreases steps.len(),
{
    if steps.len() > 0 {
        lemma_walk(m, steps.drop_last());
        match steps.last() {
            SearchStep::Scan { entries } => {
                lemma_scan(m.walked(steps.drop_last()), entries);
            },
            _ => {},
        }
    }
}

/// A directory is searched once: when one that was entered before is to be
/// entered again, under whatever path, it is known by then.
pub proof fn law_directory_searched_once(
    m: DiscoveryModel,
    steps: Seq<SearchStep>,
    id: (u64, u64),
    i: int,
)
    requires
        0 <= i < steps.len(),
        steps[i] == (SearchStep::Enter { id }),
    ensures
        m.walked(steps).visited.contains(id),
    decreases steps.len(),
{
    let shorter = steps.drop_last();
    if i < shorter.len() {
        assert(shorter[i] == steps[i]);
        law_directory_searched_once(m, shorter, id, i);
        match steps.last() {
            SearchStep::Scan { entries } => {
                lemma_scan(m.walked(shorter), entries);
            },
            _ => {},
        }
    }
}

/// How many directories were entered in a series of steps.
pub open spec fn enters(steps: Seq<SearchStep>) -> nat
    decreases steps.len(),
{
    if steps.len() == 0 {
        0
    } else if steps.last() is Enter {
        enters(steps.drop_last()) + 1
    } else {
        enters(steps.drop_last())
    }
}

/// Whether no directory is entered in a series of steps that had been entered
/// before.
pub open spec fn enters_anew(m: DiscoveryModel, steps: Seq<SearchStep>) -> bool
    decreases steps.len(),
{
    steps.len() > 0 ==> {
        &&& enters_anew(m, steps.drop_last())
        &&& steps.last() matches SearchStep::Enter { id } ==> !m.walked(
            steps.drop_last(),
        ).visited.contains(id)
    }
}

/// However directories lead to each other, of the directories `ids` no more
/// are entered than there are.
pub proof fn law_search_is_bounded(
    platform: Platform,
    directories: Seq<Seq<u8>>,
    steps: Seq<SearchStep>,
    ids: Set<(u64, u64)>,
)
    requires
        ids.finite(),
        enters_anew(DiscoveryModel::initial(platform, directories), steps),
        forall|i: int|
            0 <= i < steps.len() ==> (#[trigger] steps[i] matches SearchStep::Enter { id }
                ==> ids.contains(id)),
    ensures
        enters(steps) <= ids.len(),
{
    lemma_enters(platform, directories, steps, ids);
    vstd::set_lib::lemma_len_subset(
        DiscoveryModel::initial(platform, directories).walked(steps).visited,
        ids,
    );
}

proof fn lemma_enters(
    platform: Platform,
    directories: Seq<Seq<u8>>,
    steps: Seq<SearchStep>,
    ids: Set<(u64, u64)>,
)
    requires
        enters_anew(DiscoveryModel::initial(platform, directories), steps),
        forall|i: int|
            0 <= i < steps.len() ==> (#[trigger] steps[i] matches SearchStep::Enter { id }
                ==> ids.contains(id)),
    ensures
        ({
            let visited = DiscoveryModel::initial(platform, directories).walked(steps).visited;
            &&& visited.finite()
            &&& visited.len() == enters(steps)
            &&& visited.subset_of(ids)
        }),
    decreases steps.len(),
{
    let m = DiscoveryModel::initial(platform, directories);
    if steps.len() > 0 {
        let shorter = steps.drop_last();
        assert forall|i: int| 0 <= i < shorter.len() implies (#[trigger] shorter[i] matches
            SearchStep::Enter { id } ==> ids.contains(id)) by {
            assert(shorter[i] == steps[i]);
        }
        lemma_enters(platform, directories, shorter, ids);
        match steps.last() {
            SearchStep::Scan { entries } => {
                lemma_scan(m.walked(shorter), entries);
            },
            SearchStep::Enter { id } => {
                assert(steps[steps.len() - 1] == steps.last());
                assert(ids.contains(id));
            },
            SearchStep::Take => {},
        }
    }
}

/// Whether `entry` is the program of the module `name`.
pub open spec fn is_program(platform: Platform, entry: EntryView, name: Seq<char>) -> bool {
    verdict_on(platform, entry) == VerdictModel::Module(name)
}

/// Whether an entry was looked at in a series of steps.
pub open spec fn looked_at(steps: Seq<SearchStep>, entry: EntryView) -> bool {
    exists|i: int|
        0 <= i < steps.len() && (#[trigger] steps[i] matches SearchStep::Scan { entries }
            && entries.contains(entry))
}

/// Nothing is made up: the program of every module found is an entry that was
/// looked at and that is the program of a module of this name.
pub proof fn law_found_programs_were_seen(
    platform: Platform,
    directories: Seq<Seq<u8>>,
    steps: Seq<SearchStep>,
    name: Seq<char>,
)
    requires
        DiscoveryModel::initial(platform, directories).walked(steps).found.contains_key(name),
    ensures
        exists|entry: EntryView| #[trigger]
            looked_at(steps, entry) && is_program(platform, entry, name) && entry.path
                == DiscoveryModel::initial(platform, directories).walked(steps).found[name],
    decreases steps.len(),
{
    let m = DiscoveryModel::initial(platform, directories);
    if steps.len() > 0 {
        let shorter = steps.drop_last();
        let before = m.walked(shorter);
        lemma_walk(m, shorter);
        if before.found.contains_key(name) {
            law_found_programs_were_seen(platform, directories, shorter, name);
            let entry = choose|entry: EntryView| #[trigger]
                looked_at(shorter, entry) && is_program(platform, entry, name) && entry.path
                    == before.found[name];
            let i = choose|i: int|
                0 <= i < shorter.len() && (#[trigger] shorter[i] matches SearchStep::Scan {
                    entries,
                } && entries.contains(entry));
            assert(steps[i] == shorter[i]);
            assert(looked_at(steps, entry));
        }
        match steps.last() {
            SearchStep::Scan { entries } => {
                lemma_scan_found(before, entries, name);
                if !(before.found.contains_key(name) && before.scanned(entries).found[name]
                    == before.found[name]) {
                    let k = choose|k: int|
                        0 <= k < entries.len() && is_program(
                            platform,
                            #[trigger] entries[k],
                            name,
                        ) && entries[k].path == before.scanned(entries).found[name];
                    assert(entries.contains(entries[k]));
                    assert(steps[steps.len() - 1] == steps.last());
                    assert(looked_at(steps, entries[k]));
                }
            },
            _ => {},
        }
    }
}

/// Where the program of a module comes from after a look at several entries.
pub proof fn lemma_scan_found(m: DiscoveryModel, entries: Seq<EntryView>, name: Seq<char>)
    requires
        m.scanned(entries).found.contains_key(name),
    ensures
        (m.found.contains_key(name) && m.scanned(entries).found[name] == m.found[name]) || exists|
            k: int,
        |
            0 <= k < entries.len() && is_program(m.platform, #[trigger] entries[k], name)
                && entries[k].path == m.scanned(entries).found[name],
    decreases entries.len(),
{
    if entries.len() > 0 {
        let shorter = entries.drop_last();
        let before = m.scanned(shorter);
        lemma_scan(m, shorter);
        if is_program(m.platform, entries.last(), name) {
            assert(entries[entries.len() - 1] == entries.last());
        } else {
            assert(before.found.contains_key(name));
            assert(before.found[name] == m.scanned(entries).found[name]);
            lemma_scan_found(m, shorter, name);
            if !(m.found.contains_key(name) && before.found[name] == m.found[name]) {
                let k = choose|k: int|
                    0 <= k < shorter.len() && is_program(m.platform, #[trigger] shorter[k], name)
                        && shorter[k].path == before.found[name];
                assert(entries[k] == shorter[k]);
            }
        }
    }
}

/// Nothing is lost: every module whose program was looked at is found.
pub proof fn law_seen_programs_are_found(
    m: DiscoveryModel,
    steps: Seq<SearchStep>,
    entry: EntryView,
    name: Seq<char>,
)
    requires
        looked_at(steps, entry),
        is_program(m.platform, entry, name),
    ensures
        m.walked(steps).found.contains_key(name),
    decreases steps.len(),
{
    let i = choose|i: int|
        0 <= i < steps.len() && (#[trigger] steps[i] matches SearchStep::Scan { entries }
            && entries.contains(entry));
    let shorter = steps.drop_last();
    let before = m.walked(shorter);
    lemma_walk(m, shorter);
    if i < shorter.len() {
        assert(shorter[i] == steps[i]);
        assert(looked_at(shorter, entry));
        law_seen_programs_are_found(m, shorter, entry, name);
        match steps.last() {
            SearchStep::Scan { entries } => {
                lemma_scan(before, entries);
            },
            _ => {},
        }
    } else {
        match steps.last() {
            SearchStep::Scan { entries } => {
                lemma_scan_finds(before, entries, entries.index_of(entry), name);
            },
            _ => {},
        }
    }
}

pub proof fn lemma_scan_finds(m: DiscoveryModel, entries: Seq<EntryView>, k: int, name: Seq<char>)
    requires
        0 <= k < entries.len(),
        is_program(m.platform, entries[k], name),
    ensures
        m.scanned(entries).found.contains_key(name),
    decreases entries.len(),
{
    let shorter = entries.drop_last();
    lemma_scan(m, shorter);
    if k < shorter.len() {
        assert(shorter[k] == entries[k]);
        lemma_scan_finds(m, shorter, k, name);
    }
}

/// On Unix only programs with the name of a module are ever found: the name
/// starts with the prefix of modules, has no ending, and is none of the
/// excluded ones.
pub proof fn law_only_modules_found(
    directories: Seq<Seq<u8>>,
    steps: Seq<SearchStep>,
    name: Seq<char>,
)
    requires
        DiscoveryModel::initial(Platform::Unix, directories).walked(steps).found.contains_key(name),
    ensures
        is_module_name(name),
{
    law_found_programs_were_seen(Platform::Unix, directories, steps, name);
    let entry = choose|entry: EntryView| #[trigger]
        looked_at(steps, entry) && is_program(Platform::Unix, entry, name) && entry.path
            == DiscoveryModel::initial(Platform::Unix, directories).walked(steps).found[name];
    assert(is_program(Platform::Unix, entry, name));
}

/// Whether a name starts with the three characters that all modules start with.
pub open spec fn has_prefix(name: Seq<char>) -> bool {
    name.len() >= 3 && name[0] == 'a' && name[1] == 'w' && name[2] == '-'
}

proof fn lemma_prefix(name: Seq<char>)
    ensures
        "aw-"@.is_prefix_of(name) <==> has_prefix(name),
{
    reveal_strlit("aw-");
    if has_prefix(name) {
        assert(name.subrange(0, 3) =~= "aw-"@);
    }
    if "aw-"@.is_prefix_of(name) {
        assert(name.subrange(0, 3) == "aw-"@);
        assert(name[0] == name.subrange(0, 3)[0]);
        assert(name[1] == name.subrange(0, 3)[1]);
        assert(name[2] == name.subrange(0, 3)[2]);
    }
}

/// Anybody's right to execute a file is enough, and without any the file is no
/// program: on Unix an entry with the name of a module that is a regular file
/// or a link is a module if and only if at least one of the three execute bits
/// of its mode is set.
pub proof fn law_any_execute_bit(entry: EntryView, meta: EntryMeta)
    requires
        entry.meta == Some(meta),
        valid_utf8(entry.file_name),
        has_prefix(decode_utf8(entry.file_name)),
        !decode_utf8(entry.file_name).contains('.'),
        !is_excluded(decode_utf8(entry.file_name)),
        !meta.is_dir,
        meta.is_file || meta.is_symlink,
    ensures
        verdict_of(entry) == VerdictModel::Module(decode_utf8(entry.file_name)) <==> meta.mode
            & 0o100 != 0 || meta.mode & 0o010 != 0 || meta.mode & 0o001 != 0,
        meta.mode & 0o100 != 0 ==> verdict_of(entry) is Module,
        meta.mode & 0o010 != 0 ==> verdict_of(entry) is Module,
        meta.mode & 0o001 != 0 ==> verdict_of(entry) is Module,
{
    let mode = meta.mode;
    lemma_prefix(decode_utf8(entry.file_name));
    assert(mode & 0o111 != 0 <==> (mode & 0o100 != 0 || mode & 0o010 != 0 || mode & 0o001 != 0))
        by (bit_vector);
}

/// What is needed for an entry to be a module on Unix: it could be asked about,
/// its name is text that starts as all modules do, has no full stop and is none
/// of seven names, it is a regular file or a link and no directory, and someone
/// may execute it. The module has the name of the entry.
pub proof fn law_unix_module(entry: EntryView)
    ensures
        ({
            let name = decode_utf8(entry.file_name);
            verdict_of(entry) is Module <==> {
                &&& entry.meta is Some
                &&& valid_utf8(entry.file_name)
                &&& has_prefix(name)
                &&& !name.contains('.')
                &&& name != "aw-tauri"@ && name != "aw-client"@ && name != "aw-cli"@ && name
                    != "aw-qt"@ && name != "aw-server"@ && name != "aw-server-rust"@ && name
                    != "aw-watcher-window-macos"@
                &&& !entry.meta->0.is_dir
                &&& entry.meta->0.is_file || entry.meta->0.is_symlink
                &&& entry.meta->0.mode & 0o100 != 0 || entry.meta->0.mode & 0o010 != 0
                    || entry.meta->0.mode & 0o001 != 0
            }
        }),
        verdict_of(entry) is Module ==> verdict_of(entry)->0 == decode_utf8(entry.file_name),
{
    lemma_prefix(decode_utf8(entry.file_name));
    if entry.meta is Some {
        let mode = entry.meta->0.mode;
        assert(mode & 0o111 != 0 <==> (mode & 0o100 != 0 || mode & 0o010 != 0 || mode & 0o001
            != 0)) by (bit_vector);
    }
}

/// On Unix every directory whose name starts as all modules do is searched,
/// whatever else its name is, and no other.
pub proof fn law_unix_directory(entry: EntryView)
    ensures
        verdict_of(entry) is Descend <==> entry.meta is Some && entry.meta->0.is_dir && valid_utf8(
            entry.file_name,
        ) && has_prefix(decode_utf8(entry.file_name)),
{
    lemma_prefix(decode_utf8(entry.file_name));
}

/// A name has the ending of programs on Windows exactly if it is something with
/// that ending behind it, and that is what it is without it.
pub proof fn law_exe_ending(stem: Seq<char>, name: Seq<char>)
    ensures
        without_exe(stem + ".exe"@) == Some(stem),
        match without_exe(name) {
            Some(s) => name == s + ".exe"@,
            None => forall|s: Seq<char>| name != #[trigger] (s + ".exe"@),
        },
{
    reveal_strlit(".exe");
    let all = stem + ".exe"@;
    assert(all.skip(all.len() - 4) =~= ".exe"@);
    assert(all.take(all.len() - 4) =~= stem);
    if without_exe(name) is Some {
        assert(name =~= name.take(name.len() - 4) + name.skip(name.len() - 4));
    } else {
        assert forall|s: Seq<char>| name != #[trigger] (s + ".exe"@) by {
            let t = s + ".exe"@;
            assert(t.skip(t.len() - 4) =~= ".exe"@);
        }
    }
}

/// What is needed for an entry to be a module on Windows: it could be asked
/// about, its name is text that starts as all modules do and ends as programs
/// do, it is a regular file and no directory, and the lower case of its name
/// without the ending, which is the name of the module, is none of six names.
pub proof fn law_windows_module(entry: EntryView, stem: Seq<char>)
    ensures
        valid_utf8(entry.file_name) && decode_utf8(entry.file_name) == stem + ".exe"@ ==> {
            let lower = lowercase(stem);
            &&& windows_verdict_of(entry) is Module <==> {
                &&& entry.meta is Some
                &&& !entry.meta->0.is_dir
                &&& entry.meta->0.is_file
                &&& has_prefix(stem + ".exe"@)
                &&& lower != "aw-tauri"@ && lower != "aw-client"@ && lower != "aw-cli"@ && lower
                    != "aw-qt"@ && lower != "aw-server"@ && lower != "aw-server-rust"@
            }
            &&& windows_verdict_of(entry) is Module ==> windows_verdict_of(entry)->0 == lower
        },
        windows_verdict_of(entry) is Module ==> valid_utf8(entry.file_name) && exists|s: Seq<char>|
            decode_utf8(entry.file_name) == #[trigger] (s + ".exe"@),
{
    let name = decode_utf8(entry.file_name);
    lemma_prefix(name);
    law_exe_ending(stem, name);
    if windows_verdict_of(entry) is Module {
        let s = without_exe(name)->0;
        assert(name == s + ".exe"@);
    }
}

/// On Windows every directory whose name starts as all modules do is searched,
/// unless it is one of six names, and no other.
pub proof fn law_windows_directory(entry: EntryView)
    ensures
        ({
            let name = decode_utf8(entry.file_name);
            windows_verdict_of(entry) is Descend <==> {
                &&& entry.meta is Some
                &&& entry.meta->0.is_dir
                &&& valid_utf8(entry.file_name)
                &&& has_prefix(name)
                &&& name != "aw-tauri"@ && name != "aw-client"@ && name != "aw-cli"@ && name
                    != "aw-qt"@ && name != "aw-server"@ && name != "aw-server-rust"@
            }
        }),
{
    lemma_prefix(decode_utf8(entry.file_name));
}

/// Each system goes by its own rules.
pub proof fn law_rules_of_the_system(entry: EntryView)
    ensures
        verdict_on(Platform::Unix, entry) == verdict_of(entry),
        verdict_on(Platform::Windows, entry) == windows_verdict_of(entry),
{
}

/// What a look at an entry changes: a directory to search is put on the list as
/// the next one, a module is noted with the path of the entry, in place of any
/// other of its name, and anything else changes nothing.
pub proof fn law_look_at_entry(m: DiscoveryModel, entry: EntryView, other: Seq<char>)
    ensures
        m.seen(entry).platform == m.platform,
        m.seen(entry).visited == m.visited,
        verdict_on(m.platform, entry) is Skip ==> m.seen(entry) == m,
        verdict_on(m.platform, entry) is Descend ==> {
            &&& m.seen(entry).found == m.found
            &&& m.seen(entry).pending.len() == m.pending.len() + 1
            &&& m.seen(entry).pending.last() == entry.path
            &&& m.seen(entry).pending.drop_last() == m.pending
        },
        verdict_on(m.platform, entry) matches VerdictModel::Module(name) ==> {
            &&& m.seen(entry).pending == m.pending
            &&& m.seen(entry).found.contains_key(name)
            &&& m.seen(entry).found[name] == entry.path
            &&& other != name ==> (m.seen(entry).found.contains_key(other)
                <==> m.found.contains_key(other))
            &&& other != name && m.found.contains_key(other) ==> m.seen(entry).found[other]
                == m.found[other]
        },
{
    if verdict_on(m.platform, entry) is Descend {
        assert(m.seen(entry).pending.drop_last() =~= m.pending);
    }
}

/// The entries of a directory are all looked at, one after the other.
pub proof fn law_scan_in_order(m: DiscoveryModel, entries: Seq<EntryView>, entry: EntryView)
    ensures
        m.scanned(Seq::empty()) == m,
        m.scanned(entries.push(entry)) == m.scanned(entries).seen(entry),
{
    assert(entries.push(entry).drop_last() =~= entries);
}

/// Taking a directory takes the last one of the list, and entering one records
/// it; neither changes anything else. A search starts with its directories and
/// nothing found.
pub proof fn law_take_and_enter(
    m: DiscoveryModel,
    id: (u64, u64),
    other: (u64, u64),
    platform: Platform,
    directories: Seq<Seq<u8>>,
)
    ensures
        m.pending.len() > 0 ==> m.advanced().pending.push(m.pending.last()) == m.pending,
        m.advanced().visited == m.visited,
        m.advanced().found == m.found,
        m.entered(id).visited.contains(id),
        other != id ==> (m.entered(id).visited.contains(other) <==> m.visited.contains(other)),
        m.entered(id).pending == m.pending,
        m.entered(id).found == m.found,
        DiscoveryModel::initial(platform, directories).platform == platform,
        DiscoveryModel::initial(platform, directories).pending == directories,
        forall|n: Seq<char>| !(#[trigger] DiscoveryModel::initial(
            platform,
            directories,
        ).found.contains_key(n)),
        forall|i: (u64, u64)| !(#[trigger] DiscoveryModel::initial(
            platform,
            directories,
        ).visited.contains(i)),
{
    if m.pending.len() > 0 {
        assert(m.advanced().pending.push(m.pending.last()) =~= m.pending);
    }
}

/// On Windows the directory of the program comes before those of the variable,
/// and each configured directory before all that were there, unless it was
/// there already.
pub proof fn law_windows_order_front(
    listed: Seq<u64>,
    program_directory: Option<u64>,
    discovery_paths: Seq<u64>,
    n: u64,
)
    ensures
        ({
            let all = windows_order(listed, program_directory, discovery_paths);
            &&& all.contains(n) ==> windows_order(
                listed,
                program_directory,
                discovery_paths.push(n),
            ) == all
            &&& !all.contains(n) ==> windows_order(
                listed,
                program_directory,
                discovery_paths.push(n),
            ) == seq![n] + all
        }),
        listed.contains(n) ==> windows_order(listed, Some(n), Seq::empty()) == listed,
        !listed.contains(n) ==> windows_order(listed, Some(n), Seq::empty()) == seq![n] + listed,
        windows_order(listed, None, Seq::empty()) == listed,
{
    assert(discovery_paths.push(n).drop_last() =~= discovery_paths);
    assert(seq![n].drop_last() =~= Seq::empty());
    assert(with_numbers(listed, seq![n].drop_last()) == listed);
}

/// Entries and what they are taken for stand as what they hold.
pub proof fn law_entry_views(entry: Entry, entries: Seq<Entry>, name: String)
    ensures
        entry@.path == entry.path@,
        entry@.file_name == entry.file_name@,
        entry@.meta == entry.meta,
        entry_views(entries).len() == entries.len(),
        forall|i: int| 0 <= i < entries.len() ==> #[trigger] entry_views(entries)[i] == entries[i]@,
        Verdict::Skip@ is Skip,
        Verdict::Descend@ is Descend,
        Verdict::Module(name)@ == VerdictModel::Module(name@),
{
}

/// A directory is searched exactly if it can be accessed and was not entered
/// before; entering one does not keep another from being searched.
pub proof fn law_admitted_directory(m: DiscoveryModel, id: (u64, u64), other: (u64, u64))
    ensures
        !m.admits(None),
        m.admits(Some(id)) <==> !m.visited.contains(id),
        !m.entered(id).admits(Some(id)),
        other != id ==> (m.entered(id).admits(Some(other)) <==> m.admits(Some(other))),
        forall|platform: Platform, directories: Seq<Seq<u8>>|
            (#[trigger] DiscoveryModel::initial(platform, directories)).admits(Some(id)),
{
}

/// What an entry is on Windows, given its name, its nature and the lower case
/// of its name without the ending: a directory is searched unless it is one of
/// six names, a file with the ending is a module of the name in lower case
/// unless this is one of them.
pub proof fn law_windows_verdict(
    name: Seq<char>,
    is_dir: bool,
    is_file: bool,
    lower: Seq<char>,
    stem: Seq<char>,
)
    ensures
        windows_verdict(name, is_dir, is_file, lower) is Descend <==> is_dir && has_prefix(name)
            && name != "aw-tauri"@ && name != "aw-client"@ && name != "aw-cli"@ && name != "aw-qt"@
            && name != "aw-server"@ && name != "aw-server-rust"@,
        windows_verdict(stem + ".exe"@, is_dir, is_file, lower) is Module <==> !is_dir && is_file
            && has_prefix(stem + ".exe"@) && lower != "aw-tauri"@ && lower != "aw-client"@ && lower
            != "aw-cli"@ && lower != "aw-qt"@ && lower != "aw-server"@ && lower != "aw-server-rust"@,
        windows_verdict(name, is_dir, is_file, lower) is Module ==> windows_verdict(
            name,
            is_dir,
            is_file,
            lower,
        )->0 == lower && exists|s: Seq<char>| name == #[trigger] (s + ".exe"@),
{
    lemma_prefix(name);
    lemma_prefix(stem + ".exe"@);
    law_exe_ending(stem, stem + ".exe"@);
    law_exe_ending(stem, name);
    if windows_verdict(name, is_dir, is_file, lower) is Module {
        let s = without_exe(name)->0;
        assert(name == s + ".exe"@);
    }
}

} // verus!
