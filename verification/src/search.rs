//! What holds of a search for modules as a whole, from the list of
//! directories to the modules found.
use vstd::prelude::*;

use crate::discovery::{
    is_program, lemma_scan, lemma_scan_finds, verdict_on, DiscoveryModel, EntryView, Platform,
    SearchStep,
};
use crate::paths::{
    components, components_of, is_component, law_split_parts, law_with_paths_lists_extra, lists_path, same_path, search_list,
    split, unlistable, until, with_paths, DOT, LIST_SEPARATOR, SEPARATOR,
};

verus! {

/// The file system as a search sees it.
pub struct Files {
    /// The identities of the directories that can be accessed, by path.
    pub ids: Map<Seq<u8>, (u64, u64)>,
    /// The entries of the directories that can be read, by path.
    pub entries: Map<Seq<u8>, Seq<EntryView>>,
}

impl DiscoveryModel {
    /// One round of the search: the next directory is taken; if it can be
    /// accessed and was not entered before, it is entered, and its entries
    /// are looked at if it can be read.
    pub open spec fn visit(self, files: Files) -> DiscoveryModel {
        if self.pending.len() == 0 {
            self
        } else {
            let dir = self.pending.last();
            let rest = self.advanced();
            if !files.ids.contains_key(dir) || rest.visited.contains(files.ids[dir]) {
                rest
            } else if files.entries.contains_key(dir) {
                rest.entered(files.ids[dir]).scanned(files.entries[dir])
            } else {
                rest.entered(files.ids[dir])
            }
        }
    }

    /// The state after `n` rounds of the search.
    pub open spec fn rounds(self, files: Files, n: nat) -> DiscoveryModel
        decreases n,
    {
        if n == 0 {
            self
        } else {
            self.visit(files).rounds(files, (n - 1) as nat)
        }
    }

    /// Whether no directory is left to search.
    pub open spec fn ended(self) -> bool {
        self.pending.len() == 0
    }
}

/// A round of the search consists of its steps.
pub proof fn law_visit_is_steps(m: DiscoveryModel, files: Files)
    requires
        !m.ended(),
    ensures
        ({
            let dir = m.pending.last();
            let id = files.ids[dir];
            let steps = if !files.ids.contains_key(dir) || m.visited.contains(id) {
                seq![SearchStep::Take]
            } else if files.entries.contains_key(dir) {
                seq![
                    SearchStep::Take,
                    SearchStep::Enter { id },
                    SearchStep::Scan { entries: files.entries[dir] },
                ]
            } else {
                seq![SearchStep::Take, SearchStep::Enter { id }]
            };
            m.visit(files) == m.walked(steps)
        }),
{
    let dir = m.pending.last();
    let id = files.ids[dir];
    let one = seq![SearchStep::Take];
    let two = one.push(SearchStep::Enter { id });
    let three = two.push(SearchStep::Scan { entries: files.entries[dir] });
    assert(one.drop_last() =~= Seq::empty());
    assert(m.walked(one.drop_last()) == m);
    assert(m.walked(one) == m.advanced());
    assert(two.drop_last() =~= one);
    assert(m.walked(two) == m.advanced().entered(id));
    assert(three.drop_last() =~= two);
    assert(m.walked(three) == m.advanced().entered(id).scanned(files.entries[dir]));
    assert(two =~= seq![SearchStep::Take, SearchStep::Enter { id }]);
    assert(three =~= seq![
        SearchStep::Take,
        SearchStep::Enter { id },
        SearchStep::Scan { entries: files.entries[dir] },
    ]);
}

/// A search that ended stays as it is.
proof fn lemma_ended(m: DiscoveryModel, files: Files, n: nat)
    requires
        m.ended(),
    ensures
        m.rounds(files, n) == m,
    decreases n,
{
    if n > 0 {
        lemma_ended(m, files, (n - 1) as nat);
    }
}

/// A search comes to one end only, however long it is followed.
pub proof fn law_search_end_unique(m: DiscoveryModel, files: Files, n: nat, k: nat)
    requires
        m.rounds(files, n).ended(),
        m.rounds(files, k).ended(),
    ensures
        m.rounds(files, n) == m.rounds(files, k),
    decreases n,
{
    if m.ended() {
        lemma_ended(m, files, n);
        lemma_ended(m, files, k);
    } else {
        law_search_end_unique(m.visit(files), files, (n - 1) as nat, (k - 1) as nat);
    }
}

/// A search ends, however directories lead to each other, as long as there
/// are finitely many of them.
pub proof fn law_search_ends(m: DiscoveryModel, files: Files, ids: Set<(u64, u64)>)
    requires
        ids.finite(),
        forall|p: Seq<u8>| #[trigger] files.ids.contains_key(p) ==> ids.contains(files.ids[p]),
    ensures
        exists|n: nat| (#[trigger] m.rounds(files, n)).ended(),
{
    let n = lemma_search_ends(m, files, ids);
    assert(m.rounds(files, n).ended());
}

proof fn lemma_search_ends(m: DiscoveryModel, files: Files, ids: Set<(u64, u64)>) -> (n: nat)
    requires
        ids.finite(),
        forall|p: Seq<u8>| #[trigger] files.ids.contains_key(p) ==> ids.contains(files.ids[p]),
    ensures
        m.rounds(files, n).ended(),
    decreases ids.difference(m.visited).len(), m.pending.len(),
{
    if m.ended() {
        0
    } else {
        let dir = m.pending.last();
        let next = m.visit(files);
        if files.ids.contains_key(dir) && !m.visited.contains(files.ids[dir]) {
            let id = files.ids[dir];
            let inside = m.advanced().entered(id);
            if files.entries.contains_key(dir) {
                lemma_scan(inside, files.entries[dir]);
            }
            assert(next.visited == m.visited.insert(id));
            assert(ids.difference(next.visited) =~= ids.difference(m.visited).remove(id));
            assert(ids.difference(m.visited).contains(id));
        }
        lemma_search_ends(next, files, ids) + 1
    }
}

// How a search of several directories is made up.

/// The same search with the directories `front` put in front.
spec fn under(m: DiscoveryModel, front: Seq<Seq<u8>>) -> DiscoveryModel {
    DiscoveryModel { pending: front + m.pending, ..m }
}

proof fn lemma_scan_under(m: DiscoveryModel, front: Seq<Seq<u8>>, entries: Seq<EntryView>)
    ensures
        under(m, front).scanned(entries) == under(m.scanned(entries), front),
    decreases entries.len(),
{
    if entries.len() > 0 {
        let before = m.scanned(entries.drop_last());
        lemma_scan_under(m, front, entries.drop_last());
        assert(under(before, front).seen(entries.last()) =~= under(
            before.seen(entries.last()),
            front,
        ));
    }
}

proof fn lemma_visit_under(m: DiscoveryModel, front: Seq<Seq<u8>>, files: Files)
    requires
        !m.ended(),
    ensures
        under(m, front).visit(files) == under(m.visit(files), front),
{
    let all = under(m, front);
    let dir = m.pending.last();
    assert(all.pending.last() == dir);
    assert(all.advanced() =~= under(m.advanced(), front));
    if files.ids.contains_key(dir) {
        let id = files.ids[dir];
        assert(all.advanced().entered(id) =~= under(m.advanced().entered(id), front));
        if files.entries.contains_key(dir) {
            lemma_scan_under(m.advanced().entered(id), front, files.entries[dir]);
        }
    }
}

proof fn lemma_rounds_under(
    m: DiscoveryModel,
    front: Seq<Seq<u8>>,
    files: Files,
    n: nat,
) -> (k: nat)
    requires
        under(m, front).rounds(files, n).ended(),
    ensures
        k <= n,
        m.rounds(files, k).ended(),
        under(m, front).rounds(files, n) == under(m.rounds(files, k), front).rounds(
            files,
            (n - k) as nat,
        ),
    decreases n,
{
    if m.ended() {
        0
    } else {
        lemma_visit_under(m, front, files);
        lemma_rounds_under(m.visit(files), front, files, (n - 1) as nat) + 1
    }
}

/// The same search with the modules `base` found before.
spec fn over(m: DiscoveryModel, base: Map<Seq<char>, Seq<u8>>) -> DiscoveryModel {
    DiscoveryModel { found: base.union_prefer_right(m.found), ..m }
}

proof fn lemma_scan_over(
    m: DiscoveryModel,
    base: Map<Seq<char>, Seq<u8>>,
    entries: Seq<EntryView>,
)
    ensures
        over(m, base).scanned(entries) == over(m.scanned(entries), base),
    decreases entries.len(),
{
    if entries.len() > 0 {
        let before = m.scanned(entries.drop_last());
        lemma_scan_over(m, base, entries.drop_last());
        assert(over(before, base).seen(entries.last()) =~= over(before.seen(entries.last()), base));
    }
}

proof fn lemma_rounds_over(
    m: DiscoveryModel,
    base: Map<Seq<char>, Seq<u8>>,
    files: Files,
    n: nat,
)
    ensures
        over(m, base).rounds(files, n) == over(m.rounds(files, n), base),
    decreases n,
{
    if n > 0 {
        if !m.ended() {
            let dir = m.pending.last();
            assert(over(m, base).advanced() =~= over(m.advanced(), base));
            if files.ids.contains_key(dir) {
                let inside = m.advanced().entered(files.ids[dir]);
                assert(over(m, base).advanced().entered(files.ids[dir]) =~= over(inside, base));
                if files.entries.contains_key(dir) {
                    lemma_scan_over(inside, base, files.entries[dir]);
                }
            }
        }
        assert(over(m, base).visit(files) == over(m.visit(files), base));
        lemma_rounds_over(m.visit(files), base, files, (n - 1) as nat);
    }
}

/// A search of `directories` that finds nothing in the directories `visited`.
pub open spec fn later_search(
    platform: Platform,
    directories: Seq<Seq<u8>>,
    visited: Set<(u64, u64)>,
) -> DiscoveryModel {
    DiscoveryModel { platform, pending: directories, visited, found: Map::empty() }
}

/// Directories listed earlier win over those listed later: what is found in a
/// list is what is found in its end, replaced by whatever a search of its
/// beginning finds in the directories not searched by then.
pub proof fn law_earlier_directories_win(
    platform: Platform,
    files: Files,
    front: Seq<Seq<u8>>,
    rest: Seq<Seq<u8>>,
    n: nat,
    k: nat,
    j: nat,
)
    requires
        DiscoveryModel::initial(platform, front + rest).rounds(files, n).ended(),
        DiscoveryModel::initial(platform, rest).rounds(files, k).ended(),
        later_search(
            platform,
            front,
            DiscoveryModel::initial(platform, rest).rounds(files, k).visited,
        ).rounds(files, j).ended(),
    ensures
        ({
            let behind = DiscoveryModel::initial(platform, rest).rounds(files, k);
            let ahead = later_search(platform, front, behind.visited).rounds(files, j);
            let all = DiscoveryModel::initial(platform, front + rest).rounds(files, n);
            &&& all.found == behind.found.union_prefer_right(ahead.found)
            &&& all.visited == ahead.visited
        }),
{
    let m = DiscoveryModel::initial(platform, rest);
    let whole = DiscoveryModel::initial(platform, front + rest);
    let behind = m.rounds(files, k);
    let start = later_search(platform, front, behind.visited);
    assert(under(m, front) =~= whole);
    let i = lemma_rounds_under(m, front, files, n);
    law_search_end_unique(m, files, i, k);
    lemma_rounds_platform(m, files, k);
    assert(under(behind, front) =~= over(start, behind.found));
    lemma_rounds_over(start, behind.found, files, (n - i) as nat);
    law_search_end_unique(start, files, (n - i) as nat, j);
}

proof fn lemma_rounds_platform(m: DiscoveryModel, files: Files, n: nat)
    ensures
        m.rounds(files, n).platform == m.platform,
    decreases n,
{
    if n > 0 {
        if !m.ended() {
            let dir = m.pending.last();
            if files.ids.contains_key(dir) && files.entries.contains_key(dir) {
                lemma_scan(m.advanced().entered(files.ids[dir]), files.entries[dir]);
            }
        }
        lemma_rounds_platform(m.visit(files), files, (n - 1) as nat);
    }
}

/// Whether an entry is a directory to search.
pub open spec fn leads_down(platform: Platform, entry: EntryView) -> bool {
    verdict_on(platform, entry) is Descend
}

/// The directories to search that entries lead down to, in their order.
pub open spec fn directories_in(platform: Platform, entries: Seq<EntryView>) -> Seq<Seq<u8>>
    decreases entries.len(),
{
    if entries.len() == 0 {
        Seq::empty()
    } else if leads_down(platform, entries.last()) {
        directories_in(platform, entries.drop_last()).push(entries.last().path)
    } else {
        directories_in(platform, entries.drop_last())
    }
}

/// The earliest listed directory wins: of a module whose program stands in a
/// directory that can be read and is the same as none searched for the
/// directories listed later, this program is taken, unless a directory below
/// it or one listed earlier leads to another.
pub proof fn law_earliest_program_taken(
    platform: Platform,
    files: Files,
    front: Seq<Seq<u8>>,
    dir: Seq<u8>,
    rest: Seq<Seq<u8>>,
    name: Seq<char>,
    i: int,
    n: nat,
    k: nat,
    b: nat,
    j: nat,
)
    requires
        DiscoveryModel::initial(platform, front + (seq![dir] + rest)).rounds(files, n).ended(),
        DiscoveryModel::initial(platform, rest).rounds(files, k).ended(),
        readable(files, dir),
        !DiscoveryModel::initial(platform, rest).rounds(files, k).visited.contains(files.ids[dir]),
        0 <= i < files.entries[dir].len(),
        is_program(platform, files.entries[dir][i], name),
        forall|e: int|
            i < e < files.entries[dir].len() ==> !is_program(
                platform,
                #[trigger] files.entries[dir][e],
                name,
            ),
        ({
            let behind = DiscoveryModel::initial(platform, rest).rounds(files, k);
            let below = later_search(
                platform,
                directories_in(platform, files.entries[dir]),
                behind.visited.insert(files.ids[dir]),
            ).rounds(files, b);
            let ahead = later_search(platform, front, below.visited).rounds(files, j);
            &&& below.ended()
            &&& !below.found.contains_key(name)
            &&& ahead.ended()
            &&& !ahead.found.contains_key(name)
        }),
    ensures
        ({
            let all = DiscoveryModel::initial(platform, front + (seq![dir] + rest)).rounds(files, n);
            all.found.contains_key(name) && all.found[name] == files.entries[dir][i].path
        }),
{
    let entries = files.entries[dir];
    let id = files.ids[dir];
    let behind = DiscoveryModel::initial(platform, rest).rounds(files, k);
    let own = later_search(platform, seq![dir], behind.visited);
    let inside = own.advanced().entered(id);
    assert(own.pending.last() == dir);
    let done = own.visit(files);
    assert(done == inside.scanned(entries));
    lemma_scan(inside, entries);
    lemma_scan_pending(inside, entries);
    lemma_scan_last(inside, entries, i, name);
    let start = later_search(
        platform,
        directories_in(platform, entries),
        behind.visited.insert(id),
    );
    let below = start.rounds(files, b);
    assert(done =~= over(start, done.found)) by {
        assert(inside.pending =~= Seq::empty());
        assert(inside.pending + directories_in(platform, entries) =~= start.pending);
    }
    lemma_rounds_over(start, done.found, files, b);
    assert(own.rounds(files, b + 1) == over(below, done.found));
    let tail = seq![dir] + rest;
    let t = DiscoveryModel::initial(platform, tail);
    let whole = DiscoveryModel::initial(platform, front + tail);
    assert(under(t, front) =~= whole);
    let a = lemma_rounds_under(t, front, files, n);
    law_earlier_directories_win(platform, files, seq![dir], rest, a, k, b + 1);
    assert(t.rounds(files, a).visited == below.visited);
    law_earlier_directories_win(platform, files, front, tail, n, a, j);
}

/// A look at entries adds the directories that they lead down to.
proof fn lemma_scan_pending(m: DiscoveryModel, entries: Seq<EntryView>)
    ensures
        m.scanned(entries).pending == m.pending + directories_in(m.platform, entries),
    decreases entries.len(),
{
    if entries.len() > 0 {
        lemma_scan(m, entries.drop_last());
        lemma_scan_pending(m, entries.drop_last());
    }
    assert(m.scanned(entries).pending =~= m.pending + directories_in(m.platform, entries));
}

/// The last program of a name among entries is taken.
proof fn lemma_scan_last(m: DiscoveryModel, entries: Seq<EntryView>, i: int, name: Seq<char>)
    requires
        0 <= i < entries.len(),
        is_program(m.platform, entries[i], name),
        forall|e: int|
            i < e < entries.len() ==> !is_program(m.platform, #[trigger] entries[e], name),
    ensures
        m.scanned(entries).found.contains_key(name),
        m.scanned(entries).found[name] == entries[i].path,
    decreases entries.len(),
{
    let shorter = entries.drop_last();
    lemma_scan(m, shorter);
    if i < shorter.len() {
        assert(!is_program(m.platform, entries[entries.len() - 1], name));
        assert forall|e: int| i < e < shorter.len() implies !is_program(
            m.platform,
            #[trigger] shorter[e],
            name,
        ) by {
            assert(shorter[e] == entries[e]);
        }
        lemma_scan_last(m, shorter, i, name);
    }
}

// Directories that hold nothing.

/// Whether no directory with this identity can be read.
pub open spec fn barren_id(files: Files, id: (u64, u64)) -> bool {
    forall|p: Seq<u8>| #[trigger]
        files.ids.contains_key(p) && files.ids[p] == id ==> !files.entries.contains_key(p)
}

/// Whether a path leads to nothing: it does not exist, or what it leads to
/// cannot be accessed or cannot be read.
pub open spec fn barren(files: Files, path: Seq<u8>) -> bool {
    !files.ids.contains_key(path) || barren_id(files, files.ids[path])
}

/// The paths of a list that lead to something.
pub open spec fn fruitful(files: Files, list: Seq<Seq<u8>>) -> Seq<Seq<u8>>
    decreases list.len(),
{
    if list.len() == 0 {
        Seq::empty()
    } else if barren(files, list.last()) {
        fruitful(files, list.drop_last())
    } else {
        fruitful(files, list.drop_last()).push(list.last())
    }
}

/// Whether two states of the search differ in nothing but directories that
/// hold nothing.
spec fn alike(files: Files, a: DiscoveryModel, b: DiscoveryModel) -> bool {
    &&& a.platform == b.platform
    &&& a.found == b.found
    &&& fruitful(files, a.pending) == fruitful(files, b.pending)
    &&& forall|id: (u64, u64)|
        !barren_id(files, id) ==> (#[trigger] a.visited.contains(id) <==> b.visited.contains(id))
}

proof fn lemma_barren_visit(files: Files, a: DiscoveryModel)
    requires
        !a.ended(),
        barren(files, a.pending.last()),
    ensures
        alike(files, a, a.visit(files)),
{
    let dir = a.pending.last();
    if files.ids.contains_key(dir) {
        assert(!files.entries.contains_key(dir));
    }
}

proof fn lemma_fruitful_push(files: Files, list: Seq<Seq<u8>>, path: Seq<u8>)
    ensures
        fruitful(files, list.push(path)) == (if barren(files, path) {
            fruitful(files, list)
        } else {
            fruitful(files, list).push(path)
        }),
{
    assert(list.push(path).drop_last() =~= list);
}

proof fn lemma_scan_alike(
    files: Files,
    a: DiscoveryModel,
    b: DiscoveryModel,
    entries: Seq<EntryView>,
)
    requires
        alike(files, a, b),
    ensures
        alike(files, a.scanned(entries), b.scanned(entries)),
    decreases entries.len(),
{
    if entries.len() > 0 {
        let x = a.scanned(entries.drop_last());
        let y = b.scanned(entries.drop_last());
        lemma_scan_alike(files, a, b, entries.drop_last());
        lemma_fruitful_push(files, x.pending, entries.last().path);
        lemma_fruitful_push(files, y.pending, entries.last().path);
    }
}

proof fn lemma_fruitful_visit(files: Files, a: DiscoveryModel, b: DiscoveryModel)
    requires
        alike(files, a, b),
        !a.ended(),
        !b.ended(),
        !barren(files, a.pending.last()),
        !barren(files, b.pending.last()),
    ensures
        alike(files, a.visit(files), b.visit(files)),
{
    let dir = a.pending.last();
    assert(fruitful(files, a.pending).last() == dir);
    assert(fruitful(files, b.pending).last() == b.pending.last());
    assert(fruitful(files, a.pending).drop_last() =~= fruitful(files, a.pending.drop_last()));
    assert(fruitful(files, b.pending).drop_last() =~= fruitful(files, b.pending.drop_last()));
    assert(alike(files, a.advanced(), b.advanced()));
    let id = files.ids[dir];
    assert(a.visited.contains(id) <==> b.visited.contains(id));
    let x = a.advanced().entered(id);
    let y = b.advanced().entered(id);
    assert(alike(files, x, y)) by {
        assert forall|i: (u64, u64)| !barren_id(files, i) implies (#[trigger] x.visited.contains(i)
            <==> y.visited.contains(i)) by {
            assert(a.visited.contains(i) <==> b.visited.contains(i));
        }
    }
    if files.entries.contains_key(dir) {
        lemma_scan_alike(files, x, y, files.entries[dir]);
    }
}

proof fn lemma_alike_ends(files: Files, a: DiscoveryModel, b: DiscoveryModel, n: nat, k: nat)
    requires
        alike(files, a, b),
        a.rounds(files, n).ended(),
        b.rounds(files, k).ended(),
    ensures
        a.rounds(files, n).found == b.rounds(files, k).found,
    decreases n + k,
{
    if !a.ended() && barren(files, a.pending.last()) {
        lemma_barren_visit(files, a);
        let next = a.visit(files);
        assert forall|id: (u64, u64)| !barren_id(files, id) implies (
        #[trigger] next.visited.contains(id) <==> b.visited.contains(id)) by {
            assert(a.visited.contains(id) <==> next.visited.contains(id));
        }
        lemma_alike_ends(files, next, b, (n - 1) as nat, k);
    } else if !b.ended() && barren(files, b.pending.last()) {
        lemma_barren_visit(files, b);
        let next = b.visit(files);
        assert forall|id: (u64, u64)| !barren_id(files, id) implies (#[trigger] a.visited.contains(
            id,
        ) <==> next.visited.contains(id)) by {
            assert(b.visited.contains(id) <==> next.visited.contains(id));
        }
        lemma_alike_ends(files, a, next, n, (k - 1) as nat);
    } else if !a.ended() && !b.ended() {
        lemma_fruitful_visit(files, a, b);
        lemma_alike_ends(files, a.visit(files), b.visit(files), (n - 1) as nat, (k - 1) as nat);
    } else {
        assert(fruitful(files, a.pending).len() == 0);
        assert(a.ended() && b.ended());
        lemma_ended(a, files, n);
        lemma_ended(b, files, k);
    }
}

/// Directories that cannot be accessed or read contribute nothing: two lists
/// that differ in such directories alone lead to the same modules.
pub proof fn law_barren_directories_contribute_nothing(
    platform: Platform,
    files: Files,
    list: Seq<Seq<u8>>,
    other: Seq<Seq<u8>>,
    n: nat,
    k: nat,
)
    requires
        fruitful(files, list) == fruitful(files, other),
        DiscoveryModel::initial(platform, list).rounds(files, n).ended(),
        DiscoveryModel::initial(platform, other).rounds(files, k).ended(),
    ensures
        DiscoveryModel::initial(platform, list).rounds(files, n).found
            == DiscoveryModel::initial(platform, other).rounds(files, k).found,
{
    lemma_alike_ends(
        files,
        DiscoveryModel::initial(platform, list),
        DiscoveryModel::initial(platform, other),
        n,
        k,
    );
}

proof fn lemma_fruitful_add(files: Files, a: Seq<Seq<u8>>, b: Seq<Seq<u8>>)
    ensures
        fruitful(files, a + b) == fruitful(files, a) + fruitful(files, b),
    decreases b.len(),
{
    if b.len() == 0 {
        assert(a + b =~= a);
    } else {
        assert((a + b).drop_last() =~= a + b.drop_last());
        lemma_fruitful_add(files, a, b.drop_last());
        assert(fruitful(files, a + b) =~= fruitful(files, a) + fruitful(files, b));
    }
}

proof fn lemma_fruitful_insert(files: Files, list: Seq<Seq<u8>>, i: int, path: Seq<u8>)
    requires
        0 <= i <= list.len(),
        barren(files, path),
    ensures
        fruitful(files, list.insert(i, path)) == fruitful(files, list),
{
    let a = list.take(i);
    let b = list.skip(i);
    assert(list.insert(i, path) =~= a.push(path) + b);
    assert(list =~= a + b);
    lemma_fruitful_add(files, a.push(path), b);
    lemma_fruitful_add(files, a, b);
    lemma_fruitful_push(files, a, path);
}

/// A directory that does not exist, or cannot be accessed or read, put
/// anywhere in the search path variable, changes nothing: the same modules are
/// found.
pub proof fn law_inaccessible_directory_changes_nothing(
    platform: Platform,
    files: Files,
    path_list: Seq<u8>,
    with_dir: Seq<u8>,
    extra: Seq<Seq<u8>>,
    dir: Seq<u8>,
    i: int,
    n: nat,
    k: nat,
)
    requires
        0 <= i <= split(path_list, LIST_SEPARATOR).len(),
        split(with_dir, LIST_SEPARATOR) == split(path_list, LIST_SEPARATOR).insert(i, dir),
        forall|p: Seq<u8>| #[trigger] same_path(p, dir) ==> barren(files, p),
        DiscoveryModel::initial(platform, search_list(path_list, extra)).rounds(files, n).ended(),
        DiscoveryModel::initial(platform, search_list(with_dir, extra)).rounds(files, k).ended(),
    ensures
        DiscoveryModel::initial(platform, search_list(with_dir, extra)).rounds(files, k).found
            == DiscoveryModel::initial(platform, search_list(path_list, extra)).rounds(
            files,
            n,
        ).found,
{
    let list = split(path_list, LIST_SEPARATOR);
    let more = split(with_dir, LIST_SEPARATOR);
    assert(same_path(dir, dir));
    assert(more[i] == dir);
    law_split_parts(with_dir, LIST_SEPARATOR);
    assert(!unlistable(dir));
    lemma_fruitful_insert(files, list, i, dir);
    assert(apart_from(files, dir, list, more)) by {
        lemma_insert_apart(files, dir, list, i);
    }
    lemma_with_paths_apart(files, dir, list, more, extra);
    let a = with_paths(list, extra);
    let b = with_paths(more, extra);
    assert((exists|j: int| 0 <= j < a.len() && unlistable(#[trigger] a[j])) <==> (exists|j: int|
        0 <= j < b.len() && unlistable(#[trigger] b[j]))) by {
        if exists|j: int| 0 <= j < a.len() && unlistable(#[trigger] a[j]) {
            let j = choose|j: int| 0 <= j < a.len() && unlistable(#[trigger] a[j]);
            lemma_unlistable(a[j], dir);
            assert(a.contains(a[j]));
            assert(b.contains(a[j]));
            let l = b.index_of(a[j]);
            assert(unlistable(b[l]));
        }
        if exists|j: int| 0 <= j < b.len() && unlistable(#[trigger] b[j]) {
            let j = choose|j: int| 0 <= j < b.len() && unlistable(#[trigger] b[j]);
            lemma_unlistable(b[j], dir);
            assert(b.contains(b[j]));
            assert(a.contains(b[j]));
            let l = a.index_of(b[j]);
            assert(unlistable(a[l]));
        }
    }
    law_barren_directories_contribute_nothing(
        platform,
        files,
        search_list(with_dir, extra),
        search_list(path_list, extra),
        k,
        n,
    );
}

/// Whether two lists differ only in paths that are the same as `dir`.
spec fn apart_from(files: Files, dir: Seq<u8>, a: Seq<Seq<u8>>, b: Seq<Seq<u8>>) -> bool {
    &&& fruitful(files, a) == fruitful(files, b)
    &&& forall|p: Seq<u8>| !same_path(p, dir) ==> (#[trigger] a.contains(p) <==> b.contains(p))
}

proof fn lemma_insert_apart(files: Files, dir: Seq<u8>, list: Seq<Seq<u8>>, i: int)
    requires
        0 <= i <= list.len(),
        barren(files, dir),
    ensures
        apart_from(files, dir, list, list.insert(i, dir)),
{
    let more = list.insert(i, dir);
    lemma_fruitful_insert(files, list, i, dir);
    assert forall|p: Seq<u8>| !same_path(p, dir) implies (#[trigger] list.contains(p)
        <==> more.contains(p)) by {
        if list.contains(p) {
            let j = list.index_of(p);
            assert(list[j] == p);
            if j < i {
                assert(more[j] == p);
            } else {
                assert(more[j + 1] == p);
            }
        }
        if more.contains(p) {
            let j = more.index_of(p);
            assert(more[j] == p);
            assert(j != i);
            if j < i {
                assert(list[j] == p);
            } else {
                assert(list[j - 1] == p);
            }
        }
    }
}

proof fn lemma_lists_apart(
    files: Files,
    dir: Seq<u8>,
    a: Seq<Seq<u8>>,
    b: Seq<Seq<u8>>,
    path: Seq<u8>,
)
    requires
        apart_from(files, dir, a, b),
        !same_path(path, dir),
        lists_path(a, path),
    ensures
        lists_path(b, path),
{
    let j = choose|j: int| 0 <= j < a.len() && same_path(#[trigger] a[j], path);
    assert(!same_path(a[j], dir));
    assert(a.contains(a[j]));
    assert(b.contains(a[j]));
    let l = b.index_of(a[j]);
    assert(same_path(b[l], path));
}

proof fn lemma_with_paths_apart(
    files: Files,
    dir: Seq<u8>,
    a: Seq<Seq<u8>>,
    b: Seq<Seq<u8>>,
    extra: Seq<Seq<u8>>,
)
    requires
        apart_from(files, dir, a, b),
        forall|p: Seq<u8>| #[trigger] same_path(p, dir) ==> barren(files, p),
    ensures
        apart_from(files, dir, with_paths(a, extra), with_paths(b, extra)),
    decreases extra.len(),
{
    if extra.len() > 0 {
        let path = extra.last();
        let x = with_paths(a, extra.drop_last());
        let y = with_paths(b, extra.drop_last());
        lemma_with_paths_apart(files, dir, a, b, extra.drop_last());
        assert(fruitful(files, y) == fruitful(files, x));
        assert forall|p: Seq<u8>| !same_path(p, dir) implies (#[trigger] y.contains(p)
            <==> x.contains(p)) by {
            assert(x.contains(p) <==> y.contains(p));
        }
        assert(apart_from(files, dir, y, x));
        let one = seq![path];
        lemma_fruitful_add(files, one, x);
        lemma_fruitful_add(files, one, y);
        lemma_fruitful_one(files, path);
        if !same_path(path, dir) {
            if lists_path(x, path) {
                lemma_lists_apart(files, dir, x, y, path);
            }
            if lists_path(y, path) {
                lemma_lists_apart(files, dir, y, x, path);
            }
        }
        let c = with_paths(a, extra);
        let d = with_paths(b, extra);
        assert(fruitful(files, c) =~= fruitful(files, d));
        assert forall|p: Seq<u8>| !same_path(p, dir) implies (#[trigger] c.contains(p)
            <==> d.contains(p)) by {
            assert(x.contains(p) <==> y.contains(p));
            lemma_front_contains(path, x, p);
            lemma_front_contains(path, y, p);
        }
    }
}

proof fn lemma_fruitful_one(files: Files, path: Seq<u8>)
    ensures
        fruitful(files, seq![path]) == (if barren(files, path) {
            Seq::empty()
        } else {
            seq![path]
        }),
{
    assert(seq![path].drop_last() =~= Seq::empty());
    assert(fruitful(files, seq![path].drop_last()) == Seq::<Seq<u8>>::empty());
    assert(Seq::<Seq<u8>>::empty().push(path) =~= seq![path]);
}

proof fn lemma_front_contains(path: Seq<u8>, list: Seq<Seq<u8>>, p: Seq<u8>)
    ensures
        (seq![path] + list).contains(p) <==> p == path || list.contains(p),
{
    let all = seq![path] + list;
    assert(all[0] == path);
    if list.contains(p) {
        let j = list.index_of(p);
        assert(all[j + 1] == p);
    }
    if all.contains(p) {
        let j = all.index_of(p);
        if j > 0 {
            assert(list[j - 1] == p);
        }
    }
}

/// Of two paths that are the same, both or neither can stand in a list.
proof fn lemma_unlistable(path: Seq<u8>, dir: Seq<u8>)
    requires
        unlistable(path),
        !unlistable(dir),
    ensures
        !same_path(path, dir),
{
    let parts = split(path, SEPARATOR);
    let j = lemma_part_with(path, LIST_SEPARATOR);
    assert(parts[j] != seq![DOT]) by {
        if parts[j] == seq![DOT] {
            let l = parts[j].index_of(LIST_SEPARATOR);
            assert(parts[j][l] == LIST_SEPARATOR);
        }
    }
    lemma_component(parts, parts.len(), j);
    if same_path(path, dir) {
        let l = components(path).index_of(parts[j]);
        assert(components(dir)[l] == parts[j]);
        assert(components(dir).contains(parts[j]));
        lemma_component_part(split(dir, SEPARATOR), split(dir, SEPARATOR).len(), parts[j]);
        let i = split(dir, SEPARATOR).index_of(parts[j]);
        lemma_part_of(dir, i, LIST_SEPARATOR);
    }
}

/// A byte of a path other than the separator stands in one of its parts.
proof fn lemma_part_with(s: Seq<u8>, byte: u8) -> (j: int)
    requires
        s.contains(byte),
        byte != SEPARATOR,
    ensures
        0 <= j < split(s, SEPARATOR).len(),
        split(s, SEPARATOR)[j].contains(byte),
    decreases s.len(),
{
    let n = until(s, SEPARATOR);
    if n < s.len() {
        let at = s.index_of(byte);
        assert(s[at] == byte);
        let head = s.take(n as int);
        let rest = s.skip(n as int + 1);
        if at < n {
            assert(head[at] == byte);
            0
        } else {
            lemma_until_stop(s);
            assert(rest[at - n - 1] == byte);
            let j = lemma_part_with(rest, byte);
            assert(split(s, SEPARATOR)[j + 1] == split(rest, SEPARATOR)[j]);
            j + 1
        }
    } else {
        0
    }
}

proof fn lemma_until_stop(s: Seq<u8>)
    ensures
        until(s, SEPARATOR) < s.len() ==> s[until(s, SEPARATOR) as int] == SEPARATOR,
    decreases s.len(),
{
    if s.len() > 0 && s[0] != SEPARATOR {
        lemma_until_stop(s.drop_first());
    }
}

/// The bytes of a part of a path stand in the path.
proof fn lemma_part_of(s: Seq<u8>, j: int, byte: u8)
    requires
        0 <= j < split(s, SEPARATOR).len(),
        split(s, SEPARATOR)[j].contains(byte),
    ensures
        s.contains(byte),
    decreases s.len(),
{
    let n = until(s, SEPARATOR);
    if n < s.len() {
        let rest = s.skip(n as int + 1);
        if j == 0 {
            let head = s.take(n as int);
            let i = head.index_of(byte);
            assert(s[i] == byte);
        } else {
            assert(split(s, SEPARATOR)[j] == split(rest, SEPARATOR)[j - 1]);
            lemma_part_of(rest, j - 1, byte);
            let i = rest.index_of(byte);
            assert(s[i + n + 1] == byte);
        }
    }
}

proof fn lemma_component(parts: Seq<Seq<u8>>, n: nat, j: int)
    requires
        0 <= j < n <= parts.len(),
        is_component(parts, j),
    ensures
        components_of(parts, n).contains(parts[j]),
    decreases n,
{
    let before = components_of(parts, (n - 1) as nat);
    let all = components_of(parts, n);
    if j == n - 1 {
        assert(all[before.len() as int] == parts[j]);
    } else {
        lemma_component(parts, (n - 1) as nat, j);
        let i = before.index_of(parts[j]);
        assert(all[i] == parts[j]);
    }
}

proof fn lemma_component_part(parts: Seq<Seq<u8>>, n: nat, part: Seq<u8>)
    requires
        n <= parts.len(),
        components_of(parts, n).contains(part),
    ensures
        parts.contains(part),
    decreases n,
{
    if n > 0 {
        let before = components_of(parts, (n - 1) as nat);
        let i = components_of(parts, n).index_of(part);
        if i < before.len() {
            assert(before[i] == part);
            lemma_component_part(parts, (n - 1) as nat, part);
        } else {
            assert(parts[n - 1] == part);
        }
    }
}

// Nothing within reach is missed.

/// Whether the directories at two paths are seen alike: both or neither can be
/// read, and what they hold has the same names, is of the same nature, and
/// leads down to the same directories.
pub open spec fn same_listing(
    platform: Platform,
    files: Files,
    p: Seq<u8>,
    q: Seq<u8>,
) -> bool {
    &&& files.entries.contains_key(p) == files.entries.contains_key(q)
    &&& files.entries.contains_key(p) ==> {
        let a = files.entries[p];
        let b = files.entries[q];
        &&& a.len() == b.len()
        &&& forall|i: int|
            0 <= i < a.len() ==> {
                &&& (#[trigger] a[i]).file_name == b[i].file_name
                &&& a[i].meta == b[i].meta
                &&& leads_down(platform, a[i]) ==> {
                    &&& files.ids.contains_key(a[i].path) == files.ids.contains_key(b[i].path)
                    &&& files.ids.contains_key(a[i].path) ==> files.ids[a[i].path]
                        == files.ids[b[i].path]
                }
            }
    }
}

/// Whether identities identify: paths with one identity lead to one directory.
pub open spec fn identifies(platform: Platform, files: Files) -> bool {
    forall|p: Seq<u8>, q: Seq<u8>| #[trigger]
        files.ids.contains_key(p) && #[trigger] files.ids.contains_key(q) && files.ids[p]
            == files.ids[q] ==> same_listing(platform, files, p, q)
}

/// Whether the directory at a path can be accessed and read.
pub open spec fn readable(files: Files, path: Seq<u8>) -> bool {
    files.ids.contains_key(path) && files.entries.contains_key(path)
}

/// Whether the entries of the directory `parent`, which can be read, lead down
/// to `dir`.
pub open spec fn opens(
    platform: Platform,
    files: Files,
    parent: Seq<u8>,
    dir: Seq<u8>,
) -> bool {
    readable(files, parent) && exists|i: int|
        0 <= i < files.entries[parent].len() && leads_down(
            platform,
            #[trigger] files.entries[parent][i],
        ) && files.entries[parent][i].path == dir
}

/// Whether a list of directories leads to `dir` through directories that can
/// be read, `depth` levels down.
pub open spec fn reaches(
    platform: Platform,
    files: Files,
    list: Seq<Seq<u8>>,
    dir: Seq<u8>,
    depth: nat,
) -> bool
    decreases depth,
{
    if depth == 0 {
        list.contains(dir)
    } else {
        exists|parent: Seq<u8>|
            #![trigger opens(platform, files, parent, dir)]
            reaches(platform, files, list, parent, (depth - 1) as nat) && opens(
                platform,
                files,
                parent,
                dir,
            )
    }
}

/// Whether a directory with this identity is still to be searched.
spec fn awaits(files: Files, m: DiscoveryModel, id: (u64, u64)) -> bool {
    exists|j: int|
        0 <= j < m.pending.len() && files.ids.contains_key(#[trigger] m.pending[j])
            && files.ids[m.pending[j]] == id
}

/// Whether the directory at a path, if it can be accessed, was searched or
/// still will be.
spec fn planned(files: Files, m: DiscoveryModel, path: Seq<u8>) -> bool {
    files.ids.contains_key(path) ==> m.visited.contains(files.ids[path]) || awaits(
        files,
        m,
        files.ids[path],
    )
}

/// Whether all that the directory at a path holds was dealt with.
spec fn dealt_with(files: Files, m: DiscoveryModel, path: Seq<u8>) -> bool {
    &&& forall|i: int, name: Seq<char>|
        0 <= i < files.entries[path].len() && #[trigger] is_program(
            m.platform,
            files.entries[path][i],
            name,
        ) ==> m.found.contains_key(name)
    &&& forall|i: int|
        0 <= i < files.entries[path].len() && leads_down(
            m.platform,
            #[trigger] files.entries[path][i],
        ) ==> planned(files, m, files.entries[path][i].path)
}

/// Whether all that was searched was dealt with, and all of `list` was or will
/// be searched.
spec fn settled(files: Files, m: DiscoveryModel, list: Seq<Seq<u8>>) -> bool {
    &&& forall|p: Seq<u8>| #[trigger]
        readable(files, p) && m.visited.contains(files.ids[p]) ==> dealt_with(files, m, p)
    &&& forall|p: Seq<u8>| #[trigger] list.contains(p) ==> planned(files, m, p)
}

/// What was planned stays planned in a round.
proof fn lemma_planned_kept(files: Files, m: DiscoveryModel, path: Seq<u8>)
    requires
        planned(files, m, path),
    ensures
        planned(files, m.visit(files), path),
{
    if files.ids.contains_key(path) && !m.ended() {
        let id = files.ids[path];
        let dir = m.pending.last();
        let next = m.visit(files);
        let rest = m.advanced();
        if files.ids.contains_key(dir) && files.entries.contains_key(dir) {
            lemma_scan(rest.entered(files.ids[dir]), files.entries[dir]);
        }
        assert(next.pending.len() >= rest.pending.len());
        assert(next.pending.take(rest.pending.len() as int) =~= rest.pending);
        assert(m.visited.subset_of(next.visited));
        if !m.visited.contains(id) {
            let j = choose|j: int|
                0 <= j < m.pending.len() && files.ids.contains_key(#[trigger] m.pending[j])
                    && files.ids[m.pending[j]] == id;
            if j < m.pending.len() - 1 {
                assert(next.pending.take(rest.pending.len() as int)[j] == next.pending[j]);
                assert(next.pending[j] == m.pending[j]);
            } else {
                assert(next.visited.contains(id));
            }
        }
    }
}

/// A directory that a look at entries leads down to is put on the list.
proof fn lemma_scan_plans(m: DiscoveryModel, entries: Seq<EntryView>, i: int)
    requires
        0 <= i < entries.len(),
        leads_down(m.platform, entries[i]),
    ensures
        m.scanned(entries).pending.contains(entries[i].path),
    decreases entries.len(),
{
    let shorter = entries.drop_last();
    let before = m.scanned(shorter);
    let after = m.scanned(entries);
    lemma_scan(m, shorter);
    if i < shorter.len() {
        assert(shorter[i] == entries[i]);
        lemma_scan_plans(m, shorter, i);
        let j = before.pending.index_of(entries[i].path);
        assert(after.pending[j] == entries[i].path);
    } else {
        assert(after.pending[before.pending.len() as int] == entries[i].path);
    }
}

proof fn lemma_visit_settled(files: Files, m: DiscoveryModel, list: Seq<Seq<u8>>)
    requires
        identifies(m.platform, files),
        settled(files, m, list),
    ensures
        settled(files, m.visit(files), list),
{
    let next = m.visit(files);
    if !m.ended() {
        let dir = m.pending.last();
        let rest = m.advanced();
        if files.ids.contains_key(dir) && files.entries.contains_key(dir) {
            lemma_scan(rest.entered(files.ids[dir]), files.entries[dir]);
        }
        assert(next.platform == m.platform);
        assert(m.found.dom().subset_of(next.found.dom()));
        assert forall|p: Seq<u8>| #[trigger] list.contains(p) implies planned(files, next, p) by {
            lemma_planned_kept(files, m, p);
        }
        assert forall|p: Seq<u8>| #[trigger]
            readable(files, p) && next.visited.contains(files.ids[p]) implies dealt_with(
            files,
            next,
            p,
        ) by {
            let entries = files.entries[p];
            if m.visited.contains(files.ids[p]) {
                assert(dealt_with(files, m, p));
                assert forall|i: int, name: Seq<char>|
                    0 <= i < entries.len() && #[trigger] is_program(
                        next.platform,
                        entries[i],
                        name,
                    ) implies next.found.contains_key(name) by {
                    assert(is_program(m.platform, entries[i], name));
                    assert(m.found.dom().contains(name));
                }
                assert forall|i: int|
                    0 <= i < entries.len() && leads_down(
                        next.platform,
                        #[trigger] entries[i],
                    ) implies planned(files, next, entries[i].path) by {
                    lemma_planned_kept(files, m, entries[i].path);
                }
            } else {
                lemma_entered_dealt_with(files, m, p);
            }
        }
    }
}

proof fn lemma_entered_dealt_with(files: Files, m: DiscoveryModel, p: Seq<u8>)
    requires
        identifies(m.platform, files),
        !m.ended(),
        readable(files, p),
        !m.visited.contains(files.ids[p]),
        m.visit(files).visited.contains(files.ids[p]),
    ensures
        dealt_with(files, m.visit(files), p),
{
    let next = m.visit(files);
    let dir = m.pending.last();
    let inside = m.advanced().entered(files.ids[dir]);
    let entries = files.entries[p];
    let here = files.entries[dir];
    if files.ids.contains_key(dir) && files.entries.contains_key(dir) {
        lemma_scan(inside, here);
    }
    assert(files.ids.contains_key(dir) && files.ids[dir] == files.ids[p]);
    assert(same_listing(m.platform, files, p, dir));
    assert(next == inside.scanned(here));
    assert forall|i: int, name: Seq<char>|
        0 <= i < entries.len() && #[trigger] is_program(
            next.platform,
            entries[i],
            name,
        ) implies next.found.contains_key(name) by {
        lemma_same_verdict(m.platform, entries[i], here[i]);
        lemma_scan_finds(inside, here, i, name);
    }
    assert forall|i: int|
        0 <= i < entries.len() && leads_down(next.platform, #[trigger] entries[i]) implies planned(
        files,
        next,
        entries[i].path,
    ) by {
        lemma_same_verdict(m.platform, entries[i], here[i]);
        lemma_scan_plans(inside, here, i);
        let j = next.pending.index_of(here[i].path);
        assert(next.pending[j] == here[i].path);
    }
}

/// What an entry is rests on its name and its nature alone.
proof fn lemma_same_verdict(platform: Platform, a: EntryView, b: EntryView)
    requires
        a.file_name == b.file_name,
        a.meta == b.meta,
    ensures
        verdict_on(platform, a) == verdict_on(platform, b),
{
}

proof fn lemma_rounds_settled(files: Files, m: DiscoveryModel, list: Seq<Seq<u8>>, n: nat)
    requires
        identifies(m.platform, files),
        settled(files, m, list),
    ensures
        settled(files, m.rounds(files, n), list),
    decreases n,
{
    if n > 0 {
        lemma_visit_settled(files, m, list);
        lemma_rounds_platform(m, files, 1);
        assert(m.rounds(files, 1) == m.visit(files)) by {
            assert(m.visit(files).rounds(files, 0) == m.visit(files));
        }
        lemma_rounds_settled(files, m.visit(files), list, (n - 1) as nat);
    }
}

proof fn lemma_reached(
    files: Files,
    end: DiscoveryModel,
    list: Seq<Seq<u8>>,
    dir: Seq<u8>,
    depth: nat,
)
    requires
        end.ended(),
        settled(files, end, list),
        reaches(end.platform, files, list, dir, depth),
        files.ids.contains_key(dir),
    ensures
        end.visited.contains(files.ids[dir]),
    decreases depth,
{
    if depth == 0 {
        assert(planned(files, end, dir));
    } else {
        let parent = choose|parent: Seq<u8>|
            #![trigger opens(end.platform, files, parent, dir)]
            reaches(end.platform, files, list, parent, (depth - 1) as nat) && opens(
                end.platform,
                files,
                parent,
                dir,
            );
        lemma_reached(files, end, list, parent, (depth - 1) as nat);
        assert(readable(files, parent));
        assert(dealt_with(files, end, parent));
        let i = choose|i: int|
            0 <= i < files.entries[parent].len() && leads_down(
                end.platform,
                #[trigger] files.entries[parent][i],
            ) && files.entries[parent][i].path == dir;
        assert(planned(files, end, files.entries[parent][i].path));
    }
}

/// A search that ran to its end has found every module whose program stands in
/// a directory that the list leads to, at any depth, through directories that
/// can be read.
pub proof fn law_programs_within_reach_are_found(
    platform: Platform,
    files: Files,
    list: Seq<Seq<u8>>,
    n: nat,
    dir: Seq<u8>,
    depth: nat,
    i: int,
    name: Seq<char>,
)
    requires
        identifies(platform, files),
        DiscoveryModel::initial(platform, list).rounds(files, n).ended(),
        reaches(platform, files, list, dir, depth),
        readable(files, dir),
        0 <= i < files.entries[dir].len(),
        is_program(platform, files.entries[dir][i], name),
    ensures
        DiscoveryModel::initial(platform, list).rounds(files, n).found.contains_key(name),
{
    let m = DiscoveryModel::initial(platform, list);
    let end = m.rounds(files, n);
    assert(settled(files, m, list)) by {
        assert forall|p: Seq<u8>| #[trigger] list.contains(p) implies planned(files, m, p) by {
            let j = list.index_of(p);
            assert(m.pending[j] == p);
        }
    }
    lemma_rounds_platform(m, files, n);
    lemma_rounds_settled(files, m, list, n);
    lemma_reached(files, end, list, dir, depth);
    assert(dealt_with(files, end, dir));
    assert(is_program(end.platform, files.entries[dir][i], name));
}

/// A configured directory whose path holds a list separator makes the whole
/// list unusable: only the empty path is left.
pub proof fn law_unlistable_directory(path_list: Seq<u8>, extra: Seq<Seq<u8>>, i: int)
    requires
        0 <= i < extra.len(),
        extra[i].contains(58u8),
    ensures
        search_list(path_list, extra) == seq![Seq::<u8>::empty()],
{
    let all = with_paths(split(path_list, LIST_SEPARATOR), extra);
    law_with_paths_lists_extra(split(path_list, LIST_SEPARATOR), extra, i);
    let j = choose|j: int| 0 <= j < all.len() && same_path(#[trigger] all[j], extra[i]);
    if !unlistable(all[j]) {
        lemma_unlistable(extra[i], all[j]);
    }
    assert(unlistable(all[j]));
}

} // verus!
