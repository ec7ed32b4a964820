//! File system paths on Unix as sequences of bytes: their components, joining
//! them, and the list of directories in which modules are looked for.
use vstd::prelude::*;

verus! {

/// Separates the components of a path.
pub const SEPARATOR: u8 = 47;

/// Separates the paths in a list of paths.
pub const LIST_SEPARATOR: u8 = 58;

/// Stands for the directory itself.
pub const DOT: u8 = 46;

/// Length of the longest prefix of `s` without `sep`.
pub open spec fn until(s: Seq<u8>, sep: u8) -> nat
    decreases s.len(),
{
    if s.len() > 0 && s[0] != sep {
        1 + until(s.drop_first(), sep)
    } else {
        0
    }
}

/// The parts of `s` between separators; one more than there are separators.
pub open spec fn split(s: Seq<u8>, sep: u8) -> Seq<Seq<u8>>
    decreases s.len(),
{
    let n = until(s, sep);
    if n < s.len() {
        seq![s.take(n as int)] + split(s.skip(n as int + 1), sep)
    } else {
        seq![s]
    }
}

/// Several paths as contracts speak of them.
pub open spec fn paths(v: Seq<Vec<u8>>) -> Seq<Seq<u8>> {
    Seq::new(v.len(), |i: int| v[i]@)
}

/// The bytes of an optional path.
pub open spec fn opt_bytes(b: Option<Vec<u8>>) -> Option<Seq<u8>> {
    match b {
        Some(v) => Some(v@),
        None => None,
    }
}

pub open spec fn is_absolute(path: Seq<u8>) -> bool {
    path.len() > 0 && path[0] == SEPARATOR
}

/// Whether the `i`-th part of a path between separators is a component:
/// empty parts are not, and a dot is only at the start of a relative path.
pub open spec fn is_component(parts: Seq<Seq<u8>>, i: int) -> bool {
    parts[i].len() > 0 && (parts[i] != seq![DOT] || i == 0)
}

/// The components among the first `n` parts.
pub open spec fn components_of(parts: Seq<Seq<u8>>, n: nat) -> Seq<Seq<u8>>
    decreases n,
{
    if n == 0 {
        Seq::empty()
    } else if is_component(parts, n - 1) {
        components_of(parts, (n - 1) as nat).push(parts[n - 1])
    } else {
        components_of(parts, (n - 1) as nat)
    }
}

/// The components of a path.
pub open spec fn components(path: Seq<u8>) -> Seq<Seq<u8>> {
    components_of(split(path, SEPARATOR), split(path, SEPARATOR).len())
}

/// Whether two paths are the same: both absolute or both relative, with the
/// same components. Repeated and trailing separators make no difference.
pub open spec fn same_path(a: Seq<u8>, b: Seq<u8>) -> bool {
    is_absolute(a) == is_absolute(b) && components(a) == components(b)
}

/// `name` below the directory `dir`; `name` itself if it is absolute.
pub open spec fn join(dir: Seq<u8>, name: Seq<u8>) -> Seq<u8> {
    if is_absolute(name) {
        name
    } else if dir.len() > 0 && dir.last() != SEPARATOR {
        dir.push(SEPARATOR) + name
    } else {
        dir + name
    }
}

/// Whether a path is in a list of paths.
pub open spec fn lists_path(list: Seq<Seq<u8>>, path: Seq<u8>) -> bool {
    exists|i: int| 0 <= i < list.len() && same_path(#[trigger] list[i], path)
}

/// `list` with the paths in `extra` put in front, one after the other, each
/// unless it is in the list by then.
pub open spec fn with_paths(list: Seq<Seq<u8>>, extra: Seq<Seq<u8>>) -> Seq<Seq<u8>>
    decreases extra.len(),
{
    if extra.len() == 0 {
        list
    } else {
        let so_far = with_paths(list, extra.drop_last());
        if lists_path(so_far, extra.last()) {
            so_far
        } else {
            seq![extra.last()] + so_far
        }
    }
}

/// Whether a path cannot stand in a list of paths.
pub open spec fn unlistable(path: Seq<u8>) -> bool {
    path.contains(LIST_SEPARATOR)
}

/// The directories to search: those of the variable `path_list`, with those
/// in `extra` in front. If one of them cannot stand in a list of paths, only
/// the empty path is left.
pub open spec fn search_list(path_list: Seq<u8>, extra: Seq<Seq<u8>>) -> Seq<Seq<u8>> {
    let all = with_paths(split(path_list, LIST_SEPARATOR), extra);
    if exists|i: int| 0 <= i < all.len() && unlistable(#[trigger] all[i]) {
        seq![Seq::empty()]
    } else {
        all
    }
}

proof fn lemma_until(s: Seq<u8>, sep: u8, n: int)
    requires
        0 <= n <= s.len(),
        forall|i: int| 0 <= i < n ==> #[trigger] s[i] != sep,
        n < s.len() ==> s[n] == sep,
    ensures
        until(s, sep) == n,
    decreases s.len(),
{
    if n > 0 {
        let t = s.drop_first();
        assert forall|i: int| 0 <= i < n - 1 implies #[trigger] t[i] != sep by {
            assert(t[i] == s[i + 1]);
        }
        lemma_until(t, sep, n - 1);
    }
}

proof fn lemma_until_bound(s: Seq<u8>, sep: u8)
    ensures
        until(s, sep) <= s.len(),
        forall|i: int| 0 <= i < until(s, sep) ==> #[trigger] s[i] != sep,
    decreases s.len(),
{
    if s.len() > 0 && s[0] != sep {
        let t = s.drop_first();
        lemma_until_bound(t, sep);
        assert forall|i: int| 0 <= i < until(s, sep) implies #[trigger] s[i] != sep by {
            if i > 0 {
                assert(s[i] == t[i - 1]);
            }
        }
    }
}

/// There is at least one part between separators, and no part holds one.
pub proof fn law_split_parts(s: Seq<u8>, sep: u8)
    ensures
        split(s, sep).len() > 0,
        forall|i: int| 0 <= i < split(s, sep).len() ==> !(#[trigger] split(s, sep)[i]).contains(sep),
    decreases s.len(),
{
    lemma_until_bound(s, sep);
    let n = until(s, sep);
    if n < s.len() {
        let rest = s.skip(n as int + 1);
        law_split_parts(rest, sep);
        let head = s.take(n as int);
        assert(!head.contains(sep)) by {
            if head.contains(sep) {
                let i = head.index_of(sep);
                assert(s[i] == sep);
            }
        }
        assert forall|i: int| 0 <= i < split(s, sep).len() implies !(#[trigger] split(
            s,
            sep,
        )[i]).contains(sep) by {
            if i > 0 {
                assert(split(s, sep)[i] == split(rest, sep)[i - 1]);
            }
        }
    } else {
        assert(!s.contains(sep)) by {
            if s.contains(sep) {
                let i = s.index_of(sep);
                assert(s[i] == sep);
            }
        }
    }
}

/// Putting paths in front keeps the list behind them as it was.
pub proof fn law_with_paths_keeps_list(list: Seq<Seq<u8>>, extra: Seq<Seq<u8>>)
    ensures
        with_paths(list, extra).len() >= list.len(),
        with_paths(list, extra).skip(with_paths(list, extra).len() - list.len()) == list,
    decreases extra.len(),
{
    let all = with_paths(list, extra);
    if extra.len() == 0 {
        assert(all.skip(0) =~= list);
    } else {
        let so_far = with_paths(list, extra.drop_last());
        law_with_paths_keeps_list(list, extra.drop_last());
        if !lists_path(so_far, extra.last()) {
            assert(all.skip(all.len() - list.len()) =~= so_far.skip(so_far.len() - list.len()));
        }
    }
}

/// Every path that was to be put in front is in the list.
pub proof fn law_with_paths_lists_extra(list: Seq<Seq<u8>>, extra: Seq<Seq<u8>>, i: int)
    requires
        0 <= i < extra.len(),
    ensures
        lists_path(with_paths(list, extra), extra[i]),
    decreases extra.len(),
{
    let all = with_paths(list, extra);
    let so_far = with_paths(list, extra.drop_last());
    if i == extra.len() - 1 {
        if !lists_path(so_far, extra.last()) {
            assert(same_path(all[0], extra[i]));
        }
    } else {
        assert(extra.drop_last()[i] == extra[i]);
        law_with_paths_lists_extra(list, extra.drop_last(), i);
        if !lists_path(so_far, extra.last()) {
            let j = choose|j: int| 0 <= j < so_far.len() && same_path(#[trigger] so_far[j], extra[i]);
            assert(all[j + 1] == so_far[j]);
        }
    }
}

/// The paths of the variable never make the list of directories unusable:
/// that takes a path in front that holds a list separator.
pub proof fn law_search_list_usable(path_list: Seq<u8>, extra: Seq<Seq<u8>>)
    requires
        forall|i: int| 0 <= i < extra.len() ==> !unlistable(#[trigger] extra[i]),
    ensures
        search_list(path_list, extra) == with_paths(split(path_list, LIST_SEPARATOR), extra),
{
    law_split_parts(path_list, LIST_SEPARATOR);
    lemma_with_paths_listable(split(path_list, LIST_SEPARATOR), extra);
}

proof fn lemma_with_paths_listable(list: Seq<Seq<u8>>, extra: Seq<Seq<u8>>)
    requires
        forall|i: int| 0 <= i < list.len() ==> !unlistable(#[trigger] list[i]),
        forall|i: int| 0 <= i < extra.len() ==> !unlistable(#[trigger] extra[i]),
    ensures
        forall|i: int|
            0 <= i < with_paths(list, extra).len() ==> !unlistable(
                #[trigger] with_paths(list, extra)[i],
            ),
    decreases extra.len(),
{
    if extra.len() > 0 {
        let shorter = extra.drop_last();
        assert forall|i: int| 0 <= i < shorter.len() implies !unlistable(#[trigger] shorter[i]) by {
            assert(shorter[i] == extra[i]);
        }
        lemma_with_paths_listable(list, shorter);
        let so_far = with_paths(list, shorter);
        let all = with_paths(list, extra);
        assert forall|i: int| 0 <= i < all.len() implies !unlistable(#[trigger] all[i]) by {
            if !lists_path(so_far, extra.last()) {
                if i > 0 {
                    assert(all[i] == so_far[i - 1]);
                }
            }
        }
    }
}

/// The paths of a list in one sequence, with a separator between them.
pub open spec fn joined(list: Seq<Seq<u8>>) -> Seq<u8>
    decreases list.len(),
{
    if list.len() == 0 {
        Seq::empty()
    } else if list.len() == 1 {
        list[0]
    } else {
        list[0].push(LIST_SEPARATOR) + joined(list.drop_first())
    }
}

/// Writing the directories to search as the value of a search path variable
/// and reading that value gives them back.
pub proof fn law_search_list_reads_back(path_list: Seq<u8>, extra: Seq<Seq<u8>>)
    ensures
        split(joined(search_list(path_list, extra)), LIST_SEPARATOR) == search_list(
            path_list,
            extra,
        ),
{
    let all = with_paths(split(path_list, LIST_SEPARATOR), extra);
    let found = search_list(path_list, extra);
    law_split_parts(path_list, LIST_SEPARATOR);
    law_with_paths_keeps_list(split(path_list, LIST_SEPARATOR), extra);
    if exists|i: int| 0 <= i < all.len() && unlistable(#[trigger] all[i]) {
        assert(found[0] == Seq::<u8>::empty());
        assert(!unlistable(found[0]));
    }
    lemma_split_joined(found);
}

proof fn lemma_split_joined(list: Seq<Seq<u8>>)
    requires
        list.len() > 0,
        forall|i: int| 0 <= i < list.len() ==> !unlistable(#[trigger] list[i]),
    ensures
        split(joined(list), LIST_SEPARATOR) == list,
    decreases list.len(),
{
    let head = list[0];
    let all = joined(list);
    assert forall|i: int| 0 <= i < head.len() implies #[trigger] head[i] != LIST_SEPARATOR by {
        if head[i] == LIST_SEPARATOR {
            assert(head.contains(LIST_SEPARATOR));
        }
    }
    if list.len() == 1 {
        lemma_until(all, LIST_SEPARATOR, head.len() as int);
        assert(seq![head] =~= list);
    } else {
        let rest = list.drop_first();
        assert forall|i: int| 0 <= i < rest.len() implies !unlistable(#[trigger] rest[i]) by {
            assert(rest[i] == list[i + 1]);
        }
        lemma_split_joined(rest);
        assert forall|i: int| 0 <= i < head.len() implies #[trigger] all[i] != LIST_SEPARATOR by {
            assert(all[i] == head[i]);
        }
        lemma_until(all, LIST_SEPARATOR, head.len() as int);
        assert(all.take(head.len() as int) =~= head);
        assert(all.skip(head.len() as int + 1) =~= joined(rest));
        assert(seq![head] + rest =~= list);
    }
}

/// Copies a path.
pub fn clone_bytes(v: &Vec<u8>) -> (r: Vec<u8>)
    ensures
        r@ == v@,
{
    let r: Vec<u8> = v.clone();
    assert(r@ =~= v@);
    r
}

/// Whether two byte sequences are equal.
fn same_bytes(a: &Vec<u8>, b: &Vec<u8>) -> (r: bool)
    ensures
        r == (a@ == b@),
{
    if a.len() != b.len() {
        return false;
    }
    let mut i: usize = 0;
    while i < a.len()
        invariant
            i <= a.len(),
            a.len() == b.len(),
            forall|j: int| 0 <= j < i ==> a@[j] == b@[j],
        decreases a.len() - i,
    {
        if a[i] != b[i] {
            return false;
        }
        i = i + 1;
    }
    assert(a@ =~= b@);
    true
}

/// Copies a part of a byte sequence.
fn part_of(s: &Vec<u8>, from: usize, to: usize) -> (r: Vec<u8>)
    requires
        from <= to <= s.len(),
    ensures
        r@ == s@.subrange(from as int, to as int),
{
    let mut r: Vec<u8> = Vec::new();
    let mut i: usize = from;
    while i < to
        invariant
            from <= i <= to <= s.len(),
            r@ == s@.subrange(from as int, i as int),
        decreases to - i,
    {
        r.push(s[i]);
        assert(s@.subrange(from as int, i + 1) =~= s@.subrange(from as int, i as int).push(
            s@[i as int],
        ));
        i = i + 1;
    }
    r
}

/// Splits a byte sequence at a separator.
pub fn split_bytes(s: &Vec<u8>, sep: u8) -> (r: Vec<Vec<u8>>)
    ensures
        paths(r@) == split(s@, sep),
{
    let mut r: Vec<Vec<u8>> = Vec::new();
    let mut start: usize = 0;
    let mut i: usize = 0;
    assert(s@.skip(0) =~= s@);
    assert(paths(r@) + split(s@, sep) =~= split(s@, sep));
    while i < s.len()
        invariant
            start <= i <= s.len(),
            forall|j: int| start <= j < i ==> #[trigger] s@[j] != sep,
            paths(r@) + split(s@.skip(start as int), sep) == split(s@, sep),
        decreases s.len() - i,
    {
        if s[i] == sep {
            let ghost t = s@.skip(start as int);
            let ghost before = paths(r@);
            let part: Vec<u8> = part_of(s, start, i);
            proof {
                lemma_until(t, sep, i - start);
                assert(part@ =~= t.take(i - start));
                assert(t.skip(i - start + 1) =~= s@.skip(i + 1));
            }
            r.push(part);
            proof {
                assert(paths(r@) =~= before.push(part@));
                assert(paths(r@) + split(s@.skip(i + 1), sep) =~= before + (seq![part@] + split(
                    s@.skip(i + 1),
                    sep,
                )));
            }
            start = i + 1;
        }
        i = i + 1;
    }
    let ghost t = s@.skip(start as int);
    let ghost before = paths(r@);
    let part: Vec<u8> = part_of(s, start, s.len());
    proof {
        lemma_until(t, sep, s@.len() - start);
        assert(part@ =~= t);
    }
    r.push(part);
    assert(paths(r@) =~= before + seq![t]);
    r
}

/// The components of a path.
fn path_components(path: &Vec<u8>) -> (r: Vec<Vec<u8>>)
    ensures
        paths(r@) == components(path@),
{
    let parts: Vec<Vec<u8>> = split_bytes(path, SEPARATOR);
    let ghost all = paths(parts@);
    let mut r: Vec<Vec<u8>> = Vec::new();
    let mut i: usize = 0;
    assert(paths(r@) =~= Seq::empty());
    while i < parts.len()
        invariant
            i <= parts.len(),
            all == paths(parts@),
            paths(r@) == components_of(all, i as nat),
        decreases parts.len() - i,
    {
        let ghost before = paths(r@);
        let part: Vec<u8> = clone_bytes(&parts[i]);
        assert(all[i as int] == part@);
        let dot: bool = part.len() == 1 && part[0] == DOT;
        proof {
            assert(dot <==> part@ == seq![DOT]) by {
                if dot {
                    assert(part@ =~= seq![DOT]);
                } else if part@ == seq![DOT] {
                    assert(part@[0] == DOT);
                }
            }
        }
        if part.len() > 0 && (!dot || i == 0) {
            r.push(part);
            assert(paths(r@) =~= before.push(part@));
        }
        i = i + 1;
    }
    r
}

/// Whether two paths are the same.
pub fn paths_equal(a: &Vec<u8>, b: &Vec<u8>) -> (r: bool)
    ensures
        r == same_path(a@, b@),
{
    let a_root: bool = a.len() > 0 && a[0] == SEPARATOR;
    let b_root: bool = b.len() > 0 && b[0] == SEPARATOR;
    if a_root != b_root {
        return false;
    }
    let x: Vec<Vec<u8>> = path_components(a);
    let y: Vec<Vec<u8>> = path_components(b);
    if x.len() != y.len() {
        assert(paths(x@).len() != paths(y@).len());
        return false;
    }
    let mut i: usize = 0;
    while i < x.len()
        invariant
            i <= x.len(),
            x.len() == y.len(),
            paths(x@) == components(a@),
            paths(y@) == components(b@),
            forall|j: int| 0 <= j < i ==> x@[j]@ == y@[j]@,
        decreases x.len() - i,
    {
        if !same_bytes(&x[i], &y[i]) {
            assert(paths(x@)[i as int] != paths(y@)[i as int]);
            return false;
        }
        i = i + 1;
    }
    assert(paths(x@) =~= paths(y@));
    true
}

/// `name` below the directory `dir`.
pub fn join_path(dir: &Vec<u8>, name: &[u8]) -> (r: Vec<u8>)
    ensures
        r@ == join(dir@, name@),
{
    let absolute: bool = name.len() > 0 && name[0] == SEPARATOR;
    let mut r: Vec<u8> = Vec::new();
    if !absolute {
        r = clone_bytes(dir);
        if r.len() > 0 && r[r.len() - 1] != SEPARATOR {
            r.push(SEPARATOR);
        }
    }
    let ghost base = r@;
    let mut i: usize = 0;
    assert(base + name@.take(0) =~= base);
    while i < name.len()
        invariant
            i <= name.len(),
            r@ == base + name@.take(i as int),
        decreases name.len() - i,
    {
        r.push(name[i]);
        assert(name@.take(i + 1) =~= name@.take(i as int).push(name@[i as int]));
        assert(base + name@.take(i + 1) =~= (base + name@.take(i as int)).push(name@[i as int]));
        i = i + 1;
    }
    assert(name@.take(name@.len() as int) =~= name@);
    assert(r@ =~= join(dir@, name@));
    r
}

/// Whether a path is in a list of paths.
fn is_listed(list: &Vec<Vec<u8>>, path: &Vec<u8>) -> (r: bool)
    ensures
        r == lists_path(paths(list@), path@),
{
    let ghost all = paths(list@);
    let mut i: usize = 0;
    while i < list.len()
        invariant
            i <= list.len(),
            all == paths(list@),
            forall|j: int| 0 <= j < i ==> !same_path(#[trigger] all[j], path@),
        decreases list.len() - i,
    {
        assert(all[i as int] == list@[i as int]@);
        if paths_equal(&list[i], path) {
            return true;
        }
        i = i + 1;
    }
    false
}

/// Puts paths in front of a list, each unless it is there.
pub fn prepend_paths(list: Vec<Vec<u8>>, extra: &Vec<Vec<u8>>) -> (r: Vec<Vec<u8>>)
    ensures
        paths(r@) == with_paths(paths(list@), paths(extra@)),
{
    let ghost more = paths(extra@);
    let ghost base = paths(list@);
    let mut r: Vec<Vec<u8>> = list;
    let mut i: usize = 0;
    assert(more.take(0) =~= Seq::empty());
    while i < extra.len()
        invariant
            i <= extra.len(),
            more == paths(extra@),
            paths(r@) == with_paths(base, more.take(i as int)),
        decreases extra.len() - i,
    {
        let ghost before = paths(r@);
        proof {
            assert(more.take(i + 1).drop_last() =~= more.take(i as int));
            assert(more.take(i + 1).last() == extra@[i as int]@);
        }
        if !is_listed(&r, &extra[i]) {
            r.insert(0, clone_bytes(&extra[i]));
            assert(paths(r@) =~= seq![extra@[i as int]@] + before);
        }
        i = i + 1;
    }
    assert(more.take(more.len() as int) =~= more);
    r
}

/// Whether a path cannot stand in a list of paths.
fn is_unlistable(path: &Vec<u8>) -> (r: bool)
    ensures
        r == unlistable(path@),
{
    let mut i: usize = 0;
    while i < path.len()
        invariant
            i <= path.len(),
            forall|j: int| 0 <= j < i ==> #[trigger] path@[j] != LIST_SEPARATOR,
        decreases path.len() - i,
    {
        if path[i] == LIST_SEPARATOR {
            assert(path@[i as int] == LIST_SEPARATOR);
            return true;
        }
        i = i + 1;
    }
    false
}

/// The directories to search for modules: those of the search path variable,
/// with those of the configuration in front.
pub fn search_directories(path_list: &Vec<u8>, extra: &Vec<Vec<u8>>) -> (r: Vec<Vec<u8>>)
    ensures
        paths(r@) == search_list(path_list@, paths(extra@)),
{
    let all: Vec<Vec<u8>> = prepend_paths(split_bytes(path_list, LIST_SEPARATOR), extra);
    let ghost listed = paths(all@);
    let mut i: usize = 0;
    while i < all.len()
        invariant
            i <= all.len(),
            listed == paths(all@),
            listed == with_paths(split(path_list@, LIST_SEPARATOR), paths(extra@)),
            forall|j: int| 0 <= j < i ==> !unlistable(#[trigger] listed[j]),
        decreases all.len() - i,
    {
        assert(listed[i as int] == all@[i as int]@);
        if is_unlistable(&all[i]) {
            let mut only: Vec<Vec<u8>> = Vec::new();
            only.push(Vec::new());
            assert(only@[0]@ =~= Seq::<u8>::empty());
            assert(paths(only@) =~= seq![Seq::<u8>::empty()]);
            return only;
        }
        i = i + 1;
    }
    all
}

/// A sequence falls into the part up to the first separator and the parts of
/// what is behind it; without a separator it is one part.
pub proof fn law_split(part: Seq<u8>, rest: Seq<u8>, sep: u8)
    requires
        !part.contains(sep),
    ensures
        split(part.push(sep) + rest, sep) == seq![part] + split(rest, sep),
        split(part, sep) == seq![part],
{
    let s = part.push(sep) + rest;
    assert forall|i: int| 0 <= i < part.len() implies #[trigger] part[i] != sep by {
        if part[i] == sep {
            assert(part.contains(sep));
        }
    }
    assert forall|i: int| 0 <= i < part.len() implies #[trigger] s[i] != sep by {
        assert(s[i] == part[i]);
    }
    assert(s[part.len() as int] == sep);
    lemma_until(s, sep, part.len() as int);
    lemma_until(part, sep, part.len() as int);
    assert(s.take(part.len() as int) =~= part);
    assert(s.skip(part.len() as int + 1) =~= rest);
}

proof fn lemma_split_end(dir: Seq<u8>, name: Seq<u8>, sep: u8)
    requires
        !name.contains(sep),
    ensures
        split(dir.push(sep) + name, sep) == split(dir, sep).push(name),
    decreases dir.len(),
{
    let s = dir.push(sep) + name;
    lemma_until_bound(dir, sep);
    let n = until(dir, sep) as int;
    let head = dir.take(n);
    assert(!head.contains(sep)) by {
        if head.contains(sep) {
            let i = head.index_of(sep);
            assert(dir[i] == sep);
        }
    }
    if n < dir.len() {
        lemma_until_end(dir, sep);
        let rest = dir.skip(n + 1);
        assert(dir =~= head.push(sep) + rest);
        assert(s =~= head.push(sep) + (rest.push(sep) + name));
        law_split(head, rest, sep);
        law_split(head, rest.push(sep) + name, sep);
        lemma_split_end(rest, name, sep);
        assert(seq![head] + split(rest, sep).push(name) =~= (seq![head] + split(rest, sep)).push(
            name,
        ));
    } else {
        assert(head =~= dir);
        law_split(dir, name, sep);
        law_split(name, Seq::empty(), sep);
        assert(seq![dir] + seq![name] =~= seq![dir].push(name));
    }
}

proof fn lemma_until_end(s: Seq<u8>, sep: u8)
    ensures
        until(s, sep) < s.len() ==> s[until(s, sep) as int] == sep,
    decreases s.len(),
{
    if s.len() > 0 && s[0] != sep {
        lemma_until_end(s.drop_first(), sep);
    }
}

proof fn lemma_components_of(parts: Seq<Seq<u8>>, name: Seq<u8>, n: nat)
    requires
        n <= parts.len(),
    ensures
        components_of(parts.push(name), n) == components_of(parts, n),
    decreases n,
{
    if n > 0 {
        lemma_components_of(parts, name, (n - 1) as nat);
        assert(parts.push(name)[n - 1] == parts[n - 1]);
    }
}

/// The components of a path are those of the directory and the name behind the
/// last separator; nothing and a dot there add none. A path without a separator
/// is one component, unless it is empty.
pub proof fn law_components(dir: Seq<u8>, name: Seq<u8>)
    requires
        !name.contains(47u8),
    ensures
        name.len() > 0 && name != seq![46u8] ==> components(dir.push(47u8) + name) == components(
            dir,
        ).push(name),
        name.len() == 0 || name == seq![46u8] ==> components(dir.push(47u8) + name) == components(
            dir,
        ),
        name.len() > 0 ==> components(name) == seq![name],
        name.len() == 0 ==> components(name).len() == 0,
{
    let parts = split(dir, SEPARATOR);
    lemma_split_end(dir, name, SEPARATOR);
    law_split_parts(dir, SEPARATOR);
    lemma_components_of(parts, name, parts.len());
    let all = parts.push(name);
    assert(all.len() - 1 == parts.len());
    assert(all[parts.len() as int] == name);
    law_split(name, Seq::empty(), SEPARATOR);
    let one = seq![name];
    assert(one.len() == 1);
    assert(components_of(one, 0) =~= Seq::empty());
    assert(Seq::<Seq<u8>>::empty().push(name) =~= one);
}

/// Two paths below directories are the same exactly if the directories are and
/// the names are; a separator at the end, and a dot there, make no difference.
pub proof fn law_same_path(a: Seq<u8>, b: Seq<u8>, x: Seq<u8>, y: Seq<u8>)
    requires
        a.len() > 0,
        b.len() > 0,
        !x.contains(47u8) && x.len() > 0 && x != seq![46u8],
        !y.contains(47u8) && y.len() > 0 && y != seq![46u8],
    ensures
        same_path(a.push(47u8) + x, b.push(47u8) + y) <==> same_path(a, b) && x == y,
        same_path(a.push(47u8), a),
        same_path(a.push(47u8) + seq![46u8], a),
        same_path(a, a),
        same_path(a, b) ==> same_path(b, a),
        same_path(a, b) ==> (a[0] == 47 <==> b[0] == 47),
{
    law_components(a, x);
    law_components(b, y);
    law_components(a, Seq::empty());
    assert(!seq![46u8].contains(47u8));
    law_components(a, seq![46u8]);
    assert(a.push(47u8) + Seq::<u8>::empty() =~= a.push(47u8));
    let p = components(a);
    let q = components(b);
    if p.push(x) == q.push(y) {
        assert(p.push(x).drop_last() =~= p);
        assert(q.push(y).drop_last() =~= q);
        assert(p.push(x).last() == x);
        assert(q.push(y).last() == y);
    }
    assert((a.push(47u8) + x)[0] == a[0]);
    assert((b.push(47u8) + y)[0] == b[0]);
    assert((a.push(47u8) + seq![46u8])[0] == a[0]);
    assert(a.push(47u8)[0] == a[0]);
}

/// A relative name is put behind the directory with one separator between them,
/// an absolute one stands for itself.
pub proof fn law_join(dir: Seq<u8>, name: Seq<u8>)
    ensures
        name.len() > 0 && name[0] == 47 ==> join(dir, name) == name,
        !(name.len() > 0 && name[0] == 47) ==> {
            &&& dir.len() == 0 ==> join(dir, name) == name
            &&& dir.len() > 0 && dir.last() == 47 ==> join(dir, name) == dir + name
            &&& dir.len() > 0 && dir.last() != 47 ==> join(dir, name) == join(
                dir.push(47u8),
                name,
            )
        },
{
    assert(Seq::<u8>::empty() + name =~= name);
    if dir.len() == 0 {
        assert(dir =~= Seq::empty());
    }
}

/// Of the paths that are to be put in front, each is put before all others
/// unless it is in the list by then, and the list stays as it is then.
pub proof fn law_with_paths_newest_first(list: Seq<Seq<u8>>, extra: Seq<Seq<u8>>, path: Seq<u8>)
    ensures
        lists_path(with_paths(list, extra), path) ==> with_paths(list, extra.push(path))
            == with_paths(list, extra),
        !lists_path(with_paths(list, extra), path) ==> with_paths(list, extra.push(path))
            == seq![path] + with_paths(list, extra),
        with_paths(list, Seq::empty()) == list,
{
    assert(extra.push(path).drop_last() =~= extra);
}

/// A path is in a list exactly if some path there is the same.
pub proof fn law_lists_path(list: Seq<Seq<u8>>, path: Seq<u8>, i: int)
    ensures
        0 <= i < list.len() && same_path(list[i], path) ==> lists_path(list, path),
        lists_path(list, path) ==> exists|j: int|
            0 <= j < list.len() && same_path(#[trigger] list[j], path),
{
}

/// Paths stand as their bytes, one for one.
pub proof fn law_paths(v: Seq<Vec<u8>>)
    ensures
        paths(v).len() == v.len(),
        forall|i: int| 0 <= i < v.len() ==> #[trigger] paths(v)[i] == v[i]@,
{
}

/// The search path variable is a list of paths with a colon between them: the
/// path up to the first colon comes first, and those behind it follow.
pub proof fn law_variable_at_colons(path: Seq<u8>, rest: Seq<u8>)
    requires
        !path.contains(58u8),
    ensures
        search_list(path.push(58u8) + rest, Seq::empty()) == seq![path] + search_list(
            rest,
            Seq::empty(),
        ),
        search_list(path, Seq::empty()) == seq![path],
{
    law_split(path, rest, LIST_SEPARATOR);
    law_search_list_usable(path.push(58u8) + rest, Seq::empty());
    law_search_list_usable(rest, Seq::empty());
    law_search_list_usable(path, Seq::empty());
}

/// An optional path stands as its bytes.
pub proof fn law_opt_bytes(v: Vec<u8>)
    ensures
        opt_bytes(Some(v)) == Some(v@),
        opt_bytes(None) is None,
{
}

} // verus!
