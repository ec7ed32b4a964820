//! A map from names to values that is walked in the order of the names.
use vstd::prelude::*;
use vstd::string::*;

use crate::text::{
    law_order_irreflexive, law_order_total, law_order_transitive, text_less, text_lt, texts,
};

verus! {

/// Whether the texts of a sequence strictly increase.
pub open spec fn increasing(names: Seq<Seq<char>>) -> bool {
    forall|i: int, j: int| 0 <= i < j < names.len() ==> text_lt(names[i], names[j])
}

/// Whether `names` lists the texts in `keys`, each once, in increasing order.
pub open spec fn lists_keys(names: Seq<Seq<char>>, keys: Set<Seq<char>>) -> bool {
    &&& increasing(names)
    &&& forall|k: Seq<char>| names.contains(k) <==> #[trigger] keys.contains(k)
}

/// The texts in `keys` in increasing order.
pub open spec fn key_list(keys: Set<Seq<char>>) -> Seq<Seq<char>> {
    choose|names: Seq<Seq<char>>| lists_keys(names, keys)
}

/// The texts in a set can be listed in increasing order in one way only.
pub proof fn law_key_order_unique(names: Seq<Seq<char>>, keys: Set<Seq<char>>)
    requires
        lists_keys(names, keys),
    ensures
        names == key_list(keys),
{
    let other = key_list(keys);
    assert(lists_keys(other, keys));
    let lt = |x: Seq<char>, y: Seq<char>| text_lt(x, y);
    assert forall|k: Seq<char>| names.contains(k) <==> other.contains(k) by {
        assert(names.contains(k) <==> keys.contains(k));
        assert(other.contains(k) <==> keys.contains(k));
    }
    assert forall|x: Seq<char>| !(#[trigger] lt(x, x)) by {
        law_order_irreflexive(x);
    }
    assert forall|x: Seq<char>, y: Seq<char>, z: Seq<char>| #[trigger]
        lt(x, y) && #[trigger] lt(y, z) implies lt(x, z) by {
        law_order_transitive(x, y, z);
    }
    lemma_sorted_unique(names, other, lt);
}

/// The texts in a finite set can be listed in increasing order.
pub proof fn law_key_order_exists(keys: Set<Seq<char>>)
    requires
        keys.finite(),
    ensures
        lists_keys(key_list(keys), keys),
{
    let names = lemma_listing(keys);
    assert(lists_keys(names, keys));
}

proof fn lemma_listing(keys: Set<Seq<char>>) -> (names: Seq<Seq<char>>)
    requires
        keys.finite(),
    ensures
        lists_keys(names, keys),
    decreases keys.len(),
{
    if keys.len() == 0 {
        let names = Seq::<Seq<char>>::empty();
        assert forall|k: Seq<char>| names.contains(k) <==> #[trigger] keys.contains(k) by {
            if keys.contains(k) {
                assert(keys.remove(k).len() < keys.len());
            }
        }
        names
    } else {
        let a = keys.choose();
        assert(keys.contains(a)) by {
            if forall|k: Seq<char>| !keys.contains(k) {
                assert(keys =~= Set::empty());
            }
        }
        let rest = lemma_listing(keys.remove(a));
        assert(!keys.remove(a).contains(a));
        assert(!rest.contains(a));
        let names = lemma_insert_listed(rest, a);
        assert forall|k: Seq<char>| names.contains(k) <==> #[trigger] keys.contains(k) by {
            assert(rest.contains(k) <==> keys.remove(a).contains(k));
        }
        names
    }
}

proof fn lemma_insert_listed(rest: Seq<Seq<char>>, a: Seq<char>) -> (names: Seq<Seq<char>>)
    requires
        increasing(rest),
        !rest.contains(a),
    ensures
        increasing(names),
        forall|k: Seq<char>| #[trigger] names.contains(k) <==> rest.contains(k) || k == a,
    decreases rest.len(),
{
    if rest.len() == 0 {
        let names = seq![a];
        assert(names[0] == a);
        names
    } else {
        let last = rest.last();
        assert(rest[rest.len() - 1] == last);
        law_order_total(last, a);
        if text_lt(last, a) {
            let names = rest.push(a);
            assert forall|i: int, j: int| 0 <= i < j < names.len() implies text_lt(
                names[i],
                names[j],
            ) by {
                if j == rest.len() && i < rest.len() - 1 {
                    law_order_transitive(rest[i], last, a);
                }
            }
            assert forall|k: Seq<char>| #[trigger] names.contains(k) <==> rest.contains(k) || k
                == a by {
                lemma_push_contains(rest, a, k);
            }
            names
        } else {
            let head = rest.drop_last();
            assert(!head.contains(a)) by {
                if head.contains(a) {
                    let i = head.index_of(a);
                    assert(rest[i] == a);
                }
            }
            let part = lemma_insert_listed(head, a);
            let names = part.push(last);
            assert forall|i: int, j: int| 0 <= i < j < names.len() implies text_lt(
                names[i],
                names[j],
            ) by {
                if j == part.len() {
                    assert(part.contains(part[i]));
                    if head.contains(part[i]) {
                        let n = head.index_of(part[i]);
                        assert(rest[n] == part[i]);
                    }
                }
            }
            assert forall|k: Seq<char>| #[trigger] names.contains(k) <==> rest.contains(k) || k
                == a by {
                lemma_push_contains(part, last, k);
                lemma_push_contains(head, last, k);
                assert(rest =~= head.push(last));
                assert(part.contains(k) <==> head.contains(k) || k == a);
            }
            names
        }
    }
}

pub proof fn lemma_push_contains<A>(s: Seq<A>, x: A, k: A)
    ensures
        s.push(x).contains(k) <==> s.contains(k) || k == x,
{
    let t = s.push(x);
    if s.contains(k) {
        let i = s.index_of(k);
        assert(t[i] == k);
    }
    if k == x {
        assert(t[s.len() as int] == k);
    }
    if t.contains(k) {
        let i = t.index_of(k);
        assert(t[i] == k);
        if i < s.len() {
            assert(s[i] == k);
        }
    }
}

/// Whether a sequence strictly increases in the order `lt`.
pub open spec fn strictly_sorted<A>(s: Seq<A>, lt: spec_fn(A, A) -> bool) -> bool {
    forall|i: int, j: int| 0 <= i < j < s.len() ==> lt(#[trigger] s[i], #[trigger] s[j])
}

/// Two sequences with the same elements that both strictly increase in one
/// order are equal.
pub proof fn lemma_sorted_unique<A>(a: Seq<A>, b: Seq<A>, lt: spec_fn(A, A) -> bool)
    requires
        strictly_sorted(a, lt),
        strictly_sorted(b, lt),
        forall|k: A| a.contains(k) <==> b.contains(k),
        forall|x: A| !(#[trigger] lt(x, x)),
        forall|x: A, y: A, z: A| #[trigger] lt(x, y) && #[trigger] lt(y, z) ==> lt(x, z),
    ensures
        a == b,
    decreases a.len(),
{
    if a.len() == 0 {
        if b.len() > 0 {
            assert(b.contains(b[0]));
        }
        assert(a =~= b);
    } else {
        assert(a.contains(a[0]));
        assert(b.contains(a[0]));
        assert(b.contains(b[0]));
        assert(a.contains(b[0]));
        let i = choose|i: int| 0 <= i < b.len() && b[i] == a[0];
        let j = choose|j: int| 0 <= j < a.len() && a[j] == b[0];
        if i > 0 && j > 0 {
            assert(lt(b[0], b[i]) && lt(a[0], a[j]));
            assert(lt(a[0], a[0]));
        }
        assert(a[0] == b[0]);
        let x = a.drop_first();
        let y = b.drop_first();
        assert(strictly_sorted(x, lt));
        assert(strictly_sorted(y, lt));
        assert forall|k: A| x.contains(k) <==> y.contains(k) by {
            lemma_tail_contains(a, k, lt);
            lemma_tail_contains(b, k, lt);
        }
        lemma_sorted_unique(x, y, lt);
        assert(a =~= seq![a[0]] + x);
        assert(b =~= seq![b[0]] + y);
    }
}

proof fn lemma_tail_contains<A>(a: Seq<A>, k: A, lt: spec_fn(A, A) -> bool)
    requires
        a.len() > 0,
        strictly_sorted(a, lt),
        forall|x: A| !(#[trigger] lt(x, x)),
    ensures
        a.drop_first().contains(k) <==> a.contains(k) && k != a[0],
{
    let x = a.drop_first();
    if x.contains(k) {
        let i = choose|i: int| 0 <= i < x.len() && x[i] == k;
        assert(a[i + 1] == k);
        assert(lt(a[0], a[i + 1]));
    }
    if a.contains(k) && k != a[0] {
        let i = choose|i: int| 0 <= i < a.len() && a[i] == k;
        assert(x[i - 1] == k);
    }
}

/// A map from names to values. Its entries are kept in increasing order of
/// the names, each name once.
pub struct NameMap<V> {
    entries: Vec<(String, V)>,
}

impl<V> View for NameMap<V> {
    type V = Map<Seq<char>, V>;

    closed spec fn view(&self) -> Map<Seq<char>, V> {
        Map::new(
            |k: Seq<char>| self.names().contains(k),
            |k: Seq<char>| self.entries@[self.names().index_of(k)].1,
        )
    }
}

impl<V> NameMap<V> {
    /// The names in the map, in the order in which they are walked.
    pub closed spec fn names(self) -> Seq<Seq<char>> {
        Seq::new(self.entries@.len(), |i: int| self.entries@[i].0@)
    }

    #[verifier::type_invariant]
    spec fn ordered(self) -> bool {
        increasing(self.names())
    }

    proof fn lemma_lookup(self, i: int)
        requires
            self.ordered(),
            0 <= i < self.entries@.len(),
        ensures
            self@.contains_key(self.entries@[i].0@),
            self@[self.entries@[i].0@] == self.entries@[i].1,
    {
        let k = self.entries@[i].0@;
        assert(self.names()[i] == k);
        assert(self.names().contains(k));
        let j = self.names().index_of(k);
        assert(0 <= j < self.names().len() && self.names()[j] == k);
        law_order_irreflexive(k);
        assert(i == j);
    }

    /// An empty map.
    pub fn new() -> (r: NameMap<V>)
        ensures
            r@ == Map::<Seq<char>, V>::empty(),
    {
        let r = NameMap { entries: Vec::new() };
        assert(r@ =~= Map::<Seq<char>, V>::empty());
        r
    }

    /// Where `name` stands, or where it would have to be inserted.
    fn locate(&self, name: &str) -> (r: (usize, bool))
        ensures
            r.0 <= self.entries@.len(),
            forall|i: int| 0 <= i < r.0 ==> text_lt(#[trigger] self.entries@[i].0@, name@),
            r.1 ==> r.0 < self.entries@.len() && self.entries@[r.0 as int].0@ == name@,
            !r.1 ==> forall|i: int|
                r.0 <= i < self.entries@.len() ==> text_lt(name@, #[trigger] self.entries@[i].0@),
    {
        proof {
            use_type_invariant(self);
        }
        let mut i: usize = 0;
        while i < self.entries.len() && text_less(self.entries[i].0.as_str(), name)
            invariant
                i <= self.entries@.len(),
                forall|j: int| 0 <= j < i ==> text_lt(#[trigger] self.entries@[j].0@, name@),
            decreases self.entries.len() - i,
        {
            i = i + 1;
        }
        if i < self.entries.len() {
            let less = text_less(name, self.entries[i].0.as_str());
            proof {
                law_order_total(self.entries@[i as int].0@, name@);
                if less {
                    assert forall|j: int| i <= j < self.entries@.len() implies text_lt(
                        name@,
                        #[trigger] self.entries@[j].0@,
                    ) by {
                        if j > i {
                            assert(text_lt(self.names()[i as int], self.names()[j]));
                            law_order_transitive(
                                name@,
                                self.entries@[i as int].0@,
                                self.entries@[j].0@,
                            );
                        }
                    }
                }
            }
            (i, !less)
        } else {
            (i, false)
        }
    }

    proof fn lemma_absent(self, name: Seq<char>, pos: int)
        requires
            0 <= pos <= self.entries@.len(),
            forall|i: int| 0 <= i < pos ==> text_lt(#[trigger] self.entries@[i].0@, name),
            forall|i: int|
                pos <= i < self.entries@.len() ==> text_lt(name, #[trigger] self.entries@[i].0@),
        ensures
            !self@.contains_key(name),
    {
        law_order_irreflexive(name);
        if self.names().contains(name) {
            let i = self.names().index_of(name);
            assert(self.names()[i] == name);
            assert(self.entries@[i].0@ == name);
        }
    }

    /// The value of `name`, if the map has one.
    pub fn get(&self, name: &str) -> (r: Option<&V>)
        ensures
            match r {
                Some(v) => self@.contains_key(name@) && *v == self@[name@],
                None => !self@.contains_key(name@),
            },
    {
        proof {
            use_type_invariant(self);
        }
        let (pos, found) = self.locate(name);
        if found {
            proof {
                self.lemma_lookup(pos as int);
            }
            Some(&self.entries[pos].1)
        } else {
            proof {
                self.lemma_absent(name@, pos as int);
            }
            None
        }
    }

    /// Whether the map has a value for `name`.
    pub fn contains_key(&self, name: &str) -> (r: bool)
        ensures
            r == self@.contains_key(name@),
    {
        match self.get(name) {
            Some(_) => true,
            None => false,
        }
    }

    /// Gives `name` the value `value`, in place of any it has.
    pub fn insert(&mut self, name: &str, value: V)
        ensures
            final(self)@ == old(self)@.insert(name@, value),
    {
        proof {
            use_type_invariant(&*self);
        }
        let ghost before = *self;
        let (pos, found) = self.locate(name);
        proof {
            if !found {
                self.lemma_absent(name@, pos as int);
            }
        }
        let mut entries: Vec<(String, V)> = Vec::new();
        std::mem::swap(&mut entries, &mut self.entries);
        if found {
            let _ = entries.remove(pos);
        }
        entries.insert(pos, (name.to_owned(), value));
        let ghost after = NameMap { entries };
        proof {
            let new = after.names();
            let was = before.names();
            let shift: int = if found {
                0
            } else {
                1
            };
            assert forall|i: int| 0 <= i < new.len() implies #[trigger] new[i] == (if i < pos {
                was[i]
            } else if i == pos {
                name@
            } else {
                was[i - shift]
            }) by {}
            assert forall|i: int, j: int| 0 <= i < j < new.len() implies text_lt(new[i], new[j]) by {
                if i < pos {
                    assert(text_lt(before.entries@[i].0@, name@));
                }
                if i == pos && found {
                    assert(text_lt(was[pos as int], was[j]));
                }
                if i == pos && !found {
                    assert(text_lt(name@, before.entries@[j - 1].0@));
                }
            }
            assert(after.ordered());
            assert forall|k: Seq<char>| #[trigger] after@.contains_key(k) <==> before@.insert(
                name@,
                value,
            ).contains_key(k) by {
                if new.contains(k) {
                    let i = new.index_of(k);
                    assert(new[i] == k);
                    if i < pos {
                        assert(was[i] == k);
                    } else if i > pos {
                        assert(was[i - shift] == k);
                    }
                }
                if k == name@ {
                    assert(new[pos as int] == k);
                }
                if was.contains(k) {
                    let i = was.index_of(k);
                    assert(was[i] == k);
                    if i < pos {
                        assert(new[i] == k);
                    } else {
                        assert(new[i + shift] == k || k == name@);
                    }
                }
            }
            assert forall|k: Seq<char>| #[trigger] after@.contains_key(k) implies after@[k]
                == before@.insert(name@, value)[k] by {
                let i = new.index_of(k);
                assert(new[i] == k);
                after.lemma_lookup(i);
                law_order_irreflexive(name@);
                if i < pos {
                    before.lemma_lookup(i);
                    assert(text_lt(before.entries@[i].0@, name@));
                } else if i > pos {
                    before.lemma_lookup(i - shift);
                    assert(text_lt(new[pos as int], new[i]));
                }
            }
            assert(after@ =~= before@.insert(name@, value));
        }
        self.entries = entries;
    }

    /// Removes `name` and its value.
    pub fn remove(&mut self, name: &str)
        ensures
            final(self)@ == old(self)@.remove(name@),
    {
        proof {
            use_type_invariant(&*self);
        }
        let ghost before = *self;
        let (pos, found) = self.locate(name);
        if found {
            let mut entries: Vec<(String, V)> = Vec::new();
            std::mem::swap(&mut entries, &mut self.entries);
            let _ = entries.remove(pos);
            let ghost after = NameMap { entries };
            proof {
                let new = after.names();
                let was = before.names();
                assert forall|i: int| 0 <= i < new.len() implies #[trigger] new[i] == (if i < pos {
                    was[i]
                } else {
                    was[i + 1]
                }) by {}
                assert(after.ordered());
                assert forall|k: Seq<char>| #[trigger] after@.contains_key(k) <==> before@.remove(
                    name@,
                ).contains_key(k) by {
                    law_order_irreflexive(name@);
                    if new.contains(k) {
                        let i = new.index_of(k);
                        assert(new[i] == k);
                        if i < pos {
                            assert(was[i] == k);
                            assert(text_lt(was[i], was[pos as int]));
                        } else {
                            assert(was[i + 1] == k);
                            assert(text_lt(was[pos as int], was[i + 1]));
                        }
                    }
                    if was.contains(k) && k != name@ {
                        let i = was.index_of(k);
                        assert(was[i] == k);
                        if i < pos {
                            assert(new[i] == k);
                        } else {
                            assert(new[i - 1] == k);
                        }
                    }
                }
                assert forall|k: Seq<char>| #[trigger] after@.contains_key(k) implies after@[k]
                    == before@.remove(name@)[k] by {
                    let i = new.index_of(k);
                    assert(new[i] == k);
                    after.lemma_lookup(i);
                    if i < pos {
                        before.lemma_lookup(i);
                    } else {
                        before.lemma_lookup(i + 1);
                    }
                }
                assert(after@ =~= before@.remove(name@));
            }
            self.entries = entries;
        } else {
            proof {
                before.lemma_absent(name@, pos as int);
                assert(before@ =~= before@.remove(name@));
            }
        }
    }

    /// The number of names.
    pub fn len(&self) -> (n: usize)
        ensures
            n == self.names().len(),
            lists_keys(self.names(), self@.dom()),
            self.names() == key_list(self@.dom()),
    {
        proof {
            use_type_invariant(self);
            assert forall|k: Seq<char>| self.names().contains(k) <==> #[trigger] self@.dom().contains(
                k,
            ) by {}
            law_key_order_unique(self.names(), self@.dom());
        }
        self.entries.len()
    }

    /// The names in the order of the names.
    pub fn keys(&self) -> (r: Vec<String>)
        ensures
            texts(r@) == key_list(self@.dom()),
            lists_keys(texts(r@), self@.dom()),
    {
        let n: usize = self.len();
        let mut r: Vec<String> = Vec::new();
        let mut i: usize = 0;
        while i < n
            invariant
                i <= n,
                n == self.names().len(),
                texts(r@) == self.names().take(i as int),
            decreases n - i,
        {
            let ghost before = texts(r@);
            let name = self.name_at(i);
            r.push(name.to_owned());
            assert(texts(r@) =~= before.push(name@));
            assert(self.names().take(i + 1) =~= self.names().take(i as int).push(name@));
            i = i + 1;
        }
        assert(self.names().take(n as int) =~= self.names());
        r
    }

    /// The `i`-th name in the order of the names.
    pub fn name_at(&self, i: usize) -> (r: &str)
        requires
            i < self.names().len(),
        ensures
            r@ == self.names()[i as int],
            self@.contains_key(r@),
    {
        proof {
            use_type_invariant(self);
            self.lemma_lookup(i as int);
        }
        self.entries[i].0.as_str()
    }

    /// The value of the `i`-th name in the order of the names.
    pub fn value_at(&self, i: usize) -> (r: &V)
        requires
            i < self.names().len(),
        ensures
            *r == self@[self.names()[i as int]],
            self@.contains_key(self.names()[i as int]),
    {
        proof {
            use_type_invariant(self);
            self.lemma_lookup(i as int);
        }
        &self.entries[i].1
    }
}

/// The texts of a finite set, put in order, are just these texts, each once,
/// and each comes before the next.
pub proof fn law_key_list(keys: Set<Seq<char>>)
    requires
        keys.finite(),
    ensures
        forall|k: Seq<char>| #[trigger] key_list(keys).contains(k) <==> keys.contains(k),
        forall|i: int, j: int|
            0 <= i < j < key_list(keys).len() ==> text_lt(
                #[trigger] key_list(keys)[i],
                #[trigger] key_list(keys)[j],
            ),
{
    law_key_order_exists(keys);
    assert forall|k: Seq<char>| #[trigger] key_list(keys).contains(k) <==> keys.contains(k) by {
        assert(keys.contains(k) <==> key_list(keys).contains(k));
    }
}

} // verus!
