//! A name-keyed collection of records with unique, case-sensitive names.
use vstd::prelude::*;

use crate::text::{lemma_name_lt_irreflexive, lemma_name_lt_total, lemma_name_lt_transitive, name_less, name_lt};

verus! {

/// Records keyed by name; names are unique and enumerate in ascending order.
#[derive(Debug, PartialEq, Clone)]
pub struct Registry<R> {
    entries: Vec<(String, R)>,
}

impl<R: View> View for Registry<R> {
    type V = Map<Seq<char>, R::V>;

    closed spec fn view(&self) -> Map<Seq<char>, R::V> {
        Map::new(
            |k: Seq<char>| exists|i: int| 0 <= i < self.entries@.len() && #[trigger] self.entries@[i].0@ == k,
            |k: Seq<char>|
                self.entries@[choose|i: int| 0 <= i < self.entries@.len() && #[trigger] self.entries@[i].0@ == k].1@,
        )
    }
}

/// The map that inserting the entries one after another builds.
pub open spec fn fold_entries<R: View>(s: Seq<(String, R)>) -> Map<Seq<char>, R::V>
    decreases s.len(),
{
    if s.len() == 0 {
        Map::empty()
    } else {
        fold_entries(s.drop_last()).insert(s.last().0@, s.last().1@)
    }
}

/// The names, in enumeration order, that begin with `prefix`.
pub open spec fn prefixed_names<R>(s: Seq<(String, R)>, prefix: Seq<char>) -> Seq<Seq<char>>
    decreases s.len(),
{
    if s.len() == 0 {
        Seq::empty()
    } else if prefix.is_prefix_of(s.last().0@) {
        prefixed_names(s.drop_last(), prefix).push(s.last().0@)
    } else {
        prefixed_names(s.drop_last(), prefix)
    }
}

/// At most `limit` items from the front of `s`.
pub open spec fn at_most(s: Seq<Seq<char>>, limit: usize) -> Seq<Seq<char>> {
    if s.len() <= limit {
        s
    } else {
        s.take(limit as int)
    }
}

proof fn lemma_prefixed_grows<R>(s: Seq<(String, R)>, prefix: Seq<char>, n: int, m: int)
    requires
        0 <= n <= m <= s.len(),
    ensures
        prefixed_names(s.take(n), prefix).len() <= prefixed_names(s.take(m), prefix).len(),
        prefixed_names(s.take(m), prefix).take(prefixed_names(s.take(n), prefix).len() as int) == prefixed_names(
            s.take(n),
            prefix,
        ),
    decreases m - n,
{
    if n < m {
        lemma_prefixed_grows(s, prefix, n, m - 1);
        assert(s.take(m).drop_last() =~= s.take(m - 1));
        let a = prefixed_names(s.take(n), prefix);
        let b = prefixed_names(s.take(m - 1), prefix);
        let c = prefixed_names(s.take(m), prefix);
        assert(c.take(a.len() as int) =~= b.take(a.len() as int));
    } else {
        let a = prefixed_names(s.take(n), prefix);
        assert(a.take(a.len() as int) =~= a);
    }
}

pub open spec fn names_unique<R>(s: Seq<(String, R)>) -> bool {
    forall|i: int, j: int| 0 <= i < j < s.len() ==> #[trigger] s[i].0@ != #[trigger] s[j].0@
}

proof fn lemma_fold_prefix<R: View>(s: Seq<(String, R)>, n: int)
    requires
        names_unique(s),
        0 <= n <= s.len(),
    ensures
        forall|k: Seq<char>| #[trigger] fold_entries(s.take(n)).contains_key(k) <==> exists|i: int|
            0 <= i < n && #[trigger] s[i].0@ == k,
        forall|i: int| 0 <= i < n ==> #[trigger] fold_entries(s.take(n))[s[i].0@] == s[i].1@,
    decreases n,
{
    if n > 0 {
        lemma_fold_prefix(s, n - 1);
        assert(s.take(n).drop_last() =~= s.take(n - 1));
        assert(s.take(n).last() == s[n - 1]);
        let prev = fold_entries(s.take(n - 1));
        let m = fold_entries(s.take(n));
        assert(m == prev.insert(s[n - 1].0@, s[n - 1].1@));
        assert forall|k: Seq<char>| #[trigger] m.contains_key(k) <==> exists|i: int| 0 <= i < n && #[trigger] s[i].0@ == k by {
            if m.contains_key(k) {
                if k == s[n - 1].0@ {
                    assert(s[n - 1].0@ == k);
                } else {
                    assert(prev.contains_key(k));
                    let i = choose|i: int| 0 <= i < n - 1 && #[trigger] s[i].0@ == k;
                    assert(s[i].0@ == k);
                }
            }
            if exists|i: int| 0 <= i < n && #[trigger] s[i].0@ == k {
                let i = choose|i: int| 0 <= i < n && #[trigger] s[i].0@ == k;
                if i < n - 1 {
                    assert(prev.contains_key(k));
                }
            }
        }
        assert forall|i: int| 0 <= i < n implies #[trigger] m[s[i].0@] == s[i].1@ by {
            if i < n - 1 {
                assert(s[i].0@ != s[n - 1].0@);
                assert(prev[s[i].0@] == s[i].1@);
            }
        }
    } else {
        assert(s.take(0) =~= Seq::<(String, R)>::empty());
    }
}

impl<R: View> Registry<R> {
    /// The view is what inserting the entries in order builds.
    pub proof fn lemma_fold(&self)
        requires
            self.wf(),
        ensures
            self@ == fold_entries(self.seq()),
            names_unique(self.seq()),
    {
        let s = self.entries@;
        lemma_fold_prefix(s, s.len() as int);
        assert(s.take(s.len() as int) =~= s);
        assert(self@ =~= fold_entries(s)) by {
            assert forall|k: Seq<char>| self@.contains_key(k) <==> fold_entries(s).contains_key(k) by {
                if fold_entries(s).contains_key(k) {
                    let i = choose|i: int| 0 <= i < s.len() && #[trigger] s[i].0@ == k;
                    self.lemma_at(i);
                }
            }
            assert forall|k: Seq<char>| #[trigger] self@.contains_key(k) implies self@[k] == fold_entries(s)[k] by {
                let i = choose|i: int| 0 <= i < s.len() && #[trigger] s[i].0@ == k;
                self.lemma_at(i);
            }
        }
    }

    /// The entries in enumeration order.
    pub closed spec fn seq(&self) -> Seq<(String, R)> {
        self.entries@
    }

    pub closed spec fn wf(&self) -> bool {
        &&& forall|i: int, j: int|
            0 <= i < j < self.entries@.len() ==> #[trigger] self.entries@[i].0@ != #[trigger] self.entries@[j].0@
        &&& forall|i: int, j: int|
            0 <= i < j < self.entries@.len() ==> #[trigger] name_lt(self.entries@[i].0@, self.entries@[j].0@)
    }

    /// The entries enumerate in ascending name order.
    pub proof fn lemma_sorted(&self)
        requires
            self.wf(),
        ensures
            forall|i: int, j: int| 0 <= i < j < self.seq().len() ==> #[trigger] name_lt(self.seq()[i].0@, self.seq()[j].0@),
    {
    }

    /// Every entry is in the map under its name, and the map holds nothing else.
    pub proof fn lemma_seq_view(&self)
        requires
            self.wf(),
        ensures
            forall|i: int| 0 <= i < self.seq().len() ==> #[trigger] self@.contains_key(self.seq()[i].0@)
                && self@[self.seq()[i].0@] == self.seq()[i].1@,
            forall|k: Seq<char>| #[trigger] self@.contains_key(k) ==> exists|i: int|
                0 <= i < self.seq().len() && #[trigger] self.seq()[i].0@ == k,
            self.seq().len() == self@.len(),
    {
        assert forall|i: int| 0 <= i < self.seq().len() implies #[trigger] self@.contains_key(self.seq()[i].0@)
            && self@[self.seq()[i].0@] == self.seq()[i].1@ by {
            self.lemma_at(i);
        }
        assert forall|k: Seq<char>| #[trigger] self@.contains_key(k) implies exists|i: int|
            0 <= i < self.seq().len() && #[trigger] self.seq()[i].0@ == k by {
            let i = choose|i: int| 0 <= i < self.entries@.len() && #[trigger] self.entries@[i].0@ == k;
            assert(self.seq()[i].0@ == k);
        }
        self.lemma_len();
    }

    proof fn lemma_at(&self, i: int)
        requires
            self.wf(),
            0 <= i < self.entries@.len(),
        ensures
            self@.contains_key(self.entries@[i].0@),
            self@[self.entries@[i].0@] == self.entries@[i].1@,
    {
        let k = self.entries@[i].0@;
        assert(self@.contains_key(k));
        let j = choose|j: int| 0 <= j < self.entries@.len() && #[trigger] self.entries@[j].0@ == k;
        if j != i {
            if j < i {
                assert(self.entries@[j].0@ != self.entries@[i].0@);
            } else {
                assert(self.entries@[i].0@ != self.entries@[j].0@);
            }
        }
    }

    proof fn lemma_len(&self)
        requires
            self.wf(),
        ensures
            self.entries@.len() == self@.len(),
    {
        let names = self.entries@.map_values(|e: (String, R)| e.0@);
        assert(self@.dom() =~= names.to_set()) by {
            assert forall|k: Seq<char>| self@.dom().contains(k) implies names.to_set().contains(k) by {
                let i = choose|i: int| 0 <= i < self.entries@.len() && #[trigger] self.entries@[i].0@ == k;
                assert(names[i] == k);
            }
            assert forall|k: Seq<char>| names.to_set().contains(k) implies self@.dom().contains(k) by {
                let i = choose|i: int| 0 <= i < names.len() && names[i] == k;
                assert(self.entries@[i].0@ == k);
            }
        }
        assert(names.no_duplicates()) by {
            assert forall|i: int, j: int| 0 <= i < names.len() && 0 <= j < names.len() && i != j implies names[i]
                != names[j] by {
                if i < j {
                    assert(self.entries@[i].0@ != self.entries@[j].0@);
                } else {
                    assert(self.entries@[j].0@ != self.entries@[i].0@);
                }
            }
        }
        names.unique_seq_to_set();
    }

    /// The first `limit` names, in enumeration order, that begin with `prefix`.
    pub fn names_starting_with(&self, prefix: &str, limit: usize) -> (r: Vec<String>)
        ensures
            r@.map_values(|n: String| n@) == at_most(prefixed_names(self.seq(), prefix@), limit),
    {
        let ghost s = self.entries@;
        let mut r: Vec<String> = Vec::new();
        let mut i: usize = 0;
        assert(s.take(0) =~= Seq::<(String, R)>::empty());
        while i < self.entries.len() && r.len() < limit
            invariant
                i <= s.len(),
                s == self.entries@,
                r@.len() <= limit,
                r@.map_values(|n: String| n@) == prefixed_names(s.take(i as int), prefix@),
            decreases s.len() - i,
        {
            assert(s.take(i + 1).drop_last() =~= s.take(i as int));
            assert(s.take(i + 1).last() == s[i as int]);
            if crate::text::starts_with(self.entries[i].0.as_str(), prefix) {
                let ghost before = r@;
                r.push(self.entries[i].0.clone());
                assert(r@.map_values(|n: String| n@) =~= before.map_values(|n: String| n@).push(s[i as int].0@));
            }
            i = i + 1;
        }
        proof {
            if i == s.len() {
                assert(s.take(i as int) =~= s);
            } else {
                lemma_prefixed_grows(s, prefix@, i as int, s.len() as int);
                assert(s.take(s.len() as int) =~= s);
            }
        }
        r
    }

    pub fn new() -> (r: Registry<R>)
        ensures
            r.wf(),
            r@ == Map::<Seq<char>, R::V>::empty(),
            r.seq().len() == 0,
    {
        let r = Registry { entries: Vec::new() };
        assert(r@ =~= Map::<Seq<char>, R::V>::empty());
        r
    }

    pub fn len(&self) -> (r: usize)
        requires
            self.wf(),
        ensures
            r == self@.len(),
    {
        proof {
            self.lemma_len();
        }
        self.entries.len()
    }

    pub fn is_empty(&self) -> (r: bool)
        requires
            self.wf(),
        ensures
            r <==> self@.len() == 0,
    {
        proof {
            self.lemma_len();
        }
        self.entries.len() == 0
    }

    /// The entries, in enumeration order.
    pub fn entries(&self) -> (r: &[(String, R)])
        ensures
            r@ == self.seq(),
    {
        self.entries.as_slice()
    }

    /// Where the record named `name` is stored.
    pub fn find(&self, name: &str) -> (r: Option<usize>)
        requires
            self.wf(),
        ensures
            r is None <==> !self@.contains_key(name@),
            r matches Some(i) ==> i < self.seq().len() && self.seq()[i as int].0@ == name@
                && self@[name@] == self.seq()[i as int].1@,
    {
        let key = name.to_string();
        let mut i: usize = 0;
        while i < self.entries.len()
            invariant
                self.wf(),
                key@ == name@,
                i <= self.entries@.len(),
                forall|j: int| 0 <= j < i ==> self.entries@[j].0@ != name@,
            decreases self.entries@.len() - i,
        {
            if self.entries[i].0 == key {
                proof {
                    self.lemma_at(i as int);
                }
                return Some(i);
            }
            i = i + 1;
        }
        None
    }

    pub fn contains(&self, name: &str) -> (r: bool)
        requires
            self.wf(),
        ensures
            r <==> self@.contains_key(name@),
    {
        self.find(name).is_some()
    }

    /// The record named `name`, if any.
    pub fn get(&self, name: &str) -> (r: Option<&R>)
        requires
            self.wf(),
        ensures
            r is None <==> !self@.contains_key(name@),
            r matches Some(x) ==> self@[name@] == x@,
    {
        match self.find(name) {
            Some(i) => Some(&self.entries[i].1),
            None => None,
        }
    }

    /// Where a name not yet taken belongs: after every name below it.
    fn insert_position(&self, name: &str) -> (r: usize)
        requires
            self.wf(),
        ensures
            r <= self.entries@.len(),
            forall|j: int| 0 <= j < r ==> name_lt(#[trigger] self.entries@[j].0@, name@),
            forall|j: int| r <= j < self.entries@.len() ==> !name_lt(#[trigger] self.entries@[j].0@, name@),
    {
        let mut i: usize = 0;
        while i < self.entries.len() && name_less(self.entries[i].0.as_str(), name)
            invariant
                self.wf(),
                i <= self.entries@.len(),
                forall|j: int| 0 <= j < i ==> name_lt(#[trigger] self.entries@[j].0@, name@),
            decreases self.entries@.len() - i,
        {
            i = i + 1;
        }
        proof {
            assert forall|j: int| i <= j < self.entries@.len() implies !name_lt(#[trigger] self.entries@[j].0@, name@) by {
                if j > i && name_lt(self.entries@[j].0@, name@) {
                    assert(name_lt(self.entries@[i as int].0@, self.entries@[j].0@));
                    lemma_name_lt_transitive(self.entries@[i as int].0@, self.entries@[j].0@, name@);
                }
            }
        }
        i
    }

    /// Adds a record under a name that is not yet taken, keeping names in ascending order.
    pub fn insert_new(&mut self, name: String, record: R) -> (pos: usize)
        requires
            old(self).wf(),
            !old(self)@.contains_key(name@),
        ensures
            final(self).wf(),
            final(self)@ == old(self)@.insert(name@, record@),
            pos <= old(self).seq().len(),
            final(self).seq() == old(self).seq().insert(pos as int, (name, record)),
    {
        let ghost before = self.entries@;
        let ghost old_map = self@;
        let ghost k = name@;
        let ghost v = record@;
        let pos = self.insert_position(name.as_str());
        let ghost entry = (name, record);
        assert(entry == (name, record));
        proof {
            assert forall|j: int| pos <= j < before.len() implies name_lt(k, #[trigger] before[j].0@) by {
                assert(before[j].0@ != k) by {
                    if before[j].0@ == k {
                        assert(old_map.contains_key(k));
                    }
                }
                lemma_name_lt_total(before[j].0@, k);
            }
        }
        self.entries.insert(pos, (name, record));
        proof {
            let after = self.entries@;
            assert(after == before.insert(pos as int, entry));
            assert(self.seq() == before.insert(pos as int, entry));
            assert forall|i: int, j: int| 0 <= i < j < after.len() implies #[trigger] name_lt(after[i].0@, after[j].0@) by {
                let i0 = if i < pos { i } else { i - 1 };
                let j0 = if j < pos { j } else { j - 1 };
                if j < pos {
                    assert(after[i] == before[i] && after[j] == before[j]);
                } else if j == pos {
                    assert(after[i] == before[i]);
                } else if i < pos {
                    assert(after[i] == before[i] && after[j] == before[j0]);
                    lemma_name_lt_transitive(before[i].0@, k, before[j0].0@);
                } else if i == pos {
                    assert(after[j] == before[j0]);
                } else {
                    assert(after[i] == before[i0] && after[j] == before[j0]);
                }
            }
            assert forall|i: int, j: int| 0 <= i < j < after.len() implies #[trigger] after[i].0@ != #[trigger] after[j].0@ by {
                assert(name_lt(after[i].0@, after[j].0@));
                lemma_name_lt_irreflexive(after[i].0@, after[j].0@);
            }
            assert(self@ =~= old_map.insert(k, v)) by {
                assert forall|key: Seq<char>| self@.contains_key(key) <==> old_map.insert(k, v).contains_key(key) by {
                    if self@.contains_key(key) {
                        let i = choose|i: int| 0 <= i < after.len() && #[trigger] after[i].0@ == key;
                        if i < pos {
                            assert(before[i].0@ == key);
                        } else if i > pos {
                            assert(before[i - 1].0@ == key);
                        }
                    }
                    if old_map.contains_key(key) && key != k {
                        let i = choose|i: int| 0 <= i < before.len() && #[trigger] before[i].0@ == key;
                        if i < pos {
                            assert(after[i].0@ == key);
                        } else {
                            assert(after[i + 1].0@ == key);
                        }
                    }
                    if key == k {
                        assert(after[pos as int].0@ == key);
                    }
                }
                assert forall|key: Seq<char>| #[trigger] self@.contains_key(key) implies self@[key] == old_map.insert(
                    k,
                    v,
                )[key] by {
                    let i = choose|i: int| 0 <= i < after.len() && #[trigger] after[i].0@ == key;
                    self.lemma_at(i);
                    if i != pos {
                        let i0 = if i < pos { i } else { i - 1 };
                        assert(after[i] == before[i0]);
                        let j = choose|j: int| 0 <= j < before.len() && #[trigger] before[j].0@ == key;
                        if j != i0 {
                            if j < i0 {
                                assert(before[j].0@ != before[i0].0@);
                            } else {
                                assert(before[i0].0@ != before[j].0@);
                            }
                        }
                    }
                }
            }
        }
        pos
    }

    /// Takes out the record named `name`; true when there was one.
    pub fn remove(&mut self, name: &str) -> (r: bool)
        requires
            old(self).wf(),
        ensures
            final(self).wf(),
            r <==> old(self)@.contains_key(name@),
            final(self)@ == old(self)@.remove(name@),
            r ==> exists|i: int| 0 <= i < old(self).seq().len() && final(self).seq() == old(self).seq().remove(i),
            !r ==> final(self).seq() == old(self).seq(),
    {
        match self.find(name) {
            None => {
                proof {
                    assert(self@.remove(name@) =~= self@);
                }
                false
            },
            Some(i) => {
                let ghost before = self.entries@;
                let ghost old_map = self@;
                let ghost k = name@;
                self.entries.remove(i);
                proof {
                    assert(self.entries@ == before.remove(i as int));
                    assert(self.entries@ == before.remove(i as int));
                    assert forall|a: int, b: int| 0 <= a < b < self.entries@.len() implies #[trigger] self.entries@[a].0@
                        != #[trigger] self.entries@[b].0@ by {
                        let a0 = if a < i { a } else { a + 1 };
                        let b0 = if b < i { b } else { b + 1 };
                        assert(self.entries@[a] == before[a0]);
                        assert(self.entries@[b] == before[b0]);
                        assert(before[a0].0@ != before[b0].0@);
                    }
                    assert(self@ =~= old_map.remove(k)) by {
                        assert forall|key: Seq<char>| self@.contains_key(key) <==> old_map.remove(k).contains_key(
                            key,
                        ) by {
                            if self@.contains_key(key) {
                                let j = choose|j: int| 0 <= j < self.entries@.len() && #[trigger] self.entries@[j].0@ == key;
                                let j0 = if j < i { j } else { j + 1 };
                                assert(self.entries@[j] == before[j0]);
                                assert(before[j0].0@ != before[i as int].0@);
                            }
                            if old_map.contains_key(key) && key != k {
                                let j = choose|j: int| 0 <= j < before.len() && #[trigger] before[j].0@ == key;
                                assert(j != i);
                                let j1 = if j < i { j } else { j - 1 };
                                assert(self.entries@[j1] == before[j]);
                            }
                        }
                        assert forall|key: Seq<char>| #[trigger] self@.contains_key(key) implies self@[key]
                            == old_map.remove(k)[key] by {
                            let j = choose|j: int| 0 <= j < self.entries@.len() && #[trigger] self.entries@[j].0@ == key;
                            self.lemma_at(j);
                            let j0 = if j < i { j } else { j + 1 };
                            assert(self.entries@[j] == before[j0]);
                            let m = choose|m: int| 0 <= m < before.len() && #[trigger] before[m].0@ == key;
                            if m != j0 {
                                if m < j0 {
                                    assert(before[m].0@ != before[j0].0@);
                                } else {
                                    assert(before[j0].0@ != before[m].0@);
                                }
                            }
                        }
                    }
                }
                true
            },
        }
    }

    /// Mutable access to the record stored at position `i`.
    pub fn record_mut(&mut self, i: usize) -> (r: &mut R)
        requires
            old(self).wf(),
            i < old(self).seq().len(),
        ensures
            *r == old(self).seq()[i as int].1,
            final(self).seq() == old(self).seq().update(i as int, (old(self).seq()[i as int].0, *final(r))),
    {
        &mut self.entries[i].1
    }

    /// Replacing the record at a position keeps the names and changes one value.
    pub proof fn lemma_update(old_reg: &Self, new_reg: &Self, i: int, rec: R)
        requires
            old_reg.wf(),
            0 <= i < old_reg.seq().len(),
            new_reg.seq() == old_reg.seq().update(i, (old_reg.seq()[i].0, rec)),
        ensures
            new_reg.wf(),
            new_reg@ == old_reg@.insert(old_reg.seq()[i].0@, rec@),
    {
        let k = old_reg.seq()[i].0@;
        assert forall|a: int, b: int| 0 <= a < b < new_reg.entries@.len() implies #[trigger] new_reg.entries@[a].0@
            != #[trigger] new_reg.entries@[b].0@ by {
            assert(new_reg.entries@[a].0 == old_reg.entries@[a].0);
            assert(new_reg.entries@[b].0 == old_reg.entries@[b].0);
        }
        assert(new_reg@ =~= old_reg@.insert(k, rec@)) by {
            assert forall|key: Seq<char>| new_reg@.contains_key(key) <==> old_reg@.insert(k, rec@).contains_key(key) by {
                if new_reg@.contains_key(key) {
                    let j = choose|j: int| 0 <= j < new_reg.entries@.len() && #[trigger] new_reg.entries@[j].0@ == key;
                    assert(old_reg.entries@[j].0@ == key);
                }
                if old_reg@.contains_key(key) {
                    let j = choose|j: int| 0 <= j < old_reg.entries@.len() && #[trigger] old_reg.entries@[j].0@ == key;
                    assert(new_reg.entries@[j].0@ == key);
                }
                if key == k {
                    assert(new_reg.entries@[i].0@ == key);
                }
            }
            assert forall|key: Seq<char>| #[trigger] new_reg@.contains_key(key) implies new_reg@[key] == old_reg@.insert(
                k,
                rec@,
            )[key] by {
                let j = choose|j: int| 0 <= j < new_reg.entries@.len() && #[trigger] new_reg.entries@[j].0@ == key;
                new_reg.lemma_at(j);
                if j != i {
                    old_reg.lemma_at(j);
                    assert(old_reg.entries@[j].0@ != k) by {
                        if j < i {
                            assert(old_reg.entries@[j].0@ != old_reg.entries@[i].0@);
                        } else {
                            assert(old_reg.entries@[i].0@ != old_reg.entries@[j].0@);
                        }
                    }
                }
            }
        }
    }
}

} // verus!
