//! Sets of caller or group ids, kept in ascending order.
use vstd::prelude::*;

verus! {

pub open spec fn strictly_ascending(s: Seq<u64>) -> bool {
    forall|i: int, j: int| 0 <= i < j < s.len() ==> s[i] < s[j]
}

/// A set of ids that enumerates in ascending order.
#[derive(Debug, PartialEq, Eq, Clone)]
pub struct IdSet {
    ids: Vec<u64>,
}

impl View for IdSet {
    type V = Set<u64>;

    closed spec fn view(&self) -> Set<u64> {
        self.ids@.to_set()
    }
}

impl IdSet {
    /// The ids in enumeration order.
    pub closed spec fn seq(&self) -> Seq<u64> {
        self.ids@
    }

    pub closed spec fn wf(&self) -> bool {
        strictly_ascending(self.ids@)
    }

    pub proof fn lemma_view(&self)
        ensures
            self@ == self.seq().to_set(),
    {
    }

    pub fn new() -> (r: IdSet)
        ensures
            r.wf(),
            r@ == Set::<u64>::empty(),
            r.seq() == Seq::<u64>::empty(),
    {
        let r = IdSet { ids: Vec::new() };
        assert(r.ids@.to_set() =~= Set::<u64>::empty());
        r
    }

    pub fn len(&self) -> (r: usize)
        ensures
            r == self.seq().len(),
    {
        self.ids.len()
    }

    pub fn is_empty(&self) -> (r: bool)
        requires
            self.wf(),
        ensures
            r <==> self@.is_empty(),
    {
        proof {
            if self.ids@.len() > 0 {
                assert(self@.contains(self.ids@[0]));
            }
        }
        self.ids.len() == 0
    }

    /// The ids in ascending order.
    pub fn as_slice(&self) -> (r: &[u64])
        ensures
            r@ == self.seq(),
    {
        self.ids.as_slice()
    }

    /// Position of the first stored id that is not below `id`.
    fn position(&self, id: u64) -> (r: usize)
        requires
            self.wf(),
        ensures
            r <= self.ids@.len(),
            forall|j: int| 0 <= j < r ==> self.ids@[j] < id,
            forall|j: int| r <= j < self.ids@.len() ==> self.ids@[j] >= id,
    {
        let mut i: usize = 0;
        while i < self.ids.len() && self.ids[i] < id
            invariant
                i <= self.ids@.len(),
                forall|j: int| 0 <= j < i ==> self.ids@[j] < id,
            decreases self.ids@.len() - i,
        {
            i = i + 1;
        }
        i
    }

    pub fn contains(&self, id: u64) -> (r: bool)
        requires
            self.wf(),
        ensures
            r <==> self@.contains(id),
    {
        let i = self.position(id);
        let r = i < self.ids.len() && self.ids[i] == id;
        proof {
            if !r {
                assert(!self.ids@.contains(id)) by {
                    if self.ids@.contains(id) {
                        let k = choose|k: int| 0 <= k < self.ids@.len() && self.ids@[k] == id;
                        if k > i as int {
                            assert(self.ids@[i as int] < self.ids@[k]);
                        }
                    }
                }
            }
        }
        r
    }

    /// Adds `id`; true when it was not there before.
    pub fn insert(&mut self, id: u64) -> (r: bool)
        requires
            old(self).wf(),
        ensures
            final(self).wf(),
            r <==> !old(self)@.contains(id),
            final(self)@ == old(self)@.insert(id),
            (forall|j: int| 0 <= j < old(self).seq().len() ==> old(self).seq()[j] < id)
                ==> final(self).seq() == old(self).seq().push(id),
    {
        let i = self.position(id);
        if i < self.ids.len() && self.ids[i] == id {
            proof {
                assert(self@.contains(id));
                assert(self@.insert(id) =~= self@);
            }
            return false;
        }
        proof {
            assert(!self.ids@.contains(id)) by {
                if self.ids@.contains(id) {
                    let k = choose|k: int| 0 <= k < self.ids@.len() && self.ids@[k] == id;
                    if k > i as int {
                        assert(self.ids@[i as int] < self.ids@[k]);
                    }
                }
            }
        }
        let ghost before = self.ids@;
        self.ids.insert(i, id);
        proof {
            assert(self.ids@ == before.insert(i as int, id));
            if forall|j: int| 0 <= j < before.len() ==> before[j] < id {
                if i < before.len() {
                    assert(before[i as int] < id);
                }
                assert(before.insert(i as int, id) =~= before.push(id));
            }
            assert forall|a: int, b: int| 0 <= a < b < self.ids@.len() implies self.ids@[a] < self.ids@[b] by {
                if b < i {
                } else if b == i {
                } else if a < i {
                    assert(self.ids@[b] == before[b - 1]);
                } else if a == i {
                    assert(self.ids@[b] == before[b - 1]);
                    assert(before[b - 1] >= id);
                    assert(before[b - 1] != id) by {
                        assert(before.contains(before[b - 1]));
                    }
                } else {
                    assert(self.ids@[a] == before[a - 1]);
                    assert(self.ids@[b] == before[b - 1]);
                }
            }
            assert(self.ids@.to_set() =~= before.to_set().insert(id)) by {
                assert forall|x: u64| self.ids@.to_set().contains(x) implies before.to_set().insert(id).contains(x) by {
                    let k = choose|k: int| 0 <= k < self.ids@.len() && self.ids@[k] == x;
                    if k < i {
                        assert(before[k] == x);
                    } else if k > i {
                        assert(before[k - 1] == x);
                    }
                }
                assert forall|x: u64| before.to_set().insert(id).contains(x) implies self.ids@.to_set().contains(x) by {
                    if x == id {
                        assert(self.ids@[i as int] == id);
                    } else {
                        let k = choose|k: int| 0 <= k < before.len() && before[k] == x;
                        if k < i {
                            assert(self.ids@[k] == x);
                        } else {
                            assert(self.ids@[k + 1] == x);
                        }
                    }
                }
            }
        }
        true
    }

    /// Takes `id` out; true when it was there.
    pub fn remove(&mut self, id: u64) -> (r: bool)
        requires
            old(self).wf(),
        ensures
            final(self).wf(),
            r <==> old(self)@.contains(id),
            final(self)@ == old(self)@.remove(id),
    {
        let i = self.position(id);
        if i < self.ids.len() && self.ids[i] == id {
            let ghost before = self.ids@;
            self.ids.remove(i);
            proof {
                assert(self.ids@ == before.remove(i as int));
                assert forall|a: int, b: int| 0 <= a < b < self.ids@.len() implies self.ids@[a] < self.ids@[b] by {
                    if a < i && b >= i {
                        assert(self.ids@[b] == before[b + 1]);
                    } else if a >= i {
                        assert(self.ids@[a] == before[a + 1]);
                        assert(self.ids@[b] == before[b + 1]);
                    }
                }
                assert(self.ids@.to_set() =~= before.to_set().remove(id)) by {
                    assert forall|x: u64| self.ids@.to_set().contains(x) implies before.to_set().remove(id).contains(x) by {
                        let k = choose|k: int| 0 <= k < self.ids@.len() && self.ids@[k] == x;
                        if k < i {
                            assert(before[k] == x);
                            assert(before[k] < before[i as int]);
                        } else {
                            assert(before[k + 1] == x);
                            assert(before[i as int] < before[k + 1]);
                        }
                    }
                    assert forall|x: u64| before.to_set().remove(id).contains(x) implies self.ids@.to_set().contains(x) by {
                        let k = choose|k: int| 0 <= k < before.len() && before[k] == x;
                        if k < i {
                            assert(self.ids@[k] == x);
                        } else {
                            assert(k != i);
                            assert(self.ids@[k - 1] == x);
                        }
                    }
                }
            }
            true
        } else {
            proof {
                assert(!self.ids@.contains(id)) by {
                    if self.ids@.contains(id) {
                        let k = choose|k: int| 0 <= k < self.ids@.len() && self.ids@[k] == id;
                        if k > i as int {
                            assert(self.ids@[i as int] < self.ids@[k]);
                        }
                    }
                }
                assert(self@.remove(id) =~= self@);
            }
            false
        }
    }

    /// A copy holding the same ids in the same order.
    pub fn snapshot(&self) -> (r: IdSet)
        ensures
            r.seq() == self.seq(),
            r@ == self@,
            r.wf() == self.wf(),
    {
        IdSet { ids: self.ids.clone() }
    }

    /// Builds a set from ids in any order, with repeats allowed.
    pub fn from_ids(ids: &[u64]) -> (r: IdSet)
        ensures
            r.wf(),
            r@ == ids@.to_set(),
            strictly_ascending(ids@) ==> r.seq() == ids@,
    {
        let mut r = IdSet::new();
        let mut i: usize = 0;
        while i < ids.len()
            invariant
                i <= ids@.len(),
                r.wf(),
                r@ == ids@.take(i as int).to_set(),
                strictly_ascending(ids@) ==> r.seq() == ids@.take(i as int),
            decreases ids@.len() - i,
        {
            let ghost prev = r.seq();
            let id = ids[i];
            proof {
                if strictly_ascending(ids@) {
                    assert(forall|j: int| 0 <= j < prev.len() ==> prev[j] < id);
                }
            }
            r.insert(id);
            proof {
                assert(ids@.take(i + 1) =~= ids@.take(i as int).push(id));
                let t = ids@.take(i as int);
                assert(t.push(id).to_set() =~= t.to_set().insert(id)) by {
                    assert forall|x: u64| t.push(id).to_set().contains(x) implies t.to_set().insert(id).contains(x) by {
                        let k = choose|k: int| 0 <= k < t.push(id).len() && t.push(id)[k] == x;
                        if k < t.len() {
                            assert(t[k] == x);
                        }
                    }
                    assert forall|x: u64| t.to_set().insert(id).contains(x) implies t.push(id).to_set().contains(x) by {
                        if x == id {
                            assert(t.push(id)[t.len() as int] == id);
                        } else {
                            let k = choose|k: int| 0 <= k < t.len() && t[k] == x;
                            assert(t.push(id)[k] == x);
                        }
                    }
                }
            }
            i = i + 1;
        }
        assert(ids@.take(i as int) =~= ids@);
        r
    }
}

} // verus!
