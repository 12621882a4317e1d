//! Collections keyed by names (byte strings): an ordered set of names and a
//! map from names to values. Both keep every name at most once.
use vstd::prelude::*;
use crate::bytes::{bytes_eq, copy_bytes};

verus! {

/// The views of a sequence of byte vectors.
pub open spec fn views(s: Seq<Vec<u8>>) -> Seq<Seq<u8>> {
    s.map_values(|v: Vec<u8>| v@)
}

/// The sequence with the (only) occurrence of `x` taken out, or unchanged
/// when `x` does not occur.
pub open spec fn without(s: Seq<Seq<u8>>, x: Seq<u8>) -> Seq<Seq<u8>> {
    if s.contains(x) {
        s.remove(s.index_of(x))
    } else {
        s
    }
}

/// In a sequence without duplicates, `index_of` finds the position of an element.
pub proof fn lemma_index_of_unique(s: Seq<Seq<u8>>, i: int)
    requires
        s.no_duplicates(),
        0 <= i < s.len(),
    ensures
        s.contains(s[i]),
        s.index_of(s[i]) == i,
{
    assert(s.contains(s[i]));
    let j = s.index_of(s[i]);
    assert(0 <= j < s.len() && s[j] == s[i]);
}

/// Removing an element keeps a duplicate-free sequence duplicate-free and
/// takes out exactly that element.
pub proof fn lemma_without(s: Seq<Seq<u8>>, x: Seq<u8>)
    requires
        s.no_duplicates(),
    ensures
        without(s, x).no_duplicates(),
        !without(s, x).contains(x),
        forall|y: Seq<u8>| y != x ==> (without(s, x).contains(y) <==> s.contains(y)),
        s.contains(x) ==> without(s, x).len() == s.len() - 1,
{
    if s.contains(x) {
        let i = s.index_of(x);
        let r = s.remove(i);
        assert(0 <= i < s.len() && s[i] == x);
        assert forall|a: int, b: int| 0 <= a < r.len() && 0 <= b < r.len() && a != b implies r[a]
            != r[b] by {
            let a2 = if a < i { a } else { a + 1 };
            let b2 = if b < i { b } else { b + 1 };
            assert(r[a] == s[a2]);
            assert(r[b] == s[b2]);
        }
        assert forall|k: int| 0 <= k < r.len() implies r[k] != x by {
            let k2 = if k < i { k } else { k + 1 };
            assert(r[k] == s[k2]);
        }
        assert forall|y: Seq<u8>| y != x implies (r.contains(y) <==> s.contains(y)) by {
            if s.contains(y) {
                let k = choose|k: int| 0 <= k < s.len() && s[k] == y;
                assert(k != i);
                let k2 = if k < i { k } else { k - 1 };
                assert(r[k2] == y);
            }
            if r.contains(y) {
                let k = choose|k: int| 0 <= k < r.len() && r[k] == y;
                let k2 = if k < i { k } else { k + 1 };
                assert(s[k2] == y);
            }
        }
    }
}

/// Appending a fresh element keeps a sequence duplicate-free.
pub proof fn lemma_push_fresh(s: Seq<Seq<u8>>, x: Seq<u8>)
    requires
        s.no_duplicates(),
        !s.contains(x),
    ensures
        s.push(x).no_duplicates(),
        forall|y: Seq<u8>| s.push(x).contains(y) <==> (s.contains(y) || y == x),
{
    let r = s.push(x);
    assert forall|a: int, b: int| 0 <= a < r.len() && 0 <= b < r.len() && a != b implies r[a]
        != r[b] by {
        if a < s.len() && b < s.len() {
            assert(r[a] == s[a] && r[b] == s[b]);
        } else if a < s.len() {
            assert(r[a] == s[a]);
        } else if b < s.len() {
            assert(r[b] == s[b]);
        }
    }
    assert forall|y: Seq<u8>| r.contains(y) <==> (s.contains(y) || y == x) by {
        if s.contains(y) {
            let k = choose|k: int| 0 <= k < s.len() && s[k] == y;
            assert(r[k] == y);
        }
        if y == x {
            assert(r[s.len() as int] == y);
        }
        if r.contains(y) {
            let k = choose|k: int| 0 <= k < r.len() && r[k] == y;
            if k < s.len() {
                assert(s[k] == y);
            }
        }
    }
}

/// A set of names, kept in the order in which they were added, each at most once.
pub struct NameSet {
    items: Vec<Vec<u8>>,
}

impl View for NameSet {
    type V = Seq<Seq<u8>>;

    closed spec fn view(&self) -> Seq<Seq<u8>> {
        views(self.items@)
    }
}

impl NameSet {
    /// An empty set.
    pub fn new() -> (r: NameSet)
        ensures
            r@ == Seq::<Seq<u8>>::empty(),
            r@.no_duplicates(),
    {
        let r = NameSet { items: Vec::new() };
        assert(views(r.items@) =~= Seq::<Seq<u8>>::empty());
        r
    }

    /// The number of names.
    pub fn len(&self) -> (r: usize)
        ensures
            r == self@.len(),
    {
        self.items.len()
    }

    /// The name at position `i`.
    pub fn get(&self, i: usize) -> (r: &Vec<u8>)
        requires
            i < self@.len(),
        ensures
            r@ == self@[i as int],
    {
        &self.items[i]
    }

    /// The position of `x`, if it is in the set.
    pub fn find(&self, x: &[u8]) -> (r: Option<usize>)
        requires
            self@.no_duplicates(),
        ensures
            r matches Some(i) ==> i < self@.len() && self@[i as int] == x@ && self@.index_of(x@)
                == i,
            r is None ==> !self@.contains(x@),
    {
        let mut i: usize = 0;
        while i < self.items.len()
            invariant
                i <= self.items@.len(),
                self@.len() == self.items@.len(),
                self@ == views(self.items@),
                self@.no_duplicates(),
                forall|j: int| 0 <= j < i ==> self@[j] != x@,
            decreases self.items@.len() - i,
        {
            if bytes_eq(self.items[i].as_slice(), x) {
                proof {
                    lemma_index_of_unique(self@, i as int);
                }
                return Some(i);
            }
            i = i + 1;
        }
        None
    }

    /// Whether `x` is in the set.
    pub fn contains(&self, x: &[u8]) -> (r: bool)
        requires
            self@.no_duplicates(),
        ensures
            r == self@.contains(x@),
    {
        match self.find(x) {
            Some(_) => true,
            None => false,
        }
    }

    /// Adds `x` at the end unless it is already there; returns whether it was added.
    pub fn insert(&mut self, x: &[u8]) -> (r: bool)
        requires
            old(self)@.no_duplicates(),
        ensures
            r == !old(self)@.contains(x@),
            final(self)@ == (if r { old(self)@.push(x@) } else { old(self)@ }),
            final(self)@.no_duplicates(),
    {
        if self.contains(x) {
            return false;
        }
        let v = copy_bytes(x);
        proof {
            lemma_push_fresh(self@, x@);
            assert(views(self.items@.push(v)) =~= self@.push(x@));
        }
        self.items.push(v);
        true
    }

    /// Removes `x`; returns whether it was there.
    pub fn remove(&mut self, x: &[u8]) -> (r: bool)
        requires
            old(self)@.no_duplicates(),
        ensures
            r == old(self)@.contains(x@),
            final(self)@ == without(old(self)@, x@),
            final(self)@.no_duplicates(),
    {
        match self.find(x) {
            None => false,
            Some(i) => {
                proof {
                    lemma_without(self@, x@);
                    assert(views(self.items@.remove(i as int)) =~= self@.remove(i as int));
                }
                self.items.remove(i);
                true
            },
        }
    }

    /// A copy of the set.
    pub fn copy(&self) -> (r: NameSet)
        requires
            self@.no_duplicates(),
        ensures
            r@ == self@,
            r@.no_duplicates(),
    {
        let mut items: Vec<Vec<u8>> = Vec::new();
        let mut i: usize = 0;
        while i < self.items.len()
            invariant
                i <= self.items@.len(),
                self@ == views(self.items@),
                views(items@) == self@.subrange(0, i as int),
            decreases self.items@.len() - i,
        {
            let v = copy_bytes(self.items[i].as_slice());
            let ghost before = items@;
            items.push(v);
            i = i + 1;
            assert(views(items@) =~= views(before).push(v@));
            assert(views(items@) =~= self@.subrange(0, i as int));
        }
        assert(self@.subrange(0, self@.len() as int) =~= self@);
        NameSet { items }
    }
}

/// A map from names to values, each name at most once.
pub struct NameMap<V> {
    keys: Vec<Vec<u8>>,
    vals: Vec<V>,
}

impl<V: View> View for NameMap<V> {
    type V = Map<Seq<u8>, V::V>;

    closed spec fn view(&self) -> Map<Seq<u8>, V::V> {
        Map::new(
            |k: Seq<u8>| views(self.keys@).contains(k),
            |k: Seq<u8>| self.vals@[views(self.keys@).index_of(k)]@,
        )
    }
}

impl<V> NameMap<V> {
    /// Every name is stored once, with one value.
    pub closed spec fn wf(&self) -> bool {
        &&& views(self.keys@).no_duplicates()
        &&& self.keys@.len() == self.vals@.len()
    }
}

impl<V: View> NameMap<V> {

    /// The names in the map, in storage order.
    pub closed spec fn names(&self) -> Seq<Seq<u8>> {
        views(self.keys@)
    }

    /// The value stored at position `i`.
    pub closed spec fn value_at(&self, i: int) -> V {
        self.vals@[i]
    }

    /// An empty map.
    pub fn new() -> (r: NameMap<V>)
        ensures
            r.wf(),
            r@ == Map::<Seq<u8>, V::V>::empty(),
    {
        let r = NameMap { keys: Vec::new(), vals: Vec::new() };
        assert(r@ =~= Map::<Seq<u8>, V::V>::empty());
        r
    }

    /// The number of entries.
    pub fn len(&self) -> (r: usize)
        requires
            self.wf(),
        ensures
            r == self.names().len(),
    {
        self.keys.len()
    }

    /// The value stored at position `i`.
    pub fn value(&self, i: usize) -> (r: &V)
        requires
            self.wf(),
            i < self.names().len(),
        ensures
            *r == self.value_at(i as int),
    {
        &self.vals[i]
    }

    /// The entries in storage order are the entries of the map.
    pub proof fn lemma_entries(&self)
        requires
            self.wf(),
        ensures
            forall|i: int|
                0 <= i < self.names().len() ==> #[trigger] self@.dom().contains(self.names()[i]) && self@[self.names()[i]]
                    == self.value_at(i)@,
            forall|k: Seq<u8>|
                #[trigger] self@.dom().contains(k) ==> exists|i: int| 0 <= i < self.names().len() && self.names()[i] == k,
    {
        assert forall|i: int| 0 <= i < self.names().len() implies #[trigger] self@.dom().contains(self.names()[i])
            && self@[self.names()[i]] == self.value_at(i)@ by {
            lemma_index_of_unique(self.names(), i);
        }
        assert forall|k: Seq<u8>| #[trigger] self@.dom().contains(k) implies exists|i: int|
            0 <= i < self.names().len() && self.names()[i] == k by {
            let i = self.names().index_of(k);
            assert(self.names()[i] == k);
        }
    }

    /// The position of `k`, if it is in the map.
    pub fn find(&self, k: &[u8]) -> (r: Option<usize>)
        requires
            self.wf(),
        ensures
            r matches Some(i) ==> i < self.names().len() && self.names()[i as int] == k@
                && self@.dom().contains(k@) && self@[k@] == self.value_at(i as int)@,
            r is None ==> !self@.dom().contains(k@),
    {
        let mut i: usize = 0;
        while i < self.keys.len()
            invariant
                i <= self.keys@.len(),
                self.names() == views(self.keys@),
                self.names().no_duplicates(),
                forall|j: int| 0 <= j < i ==> self.names()[j] != k@,
            decreases self.keys@.len() - i,
        {
            if bytes_eq(self.keys[i].as_slice(), k) {
                proof {
                    lemma_index_of_unique(self.names(), i as int);
                }
                return Some(i);
            }
            i = i + 1;
        }
        None
    }

    /// Whether `k` has a value.
    pub fn contains_key(&self, k: &[u8]) -> (r: bool)
        requires
            self.wf(),
        ensures
            r == self@.dom().contains(k@),
    {
        match self.find(k) {
            Some(_) => true,
            None => false,
        }
    }

    /// The value of `k`, if any.
    pub fn get(&self, k: &[u8]) -> (r: Option<&V>)
        requires
            self.wf(),
        ensures
            r matches Some(v) ==> self@.dom().contains(k@) && v@ == self@[k@],
            r is None ==> !self@.dom().contains(k@),
    {
        match self.find(k) {
            Some(i) => Some(&self.vals[i]),
            None => None,
        }
    }

    /// Gives `k` the value `v`, replacing any earlier value.
    pub fn insert(&mut self, k: &[u8], v: V)
        requires
            old(self).wf(),
        ensures
            final(self).wf(),
            final(self)@ == old(self)@.insert(k@, v@),
    {
        match self.find(k) {
            Some(i) => {
                let ghost old_map = self@;
                let ghost old_names = self.names();
                self.vals.set(i, v);
                proof {
                    assert(self.names() == old_names);
                    assert forall|j: int|
                        0 <= j < old_names.len() && j != i implies self.vals@[j] == old(
                        self,
                    ).vals@[j] by {}
                    assert forall|key: Seq<u8>|
                        self@.dom().contains(key) implies #[trigger] self@[key] == old_map.insert(
                        k@,
                        v@,
                    )[key] by {
                        let j = old_names.index_of(key);
                        lemma_index_of_unique(old_names, i as int);
                        assert(0 <= j < old_names.len() && old_names[j] == key);
                        if j == i {
                            assert(key == k@);
                        } else {
                            lemma_index_of_unique(old_names, j);
                        }
                    }
                    assert(self@ =~= old_map.insert(k@, v@));
                }
            },
            None => {
                let ghost old_map = self@;
                let ghost old_names = self.names();
                let kv = copy_bytes(k);
                self.keys.push(kv);
                self.vals.push(v);
                proof {
                    lemma_push_fresh(old_names, k@);
                    assert(self.names() =~= old_names.push(k@));
                    let n = old_names.len() as int;
                    assert forall|key: Seq<u8>|
                        self@.dom().contains(key) implies #[trigger] self@[key] == old_map.insert(
                        k@,
                        v@,
                    )[key] by {
                        let j = self.names().index_of(key);
                        assert(0 <= j < self.names().len() && self.names()[j] == key);
                        lemma_index_of_unique(self.names(), j);
                        if j == n {
                            assert(key == k@);
                        } else {
                            assert(old_names[j] == key);
                            lemma_index_of_unique(old_names, j);
                            assert(self.vals@[j] == old(self).vals@[j]);
                        }
                    }
                    assert(self@ =~= old_map.insert(k@, v@));
                }
            },
        }
    }

    /// Removes `k` and its value; returns whether it was there.
    pub fn remove(&mut self, k: &[u8]) -> (r: bool)
        requires
            old(self).wf(),
        ensures
            final(self).wf(),
            r == old(self)@.dom().contains(k@),
            final(self)@ == old(self)@.remove(k@),
    {
        match self.find(k) {
            None => {
                assert(self@ =~= self@.remove(k@));
                false
            },
            Some(i) => {
                let ghost old_map = self@;
                let ghost old_names = self.names();
                let ghost old_vals = self.vals@;
                proof {
                    lemma_index_of_unique(old_names, i as int);
                    lemma_without(old_names, k@);
                }
                self.keys.remove(i);
                self.vals.remove(i);
                proof {
                    assert(self.names() =~= old_names.remove(i as int));
                    assert forall|key: Seq<u8>|
                        self@.dom().contains(key) implies #[trigger] self@[key] == old_map.remove(
                        k@,
                    )[key] by {
                        let j = self.names().index_of(key);
                        assert(0 <= j < self.names().len() && self.names()[j] == key);
                        lemma_index_of_unique(self.names(), j);
                        let j2 = if j < i { j } else { j + 1 };
                        assert(old_names[j2] == key);
                        lemma_index_of_unique(old_names, j2);
                        assert(self.vals@[j] == old_vals[j2]);
                    }
                    assert(self@ =~= old_map.remove(k@));
                }
                true
            },
        }
    }

    /// Takes the value of `k` out of the map, so that it can be changed and put back.
    pub fn take(&mut self, k: &[u8]) -> (r: Option<V>)
        requires
            old(self).wf(),
        ensures
            final(self).wf(),
            r matches Some(v) ==> old(self)@.dom().contains(k@) && v@ == old(self)@[k@],
            r is None ==> !old(self)@.dom().contains(k@),
            final(self)@ == old(self)@.remove(k@),
    {
        match self.find(k) {
            None => {
                assert(self@ =~= self@.remove(k@));
                None
            },
            Some(i) => {
                let ghost old_map = self@;
                let ghost old_names = self.names();
                let ghost old_vals = self.vals@;
                proof {
                    lemma_index_of_unique(old_names, i as int);
                    lemma_without(old_names, k@);
                }
                self.keys.remove(i);
                let v = self.vals.remove(i);
                proof {
                    assert(self.names() =~= old_names.remove(i as int));
                    assert forall|key: Seq<u8>|
                        self@.dom().contains(key) implies #[trigger] self@[key] == old_map.remove(
                        k@,
                    )[key] by {
                        let j = self.names().index_of(key);
                        assert(0 <= j < self.names().len() && self.names()[j] == key);
                        lemma_index_of_unique(self.names(), j);
                        let j2 = if j < i { j } else { j + 1 };
                        assert(old_names[j2] == key);
                        lemma_index_of_unique(old_names, j2);
                        assert(self.vals@[j] == old_vals[j2]);
                    }
                    assert(self@ =~= old_map.remove(k@));
                }
                Some(v)
            },
        }
    }
}

} // verus!
