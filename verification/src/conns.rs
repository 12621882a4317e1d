//! The server's open connections: each token with the name it registered, if any.
use vstd::prelude::*;
use crate::bytes::{bytes_eq, copy_bytes};
use crate::util::opt_view;

verus! {

/// Open connections by token, each with the name registered on it.
pub struct ConnTable {
    tokens: Vec<usize>,
    names: Vec<Option<Vec<u8>>>,
}

impl View for ConnTable {
    type V = Map<usize, Option<Seq<u8>>>;

    closed spec fn view(&self) -> Map<usize, Option<Seq<u8>>> {
        Map::new(
            |t: usize| self.tokens@.contains(t),
            |t: usize| opt_view(self.names@[self.tokens@.index_of(t)]),
        )
    }
}

proof fn lemma_index_of_token(s: Seq<usize>, i: int)
    requires
        s.no_duplicates(),
        0 <= i < s.len(),
    ensures
        s.contains(s[i]),
        s.index_of(s[i]) == i,
{
    assert(s.contains(s[i]));
    let j = s.index_of(s[i]);
    assert(0 <= j < s.len() && s[j] == s[i]);
}

impl ConnTable {
    /// Every token is stored once, with one name slot.
    pub closed spec fn wf(&self) -> bool {
        &&& self.tokens@.no_duplicates()
        &&& self.tokens@.len() == self.names@.len()
    }

    /// No open connection.
    pub fn new() -> (r: ConnTable)
        ensures
            r.wf(),
            r@ == Map::<usize, Option<Seq<u8>>>::empty(),
    {
        let r = ConnTable { tokens: Vec::new(), names: Vec::new() };
        assert(r@ =~= Map::<usize, Option<Seq<u8>>>::empty());
        r
    }

    fn find(&self, token: usize) -> (r: Option<usize>)
        requires
            self.wf(),
        ensures
            r matches Some(i) ==> i < self.tokens@.len() && self.tokens@[i as int] == token
                && self@.dom().contains(token) && self@[token] == opt_view(self.names@[i as int]),
            r is None ==> !self@.dom().contains(token),
    {
        let mut i: usize = 0;
        while i < self.tokens.len()
            invariant
                self.wf(),
                i <= self.tokens@.len(),
                forall|j: int| 0 <= j < i ==> self.tokens@[j] != token,
            decreases self.tokens@.len() - i,
        {
            if self.tokens[i] == token {
                proof {
                    lemma_index_of_token(self.tokens@, i as int);
                }
                return Some(i);
            }
            i = i + 1;
        }
        None
    }

    /// Whether `token` is an open connection.
    pub fn contains(&self, token: usize) -> (r: bool)
        requires
            self.wf(),
        ensures
            r == self@.dom().contains(token),
    {
        match self.find(token) {
            Some(_) => true,
            None => false,
        }
    }

    /// The name registered on `token`: `None` when the connection is not open,
    /// `Some(None)` when it has no name yet.
    pub fn name(&self, token: usize) -> (r: Option<Option<Vec<u8>>>)
        requires
            self.wf(),
        ensures
            r matches Some(n) ==> self@.dom().contains(token) && opt_view(n) == self@[token],
            r is None ==> !self@.dom().contains(token),
    {
        match self.find(token) {
            Some(i) => match &self.names[i] {
                Some(n) => Some(Some(copy_bytes(n.as_slice()))),
                None => Some(None),
            },
            None => None,
        }
    }

    /// Opens the connection `token`, with no name.
    pub fn open(&mut self, token: usize)
        requires
            old(self).wf(),
            !old(self)@.dom().contains(token),
        ensures
            final(self).wf(),
            final(self)@ == old(self)@.insert(token, None),
    {
        let ghost old_map = self@;
        let ghost old_tokens = self.tokens@;
        self.tokens.push(token);
        self.names.push(None);
        proof {
            assert forall|a: int, b: int|
                0 <= a < self.tokens@.len() && 0 <= b < self.tokens@.len() && a != b implies self.tokens@[a]
                != self.tokens@[b] by {
                if a < old_tokens.len() && b < old_tokens.len() {
                } else if a < old_tokens.len() {
                    assert(old_tokens.contains(self.tokens@[a]));
                } else if b < old_tokens.len() {
                    assert(old_tokens.contains(self.tokens@[b]));
                }
            }
            assert forall|t: usize| #[trigger] self.tokens@.contains(t) <==> (old_tokens.contains(t) || t == token) by {
                if old_tokens.contains(t) {
                    let k = choose|k: int| 0 <= k < old_tokens.len() && old_tokens[k] == t;
                    assert(self.tokens@[k] == t);
                }
                if t == token {
                    assert(self.tokens@[old_tokens.len() as int] == t);
                }
                if self.tokens@.contains(t) {
                    let k = choose|k: int| 0 <= k < self.tokens@.len() && self.tokens@[k] == t;
                    if k < old_tokens.len() {
                        assert(old_tokens[k] == t);
                    }
                }
            }
            assert forall|t: usize| self@.dom().contains(t) implies #[trigger] self@[t] == old_map.insert(token, None)[t] by {
                let j = self.tokens@.index_of(t);
                assert(0 <= j < self.tokens@.len() && self.tokens@[j] == t);
                lemma_index_of_token(self.tokens@, j);
                if j < old_tokens.len() {
                    assert(old_tokens[j] == t);
                    lemma_index_of_token(old_tokens, j);
                }
            }
            assert(self@ =~= old_map.insert(token, None));
        }
    }

    /// Records `name` as the name registered on the open connection `token`.
    pub fn set_name(&mut self, token: usize, name: &[u8])
        requires
            old(self).wf(),
            old(self)@.dom().contains(token),
        ensures
            final(self).wf(),
            final(self)@ == old(self)@.insert(token, Some(name@)),
    {
        let ghost old_map = self@;
        match self.find(token) {
            Some(i) => {
                let n = copy_bytes(name);
                self.names.set(i, Some(n));
                proof {
                    assert forall|t: usize| self@.dom().contains(t) implies #[trigger] self@[t]
                        == old_map.insert(token, Some(name@))[t] by {
                        let j = self.tokens@.index_of(t);
                        assert(0 <= j < self.tokens@.len() && self.tokens@[j] == t);
                        lemma_index_of_token(self.tokens@, j);
                    }
                    assert(self@ =~= old_map.insert(token, Some(name@)));
                }
            },
            None => {},
        }
    }

    /// Clears `name` from every connection that carries it.
    pub fn clear_name(&mut self, name: &[u8])
        requires
            old(self).wf(),
        ensures
            final(self).wf(),
            final(self)@ == Map::new(
                |t: usize| old(self)@.dom().contains(t),
                |t: usize| if old(self)@[t] == Some(name@) { None } else { old(self)@[t] },
            ),
    {
        let ghost old_map = self@;
        let ghost old_tokens = self.tokens@;
        let ghost old_names = self.names@;
        let mut i: usize = 0;
        while i < self.names.len()
            invariant
                self.wf(),
                self.tokens@ == old_tokens,
                self.names@.len() == old_names.len(),
                i <= old_names.len(),
                forall|j: int| 0 <= j < i ==> #[trigger] opt_view(self.names@[j]) == (if opt_view(old_names[j]) == Some(name@) {
                    None
                } else {
                    opt_view(old_names[j])
                }),
                forall|j: int| i <= j < old_names.len() ==> #[trigger] self.names@[j] == old_names[j],
            decreases old_names.len() - i,
        {
            let hit = match &self.names[i] {
                Some(n) => bytes_eq(n.as_slice(), name),
                None => false,
            };
            if hit {
                self.names.set(i, None);
            }
            i = i + 1;
        }
        proof {
            let target = Map::new(
                |t: usize| old_map.dom().contains(t),
                |t: usize| if old_map[t] == Some(name@) { None } else { old_map[t] },
            );
            assert forall|t: usize| self@.dom().contains(t) implies #[trigger] self@[t] == target[t] by {
                let j = self.tokens@.index_of(t);
                assert(0 <= j < self.tokens@.len() && self.tokens@[j] == t);
                lemma_index_of_token(self.tokens@, j);
                assert(old_map[t] == opt_view(old_names[j]));
            }
            assert(self@ =~= target);
        }
    }

    /// Closes the connection `token`, giving back the name registered on it.
    pub fn close(&mut self, token: usize) -> (r: Option<Vec<u8>>)
        requires
            old(self).wf(),
            old(self)@.dom().contains(token),
        ensures
            final(self).wf(),
            final(self)@ == old(self)@.remove(token),
            opt_view(r) == old(self)@[token],
    {
        let ghost old_map = self@;
        let ghost old_tokens = self.tokens@;
        let ghost old_names = self.names@;
        match self.find(token) {
            Some(i) => {
                self.tokens.remove(i);
                let n = self.names.remove(i);
                proof {
                    assert(self.tokens@ =~= old_tokens.remove(i as int));
                    assert forall|a: int, b: int|
                        0 <= a < self.tokens@.len() && 0 <= b < self.tokens@.len() && a != b implies self.tokens@[a]
                        != self.tokens@[b] by {
                        let a2 = if a < i { a } else { a + 1 };
                        let b2 = if b < i { b } else { b + 1 };
                        assert(self.tokens@[a] == old_tokens[a2]);
                        assert(self.tokens@[b] == old_tokens[b2]);
                    }
                    assert forall|t: usize| #[trigger] self.tokens@.contains(t) <==> (old_tokens.contains(t) && t != token) by {
                        if self.tokens@.contains(t) {
                            let k = choose|k: int| 0 <= k < self.tokens@.len() && self.tokens@[k] == t;
                            let k2 = if k < i { k } else { k + 1 };
                            assert(old_tokens[k2] == t);
                            assert(k2 != i);
                        }
                        if old_tokens.contains(t) && t != token {
                            let k = choose|k: int| 0 <= k < old_tokens.len() && old_tokens[k] == t;
                            assert(k != i);
                            let k2 = if k < i { k } else { k - 1 };
                            assert(self.tokens@[k2] == t);
                        }
                    }
                    assert forall|t: usize| self@.dom().contains(t) implies #[trigger] self@[t] == old_map.remove(token)[t] by {
                        let j = self.tokens@.index_of(t);
                        assert(0 <= j < self.tokens@.len() && self.tokens@[j] == t);
                        lemma_index_of_token(self.tokens@, j);
                        let j2 = if j < i { j } else { j + 1 };
                        assert(old_tokens[j2] == t);
                        lemma_index_of_token(old_tokens, j2);
                        assert(self.names@[j] == old_names[j2]);
                    }
                    assert(self@ =~= old_map.remove(token));
                }
                n
            },
            None => None,
        }
    }
}

} // verus!
