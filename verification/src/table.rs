//! A small map that keeps its entries in insertion order.

use vstd::prelude::*;
use crate::ident::{ActorId, Key, UserId};

verus! {

/// Values filed under keys. Two keys are the same when they have the same
/// token; an entry keeps the place at which it was first inserted.
pub struct Table<K: Key, V> {
    ids: Vec<K>,
    values: Vec<V>,
}

/// What is filed under each user.
pub type UserMap<V> = Table<UserId, V>;

/// What is filed under each lobby.
pub type ActorMap<V> = Table<ActorId, V>;

impl<K: Key, V> Table<K, V> {
    /// The ids, in insertion order.
    pub closed spec fn ids(&self) -> Seq<K> {
        self.ids@
    }

    /// The values, each at the place of its id.
    pub closed spec fn values(&self) -> Seq<V> {
        self.values@
    }

    /// The tokens of the ids, in insertion order.
    pub open spec fn tokens(&self) -> Seq<K::Token> {
        self.ids().map_values(|id: K| id.token())
    }

    /// Every id has its value, and no token occurs twice.
    pub open spec fn wf(&self) -> bool {
        &&& self.ids().len() == self.values().len()
        &&& self.tokens().no_duplicates()
    }

    /// Whether an entry is filed under the token.
    pub open spec fn has(&self, token: K::Token) -> bool {
        self.tokens().contains(token)
    }

    /// The place of a token among the entries.
    pub open spec fn place(&self, token: K::Token) -> int {
        self.tokens().index_of(token)
    }

    /// The number of entries.
    pub open spec fn spec_len(&self) -> nat {
        self.ids().len()
    }

    /// Where a token lies and what is filed there.
    pub proof fn lemma_entry(&self, i: int)
        requires
            self.wf(),
            0 <= i < self.spec_len(),
        ensures
            self.has(self.tokens()[i]),
            self.place(self.tokens()[i]) == i,
            self@.dom().contains(self.tokens()[i]),
            self@[self.tokens()[i]] == self.values()[i],
            self.tokens()[i] == self.ids()[i].token(),
    {
        let t = self.tokens()[i];
        let j = self.tokens().index_of(t);
        assert(self.tokens()[j] == t);
    }

    /// A token that is filed lies at its place.
    pub proof fn lemma_place(&self, token: K::Token)
        requires
            self.wf(),
            self.has(token),
        ensures
            0 <= self.place(token) < self.spec_len(),
            self.tokens()[self.place(token)] == token,
            self@[token] == self.values()[self.place(token)],
    {
    }

    /// The map has one entry for each place.
    pub proof fn lemma_dom_len(&self)
        requires
            self.wf(),
        ensures
            self@.dom().finite(),
            self@.dom().len() == self.spec_len(),
            self@.dom() == self.tokens().to_set(),
    {
        assert(self@.dom() =~= self.tokens().to_set());
        self.tokens().unique_seq_to_set();
    }

    /// An empty map.
    pub fn new() -> (map: Self)
        ensures
            map.wf(),
            map.ids() == Seq::<K>::empty(),
            map.values() == Seq::<V>::empty(),
            map@ == Map::<K::Token, V>::empty(),
    {
        let map = Table { ids: Vec::new(), values: Vec::new() };
        assert(map@ =~= Map::<K::Token, V>::empty());
        map
    }

    /// The number of entries.
    pub fn len(&self) -> (len: usize)
        requires
            self.wf(),
        ensures
            len == self.spec_len(),
    {
        self.ids.len()
    }

    /// The place of the entry filed under `id`, if there is one.
    pub fn position(&self, id: &K) -> (at: Option<usize>)
        requires
            self.wf(),
        ensures
            match at {
                Some(i) => i < self.spec_len() && self.tokens()[i as int] == id.token()
                    && i == self.place(id.token()),
                None => !self.has(id.token()),
            },
            at.is_some() == self.has(id.token()),
    {
        let mut i: usize = 0;
        while i < self.ids.len()
            invariant
                self.wf(),
                i <= self.ids@.len(),
                forall|j: int| 0 <= j < i ==> self.tokens()[j] != id.token(),
            decreases self.ids@.len() - i,
        {
            if self.ids[i].same(id) {
                proof {
                    self.lemma_entry(i as int);
                }
                return Some(i);
            }
            i += 1;
        }
        None
    }

    /// Whether something is filed under `id`.
    pub fn contains_key(&self, id: &K) -> (found: bool)
        requires
            self.wf(),
        ensures
            found == self.has(id.token()),
            found == self@.dom().contains(id.token()),
    {
        self.position(id).is_some()
    }

    /// What is filed under `id`, if anything.
    pub fn get(&self, id: &K) -> (value: Option<&V>)
        requires
            self.wf(),
        ensures
            match value {
                Some(v) => self.has(id.token()) && *v == self@[id.token()],
                None => !self.has(id.token()),
            },
    {
        match self.position(id) {
            Some(i) => {
                proof {
                    self.lemma_entry(i as int);
                }
                Some(&self.values[i])
            },
            None => None,
        }
    }

    /// The id at a place.
    pub fn key_at(&self, i: usize) -> (id: K)
        requires
            self.wf(),
            i < self.spec_len(),
        ensures
            id == self.ids()[i as int],
            id.token() == self.tokens()[i as int],
    {
        self.ids[i]
    }

    /// The value at a place.
    pub fn value_at(&self, i: usize) -> (value: &V)
        requires
            self.wf(),
            i < self.spec_len(),
        ensures
            *value == self.values()[i as int],
            *value == self@[self.tokens()[i as int]],
    {
        proof {
            self.lemma_entry(i as int);
        }
        &self.values[i]
    }

    /// The value at a place, to be changed where it lies.
    pub fn value_at_mut(&mut self, i: usize) -> (value: &mut V)
        requires
            old(self).wf(),
            i < old(self).spec_len(),
        ensures
            *value == old(self).values()[i as int],
            final(self).ids() == old(self).ids(),
            final(self).values() == old(self).values().update(i as int, *final(value)),
    {
        &mut self.values[i]
    }

    /// Files `value` under `id`. A value already filed there is replaced and
    /// handed back; a new entry goes to the end.
    pub fn insert(&mut self, id: K, value: V) -> (previous: Option<V>)
        requires
            old(self).wf(),
        ensures
            final(self).wf(),
            final(self)@ == old(self)@.insert(id.token(), value),
            match previous {
                Some(v) => old(self).has(id.token()) && v == old(self)@[id.token()]
                    && final(self).ids() == old(self).ids() && final(self).values()
                    == old(self).values().update(old(self).place(id.token()), value),
                None => !old(self).has(id.token()) && final(self).ids() == old(self).ids().push(
                    id,
                ) && final(self).values() == old(self).values().push(value),
            },
    {
        match self.position(&id) {
            Some(i) => {
                let mut value = value;
                std::mem::swap(&mut self.values[i], &mut value);
                proof {
                    old(self).lemma_entry(i as int);
                    Self::lemma_update(*old(self), *self, i as int);
                }
                Some(value)
            },
            None => {
                self.ids.push(id);
                self.values.push(value);
                proof {
                    Self::lemma_push(*old(self), *self, id, value);
                }
                None
            },
        }
    }

    /// Takes out the entry filed under `id`, if there is one; the entries
    /// behind it move up by one place.
    pub fn remove(&mut self, id: &K) -> (removed: Option<V>)
        requires
            old(self).wf(),
        ensures
            final(self).wf(),
            final(self)@ == old(self)@.remove(id.token()),
            match removed {
                Some(v) => old(self).has(id.token()) && v == old(self)@[id.token()]
                    && final(self).ids() == old(self).ids().remove(old(self).place(id.token()))
                    && final(self).values() == old(self).values().remove(
                    old(self).place(id.token()),
                ),
                None => !old(self).has(id.token()) && final(self).ids() == old(self).ids()
                    && final(self).values() == old(self).values(),
            },
    {
        match self.position(id) {
            Some(i) => {
                self.ids.remove(i);
                let value = self.values.remove(i);
                proof {
                    old(self).lemma_entry(i as int);
                    Self::lemma_remove(*old(self), *self, i as int);
                }
                Some(value)
            },
            None => {
                assert(self@ =~= old(self)@.remove(id.token()));
                None
            },
        }
    }

    /// Replacing one value changes the map at that token only.
    pub proof fn lemma_update(before: Self, after: Self, i: int)
        requires
            before.wf(),
            0 <= i < before.spec_len(),
            after.ids() == before.ids(),
            after.values() == before.values().update(i, after.values()[i]),
            after.values().len() == before.values().len(),
        ensures
            after.wf(),
            after.tokens() == before.tokens(),
            after@ == before@.insert(before.tokens()[i], after.values()[i]),
    {
        let t = before.tokens()[i];
        before.lemma_entry(i);
        assert forall|k: K::Token| #[trigger]
            after@.dom().contains(k) <==> before@.insert(t, after.values()[i]).dom().contains(
                k,
            ) by {}
        assert forall|k: K::Token| #[trigger]
            after@.dom().contains(k) implies after@[k] == before@.insert(t, after.values()[i])[k] by {
            before.lemma_place(k);
            if k != t {
                assert(before.place(k) != i);
            }
        }
        assert(after@ =~= before@.insert(t, after.values()[i]));
    }

    /// A new entry at the end adds its token to the map.
    pub proof fn lemma_push(before: Self, after: Self, id: K, value: V)
        requires
            before.wf(),
            !before.has(id.token()),
            after.ids() == before.ids().push(id),
            after.values() == before.values().push(value),
        ensures
            after.wf(),
            after.tokens() == before.tokens().push(id.token()),
            after@ == before@.insert(id.token(), value),
    {
        let t = id.token();
        assert(after.tokens() =~= before.tokens().push(t));
        assert(after.tokens().no_duplicates());
        let n = before.spec_len() as int;
        after.lemma_entry(n);
        assert forall|k: K::Token| #[trigger]
            after@.dom().contains(k) <==> before@.insert(t, value).dom().contains(k) by {
            if after.has(k) {
                let j = after.tokens().index_of(k);
                if j < n {
                    assert(before.tokens()[j] == k);
                }
            }
            if before.has(k) {
                let j = before.tokens().index_of(k);
                assert(after.tokens()[j] == k);
            }
        }
        assert forall|k: K::Token| #[trigger]
            after@.dom().contains(k) implies after@[k] == before@.insert(t, value)[k] by {
            if k != t {
                let j = after.tokens().index_of(k);
                assert(after.tokens()[j] == k);
                assert(j < n);
                assert(before.tokens()[j] == k);
                before.lemma_entry(j);
                after.lemma_entry(j);
            }
        }
        assert(after@ =~= before@.insert(t, value));
    }

    /// Taking out one entry takes its token out of the map.
    pub proof fn lemma_remove(before: Self, after: Self, i: int)
        requires
            before.wf(),
            0 <= i < before.spec_len(),
            after.ids() == before.ids().remove(i),
            after.values() == before.values().remove(i),
        ensures
            after.wf(),
            after.tokens() == before.tokens().remove(i),
            after@ == before@.remove(before.tokens()[i]),
            !after.has(before.tokens()[i]),
    {
        let t = before.tokens()[i];
        assert(after.tokens() =~= before.tokens().remove(i));
        assert(after.tokens().no_duplicates()) by {
            assert forall|a: int, b: int|
                0 <= a < after.tokens().len() && 0 <= b < after.tokens().len() && a
                    != b implies after.tokens()[a] != after.tokens()[b] by {
                let a0 = if a < i { a } else { a + 1 };
                let b0 = if b < i { b } else { b + 1 };
                assert(after.tokens()[a] == before.tokens()[a0]);
                assert(after.tokens()[b] == before.tokens()[b0]);
            }
        }
        assert(!after.has(t)) by {
            if after.has(t) {
                let j = after.tokens().index_of(t);
                let j0 = if j < i { j } else { j + 1 };
                assert(after.tokens()[j] == before.tokens()[j0]);
            }
        }
        assert forall|k: K::Token| #[trigger]
            after@.dom().contains(k) <==> before@.remove(t).dom().contains(k) by {
            if after.has(k) {
                let j = after.tokens().index_of(k);
                let j0 = if j < i { j } else { j + 1 };
                assert(before.tokens()[j0] == k);
            }
            if before.has(k) && k != t {
                let j = before.tokens().index_of(k);
                let j1 = if j < i { j } else { j - 1 };
                assert(after.tokens()[j1] == k);
            }
        }
        assert forall|k: K::Token| #[trigger]
            after@.dom().contains(k) implies after@[k] == before@.remove(t)[k] by {
            let j = after.tokens().index_of(k);
            let j0 = if j < i { j } else { j + 1 };
            assert(after.tokens()[j] == k);
            assert(before.tokens()[j0] == k);
            before.lemma_entry(j0);
            after.lemma_entry(j);
        }
        assert(after@ =~= before@.remove(t));
    }
}

impl<K: Key, V> View for Table<K, V> {
    type V = Map<K::Token, V>;

    /// The value filed under each token.
    open spec fn view(&self) -> Map<K::Token, V> {
        Map::new(
            |token: K::Token| self.tokens().contains(token),
            |token: K::Token| self.values()[self.tokens().index_of(token)],
        )
    }
}

} // verus!
