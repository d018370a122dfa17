//! Changes to the state that are not yet part of it.

use vstd::prelude::*;

use crate::bytes::{
    copy_bytes, has_prefix, lex_lt, opt_bytes, order, starts_with, Order,
};
use crate::error::{StorageError, StorageErrorView};
use crate::table::Table;
use crate::trie_key::TrieKey;

verus! {

/// The state as a trie holds it. Parts of the trie may be absent: the keys that
/// start with certain prefixes cannot be read then.
pub struct Trie {
    entries: Table<Vec<u8>>,
    missing: Vec<Vec<u8>>,
}

impl Trie {
    /// The entries are in order.
    pub closed spec fn valid(&self) -> bool {
        self.entries.valid()
    }

    /// What the trie holds.
    pub closed spec fn contents(&self) -> Map<Seq<u8>, Seq<u8>> {
        self.entries@.map_values(|v: Vec<u8>| v@)
    }

    /// The prefixes of the keys that cannot be read.
    pub closed spec fn absent(&self) -> Seq<Seq<u8>> {
        self.missing@.map_values(|p: Vec<u8>| p@)
    }

    /// A trie that holds nothing and of which nothing is absent.
    pub fn new() -> (t: Trie)
        ensures
            t.valid(),
            t.contents() == Map::<Seq<u8>, Seq<u8>>::empty(),
            t.absent() == Seq::<Seq<u8>>::empty(),
    {
        let t = Trie { entries: Table::new(), missing: Vec::new() };
        proof {
            assert(t.contents() =~= Map::<Seq<u8>, Seq<u8>>::empty());
            assert(t.absent() =~= Seq::<Seq<u8>>::empty());
        }
        t
    }

    /// Puts a value into the trie.
    pub fn insert(&mut self, key: Vec<u8>, value: Vec<u8>)
        requires
            old(self).valid(),
        ensures
            final(self).valid(),
            final(self).contents() == old(self).contents().insert(key@, value@),
            final(self).absent() == old(self).absent(),
    {
        self.entries.insert(key, value);
        proof {
            assert(self.contents() =~= old(self).contents().insert(key@, value@));
        }
    }

    /// Marks the keys that start with `prefix` as impossible to read.
    pub fn forget(&mut self, prefix: Vec<u8>)
        requires
            old(self).valid(),
        ensures
            final(self).valid(),
            final(self).contents() == old(self).contents(),
            final(self).absent() == old(self).absent().push(prefix@),
    {
        self.missing.push(prefix);
        proof {
            assert(self.absent() =~= old(self).absent().push(prefix@));
        }
    }
}

/// The key starts with one of the prefixes.
pub open spec fn is_under(key: Seq<u8>, prefixes: Seq<Seq<u8>>) -> bool {
    exists|i: int| 0 <= i < prefixes.len() && has_prefix(key, #[trigger] prefixes[i])
}

/// Some keys start both with `prefix` and with one of the prefixes.
pub open spec fn meets(prefix: Seq<u8>, prefixes: Seq<Seq<u8>>) -> bool {
    exists|i: int|
        0 <= i < prefixes.len() && (has_prefix(prefix, #[trigger] prefixes[i]) || has_prefix(
            prefixes[i],
            prefix,
        ))
}

/// The key comes before all keys that start both with `prefix` and with one of
/// the prefixes.
pub open spec fn before_all(key: Seq<u8>, prefix: Seq<u8>, prefixes: Seq<Seq<u8>>) -> bool {
    forall|i: int|
        0 <= i < prefixes.len() && (has_prefix(prefix, #[trigger] prefixes[i]) || has_prefix(
            prefixes[i],
            prefix,
        )) ==> lex_lt(key, prefixes[i])
}

/// What a [`TrieUpdate`] says: the state, the prefixes of the keys of it that
/// cannot be read, and the changes. A change binds a key to a value or, with
/// `None`, takes it out.
pub struct TrieUpdateView {
    pub base: Map<Seq<u8>, Seq<u8>>,
    pub absent: Seq<Seq<u8>>,
    pub pending: Map<Seq<u8>, Option<Seq<u8>>>,
}

impl TrieUpdateView {
    /// The key cannot be read from the state.
    pub open spec fn unreadable(self, key: Seq<u8>) -> bool {
        is_under(key, self.absent)
    }

    /// Not all keys that start with `prefix` can be read from the state.
    pub open spec fn unwalkable(self, prefix: Seq<u8>) -> bool {
        meets(prefix, self.absent)
    }

    /// The value of a key after the changes.
    pub open spec fn value(self, key: Seq<u8>) -> Option<Seq<u8>> {
        if self.pending.contains_key(key) {
            self.pending[key]
        } else {
            self.base.get(key)
        }
    }

    /// What a read of a key gives. A key that was changed is not looked up in
    /// the state.
    pub open spec fn read(self, key: Seq<u8>) -> Result<Option<Seq<u8>>, StorageErrorView> {
        if !self.pending.contains_key(key) && self.unreadable(key) {
            Err(StorageErrorView::TrieNodeMissing)
        } else {
            Ok(self.value(key))
        }
    }

    /// One more change: `key` is bound to `value`.
    pub open spec fn set(self, key: Seq<u8>, value: Seq<u8>) -> TrieUpdateView {
        TrieUpdateView { pending: self.pending.insert(key, Some(value)), ..self }
    }

    /// One more change: `key` is taken out.
    pub open spec fn remove(self, key: Seq<u8>) -> TrieUpdateView {
        TrieUpdateView { pending: self.pending.insert(key, None), ..self }
    }

    /// More changes: all `keys` are taken out.
    pub open spec fn remove_all(self, keys: Set<Seq<u8>>) -> TrieUpdateView {
        TrieUpdateView {
            pending: Map::new(
                |k: Seq<u8>| self.pending.contains_key(k) || keys.contains(k),
                |k: Seq<u8>|
                    if keys.contains(k) {
                        None
                    } else {
                        self.pending[k]
                    },
            ),
            ..self
        }
    }

    /// The keys that start with `prefix` and have a value.
    pub open spec fn live_keys(self, prefix: Seq<u8>) -> Set<Seq<u8>> {
        Set::new(|k: Seq<u8>| has_prefix(k, prefix) && self.value(k) is Some)
    }

    /// Those of the keys that start with `prefix` and have a value that a walk
    /// in their order comes to before it meets a part of the state that cannot
    /// be read.
    pub open spec fn reachable_keys(self, prefix: Seq<u8>) -> Set<Seq<u8>> {
        Set::new(
            |k: Seq<u8>|
                self.live_keys(prefix).contains(k) && before_all(k, prefix, self.absent),
        )
    }

    /// `items` is what a walk over the keys that start with `prefix` gives: the
    /// keys in order, and an error at the end where not all could be read.
    pub open spec fn is_walk(
        self,
        prefix: Seq<u8>,
        items: Seq<Result<Seq<u8>, StorageErrorView>>,
    ) -> bool {
        let n = if self.unwalkable(prefix) {
            items.len() - 1
        } else {
            items.len() as int
        };
        &&& n >= 0
        &&& forall|i: int| 0 <= i < n ==> #[trigger] items[i] is Ok
        &&& lists_keys(
            Seq::new(n as nat, |i: int| items[i]->Ok_0),
            self.reachable_keys(prefix),
        )
        &&& self.unwalkable(prefix) ==> items[n] == Err::<Seq<u8>, StorageErrorView>(
            StorageErrorView::TrieNodeMissing,
        )
    }
}

/// Where all keys can be read, a walk comes to all of them.
pub proof fn lemma_walk_reaches_all(s: TrieUpdateView, prefix: Seq<u8>)
    requires
        !s.unwalkable(prefix),
    ensures
        s.reachable_keys(prefix) == s.live_keys(prefix),
{
    assert(s.reachable_keys(prefix) =~= s.live_keys(prefix));
}

/// The content of what a walk gives.
pub open spec fn items_view(items: Seq<Result<Vec<u8>, StorageError>>) -> Seq<
    Result<Seq<u8>, StorageErrorView>,
> {
    items.map_values(
        |item: Result<Vec<u8>, StorageError>|
            match item {
                Ok(key) => Ok(key@),
                Err(e) => Err(e@),
            },
    )
}

/// `s` lists the keys of `keys`: each once, in order.
pub open spec fn lists_keys(s: Seq<Seq<u8>>, keys: Set<Seq<u8>>) -> bool {
    &&& forall|i: int, j: int| 0 <= i < j < s.len() ==> lex_lt(#[trigger] s[i], #[trigger] s[j])
    &&& forall|i: int| 0 <= i < s.len() ==> keys.contains(#[trigger] s[i])
    &&& forall|k: Seq<u8>| #[trigger]
        keys.contains(k) ==> exists|i: int| 0 <= i < s.len() && #[trigger] s[i] == k
}

/// The state and changes to it that are not yet part of it.
pub struct TrieUpdate {
    trie: Trie,
    prospective: Table<Option<Vec<u8>>>,
}

impl View for TrieUpdate {
    type V = TrieUpdateView;

    closed spec fn view(&self) -> TrieUpdateView {
        TrieUpdateView {
            base: self.trie.contents(),
            absent: self.trie.absent(),
            pending: self.prospective@.map_values(|v: Option<Vec<u8>>| opt_bytes(v)),
        }
    }
}

impl TrieUpdate {
    /// The entries of the state and the changes are in order.
    pub closed spec fn valid(&self) -> bool {
        self.trie.valid() && self.prospective.valid()
    }

    /// The state of a trie, with no change to it.
    pub fn new(trie: Trie) -> (u: TrieUpdate)
        requires
            trie.valid(),
        ensures
            u.valid(),
            u@ == (TrieUpdateView {
                base: trie.contents(),
                absent: trie.absent(),
                pending: Map::empty(),
            }),
    {
        let u = TrieUpdate { trie, prospective: Table::new() };
        proof {
            assert(u@.pending =~= Map::<Seq<u8>, Option<Seq<u8>>>::empty());
        }
        u
    }

    fn is_unreadable(&self, key: &[u8]) -> (r: bool)
        ensures
            r == self@.unreadable(key@),
    {
        let mut i: usize = 0;
        while i < self.trie.missing.len()
            invariant
                i <= self.trie.missing@.len(),
                forall|n: int| 0 <= n < i ==> !has_prefix(key@, #[trigger] self@.absent[n]),
            decreases self.trie.missing@.len() - i,
        {
            assert(self@.absent[i as int] == self.trie.missing@[i as int]@);
            if starts_with(key, self.trie.missing[i].as_slice()) {
                return true;
            }
            i = i + 1;
        }
        false
    }

    fn is_unwalkable(&self, prefix: &[u8]) -> (r: bool)
        ensures
            r == self@.unwalkable(prefix@),
    {
        let mut i: usize = 0;
        while i < self.trie.missing.len()
            invariant
                i <= self.trie.missing@.len(),
                forall|n: int|
                    0 <= n < i ==> !has_prefix(prefix@, #[trigger] self@.absent[n]) && !has_prefix(
                        self@.absent[n],
                        prefix@,
                    ),
            decreases self.trie.missing@.len() - i,
        {
            assert(self@.absent[i as int] == self.trie.missing@[i as int]@);
            let gap = self.trie.missing[i].as_slice();
            if starts_with(prefix, gap) || starts_with(gap, prefix) {
                return true;
            }
            i = i + 1;
        }
        false
    }

    /// The value of a key.
    pub fn get(&self, key: &TrieKey) -> (r: Result<Option<Vec<u8>>, StorageError>)
        requires
            self.valid(),
        ensures
            (match r {
                Ok(v) => Ok(opt_bytes(v)),
                Err(e) => Err(e@),
            }) == self@.read(key@.raw()),
    {
        let raw = key.to_vec();
        match self.prospective.get(raw.as_slice()) {
            Some(Some(v)) => return Ok(Some(copy_bytes(v.as_slice()))),
            Some(None) => return Ok(None),
            None => {},
        }
        if self.is_unreadable(raw.as_slice()) {
            return Err(StorageError::TrieNodeMissing);
        }
        match self.trie.entries.get(raw.as_slice()) {
            Some(v) => Ok(Some(copy_bytes(v.as_slice()))),
            None => Ok(None),
        }
    }

    /// Binds a key to a value.
    pub fn set(&mut self, key: TrieKey, value: Vec<u8>)
        requires
            old(self).valid(),
        ensures
            final(self).valid(),
            final(self)@ == old(self)@.set(key@.raw(), value@),
    {
        let raw = key.to_vec();
        self.prospective.insert(raw, Some(value));
        proof {
            assert(self@.pending =~= old(self)@.set(key@.raw(), value@).pending);
        }
    }

    /// Takes a key out.
    pub fn remove(&mut self, key: TrieKey)
        requires
            old(self).valid(),
        ensures
            final(self).valid(),
            final(self)@ == old(self)@.remove(key@.raw()),
    {
        let raw = key.to_vec();
        self.prospective.insert(raw, None);
        proof {
            assert(self@.pending =~= old(self)@.remove(key@.raw()).pending);
        }
    }

    /// Whether a walk over the keys that start with `prefix` comes to this key
    /// before a part of the state that cannot be read.
    fn is_before_gaps(&self, key: &[u8], prefix: &[u8]) -> (r: bool)
        ensures
            r == before_all(key@, prefix@, self@.absent),
    {
        let mut i: usize = 0;
        while i < self.trie.missing.len()
            invariant
                i <= self.trie.missing@.len(),
                forall|n: int|
                    0 <= n < i && (has_prefix(prefix@, #[trigger] self@.absent[n]) || has_prefix(
                        self@.absent[n],
                        prefix@,
                    )) ==> lex_lt(key@, self@.absent[n]),
            decreases self.trie.missing@.len() - i,
        {
            let gap = self.trie.missing[i].as_slice();
            assert(self@.absent[i as int] == gap@);
            if starts_with(prefix, gap) || starts_with(gap, prefix) {
                match order(key, gap) {
                    Order::Before => {},
                    _ => {
                        proof {
                            if lex_lt(key@, gap@) {
                                crate::bytes::lemma_lex_irreflexive(key@);
                            }
                        }
                        return false;
                    },
                }
            }
            i = i + 1;
        }
        true
    }

    /// Walks over the keys that start with `prefix` and have a value, in order.
    /// Where the walk meets a part of the state that cannot be read, it ends
    /// with an error.
    pub fn iter(&self, prefix: &[u8]) -> (r: Vec<Result<Vec<u8>, StorageError>>)
        requires
            self.valid(),
        ensures
            self@.is_walk(prefix@, items_view(r@)),
    {
        let ghost live = self@.reachable_keys(prefix@);
        let mut found: Table<()> = Table::new();
        let mut i: usize = 0;
        proof {
            self.trie.entries.lemma_positions();
            self.prospective.lemma_positions();
        }
        while i < self.trie.entries.len()
            invariant
                self.valid(),
                found.valid(),
                live == self@.reachable_keys(prefix@),
                i <= self.trie.entries.size(),
                forall|k: Seq<u8>| #[trigger] found@.contains_key(k) ==> live.contains(k),
                forall|n: int|
                    0 <= n < i && live.contains(#[trigger] self.trie.entries.key(n))
                        && !self@.pending.contains_key(self.trie.entries.key(n))
                        ==> found@.contains_key(self.trie.entries.key(n)),
            decreases self.trie.entries.size() - i,
        {
            let key = self.trie.entries.key_at(i).as_slice();
            proof {
                self.trie.entries.lemma_positions();
                assert(self.trie.entries@.contains_key(self.trie.entries.key(i as int)));
            }
            if starts_with(key, prefix) && !self.prospective.contains(key) && self.is_before_gaps(
                key,
                prefix,
            ) {
                found.insert(copy_bytes(key), ());
            }
            i = i + 1;
        }
        i = 0;
        while i < self.prospective.len()
            invariant
                self.valid(),
                found.valid(),
                live == self@.reachable_keys(prefix@),
                i <= self.prospective.size(),
                forall|k: Seq<u8>| #[trigger] found@.contains_key(k) ==> live.contains(k),
                forall|n: int|
                    0 <= n < self.trie.entries.size() && live.contains(
                        #[trigger] self.trie.entries.key(n),
                    ) && !self@.pending.contains_key(self.trie.entries.key(n))
                        ==> found@.contains_key(self.trie.entries.key(n)),
                forall|n: int|
                    0 <= n < i && live.contains(#[trigger] self.prospective.key(n))
                        ==> found@.contains_key(self.prospective.key(n)),
            decreases self.prospective.size() - i,
        {
            let key = self.prospective.key_at(i).as_slice();
            proof {
                self.prospective.lemma_positions();
                assert(self.prospective@.contains_key(self.prospective.key(i as int)));
            }
            if starts_with(key, prefix) && self.prospective.value_at(i).is_some()
                && self.is_before_gaps(key, prefix) {
                found.insert(copy_bytes(key), ());
            }
            i = i + 1;
        }
        proof {
            assert forall|k: Seq<u8>| live.contains(k) implies #[trigger] found@.contains_key(
                k,
            ) by {
                if self@.pending.contains_key(k) {
                    let n = choose|n: int|
                        0 <= n < self.prospective.size() && #[trigger] self.prospective.key(n) == k;
                    assert(self.prospective.key(n) == k);
                } else {
                    assert(self.trie.entries@.contains_key(k));
                    let n = choose|n: int|
                        0 <= n < self.trie.entries.size() && #[trigger] self.trie.entries.key(n)
                            == k;
                    assert(self.trie.entries.key(n) == k);
                }
            }
        }
        let mut out: Vec<Result<Vec<u8>, StorageError>> = Vec::new();
        i = 0;
        while i < found.len()
            invariant
                i <= found.size(),
                out@.len() == i,
                forall|n: int|
                    0 <= n < i ==> (#[trigger] out@[n]) is Ok && out@[n]->Ok_0@ == found.key(n),
            decreases found.size() - i,
        {
            out.push(Ok(copy_bytes(found.key_at(i).as_slice())));
            i = i + 1;
        }
        let ghost keys = Seq::new(found.size(), |n: int| found.key(n));
        proof {
            found.lemma_positions();
            assert forall|n: int| 0 <= n < keys.len() implies live.contains(#[trigger] keys[n]) by {
                assert(found@.contains_key(found.key(n)));
            }
            assert forall|k: Seq<u8>| #[trigger] live.contains(k) implies exists|n: int|
                0 <= n < keys.len() && #[trigger] keys[n] == k by {
                assert(found@.contains_key(k));
                let n = choose|n: int| 0 <= n < found.size() && #[trigger] found.key(n) == k;
                assert(keys[n] == k);
            }
            assert(lists_keys(keys, live));
        }
        if self.is_unwalkable(prefix) {
            out.push(Err(StorageError::TrieNodeMissing));
        }
        proof {
            let items = items_view(out@);
            assert(Seq::new(keys.len(), |n: int| items[n]->Ok_0) =~= keys);
        }
        out
    }
}

} // verus!
