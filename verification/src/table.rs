//! An ordered table from byte strings to values.

use vstd::prelude::*;

use crate::bytes::{lemma_lex_irreflexive, lemma_lex_transitive, lex_lt, order, Order};

verus! {

/// A map from byte strings to values that keeps its entries in the
/// lexicographic order of their keys.
#[derive(Debug)]
pub struct Table<V> {
    entries: Vec<(Vec<u8>, V)>,
}

impl<V> View for Table<V> {
    type V = Map<Seq<u8>, V>;

    closed spec fn view(&self) -> Map<Seq<u8>, V> {
        Map::new(
            |k: Seq<u8>| self.holds(k),
            |k: Seq<u8>| self.entries@[choose|i: int| self.is_at(k, i)].1,
        )
    }
}

impl<V> Table<V> {
    spec fn is_at(&self, k: Seq<u8>, i: int) -> bool {
        0 <= i < self.entries@.len() && self.entries@[i].0@ == k
    }

    spec fn holds(&self, k: Seq<u8>) -> bool {
        exists|i: int| self.is_at(k, i)
    }

    /// The keys stand in strictly rising order.
    pub closed spec fn valid(&self) -> bool {
        forall|i: int, j: int|
            0 <= i < j < self.entries@.len() ==> lex_lt(
                #[trigger] self.entries@[i].0@,
                #[trigger] self.entries@[j].0@,
            )
    }

    /// How many entries the table has.
    pub closed spec fn size(&self) -> nat {
        self.entries@.len()
    }

    /// The key at position `i`.
    pub closed spec fn key(&self, i: int) -> Seq<u8> {
        self.entries@[i].0@
    }

    /// The value at position `i`.
    pub closed spec fn value(&self, i: int) -> V {
        self.entries@[i].1
    }

    proof fn lemma_at(&self, k: Seq<u8>, i: int)
        requires
            self.valid(),
            self.is_at(k, i),
        ensures
            self@.contains_key(k),
            self@[k] == self.entries@[i].1,
            forall|j: int| self.is_at(k, j) ==> j == i,
    {
        assert forall|j: int| self.is_at(k, j) implies j == i by {
            lemma_lex_irreflexive(k);
            if j < i {
                assert(lex_lt(self.entries@[j].0@, self.entries@[i].0@));
            } else if i < j {
                assert(lex_lt(self.entries@[i].0@, self.entries@[j].0@));
            }
        }
        assert(self.holds(k));
    }

    /// The positions of a table list its entries in order, each once.
    pub proof fn lemma_positions(&self)
        requires
            self.valid(),
        ensures
            forall|i: int, j: int|
                0 <= i < j < self.size() ==> lex_lt(#[trigger] self.key(i), #[trigger] self.key(j)),
            forall|i: int|
                #![trigger self.key(i)]
                #![trigger self.value(i)]
                0 <= i < self.size() ==> self@.contains_key(self.key(i)) && self@[self.key(i)]
                    == self.value(i),
            forall|k: Seq<u8>| #[trigger]
                self@.contains_key(k) ==> exists|i: int|
                    0 <= i < self.size() && #[trigger] self.key(i) == k,
    {
        assert forall|i: int|
            #![trigger self.key(i)]
            #![trigger self.value(i)]
            0 <= i < self.size() implies self@.contains_key(self.key(i)) && self@[self.key(i)]
            == self.value(i) by {
            self.lemma_at(self.key(i), i);
        }
        assert forall|k: Seq<u8>| #[trigger] self@.contains_key(k) implies exists|i: int|
            0 <= i < self.size() && #[trigger] self.key(i) == k by {
            let i = choose|i: int| self.is_at(k, i);
            assert(self.is_at(k, i));
            assert(self.key(i) == k);
        }
    }

    pub fn new() -> (t: Self)
        ensures
            t.valid(),
            t@ == Map::<Seq<u8>, V>::empty(),
            t.size() == 0,
    {
        let t = Table { entries: Vec::new() };
        proof {
            assert(t@ =~= Map::<Seq<u8>, V>::empty());
        }
        t
    }

    pub fn len(&self) -> (n: usize)
        ensures
            n == self.size(),
    {
        self.entries.len()
    }

    pub fn key_at(&self, i: usize) -> (k: &Vec<u8>)
        requires
            i < self.size(),
        ensures
            k@ == self.key(i as int),
    {
        &self.entries[i].0
    }

    pub fn value_at(&self, i: usize) -> (v: &V)
        requires
            i < self.size(),
        ensures
            *v == self.value(i as int),
    {
        &self.entries[i].1
    }

    /// Where `key` stands, or where it would have to be put.
    fn find(&self, key: &[u8]) -> (r: (bool, usize))
        requires
            self.valid(),
        ensures
            r.1 <= self.entries@.len(),
            r.0 == self.is_at(key@, r.1 as int),
            forall|i: int| 0 <= i < r.1 ==> lex_lt(#[trigger] self.entries@[i].0@, key@),
            !r.0 ==> forall|i: int|
                r.1 <= i < self.entries@.len() ==> lex_lt(key@, #[trigger] self.entries@[i].0@),
    {
        let mut low: usize = 0;
        let mut high: usize = self.entries.len();
        while low < high
            invariant
                low <= high <= self.entries@.len(),
                self.valid(),
                forall|i: int| 0 <= i < low ==> lex_lt(#[trigger] self.entries@[i].0@, key@),
                forall|i: int|
                    high <= i < self.entries@.len() ==> lex_lt(key@, #[trigger] self.entries@[i].0@),
            decreases high - low,
        {
            let mid: usize = low + (high - low) / 2;
            let ghost there = self.entries@[mid as int].0@;
            match order(self.entries[mid].0.as_slice(), key) {
                Order::Same => {
                    proof {
                        assert forall|i: int| 0 <= i < mid implies lex_lt(
                            #[trigger] self.entries@[i].0@,
                            key@,
                        ) by {
                            assert(lex_lt(self.entries@[i].0@, there));
                        }
                    }
                    return (true, mid);
                },
                Order::Before => {
                    proof {
                        assert forall|i: int| 0 <= i < mid + 1 implies lex_lt(
                            #[trigger] self.entries@[i].0@,
                            key@,
                        ) by {
                            if i < mid {
                                assert(lex_lt(self.entries@[i].0@, there));
                                lemma_lex_transitive(self.entries@[i].0@, there, key@);
                            }
                        }
                    }
                    low = mid + 1;
                },
                Order::After => {
                    proof {
                        assert forall|i: int| mid <= i < self.entries@.len() implies lex_lt(
                            key@,
                            #[trigger] self.entries@[i].0@,
                        ) by {
                            if mid < i {
                                assert(lex_lt(there, self.entries@[i].0@));
                                lemma_lex_transitive(key@, there, self.entries@[i].0@);
                            }
                        }
                    }
                    high = mid;
                },
            }
        }
        proof {
            if low < self.entries@.len() {
                lemma_lex_irreflexive(key@);
            }
        }
        (false, low)
    }

    proof fn lemma_absent(&self, key: Seq<u8>, pos: int)
        requires
            0 <= pos <= self.entries@.len(),
            forall|i: int| 0 <= i < pos ==> lex_lt(#[trigger] self.entries@[i].0@, key),
            forall|i: int|
                pos <= i < self.entries@.len() ==> lex_lt(key, #[trigger] self.entries@[i].0@),
        ensures
            !self@.contains_key(key),
    {
        lemma_lex_irreflexive(key);
        if self.holds(key) {
            let i = choose|i: int| self.is_at(key, i);
            assert(self.is_at(key, i));
        }
    }

    pub fn contains(&self, key: &[u8]) -> (r: bool)
        requires
            self.valid(),
        ensures
            r == self@.contains_key(key@),
    {
        let (found, pos) = self.find(key);
        proof {
            if found {
                self.lemma_at(key@, pos as int);
            } else {
                self.lemma_absent(key@, pos as int);
            }
        }
        found
    }

    pub fn get(&self, key: &[u8]) -> (r: Option<&V>)
        requires
            self.valid(),
        ensures
            match r {
                Some(v) => self@.contains_key(key@) && *v == self@[key@],
                None => !self@.contains_key(key@),
            },
    {
        let (found, pos) = self.find(key);
        if found {
            proof {
                self.lemma_at(key@, pos as int);
            }
            Some(&self.entries[pos].1)
        } else {
            proof {
                self.lemma_absent(key@, pos as int);
            }
            None
        }
    }

    /// Binds `key` to `value`, in place of what it was bound to.
    pub fn insert(&mut self, key: Vec<u8>, value: V)
        requires
            old(self).valid(),
        ensures
            final(self).valid(),
            final(self)@ == old(self)@.insert(key@, value),
    {
        let ghost before = *self;
        let ghost k = key@;
        let (found, pos) = self.find(key.as_slice());
        if found {
            self.entries.set(pos, (key, value));
        } else {
            self.entries.insert(pos, (key, value));
        }
        proof {
            let after = *self;
            if !found {
                assert forall|i: int, j: int| 0 <= i < j < after.entries@.len() implies lex_lt(
                    #[trigger] after.entries@[i].0@,
                    #[trigger] after.entries@[j].0@,
                ) by {
                    let bi = if i < pos { i } else { i - 1 };
                    let bj = if j < pos { j } else { j - 1 };
                    if i != pos && j != pos {
                        assert(lex_lt(before.entries@[bi].0@, before.entries@[bj].0@));
                    } else if i == pos {
                        assert(lex_lt(k, before.entries@[bj].0@));
                    } else {
                        assert(lex_lt(before.entries@[bi].0@, k));
                    }
                }
            }
            assert(after.valid());
            assert(after.is_at(k, pos as int));
            after.lemma_at(k, pos as int);
            assert forall|q: Seq<u8>| q != k implies after.holds(q) == before.holds(q) && (
            before.holds(q) ==> after@[q] == before@[q]) by {
                if before.holds(q) {
                    let i = choose|i: int| before.is_at(q, i);
                    assert(before.is_at(q, i));
                    before.lemma_at(q, i);
                    let ai = if found || i < pos { i } else { i + 1 };
                    assert(after.is_at(q, ai));
                    after.lemma_at(q, ai);
                }
                if after.holds(q) {
                    let i = choose|i: int| after.is_at(q, i);
                    assert(after.is_at(q, i));
                    let bi = if found || i < pos { i } else { i - 1 };
                    assert(i != pos);
                    assert(before.is_at(q, bi));
                }
            }
            assert(after@ =~= before@.insert(k, value));
        }
    }

    /// Takes `key` out of the table.
    pub fn remove(&mut self, key: &[u8])
        requires
            old(self).valid(),
        ensures
            final(self).valid(),
            final(self)@ == old(self)@.remove(key@),
    {
        let ghost before = *self;
        let (found, pos) = self.find(key);
        if found {
            let _ = self.entries.remove(pos);
            proof {
                let after = *self;
                assert forall|i: int, j: int| 0 <= i < j < after.entries@.len() implies lex_lt(
                    #[trigger] after.entries@[i].0@,
                    #[trigger] after.entries@[j].0@,
                ) by {
                    let bi = if i < pos { i } else { i + 1 };
                    let bj = if j < pos { j } else { j + 1 };
                    assert(lex_lt(before.entries@[bi].0@, before.entries@[bj].0@));
                }
                assert(after.valid());
                before.lemma_at(key@, pos as int);
                assert forall|q: Seq<u8>| after.holds(q) == (q != key@ && before.holds(q)) && (
                after.holds(q) ==> after@[q] == before@[q]) by {
                    if after.holds(q) {
                        let i = choose|i: int| after.is_at(q, i);
                        assert(after.is_at(q, i));
                        after.lemma_at(q, i);
                        let bi = if i < pos { i } else { i + 1 };
                        assert(before.is_at(q, bi));
                        before.lemma_at(q, bi);
                    }
                    if before.holds(q) && q != key@ {
                        let i = choose|i: int| before.is_at(q, i);
                        assert(before.is_at(q, i));
                        let ai = if i < pos { i } else { i - 1 };
                        assert(i != pos);
                        assert(after.is_at(q, ai));
                    }
                }
                assert(after@ =~= before@.remove(key@));
            }
        } else {
            proof {
                self.lemma_absent(key@, pos as int);
                assert(before@ =~= before@.remove(key@));
            }
        }
    }

    /// Empties the table.
    pub fn clear(&mut self)
        ensures
            final(self).valid(),
            final(self)@ == Map::<Seq<u8>, V>::empty(),
    {
        self.entries.clear();
        proof {
            assert(self@ =~= Map::<Seq<u8>, V>::empty());
        }
    }
}

} // verus!
