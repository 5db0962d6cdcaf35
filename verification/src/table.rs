//! A table from byte strings to values.

use vstd::prelude::*;

use crate::bytes;

verus! {

/// Values under byte strings, one under each.
#[derive(Debug)]
pub struct Table<V> {
    entries: Vec<(Vec<u8>, V)>,
}

/// Whether no two entries stand under one key.
spec fn distinct<V>(entries: Seq<(Vec<u8>, V)>) -> bool {
    forall|i: int, j: int|
        0 <= i < j < entries.len() ==> #[trigger] entries[i].0@ != #[trigger] entries[j].0@
}

/// Where a key stands among entries.
spec fn place_of<V>(entries: Seq<(Vec<u8>, V)>, key: Seq<u8>) -> int {
    choose|i: int| 0 <= i < entries.len() && #[trigger] entries[i].0@ == key
}

/// What entries hold under each key.
spec fn map_of<V>(entries: Seq<(Vec<u8>, V)>) -> Map<Seq<u8>, V> {
    Map::new(
        |key: Seq<u8>| exists|i: int| 0 <= i < entries.len() && #[trigger] entries[i].0@ == key,
        |key: Seq<u8>| entries[place_of(entries, key)].1,
    )
}

proof fn lemma_holds<V>(entries: Seq<(Vec<u8>, V)>, i: int)
    requires
        distinct(entries),
        0 <= i < entries.len(),
    ensures
        map_of(entries).contains_key(entries[i].0@),
        map_of(entries)[entries[i].0@] == entries[i].1,
{
    let key = entries[i].0@;
    let p = place_of(entries, key);
    assert(0 <= p < entries.len() && entries[p].0@ == key);
    if p < i {
        assert(entries[p].0@ != entries[i].0@);
    }
    if i < p {
        assert(entries[i].0@ != entries[p].0@);
    }
}

proof fn lemma_size<V>(entries: Seq<(Vec<u8>, V)>)
    requires
        distinct(entries),
    ensures
        map_of(entries).dom().finite(),
        map_of(entries).dom().len() == entries.len(),
{
    let keys = entries.map_values(|e: (Vec<u8>, V)| e.0@);
    assert(keys.no_duplicates()) by {
        assert forall|i: int, j: int| 0 <= i < keys.len() && 0 <= j < keys.len() && i != j implies keys[i]
            != keys[j] by {
            if i < j {
                assert(entries[i].0@ != entries[j].0@);
            } else {
                assert(entries[j].0@ != entries[i].0@);
            }
        }
    }
    keys.unique_seq_to_set();
    assert forall|key: Seq<u8>|
        map_of(entries).dom().contains(key) <==> keys.to_set().contains(key) by {
        if map_of(entries).dom().contains(key) {
            let i = place_of(entries, key);
            assert(0 <= i < entries.len() && entries[i].0@ == key);
            assert(keys[i] == key);
        }
        if keys.to_set().contains(key) {
            let i = choose|i: int| 0 <= i < keys.len() && keys[i] == key;
            assert(entries[i].0@ == key);
        }
    }
    assert(map_of(entries).dom() =~= keys.to_set());
}

impl<V> View for Table<V> {
    type V = Map<Seq<u8>, V>;

    closed spec fn view(&self) -> Map<Seq<u8>, V> {
        map_of(self.entries@)
    }
}

impl<V> Table<V> {
    #[verifier::type_invariant]
    spec fn well_formed(self) -> bool {
        distinct(self.entries@)
    }

    /// The entries, in the order in which their keys were first put in.
    pub closed spec fn listed(&self) -> Seq<(Seq<u8>, V)> {
        self.entries@.map_values(|e: (Vec<u8>, V)| (e.0@, e.1))
    }

    /// A table of nothing.
    pub fn new() -> (r: Table<V>)
        ensures
            r@ == Map::<Seq<u8>, V>::empty(),
            r.listed() == Seq::<(Seq<u8>, V)>::empty(),
    {
        let r = Table { entries: Vec::new() };
        assert(r@ =~= Map::<Seq<u8>, V>::empty());
        assert(r.listed() =~= Seq::<(Seq<u8>, V)>::empty());
        r
    }

    fn find(&self, key: &[u8]) -> (r: Option<usize>)
        ensures
            match r {
                Some(i) => i < self.entries@.len() && self.entries@[i as int].0@ == key@,
                None => forall|i: int|
                    0 <= i < self.entries@.len() ==> #[trigger] self.entries@[i].0@ != key@,
            },
    {
        for i in 0..self.entries.len()
            invariant
                forall|j: int| 0 <= j < i ==> #[trigger] self.entries@[j].0@ != key@,
        {
            if bytes::same(self.entries[i].0.as_slice(), key) {
                return Some(i);
            }
        }
        None
    }

    /// What stands under a key.
    pub fn get(&self, key: &[u8]) -> (r: Option<&V>)
        ensures
            match r {
                Some(value) => self@.contains_key(key@) && self@[key@] == *value,
                None => !self@.contains_key(key@),
            },
    {
        proof {
            use_type_invariant(self);
        }
        match self.find(key) {
            Some(i) => {
                proof {
                    lemma_holds(self.entries@, i as int);
                }
                Some(&self.entries[i].1)
            },
            None => None,
        }
    }

    /// Put a value under a key, in place of what stood there.
    pub fn insert(&mut self, key: &[u8], value: V)
        ensures
            final(self)@ == old(self)@.insert(key@, value),
            !old(self)@.contains_key(key@) ==> final(self).listed() == old(self).listed().push(
                (key@, value),
            ),
    {
        proof {
            use_type_invariant(&*self);
        }
        let ghost before = self.entries@;
        let found = self.find(key);
        let mut entries: Vec<(Vec<u8>, V)> = Vec::new();
        std::mem::swap(&mut entries, &mut self.entries);
        match found {
            Some(i) => {
                let kept = bytes::copied(key);
                entries.set(i, (kept, value));
                proof {
                    let after = entries@;
                    assert(distinct(after)) by {
                        assert forall|j: int, k: int|
                            0 <= j < k < after.len() implies #[trigger] after[j].0@
                            != #[trigger] after[k].0@ by {
                            assert(before[j].0@ != before[k].0@);
                            assert(after[j].0@ == before[j].0@);
                            assert(after[k].0@ == before[k].0@);
                        }
                    }
                    lemma_same_as_insert(before, after, key@, value, i as int);
                    lemma_holds(before, i as int);
                }
            },
            None => {
                let kept = bytes::copied(key);
                entries.push((kept, value));
                proof {
                    let after = entries@;
                    assert(distinct(after)) by {
                        assert forall|j: int, k: int|
                            0 <= j < k < after.len() implies #[trigger] after[j].0@
                            != #[trigger] after[k].0@ by {
                            assert(before[j].0@ != key@);
                            if k < before.len() {
                                assert(before[j].0@ != before[k].0@);
                            }
                        }
                    }
                    lemma_same_as_insert(before, after, key@, value, before.len() as int);
                    assert(after.map_values(|e: (Vec<u8>, V)| (e.0@, e.1)) =~= before.map_values(
                        |e: (Vec<u8>, V)| (e.0@, e.1),
                    ).push((key@, value)));
                }
            },
        }
        self.entries = entries;
    }

    /// How many keys there are. What is listed is what stands under each key.
    pub fn len(&self) -> (r: usize)
        ensures
            self@.dom().finite(),
            r == self@.dom().len(),
            r == self.listed().len(),
            forall|i: int|
                0 <= i < self.listed().len() ==> self@.contains_key(
                    (#[trigger] self.listed()[i]).0,
                ) && self@[self.listed()[i].0] == self.listed()[i].1,
            forall|key: Seq<u8>| #[trigger]
                self@.contains_key(key) ==> exists|i: int|
                    0 <= i < self.listed().len() && (#[trigger] self.listed()[i]).0 == key,
    {
        proof {
            use_type_invariant(self);
            lemma_size(self.entries@);
            assert forall|i: int| 0 <= i < self.listed().len() implies self@.contains_key(
                (#[trigger] self.listed()[i]).0,
            ) && self@[self.listed()[i].0] == self.listed()[i].1 by {
                lemma_holds(self.entries@, i);
            }
            assert forall|key: Seq<u8>| #[trigger] self@.contains_key(key) implies exists|i: int|
                0 <= i < self.listed().len() && (#[trigger] self.listed()[i]).0 == key by {
                let i = place_of(self.entries@, key);
                assert(0 <= i < self.entries@.len() && self.entries@[i].0@ == key);
                assert(self.listed()[i].0 == key);
            }
        }
        self.entries.len()
    }
}

proof fn lemma_same_as_insert<V>(
    before: Seq<(Vec<u8>, V)>,
    after: Seq<(Vec<u8>, V)>,
    key: Seq<u8>,
    value: V,
    at: int,
)
    requires
        distinct(before),
        distinct(after),
        0 <= at < after.len(),
        after.len() == before.len() || after.len() == before.len() + 1 && at == before.len(),
        after[at].0@ == key,
        after[at].1 == value,
        at < before.len() ==> before[at].0@ == key,
        forall|i: int| 0 <= i < before.len() && i != at ==> #[trigger] after[i] == before[i],
    ensures
        map_of(after) == map_of(before).insert(key, value),
{
    let m = map_of(after);
    let n = map_of(before).insert(key, value);
    assert forall|k: Seq<u8>| m.contains_key(k) <==> n.contains_key(k) by {
        if m.contains_key(k) {
            let i = place_of(after, k);
            assert(0 <= i < after.len() && after[i].0@ == k);
            if i != at {
                assert(after[i] == before[i]);
                assert(before[i].0@ == k);
            }
        }
        if n.contains_key(k) {
            if k != key {
                let i = place_of(before, k);
                assert(0 <= i < before.len() && before[i].0@ == k);
                assert(after[i] == before[i]);
                assert(after[i].0@ == k);
            } else {
                assert(after[at].0@ == k);
            }
        }
    }
    assert forall|k: Seq<u8>| m.contains_key(k) implies m[k] == n[k] by {
        let i = place_of(after, k);
        assert(0 <= i < after.len() && after[i].0@ == k);
        lemma_holds(after, at);
        if i != at {
            assert(after[i] == before[i]);
            lemma_holds(before, i);
            if k == key {
                if i < at {
                    assert(after[i].0@ != after[at].0@);
                } else {
                    assert(after[at].0@ != after[i].0@);
                }
            }
        }
    }
    assert(m =~= n);
}

}
