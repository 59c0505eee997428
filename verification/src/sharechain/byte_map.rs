//! Byte strings that are found by other byte strings.
use crate::bytes::bytes_equal;
use vstd::prelude::*;

verus! {

/// A map from byte strings to byte strings.
pub struct ByteMap {
    /// Keys with their values; no key occurs twice.
    pub entries: Vec<(Vec<u8>, Vec<u8>)>,
}

impl ByteMap {
    /// The keys and values, in the order in which the keys came.
    pub open spec fn list(&self) -> Seq<(Seq<u8>, Seq<u8>)> {
        self.entries@.map_values(|e: (Vec<u8>, Vec<u8>)| (e.0@, e.1@))
    }

    /// No key occurs twice.
    pub open spec fn distinct(list: Seq<(Seq<u8>, Seq<u8>)>) -> bool {
        forall|i: int, j: int|
            0 <= i < list.len() && 0 <= j < list.len() && (#[trigger] list[i]).0 == (#[trigger] list[j]).0 ==> i == j
    }

    /// The key occurs.
    pub open spec fn has(list: Seq<(Seq<u8>, Seq<u8>)>, key: Seq<u8>) -> bool {
        exists|i: int| 0 <= i < list.len() && (#[trigger] list[i]).0 == key
    }

    /// Where the key is.
    pub open spec fn place(list: Seq<(Seq<u8>, Seq<u8>)>, key: Seq<u8>) -> int {
        choose|i: int| 0 <= i < list.len() && (#[trigger] list[i]).0 == key
    }

    /// No key occurs twice.
    pub open spec fn wf(&self) -> bool {
        ByteMap::distinct(self.list())
    }

    proof fn lemma_place(list: Seq<(Seq<u8>, Seq<u8>)>, i: int)
        requires
            ByteMap::distinct(list),
            0 <= i < list.len(),
        ensures
            ByteMap::has(list, list[i].0),
            ByteMap::place(list, list[i].0) == i,
    {
    }

    /// An empty map.
    pub fn new() -> (map: ByteMap)
        ensures
            map.wf(),
            map@ == Map::<Seq<u8>, Seq<u8>>::empty(),
    {
        let map = ByteMap { entries: Vec::new() };
        assert(map@ =~= Map::<Seq<u8>, Seq<u8>>::empty());
        map
    }

    fn position(&self, key: &[u8]) -> (place: Option<usize>)
        requires
            self.wf(),
        ensures
            place is Some <==> self@.dom().contains(key@),
            place matches Some(i) ==> i < self.entries@.len() && self.list()[i as int].0 == key@ && ByteMap::place(
                self.list(),
                key@,
            ) == i,
    {
        let mut i: usize = 0;
        while i < self.entries.len()
            invariant
                i <= self.entries@.len(),
                self.wf(),
                forall|j: int| 0 <= j < i ==> (#[trigger] self.list()[j]).0 != key@,
            decreases self.entries@.len() - i,
        {
            assert(self.list()[i as int] == (self.entries@[i as int].0@, self.entries@[i as int].1@));
            if bytes_equal(&self.entries[i].0, key) {
                proof {
                    ByteMap::lemma_place(self.list(), i as int);
                }
                return Some(i);
            }
            i = i + 1;
        }
        None
    }

    /// The value of a key.
    pub fn get(&self, key: &[u8]) -> (value: Option<&Vec<u8>>)
        requires
            self.wf(),
        ensures
            value is Some <==> self@.dom().contains(key@),
            value matches Some(v) ==> self@[key@] == v@,
    {
        match self.position(key) {
            Some(i) => {
                assert(self.list()[i as int] == (self.entries@[i as int].0@, self.entries@[i as int].1@));
                Some(&self.entries[i].1)
            },
            None => None,
        }
    }

    /// Sets the value of a key.
    pub fn insert(&mut self, key: Vec<u8>, value: Vec<u8>)
        requires
            old(self).wf(),
        ensures
            final(self).wf(),
            final(self)@ == old(self)@.insert(key@, value@),
    {
        let ghost before = self.list();
        let ghost entry = (key@, value@);
        match self.position(&key) {
            Some(i) => {
                self.entries.set(i, (key, value));
                let ghost after = self.list();
                proof {
                    assert(after =~= before.update(i as int, entry));
                    assert forall|a: int, b: int|
                        0 <= a < after.len() && 0 <= b < after.len() && (#[trigger] after[a]).0 == (
                        #[trigger] after[b]).0 implies a == b by {
                        assert(after[a].0 == before[a].0);
                        assert(after[b].0 == before[b].0);
                    }
                }
            },
            None => {
                self.entries.push((key, value));
                let ghost after = self.list();
                proof {
                    assert(after =~= before.push(entry));
                    assert forall|a: int, b: int|
                        0 <= a < after.len() && 0 <= b < after.len() && (#[trigger] after[a]).0 == (
                        #[trigger] after[b]).0 implies a == b by {
                        if a < before.len() {
                            assert(after[a] == before[a]);
                        }
                        if b < before.len() {
                            assert(after[b] == before[b]);
                        }
                    }
                }
            },
        }
        proof {
            let after = self.list();
            let left = self@;
            let right = old(self)@.insert(entry.0, entry.1);
            assert forall|k: Seq<u8>| left.dom().contains(k) <==> right.dom().contains(k) by {
                if left.dom().contains(k) && k != entry.0 {
                    let j = ByteMap::place(after, k);
                    assert(before[j] == after[j]);
                    assert(ByteMap::has(before, k));
                }
                if right.dom().contains(k) && k != entry.0 {
                    let j = ByteMap::place(before, k);
                    assert(after[j] == before[j]);
                    assert(ByteMap::has(after, k));
                }
                if k == entry.0 {
                    if ByteMap::has(before, k) {
                        assert(after[ByteMap::place(before, k)] == entry);
                    } else {
                        assert(after[before.len() as int] == entry);
                    }
                }
            }
            assert forall|k: Seq<u8>| left.dom().contains(k) implies left[k] == right[k] by {
                let j = ByteMap::place(after, k);
                assert(after[j].0 == k);
                if k != entry.0 {
                    assert(before[j] == after[j]);
                    ByteMap::lemma_place(before, j);
                } else if ByteMap::has(before, k) {
                    assert(after[ByteMap::place(before, k)] == entry);
                } else {
                    assert(after[before.len() as int] == entry);
                }
            }
            assert(left =~= right);
        }
    }
}

impl View for ByteMap {
    type V = Map<Seq<u8>, Seq<u8>>;

    open spec fn view(&self) -> Map<Seq<u8>, Seq<u8>> {
        Map::new(
            |key: Seq<u8>| ByteMap::has(self.list(), key),
            |key: Seq<u8>| self.list()[ByteMap::place(self.list(), key)].1,
        )
    }
}

}
