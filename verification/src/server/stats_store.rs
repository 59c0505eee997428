//! Counters by name.
use vstd::prelude::*;

verus! {

/// Counters by name; a name occurs once at most.
pub struct StatsStore {
    /// The counters.
    pub stats: Vec<(String, u64)>,
}

impl StatsStore {
    /// The counters in order.
    pub open spec fn list(&self) -> Seq<(Seq<char>, u64)> {
        self.stats@.map_values(|s: (String, u64)| (s.0@, s.1))
    }

    /// No name occurs twice.
    pub open spec fn wf(&self) -> bool {
        crate::assoc::distinct_keys(self.list())
    }

    /// The count of a name; 0 if there is none.
    pub open spec fn count(&self, key: Seq<char>) -> u64 {
        if self@.dom().contains(key) {
            self@[key]
        } else {
            0
        }
    }

    /// No counters.
    pub fn new() -> (store: Self)
        ensures
            store.wf(),
            store@ == Map::<Seq<char>, u64>::empty(),
    {
        let store = StatsStore { stats: Vec::new() };
        proof {
            crate::assoc::lemma_empty::<Seq<char>, u64>();
            assert(store.list() =~= Seq::<(Seq<char>, u64)>::empty());
        }
        store
    }

    fn position(&self, key: &String) -> (place: Option<usize>)
        requires
            self.wf(),
        ensures
            place is Some <==> self@.dom().contains(key@),
            place matches Some(i) ==> i < self.stats@.len() && self.list()[i as int] == (key@, self@[key@])
                && self.stats@[i as int].1 == self@[key@],
    {
        let mut i: usize = 0;
        while i < self.stats.len()
            invariant
                i <= self.stats@.len(),
                self.wf(),
                forall|j: int| 0 <= j < i ==> (#[trigger] self.list()[j]).0 != key@,
            decreases self.stats@.len() - i,
        {
            assert(self.list()[i as int] == (self.stats@[i as int].0@, self.stats@[i as int].1));
            if self.stats[i].0 == *key {
                proof {
                    crate::assoc::lemma_key_at(self.list(), i as int);
                }
                return Some(i);
            }
            i = i + 1;
        }
        None
    }

    /// Returns one stat by key.
    pub fn get(&self, key: &String) -> (count: u64)
        requires
            self.wf(),
        ensures
            count == self.count(key@),
    {
        match self.position(key) {
            Some(i) => self.stats[i].1,
            None => 0,
        }
    }

    /// Increments stat with given key.
    /// If the value is not found by key, simply create new value.
    pub fn inc(&mut self, key: &String, by: u64)
        requires
            old(self).wf(),
            old(self).count(key@) + by <= u64::MAX,
        ensures
            final(self).wf(),
            final(self)@ == old(self)@.insert(key@, (old(self).count(key@) + by) as u64),
    {
        let ghost before = self.list();
        match self.position(key) {
            Some(i) => {
                let value = self.stats[i].1 + by;
                proof {
                    crate::assoc::lemma_update(before, i as int, value);
                }
                self.stats.set(i, (key.clone(), value));
                assert(self.list() =~= before.update(i as int, (key@, value)));
            },
            None => {
                proof {
                    crate::assoc::lemma_push(before, key@, by);
                }
                self.stats.push((key.clone(), by));
                assert(self.list() =~= before.push((key@, by)));
            },
        }
    }
}

impl View for StatsStore {
    type V = Map<Seq<char>, u64>;

    open spec fn view(&self) -> Map<Seq<char>, u64> {
        crate::assoc::map_of(self.list())
    }
}

/// Counting twice is counting once by the sum, and does not touch other counters.
pub proof fn law_counts_add_up(counts: Map<Seq<char>, u64>, key: Seq<char>, other: Seq<char>, first: u64, second: u64)
    requires
        counts.dom().contains(key),
        counts[key] + first + second <= u64::MAX,
        other != key,
    ensures
        ({
            let once = counts.insert(key, (counts[key] + first) as u64);
            let twice = once.insert(key, (once[key] + second) as u64);
            &&& twice == counts.insert(key, (counts[key] + first + second) as u64)
            &&& twice.dom().contains(other) == counts.dom().contains(other)
            &&& counts.dom().contains(other) ==> twice[other] == counts[other]
        }),
{
    let once = counts.insert(key, (counts[key] + first) as u64);
    let twice = once.insert(key, (once[key] + second) as u64);
    assert(twice =~= counts.insert(key, (counts[key] + first + second) as u64));
}

}
