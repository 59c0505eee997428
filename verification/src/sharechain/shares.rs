//! Shares that miners are paid by.
use crate::bytes::{bytes_equal, copy_bytes};
use crate::sharechain::p2block::TariAddress;
use vstd::prelude::*;

verus! {

/// What one miner has earned.
pub struct MinerShare {
    /// The miner.
    pub address: TariAddress,
    /// How much the miner gets of each payout, relative to the others.
    pub shares: u64,
    /// Free bytes for the miner's coinbase.
    pub coinbase_extra: Vec<u8>,
}

/// What a [`MinerShare`] holds.
#[verifier::ext_equal]
pub struct ShareView {
    pub miner: Seq<u8>,
    pub shares: u64,
    pub extra: Seq<u8>,
}

impl View for MinerShare {
    type V = ShareView;

    open spec fn view(&self) -> ShareView {
        ShareView { miner: self.address@, shares: self.shares, extra: self.coinbase_extra@ }
    }
}

impl Clone for MinerShare {
    fn clone(&self) -> (copy: Self)
        ensures
            copy@ == self@,
    {
        MinerShare {
            address: self.address.clone(),
            shares: self.shares,
            coinbase_extra: copy_bytes(&self.coinbase_extra),
        }
    }
}

/// The shares of all miners; no miner occurs twice.
pub struct ShareTable {
    /// The miners with what they have earned.
    pub entries: Vec<MinerShare>,
}

impl ShareTable {
    /// The shares and the free bytes of each miner.
    pub open spec fn map(&self) -> Map<Seq<u8>, (u64, Seq<u8>)> {
        ShareTable::map_of(self@)
    }

    /// No miner occurs twice.
    pub open spec fn distinct(list: Seq<ShareView>) -> bool {
        forall|i: int, j: int|
            0 <= i < list.len() && 0 <= j < list.len() && (#[trigger] list[i]).miner == (#[trigger] list[j]).miner
                ==> i == j
    }

    /// The miner occurs.
    pub open spec fn has(list: Seq<ShareView>, miner: Seq<u8>) -> bool {
        exists|i: int| 0 <= i < list.len() && (#[trigger] list[i]).miner == miner
    }

    /// Where the miner is.
    pub open spec fn place(list: Seq<ShareView>, miner: Seq<u8>) -> int {
        choose|i: int| 0 <= i < list.len() && (#[trigger] list[i]).miner == miner
    }

    /// The shares and the free bytes of each miner in a list.
    pub open spec fn map_of(list: Seq<ShareView>) -> Map<Seq<u8>, (u64, Seq<u8>)> {
        Map::new(
            |miner: Seq<u8>| ShareTable::has(list, miner),
            |miner: Seq<u8>|
                (
                    list[ShareTable::place(list, miner)].shares,
                    list[ShareTable::place(list, miner)].extra,
                ),
        )
    }

    /// `list` names each miner of the map once, in some order.
    pub open spec fn lists(list: Seq<ShareView>, table: Map<Seq<u8>, (u64, Seq<u8>)>) -> bool {
        ShareTable::distinct(list) && ShareTable::map_of(list) == table
    }

    /// No miner occurs twice.
    pub open spec fn wf(&self) -> bool {
        ShareTable::distinct(self@)
    }

    /// A sum of shares, as far as it fits.
    pub open spec fn sum(a: u64, b: u64) -> u64 {
        if a + b > u64::MAX {
            u64::MAX
        } else {
            (a + b) as u64
        }
    }

    /// The table with more shares for a miner, whose free bytes are those given.
    pub open spec fn credited(table: Map<Seq<u8>, (u64, Seq<u8>)>, miner: Seq<u8>, shares: u64, extra: Seq<u8>) -> Map<
        Seq<u8>,
        (u64, Seq<u8>),
    > {
        if table.dom().contains(miner) {
            table.insert(miner, (ShareTable::sum(table[miner].0, shares), extra))
        } else {
            table.insert(miner, (shares, extra))
        }
    }

    proof fn lemma_place(list: Seq<ShareView>, i: int)
        requires
            ShareTable::distinct(list),
            0 <= i < list.len(),
        ensures
            ShareTable::has(list, list[i].miner),
            ShareTable::place(list, list[i].miner) == i,
    {
    }

    proof fn lemma_update(list: Seq<ShareView>, i: int, entry: ShareView)
        requires
            ShareTable::distinct(list),
            0 <= i < list.len(),
            list[i].miner == entry.miner,
        ensures
            ShareTable::distinct(list.update(i, entry)),
            ShareTable::map_of(list.update(i, entry)) == ShareTable::map_of(list).insert(
                entry.miner,
                (entry.shares, entry.extra),
            ),
    {
        let after = list.update(i, entry);
        assert forall|a: int, b: int|
            0 <= a < after.len() && 0 <= b < after.len() && (#[trigger] after[a]).miner == (
            #[trigger] after[b]).miner implies a == b by {
            assert(after[a].miner == list[a].miner);
            assert(after[b].miner == list[b].miner);
        }
        let left = ShareTable::map_of(after);
        let right = ShareTable::map_of(list).insert(entry.miner, (entry.shares, entry.extra));
        assert forall|k: Seq<u8>| left.dom().contains(k) <==> right.dom().contains(k) by {
            if left.dom().contains(k) {
                let j = ShareTable::place(after, k);
                assert(list[j].miner == after[j].miner);
            }
            if right.dom().contains(k) {
                if k == entry.miner {
                    assert(after[i].miner == k);
                } else {
                    let j = ShareTable::place(list, k);
                    assert(after[j].miner == list[j].miner);
                }
            }
        }
        assert forall|k: Seq<u8>| left.dom().contains(k) implies left[k] == right[k] by {
            let j = ShareTable::place(after, k);
            assert(after[j].miner == k);
            assert(list[j].miner == k);
            ShareTable::lemma_place(list, j);
            ShareTable::lemma_place(after, j);
            if k == entry.miner {
                ShareTable::lemma_place(after, i);
                ShareTable::lemma_place(list, i);
            }
        }
        assert(left =~= right);
    }

    proof fn lemma_push(list: Seq<ShareView>, entry: ShareView)
        requires
            ShareTable::distinct(list),
            !ShareTable::has(list, entry.miner),
        ensures
            ShareTable::distinct(list.push(entry)),
            ShareTable::map_of(list.push(entry)) == ShareTable::map_of(list).insert(
                entry.miner,
                (entry.shares, entry.extra),
            ),
    {
        let after = list.push(entry);
        assert forall|a: int, b: int|
            0 <= a < after.len() && 0 <= b < after.len() && (#[trigger] after[a]).miner == (
            #[trigger] after[b]).miner implies a == b by {
            if a < list.len() {
                assert(after[a] == list[a]);
            }
            if b < list.len() {
                assert(after[b] == list[b]);
            }
        }
        let left = ShareTable::map_of(after);
        let right = ShareTable::map_of(list).insert(entry.miner, (entry.shares, entry.extra));
        assert(after[list.len() as int] == entry);
        assert forall|k: Seq<u8>| left.dom().contains(k) <==> right.dom().contains(k) by {
            if left.dom().contains(k) {
                let j = ShareTable::place(after, k);
                if j < list.len() {
                    assert(list[j].miner == after[j].miner);
                }
            }
            if right.dom().contains(k) && k != entry.miner {
                let j = ShareTable::place(list, k);
                assert(after[j].miner == list[j].miner);
            }
        }
        assert forall|k: Seq<u8>| left.dom().contains(k) implies left[k] == right[k] by {
            let j = ShareTable::place(after, k);
            assert(after[j].miner == k);
            ShareTable::lemma_place(after, j);
            if j < list.len() {
                assert(list[j].miner == k);
                ShareTable::lemma_place(list, j);
            }
        }
        assert(left =~= right);
    }

    /// A table without miners.
    pub fn new() -> (table: ShareTable)
        ensures
            table.wf(),
            table.map() == Map::<Seq<u8>, (u64, Seq<u8>)>::empty(),
    {
        let table = ShareTable { entries: Vec::new() };
        assert(table.map() =~= Map::<Seq<u8>, (u64, Seq<u8>)>::empty());
        table
    }

    /// Whether there is no miner.
    pub fn is_empty(&self) -> (empty: bool)
        ensures
            empty <==> self.map() == Map::<Seq<u8>, (u64, Seq<u8>)>::empty(),
    {
        if self.entries.len() == 0 {
            assert(self.map() =~= Map::<Seq<u8>, (u64, Seq<u8>)>::empty());
            true
        } else {
            assert(self@[0].miner == self@[0].miner);
            assert(self.map().dom().contains(self@[0].miner));
            assert(!Map::<Seq<u8>, (u64, Seq<u8>)>::empty().dom().contains(self@[0].miner));
            false
        }
    }

    fn position(&self, miner: &[u8]) -> (place: Option<usize>)
        requires
            self.wf(),
        ensures
            place is Some <==> self.map().dom().contains(miner@),
            place matches Some(i) ==> i < self.entries@.len() && self@[i as int].miner == miner@
                && ShareTable::place(self@, miner@) == i,
    {
        let mut i: usize = 0;
        while i < self.entries.len()
            invariant
                i <= self.entries@.len(),
                self.wf(),
                forall|j: int| 0 <= j < i ==> (#[trigger] self@[j]).miner != miner@,
            decreases self.entries@.len() - i,
        {
            assert(self@[i as int] == self.entries@[i as int]@);
            if bytes_equal(&self.entries[i].address.bytes, miner) {
                proof {
                    ShareTable::lemma_place(self@, i as int);
                }
                return Some(i);
            }
            i = i + 1;
        }
        None
    }

    /// The shares and the free bytes of a miner.
    pub fn get(&self, address: &TariAddress) -> (entry: Option<&MinerShare>)
        requires
            self.wf(),
        ensures
            entry is Some <==> self.map().dom().contains(address@),
            entry matches Some(e) ==> e@.miner == address@ && self.map()[address@] == (e@.shares, e@.extra),
    {
        match self.position(&address.bytes) {
            Some(i) => {
                assert(self@[i as int] == self.entries@[i as int]@);
                Some(&self.entries[i])
            },
            None => None,
        }
    }

    /// Sets the shares and the free bytes of a miner.
    pub fn insert(&mut self, address: TariAddress, shares: u64, coinbase_extra: Vec<u8>)
        requires
            old(self).wf(),
        ensures
            final(self).wf(),
            final(self).map() == old(self).map().insert(address@, (shares, coinbase_extra@)),
    {
        let place = self.position(&address.bytes);
        let entry = MinerShare { address, shares, coinbase_extra };
        let ghost view = entry@;
        match place {
            Some(i) => {
                proof {
                    ShareTable::lemma_update(self@, i as int, view);
                }
                self.entries.set(i, entry);
                assert(self@ =~= old(self)@.update(i as int, view));
            },
            None => {
                proof {
                    ShareTable::lemma_push(self@, view);
                }
                self.entries.push(entry);
                assert(self@ =~= old(self)@.push(view));
            },
        }
    }

    /// Gives a miner more shares, and sets the miner's free bytes.
    pub fn credit(&mut self, address: TariAddress, shares: u64, coinbase_extra: Vec<u8>)
        requires
            old(self).wf(),
        ensures
            final(self).wf(),
            final(self).map() == ShareTable::credited(old(self).map(), address@, shares, coinbase_extra@),
    {
        let known: Option<u64> = match self.get(&address) {
            Some(entry) => Some(entry.shares),
            None => None,
        };
        match known {
            Some(current) => {
                let total: u64 = if current > u64::MAX - shares {
                    u64::MAX
                } else {
                    current + shares
                };
                self.insert(address, total, coinbase_extra);
            },
            None => {
                self.insert(address, shares, coinbase_extra);
            },
        }
    }
}

impl View for ShareTable {
    type V = Seq<ShareView>;

    open spec fn view(&self) -> Seq<ShareView> {
        self.entries@.map_values(|s: MinerShare| s@)
    }
}

impl Clone for ShareTable {
    fn clone(&self) -> (copy: Self)
        ensures
            copy@ == self@,
    {
        let mut entries: Vec<MinerShare> = Vec::new();
        let mut i: usize = 0;
        while i < self.entries.len()
            invariant
                i <= self.entries@.len(),
                entries@.len() == i,
                forall|j: int| 0 <= j < i ==> entries@[j]@ == (#[trigger] self.entries@[j])@,
            decreases self.entries@.len() - i,
        {
            entries.push(self.entries[i].clone());
            i = i + 1;
        }
        let copy = ShareTable { entries };
        assert(copy@ =~= self@);
        copy
    }
}

/// Each credit adds to what the miner has and leaves the others alone.
pub proof fn law_credit_adds_up(
    table: Map<Seq<u8>, (u64, Seq<u8>)>,
    miner: Seq<u8>,
    other: Seq<u8>,
    shares: u64,
    extra: Seq<u8>,
)
    requires
        table.dom().contains(miner) ==> table[miner].0 + shares <= u64::MAX,
        other != miner,
    ensures
        ({
            let after = ShareTable::credited(table, miner, shares, extra);
            let before: int = if table.dom().contains(miner) {
                table[miner].0 as int
            } else {
                0
            };
            &&& after.dom().contains(miner)
            &&& after[miner].0 == before + shares
            &&& after[miner].1 == extra
            &&& after.dom().contains(other) <==> table.dom().contains(other)
            &&& table.dom().contains(other) ==> after[other] == table[other]
        }),
{
}

}
