//! How a block gets onto its level, or is kept aside.
use crate::sharechain::block_map::BlockMap;
use crate::sharechain::chain_model::{
    AddView, ChainView, MAX_EXTRA_SYNC, MAX_SYNC_STORE, MIN_SYNC_CHAIN, SAFETY_MARGIN,
};
use crate::sharechain::error::{InvalidReason, ShareChainError};
use crate::sharechain::p2block::{share, BlockView, P2Block};
use crate::sharechain::p2chain::{below, note_missing, ChainAddResult, P2Chain};
use crate::sharechain::p2chain_level::{LevelView, P2ChainLevel};
use crate::types::{BlockHash, FixedHash};
use std::sync::Arc;
use vstd::prelude::*;

verus! {

impl ChainView {
    /// A block of this height can be added: the heights leave room for sums.
    pub open spec fn takes(self, height: u64) -> bool {
        height + self.capacity() <= u64::MAX
    }

    /// The settings and what is kept aside are the same, and no shares have come to be kept.
    pub open spec fn keeps(self, before: ChainView) -> bool {
        &&& before.cached_shares is None ==> self.cached_shares is None
        &&& self.total_size == before.total_size
        &&& self.share_window == before.share_window
        &&& self.block_time == before.block_time
        &&& self.sync_store == before.sync_store
        &&& self.sync_order == before.sync_order
    }

    pub proof fn lemma_pushed(self, level: LevelView)
        requires
            self.ordered(),
            self.levels.len() > 0,
            level.wf(),
            level.height == self.top() + 1,
            self.takes(level.height),
        ensures
            self.pushed(level).ordered(),
            self.pushed(level).levels.len() > 0,
            self.pushed(level).top() == level.height,
            self.pushed(level).keeps(self),
            self.levels.len() <= self.capacity() ==> self.pushed(level).levels.len() <= self.capacity(),
            self.pushed(level).level(level.height as int) == Some(level),
    {
        let after = self.pushed(level);
        let gone: int = if self.full() {
            1
        } else {
            0
        };
        assert(self.levels[self.levels.len() - 1].wf());
        assert(after.levels.len() == self.levels.len() + 1 - gone);
        assert forall|i: int| 0 <= i < after.levels.len() implies (#[trigger] after.levels[i]).wf()
            && after.levels[i].height == self.levels[0].height + gone + i by {
            if i < after.levels.len() - 1 {
                assert(after.levels[i] == self.levels[i + gone]);
            } else {
                assert(after.levels[i] == level);
            }
        }
        assert(after.levels[0].height == self.levels[0].height + gone);
        assert(after.levels.last() == level);
    }

    pub proof fn lemma_grounded(self, level: LevelView)
        requires
            self.ordered(),
            self.levels.len() > 0,
            level.wf(),
            level.height == self.base() - 1,
        ensures
            self.grounded(level).ordered(),
            self.grounded(level).levels.len() == self.levels.len() + 1,
            self.grounded(level).base() == level.height,
            self.grounded(level).top() == self.top(),
            self.grounded(level).keeps(self),
            self.grounded(level).level(level.height as int) == Some(level),
    {
        let after = self.grounded(level);
        assert(after.levels[0] == level);
        assert forall|i: int| 0 <= i < after.levels.len() implies (#[trigger] after.levels[i]).wf()
            && after.levels[i].height == after.levels[0].height + i by {
            if i > 0 {
                assert(after.levels[i] == self.levels[i - 1]);
            }
        }
        assert(after.levels.last() == self.levels.last());
    }

    pub proof fn lemma_raised(self, height: int)
        requires
            self.ordered(),
            self.levels.len() > 0,
            self.top() < height,
            height + self.capacity() <= u64::MAX,
        ensures
            self.raised(height).ordered(),
            self.raised(height).levels.len() > 0,
            self.raised(height).top() == height - 1,
            self.raised(height).keeps(self),
            self.levels.len() <= self.capacity() ==> self.raised(height).levels.len() <= self.capacity(),
        decreases height - self.top(),
    {
        if self.top() < height - 1 {
            let level = LevelView::empty((self.top() + 1) as u64);
            self.lemma_pushed(level);
            self.pushed(level).lemma_raised(height);
        }
    }

    pub proof fn lemma_lowered(self, height: int)
        requires
            self.ordered(),
            self.levels.len() > 0,
            0 <= height < self.base(),
        ensures
            self.lowered(height).0.ordered(),
            self.lowered(height).0.levels.len() > 0,
            self.lowered(height).0.keeps(self),
            self.lowered(height).1 ==> self.lowered(height).0.base() == height + 1,
            self.levels.len() <= self.capacity() ==> self.lowered(height).0.levels.len() <= self.capacity(),
        decreases self.base(),
    {
        if self.base() > height + 1 && !self.full() {
            let level = LevelView::empty((self.base() - 1) as u64);
            self.lemma_grounded(level);
            self.grounded(level).lemma_lowered(height);
        }
    }

    /// Placing a block keeps the chain in order, and the block is found afterwards.
    pub proof fn lemma_placed(self, block: BlockView)
        requires
            self.ordered(),
            self.takes(block.height),
        ensures
            self.placed(block).0.ordered(),
            self.placed(block).0.keeps(self),
            self.placed(block).1 ==> self.placed(block).0.block_at(block.height as int, block.hash) == Some(block),
            self.levels.len() <= self.capacity() ==> self.placed(block).0.levels.len() <= self.capacity(),
    {
        let height = block.height as int;
        let alone = LevelView::of_block(block);
        BlockMap::lemma_find_at(alone.blocks, 0);
        assert(alone.wf());
        if self.levels.len() == 0 {
            let after = self.placed(block).0;
            assert(after.levels[0] == alone);
            assert(after.level(height) == Some(alone));
        } else {
            assert(self.levels[self.levels.len() - 1].wf());
            match self.level(height) {
                Some(level) => {
                    self.lemma_level(height);
                    level.lemma_with(block);
                    BlockMap::lemma_with(level.blocks, block);
                    self.lemma_with_level(
                        height,
                        LevelView { blocks: BlockMap::with(level.blocks, block), ..level },
                    );
                },
                None => {
                    if block.height > self.top() {
                        self.lemma_raised(height);
                        self.raised(height).lemma_pushed(alone);
                    } else if self.full() {
                    } else {
                        self.lemma_lowered(height);
                        let (lower, room) = self.lowered(height);
                        if room && !lower.full() {
                            lower.lemma_grounded(alone);
                        }
                    }
                },
            }
        }
    }

    /// More fuel than is needed changes nothing.
    pub proof fn lemma_run_fuel(self, work: Seq<(u64, BlockHash)>, outcome: AddView, fuel: nat, more: nat)
        requires
            self.run(work, outcome, fuel) is Some,
            fuel <= more,
        ensures
            self.run(work, outcome, more) == self.run(work, outcome, fuel),
        decreases fuel,
    {
        if work.len() > 0 && fuel > 0 {
            match self.step(work[0].0, work[0].1) {
                (_, Err(_)) => {},
                (next, Ok((added, links))) => {
                    let combined = outcome.combined(added);
                    if combined.missing.len() < crate::sharechain::chain_model::MAX_MISSING_PARENTS {
                        next.lemma_run_fuel(
                            ChainView::queued(work.skip(1), links, 0, work[0]),
                            combined,
                            (fuel - 1) as nat,
                            (more - 1) as nat,
                        );
                    }
                },
            }
        }
    }

    /// More fuel than is needed changes nothing.
    pub proof fn lemma_added_fuel(self, block: BlockView, fuel: nat, more: nat)
        requires
            self.added(block, fuel) is Some,
            fuel <= more,
        ensures
            self.added(block, more) == self.added(block, fuel),
    {
        match self.without_shares().placed(block) {
            (next, true) => {
                next.lemma_run_fuel(seq![(block.height, block.hash)], AddView::nothing(), fuel, more);
            },
            (_, false) => {},
        }
    }

    /// More fuel than is needed changes nothing.
    pub proof fn lemma_added_all_fuel(
        self,
        hashes: Seq<BlockHash>,
        from: int,
        outcome: AddView,
        fuel: nat,
        more: nat,
    )
        requires
            self.added_all(hashes, from, outcome, fuel) is Some,
            fuel <= more,
        ensures
            self.added_all(hashes, from, outcome, more) == self.added_all(hashes, from, outcome, fuel),
        decreases hashes.len() - from,
    {
        if 0 <= from < hashes.len() {
            match BlockMap::find(self.sync_store, hashes[from]) {
                None => {},
                Some(block) => {
                    self.lemma_added_fuel(block, fuel, more);
                    match self.added(block, fuel) {
                        Some((next, Ok(added))) => {
                            next.lemma_added_all_fuel(hashes, from + 1, outcome.combined(added), fuel, more);
                        },
                        _ => {},
                    }
                },
            }
        }
    }
}

/// What adding a block leads to does not depend on how many steps are allowed, as long as they are enough.
pub proof fn law_adding_is_determined(chain: ChainView, block: BlockView, a: nat, b: nat)
    requires
        chain.add_block(block, a) is Some,
        chain.add_block(block, b) is Some,
    ensures
        chain.add_block(block, a) == chain.add_block(block, b),
{
    if a <= b {
        lemma_add_block_fuel(chain, block, a, b);
    } else {
        lemma_add_block_fuel(chain, block, b, a);
    }
}

/// More fuel than is needed changes nothing.
pub proof fn lemma_add_block_fuel(chain: ChainView, block: BlockView, fuel: nat, more: nat)
    requires
        chain.add_block(block, fuel) is Some,
        fuel <= more,
    ensures
        chain.add_block(block, more) == chain.add_block(block, fuel),
{
    if !chain.takes(block.height) {
    } else if block.height >= chain.horizon() {
        let kept = chain.stored(block);
        let hashes = ChainView::linked_up(kept.sync_store, block);
        if hashes.len() > MIN_SYNC_CHAIN {
            kept.lemma_added_all_fuel(hashes, 0, AddView::nothing(), fuel, more);
        }
    } else if !ChainView::uncle_is_parent(block) {
        chain.lemma_added_fuel(block, fuel, more);
    }
}

impl P2Chain {
    /// Whether a block of this height can be added: the heights leave room for sums.
    pub fn takes(&self, height: u64) -> (can: bool)
        ensures
            can == self@.takes(height),
    {
        let margin: u64 = SAFETY_MARGIN + MAX_EXTRA_SYNC;
        self.total_size <= u64::MAX - margin && height <= u64::MAX - margin - self.total_size
    }
}

impl P2Chain {
    fn top_height(&self) -> (height: u64)
        requires
            self@.levels.len() > 0,
        ensures
            height == self@.top(),
    {
        let last: usize = self.levels.len() - 1;
        assert(self@.levels[last as int] == self.levels@[last as int]@);
        self.levels[last].height
    }

    fn push_level(&mut self, level: P2ChainLevel)
        requires
            old(self).ordered(),
            old(self)@.levels.len() > 0,
            level@.wf(),
            level@.height == old(self)@.top() + 1,
            old(self)@.takes(level@.height),
        ensures
            final(self).ordered(),
            final(self)@ == old(self)@.pushed(level@),
    {
        proof {
            self@.lemma_pushed(level@);
        }
        if self.is_full() {
            let _lowest = self.levels.remove(0);
        }
        self.levels.push(level);
        proof {
            assert(self@.levels =~= old(self)@.pushed(level@).levels);
        }
    }

    fn ground_level(&mut self, level: P2ChainLevel)
        requires
            old(self).ordered(),
            old(self)@.levels.len() > 0,
            level@.wf(),
            level@.height == old(self)@.base() - 1,
        ensures
            final(self).ordered(),
            final(self)@ == old(self)@.grounded(level@),
    {
        proof {
            self@.lemma_grounded(level@);
        }
        self.levels.insert(0, level);
        proof {
            assert(self@.levels =~= old(self)@.grounded(level@).levels);
        }
    }

    /// Puts a block on the level of its height. Levels between are filled in; `false` if the block lies below all
    /// others and there is no room for it.
    fn place_block(&mut self, block: Arc<P2Block>) -> (placed: bool)
        requires
            old(self).ordered(),
            old(self)@.takes(block@.height),
        ensures
            final(self).ordered(),
            (final(self)@, placed) == old(self)@.placed(block@),
    {
        proof {
            self@.lemma_placed(block@);
        }
        let height: u64 = block.height;
        // edge case no current chain, lets just add
        if self.levels.len() == 0 {
            self.levels.push(P2ChainLevel::new(block));
            proof {
                assert(self@.levels =~= seq![LevelView::of_block(block@)]);
            }
            return true;
        }
        if self.place_of(height).is_some() {
            self.put_block_at(block);
            return true;
        }
        if height > self.top_height() {
            let ghost target = self@.raised(height as int);
            while self.top_height() < height - 1
                invariant
                    self.ordered(),
                    self@.levels.len() > 0,
                    self@.top() < height,
                    self@.takes(height),
                    target == self@.raised(height as int),
                decreases height - self@.top(),
            {
                let next: u64 = self.top_height() + 1;
                proof {
                    self@.lemma_pushed(LevelView::empty(next));
                }
                self.push_level(P2ChainLevel::new_empty(next));
            }
            self.push_level(P2ChainLevel::new(block));
            return true;
        }
        // if its full we can exit as there is no chance of it being at the bottom end with a whole chain in front
        // of it.
        if self.is_full() {
            return false;
        }
        proof {
            assert(self@.levels[self@.levels.len() - 1].wf());
            self@.lemma_lowered(height as int);
        }
        let ghost target = self@.lowered(height as int);
        while self.lowest_height() > height + 1
            invariant
                self.ordered(),
                self@.levels.len() > 0,
                height < self@.base(),
                target == self@.lowered(height as int),
                self@.lowered(height as int).1 ==> self@.lowered(height as int).0.base() == height + 1,
                (target, block@.height) == (old(self)@.lowered(height as int), height),
                !old(self)@.full(),
                old(self)@.levels.len() > 0,
                old(self)@.level(height as int) is None,
                height <= old(self)@.top(),
            decreases self@.base(),
        {
            if self.is_full() {
                return false;
            }
            let next: u64 = self.lowest_height() - 1;
            self.ground_level(P2ChainLevel::new_empty(next));
        }
        if self.is_full() {
            return false;
        }
        self.ground_level(P2ChainLevel::new(block));
        true
    }

    /// Puts a block on its level and looks at it and at what it leads to.
    pub(crate) fn add_block_inner(&mut self, block: Arc<P2Block>) -> (result: Result<ChainAddResult, ShareChainError>)
        requires
            old(self).ordered(),
            old(self)@.takes(block@.height),
        ensures
            final(self).ordered(),
            final(self)@.sync_store == old(self)@.sync_store,
            final(self)@.total_size == old(self)@.total_size,
            exists|fuel: nat| #[trigger]
                old(self)@.added(block@, fuel) == Some((final(self)@, crate::sharechain::p2chain::add_outcome(result))),
            result matches Ok(added) ==> AddView::distinct(added@.missing),
    {
        self.cached_shares = None;
        assert(self@ == old(self)@.without_shares());
        proof {
            self@.lemma_placed(block@);
        }
        let height: u64 = block.height;
        let hash: FixedHash = block.hash;
        if !self.place_block(block) {
            assert(old(self)@.added(block@, 0) == Some((self@, Ok::<_, ShareChainError>(AddView::nothing()))));
            return Ok(ChainAddResult::empty());
        }
        let ghost placed = self@;
        let result = self.verify_chain(height, hash);
        proof {
            let fuel = choose|fuel: nat| #[trigger]
                placed.run(seq![(height, hash)], AddView::nothing(), fuel) == Some(
                    (self@, crate::sharechain::p2chain::add_outcome(result)),
                );
            assert(old(self)@.added(block@, fuel) == Some((self@, crate::sharechain::p2chain::add_outcome(result))));
        }
        result
    }

    /// Keeps a block aside; the one that came first leaves if there are too many.
    fn store_block(&mut self, block: &Arc<P2Block>)
        requires
            old(self).ordered(),
            old(self)@.takes(block@.height),
        ensures
            final(self).ordered(),
            final(self)@ == old(self)@.stored(block@),
    {
        proof {
            BlockMap::lemma_without(self@.sync_store, self@.sync_order.last());
        }
        if self.sync_store.len() > MAX_SYNC_STORE {
            match self.sync_store_fifo_list.pop_back() {
                Some(hash) => {
                    self.sync_store.remove(&hash);
                },
                None => {},
            }
        }
        let ghost store = self@.sync_store;
        assert forall|i: int| 0 <= i < store.len() implies (#[trigger] store[i]).height + self@.capacity()
            <= u64::MAX by {
            if old(self)@.sync_store.len() > MAX_SYNC_STORE && old(self)@.sync_order.len() > 0 && BlockMap::has(
                old(self)@.sync_store,
                old(self)@.sync_order.last(),
            ) {
                let k = BlockMap::index_in(old(self)@.sync_store, old(self)@.sync_order.last());
                let j = if i < k {
                    i
                } else {
                    i + 1
                };
                assert(store[i] == old(self)@.sync_store[j]);
            }
        }
        self.sync_store.insert(share(block));
        self.sync_store_fifo_list.push_front(block.hash);
        proof {
            assert(self@.sync_order =~= old(self)@.stored(block@).sync_order);
            let after = self@.sync_store;
            assert forall|i: int| 0 <= i < after.len() implies (#[trigger] after[i]).height + self@.capacity()
                <= u64::MAX by {
                if i < store.len() {
                    assert(after[i] == store[i] || after[i] == block@);
                }
            }
            assert(self@ =~= old(self)@.stored(block@));
        }
    }

    /// The first stored block that lies on the one with the hash.
    fn find_child(&self, hash: &FixedHash) -> (child: Option<FixedHash>)
        ensures
            child == (match ChainView::child(self@.sync_store, *hash, 0) {
                Some(block) => Some(block.hash),
                None => None,
            }),
    {
        let mut i: usize = 0;
        while i < self.sync_store.blocks.len()
            invariant
                i <= self.sync_store.blocks@.len(),
                ChainView::child(self@.sync_store, *hash, 0) == ChainView::child(self@.sync_store, *hash, i as int),
            decreases self.sync_store.blocks@.len() - i,
        {
            assert(self@.sync_store[i as int] == self.sync_store.blocks@[i as int]@);
            if self.sync_store.blocks[i].prev_hash == *hash {
                return Some(self.sync_store.blocks[i].hash);
            }
            i = i + 1;
        }
        None
    }

    /// The stored blocks that link up with a block: itself, those below it and those above it.
    fn linked_up(&self, block: &P2Block) -> (hashes: Vec<FixedHash>)
        requires
            self.ordered(),
        ensures
            hashes@ == ChainView::linked_up(self@.sync_store, block@),
    {
        let ghost store = self@.sync_store;
        let ghost target = ChainView::linked_up(store, block@);
        let ghost up = ChainView::descendants(store, block@.hash, store.len());
        let mut hashes: Vec<FixedHash> = Vec::new();
        hashes.push(block.hash);
        let mut current: FixedHash = block.prev_hash;
        let mut left: usize = self.sync_store.len();
        let ghost lower = seq![block@.hash] + ChainView::ancestors(store, block@.prev_hash, store.len());
        assert(hashes@ + ChainView::ancestors(store, current, left as nat) =~= lower);
        while left > 0
            invariant
                self.ordered(),
                store == self@.sync_store,
                hashes@ + ChainView::ancestors(store, current, left as nat) == lower,
            decreases left,
        {
            match self.sync_store.get(&current) {
                Some(parent) => {
                    let ghost before = hashes@;
                    let ghost rest = ChainView::ancestors(store, parent@.prev_hash, (left - 1) as nat);
                    hashes.push(current);
                    assert(before + (seq![current] + rest) =~= hashes@ + rest);
                    current = parent.prev_hash;
                    left = left - 1;
                },
                None => {
                    assert(hashes@ + ChainView::ancestors(store, current, left as nat) =~= hashes@);
                    left = 0;
                    assert(hashes@ + ChainView::ancestors(store, current, left as nat) =~= hashes@);
                },
            }
        }
        assert(hashes@ =~= lower);
        current = block.hash;
        left = self.sync_store.len();
        assert(hashes@ + ChainView::descendants(store, current, left as nat) =~= target);
        while left > 0
            invariant
                self.ordered(),
                store == self@.sync_store,
                hashes@ + ChainView::descendants(store, current, left as nat) == target,
            decreases left,
        {
            match self.find_child(&current) {
                Some(child) => {
                    let ghost before = hashes@;
                    let ghost rest = ChainView::descendants(store, child, (left - 1) as nat);
                    hashes.push(current);
                    assert(before + (seq![current] + rest) =~= hashes@ + rest);
                    current = child;
                    left = left - 1;
                },
                None => {
                    assert(hashes@ + ChainView::descendants(store, current, left as nat) =~= hashes@);
                    left = 0;
                    assert(hashes@ + ChainView::descendants(store, current, left as nat) =~= hashes@);
                },
            }
        }
        assert(hashes@ =~= target);
        hashes
    }

    /// Adds stored blocks, one after the other.
    fn add_stored(&mut self, hashes: &Vec<FixedHash>) -> (result: Result<ChainAddResult, ShareChainError>)
        requires
            old(self).ordered(),
        ensures
            final(self).ordered(),
            final(self)@.total_size == old(self)@.total_size,
            exists|fuel: nat| #[trigger]
                old(self)@.added_all(hashes@, 0, AddView::nothing(), fuel) == Some(
                    (final(self)@, crate::sharechain::p2chain::add_outcome(result)),
                ),
            result matches Ok(added) ==> AddView::distinct(added@.missing),
    {
        let ghost start = self@;
        let mut new_tip = ChainAddResult::empty();
        let ghost mut spent: nat = 0;
        let mut i: usize = 0;
        while i < hashes.len()
            invariant
                i <= hashes@.len(),
                self.ordered(),
                start == old(self)@,
                self@.total_size == start.total_size,
                AddView::distinct(new_tip@.missing),
                forall|f: nat|
                    f >= spent ==> #[trigger] start.added_all(hashes@, 0, AddView::nothing(), f) == self@.added_all(
                        hashes@,
                        i as int,
                        new_tip@,
                        f,
                    ),
            decreases hashes@.len() - i,
        {
            let ghost before = self@;
            let ghost outcome = new_tip@;
            let block = match self.sync_store.get(&hashes[i]) {
                Some(block) => share(block),
                None => {
                    assert(start.added_all(hashes@, 0, AddView::nothing(), spent) == Some(
                        (self@, Err::<AddView, _>(ShareChainError::BlockNotFound)),
                    ));
                    return Err(ShareChainError::BlockNotFound);
                },
            };
            proof {
                BlockMap::lemma_found(self@.sync_store, hashes@[i as int]);
                let k = BlockMap::index_in(self@.sync_store, hashes@[i as int]);
                assert(self@.sync_store[k].height + self@.capacity() <= u64::MAX);
            }
            let added = self.add_block_inner(block);
            let ghost fuel = choose|fuel: nat| #[trigger]
                before.added(block@, fuel) == Some((self@, crate::sharechain::p2chain::add_outcome(added)));
            let ghost most: nat = if spent < fuel {
                fuel
            } else {
                spent
            };
            proof {
                assert forall|f: nat| f >= most implies #[trigger] before.added(block@, f) == Some(
                    (self@, crate::sharechain::p2chain::add_outcome(added)),
                ) by {
                    before.lemma_added_fuel(block@, fuel, f);
                }
            }
            match added {
                Ok(tip) => {
                    let ghost tip_view = tip@;
                    new_tip.combine(tip);
                    proof {
                        assert forall|f: nat| f >= most implies #[trigger] start.added_all(
                            hashes@,
                            0,
                            AddView::nothing(),
                            f,
                        ) == self@.added_all(hashes@, i + 1, new_tip@, f) by {
                            assert(before.added(block@, f) == Some((self@, Ok::<_, ShareChainError>(tip_view))));
                            assert(start.added_all(hashes@, 0, AddView::nothing(), f) == before.added_all(
                                hashes@,
                                i as int,
                                outcome,
                                f,
                            ));
                        }
                        spent = most;
                    }
                },
                Err(e) => {
                    proof {
                        assert(before.added(block@, most) == Some((self@, Err::<AddView, _>(e))));
                        assert(start.added_all(hashes@, 0, AddView::nothing(), most) == before.added_all(
                            hashes@,
                            i as int,
                            outcome,
                            most,
                        ));
                    }
                    return Err(e);
                },
            }
            i = i + 1;
        }
        assert(start.added_all(hashes@, 0, AddView::nothing(), spent) == Some(
            (self@, Ok::<_, ShareChainError>(new_tip@)),
        ));
        Ok(new_tip)
    }

    /// Notes what a block that was kept aside needs and is not there.
    fn note_stored(&self, block: &P2Block, new_tip: ChainAddResult) -> (result: Result<
        ChainAddResult,
        ShareChainError,
    >)
        requires
            self.ordered(),
            AddView::distinct(new_tip@.missing),
        ensures
            crate::sharechain::p2chain::add_outcome(result) == self@.stored_outcome(block@, new_tip@),
            result matches Ok(added) ==> AddView::distinct(added@.missing),
    {
        let ghost wanted = self@.stored_outcome(block@, new_tip@);
        let mut outcome = new_tip;
        let lower: u64 = below(block.height);
        let mut on_main_chain = false;
        match self.get_block_at_height(lower, &block.prev_hash) {
            Some(parent) => {
                proof {
                    self@.lemma_block(lower as int, block@.prev_hash);
                }
                on_main_chain = self.is_chain_block(parent.height, block.prev_hash);
            },
            None => {
                note_missing(&mut outcome.missing_blocks, block.prev_hash, lower);
            },
        }
        let ghost tip = outcome.new_tip;
        let ghost target = self@.stored_uncles(block@.uncles, 0, on_main_chain, outcome.missing_blocks@);
        let mut i: usize = 0;
        while i < block.uncles.len()
            invariant
                i <= block.uncles@.len(),
                self.ordered(),
                AddView::distinct(outcome.missing_blocks@),
                outcome.new_tip == tip,
                wanted == self@.stored_outcome(block@, new_tip@),
                wanted == (match target {
                    Ok(missing) => Ok::<AddView, ShareChainError>(AddView { new_tip: tip, missing }),
                    Err(error) => Err(error),
                }),
                target == self@.stored_uncles(block@.uncles, i as int, on_main_chain, outcome.missing_blocks@),
            decreases block.uncles@.len() - i,
        {
            let (height, hash) = block.uncles[i];
            if self.get_block_at_height(height, &hash).is_some() {
                // Uncle in main chain is ok if this block is not on the main chain
                if on_main_chain && self.is_chain_block(height, hash) {
                    return Err(ShareChainError::UncleInMainChain { height, hash });
                }
            } else {
                note_missing(&mut outcome.missing_blocks, hash, height);
            }
            i = i + 1;
        }
        Ok(outcome)
    }

    /// Adds a block to the chain. One too far in front is kept aside, and if enough of those link up they are added;
    /// any other goes to its level. One so high that it could never be let in is not even kept.
    pub fn add_block_to_chain(&mut self, block: Arc<P2Block>) -> (result: Result<ChainAddResult, ShareChainError>)
        requires
            old(self).wf(),
        ensures
            final(self).wf(),
            final(self)@.total_size == old(self)@.total_size,
            exists|fuel: nat| #[trigger]
                old(self)@.add_block(block@, fuel) == Some(
                    (final(self)@, crate::sharechain::p2chain::add_outcome(result)),
                ),
            result matches Ok(added) ==> AddView::distinct(added@.missing),
    {
        proof {
            if self@.levels.len() > 0 {
                assert(self@.levels[0].wf());
            }
        }
        if !self.takes(block.height) {
            let result = self.note_stored(&block, ChainAddResult::empty());
            assert(old(self)@.add_block(block@, 0) == Some((self@, crate::sharechain::p2chain::add_outcome(result))));
            return result;
        }
        let first_index: u64 = self.lowest_height();
        // lets check where this is, do we need to store it in the sync store
        if block.height >= first_index + self.total_size + SAFETY_MARGIN + MAX_EXTRA_SYNC {
            self.store_block(&block);
            let ghost kept = self@;
            // lets see how long a chain we can build with this block
            let blocks_to_add = self.linked_up(&block);
            let mut new_tip = ChainAddResult::empty();
            let ghost mut fuel: nat = 0;
            if blocks_to_add.len() > MIN_SYNC_CHAIN {
                let added = self.add_stored(&blocks_to_add);
                proof {
                    fuel = choose|fuel: nat| #[trigger]
                        kept.added_all(blocks_to_add@, 0, AddView::nothing(), fuel) == Some(
                            (self@, crate::sharechain::p2chain::add_outcome(added)),
                        );
                }
                match added {
                    Ok(tip) => {
                        new_tip = tip;
                    },
                    Err(e) => {
                        proof {
                            assert(old(self)@.add_block(block@, fuel) == Some((self@, Err::<AddView, _>(e))));
                            crate::sharechain::chain_laws::law_kept_shares_are_up_to_date(old(self)@, block@, fuel);
                        }
                        return Err(e);
                    },
                }
            }
            let result = self.note_stored(&block, new_tip);
            proof {
                assert(old(self)@.add_block(block@, fuel) == Some(
                    (self@, crate::sharechain::p2chain::add_outcome(result)),
                ));
                crate::sharechain::chain_laws::law_kept_shares_are_up_to_date(old(self)@, block@, fuel);
            }
            return result;
        }
        // Uncle cannot be the same as prev_hash
        let mut i: usize = 0;
        while i < block.uncles.len()
            invariant
                i <= block.uncles@.len(),
                forall|j: int| 0 <= j < i ==> (#[trigger] block@.uncles[j]).1 != block@.prev_hash,
                self@ == old(self)@,
                self.wf(),
                self@.takes(block@.height),
                block@.height < self@.horizon(),
            decreases block.uncles@.len() - i,
        {
            if block.uncles[i].1 == block.prev_hash {
                proof {
                    assert(block@.uncles[i as int].1 == block@.prev_hash);
                    assert(ChainView::uncle_is_parent(block@));
                    assert(old(self)@.add_block(block@, 0) == Some(
                        (
                            self@,
                            Err::<AddView, _>(ShareChainError::InvalidBlock { reason: InvalidReason::UncleIsParent }),
                        ),
                    ));
                }
                return Err(ShareChainError::InvalidBlock { reason: InvalidReason::UncleIsParent });
            }
            i = i + 1;
        }
        let result = self.add_block_inner(share(&block));
        proof {
            let fuel = choose|fuel: nat| #[trigger]
                old(self)@.added(block@, fuel) == Some((self@, crate::sharechain::p2chain::add_outcome(result)));
            assert(!ChainView::uncle_is_parent(block@));
            assert(old(self)@.add_block(block@, fuel) == Some(
                (self@, crate::sharechain::p2chain::add_outcome(result)),
            ));
            crate::sharechain::chain_laws::law_kept_shares_are_up_to_date(old(self)@, block@, fuel);
        }
        result
    }
}

}
