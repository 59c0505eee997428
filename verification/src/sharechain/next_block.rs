//! The block that comes next on the share chain.
use crate::sharechain::chain_model::{ChainView, MAX_UNCLE_AGE};
use crate::sharechain::error::ShareChainError;
use crate::sharechain::in_memory::InMemoryShareChain;
use crate::sharechain::p2block::{BlockView, P2Block, P2BlockBuilder, TariAddress};
use crate::sharechain::share_rules::{UNCLE_LIMIT, UNCLE_START_HEIGHT};
use crate::types::{AccumulatedDifficulty, BlockHash, FixedHash};
use std::sync::Arc;
use vstd::prelude::*;

verus! {

impl ChainView {
    /// The next block, before it is hashed.
    pub open spec fn next_block(self, uncles: Seq<(u64, BlockHash)>, miner: Seq<u8>, extra: Seq<u8>, timestamp: u64) -> (
        BlockView,
        int,
    ) {
        let (parent, work) = self.next_parent();
        let total = if parent == FixedHash::spec_zero() {
            1
        } else {
            work + self.uncle_work(uncles, uncles.len() as int) + 1
        };
        (
            BlockView {
                prev_hash: parent,
                height: self.next_height(),
                uncles,
                coinbase_extra: extra,
                total_pow: total as u128,
                ..BlockView::blank(timestamp, miner)
            },
            total,
        )
    }

    /// The work of the block below and of the uncles of the next block does not fit.
    pub open spec fn next_work_overflows(self, uncles: Seq<(u64, BlockHash)>) -> bool {
        let (parent, work) = self.next_parent();
        let with_uncles = work + self.uncle_work(uncles, uncles.len() as int);
        with_uncles > u128::MAX || parent != FixedHash::spec_zero() && with_uncles + 1 > u128::MAX
    }
}

impl ChainView {
    /// Whether a block is the next one for a miner: it lies on the tip, one level up, or is the first of a chain without a
    /// tip; its uncles are those that are free; and it claims the work of the tip, of its uncles and its own, which is 1.
    pub open spec fn follows_tip(self, block: BlockView, miner: Seq<u8>, extra: Seq<u8>, timestamp: u64) -> bool {
        &&& block.miner == miner
        &&& block.coinbase_extra == extra
        &&& block.timestamp == timestamp
        &&& !block.verified
        &&& block.target_difficulty == 1
        &&& match self.tip() {
            None => block.height == 0 && block.prev_hash == FixedHash::spec_zero() && block.total_pow == 1
                && block.uncles.len() == 0,
            Some(tip) => {
                &&& self.current_tip < u64::MAX ==> block.height == self.current_tip + 1
                &&& self.offers(block.height, block.uncles)
                &&& tip.main_block() matches Some(main) ==> {
                    &&& block.prev_hash == main.hash
                    &&& main.hash != FixedHash::spec_zero() ==> block.total_pow == main.total_pow + self.uncle_work(
                        block.uncles,
                        block.uncles.len() as int,
                    ) + 1
                }
            },
        }
    }
}

impl InMemoryShareChain {
    /// Whether a block is there and its parent is in the main chain.
    fn lies_on_main_chain(&self, height: u64, hash: FixedHash) -> (linked: bool)
        requires
            self.wf(),
        ensures
            linked == self@.chain.lies_on_main_chain((height, hash)),
    {
        match self.p2_chain.get_block_at_height(height, &hash) {
            Some(block) => match self.p2_chain.get_parent_block(block) {
                Some(parent) => {
                    proof {
                        self@.chain.lemma_block(height as int, hash);
                        self@.chain.lemma_block(block@.height - 1, block@.prev_hash);
                    }
                    self.p2_chain.is_chain_block(parent.height, parent.hash)
                },
                None => false,
            },
            None => false,
        }
    }

    /// The blocks on the levels that may hold uncles, and the hashes that are used there.
    fn uncle_candidates(&self, new_height: u64) -> (result: Result<
        (Vec<(u64, FixedHash)>, Vec<FixedHash>),
        ShareChainError,
    >)
        requires
            self.wf(),
            new_height >= MAX_UNCLE_AGE,
        ensures
            match result {
                Ok((candidates, used)) => self@.chain.uncle_candidates(
                    new_height - MAX_UNCLE_AGE,
                    new_height as int,
                ) == Ok::<_, ShareChainError>((candidates@, used@)),
                Err(error) => self@.chain.uncle_candidates(new_height - MAX_UNCLE_AGE, new_height as int) == Err::<
                    (Seq<(u64, FixedHash)>, Seq<FixedHash>),
                    ShareChainError,
                >(error),
            },
    {
        let mut candidates: Vec<(u64, FixedHash)> = Vec::new();
        let mut used: Vec<FixedHash> = Vec::new();
        let ghost chain = self@.chain;
        let ghost lowest = new_height - MAX_UNCLE_AGE;
        let mut height: u64 = new_height - MAX_UNCLE_AGE;
        assert(chain.uncle_candidates(lowest, new_height as int) == (match chain.uncle_candidates(
            height as int,
            new_height as int,
        ) {
            Ok((c, u)) => Ok::<_, ShareChainError>((candidates@ + c, used@ + u)),
            Err(error) => Err(error),
        })) by {
            match chain.uncle_candidates(height as int, new_height as int) {
                Ok((c, u)) => {
                    assert(candidates@ + c =~= c);
                    assert(used@ + u =~= u);
                },
                Err(_) => {},
            }
        }
        while height < new_height
            invariant
                self.wf(),
                chain == self@.chain,
                height <= new_height,
                lowest == new_height - MAX_UNCLE_AGE,
                chain.uncle_candidates(lowest, new_height as int) == (match chain.uncle_candidates(
                    height as int,
                    new_height as int,
                ) {
                    Ok((c, u)) => Ok::<_, ShareChainError>((candidates@ + c, used@ + u)),
                    Err(error) => Err(error),
                }),
            decreases new_height - height,
        {
            let ghost before = candidates@;
            let ghost used_before = used@;
            match self.p2_chain.level_at_height(height) {
                Some(level) => {
                    let block = match level.block_in_main_chain() {
                        Some(block) => block,
                        None => {
                            return Err(ShareChainError::BlockNotFound);
                        },
                    };
                    // Blocks in the main chain can't be uncles
                    used.push(block.hash);
                    let mut i: usize = 0;
                    while i < block.uncles.len()
                        invariant
                            i <= block.uncles@.len(),
                            used@ == used_before + (seq![block@.hash] + block@.uncles.take(i as int).map_values(
                                |u: (u64, BlockHash)| u.1,
                            )),
                        decreases block.uncles@.len() - i,
                    {
                        used.push(block.uncles[i].1);
                        i = i + 1;
                        assert(used@ =~= used_before + (seq![block@.hash] + block@.uncles.take(i as int).map_values(
                            |u: (u64, BlockHash)| u.1,
                        )));
                    }
                    let mut j: usize = 0;
                    while j < level.blocks.blocks.len()
                        invariant
                            j <= level.blocks.blocks@.len(),
                            level@.wf(),
                            level@.height == height,
                            candidates@ == before + ChainView::entries_of(level@).take(j as int),
                        decreases level.blocks.blocks@.len() - j,
                    {
                        assert(level@.blocks[j as int] == level.blocks.blocks@[j as int]@);
                        candidates.push((height, level.blocks.blocks[j].hash));
                        j = j + 1;
                        assert(candidates@ =~= before + ChainView::entries_of(level@).take(j as int));
                    }
                    proof {
                        let entries = ChainView::entries_of(level@);
                        let family = ChainView::family_of(block@);
                        assert(entries.take(entries.len() as int) =~= entries);
                        assert(block@.uncles.take(block@.uncles.len() as int) =~= block@.uncles);
                        assert(candidates@ == before + entries);
                        assert(used@ == used_before + family);
                        match chain.uncle_candidates(height + 1, new_height as int) {
                            Ok((c, u)) => {
                                assert(before + (entries + c) =~= candidates@ + c);
                                assert(used_before + (family + u) =~= used@ + u);
                            },
                            Err(_) => {},
                        }
                    }
                },
                None => {},
            }
            height = height + 1;
        }
        proof {
            assert(candidates@ + Seq::<(u64, FixedHash)>::empty() =~= candidates@);
            assert(used@ + Seq::<FixedHash>::empty() =~= used@);
        }
        Ok((candidates, used))
    }

    /// The uncles of a block at the given height.
    pub fn offered_uncles(&self, new_height: u64) -> (result: Result<Vec<(u64, FixedHash)>, ShareChainError>)
        requires
            self.wf(),
        ensures
            match result {
                Ok(uncles) => self@.chain.offered_uncles(new_height) == Ok::<_, ShareChainError>(uncles@),
                Err(error) => self@.chain.offered_uncles(new_height) == Err::<
                    Seq<(u64, FixedHash)>,
                    ShareChainError,
                >(error),
            },
            result matches Ok(uncles) ==> self@.chain.offers(new_height, uncles@),
    {
        let mut uncles: Vec<(u64, FixedHash)> = Vec::new();
        if new_height < UNCLE_START_HEIGHT {
            assert(uncles@ =~= Seq::<(u64, FixedHash)>::empty());
            proof {
                self@.chain.lemma_offers(new_height, uncles@);
            }
            return Ok(uncles);
        }
        let (candidates, used) = match self.uncle_candidates(new_height) {
            Ok(found) => found,
            Err(error) => {
                return Err(error);
            },
        };
        let ghost chain = self@.chain;
        let ghost family = used@;
        let mut excluded = used;
        let mut i: usize = 0;
        assert(excluded@ =~= family + chain.unlinked(candidates@, 0));
        while i < candidates.len()
            invariant
                i <= candidates@.len(),
                self.wf(),
                chain == self@.chain,
                excluded@ == family + chain.unlinked(candidates@, i as int),
            decreases candidates@.len() - i,
        {
            let (height, hash) = candidates[i];
            if !self.lies_on_main_chain(height, hash) {
                excluded.push(hash);
            }
            i = i + 1;
            assert(excluded@ =~= family + chain.unlinked(candidates@, i as int));
        }
        let mut j: usize = 0;
        while j < candidates.len()
            invariant
                j <= candidates@.len(),
                uncles@ == ChainView::remaining(candidates@, excluded@, j as int),
            decreases candidates@.len() - j,
        {
            let (height, hash) = candidates[j];
            let mut known = false;
            let mut k: usize = 0;
            while k < excluded.len() && !known
                invariant
                    k <= excluded@.len(),
                    known ==> excluded@.contains(hash),
                    !known ==> forall|l: int| 0 <= l < k ==> excluded@[l] != hash,
                decreases excluded@.len() - k + (if known { 0int } else { 1 }),
            {
                if excluded[k] == hash {
                    assert(excluded@[k as int] == hash);
                    known = true;
                } else {
                    k = k + 1;
                }
            }
            if !known {
                uncles.push((height, hash));
            }
            j = j + 1;
        }
        if uncles.len() > UNCLE_LIMIT {
            let ghost left = uncles@;
            uncles.truncate(UNCLE_LIMIT);
            assert(uncles@ =~= left.take(UNCLE_LIMIT as int));
        }
        proof {
            chain.lemma_offers(new_height, uncles@);
        }
        Ok(uncles)
    }

    /// The block that comes next, for a miner to work on.
    pub fn generate_new_tip_block(&self, miner_address: TariAddress, coinbase_extra: Vec<u8>, timestamp: u64) -> (result:
        Result<Arc<P2Block>, ShareChainError>)
        requires
            self.wf(),
            miner_address@.len() <= u32::MAX,
            coinbase_extra@.len() <= u32::MAX,
        ensures
            match self@.chain.offered_uncles(self@.chain.next_height()) {
                Err(error) => result == Err::<Arc<P2Block>, ShareChainError>(error),
                Ok(uncles) => {
                    let (block, total) = self@.chain.next_block(uncles, miner_address@, coinbase_extra@, timestamp);
                    if self@.chain.next_work_overflows(uncles) {
                        result == Err::<Arc<P2Block>, ShareChainError>(ShareChainError::DifficultyOverflow)
                    } else {
                        &&& result is Ok
                        &&& result->Ok_0@ == (BlockView { hash: result->Ok_0@.hash, ..block })
                        &&& block.hashes_to(result->Ok_0@.hash)
                    }
                },
            },
            result matches Ok(block) ==> self@.chain.follows_tip(block@, miner_address@, coinbase_extra@, timestamp),
    {
        let ghost chain = self@.chain;
        // edge case for chain start
        let mut parent: FixedHash = FixedHash::zero();
        let mut work = AccumulatedDifficulty::min();
        let mut new_height: u64 = 0;
        match self.p2_chain.get_tip() {
            Some(tip) => {
                match tip.block_in_main_chain() {
                    Some(block) => {
                        parent = block.hash;
                        work = block.total_pow();
                    },
                    None => {},
                }
                new_height = if tip.height == u64::MAX {
                    u64::MAX
                } else {
                    tip.height + 1
                };
            },
            None => {},
        }
        let links = match self.offered_uncles(new_height) {
            Ok(links) => links,
            Err(error) => {
                return Err(error);
            },
        };
        proof {
            chain.lemma_offered(new_height);
        }
        let mut uncles: Vec<Arc<P2Block>> = Vec::new();
        let mut i: usize = 0;
        while i < links.len()
            invariant
                i <= links@.len(),
                self.wf(),
                chain == self@.chain,
                forall|j: int|
                    0 <= j < links@.len() ==> chain.block_at((#[trigger] links@[j]).0 as int, links@[j].1) is Some,
                uncles@.len() == i,
                forall|j: int|
                    0 <= j < i ==> Some((#[trigger] uncles@[j])@) == chain.block_at(links@[j].0 as int, links@[j].1),
            decreases links@.len() - i,
        {
            let (height, hash) = links[i];
            assert(chain.block_at(links@[i as int].0 as int, links@[i as int].1) is Some);
            match self.p2_chain.get_block_at_height(height, &hash) {
                Some(block) => {
                    uncles.push(crate::sharechain::p2block::share(block));
                },
                None => {
                    assert(false);
                },
            }
            i = i + 1;
        }
        proof {
            lemma_same_uncles(chain, links@, uncles@, links@.len() as int);
            assert(P2BlockBuilder::uncle_links(uncles@) =~= links@) by {
                assert forall|j: int| 0 <= j < links@.len() implies P2BlockBuilder::uncle_links(uncles@)[j]
                    == links@[j] by {
                    assert(Some(uncles@[j]@) == chain.block_at(links@[j].0 as int, links@[j].1));
                    chain.lemma_block(links@[j].0 as int, links@[j].1);
                }
            }
        }
        let builder = P2BlockBuilder::new(Some((parent, work))).with_timestamp(timestamp).with_height(
            new_height,
        ).with_miner_wallet_address(miner_address).with_miner_coinbase_extra(coinbase_extra);
        match builder.with_uncles(&uncles) {
            Ok(builder) => {
                proof {
                    let total = builder@.0.built_total(false);
                    let built = BlockView { total_pow: total as u128, ..builder@.0 };
                    let next = chain.next_block(links@, miner_address@, coinbase_extra@, timestamp);
                    assert(built.uncles =~= links@);
                    assert(!chain.next_work_overflows(links@) ==> built =~= next.0);
                    if chain.tip() is Some {
                        chain.lemma_level(chain.current_tip as int);
                    }
                }
                builder.build()
            },
            Err(error) => Err(error),
        }
    }
}

proof fn lemma_same_uncles(chain: ChainView, links: Seq<(u64, BlockHash)>, uncles: Seq<Arc<P2Block>>, n: int)
    requires
        links.len() == uncles.len(),
        0 <= n <= links.len(),
        forall|j: int|
            0 <= j < links.len() ==> Some((#[trigger] uncles[j])@) == chain.block_at(links[j].0 as int, links[j].1),
    ensures
        P2BlockBuilder::uncle_work(uncles, n) == chain.uncle_work(links, n),
    decreases n,
{
    if n > 0 {
        lemma_same_uncles(chain, links, uncles, n - 1);
        assert(Some(uncles[n - 1]@) == chain.block_at(links[n - 1].0 as int, links[n - 1].1));
    }
}

impl ChainView {
    proof fn lemma_candidates(self, height: int, new_height: int)
        requires
            self.ordered(),
            height >= 0,
        ensures
            self.uncle_candidates(height, new_height) matches Ok((candidates, used)) ==> {
                &&& forall|i: int|
                    0 <= i < candidates.len() ==> height <= (#[trigger] candidates[i]).0 < new_height
                &&& forall|h: int|
                    height <= h < new_height && (#[trigger] self.level(h)) is Some ==> {
                        &&& (self.level(h)->Some_0).main_block() is Some
                        &&& used.contains((self.level(h)->Some_0).chain_block)
                    }
            },
        decreases new_height - height,
    {
        if height < new_height {
            self.lemma_candidates(height + 1, new_height);
            match self.level(height) {
                None => {},
                Some(level) => {
                    self.lemma_level(height);
                    match level.main_block() {
                        None => {},
                        Some(block) => match self.uncle_candidates(height + 1, new_height) {
                            Err(_) => {},
                            Ok((c, u)) => {
                                level.lemma_found(level.chain_block);
                                let entries = ChainView::entries_of(level);
                                let family = ChainView::family_of(block);
                                assert forall|i: int| 0 <= i < (entries + c).len() implies height <= (#[trigger] (
                                entries + c)[i]).0 < new_height by {
                                    if i < entries.len() {
                                        assert((entries + c)[i] == entries[i]);
                                        assert(level.blocks[i].height == level.height);
                                    } else {
                                        assert((entries + c)[i] == c[i - entries.len()]);
                                    }
                                }
                                assert forall|h: int|
                                    height <= h < new_height && (#[trigger] self.level(h)) is Some implies (
                                self.level(h)->Some_0).main_block() is Some && (family + u).contains(
                                    (self.level(h)->Some_0).chain_block,
                                ) by {
                                    if h == height {
                                        assert((family + u)[0] == block.hash);
                                    } else {
                                        let hash = (self.level(h)->Some_0).chain_block;
                                        assert(u.contains(hash));
                                        let k = choose|k: int| 0 <= k < u.len() && u[k] == hash;
                                        assert((family + u)[family.len() + k] == hash);
                                    }
                                }
                            },
                        },
                    }
                },
            }
        }
    }

    pub proof fn lemma_unlinked(self, entries: Seq<(u64, BlockHash)>, n: int, i: int)
        requires
            0 <= i < n <= entries.len(),
            !self.lies_on_main_chain(entries[i]),
        ensures
            self.unlinked(entries, n).contains(entries[i].1),
        decreases n,
    {
        let after = self.unlinked(entries, n);
        if i == n - 1 {
            assert(after[after.len() - 1] == entries[i].1);
        } else {
            self.lemma_unlinked(entries, n - 1, i);
            let before = self.unlinked(entries, n - 1);
            let k = choose|k: int| 0 <= k < before.len() && before[k] == entries[i].1;
            assert(after[k] == entries[i].1);
        }
    }

    proof fn lemma_remaining(entries: Seq<(u64, BlockHash)>, excluded: Seq<BlockHash>, n: int)
        requires
            0 <= n <= entries.len(),
        ensures
            forall|i: int|
                0 <= i < ChainView::remaining(entries, excluded, n).len() ==> {
                    let entry = #[trigger] ChainView::remaining(entries, excluded, n)[i];
                    &&& !excluded.contains(entry.1)
                    &&& exists|k: int| 0 <= k < n && #[trigger] entries[k] == entry
                },
        decreases n,
    {
        if n > 0 {
            ChainView::lemma_remaining(entries, excluded, n - 1);
            let after = ChainView::remaining(entries, excluded, n);
            let before = ChainView::remaining(entries, excluded, n - 1);
            assert forall|i: int| 0 <= i < after.len() implies ({
                let entry = #[trigger] after[i];
                &&& !excluded.contains(entry.1)
                &&& exists|k: int| 0 <= k < n && #[trigger] entries[k] == entry
            }) by {
                if i < before.len() {
                    assert(after[i] == before[i]);
                    let k = choose|k: int| 0 <= k < n - 1 && #[trigger] entries[k] == before[i];
                    assert(entries[k] == after[i]);
                } else {
                    assert(entries[n - 1] == after[i]);
                }
            }
        }
    }

    /// Offered uncles are there, at most [`MAX_UNCLE_AGE`] levels below, not in the main chain, and their parents are.
    pub proof fn lemma_offered(self, new_height: u64)
        requires
            self.ordered(),
        ensures
            self.offered_uncles(new_height) matches Ok(uncles) ==> {
                &&& uncles.len() <= UNCLE_LIMIT
                &&& new_height < UNCLE_START_HEIGHT ==> uncles.len() == 0
                &&& forall|i: int|
                    0 <= i < uncles.len() ==> {
                        let entry = #[trigger] uncles[i];
                        &&& new_height - MAX_UNCLE_AGE <= entry.0 < new_height
                        &&& self.block_at(entry.0 as int, entry.1) is Some
                        &&& self.lies_on_main_chain(entry)
                        &&& (self.level(entry.0 as int)->Some_0).chain_block != entry.1
                        &&& self.level(new_height - 1) is Some ==> (self.level(new_height - 1)->Some_0).chain_block
                            != entry.1
                    }
            },
    {
        if new_height >= UNCLE_START_HEIGHT {
            let lowest = new_height - MAX_UNCLE_AGE;
            self.lemma_candidates(lowest, new_height as int);
            match self.uncle_candidates(lowest, new_height as int) {
                Err(_) => {},
                Ok((candidates, used)) => {
                    let unlinked = self.unlinked(candidates, candidates.len() as int);
                    let excluded = used + unlinked;
                    let left = ChainView::remaining(candidates, excluded, candidates.len() as int);
                    ChainView::lemma_remaining(candidates, excluded, candidates.len() as int);
                    let uncles = ChainView::at_most(left, UNCLE_LIMIT as int);
                    assert forall|i: int| 0 <= i < uncles.len() implies ({
                        let entry = #[trigger] uncles[i];
                        &&& new_height - MAX_UNCLE_AGE <= entry.0 < new_height
                        &&& self.block_at(entry.0 as int, entry.1) is Some
                        &&& self.lies_on_main_chain(entry)
                        &&& (self.level(entry.0 as int)->Some_0).chain_block != entry.1
                        &&& self.level(new_height - 1) is Some ==> (self.level(new_height - 1)->Some_0).chain_block
                            != entry.1
                    }) by {
                        let entry = uncles[i];
                        assert(left[i] == entry);
                        let k = choose|k: int| 0 <= k < candidates.len() && #[trigger] candidates[k] == left[i];
                        if !self.lies_on_main_chain(entry) {
                            self.lemma_unlinked(candidates, candidates.len() as int, k);
                            let l = choose|l: int| 0 <= l < unlinked.len() && unlinked[l] == entry.1;
                            assert(excluded[used.len() + l] == entry.1);
                        }
                        assert(self.level(entry.0 as int) is Some);
                        let main = (self.level(entry.0 as int)->Some_0).chain_block;
                        assert(used.contains(main));
                        if main == entry.1 {
                            let l = choose|l: int| 0 <= l < used.len() && used[l] == main;
                            assert(excluded[l] == entry.1);
                        }
                        if self.level(new_height - 1) is Some {
                            let below = (self.level(new_height - 1)->Some_0).chain_block;
                            assert(used.contains(below));
                            if below == entry.1 {
                                let l = choose|l: int| 0 <= l < used.len() && used[l] == below;
                                assert(excluded[l] == entry.1);
                            }
                        }
                    }
                },
            }
        }
    }
}

proof fn lemma_ages_fit(block: BlockView, from: int)
    requires
        0 <= from <= block.uncles.len(),
        forall|i: int|
            0 <= i < block.uncles.len() ==> block.height - MAX_UNCLE_AGE <= (#[trigger] block.uncles[i]).0
                < block.height,
    ensures
        block.uncle_age_fault(from) is None,
    decreases block.uncles.len() - from,
{
    if from < block.uncles.len() {
        assert(block.height - MAX_UNCLE_AGE <= block.uncles[from].0 < block.height);
        lemma_ages_fit(block, from + 1);
    }
}

/// A block with the uncles that the chain offers keeps the rules on uncles.
pub proof fn law_offered_uncles_keep_the_rules(chain: ChainView, block: BlockView)
    requires
        chain.ordered(),
        chain.offered_uncles(block.height) == Ok::<_, ShareChainError>(block.uncles),
    ensures
        block.uncle_rule_fault() is None,
{
    chain.lemma_offered(block.height);
    if block.uncles.len() > 0 {
        lemma_ages_fit(block, 0);
    }
}

/// A block with the uncles that the chain offers is not turned away for them when it lands on the tip.
pub proof fn law_offered_uncles_are_accepted(chain: ChainView, new_height: u64, uncles: Seq<(u64, BlockHash)>)
    requires
        chain.ordered(),
        chain.offered_uncles(new_height) == Ok::<_, ShareChainError>(uncles),
    ensures
        chain.uncle_fault(uncles, 0) is None,
        !exists|i: int| 0 <= i < uncles.len() && (chain.level((#[trigger] uncles[i]).0 as int)->Some_0).chain_block
            == uncles[i].1,
{
    chain.lemma_offered(new_height);
    lemma_offered_accepted(chain, uncles, 0);
}

proof fn lemma_offered_accepted(chain: ChainView, uncles: Seq<(u64, BlockHash)>, from: int)
    requires
        chain.ordered(),
        0 <= from <= uncles.len(),
        forall|i: int|
            0 <= i < uncles.len() ==> {
                let entry = #[trigger] uncles[i];
                &&& chain.block_at(entry.0 as int, entry.1) is Some
                &&& chain.lies_on_main_chain(entry)
                &&& (chain.level(entry.0 as int)->Some_0).chain_block != entry.1
            },
    ensures
        chain.uncle_fault(uncles, from) is None,
    decreases uncles.len() - from,
{
    if from < uncles.len() {
        let entry = uncles[from];
        chain.lemma_block(entry.0 as int, entry.1);
        let block = chain.block_at(entry.0 as int, entry.1)->Some_0;
        chain.lemma_block(block.height - 1, block.prev_hash);
        lemma_offered_accepted(chain, uncles, from + 1);
    }
}

}
