//! Laws on blocks that another node sends, and on what they lack.
use crate::sharechain::chain_model::{AddView, ChainView};
use crate::sharechain::error::ShareChainError;
use crate::sharechain::p2block::{BlockView, PROTOCOL_VERSION};
use crate::sharechain::share_rules::{ShareChainView, MAX_SYNC_MISSING_PARENTS};
use crate::types::BlockHash;
use vstd::prelude::*;

verus! {

/// A block that is noted is listed, and nothing else changes in which ones are.
pub proof fn law_noted_blocks_are_listed(
    missing: Seq<(BlockHash, u64)>,
    hash: BlockHash,
    height: u64,
    other: BlockHash,
)
    ensures
        AddView::noted(missing, hash, height).contains((hash, height)),
        AddView::lists(AddView::noted(missing, hash, height), other) <==> AddView::lists(missing, other) || other
            == hash,
        AddView::noted(missing, hash, height).len() == missing.len() + (if AddView::lists(missing, hash) {
            0int
        } else {
            1
        }),
{
    let after = AddView::noted(missing, hash, height);
    if AddView::lists(missing, hash) {
        let k = AddView::place_of(missing, hash);
        assert(after[k] == (hash, height));
        if AddView::lists(missing, other) {
            let i = AddView::place_of(missing, other);
            assert(after[i].0 == other);
        }
        if AddView::lists(after, other) {
            let i = AddView::place_of(after, other);
            assert(missing[i].0 == other);
        }
    } else {
        assert(after[missing.len() as int] == (hash, height));
        if AddView::lists(missing, other) {
            let i = AddView::place_of(missing, other);
            assert(after[i].0 == other);
        }
        if AddView::lists(after, other) && other != hash {
            let i = AddView::place_of(after, other);
            assert(missing[i].0 == other);
        }
    }
}

proof fn lemma_unknown(
    missing: Seq<(BlockHash, u64)>,
    more: Seq<(BlockHash, u64)>,
    from: int,
    known: Seq<BlockHash>,
    hash: BlockHash,
)
    requires
        0 <= from <= more.len(),
    ensures
        ({
            let (after, enough) = ShareChainView::unknown(missing, more, from, known);
            &&& after.len() >= missing.len()
            &&& enough ==> after.len() > MAX_SYNC_MISSING_PARENTS
            &&& missing.len() <= MAX_SYNC_MISSING_PARENTS && after.len() > MAX_SYNC_MISSING_PARENTS ==> enough
            &&& AddView::lists(missing, hash) ==> AddView::lists(after, hash)
            &&& AddView::lists(after, hash) ==> AddView::lists(missing, hash) || !known.contains(hash) && exists|i: int|
                from <= i < more.len() && (#[trigger] more[i]).0 == hash
            &&& !enough && !known.contains(hash) ==> forall|i: int|
                from <= i < more.len() && (#[trigger] more[i]).0 == hash ==> AddView::lists(after, hash)
        }),
    decreases more.len() - from,
{
    if from < more.len() {
        let entry = more[from];
        if known.contains(entry.0) {
            lemma_unknown(missing, more, from + 1, known, hash);
            let (after, enough) = ShareChainView::unknown(missing, more, from + 1, known);
            if !enough && !known.contains(hash) {
                assert forall|i: int| from <= i < more.len() && (#[trigger] more[i]).0 == hash implies AddView::lists(
                    after,
                    hash,
                ) by {
                    assert(i > from);
                }
            }
        } else {
            law_noted_blocks_are_listed(missing, entry.0, entry.1, hash);
            let noted = AddView::noted(missing, entry.0, entry.1);
            if noted.len() <= MAX_SYNC_MISSING_PARENTS {
                lemma_unknown(noted, more, from + 1, known, hash);
                let (after, enough) = ShareChainView::unknown(noted, more, from + 1, known);
                if !enough && !known.contains(hash) {
                    assert forall|i: int|
                        from <= i < more.len() && (#[trigger] more[i]).0 == hash implies AddView::lists(after, hash) by {
                        if i == from {
                            assert(AddView::lists(noted, hash));
                        }
                    }
                }
            }
        }
    }
}

/// Of the blocks that are reported as missing, each that is not known is noted, unless there are too many already; those
/// that are known are not, and nothing that was noted is lost.
pub proof fn law_unknown_blocks_are_noted(
    missing: Seq<(BlockHash, u64)>,
    more: Seq<(BlockHash, u64)>,
    known: Seq<BlockHash>,
    hash: BlockHash,
)
    requires
        missing.len() <= MAX_SYNC_MISSING_PARENTS,
    ensures
        ({
            let (after, enough) = ShareChainView::unknown(missing, more, 0, known);
            let reported = exists|i: int| 0 <= i < more.len() && (#[trigger] more[i]).0 == hash;
            &&& enough <==> after.len() > MAX_SYNC_MISSING_PARENTS
            &&& AddView::lists(missing, hash) ==> AddView::lists(after, hash)
            &&& AddView::lists(after, hash) ==> AddView::lists(missing, hash) || reported && !known.contains(hash)
            &&& reported && !known.contains(hash) ==> enough || AddView::lists(after, hash)
        }),
{
    lemma_unknown(missing, more, 0, known, hash);
}

/// The higher of two tips is one of them, and no lower than either; if there is any, there is one.
pub proof fn law_higher_tip(a: Option<(BlockHash, u64)>, b: Option<(BlockHash, u64)>)
    ensures
        ({
            let higher = AddView::higher_tip(a, b);
            &&& higher == a || higher == b
            &&& a matches Some(x) ==> higher is Some && (higher->Some_0).1 >= x.1
            &&& b matches Some(y) ==> higher is Some && (higher->Some_0).1 >= y.1
        }),
{
}

proof fn lemma_missing_uncles(
    chain: ChainView,
    uncles: Seq<(u64, BlockHash)>,
    n: int,
    missing: Seq<(BlockHash, u64)>,
    hash: BlockHash,
)
    requires
        0 <= n <= uncles.len(),
    ensures
        AddView::lists(chain.missing_uncles(uncles, n, missing), hash) <==> AddView::lists(missing, hash) || exists|
            i: int,
        |
            0 <= i < n && chain.uncle_lacks(#[trigger] uncles[i], hash),
        chain.missing_uncles(uncles, n, missing).len() >= missing.len(),
    decreases n,
{
    if n > 0 {
        lemma_missing_uncles(chain, uncles, n - 1, missing, hash);
        let before = chain.missing_uncles(uncles, n - 1, missing);
        let (height, name) = uncles[n - 1];
        match chain.block_at(height as int, name) {
            None => {
                law_noted_blocks_are_listed(before, name, height, hash);
            },
            Some(uncle) => {
                law_noted_blocks_are_listed(before, uncle.prev_hash, ChainView::below(uncle.height), hash);
            },
        }
        let after = chain.missing_uncles(uncles, n, missing);
        assert(AddView::lists(after, hash) <==> AddView::lists(before, hash) || chain.uncle_lacks(uncles[n - 1], hash));
        if exists|i: int| 0 <= i < n && chain.uncle_lacks(#[trigger] uncles[i], hash) {
            let i = choose|i: int| 0 <= i < n && chain.uncle_lacks(#[trigger] uncles[i], hash);
            assert(i == n - 1 || 0 <= i < n - 1);
        }
    }
}

impl ChainView {
    /// The uncle is not there and has the hash, or its parent is not there and has the hash.
    pub open spec fn uncle_lacks(self, entry: (u64, BlockHash), hash: BlockHash) -> bool {
        match self.block_at(entry.0 as int, entry.1) {
            None => entry.1 == hash,
            Some(uncle) => self.parent_of(uncle) is None && uncle.prev_hash == hash,
        }
    }
}

/// A block lacks its parent if that is not there, each uncle that is not there, and the parent of each uncle that is there
/// without it; and nothing else. The first block of a chain lacks nothing.
pub proof fn law_missing_links_are_named(chain: ChainView, block: BlockView, hash: BlockHash)
    ensures
        AddView::lists(chain.missing_links(block), hash) <==> block.height > 0 && {
            ||| chain.block_at(block.height - 1, block.prev_hash) is None && block.prev_hash == hash
            ||| exists|i: int|
                0 <= i < block.uncles.len() && {
                    let (height, name) = #[trigger] block.uncles[i];
                    match chain.block_at(height as int, name) {
                        None => name == hash,
                        Some(uncle) => uncle.prev_hash == hash && chain.parent_of(uncle) is None,
                    }
                }
        },
{
    if block.height > 0 {
        let parent = if chain.parent_of(block) is None {
            seq![(block.prev_hash, (block.height - 1) as u64)]
        } else {
            Seq::empty()
        };
        lemma_missing_uncles(chain, block.uncles, block.uncles.len() as int, parent, hash);
        assert(AddView::lists(parent, hash) <==> chain.parent_of(block) is None && block.prev_hash == hash) by {
            if chain.parent_of(block) is None {
                assert(parent[0].0 == block.prev_hash);
            }
        }
        if exists|i: int| 0 <= i < block.uncles.len() && chain.uncle_lacks(#[trigger] block.uncles[i], hash) {
            let i = choose|i: int| 0 <= i < block.uncles.len() && chain.uncle_lacks(#[trigger] block.uncles[i], hash);
            assert(match chain.block_at(block.uncles[i].0 as int, block.uncles[i].1) {
                None => block.uncles[i].1 == hash,
                Some(uncle) => uncle.prev_hash == hash && chain.parent_of(uncle) is None,
            });
        }
        assert forall|i: int|
            0 <= i < block.uncles.len() && (match chain.block_at((#[trigger] block.uncles[i]).0 as int, block.uncles[i].1) {
                None => block.uncles[i].1 == hash,
                Some(uncle) => uncle.prev_hash == hash && chain.parent_of(uncle) is None,
            }) implies chain.uncle_lacks(block.uncles[i], hash) by {}
    }
}

impl ShareChainView {
    /// What comes of a block that was sent.
    #[verifier::opaque]
    pub open spec fn sent(self, entry: (BlockView, Option<u64>), fuel: nat) -> Option<
        (ShareChainView, Result<AddView, ShareChainError>),
    > {
        self.submitted_current(entry.0, entry.1, true, fuel)
    }

    /// The states that a chain passes while `blocks[from..]` are submitted, each to what the one before it left.
    pub open spec fn passes(
        states: Seq<ShareChainView>,
        blocks: Seq<(BlockView, Option<u64>)>,
        from: int,
        fuel: nat,
    ) -> bool {
        &&& 1 <= states.len() <= blocks.len() - from + 1
        &&& forall|k: int| 0 <= k < states.len() - 1 ==> #[trigger] ShareChainView::leads(states, blocks, from, k, fuel)
    }

    /// Block `k` of `blocks[from..]` leads from state `k` to the next.
    pub open spec fn leads(
        states: Seq<ShareChainView>,
        blocks: Seq<(BlockView, Option<u64>)>,
        from: int,
        k: int,
        fuel: nat,
    ) -> bool {
        states[k].sent(blocks[from + k], fuel) matches Some((next, _)) && next == states[k + 1]
    }

    /// The step that leads from state `k` succeeds.
    pub open spec fn succeeds(
        states: Seq<ShareChainView>,
        blocks: Seq<(BlockView, Option<u64>)>,
        from: int,
        k: int,
        fuel: nat,
    ) -> bool {
        (states[k].sent(blocks[from + k], fuel)->Some_0).1 is Ok
    }
}

proof fn lemma_synced_passes(
    chain: ShareChainView,
    blocks: Seq<(BlockView, Option<u64>)>,
    from: int,
    known: Seq<BlockHash>,
    outcome: AddView,
    fuel: nat,
) -> (states: Seq<ShareChainView>)
    requires
        0 <= from <= blocks.len(),
        chain.synced(blocks, from, known, outcome, fuel) is Some,
        outcome.missing.len() <= MAX_SYNC_MISSING_PARENTS,
    ensures
        ShareChainView::passes(states, blocks, from, fuel),
        states[0] == chain,
        states.last() == (chain.synced(blocks, from, known, outcome, fuel)->Some_0).0,
        match (chain.synced(blocks, from, known, outcome, fuel)->Some_0).1 {
            Ok(added) => {
                &&& forall|k: int|
                    0 <= k < states.len() - 1 ==> #[trigger] ShareChainView::succeeds(states, blocks, from, k, fuel)
                &&& added.missing.len() <= MAX_SYNC_MISSING_PARENTS ==> states.len() == blocks.len() - from + 1
            },
            Err(_) => {
                &&& states.len() > 1
                &&& !ShareChainView::succeeds(states, blocks, from, states.len() - 2, fuel)
                &&& forall|k: int|
                    0 <= k < states.len() - 2 ==> #[trigger] ShareChainView::succeeds(states, blocks, from, k, fuel)
            },
        },
    decreases blocks.len() - from,
{
    if from >= blocks.len() {
        seq![chain]
    } else {
        assert(chain.sent(blocks[from], fuel) == chain.submitted_current(blocks[from].0, blocks[from].1, true, fuel))
            by {
            reveal(ShareChainView::sent);
        }
        match chain.sent(blocks[from], fuel) {
            None => seq![chain],
            Some((next, Err(_))) => {
                let states = seq![chain, next];
                assert(states[0] == chain && states[1] == next);
                assert(ShareChainView::leads(states, blocks, from, 0, fuel));
                states
            },
            Some((next, Ok(added))) => {
                lemma_unknown(outcome.missing, added.missing, 0, known, blocks[from].0.hash);
                let (missing, enough) = ShareChainView::unknown(outcome.missing, added.missing, 0, known);
                let later = AddView { new_tip: AddView::higher_tip(outcome.new_tip, added.new_tip), missing };
                if enough {
                    let states = seq![chain, next];
                    assert(states[0] == chain && states[1] == next);
                    assert(ShareChainView::leads(states, blocks, from, 0, fuel));
                    assert(ShareChainView::succeeds(states, blocks, from, 0, fuel));
                    states
                } else {
                    let rest = lemma_synced_passes(next, blocks, from + 1, known, later, fuel);
                    let states = seq![chain] + rest;
                    assert(states[0] == chain && states[1] == next);
                    assert(states.last() == rest.last());
                    assert forall|k: int| 0 <= k < states.len() - 1 implies #[trigger] ShareChainView::leads(
                        states,
                        blocks,
                        from,
                        k,
                        fuel,
                    ) by {
                        if k > 0 {
                            assert(ShareChainView::leads(rest, blocks, from + 1, k - 1, fuel));
                            assert(states[k] == rest[k - 1]);
                            assert(states[k + 1] == rest[k]);
                            assert(blocks[from + 1 + (k - 1)] == blocks[from + k]);
                        }
                    }
                    assert forall|k: int|
                        0 <= k < states.len() - 1 && (k == 0 || ShareChainView::succeeds(
                            rest,
                            blocks,
                            from + 1,
                            k - 1,
                            fuel,
                        )) implies #[trigger] ShareChainView::succeeds(states, blocks, from, k, fuel) by {
                        if k > 0 {
                            assert(states[k] == rest[k - 1]);
                            assert(blocks[from + 1 + (k - 1)] == blocks[from + k]);
                        }
                    }
                    if (chain.synced(blocks, from, known, outcome, fuel)->Some_0).1 is Err {
                        let last = states.len() - 2;
                        assert(states[last] == rest[rest.len() - 2]);
                        assert(blocks[from + 1 + (rest.len() - 2)] == blocks[from + last]);
                        assert forall|k: int| 0 <= k < last implies #[trigger] ShareChainView::succeeds(
                            states,
                            blocks,
                            from,
                            k,
                            fuel,
                        ) by {
                            if k > 0 {
                                assert(ShareChainView::succeeds(rest, blocks, from + 1, k - 1, fuel));
                            }
                        }
                    } else {
                        assert forall|k: int| 0 <= k < states.len() - 1 implies #[trigger] ShareChainView::succeeds(
                            states,
                            blocks,
                            from,
                            k,
                            fuel,
                        ) by {
                            if k > 0 {
                                assert(ShareChainView::succeeds(rest, blocks, from + 1, k - 1, fuel));
                            }
                        }
                    }
                    states
                }
            },
        }
    }
}

/// Blocks that another node sent are submitted one after the other, lowest first, each to the chain that the one before
/// it left. If all goes well, and not too much is missing, none is left out; if not, it ends at the first one that fails.
pub proof fn law_synced_blocks_are_submitted_in_turn(
    chain: ShareChainView,
    blocks: Seq<(BlockView, Option<u64>)>,
    fuel: nat,
) -> (states: Seq<ShareChainView>)
    requires
        chain.synced_all(blocks, fuel) is Some,
    ensures
        ({
            let sorted = ShareChainView::by_height(blocks);
            let (after, result) = chain.synced_all(blocks, fuel)->Some_0;
            &&& ShareChainView::passes(states, sorted, 0, fuel)
            &&& states[0] == chain
            &&& states.last() == after
            &&& match result {
                Ok(added) => {
                    &&& forall|k: int|
                        0 <= k < states.len() - 1 ==> #[trigger] ShareChainView::succeeds(states, sorted, 0, k, fuel)
                    &&& added.missing.len() <= MAX_SYNC_MISSING_PARENTS ==> states.len() == blocks.len() + 1
                },
                Err(_) => {
                    &&& states.len() > 1
                    &&& !ShareChainView::succeeds(states, sorted, 0, states.len() - 2, fuel)
                    &&& forall|k: int|
                        0 <= k < states.len() - 2 ==> #[trigger] ShareChainView::succeeds(states, sorted, 0, k, fuel)
                },
            }
        }),
{
    let sorted = ShareChainView::by_height(blocks);
    crate::sharechain::sync_blocks::law_sorting_by_height(blocks);
    lemma_synced_passes(chain, sorted, 0, ShareChainView::hashes_of(sorted), AddView::nothing(), fuel)
}

proof fn lemma_pass_holds(
    states: Seq<ShareChainView>,
    blocks: Seq<(BlockView, Option<u64>)>,
    n: int,
    fuel: nat,
    hash: BlockHash,
)
    requires
        ShareChainView::passes(states, blocks, 0, fuel),
        0 <= n < states.len(),
        states[0].chain.wf(),
    ensures
        states[n].chain.wf(),
        states[n].same_rules(states[0]),
        states[n].chain.holds(hash) ==> states[0].chain.holds(hash) || exists|i: int|
            0 <= i < n && (#[trigger] blocks[i]).0.hash == hash && states[0].has_work(blocks[i].0, blocks[i].1)
                && blocks[i].0.version == PROTOCOL_VERSION,
    decreases n,
{
    if n > 0 {
        lemma_pass_holds(states, blocks, n - 1, fuel, hash);
        let before = states[n - 1];
        let (block, achieved) = blocks[n - 1];
        assert(blocks[0 + (n - 1)] == blocks[n - 1]);
        assert(ShareChainView::leads(states, blocks, 0, n - 1, fuel));
        reveal(ShareChainView::sent);
        let (after, _) = before.submitted_current(block, achieved, true, fuel)->Some_0;
        assert(after == states[n - 1 + 1]);
        if block.version == PROTOCOL_VERSION {
            crate::sharechain::submit_laws::law_blocks_need_work(before, block, achieved, true, fuel);
            if after != before {
                crate::sharechain::chain_laws::law_kept_shares_are_up_to_date(before.chain, block, fuel);
                if after.chain.holds(hash) {
                    crate::sharechain::hold_laws::law_chain_holds_what_was_added(before.chain, block, fuel, hash);
                    if hash == block.hash {
                        assert(blocks[n - 1].0.hash == hash);
                    }
                }
            }
        }
    }
}

/// Only blocks with work get onto a chain by syncing: whatever it holds afterwards it held before, or it came among the
/// blocks, with the chain's algorithm and a difficulty that reached the target. If all goes well, and not too much is
/// missing, every block had that work.
pub proof fn law_synced_blocks_have_work(
    chain: ShareChainView,
    blocks: Seq<(BlockView, Option<u64>)>,
    fuel: nat,
    hash: BlockHash,
)
    requires
        chain.chain.wf(),
        chain.synced_all(blocks, fuel) is Some,
    ensures
        ({
            let (after, result) = chain.synced_all(blocks, fuel)->Some_0;
            &&& after.chain.holds(hash) ==> chain.chain.holds(hash) || exists|i: int|
                {
                    &&& 0 <= i < blocks.len()
                    &&& (#[trigger] blocks[i]).0.hash == hash
                    &&& blocks[i].0.header.pow_algo == chain.pow_algo
                    &&& blocks[i].1 is Some
                    &&& blocks[i].1->Some_0 >= blocks[i].0.target_difficulty
                    &&& blocks[i].0.version == PROTOCOL_VERSION
                }
            &&& (result matches Ok(added) && added.missing.len() <= MAX_SYNC_MISSING_PARENTS) ==> forall|i: int|
                0 <= i < blocks.len() ==> {
                    &&& (#[trigger] blocks[i]).0.header.pow_algo == chain.pow_algo
                    &&& blocks[i].1 is Some
                    &&& blocks[i].1->Some_0 >= blocks[i].0.target_difficulty
                    &&& blocks[i].0.version == PROTOCOL_VERSION
                }
        }),
{
    broadcast use vstd::seq_lib::group_to_multiset_ensures;

    let sorted = ShareChainView::by_height(blocks);
    let (after, result) = chain.synced_all(blocks, fuel)->Some_0;
    crate::sharechain::sync_blocks::law_sorting_by_height(blocks);
    let states = law_synced_blocks_are_submitted_in_turn(chain, blocks, fuel);
    lemma_pass_holds(states, sorted, states.len() - 1, fuel, hash);
    if after.chain.holds(hash) && !chain.chain.holds(hash) {
        let k = choose|k: int|
            0 <= k < states.len() - 1 && (#[trigger] sorted[k]).0.hash == hash && states[0].has_work(
                sorted[k].0,
                sorted[k].1,
            ) && sorted[k].0.version == PROTOCOL_VERSION;
        assert(sorted.contains(sorted[k]));
        assert(blocks.to_multiset().count(sorted[k]) > 0);
        let i = choose|i: int| 0 <= i < blocks.len() && blocks[i] == sorted[k];
        assert(blocks[i].0.hash == hash);
    }
    if result matches Ok(added) && added.missing.len() <= MAX_SYNC_MISSING_PARENTS {
        assert forall|i: int| 0 <= i < blocks.len() implies {
            &&& (#[trigger] blocks[i]).0.header.pow_algo == chain.pow_algo
            &&& blocks[i].1 is Some
            &&& blocks[i].1->Some_0 >= blocks[i].0.target_difficulty
            &&& blocks[i].0.version == PROTOCOL_VERSION
        } by {
            assert(blocks.contains(blocks[i]));
            assert(sorted.to_multiset().count(blocks[i]) > 0);
            let k = choose|k: int| 0 <= k < sorted.len() && sorted[k] == blocks[i];
            lemma_pass_holds(states, sorted, k, fuel, hash);
            assert(ShareChainView::succeeds(states, sorted, 0, k, fuel));
            assert(sorted[0 + k] == sorted[k]);
            assert(ShareChainView::leads(states, sorted, 0, k, fuel));
            let (block, achieved) = sorted[k];
            reveal(ShareChainView::sent);
            if block.version == PROTOCOL_VERSION {
                crate::sharechain::submit_laws::law_blocks_need_work(states[k], block, achieved, true, fuel);
            }
        }
    }
}

impl ShareChainView {
    /// Whether a chain came from another by blocks that have work alone: whatever it holds the other held, or it is among
    /// the blocks, of the right version and algorithm and with a difficulty that reached the target.
    pub open spec fn takes_only_work(self, blocks: Seq<(BlockView, Option<u64>)>, after: ShareChainView) -> bool {
        forall|hash: BlockHash| #[trigger]
            after.chain.holds(hash) ==> self.chain.holds(hash) || exists|i: int|
                {
                    &&& 0 <= i < blocks.len()
                    &&& (#[trigger] blocks[i]).0.hash == hash
                    &&& self.has_work(blocks[i].0, blocks[i].1)
                    &&& blocks[i].0.version == PROTOCOL_VERSION
                }
    }

    /// Every block has work and the right version.
    pub open spec fn all_have_work(self, blocks: Seq<(BlockView, Option<u64>)>) -> bool {
        forall|i: int|
            0 <= i < blocks.len() ==> self.has_work((#[trigger] blocks[i]).0, blocks[i].1) && blocks[i].0.version
                == PROTOCOL_VERSION
    }
}

/// Syncing takes only blocks that have work; if all goes well, and not too much is missing, all of them had.
pub proof fn law_syncing_takes_only_work(chain: ShareChainView, blocks: Seq<(BlockView, Option<u64>)>, fuel: nat)
    requires
        chain.chain.wf(),
        chain.synced_all(blocks, fuel) is Some,
    ensures
        chain.takes_only_work(blocks, (chain.synced_all(blocks, fuel)->Some_0).0),
        ((chain.synced_all(blocks, fuel)->Some_0).1 matches Ok(added) && added.missing.len()
            <= MAX_SYNC_MISSING_PARENTS) ==> chain.all_have_work(blocks),
{
    let after = (chain.synced_all(blocks, fuel)->Some_0).0;
    assert forall|hash: BlockHash| #[trigger] after.chain.holds(hash) implies chain.chain.holds(hash) || exists|i: int|
        {
            &&& 0 <= i < blocks.len()
            &&& (#[trigger] blocks[i]).0.hash == hash
            &&& chain.has_work(blocks[i].0, blocks[i].1)
            &&& blocks[i].0.version == PROTOCOL_VERSION
        } by {
        law_synced_blocks_have_work(chain, blocks, fuel, hash);
    }
    law_synced_blocks_have_work(chain, blocks, fuel, crate::types::FixedHash::spec_zero());
}

proof fn lemma_syncing_keeps_rules(chain: ShareChainView, blocks: Seq<(BlockView, Option<u64>)>, fuel: nat)
    requires
        chain.chain.wf(),
        chain.synced_all(blocks, fuel) is Some,
    ensures
        (chain.synced_all(blocks, fuel)->Some_0).0.chain.wf(),
        (chain.synced_all(blocks, fuel)->Some_0).0.same_rules(chain),
{
    let states = law_synced_blocks_are_submitted_in_turn(chain, blocks, fuel);
    lemma_pass_holds(
        states,
        ShareChainView::by_height(blocks),
        states.len() - 1,
        fuel,
        crate::types::FixedHash::spec_zero(),
    );
}

/// Blocks that are synced each on its own need work as much as blocks that are synced together: only those that have it
/// get onto the chain. The rules stay as they are.
pub proof fn law_catching_up_takes_only_work(
    chain: ShareChainView,
    blocks: Seq<(BlockView, Option<u64>)>,
    from: int,
    outcome: AddView,
    fuel: nat,
)
    requires
        0 <= from <= blocks.len(),
        chain.chain.wf(),
        chain.each_synced(blocks, from, outcome, fuel) is Some,
    ensures
        chain.takes_only_work(blocks, (chain.each_synced(blocks, from, outcome, fuel)->Some_0).0),
        (chain.each_synced(blocks, from, outcome, fuel)->Some_0).0.same_rules(chain),
    decreases blocks.len() - from,
{
    if from < blocks.len() {
        let one = seq![blocks[from]];
        let after = (chain.each_synced(blocks, from, outcome, fuel)->Some_0).0;
        let (next, result) = chain.synced_all(one, fuel)->Some_0;
        law_syncing_takes_only_work(chain, one, fuel);
        lemma_syncing_keeps_rules(chain, one, fuel);
        if let Ok(added) = result {
            law_catching_up_takes_only_work(next, blocks, from + 1, outcome.combined(added), fuel);
        }
        assert forall|hash: BlockHash| #[trigger] after.chain.holds(hash) implies chain.chain.holds(hash) || exists|
            i: int,
        |
            {
                &&& 0 <= i < blocks.len()
                &&& (#[trigger] blocks[i]).0.hash == hash
                &&& chain.has_work(blocks[i].0, blocks[i].1)
                &&& blocks[i].0.version == PROTOCOL_VERSION
            } by {
            if next.chain.holds(hash) && !chain.chain.holds(hash) {
                let j = choose|j: int|
                    {
                        &&& 0 <= j < one.len()
                        &&& (#[trigger] one[j]).0.hash == hash
                        &&& chain.has_work(one[j].0, one[j].1)
                        &&& one[j].0.version == PROTOCOL_VERSION
                    };
                assert(blocks[from] == one[j]);
            }
        }
    }
}

}
