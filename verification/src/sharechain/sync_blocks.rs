//! Blocks that come from another node, many at once.
use crate::sharechain::chain_model::AddView;
use crate::sharechain::error::ShareChainError;
use crate::sharechain::in_memory::{CheckedBlock, InMemoryShareChain};
use crate::sharechain::p2block::{share, BlockView};
use crate::sharechain::p2chain::{note_missing, ChainAddResult};
use crate::sharechain::share_rules::{ShareChainView, MAX_SYNC_MISSING_PARENTS};
use crate::types::{BlockHash, FixedHash};
use vstd::prelude::*;

verus! {

/// What some checked blocks hold.
pub open spec fn checked_views(blocks: Seq<CheckedBlock>) -> Seq<(BlockView, Option<u64>)> {
    blocks.map_values(|b: CheckedBlock| b@)
}

impl ShareChainView {
    proof fn lemma_inserted(
        blocks: Seq<(BlockView, Option<u64>)>,
        block: (BlockView, Option<u64>),
        place: int,
    )
        requires
            0 <= place <= blocks.len(),
            forall|j: int| place <= j < blocks.len() ==> (#[trigger] blocks[j]).0.height > block.0.height,
            place > 0 ==> blocks[place - 1].0.height <= block.0.height,
        ensures
            ShareChainView::inserted(blocks, block) == blocks.insert(place, block),
        decreases blocks.len(),
    {
        if place == blocks.len() {
            assert(blocks.insert(place, block) =~= blocks.push(block));
        } else {
            assert(blocks.last() == blocks[blocks.len() - 1]);
            let shorter = blocks.drop_last();
            assert forall|j: int| place <= j < shorter.len() implies (#[trigger] shorter[j]).0.height
                > block.0.height by {
                assert(shorter[j] == blocks[j]);
            }
            ShareChainView::lemma_inserted(shorter, block, place);
            assert(blocks.insert(place, block) =~= shorter.insert(place, block).push(blocks.last()));
        }
    }

    /// More fuel than is needed changes nothing.
    pub proof fn lemma_submitted_fuel(
        self,
        block: BlockView,
        achieved: Option<u64>,
        syncing: bool,
        fuel: nat,
        more: nat,
    )
        requires
            self.submitted_current(block, achieved, syncing, fuel) is Some,
            fuel <= more,
        ensures
            self.submitted_current(block, achieved, syncing, more) == self.submitted_current(
                block,
                achieved,
                syncing,
                fuel,
            ),
    {
        if self.chain.add_block(block, fuel) is Some {
            crate::sharechain::add_block::lemma_add_block_fuel(self.chain, block, fuel, more);
        }
    }

    /// More fuel than is needed changes nothing.
    pub proof fn lemma_synced_fuel(
        self,
        blocks: Seq<(BlockView, Option<u64>)>,
        from: int,
        known: Seq<BlockHash>,
        outcome: AddView,
        fuel: nat,
        more: nat,
    )
        requires
            self.synced(blocks, from, known, outcome, fuel) is Some,
            fuel <= more,
        ensures
            self.synced(blocks, from, known, outcome, more) == self.synced(blocks, from, known, outcome, fuel),
        decreases blocks.len() - from,
    {
        if 0 <= from < blocks.len() {
            self.lemma_submitted_fuel(blocks[from].0, blocks[from].1, true, fuel, more);
            match self.submitted_current(blocks[from].0, blocks[from].1, true, fuel) {
                Some((next, Ok(added))) => {
                    let (missing, enough) = ShareChainView::unknown(outcome.missing, added.missing, 0, known);
                    let outcome = AddView {
                        new_tip: AddView::higher_tip(outcome.new_tip, added.new_tip),
                        missing,
                    };
                    if !enough {
                        next.lemma_synced_fuel(blocks, from + 1, known, outcome, fuel, more);
                    }
                },
                _ => {},
            }
        }
    }

    /// More fuel than is needed changes nothing.
    pub proof fn lemma_synced_all_fuel(self, blocks: Seq<(BlockView, Option<u64>)>, fuel: nat, more: nat)
        requires
            self.synced_all(blocks, fuel) is Some,
            fuel <= more,
        ensures
            self.synced_all(blocks, more) == self.synced_all(blocks, fuel),
    {
        let sorted = ShareChainView::by_height(blocks);
        self.lemma_synced_fuel(sorted, 0, ShareChainView::hashes_of(sorted), AddView::nothing(), fuel, more);
    }
}

/// Sorting by height gives the same blocks, in order of height.
pub proof fn law_sorting_by_height(blocks: Seq<(BlockView, Option<u64>)>)
    ensures
        ShareChainView::by_height(blocks).to_multiset() == blocks.to_multiset(),
        ShareChainView::by_height(blocks).len() == blocks.len(),
        forall|i: int, j: int|
            0 <= i <= j < blocks.len() ==> (#[trigger] ShareChainView::by_height(blocks)[i]).0.height <= (
            #[trigger] ShareChainView::by_height(blocks)[j]).0.height,
    decreases blocks.len(),
{
    broadcast use vstd::seq_lib::group_to_multiset_ensures;

    if blocks.len() > 0 {
        let shorter = blocks.drop_last();
        law_sorting_by_height(shorter);
        lemma_inserted_sorted(ShareChainView::by_height(shorter), blocks.last());
        assert(blocks =~= shorter.push(blocks.last()));
    }
}

proof fn lemma_inserted_sorted(blocks: Seq<(BlockView, Option<u64>)>, block: (BlockView, Option<u64>))
    requires
        forall|i: int, j: int|
            0 <= i <= j < blocks.len() ==> (#[trigger] blocks[i]).0.height <= (#[trigger] blocks[j]).0.height,
    ensures
        ShareChainView::inserted(blocks, block).to_multiset() == blocks.push(block).to_multiset(),
        ShareChainView::inserted(blocks, block).len() == blocks.len() + 1,
        forall|i: int, j: int|
            0 <= i <= j < blocks.len() + 1 ==> (#[trigger] ShareChainView::inserted(blocks, block)[i]).0.height <= (
            #[trigger] ShareChainView::inserted(blocks, block)[j]).0.height,
        forall|i: int|
            0 <= i < blocks.len() + 1 ==> {
                ||| #[trigger] ShareChainView::inserted(blocks, block)[i] == block
                ||| blocks.len() > 0 && ShareChainView::inserted(blocks, block)[i].0.height
                    <= blocks.last().0.height
            },
    decreases blocks.len(),
{
    broadcast use vstd::seq_lib::group_to_multiset_ensures;

    if blocks.len() > 0 && blocks.last().0.height > block.0.height {
        let shorter = blocks.drop_last();
        lemma_inserted_sorted(shorter, block);
        assert(blocks =~= shorter.push(blocks.last()));
        let placed = ShareChainView::inserted(shorter, block);
        assert(ShareChainView::inserted(blocks, block) =~= placed.push(blocks.last()));
        assert(placed.push(blocks.last()).to_multiset() =~= blocks.push(block).to_multiset());
    }
}

/// The blocks by height, lowest first; those of one height stay in their order.
pub fn sort_by_height(blocks: &Vec<CheckedBlock>) -> (sorted: Vec<CheckedBlock>)
    ensures
        checked_views(sorted@) == ShareChainView::by_height(checked_views(blocks@)),
{
    let mut sorted: Vec<CheckedBlock> = Vec::new();
    let mut i: usize = 0;
    let ghost all = checked_views(blocks@);
    assert(checked_views(sorted@) =~= ShareChainView::by_height(all.take(0)));
    while i < blocks.len()
        invariant
            i <= blocks@.len(),
            all == checked_views(blocks@),
            checked_views(sorted@) == ShareChainView::by_height(all.take(i as int)),
        decreases blocks@.len() - i,
    {
        let block = CheckedBlock { block: share(&blocks[i].block), achieved: blocks[i].achieved };
        let ghost view = block@;
        assert(view == all[i as int]);
        let mut place: usize = sorted.len();
        while place > 0 && sorted[place - 1].block.height > block.block.height
            invariant
                place <= sorted@.len(),
                view == block@,
                forall|j: int|
                    place <= j < sorted@.len() ==> (#[trigger] checked_views(sorted@)[j]).0.height > view.0.height,
            decreases place,
        {
            assert(checked_views(sorted@)[place - 1] == sorted@[place - 1]@);
            place = place - 1;
        }
        let ghost before = checked_views(sorted@);
        proof {
            if place > 0 {
                assert(before[place - 1] == sorted@[place - 1]@);
            }
            ShareChainView::lemma_inserted(before, view, place as int);
            assert(all.take(i + 1).drop_last() =~= all.take(i as int));
            assert(all.take(i + 1).last() == view);
        }
        sorted.insert(place, block);
        assert(checked_views(sorted@) =~= before.insert(place as int, view));
        i = i + 1;
    }
    assert(all.take(blocks@.len() as int) =~= all);
    sorted
}

/// Whether a hash is in a list.
fn knows(known: &Vec<FixedHash>, hash: FixedHash) -> (found: bool)
    ensures
        found <==> known@.contains(hash),
{
    let mut i: usize = 0;
    while i < known.len()
        invariant
            i <= known@.len(),
            forall|j: int| 0 <= j < i ==> known@[j] != hash,
        decreases known@.len() - i,
    {
        if known[i] == hash {
            assert(known@[i as int] == hash);
            return true;
        }
        i = i + 1;
    }
    false
}

/// Notes missing blocks that are not known, until there are too many. `true` if that many were found.
fn note_unknown(missing: &mut Vec<(FixedHash, u64)>, more: &Vec<(FixedHash, u64)>, known: &Vec<FixedHash>) -> (enough:
    bool)
    requires
        AddView::distinct(old(missing)@),
    ensures
        (final(missing)@, enough) == ShareChainView::unknown(old(missing)@, more@, 0, known@),
        AddView::distinct(final(missing)@),
{
    let mut i: usize = 0;
    while i < more.len()
        invariant
            i <= more@.len(),
            AddView::distinct(missing@),
            ShareChainView::unknown(old(missing)@, more@, 0, known@) == ShareChainView::unknown(
                missing@,
                more@,
                i as int,
                known@,
            ),
        decreases more@.len() - i,
    {
        let (hash, height) = more[i];
        if !knows(known, hash) {
            note_missing(missing, hash, height);
            if missing.len() > MAX_SYNC_MISSING_PARENTS {
                return true;
            }
        }
        i = i + 1;
    }
    false
}

impl InMemoryShareChain {
    /// Adds blocks that another node sent, lowest first. What they lack and does not come with them is reported. Only
    /// blocks that have work get onto the chain.
    pub fn add_synced_blocks(&mut self, blocks: &Vec<CheckedBlock>) -> (result: Result<
        ChainAddResult,
        ShareChainError,
    >)
        requires
            old(self).wf(),
        ensures
            final(self).wf(),
            exists|fuel: nat| #[trigger]
                old(self)@.synced_all(checked_views(blocks@), fuel) == Some(
                    (final(self)@, crate::sharechain::p2chain::add_outcome(result)),
                ),
            final(self)@.chain.total_size == old(self)@.chain.total_size,
            old(self)@.takes_only_work(checked_views(blocks@), final(self)@),
            (result matches Ok(added) && added@.missing.len() <= MAX_SYNC_MISSING_PARENTS) ==> old(self)@.all_have_work(
                checked_views(blocks@),
            ),
    {
        let ghost start = self@;
        let result = self.submit_in_turn(blocks);
        let ghost view = crate::sharechain::p2chain::add_outcome(result);
        let ghost fuel = choose|fuel: nat| #[trigger]
            start.synced_all(checked_views(blocks@), fuel) == Some((self@, view));
        proof {
            crate::sharechain::sync_laws::law_syncing_takes_only_work(start, checked_views(blocks@), fuel);
        }
        result
    }

    fn submit_in_turn(&mut self, blocks: &Vec<CheckedBlock>) -> (result: Result<ChainAddResult, ShareChainError>)
        requires
            old(self).wf(),
        ensures
            final(self).wf(),
            exists|fuel: nat| #[trigger]
                old(self)@.synced_all(checked_views(blocks@), fuel) == Some(
                    (final(self)@, crate::sharechain::p2chain::add_outcome(result)),
                ),
            final(self)@.chain.total_size == old(self)@.chain.total_size,
    {
        let ghost start = self@;
        let sorted = sort_by_height(blocks);
        let ghost all = checked_views(sorted@);
        let mut known: Vec<FixedHash> = Vec::new();
        let mut k: usize = 0;
        while k < sorted.len()
            invariant
                k <= sorted@.len(),
                all == checked_views(sorted@),
                known@ == ShareChainView::hashes_of(all).take(k as int),
            decreases sorted@.len() - k,
        {
            assert(all[k as int] == sorted@[k as int]@);
            known.push(sorted[k].block.hash);
            k = k + 1;
            assert(known@ =~= ShareChainView::hashes_of(all).take(k as int));
        }
        assert(known@ =~= ShareChainView::hashes_of(all));
        let mut outcome = ChainAddResult::empty();
        let ghost mut spent: nat = 0;
        let mut i: usize = 0;
        while i < sorted.len()
            invariant
                i <= sorted@.len(),
                self.wf(),
                start == old(self)@,
                self@.chain.total_size == start.chain.total_size,
                all == checked_views(sorted@),
                all == ShareChainView::by_height(checked_views(blocks@)),
                known@ == ShareChainView::hashes_of(all),
                AddView::distinct(outcome@.missing),
                forall|f: nat|
                    f >= spent ==> #[trigger] start.synced(all, 0, known@, AddView::nothing(), f) == self@.synced(
                        all,
                        i as int,
                        known@,
                        outcome@,
                        f,
                    ),
            decreases sorted@.len() - i,
        {
            let ghost before = self@;
            let ghost passed = outcome@;
            let block = share(&sorted[i].block);
            let achieved = sorted[i].achieved;
            let ghost entry = all[i as int];
            assert(entry == sorted@[i as int]@);
            let result = self.submit_current(block, achieved, true);
            let ghost fuel = choose|fuel: nat| #[trigger]
                before.submitted_current(entry.0, entry.1, true, fuel) == Some(
                    (self@, crate::sharechain::p2chain::add_outcome(result)),
                );
            let ghost most: nat = if spent < fuel {
                fuel
            } else {
                spent
            };
            proof {
                assert forall|f: nat| f >= most implies #[trigger] before.submitted_current(
                    entry.0,
                    entry.1,
                    true,
                    f,
                ) == Some((self@, crate::sharechain::p2chain::add_outcome(result))) by {
                    before.lemma_submitted_fuel(entry.0, entry.1, true, fuel, f);
                }
            }
            match result {
                Ok(added) => {
                    let ghost added_view = added@;
                    match added.new_tip {
                        Some((hash, height)) => {
                            outcome.set_new_tip(hash, height);
                        },
                        None => {},
                    }
                    let enough = note_unknown(&mut outcome.missing_blocks, &added.missing_blocks, &known);
                    proof {
                        let (missing, found) = ShareChainView::unknown(
                            passed.missing,
                            added_view.missing,
                            0,
                            known@,
                        );
                        assert(outcome@ =~= AddView {
                            new_tip: AddView::higher_tip(passed.new_tip, added_view.new_tip),
                            missing,
                        });
                        assert forall|f: nat| f >= most implies #[trigger] start.synced(
                            all,
                            0,
                            known@,
                            AddView::nothing(),
                            f,
                        ) == (if enough {
                            Some((self@, Ok::<_, ShareChainError>(outcome@)))
                        } else {
                            self@.synced(all, i + 1, known@, outcome@, f)
                        }) by {
                            assert(before.submitted_current(entry.0, entry.1, true, f) == Some(
                                (self@, Ok::<_, ShareChainError>(added_view)),
                            ));
                            assert(start.synced(all, 0, known@, AddView::nothing(), f) == before.synced(
                                all,
                                i as int,
                                known@,
                                passed,
                                f,
                            ));
                        }
                    }
                    if enough {
                        assert(start.synced_all(checked_views(blocks@), most) == Some(
                            (self@, Ok::<_, ShareChainError>(outcome@)),
                        ));
                        return Ok(outcome);
                    }
                    proof {
                        spent = most;
                    }
                },
                Err(error) => {
                    proof {
                        assert(before.submitted_current(entry.0, entry.1, true, most) == Some(
                            (self@, Err::<AddView, _>(error)),
                        ));
                        assert(start.synced(all, 0, known@, AddView::nothing(), most) == before.synced(
                            all,
                            i as int,
                            known@,
                            passed,
                            most,
                        ));
                        assert(start.synced_all(checked_views(blocks@), most) == Some(
                            (self@, Err::<AddView, _>(error)),
                        ));
                    }
                    return Err(error);
                },
            }
            i = i + 1;
        }
        assert(start.synced_all(checked_views(blocks@), spent) == Some(
            (self@, Ok::<_, ShareChainError>(outcome@)),
        ));
        Ok(outcome)
    }
}

}
