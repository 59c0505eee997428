//! Laws on the blocks that miners are given and on those that they bring back.
use crate::server::grpc::p2pool::{NewBlock, NewBlockReply, PoolServiceView};
use crate::server::grpc::status::Status;
use crate::sharechain::p2block::{BlockView, TariBlock};
use crate::types::{Difficulty, FixedHash, PowAlgorithm};
use vstd::prelude::*;

verus! {

impl NewBlockReply {
    /// The base node gave all that a new block needs: a target that is no less than 1, a block that could be read, and a
    /// height.
    pub open spec fn is_complete(self) -> bool {
        &&& self.target_difficulty is Some
        &&& self.target_difficulty->Some_0 >= 1
        &&& self.block is Some
        &&& self.block->Some_0 is Ok
        &&& self.height is Some
    }
}

impl PoolServiceView {
    /// Everything about one algorithm is the same.
    pub open spec fn same_for(self, before: PoolServiceView, algo: PowAlgorithm) -> bool {
        self.templates(algo) == before.templates(algo) && self.targets(algo) == before.targets(algo)
    }
}

/// A miner is given a block only if the base node gave all that it needs; if not, nothing changes. The miner works for the
/// lower target of both chains. The template is kept under the hash of the main-chain block: it lies where the asked block
/// lies, pays whom that pays, and claims its own target in place of the old one. The target of the main chain is noted for
/// its height. Nothing of the other algorithm changes.
pub proof fn law_new_blocks_are_finished(
    service: PoolServiceView,
    algo: PowAlgorithm,
    block: BlockView,
    reply: NewBlockReply,
    target: u64,
    result: Result<NewBlock, Status>,
    after: PoolServiceView,
    other: PowAlgorithm,
)
    requires
        service.finishes(algo, block, reply, target, result, after),
        other != algo,
    ensures
        !reply.is_complete() ==> result is Err && after == service,
        reply.is_complete() ==> {
            let fits = block.total_pow + target <= u128::MAX && block.total_pow + target > block.target_difficulty;
            &&& result is Ok <==> fits
            &&& after.same_for(service, other)
            &&& after.target_at(algo, reply.height->Some_0) == reply.target_difficulty->Some_0
            &&& result matches Ok(given) ==> {
                let template = after.templates(algo).blocks[reply.tari_hash];
                let tari = reply.block->Some_0->Ok_0;
                &&& given.target_difficulty == target
                &&& given.miner_target_difficulty <= target
                &&& given.miner_target_difficulty <= reply.target_difficulty->Some_0
                &&& given.miner_target_difficulty == target || given.miner_target_difficulty
                    == reply.target_difficulty->Some_0
                &&& given.network_difficulty@ == reply.target_difficulty->Some_0
                &&& after.templates(algo).blocks.dom().contains(reply.tari_hash)
                &&& template.hashes_to(template.hash)
                &&& template.height == block.height
                &&& template.prev_hash == block.prev_hash
                &&& template.miner == block.miner
                &&& template.uncles == block.uncles
                &&& template.timestamp == block.timestamp
                &&& template.coinbase_extra == block.coinbase_extra
                &&& template.version == block.version
                &&& template.target_difficulty == target
                &&& template.total_pow + block.target_difficulty == block.total_pow + target
                &&& template.header == tari.header@
                &&& template.other_output_hash == tari.other_output_hash
            }
        },
{
    if reply.is_complete() {
        assert(PoolServiceView::reply_fault(reply) is None);
        let main_target = reply.target_difficulty->Some_0;
        if !PoolServiceView::template_overflows(block, target) {
            assert(result is Ok);
            let tari = reply.block->Some_0->Ok_0;
            let plain = PoolServiceView::template(block, tari, target);
            let network = choose|network: Difficulty|
                {
                    let noted = service.with_target(algo, reply.height.unwrap(), network);
                    &&& #[trigger] network@ == main_target
                    &&& result->Ok_0.network_difficulty == network
                    &&& exists|hash: FixedHash| #[trigger]
                        plain.hashes_to(hash) && after == noted.with_template(
                            algo,
                            reply.tari_hash,
                            BlockView { hash, ..plain },
                        )
                };
            let noted = service.with_target(algo, reply.height.unwrap(), network);
            let hash = choose|hash: FixedHash| #[trigger]
                plain.hashes_to(hash) && after == noted.with_template(
                    algo,
                    reply.tari_hash,
                    BlockView { hash, ..plain },
                );
            assert(plain.hashes_to(hash));
            assert(after.templates(algo).blocks[reply.tari_hash] == BlockView { hash, ..plain });
            assert((BlockView { hash, ..plain }).preimage() == plain.preimage());
        }
    }
}

/// A block that was mined is of use if it could be read, if it was given out as a template, and if the difficulty that it
/// reached could be found; and only then.
pub proof fn law_submissions_need_a_template(
    service: PoolServiceView,
    algo: PowAlgorithm,
    hash: FixedHash,
    mined: Result<TariBlock, String>,
    achieved: Result<Difficulty, String>,
)
    ensures
        service.submission_fault(algo, hash, mined, achieved) is None <==> mined is Ok && achieved is Ok
            && service.templates(algo).blocks.dom().contains(hash),
{
}

/// What a miner brings back has the header, the coinbases and the other outputs of the block that was mined; everything
/// else is that of the template, its hash too.
pub proof fn law_mined_blocks_take_the_header(template: BlockView, tari: TariBlock)
    ensures
        ({
            let mined = PoolServiceView::mined(template, tari);
            &&& mined.header == tari.header@
            &&& mined.coinbases.len() == tari.coinbases@.len()
            &&& forall|i: int| 0 <= i < mined.coinbases.len() ==> (#[trigger] mined.coinbases[i]) == tari.coinbases@[i]@
            &&& mined.other_output_hash == tari.other_output_hash
            &&& mined.hash == template.hash
            &&& mined.version == template.version
            &&& mined.timestamp == template.timestamp
            &&& mined.coinbase_extra == template.coinbase_extra
            &&& mined.sent_to_main_chain == template.sent_to_main_chain
            &&& mined.verified == template.verified
        }),
{
}

/// Each algorithm has its own targets and templates. A target that is not known counts as 1.
pub proof fn law_targets_are_kept_apart(
    service: PoolServiceView,
    algo: PowAlgorithm,
    other: PowAlgorithm,
    height: u64,
    level: u64,
    target: Difficulty,
)
    ensures
        ({
            let after = service.with_target(algo, height, target);
            &&& after.target_at(algo, height) == target@
            &&& other != algo || level != height ==> after.target_at(other, level) == service.target_at(other, level)
            &&& after.templates(other) == service.templates(other)
        }),
        algo == PowAlgorithm::RandomX ==> service.templates(algo) == service.random_x_templates,
        algo == PowAlgorithm::Sha3x ==> service.templates(algo) == service.sha3x_templates,
        !service.targets(algo).dom().contains(height) ==> service.target_at(algo, height) == 1,
{
}

}
