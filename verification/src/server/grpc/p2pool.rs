//! New blocks for miners, and the blocks that they mined.
use crate::server::grpc::status::{Code, Status};
use crate::server::grpc::templates::{TemplateStore, TemplatesView};
use crate::server::grpc::util::convert_coinbase_extra;
use crate::server::p2p::messages::{ALGO_RANDOM_X, ALGO_SHA3X};
use crate::server::p2p::squad::Squad;
use crate::sharechain::chain_model::ChainView;
use crate::sharechain::error::ShareChainError;
use crate::sharechain::in_memory::{InMemoryShareChain, NewBlockCoinbase, NewCoinbaseView};
use crate::sharechain::p2block::{BlockView, CoinbaseOutput, P2Block, TariAddress, TariBlock};
use crate::sharechain::share_rules::ShareChainView;
use crate::sharechain::shares::{ShareTable, ShareView};
use crate::types::{Difficulty, FixedHash, PowAlgorithm, MIN_DIFFICULTY};
use std::collections::HashMap;
use std::sync::Arc;
use vstd::prelude::*;

verus! {

/// P2Pool specific service to provide `get_new_block` and `submit_block` functionalities.
pub struct ShaP2PoolGrpc {
    /// The squad of the node.
    pub squad: Squad,
    /// Targets of the main chain for SHA3x, by height.
    pub sha3_block_height_difficulty_cache: HashMap<u64, Difficulty>,
    /// Targets of the main chain for RandomX, by height.
    pub randomx_block_height_difficulty_cache: HashMap<u64, Difficulty>,
    /// The greatest difficulty that a block reached since one got onto the main chain.
    pub stats_max_difficulty_since_last_success: Difficulty,
    /// SHA3x blocks that miners work on.
    pub templates_sha3x: TemplateStore,
    /// RandomX blocks that miners work on.
    pub templates_rx: TemplateStore,
}

/// What a [`ShaP2PoolGrpc`] holds.
pub struct PoolServiceView {
    pub squad: Seq<char>,
    pub sha3x_targets: Map<u64, Difficulty>,
    pub random_x_targets: Map<u64, Difficulty>,
    pub max_difficulty: Difficulty,
    pub sha3x_templates: TemplatesView,
    pub random_x_templates: TemplatesView,
}

impl View for ShaP2PoolGrpc {
    type V = PoolServiceView;

    open spec fn view(&self) -> PoolServiceView {
        PoolServiceView {
            squad: self.squad@,
            sha3x_targets: self.sha3_block_height_difficulty_cache@,
            random_x_targets: self.randomx_block_height_difficulty_cache@,
            max_difficulty: self.stats_max_difficulty_since_last_success,
            sha3x_templates: self.templates_sha3x@,
            random_x_templates: self.templates_rx@,
        }
    }
}

/// What the base node answered to a request for a new block. What is missing from the answer is `None`.
pub struct NewBlockReply {
    /// The target of the main chain.
    pub target_difficulty: Option<u64>,
    /// The block, its nonce set to 0 so that the template is found again, or why it could not be read.
    pub block: Option<Result<TariBlock, String>>,
    /// Hash of the block with a nonce of 0.
    pub tari_hash: FixedHash,
    /// Height of the block.
    pub height: Option<u64>,
}

/// What a miner is given.
pub struct NewBlock {
    /// The target of the share chain.
    pub target_difficulty: u64,
    /// The target that the miner works for: the lower one of both chains.
    pub miner_target_difficulty: u64,
    /// The target of the main chain.
    pub network_difficulty: Difficulty,
}

/// A block that a miner mined.
pub struct Submission {
    /// The block of the share chain.
    pub block: P2Block,
    /// Whether the block reached the target of the main chain.
    pub to_main_chain: bool,
}

impl PoolServiceView {
    /// Targets of the main chain for an algorithm.
    pub open spec fn targets(self, algo: PowAlgorithm) -> Map<u64, Difficulty> {
        match algo {
            PowAlgorithm::RandomX => self.random_x_targets,
            PowAlgorithm::Sha3x => self.sha3x_targets,
        }
    }

    /// Blocks that miners of an algorithm work on.
    pub open spec fn templates(self, algo: PowAlgorithm) -> TemplatesView {
        match algo {
            PowAlgorithm::RandomX => self.random_x_templates,
            PowAlgorithm::Sha3x => self.sha3x_templates,
        }
    }

    /// The target of the main chain at a height; the least one if it is not known.
    pub open spec fn target_at(self, algo: PowAlgorithm, height: u64) -> u64 {
        if self.targets(algo).dom().contains(height) {
            self.targets(algo)[height]@
        } else {
            MIN_DIFFICULTY
        }
    }

    /// The service with the target of the main chain at a height.
    pub open spec fn with_target(self, algo: PowAlgorithm, height: u64, target: Difficulty) -> PoolServiceView {
        match algo {
            PowAlgorithm::RandomX => PoolServiceView {
                random_x_targets: self.random_x_targets.insert(height, target),
                ..self
            },
            PowAlgorithm::Sha3x => PoolServiceView {
                sha3x_targets: self.sha3x_targets.insert(height, target),
                ..self
            },
        }
    }

    /// The service with a new template.
    pub open spec fn with_template(self, algo: PowAlgorithm, hash: FixedHash, block: BlockView) -> PoolServiceView {
        match algo {
            PowAlgorithm::RandomX => PoolServiceView {
                random_x_templates: self.random_x_templates.saved(hash, block),
                ..self
            },
            PowAlgorithm::Sha3x => PoolServiceView {
                sha3x_templates: self.sha3x_templates.saved(hash, block),
                ..self
            },
        }
    }

    /// Why a new block of the base node is of no use, if it is not.
    pub open spec fn reply_fault(reply: NewBlockReply) -> Option<(Code, Seq<char>)> {
        if reply.target_difficulty is None {
            Some((Code::Internal, "missing miner data"@))
        } else {
            match reply.block {
                None => Some((Code::Internal, "missing missing block"@)),
                Some(Err(text)) => Some(
                    (Code::Internal, "Could not convert gprc block to tari block: "@ + text@),
                ),
                Some(Ok(_)) => if reply.height is None {
                    Some((Code::Internal, "missing missing header"@))
                } else if reply.target_difficulty.unwrap() < MIN_DIFFICULTY {
                    Some((Code::Internal, "Invalid target difficulty"@))
                } else {
                    None
                },
            }
        }
    }

    /// The block that a miner works on, before it is hashed: it has a new target, and its total work goes with it.
    pub open spec fn template(block: BlockView, tari: TariBlock, target: u64) -> BlockView {
        BlockView {
            target_difficulty: target,
            total_pow: (block.total_pow + target - block.target_difficulty) as u128,
            ..PoolServiceView::mined(block, tari)
        }
    }

    /// Whether the total work of a template does not fit.
    pub open spec fn template_overflows(block: BlockView, target: u64) -> bool {
        block.total_pow + target > u128::MAX || block.total_pow + target - block.target_difficulty < MIN_DIFFICULTY
    }

    /// What becomes of a new block when the base node has answered: `result` is what the miner is told, and the service
    /// is `after`.
    pub open spec fn finishes(
        self,
        algo: PowAlgorithm,
        block: BlockView,
        reply: NewBlockReply,
        target: u64,
        result: Result<NewBlock, Status>,
        after: PoolServiceView,
    ) -> bool {
        match PoolServiceView::reply_fault(reply) {
            Some(fault) => (result matches Err(status) && status@ == fault) && after == self,
            None => {
                let tari = reply.block.unwrap()->Ok_0;
                let main_target = reply.target_difficulty.unwrap();
                let plain = PoolServiceView::template(block, tari, target);
                exists|network: Difficulty|
                    {
                        let noted = self.with_target(algo, reply.height.unwrap(), network);
                        &&& #[trigger] network@ == main_target
                        &&& if PoolServiceView::template_overflows(block, target) {
                            (result matches Err(status) && status@ == chain_fault(
                                ShareChainError::DifficultyOverflow,
                            )) && after == noted
                        } else {
                            &&& result matches Ok(answer)
                            &&& answer.target_difficulty == target
                            &&& answer.miner_target_difficulty == (if target < main_target {
                                target
                            } else {
                                main_target
                            })
                            &&& answer.network_difficulty == network
                            &&& exists|hash: FixedHash| #[trigger]
                                plain.hashes_to(hash) && after == noted.with_template(
                                    algo,
                                    reply.tari_hash,
                                    BlockView { hash, ..plain },
                                )
                        }
                    }
            },
        }
    }

    /// Why a block that was mined is of no use, if it is not.
    pub open spec fn submission_fault(
        self,
        algo: PowAlgorithm,
        hash: FixedHash,
        mined: Result<TariBlock, String>,
        achieved: Result<Difficulty, String>,
    ) -> Option<(Code, Seq<char>)> {
        match mined {
            Err(text) => Some((Code::Internal, "Could not convert gprc block to tari block: "@ + text@)),
            Ok(_) => if !self.templates(algo).blocks.dom().contains(hash) {
                Some((Code::Internal, "missing template"@))
            } else {
                match achieved {
                    Err(text) => Some((Code::Internal, text@)),
                    Ok(_) => None,
                }
            },
        }
    }

    /// A template with the main-chain block that was mined.
    pub open spec fn mined(template: BlockView, tari: TariBlock) -> BlockView {
        BlockView {
            header: tari.header@,
            coinbases: tari.coinbases@.map_values(|c: CoinbaseOutput| c@),
            other_output_hash: tari.other_output_hash,
            ..template
        }
    }
}

/// The free bytes of a squad and a message; none if they do not fit.
pub open spec fn extra_or_none(squad: Seq<char>, message: Seq<char>) -> Seq<u8> {
    match crate::server::grpc::util::coinbase_extra(squad, message) {
        Ok(bytes) => bytes,
        Err(_) => Seq::empty(),
    }
}

/// What users are told when the share chain cannot make a block: the name of the error. None of those that can come has
/// fields.
pub open spec fn chain_fault(error: ShareChainError) -> (Code, Seq<char>) {
    (Code::Internal, "failed to convert coinbase extra "@ + error.spec_name())
}

impl ShareChainView {
    /// Whether this is what comes of submitting a block.
    pub open spec fn submits(
        self,
        block: BlockView,
        achieved: Option<u64>,
        after: ShareChainView,
        accepted: bool,
    ) -> bool {
        exists|fuel: nat|
            {
                let outcome = #[trigger] self.submitted_current(block, achieved, false, fuel);
                outcome is Some && outcome.unwrap().0 == after && accepted == (outcome.unwrap().1 is Ok)
            }
    }

    /// Whether this is what comes of asking for a new block: the block that comes next on the share chain, and the
    /// outputs that pay the miners, the recent ones and the one who asks. Nothing changes but the shares that are kept.
    pub open spec fn prepares(
        self,
        miner: Seq<u8>,
        extra: Seq<u8>,
        timestamp: u64,
        result: Result<(P2Block, Vec<NewBlockCoinbase>), Status>,
        after: ShareChainView,
    ) -> bool {
        match self.chain.offered_uncles(self.chain.next_height()) {
            Err(error) => (result matches Err(status) && status@ == chain_fault(error)) && after == self,
            Ok(uncles) => {
                let (block, total) = self.chain.next_block(uncles, miner, extra, timestamp);
                if self.chain.next_work_overflows(uncles) {
                    (result matches Err(status) && status@ == chain_fault(ShareChainError::DifficultyOverflow))
                        && after == self
                } else {
                    self.chain.keeps_after_payout(after.chain.cached_shares) && exists|hash: FixedHash|
                        {
                            let hashed = BlockView { hash, ..block };
                            &&& #[trigger] block.hashes_to(hash)
                            &&& match self.chain.payout(hashed) {
                                Err(error) => result matches Err(status) && status@ == chain_fault(error),
                                Ok(shares) => {
                                    &&& result is Ok
                                    &&& result->Ok_0.0@ == hashed
                                    &&& exists|list: Seq<ShareView>|
                                        {
                                            &&& #[trigger] ShareTable::lists(list, shares)
                                            &&& result->Ok_0.1@.map_values(|c: NewBlockCoinbase| c@)
                                                == NewCoinbaseView::paying(list, list.len() as int)
                                        }
                                    &&& NewCoinbaseView::settles(
                                        result->Ok_0.1@.map_values(|c: NewBlockCoinbase| c@),
                                        self.chain,
                                        hashed,
                                    )
                                    &&& forall|paid: Seq<u8>|
                                        (paid == miner || self.chain.mined_recently(paid)) && #[trigger]
                                            crate::sharechain::p2block::address_text(
                                            paid,
                                        ) is Some ==> NewCoinbaseView::pays_once(
                                            result->Ok_0.1@.map_values(|c: NewBlockCoinbase| c@),
                                            crate::sharechain::p2block::address_text(paid)->Some_0,
                                        )
                                },
                            }
                        }
                }
            },
        }
    }
}

/// The algorithm that a request names.
pub fn requested_algo(pow_algo: Option<u64>) -> (result: Result<PowAlgorithm, Status>)
    ensures
        match pow_algo {
            None => result matches Err(status) && status@ == (Code::InvalidArgument, "missing pow in request"@),
            Some(number) => if number == ALGO_RANDOM_X || number == ALGO_SHA3X {
                result matches Ok(algo) && algo.number() == number
            } else {
                result matches Err(status) && status@ == (
                    Code::Internal,
                    "invalid block header pow algo in request"@,
                )
            },
        },
{
    match pow_algo {
        None => Err(Status::new(Code::InvalidArgument, "missing pow in request")),
        Some(number) => match PowAlgorithm::from_u64(number) {
            Some(algo) => Ok(algo),
            None => Err(Status::new(Code::Internal, "invalid block header pow algo in request")),
        },
    }
}

/// The greatest number that a request may name an algorithm by.
pub const MAX_ALGO_NUMBER: u64 = 0x7fff_ffff;

/// The algorithm of a block that was mined. `block` is what the request holds: nothing, a block without a header, or a
/// header with the number of its algorithm, where it has one.
pub fn submitted_algo(block: Option<Option<Option<u64>>>) -> (result: Result<PowAlgorithm, Status>)
    ensures
        match block {
            None => result matches Err(status) && status@ == (Code::Internal, "missing block in request"@),
            Some(None) => result matches Err(status) && status@ == (
                Code::Internal,
                "missing block header in request"@,
            ),
            Some(Some(None)) => result matches Err(status) && status@ == (
                Code::Internal,
                "missing block header pow in request"@,
            ),
            Some(Some(Some(number))) => if number > MAX_ALGO_NUMBER {
                result matches Err(status) && status@ == (Code::Internal, "general error"@)
            } else if number == ALGO_RANDOM_X || number == ALGO_SHA3X {
                result matches Ok(algo) && algo.number() == number
            } else {
                result matches Err(status) && status@ == (
                    Code::Internal,
                    "invalid block header pow algo in request"@,
                )
            },
        },
{
    match block {
        None => Err(Status::new(Code::Internal, "missing block in request")),
        Some(None) => Err(Status::new(Code::Internal, "missing block header in request")),
        Some(Some(None)) => Err(Status::new(Code::Internal, "missing block header pow in request")),
        Some(Some(Some(number))) => {
            if number > MAX_ALGO_NUMBER {
                return Err(Status::new(Code::Internal, "general error"));
            }
            match PowAlgorithm::from_u64(number) {
                Some(algo) => Ok(algo),
                None => Err(Status::new(Code::Internal, "invalid block header pow algo in request")),
            }
        },
    }
}

/// What a miner is told of a request for a new block; `None` if it took too long.
pub fn new_block_answer(outcome: Option<Result<NewBlock, Status>>) -> (answer: Result<NewBlock, Status>)
    ensures
        match outcome {
            Some(result) => answer == result,
            None => answer matches Err(status) && status@ == (
                Code::DeadlineExceeded,
                "get_new_block timed out"@,
            ),
        },
{
    match outcome {
        Some(result) => result,
        None => Err(Status::new(Code::DeadlineExceeded, "get_new_block timed out")),
    }
}

/// What a miner is told of a block that was mined: the hash of its template, or that it failed; `None` if it took too
/// long.
pub fn submission_answer(outcome: Option<Result<FixedHash, Status>>) -> (answer: Result<FixedHash, Status>)
    ensures
        match outcome {
            Some(Ok(hash)) => answer matches Ok(told) && told == hash,
            Some(Err(_)) => answer matches Err(status) && status@ == (Code::Internal, "submit_block failed"@),
            None => answer matches Err(status) && status@ == (Code::DeadlineExceeded, "submit_block timed out"@),
        },
{
    match outcome {
        Some(Ok(hash)) => Ok(hash),
        Some(Err(_)) => Err(Status::new(Code::Internal, "submit_block failed")),
        None => Err(Status::new(Code::DeadlineExceeded, "submit_block timed out")),
    }
}

impl ShaP2PoolGrpc {
    /// The templates are in order.
    pub open spec fn wf(&self) -> bool {
        self.templates_sha3x.wf() && self.templates_rx.wf()
    }

    /// Nothing was asked for.
    pub fn new(squad: Squad) -> (service: Self)
        ensures
            service.wf(),
            service@.squad == squad@,
            service@.sha3x_targets == Map::<u64, Difficulty>::empty(),
            service@.random_x_targets == Map::<u64, Difficulty>::empty(),
            service@.max_difficulty@ == MIN_DIFFICULTY,
            service@.sha3x_templates.blocks == Map::<FixedHash, BlockView>::empty(),
            service@.random_x_templates.blocks == Map::<FixedHash, BlockView>::empty(),
    {
        broadcast use vstd::std_specs::hash::group_hash_axioms;

        ShaP2PoolGrpc {
            squad,
            sha3_block_height_difficulty_cache: HashMap::new(),
            randomx_block_height_difficulty_cache: HashMap::new(),
            stats_max_difficulty_since_last_success: Difficulty::min(),
            templates_sha3x: TemplateStore::new(),
            templates_rx: TemplateStore::new(),
        }
    }

    /// Prepares a new block which contains all the shares generated from the current share chain as coinbases. The
    /// base node is then asked for a main-chain block with these coinbases.
    pub fn prepare_new_block(
        &self,
        chain: &mut InMemoryShareChain,
        wallet_payment_address: &str,
        custom_coinbase_extra: String,
        timestamp: u64,
    ) -> (result: Result<(P2Block, Vec<NewBlockCoinbase>), Status>)
        requires
            old(chain).wf(),
        ensures
            final(chain).wf(),
            final(chain)@ == (ShareChainView {
                chain: ChainView { cached_shares: final(chain)@.chain.cached_shares, ..old(chain)@.chain },
                ..old(chain)@
            }),
            match crate::sharechain::p2block::address_of_text(wallet_payment_address@) {
                None => (result matches Err(status) && status@ == (
                    Code::FailedPrecondition,
                    "Invalid wallet payment address:  "@ + crate::sharechain::p2block::NO_ADDRESS@,
                )) && final(chain)@ == old(chain)@,
                Some(miner) => old(chain)@.prepares(
                    miner,
                    extra_or_none(self@.squad, custom_coinbase_extra@),
                    timestamp,
                    result,
                    final(chain)@,
                ),
            },
    {
        let ghost start = chain@;
        let miner = match TariAddress::from_text(wallet_payment_address) {
            Ok(miner) => miner,
            Err(error) => {
                return Err(
                    Status::with_cause(
                        Code::FailedPrecondition,
                        "Invalid wallet payment address:  ",
                        error.as_str(),
                    ),
                );
            },
        };
        let ghost message = custom_coinbase_extra@;
        let extra = match convert_coinbase_extra(self.squad.clone(), custom_coinbase_extra) {
            Ok(extra) => extra,
            Err(_) => Vec::new(),
        };
        let ghost extra_view = extra_or_none(self@.squad, message);
        proof {
            assert(extra@ =~= extra_view);
            assert(extra@.len() <= 515);
        }
        let ghost name = miner@;
        let block = match chain.generate_new_tip_block(miner, extra, timestamp) {
            Ok(block) => (*block).clone(),
            Err(error) => {
                return Err(
                    Status::with_cause(Code::Internal, "failed to convert coinbase extra ", error.name()),
                );
            },
        };
        let ghost uncles = start.chain.offered_uncles(start.chain.next_height())->Ok_0;
        let ghost plain = start.chain.next_block(uncles, name, extra_view, timestamp).0;
        assert(plain.hashes_to(block@.hash));
        assert(block@ == BlockView { hash: block@.hash, ..plain });
        match chain.generate_shares(&block) {
            Ok(coinbases) => Ok((block, coinbases)),
            Err(error) => Err(
                Status::with_cause(Code::Internal, "failed to convert coinbase extra ", error.name()),
            ),
        }
    }

    /// Finishes a new block with what the base node answered, and saves it as a template. `target_difficulty` is the
    /// target of the share chain.
    pub fn finish_new_block(
        &mut self,
        algo: PowAlgorithm,
        new_tip_block: P2Block,
        reply: NewBlockReply,
        target_difficulty: Difficulty,
    ) -> (result: Result<NewBlock, Status>)
        requires
            old(self).wf(),
            new_tip_block@.encodable(),
            reply.block matches Some(Ok(tari)) ==> tari.header@.nonce == 0,
        ensures
            final(self).wf(),
            old(self)@.finishes(algo, new_tip_block@, reply, target_difficulty@, result, final(self)@),
    {
        broadcast use vstd::std_specs::hash::group_hash_axioms;

        let ghost asked = new_tip_block@;
        let main_target: u64 = match reply.target_difficulty {
            Some(target) => target,
            None => {
                return Err(Status::new(Code::Internal, "missing miner data"));
            },
        };
        let tari = match reply.block {
            Some(Ok(tari)) => tari,
            Some(Err(text)) => {
                return Err(
                    Status::with_cause(
                        Code::Internal,
                        "Could not convert gprc block to tari block: ",
                        text.as_str(),
                    ),
                );
            },
            None => {
                return Err(Status::new(Code::Internal, "missing missing block"));
            },
        };
        let height: u64 = match reply.height {
            Some(height) => height,
            None => {
                return Err(Status::new(Code::Internal, "missing missing header"));
            },
        };
        let network_difficulty = match Difficulty::from_u64(main_target) {
            Some(difficulty) => difficulty,
            None => {
                return Err(Status::new(Code::Internal, "Invalid target difficulty"));
            },
        };
        let ghost plain = PoolServiceView::template(asked, tari, target_difficulty@);
        assert(network_difficulty@ == main_target);
        match algo {
            PowAlgorithm::RandomX => {
                self.randomx_block_height_difficulty_cache.insert(height, network_difficulty);
            },
            PowAlgorithm::Sha3x => {
                self.sha3_block_height_difficulty_cache.insert(height, network_difficulty);
            },
        }
        let mut block = new_tip_block;
        block.populate_tari_data(tari);
        match block.change_target_difficulty(target_difficulty) {
            Ok(()) => {},
            Err(error) => {
                return Err(
                    Status::with_cause(Code::Internal, "failed to convert coinbase extra ", error.name()),
                );
            },
        }
        let ghost hash = block@.hash;
        assert(plain.hashes_to(hash));
        assert(block@ =~= BlockView { hash, ..plain });
        let miner_target_difficulty: u64 = if target_difficulty.as_u64() < main_target {
            target_difficulty.as_u64()
        } else {
            main_target
        };
        match algo {
            PowAlgorithm::RandomX => {
                self.templates_rx.save(reply.tari_hash, block);
            },
            PowAlgorithm::Sha3x => {
                self.templates_sha3x.save(reply.tari_hash, block);
            },
        }
        Ok(NewBlock { target_difficulty: target_difficulty.as_u64(), miner_target_difficulty, network_difficulty })
    }

    /// Finishes a new block for a share chain, with the target that the chain asks for. `min` and `max` are the bounds of
    /// the main chain, and `average` is what the moving average over the share chain's window says.
    pub fn finish_new_block_on(
        &mut self,
        chain: &InMemoryShareChain,
        new_tip_block: P2Block,
        reply: NewBlockReply,
        min: Difficulty,
        max: Difficulty,
        average: Option<Difficulty>,
    ) -> (result: Result<NewBlock, Status>)
        requires
            old(self).wf(),
            new_tip_block@.encodable(),
            reply.block matches Some(Ok(tari)) ==> tari.header@.nonce == 0,
            min@ >= ShareChainView::scaling_factor(chain@.pow_algo),
        ensures
            final(self).wf(),
            old(self)@.finishes(
                chain@.pow_algo,
                new_tip_block@,
                reply,
                chain@.target(min@, max@, crate::sharechain::in_memory::reached(average)),
                result,
                final(self)@,
            ),
    {
        let target = chain.get_target_difficulty(min, max, average);
        self.finish_new_block(chain.pow_algo, new_tip_block, reply, target)
    }

    /// Checks a block that a miner mined: it must have a template. `tari_hash` is the hash of the main-chain block with
    /// a nonce of 0, `mined` the main-chain block, and `achieved` the difficulty that it reached; or why those could not
    /// be found.
    pub fn check_submission(
        &mut self,
        algo: PowAlgorithm,
        tari_hash: &FixedHash,
        mined: Result<TariBlock, String>,
        achieved: Result<Difficulty, String>,
    ) -> (result: Result<Submission, Status>)
        requires
            old(self).wf(),
        ensures
            final(self).wf(),
            match old(self)@.submission_fault(algo, *tari_hash, mined, achieved) {
                Some(fault) => (result matches Err(status) && status@ == fault) && final(self)@ == old(self)@,
                None => {
                    let tari = mined->Ok_0;
                    let difficulty = achieved->Ok_0;
                    &&& result matches Ok(submission)
                    &&& submission.block@ == PoolServiceView::mined(
                        old(self)@.templates(algo).blocks[*tari_hash],
                        tari,
                    )
                    &&& submission.to_main_chain == (difficulty@ >= old(self)@.target_at(
                        tari.header@.pow_algo,
                        tari.header@.height,
                    ))
                    &&& final(self)@ == (PoolServiceView {
                        max_difficulty: if old(self)@.max_difficulty@ < difficulty@ {
                            difficulty
                        } else {
                            old(self)@.max_difficulty
                        },
                        ..old(self)@
                    })
                },
            },
    {
        broadcast use vstd::std_specs::hash::group_hash_axioms;

        let mined = match mined {
            Ok(mined) => mined,
            Err(text) => {
                return Err(
                    Status::with_cause(
                        Code::Internal,
                        "Could not convert gprc block to tari block: ",
                        text.as_str(),
                    ),
                );
            },
        };
        let template = match algo {
            PowAlgorithm::RandomX => self.templates_rx.get(tari_hash),
            PowAlgorithm::Sha3x => self.templates_sha3x.get(tari_hash),
        };
        let mut block = match template {
            Some(block) => block,
            None => {
                return Err(Status::new(Code::Internal, "missing template"));
            },
        };
        let difficulty = match achieved {
            Ok(difficulty) => difficulty,
            Err(text) => {
                return Err(Status { code: Code::Internal, message: text });
            },
        };
        let height = mined.header.height;
        let known = match mined.header.pow_algo {
            PowAlgorithm::RandomX => self.randomx_block_height_difficulty_cache.get(&height),
            PowAlgorithm::Sha3x => self.sha3_block_height_difficulty_cache.get(&height),
        };
        // Check block's difficulty compared to the latest network one to increase the probability
        // to get the block accepted (and also a block with lower difficulty than latest one is invalid anyway).
        let network_difficulty: u64 = match known {
            Some(target) => target.as_u64(),
            None => MIN_DIFFICULTY,
        };
        let to_main_chain = difficulty.as_u64() >= network_difficulty;
        block.populate_tari_data(mined);
        if self.stats_max_difficulty_since_last_success.as_u64() < difficulty.as_u64() {
            self.stats_max_difficulty_since_last_success = difficulty;
        }
        Ok(Submission { block, to_main_chain })
    }

    /// The base node took a block onto the main chain.
    pub fn main_chain_accepted(&mut self, submission: Submission) -> (block: P2Block)
        requires
            old(self).wf(),
        ensures
            final(self).wf(),
            final(self)@.max_difficulty@ == MIN_DIFFICULTY,
            final(self)@ == (PoolServiceView { max_difficulty: final(self)@.max_difficulty, ..old(self)@ }),
            block@ == (BlockView { sent_to_main_chain: true, ..submission.block@ }),
    {
        self.stats_max_difficulty_since_last_success = Difficulty::min();
        let mut block = submission.block;
        block.sent_to_main_chain = true;
        block
    }

    /// What becomes of a submission that has been offered to the base node, if it was to be. `refusal` is why the base
    /// node did not take it; `None` if it did. A block that was refused goes nowhere: there is an error, and no block for
    /// the share chain.
    pub fn main_chain_answered(&mut self, submission: Submission, refusal: Option<String>) -> (result: Result<
        P2Block,
        Status,
    >)
        requires
            old(self).wf(),
        ensures
            final(self).wf(),
            result is Err <==> submission.to_main_chain && refusal is Some,
            result matches Err(status) ==> status@ == (Code::Internal, refusal.unwrap()@) && final(self)@ == old(
                self,
            )@,
            result matches Ok(block) ==> block@ == (if submission.to_main_chain {
                BlockView { sent_to_main_chain: true, ..submission.block@ }
            } else {
                submission.block@
            }),
            result is Ok && !submission.to_main_chain ==> final(self)@ == old(self)@,
            result is Ok && submission.to_main_chain ==> {
                &&& final(self)@.max_difficulty@ == MIN_DIFFICULTY
                &&& final(self)@ == (PoolServiceView { max_difficulty: final(self)@.max_difficulty, ..old(self)@ })
            },
    {
        if !submission.to_main_chain {
            return Ok(submission.block);
        }
        match refusal {
            Some(message) => Err(Status { code: Code::Internal, message }),
            None => Ok(self.main_chain_accepted(submission)),
        }
    }

    /// Submits a new block to the share chain of its algorithm. Tells whether it got onto the chain; then it is
    /// broadcast to the p2p network.
    pub fn submit_share_chain_block(
        share_chain_sha3x: &mut InMemoryShareChain,
        share_chain_random_x: &mut InMemoryShareChain,
        block: Arc<P2Block>,
        achieved: Option<Difficulty>,
    ) -> (accepted: bool)
        requires
            old(share_chain_sha3x).wf(),
            old(share_chain_random_x).wf(),
        ensures
            final(share_chain_sha3x).wf(),
            final(share_chain_random_x).wf(),
            match block@.header.pow_algo {
                PowAlgorithm::Sha3x => old(share_chain_sha3x)@.submits(
                    block@,
                    crate::sharechain::in_memory::reached(achieved),
                    final(share_chain_sha3x)@,
                    accepted,
                ) && final(share_chain_random_x)@ == old(share_chain_random_x)@,
                PowAlgorithm::RandomX => old(share_chain_random_x)@.submits(
                    block@,
                    crate::sharechain::in_memory::reached(achieved),
                    final(share_chain_random_x)@,
                    accepted,
                ) && final(share_chain_sha3x)@ == old(share_chain_sha3x)@,
            },
    {
        match block.original_header.pow_algo {
            PowAlgorithm::Sha3x => Self::submit_to(share_chain_sha3x, block, achieved),
            PowAlgorithm::RandomX => Self::submit_to(share_chain_random_x, block, achieved),
        }
    }

    fn submit_to(chain: &mut InMemoryShareChain, block: Arc<P2Block>, achieved: Option<Difficulty>) -> (accepted: bool)
        requires
            old(chain).wf(),
        ensures
            final(chain).wf(),
            old(chain)@.submits(
                block@,
                crate::sharechain::in_memory::reached(achieved),
                final(chain)@,
                accepted,
            ),
    {
        let ghost start = chain@;
        let result = chain.submit_block(block, achieved);
        let ghost fuel = choose|fuel: nat| #[trigger]
            start.submitted_current(block@, crate::sharechain::in_memory::reached(achieved), false, fuel) == Some(
                (chain@, crate::sharechain::p2chain::add_outcome(result)),
            );
        assert(start.submitted_current(
            block@,
            crate::sharechain::in_memory::reached(achieved),
            false,
            fuel,
        ) is Some);
        result.is_ok()
    }
}

/// A template that was given out is found again when it was mined: the mined block is the template with another nonce
/// and whatever else the miner put into the main-chain block.
pub proof fn law_mined_block_keeps_its_template(
    service: PoolServiceView,
    algo: PowAlgorithm,
    height: u64,
    target: Difficulty,
    hash: FixedHash,
    block: BlockView,
    tari: TariBlock,
)
    ensures
        ({
            let after = service.with_target(algo, height, target).with_template(algo, hash, block);
            let mined = PoolServiceView::mined(after.templates(algo).blocks[hash], tari);
            &&& after.templates(algo).blocks.dom().contains(hash)
            &&& after.target_at(algo, height) == target@
            &&& mined.height == block.height
            &&& mined.prev_hash == block.prev_hash
            &&& mined.miner == block.miner
            &&& mined.uncles == block.uncles
            &&& mined.target_difficulty == block.target_difficulty
            &&& mined.total_pow == block.total_pow
        }),
{
}

/// A template claims the work of the block that it was made from, with its own target in place of the old one.
pub proof fn law_templates_claim_their_work(block: BlockView, tari: TariBlock, target: u64)
    requires
        !PoolServiceView::template_overflows(block, target),
    ensures
        PoolServiceView::template(block, tari, target).total_pow - target == block.total_pow - block.target_difficulty,
{
}

/// The template of a block that comes next comes next, too, and so does what is mined from it.
pub proof fn law_templates_come_next(
    chain: ChainView,
    block: BlockView,
    tari: TariBlock,
    target: u64,
    hash: FixedHash,
    mined: TariBlock,
)
    requires
        chain.comes_next(block),
        !PoolServiceView::template_overflows(block, target),
        hash != FixedHash::spec_zero(),
    ensures
        ({
            let template = BlockView { hash, ..PoolServiceView::template(block, tari, target) };
            chain.comes_next(template) && chain.comes_next(PoolServiceView::mined(template, mined))
        }),
{
}

}
