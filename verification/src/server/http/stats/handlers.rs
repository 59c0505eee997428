//! What is answered to questions over HTTP.
use crate::server::p2p::ticks::{ConnectedPeerInfo, ShownView};
use crate::sharechain::p2block::{BlockView, P2Block};
use crate::text::{copy_text, is_same_letters, parse_u64, to_hex};
use crate::types::PowAlgorithm;
use std::sync::Arc;
use vstd::prelude::*;

verus! {

/// How many blocks are shown if nothing else is asked for.
pub const DEFAULT_BLOCK_COUNT: usize = 20;

/// A page of a chain.
#[derive(Clone, Copy)]
pub struct ChainQuery {
    /// The chain.
    pub algo: PowAlgorithm,
    /// Height of the lowest block.
    pub height: u64,
    /// How many blocks.
    pub count: usize,
}

/// Why a question cannot be answered.
#[derive(Clone, Copy, PartialEq, Eq, Structural, Debug)]
pub enum BadRequest {
    /// No chain is named.
    MissingAlgo,
    /// The name is that of no chain.
    InvalidAlgo,
    /// The height is no number.
    InvalidHeight,
    /// The count is no number.
    InvalidCount,
}

impl ChainQuery {
    /// The chain of a name, in any case of letters.
    pub open spec fn algo_named(name: Seq<char>) -> Option<PowAlgorithm> {
        if crate::text::same_letters(name, "sha3x"@) {
            Some(PowAlgorithm::Sha3x)
        } else if crate::text::same_letters(name, "randomx"@) {
            Some(PowAlgorithm::RandomX)
        } else {
            None
        }
    }

    /// The number of an optional text: `None` if the text is no number or one above `max`.
    pub open spec fn number_or(text: Option<Seq<char>>, default: nat, max: nat) -> Option<nat> {
        match text {
            None => Some(default),
            Some(t) => match crate::text::number(t) {
                Some(n) => if n <= max {
                    Some(n)
                } else {
                    None
                },
                None => None,
            },
        }
    }

    /// The page that is asked for.
    pub open spec fn asked(
        algo: Option<Seq<char>>,
        height: Option<Seq<char>>,
        count: Option<Seq<char>>,
    ) -> Result<ChainQuery, BadRequest> {
        match algo {
            None => Err(BadRequest::MissingAlgo),
            Some(name) => match ChainQuery::algo_named(name) {
                None => Err(BadRequest::InvalidAlgo),
                Some(algo) => match ChainQuery::number_or(height, 0, u64::MAX as nat) {
                    None => Err(BadRequest::InvalidHeight),
                    Some(height) => match ChainQuery::number_or(
                        count,
                        DEFAULT_BLOCK_COUNT as nat,
                        usize::MAX as nat,
                    ) {
                        None => Err(BadRequest::InvalidCount),
                        Some(count) => Ok(ChainQuery { algo, height: height as u64, count: count as usize }),
                    },
                },
            },
        }
    }

    /// Reads which page is asked for.
    pub fn parse(algo: &Option<String>, height: &Option<String>, count: &Option<String>) -> (result: Result<
        ChainQuery,
        BadRequest,
    >)
        ensures
            result == ChainQuery::asked(
                crate::text::opt_text(*algo),
                crate::text::opt_text(*height),
                crate::text::opt_text(*count),
            ),
    {
        let algo = match algo {
            Some(name) => if is_same_letters(name.as_str(), "sha3x") {
                PowAlgorithm::Sha3x
            } else if is_same_letters(name.as_str(), "randomx") {
                PowAlgorithm::RandomX
            } else {
                return Err(BadRequest::InvalidAlgo);
            },
            None => {
                return Err(BadRequest::MissingAlgo);
            },
        };
        let height: u64 = match height {
            Some(text) => match parse_u64(text.as_str()) {
                Some(height) => height,
                None => {
                    return Err(BadRequest::InvalidHeight);
                },
            },
            None => 0,
        };
        let count: usize = match count {
            Some(text) => match parse_u64(text.as_str()) {
                Some(count) => {
                    if count > usize::MAX as u64 {
                        return Err(BadRequest::InvalidCount);
                    }
                    count as usize
                },
                None => {
                    return Err(BadRequest::InvalidCount);
                },
            },
            None => DEFAULT_BLOCK_COUNT,
        };
        Ok(ChainQuery { algo, height, count })
    }
}

impl PowAlgorithm {
    /// The name of the algorithm in lower case.
    pub open spec fn lower_name(self) -> Seq<char> {
        match self {
            PowAlgorithm::RandomX => "randomx"@,
            PowAlgorithm::Sha3x => "sha3x"@,
        }
    }

    /// The name of the algorithm in lower case.
    pub fn to_lower_name(&self) -> (name: &'static str)
        ensures
            name@ == self.lower_name(),
    {
        match self {
            PowAlgorithm::RandomX => "randomx",
            PowAlgorithm::Sha3x => "sha3x",
        }
    }
}

/// What is shown of a block.
pub struct BlockResult {
    /// The block's hash in hexadecimal.
    pub hash: String,
    /// When it was made.
    pub timestamp: u64,
    /// Hash of the block below in hexadecimal.
    pub prev_hash: String,
    /// The block's height.
    pub height: u64,
    /// The miner in base58.
    pub miner_wallet_address: String,
    /// Whether the block got onto the main chain.
    pub sent_to_main_chain: bool,
    /// The block's target.
    pub target_difficulty: u64,
    /// Height of the main-chain block that it was mined for.
    pub candidate_block_height: u64,
    /// The chain.
    pub algo: String,
}

/// What a [`BlockResult`] holds.
#[verifier::ext_equal]
pub struct BlockResultView {
    pub hash: Seq<char>,
    pub timestamp: u64,
    pub prev_hash: Seq<char>,
    pub height: u64,
    pub miner: Seq<char>,
    pub sent_to_main_chain: bool,
    pub target_difficulty: u64,
    pub candidate_height: u64,
    pub algo: Seq<char>,
}

impl View for BlockResult {
    type V = BlockResultView;

    open spec fn view(&self) -> BlockResultView {
        BlockResultView {
            hash: self.hash@,
            timestamp: self.timestamp,
            prev_hash: self.prev_hash@,
            height: self.height,
            miner: self.miner_wallet_address@,
            sent_to_main_chain: self.sent_to_main_chain,
            target_difficulty: self.target_difficulty,
            candidate_height: self.candidate_block_height,
            algo: self.algo@,
        }
    }
}

impl BlockResultView {
    /// What is shown of a block. A miner without an address has no text.
    pub open spec fn of(block: BlockView, algo: PowAlgorithm) -> BlockResultView {
        BlockResultView {
            hash: crate::text::hex(block.hash.bytes()),
            timestamp: block.timestamp,
            prev_hash: crate::text::hex(block.prev_hash.bytes()),
            height: block.height,
            miner: match crate::sharechain::p2block::address_text(block.miner) {
                Some(text) => text,
                None => Seq::empty(),
            },
            sent_to_main_chain: block.sent_to_main_chain,
            target_difficulty: block.target_difficulty,
            candidate_height: block.header.height,
            algo: algo.lower_name(),
        }
    }
}

impl BlockResult {
    /// What is shown of some blocks.
    pub open spec fn views(results: Seq<BlockResult>) -> Seq<BlockResultView> {
        results.map_values(|r: BlockResult| r@)
    }

    /// What is shown of a block.
    pub fn of_block(block: &P2Block, algo: PowAlgorithm) -> (result: BlockResult)
        ensures
            result@ == BlockResultView::of(block@, algo),
    {
        let hash = block.hash.to_vec();
        let prev_hash = block.prev_hash.to_vec();
        BlockResult {
            hash: to_hex(&hash),
            timestamp: block.timestamp,
            prev_hash: to_hex(&prev_hash),
            height: block.height,
            miner_wallet_address: match block.miner_wallet_address.to_base58() {
                Some(text) => text,
                None => {
                    let none = String::new();
                    assert(none@ =~= Seq::empty());
                    none
                },
            },
            sent_to_main_chain: block.sent_to_main_chain,
            target_difficulty: block.target_difficulty.as_u64(),
            candidate_block_height: block.original_header.height,
            algo: copy_text(algo.to_lower_name()),
        }
    }
}

/// What is shown of some blocks of a chain.
pub fn show_blocks(blocks: &Vec<Arc<P2Block>>, algo: PowAlgorithm) -> (results: Vec<BlockResult>)
    ensures
        results@.len() == blocks@.len(),
        forall|i: int|
            0 <= i < blocks@.len() ==> (#[trigger] BlockResult::views(results@)[i]) == BlockResultView::of(
                blocks@[i]@,
                algo,
            ),
{
    let mut results: Vec<BlockResult> = Vec::new();
    let mut i: usize = 0;
    while i < blocks.len()
        invariant
            i <= blocks@.len(),
            results@.len() == i,
            forall|j: int| 0 <= j < i ==> (#[trigger] results@[j])@ == BlockResultView::of(blocks@[j]@, algo),
        decreases blocks@.len() - i,
    {
        results.push(BlockResult::of_block(&blocks[i], algo));
        i = i + 1;
    }
    results
}

impl ShownView {
    /// Puts a peer behind all those whose SHA3x chain is not higher.
    pub open spec fn inserted(list: Seq<(Seq<char>, ShownView)>, peer: (Seq<char>, ShownView)) -> Seq<
        (Seq<char>, ShownView),
    >
        decreases list.len(),
    {
        if list.len() == 0 || list.last().1.peer_info.current_sha3x_height <= peer.1.peer_info.current_sha3x_height {
            list.push(peer)
        } else {
            ShownView::inserted(list.drop_last(), peer).push(list.last())
        }
    }

    /// The peers by the height of their SHA3x chain, lowest first; those of one height stay in their order.
    pub open spec fn by_height(list: Seq<(Seq<char>, ShownView)>) -> Seq<(Seq<char>, ShownView)>
        decreases list.len(),
    {
        if list.len() == 0 {
            list
        } else {
            ShownView::inserted(ShownView::by_height(list.drop_last()), list.last())
        }
    }
}

proof fn lemma_inserted_at(list: Seq<(Seq<char>, ShownView)>, peer: (Seq<char>, ShownView), place: int)
    requires
        0 <= place <= list.len(),
        forall|j: int|
            place <= j < list.len() ==> (#[trigger] list[j]).1.peer_info.current_sha3x_height
                > peer.1.peer_info.current_sha3x_height,
        place > 0 ==> list[place - 1].1.peer_info.current_sha3x_height <= peer.1.peer_info.current_sha3x_height,
    ensures
        ShownView::inserted(list, peer) == list.insert(place, peer),
    decreases list.len(),
{
    if place == list.len() {
        assert(list.insert(place, peer) =~= list.push(peer));
    } else {
        assert(list.last() == list[list.len() - 1]);
        let shorter = list.drop_last();
        assert forall|j: int| place <= j < shorter.len() implies (
        #[trigger] shorter[j]).1.peer_info.current_sha3x_height > peer.1.peer_info.current_sha3x_height by {
            assert(shorter[j] == list[j]);
        }
        lemma_inserted_at(shorter, peer, place);
        assert(list.insert(place, peer) =~= shorter.insert(place, peer).push(list.last()));
    }
}

/// The trusted peers in the order in which they are shown: by the height of their SHA3x chain.
pub fn sort_for_display(list: Vec<ConnectedPeerInfo>) -> (sorted: Vec<ConnectedPeerInfo>)
    ensures
        ConnectedPeerInfo::views(sorted@) == ShownView::by_height(ConnectedPeerInfo::views(list@)),
{
    let ghost all = ConnectedPeerInfo::views(list@);
    let ghost n = list@.len();
    let mut rest = list;
    let mut sorted: Vec<ConnectedPeerInfo> = Vec::new();
    assert(ConnectedPeerInfo::views(sorted@) =~= ShownView::by_height(all.take(0)));
    assert(ConnectedPeerInfo::views(rest@) =~= all.skip(0));
    let ghost mut done: int = 0;
    while rest.len() > 0
        invariant
            0 <= done,
            done + rest@.len() == n,
            n == all.len(),
            ConnectedPeerInfo::views(rest@) == all.skip(done),
            ConnectedPeerInfo::views(sorted@) == ShownView::by_height(all.take(done)),
        decreases rest@.len(),
    {
        let ghost waiting = ConnectedPeerInfo::views(rest@);
        assert(waiting[0] == rest@[0]@);
        let peer = rest.remove(0);
        assert(ConnectedPeerInfo::views(rest@) =~= waiting.skip(1));
        let ghost view = peer@;
        assert(view == all[done]);
        let mut place: usize = sorted.len();
        while place > 0 && sorted[place - 1].peer_info.current_sha3x_height > peer.peer_info.current_sha3x_height
            invariant
                place <= sorted@.len(),
                view == peer@,
                forall|j: int|
                    place <= j < sorted@.len() ==> (#[trigger] ConnectedPeerInfo::views(
                        sorted@,
                    )[j]).1.peer_info.current_sha3x_height > view.1.peer_info.current_sha3x_height,
            decreases place,
        {
            assert(ConnectedPeerInfo::views(sorted@)[place - 1] == sorted@[place - 1]@);
            place = place - 1;
        }
        let ghost before = ConnectedPeerInfo::views(sorted@);
        proof {
            if place > 0 {
                assert(before[place - 1] == sorted@[place - 1]@);
            }
            lemma_inserted_at(before, view, place as int);
            assert(all.take(done + 1).drop_last() =~= all.take(done));
            assert(all.take(done + 1).last() == view);
        }
        sorted.insert(place, peer);
        assert(ConnectedPeerInfo::views(sorted@) =~= before.insert(place as int, view));
        proof {
            assert(waiting.skip(1) =~= all.skip(done + 1));
            done = done + 1;
        }
    }
    assert(all.take(n as int) =~= all);
    sorted
}

/// Peers are shown in order of height, and all of them are shown.
pub proof fn law_peers_are_shown_by_height(list: Seq<(Seq<char>, ShownView)>)
    ensures
        ShownView::by_height(list).to_multiset() == list.to_multiset(),
        ShownView::by_height(list).len() == list.len(),
        forall|i: int, j: int|
            0 <= i <= j < list.len() ==> (#[trigger] ShownView::by_height(list)[i]).1.peer_info.current_sha3x_height
                <= (#[trigger] ShownView::by_height(list)[j]).1.peer_info.current_sha3x_height,
    decreases list.len(),
{
    broadcast use vstd::seq_lib::group_to_multiset_ensures;

    if list.len() > 0 {
        let shorter = list.drop_last();
        law_peers_are_shown_by_height(shorter);
        lemma_inserted_keeps_order(ShownView::by_height(shorter), list.last());
        assert(list =~= shorter.push(list.last()));
    }
}

proof fn lemma_inserted_keeps_order(list: Seq<(Seq<char>, ShownView)>, peer: (Seq<char>, ShownView))
    requires
        forall|i: int, j: int|
            0 <= i <= j < list.len() ==> (#[trigger] list[i]).1.peer_info.current_sha3x_height <= (
            #[trigger] list[j]).1.peer_info.current_sha3x_height,
    ensures
        ShownView::inserted(list, peer).to_multiset() == list.push(peer).to_multiset(),
        ShownView::inserted(list, peer).len() == list.len() + 1,
        forall|i: int, j: int|
            0 <= i <= j < list.len() + 1 ==> (#[trigger] ShownView::inserted(
                list,
                peer,
            )[i]).1.peer_info.current_sha3x_height <= (#[trigger] ShownView::inserted(
                list,
                peer,
            )[j]).1.peer_info.current_sha3x_height,
        forall|i: int|
            0 <= i < list.len() + 1 ==> {
                ||| #[trigger] ShownView::inserted(list, peer)[i] == peer
                ||| list.len() > 0 && ShownView::inserted(list, peer)[i].1.peer_info.current_sha3x_height
                    <= list.last().1.peer_info.current_sha3x_height
            },
    decreases list.len(),
{
    broadcast use vstd::seq_lib::group_to_multiset_ensures;

    if list.len() > 0 && list.last().1.peer_info.current_sha3x_height > peer.1.peer_info.current_sha3x_height {
        let shorter = list.drop_last();
        lemma_inserted_keeps_order(shorter, peer);
        assert(list =~= shorter.push(list.last()));
        let placed = ShownView::inserted(shorter, peer);
        assert(ShownView::inserted(list, peer) =~= placed.push(list.last()));
        assert(placed.push(list.last()).to_multiset() =~= list.push(peer).to_multiset());
    }
}

/// Every answer that can be given names a chain: without one a question is turned away, whatever else it asks.
pub proof fn law_chain_must_be_named(height: Option<Seq<char>>, count: Option<Seq<char>>)
    ensures
        ChainQuery::asked(None, height, count) == Err::<ChainQuery, _>(BadRequest::MissingAlgo),
{
}

/// A page is asked for by the name of a chain, in any case of letters, a height and a count. Numbers are read as they are
/// written; without them the page starts at the bottom and has 20 levels.
pub proof fn law_pages_are_asked_for(name: Seq<char>, height: u64, count: usize)
    ensures
        crate::text::same_letters(name, "sha3x"@) ==> ChainQuery::algo_named(name) == Some(PowAlgorithm::Sha3x),
        crate::text::same_letters(name, "randomx"@) ==> ChainQuery::algo_named(name) == Some(PowAlgorithm::RandomX),
        !crate::text::same_letters(name, "sha3x"@) && !crate::text::same_letters(name, "randomx"@)
            ==> ChainQuery::asked(Some(name), None, None) == Err::<ChainQuery, _>(BadRequest::InvalidAlgo),
        ChainQuery::algo_named(name) matches Some(algo) ==> ChainQuery::asked(
            Some(name),
            Some(crate::text::decimal(height as nat)),
            Some(crate::text::decimal(count as nat)),
        ) == Ok::<_, BadRequest>(ChainQuery { algo, height, count }),
        ChainQuery::algo_named(name) matches Some(algo) ==> ChainQuery::asked(Some(name), None, None) == Ok::<
            _,
            BadRequest,
        >(ChainQuery { algo, height: 0, count: 20 }),
        ChainQuery::algo_named(name) is Some ==> ChainQuery::asked(
            Some(name),
            Some(crate::text::decimal(u64::MAX as nat + 1)),
            None,
        ) == Err::<ChainQuery, _>(BadRequest::InvalidHeight),
{
    reveal_strlit("sha3x");
    reveal_strlit("randomx");
    crate::text::law_decimals_are_read_back(height as nat);
    crate::text::law_decimals_are_read_back(count as nat);
    crate::text::law_decimals_are_read_back(u64::MAX as nat + 1);
}

}
