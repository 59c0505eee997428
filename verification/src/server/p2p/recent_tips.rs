//! The last block that each of the most recent peers sent.
use crate::server::p2p::peer_id::PeerId;
use crate::types::FixedHash;
use vstd::prelude::*;

verus! {

/// A cache of the `lru` crate.
#[verifier::external_type_specification]
#[verifier::external_body]
#[verifier::reject_recursive_types(K)]
#[verifier::reject_recursive_types(V)]
#[verifier::reject_recursive_types(S)]
pub struct ExLruCache<K, V, S>(lru::LruCache<K, V, S>);

/// The hasher of such a cache.
#[verifier::external_type_specification]
#[verifier::external_body]
pub struct ExDefaultHasher(lru::DefaultHasher);

/// What a cache holds, the item that was put last first.
pub uninterp spec fn cached(cache: lru::LruCache<String, (u64, u128, u128)>) -> Seq<(Seq<char>, (u64, u128, u128))>;

/// How many items a cache keeps.
pub uninterp spec fn cache_limit(cache: lru::LruCache<String, (u64, u128, u128)>) -> nat;

/// `lru::LruCache::new`, which makes an empty cache that keeps `limit` items. It makes room for all of them at once.
#[verifier::external_body]
fn new_cache(limit: usize) -> (cache: lru::LruCache<String, (u64, u128, u128)>)
    requires
        0 < limit <= MAX_TIPS_TO_KEEP,
    ensures
        cached(cache) == Seq::<(Seq<char>, (u64, u128, u128))>::empty(),
        cache_limit(cache) == limit,
{
    lru::LruCache::new(std::num::NonZeroUsize::new(limit).unwrap())
}

/// `lru::LruCache::put`: the item goes to the front. An item with the same key leaves; if there is none and the cache
/// is full, the item at the back leaves.
#[verifier::external_body]
fn put_in_cache(cache: &mut lru::LruCache<String, (u64, u128, u128)>, key: String, value: (u64, u128, u128))
    ensures
        cached(*final(cache)) == RecentTips::after_put(cached(*old(cache)), cache_limit(*old(cache)), key@, value),
        cache_limit(*final(cache)) == cache_limit(*old(cache)),
{
    cache.put(key, value);
}

/// `lru::LruCache::iter`, which walks from the item that was put last to the one that was put first. Nothing but `put`
/// is ever called, so being used last is being put last.
#[verifier::external_body]
fn cache_values(cache: &lru::LruCache<String, (u64, u128, u128)>) -> (values: Vec<(u64, u128, u128)>)
    ensures
        values@ == cached(*cache).map_values(|item: (Seq<char>, (u64, u128, u128))| item.1),
{
    cache.iter().map(|item| *item.1).collect()
}

/// More tips than this are not kept.
pub const MAX_TIPS_TO_KEEP: usize = 65536;

/// The last block that each of the most recent peers sent, as height and hash.
pub struct RecentTips {
    /// The cache, by the peer's name.
    pub cache: lru::LruCache<String, (u64, u128, u128)>,
}

/// What [`RecentTips`] hold.
pub struct TipsView {
    pub items: Seq<(Seq<char>, (u64, FixedHash))>,
    pub limit: nat,
}

impl View for RecentTips {
    type V = TipsView;

    open spec fn view(&self) -> TipsView {
        TipsView {
            items: RecentTips::all_unpacked(cached(self.cache)),
            limit: cache_limit(self.cache),
        }
    }
}

impl TipsView {
    /// The items without the one of a peer.
    pub open spec fn without(items: Seq<(Seq<char>, (u64, FixedHash))>, peer: Seq<char>) -> Seq<
        (Seq<char>, (u64, FixedHash)),
    >
        decreases items.len(),
    {
        if items.len() == 0 {
            Seq::empty()
        } else if items.last().0 == peer {
            TipsView::without(items.drop_last(), peer)
        } else {
            TipsView::without(items.drop_last(), peer).push(items.last())
        }
    }

    /// Puts a peer's block in front; the oldest item leaves if there are too many.
    pub open spec fn put(self, peer: Seq<char>, block: (u64, FixedHash)) -> TipsView {
        let items = seq![(peer, block)] + TipsView::without(self.items, peer);
        TipsView {
            items: if items.len() > self.limit {
                items.take(self.limit as int)
            } else {
                items
            },
            ..self
        }
    }

    /// The blocks, the one that was put first in front.
    pub open spec fn oldest_first(self) -> Seq<(u64, FixedHash)> {
        Seq::new(self.items.len(), |i: int| self.items[self.items.len() - 1 - i].1)
    }
}

impl RecentTips {
    /// A block as the cache holds it.
    pub open spec fn unpacked(value: (u64, u128, u128)) -> (u64, FixedHash) {
        (value.0, FixedHash { first: value.1, second: value.2 })
    }

    /// What a cache holds, with the blocks unpacked.
    pub open spec fn all_unpacked(items: Seq<(Seq<char>, (u64, u128, u128))>) -> Seq<(Seq<char>, (u64, FixedHash))> {
        items.map_values(|item: (Seq<char>, (u64, u128, u128))| (item.0, RecentTips::unpacked(item.1)))
    }

    /// The items with other keys.
    pub open spec fn others(items: Seq<(Seq<char>, (u64, u128, u128))>, key: Seq<char>) -> Seq<
        (Seq<char>, (u64, u128, u128)),
    >
        decreases items.len(),
    {
        if items.len() == 0 {
            Seq::empty()
        } else if items.last().0 == key {
            RecentTips::others(items.drop_last(), key)
        } else {
            RecentTips::others(items.drop_last(), key).push(items.last())
        }
    }

    /// What a cache holds after `put`.
    pub open spec fn after_put(
        items: Seq<(Seq<char>, (u64, u128, u128))>,
        limit: nat,
        key: Seq<char>,
        value: (u64, u128, u128),
    ) -> Seq<(Seq<char>, (u64, u128, u128))> {
        let others = RecentTips::others(items, key);
        if others.len() < items.len() || items.len() < limit {
            seq![(key, value)] + others
        } else {
            (seq![(key, value)] + others).drop_last()
        }
    }

    /// There are never more items than are kept, and there is room for one.
    pub open spec fn wf(&self) -> bool {
        0 < self@.limit && self@.items.len() <= self@.limit
    }

    /// No blocks. At most `limit` are kept.
    pub fn new(limit: usize) -> (tips: RecentTips)
        requires
            0 < limit <= MAX_TIPS_TO_KEEP,
        ensures
            tips.wf(),
            tips@.items == Seq::<(Seq<char>, (u64, FixedHash))>::empty(),
            tips@.limit == limit,
    {
        let tips = RecentTips { cache: new_cache(limit) };
        assert(tips@.items =~= Seq::<(Seq<char>, (u64, FixedHash))>::empty());
        tips
    }

    proof fn lemma_others(items: Seq<(Seq<char>, (u64, u128, u128))>, peer: Seq<char>)
        ensures
            RecentTips::all_unpacked(RecentTips::others(items, peer)) == TipsView::without(
                RecentTips::all_unpacked(items),
                peer,
            ),
            RecentTips::others(items, peer).len() <= items.len(),
        decreases items.len(),
    {
        let all = RecentTips::all_unpacked(items);
        if items.len() > 0 {
            let rest = items.drop_last();
            RecentTips::lemma_others(rest, peer);
            assert(all.drop_last() =~= RecentTips::all_unpacked(rest));
            assert(all.last() == (items.last().0, RecentTips::unpacked(items.last().1)));
        }
        assert(RecentTips::all_unpacked(RecentTips::others(items, peer)) =~= TipsView::without(all, peer));
    }

    /// Notes the last block that a peer sent.
    pub fn put(&mut self, peer: &PeerId, block: (u64, FixedHash))
        requires
            old(self).wf(),
        ensures
            final(self).wf(),
            final(self)@ == old(self)@.put(peer@, block),
    {
        let value: (u64, u128, u128) = (block.0, block.1.first, block.1.second);
        let ghost before = cached(self.cache);
        put_in_cache(&mut self.cache, peer.to_base58(), value);
        proof {
            RecentTips::lemma_others(before, peer@);
            let others = RecentTips::others(before, peer@);
            let whole = seq![(peer@, value)] + others;
            let unpacked = seq![(peer@, block)] + TipsView::without(old(self)@.items, peer@);
            assert(RecentTips::all_unpacked(whole) =~= unpacked);
            if whole.len() > old(self)@.limit {
                assert(RecentTips::all_unpacked(whole.drop_last()) =~= unpacked.take(old(self)@.limit as int));
            }
        }
    }

    /// The blocks, the one that was put first in front.
    pub fn oldest_first(&self) -> (blocks: Vec<(u64, FixedHash)>)
        ensures
            blocks@ == self@.oldest_first(),
    {
        let values = cache_values(&self.cache);
        let mut blocks: Vec<(u64, FixedHash)> = Vec::new();
        let mut i: usize = values.len();
        while i > 0
            invariant
                i <= values@.len(),
                values@.len() == self@.items.len(),
                values@ == cached(self.cache).map_values(|item: (Seq<char>, (u64, u128, u128))| item.1),
                blocks@ == self@.oldest_first().take(values@.len() - i),
            decreases i,
        {
            i = i - 1;
            let (height, first, second) = values[i];
            blocks.push((height, FixedHash { first, second }));
            assert(self@.items[i as int].1 == RecentTips::unpacked(values@[i as int]));
            assert(blocks@ =~= self@.oldest_first().take(values@.len() - i));
        }
        assert(blocks@ =~= self@.oldest_first());
        blocks
    }
}

/// There are never more blocks than are kept, a peer occurs once at most, and the block that was put last is there.
pub proof fn law_recent_tips_are_bounded(tips: TipsView, peer: Seq<char>, block: (u64, FixedHash))
    requires
        tips.limit > 0,
        forall|i: int, j: int|
            0 <= i < j < tips.items.len() ==> (#[trigger] tips.items[i]).0 != (#[trigger] tips.items[j]).0,
    ensures
        tips.put(peer, block).items.len() <= tips.limit,
        tips.put(peer, block).items.len() > 0,
        tips.put(peer, block).items[0] == (peer, block),
        forall|i: int, j: int|
            0 <= i < j < tips.put(peer, block).items.len() ==> (#[trigger] tips.put(peer, block).items[i]).0 != (
            #[trigger] tips.put(peer, block).items[j]).0,
{
    lemma_without_is_distinct(tips.items, peer);
    let others = TipsView::without(tips.items, peer);
    let whole = seq![(peer, block)] + others;
    assert forall|i: int, j: int| 0 <= i < j < whole.len() implies (#[trigger] whole[i]).0 != (#[trigger] whole[j]).0 by {
        assert(whole[j] == others[j - 1]);
        if i > 0 {
            assert(whole[i] == others[i - 1]);
        }
    }
}

proof fn lemma_without_is_distinct(items: Seq<(Seq<char>, (u64, FixedHash))>, peer: Seq<char>)
    requires
        forall|i: int, j: int| 0 <= i < j < items.len() ==> (#[trigger] items[i]).0 != (#[trigger] items[j]).0,
    ensures
        forall|i: int|
            0 <= i < TipsView::without(items, peer).len() ==> items.contains(
                #[trigger] TipsView::without(items, peer)[i],
            ) && TipsView::without(items, peer)[i].0 != peer,
        forall|i: int, j: int|
            0 <= i < j < TipsView::without(items, peer).len() ==> (#[trigger] TipsView::without(items, peer)[i]).0
                != (#[trigger] TipsView::without(items, peer)[j]).0,
    decreases items.len(),
{
    let others = TipsView::without(items, peer);
    if items.len() > 0 {
        let rest = items.drop_last();
        let fewer = TipsView::without(rest, peer);
        assert forall|i: int, j: int| 0 <= i < j < rest.len() implies (#[trigger] rest[i]).0 != (
        #[trigger] rest[j]).0 by {
            assert(rest[i] == items[i] && rest[j] == items[j]);
        }
        lemma_without_is_distinct(rest, peer);
        assert forall|item: (Seq<char>, (u64, FixedHash))| rest.contains(item) implies items.contains(item)
            && item.0 != items.last().0 by {
            let k = choose|k: int| 0 <= k < rest.len() && rest[k] == item;
            assert(items[k] == item);
        }
        if items.last().0 != peer {
            assert(others =~= fewer.push(items.last()));
            assert(items[items.len() - 1] == items.last());
            assert(items.contains(items.last()));
            assert forall|i: int| 0 <= i < others.len() implies items.contains(#[trigger] others[i]) && others[i].0
                != peer by {
                if i < fewer.len() {
                    assert(others[i] == fewer[i]);
                    assert(rest.contains(fewer[i]));
                }
            }
            assert forall|i: int, j: int| 0 <= i < j < others.len() implies (#[trigger] others[i]).0 != (
            #[trigger] others[j]).0 by {
                assert(others[i] == fewer[i]);
                assert(rest.contains(fewer[i]));
                if j < fewer.len() {
                    assert(others[j] == fewer[j]);
                }
            }
        } else {
            assert(others =~= fewer);
        }
    }
}

}
