//! Figures that are worked out anew only from time to time.
use crate::server::http::stats::models::{Stats, StatsView};
use crate::types::PowAlgorithm;
use vstd::prelude::*;

verus! {

/// Figures, and when they were worked out. Times are in milliseconds.
pub struct CachedStats {
    /// The figures.
    pub stats: Stats,
    /// When they were worked out.
    pub last_update: u64,
}

impl View for CachedStats {
    type V = (StatsView, u64);

    open spec fn view(&self) -> (StatsView, u64) {
        (self.stats@, self.last_update)
    }
}

impl CachedStats {
    /// Figures that were worked out at a time.
    pub fn new(stats: Stats, last_update: u64) -> (cached: Self)
        ensures
            cached@ == (stats@, last_update),
    {
        CachedStats { stats, last_update }
    }
}

/// Figures of both chains, each good for a while.
pub struct StatsCache {
    /// How long figures are good.
    pub ttl: u64,
    /// The SHA3x chain.
    pub stats_sha3x: Option<CachedStats>,
    /// The RandomX chain.
    pub stats_randomx: Option<CachedStats>,
}

/// What a [`StatsCache`] holds.
pub struct CacheView {
    pub ttl: u64,
    pub sha3x: Option<(StatsView, u64)>,
    pub random_x: Option<(StatsView, u64)>,
}

/// What optional figures hold.
pub open spec fn opt_cached(cached: Option<CachedStats>) -> Option<(StatsView, u64)> {
    match cached {
        Some(c) => Some(c@),
        None => None,
    }
}

impl View for StatsCache {
    type V = CacheView;

    open spec fn view(&self) -> CacheView {
        CacheView {
            ttl: self.ttl,
            sha3x: opt_cached(self.stats_sha3x),
            random_x: opt_cached(self.stats_randomx),
        }
    }
}

impl CacheView {
    /// Figures of one chain.
    pub open spec fn chain(self, algo: PowAlgorithm) -> Option<(StatsView, u64)> {
        match algo {
            PowAlgorithm::RandomX => self.random_x,
            PowAlgorithm::Sha3x => self.sha3x,
        }
    }

    /// Other figures of one chain.
    pub open spec fn with(self, algo: PowAlgorithm, cached: Option<(StatsView, u64)>) -> CacheView {
        match algo {
            PowAlgorithm::RandomX => CacheView { random_x: cached, ..self },
            PowAlgorithm::Sha3x => CacheView { sha3x: cached, ..self },
        }
    }

    /// Figures of one chain that are still good.
    pub open spec fn good(self, algo: PowAlgorithm, now: u64) -> Option<StatsView> {
        match self.chain(algo) {
            Some((stats, last_update)) => if now > last_update && now - last_update > self.ttl {
                None
            } else {
                Some(stats)
            },
            None => None,
        }
    }
}

impl Default for StatsCache {
    fn default() -> (cache: Self)
        ensures
            cache@ == (CacheView { ttl: 10_000, sha3x: None, random_x: None }),
    {
        StatsCache::new(10_000)
    }
}

impl StatsCache {
    /// No figures. Those that come are good for `ttl` milliseconds.
    pub fn new(ttl: u64) -> (cache: Self)
        ensures
            cache@ == (CacheView { ttl, sha3x: None, random_x: None }),
    {
        StatsCache { ttl, stats_sha3x: None, stats_randomx: None }
    }

    /// Keeps figures of one chain.
    pub fn update(&mut self, stats: Stats, pow_algo: PowAlgorithm, now: u64)
        ensures
            final(self)@ == old(self)@.with(pow_algo, Some((stats@, now))),
    {
        match pow_algo {
            PowAlgorithm::RandomX => {
                self.stats_randomx = Some(CachedStats::new(stats, now));
            },
            PowAlgorithm::Sha3x => {
                self.stats_sha3x = Some(CachedStats::new(stats, now));
            },
        }
    }

    /// Figures of one chain that are still good. Those that are not are dropped.
    pub fn stats(&mut self, pow_algo: PowAlgorithm, now: u64) -> (stats: Option<Stats>)
        ensures
            match stats {
                Some(s) => old(self)@.good(pow_algo, now) == Some(s@),
                None => old(self)@.good(pow_algo, now) is None,
            },
            final(self)@ == (if old(self)@.good(pow_algo, now) is None {
                old(self)@.with(pow_algo, None)
            } else {
                old(self)@
            }),
    {
        let found = match pow_algo {
            PowAlgorithm::RandomX => StatsCache::still_good(&self.stats_randomx, self.ttl, now),
            PowAlgorithm::Sha3x => StatsCache::still_good(&self.stats_sha3x, self.ttl, now),
        };
        if found.is_none() {
            match pow_algo {
                PowAlgorithm::RandomX => {
                    self.stats_randomx = None;
                },
                PowAlgorithm::Sha3x => {
                    self.stats_sha3x = None;
                },
            }
        }
        found
    }

    fn still_good(cached: &Option<CachedStats>, ttl: u64, now: u64) -> (stats: Option<Stats>)
        ensures
            match stats {
                Some(s) => cached matches Some(c) && s@ == c@.0 && !(now > c@.1 && now - c@.1 > ttl),
                None => cached matches Some(c) ==> now > c@.1 && now - c@.1 > ttl,
            },
    {
        match cached {
            Some(c) => if now > c.last_update && now - c.last_update > ttl {
                None
            } else {
                Some(c.stats.clone())
            },
            None => None,
        }
    }
}

/// Figures that were kept are shown until they are too old, and figures of the other chain do not matter.
pub proof fn law_kept_figures_are_shown(cache: CacheView, algo: PowAlgorithm, stats: StatsView, kept: u64, now: u64)
    requires
        kept <= now,
    ensures
        now - kept <= cache.ttl ==> cache.with(algo, Some((stats, kept))).good(algo, now) == Some(stats),
        now - kept > cache.ttl ==> cache.with(algo, Some((stats, kept))).good(algo, now) is None,
        forall|other: PowAlgorithm|
            other != algo ==> #[trigger] cache.with(algo, Some((stats, kept))).good(other, now) == cache.good(
                other,
                now,
            ),
{
}

}
