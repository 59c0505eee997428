//! The latest blocks by which the next target is chosen.
use std::collections::VecDeque;
use vstd::prelude::*;

verus! {

/// Number of block times that the next target is averaged over.
pub const DIFFICULTY_ADJUSTMENT_WINDOW: usize = 90;

/// Time and target of the latest blocks of the main chain, oldest first.
///
/// It takes one more block than there are block times in the window. A moving average over the
/// block times gives the target of the next block.
pub struct DifficultyWindow {
    samples: VecDeque<(u64, u64)>,
}

impl View for DifficultyWindow {
    type V = Seq<(u64, u64)>;

    closed spec fn view(&self) -> Seq<(u64, u64)> {
        self.samples@
    }
}

impl DifficultyWindow {
    /// There is no room for another block.
    pub open spec fn full(samples: Seq<(u64, u64)>) -> bool {
        samples.len() > DIFFICULTY_ADJUSTMENT_WINDOW
    }

    /// The samples with a newer one; the oldest leaves if there is no room.
    pub open spec fn newer(samples: Seq<(u64, u64)>, timestamp: u64, target: u64) -> Seq<(u64, u64)> {
        if DifficultyWindow::full(samples) {
            samples.skip(1).push((timestamp, target))
        } else {
            samples.push((timestamp, target))
        }
    }

    /// The samples with an older one, if there is room.
    pub open spec fn older(samples: Seq<(u64, u64)>, timestamp: u64, target: u64) -> Seq<(u64, u64)> {
        if DifficultyWindow::full(samples) {
            samples
        } else {
            seq![(timestamp, target)] + samples
        }
    }

    /// An empty window.
    pub fn new() -> (window: Self)
        ensures
            window@ == Seq::<(u64, u64)>::empty(),
    {
        DifficultyWindow { samples: VecDeque::new() }
    }

    /// Whether there is no room for another block.
    pub fn is_full(&self) -> (full: bool)
        ensures
            full == DifficultyWindow::full(self@),
    {
        self.samples.len() > DIFFICULTY_ADJUSTMENT_WINDOW
    }

    /// Number of samples.
    pub fn num_samples(&self) -> (len: usize)
        ensures
            len == self@.len(),
    {
        self.samples.len()
    }

    /// Adds the newest block; the oldest leaves if there is no room.
    pub fn add_back(&mut self, timestamp: u64, target_difficulty: u64)
        ensures
            final(self)@ == DifficultyWindow::newer(old(self)@, timestamp, target_difficulty),
    {
        if self.is_full() {
            let _oldest = self.samples.pop_front();
            assert(self@ =~= old(self)@.skip(1));
        }
        self.samples.push_back((timestamp, target_difficulty));
    }

    /// Adds a block older than all others, if there is room.
    pub fn add_front(&mut self, timestamp: u64, target_difficulty: u64)
        ensures
            final(self)@ == DifficultyWindow::older(old(self)@, timestamp, target_difficulty),
    {
        if self.is_full() {
            return;
        }
        self.samples.push_front((timestamp, target_difficulty));
        assert(self@ =~= DifficultyWindow::older(old(self)@, timestamp, target_difficulty));
    }

    /// The samples, oldest first.
    pub fn samples(&self) -> (samples: Vec<(u64, u64)>)
        ensures
            samples@ == self@,
    {
        let mut samples: Vec<(u64, u64)> = Vec::new();
        let mut i: usize = 0;
        while i < self.samples.len()
            invariant
                i <= self@.len(),
                samples@ == self@.take(i as int),
            decreases self@.len() - i,
        {
            samples.push(self.samples[i]);
            i = i + 1;
            proof {
                assert(samples@ =~= self@.take(i as int));
            }
        }
        proof {
            assert(self@.take(self@.len() as int) =~= self@);
        }
        samples
    }
}

/// The window never holds more than one sample more than there are block times in it.
pub proof fn law_window_is_bounded(samples: Seq<(u64, u64)>, timestamp: u64, target: u64)
    requires
        samples.len() <= DIFFICULTY_ADJUSTMENT_WINDOW + 1,
    ensures
        DifficultyWindow::newer(samples, timestamp, target).len() <= DIFFICULTY_ADJUSTMENT_WINDOW + 1,
        DifficultyWindow::older(samples, timestamp, target).len() <= DIFFICULTY_ADJUSTMENT_WINDOW + 1,
        DifficultyWindow::newer(samples, timestamp, target).last() == (timestamp, target),
{
}

/// A newer sample comes behind all others and pushes the oldest out of a window of 91; an older sample comes in front if
/// there is room. The others stay in their order.
pub proof fn law_window_slides(samples: Seq<(u64, u64)>, timestamp: u64, target: u64)
    requires
        samples.len() <= 91,
    ensures
        ({
            let newer = DifficultyWindow::newer(samples, timestamp, target);
            let older = DifficultyWindow::older(samples, timestamp, target);
            &&& newer.last() == (timestamp, target)
            &&& newer.len() == (if samples.len() < 91 {
                samples.len() + 1
            } else {
                91
            })
            &&& forall|k: int|
                1 <= k < newer.len() ==> #[trigger] newer[newer.len() - 1 - k] == samples[samples.len() - k]
            &&& samples.len() == 91 ==> older == samples
            &&& samples.len() < 91 ==> older.len() == samples.len() + 1 && older[0] == (timestamp, target)
                && older.skip(1) == samples
        }),
{
    let older = DifficultyWindow::older(samples, timestamp, target);
    if samples.len() < 91 {
        assert(older.skip(1) =~= samples);
    }
}

}
