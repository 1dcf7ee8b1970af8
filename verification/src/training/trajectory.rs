//! Trajectories and the buffer that keeps them.

use crate::base::rng::{indexed, GameRng};
use std::collections::VecDeque;
use vstd::prelude::*;

verus! {

/// Something recorded step by step.
pub trait Recorded {
    /// The number of steps.
    fn step_count(&self) -> usize;
}

/// One recorded game: its steps in order, and what it was worth.
#[derive(Clone, Debug)]
pub struct Trajectory<S, O> {
    /// The steps, the first move first.
    pub steps: Vec<S>,
    /// What the game was worth, once it is over.
    pub outcome: O,
    /// The number of moves made.
    pub game_length: usize,
    /// The seed of the game.
    pub seed: u64,
}

impl<S, O> Trajectory<S, O> {
    /// A trajectory without steps, worth `outcome` until the game's worth
    /// is known.
    pub fn new(seed: u64, outcome: O) -> (trajectory: Self)
        ensures
            trajectory.steps@.len() == 0,
            trajectory.outcome == outcome,
            trajectory.game_length == 0,
            trajectory.seed == seed,
    {
        Trajectory { steps: Vec::new(), outcome, game_length: 0, seed }
    }

    /// Adds a step at the end and counts the move.
    pub fn push(&mut self, step: S)
        requires
            old(self).game_length < usize::MAX,
        ensures
            final(self).steps@ == old(self).steps@.push(step),
            final(self).game_length == old(self).game_length + 1,
            final(self).outcome == old(self).outcome,
            final(self).seed == old(self).seed,
    {
        self.steps.push(step);
        self.game_length = self.game_length + 1;
    }

    /// Says what the game was worth.
    pub fn set_outcome(&mut self, outcome: O)
        ensures
            final(self).outcome == outcome,
            final(self).steps == old(self).steps,
            final(self).game_length == old(self).game_length,
            final(self).seed == old(self).seed,
    {
        self.outcome = outcome;
    }

    /// The number of steps.
    pub fn len(&self) -> (count: usize)
        ensures
            count == self.steps@.len(),
    {
        self.steps.len()
    }

    /// Whether there is no step.
    pub fn is_empty(&self) -> (empty: bool)
        ensures
            empty == (self.steps@.len() == 0),
    {
        self.steps.len() == 0
    }
}

impl<S, O> Recorded for Trajectory<S, O> {
    fn step_count(&self) -> (count: usize)
        ensures
            count == self.steps@.len(),
    {
        self.steps.len()
    }
}

/// The first `count` of the given numbers, added up.
pub open spec fn added_up(counts: Seq<usize>, count: int) -> int
    decreases count,
{
    if count <= 0 {
        0
    } else {
        added_up(counts, count - 1) + counts[count - 1]
    }
}

/// Whether the numbers are step counts of the records, one for each.
pub open spec fn counts_of<T: Recorded>(records: Seq<T>, counts: Seq<usize>) -> bool {
    counts.len() == records.len() && forall|i: int|
        0 <= i < records.len() ==> call_ensures(
            T::step_count,
            (&records[i],),
            #[trigger] counts[i],
        )
}

/// The last records of a game's history, up to a bound: a new record
/// pushes the oldest one out when the buffer is full.
pub struct ExperienceBuffer<T> {
    trajectories: VecDeque<T>,
    max_trajectories: usize,
}

impl<T> ExperienceBuffer<T> {
    /// The records, the oldest first.
    pub closed spec fn records(&self) -> Seq<T> {
        self.trajectories@
    }

    /// How many records the buffer keeps.
    pub closed spec fn bound(&self) -> usize {
        self.max_trajectories
    }

    /// An empty buffer that keeps up to `max_trajectories` records.
    pub fn new(max_trajectories: usize) -> (buffer: Self)
        ensures
            buffer.records().len() == 0,
            buffer.bound() == max_trajectories,
    {
        ExperienceBuffer {
            trajectories: VecDeque::with_capacity(max_trajectories),
            max_trajectories,
        }
    }

    /// Adds a record as the newest. A full buffer gives up its oldest
    /// record first.
    pub fn push(&mut self, trajectory: T)
        ensures
            final(self).bound() == old(self).bound(),
            final(self).records() == (if old(self).records().len() >= old(self).bound() && old(self).records().len() > 0 {
                old(self).records().drop_first().push(trajectory)
            } else {
                old(self).records().push(trajectory)
            }),
    {
        if self.trajectories.len() >= self.max_trajectories {
            let _ = self.trajectories.pop_front();
        }
        self.trajectories.push_back(trajectory);
        proof {
            if old(self).records().len() >= old(self).bound() && old(self).records().len() > 0 {
                assert(old(self).records().subrange(1, old(self).records().len() as int)
                    =~= old(self).records().drop_first());
            }
        }
    }

    /// The number of records.
    pub fn len(&self) -> (count: usize)
        ensures
            count == self.records().len(),
    {
        self.trajectories.len()
    }

    /// Whether there is no record.
    pub fn is_empty(&self) -> (empty: bool)
        ensures
            empty == (self.records().len() == 0),
    {
        self.trajectories.len() == 0
    }

    /// How many records the buffer keeps.
    pub fn capacity(&self) -> (bound: usize)
        ensures
            bound == self.bound(),
    {
        self.max_trajectories
    }

    /// Drops every record.
    pub fn clear(&mut self)
        ensures
            final(self).records().len() == 0,
            final(self).bound() == old(self).bound(),
    {
        self.trajectories.clear();
    }

    /// The records, the oldest first.
    pub fn iter(&self) -> (records: Vec<&T>)
        ensures
            records@.len() == self.records().len(),
            forall|i: int| 0 <= i < records@.len() ==> *(#[trigger] records@[i]) == self.records()[i],
    {
        let mut records: Vec<&T> = Vec::new();
        let mut next: usize = 0;
        while next < self.trajectories.len()
            invariant
                next <= self.trajectories@.len(),
                records@.len() == next,
                forall|i: int| 0 <= i < next ==> *(#[trigger] records@[i]) == self.trajectories@[i],
            decreases self.trajectories@.len() - next,
        {
            records.push(&self.trajectories[next]);
            next = next + 1;
        }
        records
    }

    /// The steps of all records together, as far as `usize` counts.
    pub fn total_steps(&self) -> (total: usize) where T: Recorded
        ensures
            exists|counts: Seq<usize>| #[trigger]
                counts_of(self.records(), counts) && total == (if added_up(
                    counts,
                    counts.len() as int,
                ) > usize::MAX {
                    usize::MAX
                } else {
                    added_up(counts, counts.len() as int) as usize
                }),
    {
        let mut total: usize = 0;
        let mut next: usize = 0;
        let ghost mut counts: Seq<usize> = Seq::empty();
        while next < self.trajectories.len()
            invariant
                next <= self.trajectories@.len(),
                counts.len() == next,
                forall|i: int|
                    0 <= i < next ==> call_ensures(
                        T::step_count,
                        (&self.trajectories@[i],),
                        #[trigger] counts[i],
                    ),
                0 <= added_up(counts, next as int),
                total == (if added_up(counts, next as int) > usize::MAX {
                    usize::MAX
                } else {
                    added_up(counts, next as int) as usize
                }),
            decreases self.trajectories@.len() - next,
        {
            let steps = self.trajectories[next].step_count();
            proof {
                let longer = counts.push(steps);
                lemma_added_up_push(counts, steps, next as int);
                counts = longer;
            }
            total = if steps > usize::MAX - total {
                usize::MAX
            } else {
                total + steps
            };
            next = next + 1;
        }
        proof {
            assert(counts_of(self.records(), counts));
        }
        total
    }
}

/// One more number adds itself to the sum and leaves the sums before it.
pub proof fn lemma_added_up_push(counts: Seq<usize>, more: usize, count: int)
    requires
        0 <= count <= counts.len(),
    ensures
        added_up(counts.push(more), count) == added_up(counts, count),
        count == counts.len() ==> added_up(counts.push(more), count + 1) == added_up(counts, count)
            + more,
    decreases count,
{
    let longer = counts.push(more);
    if count > 0 {
        lemma_added_up_push(counts, more, count - 1);
        assert(longer[count - 1] == counts[count - 1]);
        assert(added_up(longer, count) == added_up(longer, count - 1) + longer[count - 1]);
        assert(added_up(counts, count) == added_up(counts, count - 1) + counts[count - 1]);
    } else {
        assert(added_up(longer, count) == 0);
        assert(added_up(counts, count) == 0);
    }
    if count == counts.len() {
        assert(longer[count] == more);
        assert(added_up(longer, count + 1) == added_up(longer, count) + longer[count]);
    }
}

impl<T> Default for ExperienceBuffer<T> {
    fn default() -> (buffer: Self)
        ensures
            buffer.records().len() == 0,
            buffer.bound() == 10000,
    {
        ExperienceBuffer::new(10000)
    }
}

/// The samples in the order they stand in after the first `placed`
/// places are drawn, and where the generator of the seed then stands. At
/// first the samples stand in their own order. Each place in turn gets
/// the sample of a place drawn from it and the places after it, and that
/// place gets the sample that stood here.
pub open spec fn drawn_places(seed: u64, total: usize, placed: nat) -> (Seq<usize>, u128)
    decreases placed,
{
    if placed == 0 {
        (Seq::new(total as nat, |i: int| i as usize), 0u128)
    } else {
        let (before, position) = drawn_places(seed, total, (placed - 1) as nat);
        let draw = indexed(seed, position, 0, (total - (placed - 1)) as usize, usize::BITS);
        let other = placed - 1 + draw.0;
        (before.update(placed - 1, before[other]).update(other, before[placed - 1]), draw.1)
    }
}

/// Draws which of `total` samples make up a batch: `batch_size` of them,
/// or all where there are fewer, no sample twice, in a drawn order: the
/// first places of `drawn_places`. The draw depends on the seed alone.
pub fn sample_indices(total: usize, batch_size: usize, seed: u64) -> (indices: Vec<usize>)
    ensures
        indices@.len() == (if batch_size < total {
            batch_size
        } else {
            total
        }),
        indices@.no_duplicates(),
        forall|i: int| 0 <= i < indices@.len() ==> (#[trigger] indices@[i]) < total,
        indices@ == drawn_places(seed, total, indices@.len()).0.take(indices@.len() as int),
{
    let mut indices: Vec<usize> = Vec::new();
    if total == 0 || batch_size == 0 {
        proof {
            assert(indices@ =~= drawn_places(seed, total, 0).0.take(0));
        }
        return indices;
    }
    let mut rng = GameRng::new(seed);
    let mut next: usize = 0;
    while next < total
        invariant
            next <= total,
            indices@.len() == next,
            forall|i: int| 0 <= i < next ==> (#[trigger] indices@[i]) == i,
        decreases total - next,
    {
        indices.push(next);
        next = next + 1;
    }
    let limit = if batch_size < total {
        batch_size
    } else {
        total
    };
    let mut placed: usize = 0;
    proof {
        assert(indices@ =~= drawn_places(seed, total, 0).0);
    }
    while placed < limit
        invariant
            placed <= limit <= total,
            indices@.len() == total,
            rng@.seed == seed,
            indices@ == drawn_places(seed, total, placed as nat).0,
            rng@.word_pos == drawn_places(seed, total, placed as nat).1,
            indices@.no_duplicates(),
            forall|i: int| 0 <= i < indices@.len() ==> (#[trigger] indices@[i]) < total,
        decreases limit - placed,
    {
        let other = placed + rng.gen_range_usize(0..total - placed);
        let ghost before = indices@;
        let first = indices[placed];
        let second = indices[other];
        indices.set(placed, second);
        indices.set(other, first);
        proof {
            assert forall|i: int, j: int|
                0 <= i < indices@.len() && 0 <= j < indices@.len() && i != j implies indices@[i]
                != indices@[j] by {
                let a = if i == placed {
                    other as int
                } else if i == other {
                    placed as int
                } else {
                    i
                };
                let b = if j == placed {
                    other as int
                } else if j == other {
                    placed as int
                } else {
                    j
                };
                assert(indices@[i] == before[a] && indices@[j] == before[b]);
            }
            assert(indices@ =~= drawn_places(seed, total, (placed + 1) as nat).0);
        }
        placed = placed + 1;
    }
    indices.truncate(limit);
    indices
}

} // verus!
