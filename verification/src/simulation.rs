use vstd::prelude::*;
use vstd::arithmetic::div_mod::lemma_fundamental_div_mod_converse;

verus! {

/// Number of frames that a new simulation lets pass between two samples.
pub const DEFAULT_STEP_SKIP: usize = 24;

/// The frame that arrives while the counter stands at `counter` is sampled.
pub open spec fn sample_due(counter: int, skip: int) -> bool {
    counter >= skip
}

/// The counter after one frame: back to zero on a sampled frame, one more
/// otherwise.
pub open spec fn next_counter(counter: int, skip: int) -> int {
    if sample_due(counter, skip) {
        0
    } else {
        counter + 1
    }
}

/// The counter after `frames` frames, starting from `counter`.
pub open spec fn counter_after(counter: int, skip: int, frames: nat) -> int
    decreases frames,
{
    if frames == 0 {
        counter
    } else {
        counter_after(next_counter(counter, skip), skip, (frames - 1) as nat)
    }
}

/// How many of the next `frames` frames are sampled, starting from `counter`.
pub open spec fn samples_after(counter: int, skip: int, frames: nat) -> nat
    decreases frames,
{
    if frames == 0 {
        0
    } else {
        (if sample_due(counter, skip) { 1nat } else { 0nat }) + samples_after(
            next_counter(counter, skip),
            skip,
            (frames - 1) as nat,
        )
    }
}

/// A running simulation: its wave sources, the frame counter that decides
/// when the signal is sampled, and the last sampled frame.
///
/// `S` is the kind of wave source and `P` the kind of point of a frame.
pub struct Simulation<S, P> {
    pub sources: Vec<S>,
    pub step_skip: usize,
    pub step_counter: usize,
    pub sampled_points: Vec<P>,
}

impl<S, P> Simulation<S, P> {
    /// An empty simulation that samples one frame in every
    /// `DEFAULT_STEP_SKIP + 1`.
    pub fn new() -> (sim: Self)
        ensures
            sim.sources@ == Seq::<S>::empty(),
            sim.step_skip == DEFAULT_STEP_SKIP,
            sim.step_counter == 0,
            sim.sampled_points@ == Seq::<P>::empty(),
    {
        Simulation {
            sources: Vec::new(),
            step_skip: DEFAULT_STEP_SKIP,
            step_counter: 0,
            sampled_points: Vec::new(),
        }
    }

    /// Adds a wave source after the ones already there.
    pub fn add_source(&mut self, source: S)
        ensures
            final(self).sources@ == old(self).sources@.push(source),
            final(self).step_skip == old(self).step_skip,
            final(self).step_counter == old(self).step_counter,
            final(self).sampled_points@ == old(self).sampled_points@,
    {
        self.sources.push(source);
    }
}

impl<S, P: Copy> Simulation<S, P> {
    /// Advances the simulation by one frame of the raw signal.
    ///
    /// When the counter has reached `step_skip`, the frame is sampled: the
    /// counter starts again at zero, `raw_points` becomes the sampled frame,
    /// and `true` tells the caller to hand the frame to the sampled
    /// processing chain. Otherwise the counter goes up by one, nothing else
    /// changes, and the result is `false`.
    pub fn update(&mut self, raw_points: &[P]) -> (sampled: bool)
        ensures
            sampled == sample_due(old(self).step_counter as int, old(self).step_skip as int),
            sampled == (old(self).step_counter >= old(self).step_skip),
            sampled ==> final(self).step_counter == 0,
            !sampled ==> final(self).step_counter == old(self).step_counter + 1,
            final(self).step_counter as int == next_counter(
                old(self).step_counter as int,
                old(self).step_skip as int,
            ),
            sampled ==> final(self).sampled_points@ == raw_points@,
            !sampled ==> final(self).sampled_points@ == old(self).sampled_points@,
            final(self).sources@ == old(self).sources@,
            final(self).step_skip == old(self).step_skip,
    {
        if self.step_counter >= self.step_skip {
            self.step_counter = 0;
            self.sampled_points = copy_points(raw_points);
            true
        } else {
            self.step_counter = self.step_counter + 1;
            false
        }
    }
}

/// A vector holding the points of `points`, in order.
fn copy_points<P: Copy>(points: &[P]) -> (copy: Vec<P>)
    ensures
        copy@ == points@,
{
    let mut copy: Vec<P> = Vec::new();
    let n = points.len();
    for i in 0..n
        invariant
            n == points@.len(),
            copy@ == points@.take(i as int),
    {
        copy.push(points[i]);
        assert(points@.take(i + 1) == points@.take(i as int).push(points@[i as int]));
    }
    assert(points@.take(n as int) == points@);
    copy
}

/// Whatever the counter and the skip, a frame is sampled exactly when the
/// counter has reached the skip, also when the skip was lowered below the
/// counter.
pub proof fn lemma_sample_due_iff_reached(counter: int, skip: int)
    ensures
        sample_due(counter, skip) <==> counter >= skip,
{
}

/// Whatever the counter and the skip, a sampled frame starts the count again
/// at zero, and any other frame raises it by one.
pub proof fn lemma_next_counter_restarts(counter: int, skip: int)
    ensures
        counter >= skip ==> next_counter(counter, skip) == 0,
        counter < skip ==> next_counter(counter, skip) == counter + 1,
{
}

/// When the counter stands at or above the skip (the skip was lowered while
/// the simulation ran), the next frame is sampled at once and the frames after
/// it follow the new period: of `frames + 1` frames, `1 + frames / (skip + 1)`
/// are sampled, and the counter ends at `frames % (skip + 1)`.
pub proof fn lemma_sampling_after_lowered_skip(counter: int, skip: int, frames: nat)
    requires
        0 <= skip <= counter,
    ensures
        samples_after(counter, skip, frames + 1) == 1 + (frames as int) / (skip + 1),
        counter_after(counter, skip, frames + 1) == (frames as int) % (skip + 1),
{
    assert(next_counter(counter, skip) == 0);
    lemma_sampling_schedule(0, skip, frames);
    assert(samples_after(counter, skip, frames + 1) == 1 + samples_after(0, skip, frames));
    assert(counter_after(counter, skip, frames + 1) == counter_after(0, skip, frames));
}

/// A counter that has not passed `skip` stays within `0..=skip`.
pub proof fn lemma_counter_stays_in_range(counter: int, skip: int)
    requires
        0 <= counter <= skip,
    ensures
        0 <= next_counter(counter, skip) <= skip,
{
}

/// Starting from a counter within `0..=skip`, the frames are sampled
/// periodically, one in every `skip + 1`: after `frames` frames the counter
/// stands at `(counter + frames) % (skip + 1)`, and
/// `(counter + frames) / (skip + 1)` of them were sampled.
pub proof fn lemma_sampling_schedule(counter: int, skip: int, frames: nat)
    requires
        0 <= counter <= skip,
    ensures
        counter_after(counter, skip, frames) == (counter + frames) % (skip + 1),
        samples_after(counter, skip, frames) == (counter + frames) / (skip + 1),
    decreases frames,
{
    let m = skip + 1;
    if frames == 0 {
        lemma_fundamental_div_mod_converse(counter, m, 0, counter);
    } else {
        let rest = (frames - 1) as nat;
        let next = next_counter(counter, skip);
        lemma_sampling_schedule(next, skip, rest);
        let q = (next + rest) / m;
        let r = (next + rest) % m;
        vstd::arithmetic::div_mod::lemma_fundamental_div_mod(next + rest, m);
        if counter == skip {
            // one full period has gone by
            assert(counter + frames == (q + 1) * m + r) by (nonlinear_arith)
                requires
                    next + rest == m * q + r,
                    next == 0,
                    counter == skip,
                    m == skip + 1,
                    frames == rest + 1,
            ;
            lemma_fundamental_div_mod_converse(counter + frames, m, q + 1, r);
        } else {
            assert(counter + frames == q * m + r);
            lemma_fundamental_div_mod_converse(counter + frames, m, q, r);
        }
    }
}

} // verus!
