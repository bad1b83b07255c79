use std::sync::atomic::AtomicUsize;
use std::sync::atomic::Ordering;
use std::sync::Arc;
use vstd::prelude::*;

verus! {

/// What the latest aggregated transfer metrics say about the connection pool.
#[derive(Clone, Copy, Debug, PartialEq, Eq, Structural)]
pub enum LoadSignal {
    /// Errors or latency are too high: shed one connection.
    Congested,
    /// Few errors, low latency and good throughput: add one connection.
    Healthy,
    /// Anything else: keep the current number of connections.
    Steady,
}

/// `v` restricted to the interval `[lo, hi]`.
pub open spec fn clamp_spec(v: int, lo: int, hi: int) -> int {
    if v < lo { lo } else if v > hi { hi } else { v }
}

/// The connection target after one tuning step from `curr`.
pub open spec fn spec_next_target(curr: int, signal: LoadSignal, lo: int, hi: int) -> int {
    let raw = match signal {
        LoadSignal::Congested => if curr > 0 { curr - 1 } else { 0 },
        LoadSignal::Healthy => curr + 1,
        LoadSignal::Steady => curr,
    };
    clamp_spec(raw, lo, hi)
}

/// `v` restricted to `[lo, hi]`, as `Ord::clamp` computes it.
pub fn clamp_usize(v: usize, lo: usize, hi: usize) -> (r: usize)
    requires
        lo <= hi,
    ensures
        r == clamp_spec(v as int, lo as int, hi as int),
{
    if v < lo {
        lo
    } else if v > hi {
        hi
    } else {
        v
    }
}

/// The lower bound a controller keeps its target above: `min`, but at least one
/// when there is room for a worker at all.
pub open spec fn effective_min(min: usize, max: usize) -> usize {
    if min == 0 && max > 0 { 1 } else { min }
}

/// The connection target a controller starts from.
pub fn initial_target(base: usize, min: usize, max: usize) -> (t: usize)
    requires
        min <= max,
    ensures
        t == clamp_spec(base as int, min as int, max as int),
{
    clamp_usize(base, min, max)
}

/// One tuning step: one connection fewer when congested, one more when healthy,
/// unchanged otherwise, always kept within `[min, max]`.
pub fn next_target(curr: usize, signal: LoadSignal, min: usize, max: usize) -> (next: usize)
    requires
        min <= max,
    ensures
        next == spec_next_target(curr as int, signal, min as int, max as int),
        min <= next <= max,
        min <= curr <= max && signal == LoadSignal::Congested ==> next == (if curr > min {
            curr - 1
        } else {
            curr as int
        }),
        min <= curr <= max && signal == LoadSignal::Healthy ==> next == (if curr < max {
            curr + 1
        } else {
            curr as int
        }),
        min <= curr <= max && signal == LoadSignal::Steady ==> next == curr,
{
    let raw = match signal {
        LoadSignal::Congested => curr.saturating_sub(1),
        LoadSignal::Healthy => curr.saturating_add(1),
        LoadSignal::Steady => curr,
    };
    clamp_usize(raw, min, max)
}

/// Every target a controller can hold lies within its bounds: the initial target
/// does, and a tuning step from any value lands within them.
pub proof fn lemma_target_within_bounds(base: int, curr: int, signal: LoadSignal, lo: int, hi: int)
    requires
        lo <= hi,
    ensures
        lo <= clamp_spec(base, lo, hi) <= hi,
        lo <= spec_next_target(curr, signal, lo, hi) <= hi,
{
}

/// A tuning step from a target within bounds changes it by at most one connection,
/// never grows it when congested, never shrinks it when healthy, and keeps it when steady.
pub proof fn lemma_step_moves_by_at_most_one(curr: int, signal: LoadSignal, lo: int, hi: int)
    requires
        0 <= lo <= curr <= hi,
    ensures
        curr - 1 <= spec_next_target(curr, signal, lo, hi) <= curr + 1,
        signal == LoadSignal::Congested ==> spec_next_target(curr, signal, lo, hi) <= curr,
        signal == LoadSignal::Healthy ==> spec_next_target(curr, signal, lo, hi) >= curr,
        signal == LoadSignal::Steady ==> spec_next_target(curr, signal, lo, hi) == curr,
{
}

/// What one tuning step does to an in-bounds target, in terms of the target alone:
/// congestion takes exactly one connection away unless the target is at its lower
/// bound, health adds exactly one unless it is at its upper bound, and a steady
/// signal keeps it.
pub proof fn lemma_step_is_one_connection(curr: int, lo: int, hi: int)
    requires
        0 <= lo <= curr <= hi,
    ensures
        curr > lo ==> spec_next_target(curr, LoadSignal::Congested, lo, hi) == curr - 1,
        curr == lo ==> spec_next_target(curr, LoadSignal::Congested, lo, hi) == lo,
        curr < hi ==> spec_next_target(curr, LoadSignal::Healthy, lo, hi) == curr + 1,
        curr == hi ==> spec_next_target(curr, LoadSignal::Healthy, lo, hi) == hi,
        spec_next_target(curr, LoadSignal::Steady, lo, hi) == curr,
{
}

/// Repeated congestion drives any in-bounds target down to the minimum: after `k`
/// congested steps the target is `max(curr - k, lo)`.
pub proof fn lemma_congestion_converges(curr: int, k: nat, lo: int, hi: int)
    requires
        0 <= lo <= curr <= hi,
    ensures
        repeat_step(curr, LoadSignal::Congested, k, lo, hi) == (if curr - k > lo { curr - k } else { lo }),
    decreases k,
{
    if k > 0 {
        lemma_congestion_converges(curr, (k - 1) as nat, lo, hi);
    }
}

/// Repeated health drives any in-bounds target up to the maximum: after `k`
/// healthy steps the target is `min(curr + k, hi)`.
pub proof fn lemma_health_converges(curr: int, k: nat, lo: int, hi: int)
    requires
        lo <= curr <= hi,
    ensures
        repeat_step(curr, LoadSignal::Healthy, k, lo, hi) == (if curr + k < hi { curr + k } else { hi }),
    decreases k,
{
    if k > 0 {
        lemma_health_converges(curr, (k - 1) as nat, lo, hi);
    }
}

/// The target after `k` tuning steps that all report `signal`.
pub open spec fn repeat_step(curr: int, signal: LoadSignal, k: nat, lo: int, hi: int) -> int
    decreases k,
{
    if k == 0 {
        curr
    } else {
        spec_next_target(repeat_step(curr, signal, (k - 1) as nat, lo, hi), signal, lo, hi)
    }
}

/// Shared controller of how many download workers may be active at once. Clones
/// share the same target, so a tuning step is seen by every worker.
pub struct AdaptiveController {
    target: Arc<AtomicUsize>,
    min: usize,
    max: usize,
}

impl Clone for AdaptiveController {
    /// A handle on the same shared target, with the same bounds.
    fn clone(&self) -> (c: Self)
        ensures
            c.lower() == self.lower(),
            c.upper() == self.upper(),
    {
        proof {
            use_type_invariant(self);
        }
        AdaptiveController { target: self.target.clone(), min: self.min, max: self.max }
    }
}

impl AdaptiveController {
    #[verifier::type_invariant]
    spec fn bounds_ordered(self) -> bool {
        self.min <= self.max
    }

    /// Lower bound of the target.
    pub closed spec fn lower(self) -> usize {
        self.min
    }

    /// Upper bound of the target.
    pub closed spec fn upper(self) -> usize {
        self.max
    }

    /// A controller whose target starts at `base` clamped to `[lower, max]`, where the
    /// lower bound is `min` raised to one when `min` is zero and `max` is not: with a
    /// target of zero no worker would ever take work.
    pub fn new(base: usize, min: usize, max: usize) -> (c: Self)
        requires
            min <= max,
        ensures
            c.lower() == effective_min(min, max),
            c.upper() == max,
            c.upper() >= 1 ==> c.lower() >= 1,
    {
        let floor = if min == 0 && max > 0 { 1 } else { min };
        let start = initial_target(base, floor, max);
        AdaptiveController { target: Arc::new(AtomicUsize::new(start)), min: floor, max }
    }

    /// The current connection target (shared with every clone of this controller),
    /// always within `[lower, upper]`. Every value stored in the shared target is
    /// already within those bounds (the clamped start, or a `next_target` step), so
    /// restricting the loaded value to them leaves it unchanged; the restriction is
    /// what lets the bound be proved, as nothing is known of an atomic's contents.
    pub fn target(&self) -> (t: usize)
        ensures
            self.lower() <= t <= self.upper(),
    {
        proof {
            use_type_invariant(self);
        }
        let stored = self.target.load(Ordering::Relaxed);
        clamp_usize(stored, self.min, self.max)
    }

    /// Applies one tuning step to the shared target.
    ///
    /// Returns the target the step started from and the target it stored: one
    /// connection fewer when congested, one more when healthy, the same when steady,
    /// never leaving `[lower, upper]`.
    pub fn tune(&self, signal: LoadSignal) -> (step: (usize, usize))
        ensures
            self.lower() <= step.0 <= self.upper(),
            self.lower() <= step.1 <= self.upper(),
            signal == LoadSignal::Congested && step.0 > self.lower() ==> step.1 == step.0 - 1,
            signal == LoadSignal::Congested && step.0 == self.lower() ==> step.1 == step.0,
            signal == LoadSignal::Healthy && step.0 < self.upper() ==> step.1 == step.0 + 1,
            signal == LoadSignal::Healthy && step.0 == self.upper() ==> step.1 == step.0,
            signal == LoadSignal::Steady ==> step.1 == step.0,
    {
        proof {
            use_type_invariant(self);
        }
        let curr = self.target();
        let next = next_target(curr, signal, self.min, self.max);
        self.target.store(next, Ordering::Relaxed);
        (curr, next)
    }
}

} // verus!
