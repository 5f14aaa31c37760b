use vstd::prelude::*;

verus! {

/// Statistics of the lookups of one DNS name since the last scrape.
/// All times are in microseconds.
#[derive(Clone, Copy, Debug, PartialEq, Eq, Structural)]
pub struct Metrics {
    /// Sum of the durations of all lookups.
    pub sum: u64,
    /// Number of lookups whose duration went into `sum`.
    pub average_count: u64,
    /// Shortest lookup seen; `u64::MAX` while none was seen.
    pub min: u64,
    /// Longest lookup seen; `0` while none was seen.
    pub max: u64,
    /// Number of lookups that did not resolve.
    pub failure_count: u64,
}

/// The statistics before any lookup was recorded.
pub open spec fn fresh() -> Metrics {
    Metrics { sum: 0, average_count: 0, min: u64::MAX, max: 0, failure_count: 0 }
}

/// `m` after a lookup that took `took` microseconds has gone into the
/// minimum and the maximum.
pub open spec fn with_extremes(m: Metrics, took: u64) -> Metrics {
    Metrics {
        sum: m.sum,
        average_count: m.average_count,
        min: if took < m.min { took } else { m.min },
        max: if took > m.max { took } else { m.max },
        failure_count: m.failure_count,
    }
}

/// `m` after a failed lookup that took `took` microseconds.
pub open spec fn with_failure(m: Metrics, took: u64) -> Metrics {
    let e = with_extremes(m, took);
    Metrics { failure_count: (m.failure_count + 1) as u64, ..e }
}

/// `m` after the duration `duration` has gone into the average.
pub open spec fn with_duration(m: Metrics, duration: u64) -> Metrics {
    Metrics {
        sum: (m.sum + duration) as u64,
        average_count: (m.average_count + 1) as u64,
        ..m
    }
}

/// A lookup as the monitor records it: whether the name resolved, and how
/// many microseconds the lookup took.
pub type Outcome = (bool, u64);

/// `m` after one lookup: its duration goes into the minimum and maximum, a
/// failure is counted, and the duration goes into the average.
pub open spec fn after_lookup(m: Metrics, outcome: Outcome) -> Metrics {
    let took = outcome.1;
    let observed = if outcome.0 {
        with_extremes(m, took)
    } else {
        with_failure(m, took)
    };
    with_duration(observed, took)
}

/// `m` after the lookups `outcomes`, oldest first.
pub open spec fn after_lookups(m: Metrics, outcomes: Seq<Outcome>) -> Metrics
    decreases outcomes.len(),
{
    if outcomes.len() == 0 {
        m
    } else {
        after_lookup(after_lookups(m, outcomes.drop_last()), outcomes.last())
    }
}

/// Number of lookups in `outcomes` that did not resolve.
pub open spec fn failures(outcomes: Seq<Outcome>) -> nat
    decreases outcomes.len(),
{
    if outcomes.len() == 0 {
        0
    } else {
        failures(outcomes.drop_last()) + if outcomes.last().0 {
            0nat
        } else {
            1nat
        }
    }
}

/// Sum of the durations of `outcomes`.
pub open spec fn total_duration(outcomes: Seq<Outcome>) -> nat
    decreases outcomes.len(),
{
    if outcomes.len() == 0 {
        0
    } else {
        total_duration(outcomes.drop_last()) + outcomes.last().1 as nat
    }
}

/// The failures of a prefix are at most its length.
proof fn lemma_failures_bounded(outcomes: Seq<Outcome>)
    ensures
        failures(outcomes) <= outcomes.len(),
    decreases outcomes.len(),
{
    if outcomes.len() > 0 {
        lemma_failures_bounded(outcomes.drop_last());
    }
}

/// Starting from fresh statistics, a series of lookups leaves: as many
/// failures as lookups that did not resolve; as many durations in the
/// average as lookups, summing to their total; and a minimum and a maximum
/// that are durations of the series (while there was a lookup) and bound
/// every duration of it. Without lookups the statistics stay fresh.
/// Holds while the counters and the sum do not overflow.
pub proof fn lemma_lookups_summarised(outcomes: Seq<Outcome>)
    requires
        outcomes.len() <= u64::MAX,
        total_duration(outcomes) <= u64::MAX,
    ensures
        ({
            let m = after_lookups(fresh(), outcomes);
            &&& m.failure_count == failures(outcomes)
            &&& m.average_count == outcomes.len()
            &&& m.sum == total_duration(outcomes)
            &&& forall|i: int|
                0 <= i < outcomes.len() ==> m.min <= (#[trigger] outcomes[i]).1 <= m.max
            &&& outcomes.len() > 0 ==> exists|i: int|
                0 <= i < outcomes.len() && m.min == (#[trigger] outcomes[i]).1
            &&& outcomes.len() > 0 ==> exists|i: int|
                0 <= i < outcomes.len() && m.max == (#[trigger] outcomes[i]).1
            &&& outcomes.len() == 0 ==> m == fresh()
        }),
    decreases outcomes.len(),
{
    if outcomes.len() > 0 {
        let prefix = outcomes.drop_last();
        let last = outcomes.last();
        lemma_failures_bounded(prefix);
        assert(total_duration(prefix) <= total_duration(outcomes));
        lemma_lookups_summarised(prefix);
        let before = after_lookups(fresh(), prefix);
        let m = after_lookups(fresh(), outcomes);
        assert(m == after_lookup(before, last));
        assert forall|i: int| 0 <= i < outcomes.len() implies m.min <= (
        #[trigger] outcomes[i]).1 <= m.max by {
            if i < prefix.len() {
                assert(outcomes[i] == prefix[i]);
            }
        }
        if prefix.len() == 0 {
            assert(outcomes[0] == last);
        } else {
            let a = choose|a: int| 0 <= a < prefix.len() && before.min == (#[trigger] prefix[a]).1;
            let b = choose|b: int| 0 <= b < prefix.len() && before.max == (#[trigger] prefix[b]).1;
            assert(outcomes[a] == prefix[a]);
            assert(outcomes[b] == prefix[b]);
            assert(outcomes[outcomes.len() - 1] == last);
        }
    }
}

impl Metrics {
    /// Statistics with no lookup recorded.
    pub fn new() -> (m: Metrics)
        ensures
            m == fresh(),
    {
        Metrics { sum: 0, min: u64::MAX, max: 0, failure_count: 0, average_count: 0 }
    }

    /// Forgets every lookup: the statistics become those of `Metrics::new()`.
    pub fn clear(&mut self)
        ensures
            *final(self) == fresh(),
    {
        self.sum = 0;
        self.min = u64::MAX;
        self.max = 0;
        self.failure_count = 0;
        self.average_count = 0;
    }

    /// Lets a lookup of `took` microseconds lower the minimum or raise the maximum.
    pub(crate) fn observe_extremes(&mut self, took: u64)
        ensures
            *final(self) == with_extremes(*old(self), took),
    {
        if took < self.min {
            self.min = took;
        }
        if took > self.max {
            self.max = took;
        }
    }

    /// Counts a failed lookup of `took` microseconds.
    pub(crate) fn observe_failure(&mut self, took: u64)
        requires
            old(self).failure_count < u64::MAX,
        ensures
            *final(self) == with_failure(*old(self), took),
    {
        self.failure_count = self.failure_count + 1;
        self.observe_extremes(took);
    }

    /// Adds a lookup of `duration` microseconds to the average.
    pub(crate) fn observe_duration(&mut self, duration: u64)
        requires
            old(self).sum + duration <= u64::MAX,
            old(self).average_count < u64::MAX,
        ensures
            *final(self) == with_duration(*old(self), duration),
    {
        self.sum = self.sum + duration;
        self.average_count = self.average_count + 1;
    }
}

} // verus!
