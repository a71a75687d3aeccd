//! The streaming aggregator: folds an unbounded sequence of measurements
//! into running statistics without retaining history.
//!
//! Per measurement it tracks the running sums and peaks of RAM and swap in
//! use, and captures the first measurement's total RAM once and for all.
//! The averages are computed lazily at read time as truncating integer
//! division; with zero applied samples every reported value is the
//! explicit no-data marker instead.

use vstd::prelude::*;

use crate::sample::Sample;

verus! {

/// RAM in use according to one measurement.
pub open spec fn ram_used(m: Sample) -> int {
    m.total - m.free
}

/// Swap in use according to one measurement.
pub open spec fn swap_used(m: Sample) -> int {
    m.swap_total - m.swap_free
}

/// A measurement whose counters can be folded: memory in use cannot be
/// negative, so the free counters cannot exceed the corresponding totals.
pub open spec fn counters_ok(m: Sample) -> bool {
    m.free <= m.total && m.swap_free <= m.swap_total
}

/// The abstract state of an aggregation.
pub ghost struct Stats {
    pub count: int,
    pub ram_sum: int,
    pub ram_peak: int,
    pub swap_sum: int,
    pub swap_peak: int,
    pub first_total: Option<u64>,
}

/// The all-zero state before any sample.
pub open spec fn empty_stats() -> Stats {
    Stats { count: 0, ram_sum: 0, ram_peak: 0, swap_sum: 0, swap_peak: 0, first_total: None }
}

/// One fold step: count the sample, grow the sums, raise the peaks, and
/// capture the total RAM only if none was captured yet.
pub open spec fn step_stats(s: Stats, m: Sample) -> Stats {
    Stats {
        count: s.count + 1,
        ram_sum: s.ram_sum + ram_used(m),
        ram_peak: if ram_used(m) > s.ram_peak {
            ram_used(m)
        } else {
            s.ram_peak
        },
        swap_sum: s.swap_sum + swap_used(m),
        swap_peak: if swap_used(m) > s.swap_peak {
            swap_used(m)
        } else {
            s.swap_peak
        },
        first_total: if s.first_total is None {
            Some(m.total)
        } else {
            s.first_total
        },
    }
}

/// The state after folding a whole sequence of measurements, in order.
pub open spec fn fold_stats(ms: Seq<Sample>) -> Stats
    decreases ms.len(),
{
    if ms.len() == 0 {
        empty_stats()
    } else {
        step_stats(fold_stats(ms.drop_last()), ms.last())
    }
}

/// Total RAM used, summed across a sequence of measurements.
pub open spec fn sum_ram_used(ms: Seq<Sample>) -> int
    decreases ms.len(),
{
    if ms.len() == 0 {
        0
    } else {
        sum_ram_used(ms.drop_last()) + ram_used(ms.last())
    }
}

/// Total swap used, summed across a sequence of measurements.
pub open spec fn sum_swap_used(ms: Seq<Sample>) -> int
    decreases ms.len(),
{
    if ms.len() == 0 {
        0
    } else {
        sum_swap_used(ms.drop_last()) + swap_used(ms.last())
    }
}

/// A running sum and count of one statistic; the mean is computed at read
/// time, not stored.
#[derive(Clone, Copy, PartialEq, Eq, Structural, Debug)]
pub struct Average {
    count: u64,
    value: u64,
}

impl Average {
    /// How many values were appended.
    pub closed spec fn spec_count(self) -> u64 {
        self.count
    }

    /// The running sum of the appended values.
    pub closed spec fn spec_value(self) -> u64 {
        self.value
    }

    /// Fold one value into the running sum.
    pub fn append(&mut self, value: u64)
        requires
            old(self).spec_count() < u64::MAX,
            old(self).spec_value() + value <= u64::MAX,
        ensures
            final(self).spec_count() == old(self).spec_count() + 1,
            final(self).spec_value() == old(self).spec_value() + value,
    {
        self.value = self.value + value;
        self.count = self.count + 1;
    }

    /// The truncating mean of the appended values.
    pub fn result(&self) -> (r: u64)
        requires
            self.spec_count() > 0,
        ensures
            r == self.spec_value() / self.spec_count(),
    {
        self.value / self.count
    }
}

impl Default for Average {
    /// A fresh statistic with nothing appended.
    fn default() -> (r: Self)
        ensures
            r.spec_count() == 0,
            r.spec_value() == 0,
    {
        Average { count: 0, value: 0 }
    }
}

/// The values of the final report: each statistic, or `None` as the
/// explicit no-data marker when it is unavailable.
#[derive(Clone, Copy, PartialEq, Eq, Debug)]
pub struct Report {
    pub average_ram: Option<u64>,
    pub average_swap: Option<u64>,
    pub max_ram: Option<u64>,
    pub max_swap: Option<u64>,
    pub total_ram: Option<u64>,
}

/// The streaming accumulator: created once at all-zero state, mutated once
/// per incoming measurement via [`Summary::apply`], read at the end via
/// [`Summary::render`]; never reset.
#[derive(Clone, Copy, PartialEq, Eq, Debug)]
pub struct Summary {
    total_ram: Option<u64>,
    ram_average: Average,
    ram_max: u64,
    swap_average: Average,
    swap_max: u64,
}

impl Summary {
    /// The abstract state this accumulator holds.
    pub closed spec fn stats(self) -> Stats {
        Stats {
            count: self.ram_average.count as int,
            ram_sum: self.ram_average.value as int,
            ram_peak: self.ram_max as int,
            swap_sum: self.swap_average.value as int,
            swap_peak: self.swap_max as int,
            first_total: self.total_ram,
        }
    }

    /// Well-formedness: both running averages count the same samples, and
    /// a total RAM has been captured exactly when at least one sample was
    /// applied.
    pub closed spec fn wf(self) -> bool {
        &&& self.ram_average.count == self.swap_average.count
        &&& (self.total_ram is Some <==> self.ram_average.count > 0)
    }

    /// Fold one measurement into the running state.
    ///
    /// The counters must be consistent (free never above total, so the
    /// subtraction cannot wrap) and the running sums and count must have
    /// room left; the driving loop checks both before calling.
    pub fn apply(&mut self, sample: &Sample)
        requires
            old(self).wf(),
            counters_ok(*sample),
            old(self).stats().count < u64::MAX,
            old(self).stats().ram_sum + ram_used(*sample) <= u64::MAX,
            old(self).stats().swap_sum + swap_used(*sample) <= u64::MAX,
        ensures
            final(self).wf(),
            final(self).stats() == step_stats(old(self).stats(), *sample),
    {
        let ram = sample.total - sample.free;
        let swap = sample.swap_total - sample.swap_free;

        if ram > self.ram_max {
            self.ram_max = ram;
        }
        if swap > self.swap_max {
            self.swap_max = swap;
        }
        self.ram_average.append(ram);
        self.swap_average.append(swap);

        if self.total_ram.is_none() {
            self.total_ram = Some(sample.total);
        }
    }

    /// Produce the report values.
    ///
    /// With zero applied samples every field is the no-data marker — in
    /// particular no average is computed, so no division by zero can
    /// occur.  Otherwise each average is the truncating quotient of the
    /// running sum by the sample count, the peaks and the captured total
    /// RAM are reported as they stand.
    pub fn render(&self) -> (r: Report)
        requires
            self.wf(),
        ensures
            r.average_ram == (if self.stats().count > 0 {
                Some((self.stats().ram_sum / self.stats().count) as u64)
            } else {
                None::<u64>
            }),
            r.average_swap == (if self.stats().count > 0 {
                Some((self.stats().swap_sum / self.stats().count) as u64)
            } else {
                None::<u64>
            }),
            r.max_ram == (if self.stats().count > 0 {
                Some(self.stats().ram_peak as u64)
            } else {
                None::<u64>
            }),
            r.max_swap == (if self.stats().count > 0 {
                Some(self.stats().swap_peak as u64)
            } else {
                None::<u64>
            }),
            r.total_ram == self.stats().first_total,
    {
        if self.ram_average.count == 0 {
            Report {
                average_ram: None,
                average_swap: None,
                max_ram: None,
                max_swap: None,
                total_ram: self.total_ram,
            }
        } else {
            Report {
                average_ram: Some(self.ram_average.result()),
                average_swap: Some(self.swap_average.result()),
                max_ram: Some(self.ram_max),
                max_swap: Some(self.swap_max),
                total_ram: self.total_ram,
            }
        }
    }
}

impl Default for Summary {
    /// The all-zero accumulator of a fresh run.
    fn default() -> (r: Self)
        ensures
            r.wf(),
            r.stats() == empty_stats(),
    {
        Summary {
            total_ram: None,
            ram_average: Average { count: 0, value: 0 },
            ram_max: 0,
            swap_average: Average { count: 0, value: 0 },
            swap_max: 0,
        }
    }
}

/// Folding one more measurement is one fold step.  Together with the
/// contracts of [`Summary::apply`] and [`Default::default`] this ties a
/// loop of `apply` calls, one per measurement in order, to
/// [`fold_stats`] of the sequence applied so far.
pub proof fn lemma_fold_stats_push(ms: Seq<Sample>, m: Sample)
    ensures
        fold_stats(ms.push(m)) == step_stats(fold_stats(ms), m),
{
    assert(ms.push(m).drop_last() =~= ms);
    assert(ms.push(m).last() == m);
}

/// Aggregation law: folding measurements with consistent counters, at
/// least one of them, yields a count equal to their number, sums equal to
/// the per-sample totals (so each reported average is the truncating
/// quotient of that sum by the count), peaks equal to the greatest
/// per-sample use, and a captured total RAM pinned to the first sample's
/// total regardless of every later measurement.
pub proof fn lemma_aggregation_law(ms: Seq<Sample>)
    requires
        ms.len() >= 1,
        forall|i: int| 0 <= i < ms.len() ==> counters_ok(#[trigger] ms[i]),
    ensures
        fold_stats(ms).count == ms.len(),
        fold_stats(ms).ram_sum == sum_ram_used(ms),
        fold_stats(ms).swap_sum == sum_swap_used(ms),
        forall|i: int| 0 <= i < ms.len() ==> fold_stats(ms).ram_peak >= ram_used(#[trigger] ms[i]),
        exists|i: int| 0 <= i < ms.len() && fold_stats(ms).ram_peak == ram_used(#[trigger] ms[i]),
        forall|i: int|
            0 <= i < ms.len() ==> fold_stats(ms).swap_peak >= swap_used(#[trigger] ms[i]),
        exists|i: int| 0 <= i < ms.len() && fold_stats(ms).swap_peak == swap_used(#[trigger] ms[i]),
        fold_stats(ms).first_total == Some(ms[0].total),
    decreases ms.len(),
{
    if ms.len() == 1 {
        assert(ms.drop_last().len() == 0);
        assert(fold_stats(ms) == step_stats(empty_stats(), ms[0]));
        assert(sum_ram_used(ms) == sum_ram_used(ms.drop_last()) + ram_used(ms.last()));
        assert(sum_swap_used(ms) == sum_swap_used(ms.drop_last()) + swap_used(ms.last()));
        assert(fold_stats(ms).ram_peak == ram_used(ms[0]));
        assert(fold_stats(ms).swap_peak == swap_used(ms[0]));
    } else {
        let prev = ms.drop_last();
        assert forall|i: int| 0 <= i < prev.len() implies counters_ok(#[trigger] prev[i]) by {
            assert(prev[i] == ms[i]);
        }
        lemma_aggregation_law(prev);
        assert(prev[0] == ms[0]);
        let p = fold_stats(prev);
        let last = ms.last();
        assert(fold_stats(ms) == step_stats(p, last));
        assert(sum_ram_used(ms) == sum_ram_used(prev) + ram_used(last));
        assert(sum_swap_used(ms) == sum_swap_used(prev) + swap_used(last));
        assert forall|i: int|
            0 <= i < ms.len() implies fold_stats(ms).ram_peak >= ram_used(#[trigger] ms[i]) by {
            if i < ms.len() - 1 {
                assert(prev[i] == ms[i]);
            }
        }
        assert forall|i: int|
            0 <= i < ms.len() implies fold_stats(ms).swap_peak >= swap_used(#[trigger] ms[i]) by {
            if i < ms.len() - 1 {
                assert(prev[i] == ms[i]);
            }
        }
        if ram_used(last) > p.ram_peak {
            assert(fold_stats(ms).ram_peak == ram_used(ms[ms.len() - 1]));
        } else {
            let j = choose|j: int| 0 <= j < prev.len() && p.ram_peak == ram_used(#[trigger] prev[j]);
            assert(fold_stats(ms).ram_peak == ram_used(ms[j]));
        }
        if swap_used(last) > p.swap_peak {
            assert(fold_stats(ms).swap_peak == swap_used(ms[ms.len() - 1]));
        } else {
            let j = choose|j: int|
                0 <= j < prev.len() && p.swap_peak == swap_used(#[trigger] prev[j]);
            assert(fold_stats(ms).swap_peak == swap_used(ms[j]));
        }
    }
}

} // verus!
