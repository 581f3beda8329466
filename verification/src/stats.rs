//! Statistics over a session: for each quantity its count, sum, least and
//! greatest value, and how many values fall into each of its buckets.
//!
//! Means and percentages are quotients of these integers: the mean is
//! `sum / count`, the share of bucket `k` is `buckets[k] / count`.

use vstd::prelude::*;
use crate::errors::ErrorKind;
use crate::sample::PemonEntry;

verus! {

/// The quantities of which statistics are kept.
#[derive(Clone, Copy, Debug, PartialEq, Eq, Structural)]
pub enum Metric {
    CpuTemp,
    MbTemp,
    ChipsetTemp,
    CpuFanRpm,
    ChassisFanRpm,
    HddTemp,
}

/// The statistics of one quantity.
#[derive(Debug, PartialEq, Eq)]
pub struct Summary {
    /// How many values there were; at least one.
    pub count: usize,
    /// Their sum.
    pub sum: u128,
    /// The least of them.
    pub min: usize,
    /// The greatest of them.
    pub max: usize,
    /// How many of them fell into each bucket, from the lowest bucket up.
    pub buckets: Vec<usize>,
}

/// A `Summary` as mathematics.
pub struct SummaryView {
    pub count: nat,
    pub sum: nat,
    pub min: nat,
    pub max: nat,
    pub buckets: Seq<nat>,
}

impl SummaryView {
    /// Whether these can be the statistics of some values: there is at
    /// least one value, the least is not above the greatest, the mean lies
    /// between them, and each value is counted in one bucket.
    pub open spec fn well_formed(self) -> bool {
        &&& self.count > 0
        &&& self.min <= self.max
        &&& self.count * self.min <= self.sum <= self.count * self.max
        &&& sum_of(self.buckets) == self.count
    }
}

impl View for Summary {
    type V = SummaryView;

    open spec fn view(&self) -> SummaryView {
        SummaryView {
            count: self.count as nat,
            sum: self.sum as nat,
            min: self.min as nat,
            max: self.max as nat,
            buckets: Seq::new(self.buckets@.len(), |k: int| self.buckets@[k] as nat),
        }
    }
}

/// The statistics of the five quantities of the sensor report.
#[derive(Debug, PartialEq, Eq)]
pub struct SensorStatistic {
    pub cpu_temp: Summary,
    pub mb_temp: Summary,
    pub chipset_temp: Summary,
    pub cpu_fan_rpm: Summary,
    pub chassis_fan_rpm: Summary,
}

/// The statistics of a whole session.
#[derive(Debug, PartialEq, Eq)]
pub struct Report {
    pub sensors: SensorStatistic,
    pub hdd_temp: Summary,
}

/// The sum of the values.
pub open spec fn total(values: Seq<usize>) -> nat
    decreases values.len(),
{
    if values.len() == 0 {
        0
    } else {
        total(values.drop_last()) + values.last() as nat
    }
}

/// The least of the values, of which there is at least one.
pub open spec fn minimum(values: Seq<usize>) -> nat
    recommends
        values.len() > 0,
    decreases values.len(),
{
    if values.len() <= 1 {
        values[0] as nat
    } else if values.last() < minimum(values.drop_last()) {
        values.last() as nat
    } else {
        minimum(values.drop_last())
    }
}

/// The greatest of the values, of which there is at least one.
pub open spec fn maximum(values: Seq<usize>) -> nat
    recommends
        values.len() > 0,
    decreases values.len(),
{
    if values.len() <= 1 {
        values[0] as nat
    } else if values.last() > maximum(values.drop_last()) {
        values.last() as nat
    } else {
        maximum(values.drop_last())
    }
}

/// Whether the edges of a set of buckets rise strictly.
pub open spec fn ascending(edges: Seq<usize>) -> bool {
    forall|i: int, j: int| 0 <= i < j < edges.len() ==> edges[i] < edges[j]
}

/// Whether `v` lies in bucket `k`. The edges cut the numbers into
/// `edges.len() + 1` buckets: bucket `k` holds the values from `edges[k - 1]`
/// on and below `edges[k]`; the lowest has no lower bound and the highest no
/// upper bound.
pub open spec fn in_bucket(edges: Seq<usize>, k: int, v: usize) -> bool {
    &&& 0 <= k <= edges.len()
    &&& k == 0 || edges[k - 1] <= v
    &&& k == edges.len() || v < edges[k]
}

/// How many of the values lie in bucket `k`.
pub open spec fn bucket_count(edges: Seq<usize>, values: Seq<usize>, k: int) -> nat
    decreases values.len(),
{
    if values.len() == 0 {
        0
    } else {
        bucket_count(edges, values.drop_last(), k) + if in_bucket(edges, k, values.last()) {
            1nat
        } else {
            0nat
        }
    }
}

/// The statistics of `values`, of which there is at least one, over the
/// buckets that `edges` cut.
pub open spec fn summary_of(edges: Seq<usize>, values: Seq<usize>) -> SummaryView
    recommends
        values.len() > 0,
{
    SummaryView {
        count: values.len(),
        sum: total(values),
        min: minimum(values),
        max: maximum(values),
        buckets: Seq::new(edges.len() + 1, |k: int| bucket_count(edges, values, k)),
    }
}

/// The bucket edges of each quantity: degrees Celsius for temperatures,
/// revolutions per minute for fans.
pub open spec fn edges_of(metric: Metric) -> Seq<usize> {
    match metric {
        Metric::CpuTemp | Metric::MbTemp | Metric::ChipsetTemp => seq![40usize, 60, 70, 80],
        Metric::CpuFanRpm => seq![1500usize, 2000, 2500, 3000],
        Metric::ChassisFanRpm => seq![1500usize, 1800, 2100, 2500],
        Metric::HddTemp => seq![30usize, 50, 70],
    }
}

/// The value of a quantity in one sample.
pub open spec fn reading_of(entry: PemonEntry, metric: Metric) -> usize {
    match metric {
        Metric::CpuTemp => entry.sensor.cpu_temp,
        Metric::MbTemp => entry.sensor.mb_temp,
        Metric::ChipsetTemp => entry.sensor.chipset_temp,
        Metric::CpuFanRpm => entry.sensor.cpu_fan_rpm,
        Metric::ChassisFanRpm => entry.sensor.chassis_fan_rpm,
        Metric::HddTemp => entry.hdd_temp,
    }
}

/// The values of a quantity over a session, in the order of the samples.
pub open spec fn column(log: Seq<PemonEntry>, metric: Metric) -> Seq<usize> {
    Seq::new(log.len(), |i: int| reading_of(log[i], metric))
}

/// The statistics of one quantity over a session of at least one sample.
pub open spec fn metric_summary_of(log: Seq<PemonEntry>, metric: Metric) -> SummaryView
    recommends
        log.len() > 0,
{
    summary_of(edges_of(metric), column(log, metric))
}

impl SensorStatistic {
    /// Whether these are the sensor statistics of the session `log`.
    pub open spec fn describes(&self, log: Seq<PemonEntry>) -> bool {
        &&& self.cpu_temp@ == metric_summary_of(log, Metric::CpuTemp)
        &&& self.mb_temp@ == metric_summary_of(log, Metric::MbTemp)
        &&& self.chipset_temp@ == metric_summary_of(log, Metric::ChipsetTemp)
        &&& self.cpu_fan_rpm@ == metric_summary_of(log, Metric::CpuFanRpm)
        &&& self.chassis_fan_rpm@ == metric_summary_of(log, Metric::ChassisFanRpm)
    }
}

impl Report {
    /// Whether these are the statistics of the session `log`.
    pub open spec fn describes(&self, log: Seq<PemonEntry>) -> bool {
        &&& self.sensors.describes(log)
        &&& self.hdd_temp@ == metric_summary_of(log, Metric::HddTemp)
    }
}

proof fn lemma_bucket_count_bound(edges: Seq<usize>, values: Seq<usize>, k: int)
    ensures
        bucket_count(edges, values, k) <= values.len(),
    decreases values.len(),
{
    if values.len() > 0 {
        lemma_bucket_count_bound(edges, values.drop_last(), k);
    }
}

/// Every value lies in exactly one bucket.
pub proof fn buckets_partition(edges: Seq<usize>, v: usize)
    requires
        ascending(edges),
    ensures
        exists|k: int| in_bucket(edges, k, v),
        forall|j: int, k: int| in_bucket(edges, j, v) && in_bucket(edges, k, v) ==> j == k,
{
    lemma_bucket_exists(edges, v, 0);
}

proof fn lemma_bucket_exists(edges: Seq<usize>, v: usize, from: int)
    requires
        ascending(edges),
        0 <= from <= edges.len(),
        from == 0 || edges[from - 1] <= v,
    ensures
        exists|k: int| in_bucket(edges, k, v),
    decreases edges.len() - from,
{
    if from == edges.len() || v < edges[from] {
        assert(in_bucket(edges, from, v));
    } else {
        lemma_bucket_exists(edges, v, from + 1);
    }
}

/// Finds the bucket of a value.
pub fn bucket_of(edges: &[usize], v: usize) -> (k: usize)
    requires
        ascending(edges@),
    ensures
        in_bucket(edges@, k as int, v),
        forall|j: int| in_bucket(edges@, j, v) ==> j == k,
{
    let mut k: usize = 0;
    while k < edges.len() && edges[k] <= v
        invariant
            k <= edges.len(),
            forall|j: int| 0 <= j < k ==> edges@[j] <= v,
        decreases edges.len() - k,
    {
        k += 1;
    }
    k
}

/// Computes the statistics of `values` over the buckets that `edges` cut.
/// Of no values there are none: least, greatest and mean do not exist.
pub fn summarize_values(values: &[usize], edges: &[usize]) -> (r: Result<Summary, ErrorKind>)
    requires
        ascending(edges@),
        edges.len() < usize::MAX,
    ensures
        match r {
            Ok(s) => values@.len() > 0 && s@ == summary_of(edges@, values@),
            Err(e) => values@.len() == 0 && e == ErrorKind::EmptySessionLog,
        },
        r matches Ok(s) ==> s@.well_formed(),
{
    let n: usize = values.len();
    if n == 0 {
        return Err(ErrorKind::EmptySessionLog);
    }
    let width: usize = edges.len() + 1;
    let mut buckets: Vec<usize> = Vec::new();
    let mut b: usize = 0;
    while b < width
        invariant
            b <= width,
            buckets.len() == b,
            forall|k: int| 0 <= k < b ==> buckets@[k] == 0,
        decreases width - b,
    {
        buckets.push(0);
        b += 1;
    }
    let mut sum: u128 = 0;
    let mut min: usize = values[0];
    let mut max: usize = values[0];
    let mut i: usize = 0;
    assert(values@.subrange(0, 0) =~= Seq::<usize>::empty());
    while i < n
        invariant
            n == values.len(),
            width == edges.len() + 1,
            ascending(edges@),
            i <= n,
            buckets.len() == width,
            sum == total(values@.subrange(0, i as int)),
            sum <= i * 0xffff_ffff_ffff_ffff,
            n > 0,
            i == 0 ==> min == values@[0] && max == values@[0],
            i > 0 ==> min == minimum(values@.subrange(0, i as int)) && max == maximum(
                values@.subrange(0, i as int),
            ),
            forall|k: int|
                0 <= k < width ==> #[trigger] buckets@[k] == bucket_count(
                    edges@,
                    values@.subrange(0, i as int),
                    k,
                ),
        decreases n - i,
    {
        let v: usize = values[i];
        let ghost before = values@.subrange(0, i as int);
        let ghost after = values@.subrange(0, i as int + 1);
        proof {
            assert(after.drop_last() =~= before);
            assert(after.last() == v);
            assert(after[0] == values@[0]);
        }
        sum = sum + v as u128;
        if v < min {
            min = v;
        }
        if v > max {
            max = v;
        }
        let k: usize = bucket_of(edges, v);
        proof {
            lemma_bucket_count_bound(edges@, before, k as int);
        }
        let ghost counts = buckets@;
        buckets.set(k, buckets[k] + 1);
        proof {
            assert forall|j: int| 0 <= j < width implies #[trigger] buckets@[j] == bucket_count(
                edges@,
                after,
                j,
            ) by {
                assert(counts[j] == bucket_count(edges@, before, j));
                if j != k {
                    assert(!in_bucket(edges@, j, v));
                }
            }
        }
        i += 1;
    }
    assert(values@.subrange(0, n as int) =~= values@);
    let r = Summary { count: n, sum, min, max, buckets };
    assert(r@.buckets =~= summary_of(edges@, values@).buckets);
    proof {
        summaries_are_well_formed(edges@, values@);
    }
    Ok(r)
}

/// The bucket edges of a quantity.
pub fn bucket_edges(metric: Metric) -> (edges: Vec<usize>)
    ensures
        edges@ == edges_of(metric),
        ascending(edges@),
{
    let edges: Vec<usize> = match metric {
        Metric::CpuTemp | Metric::MbTemp | Metric::ChipsetTemp => vec![40, 60, 70, 80],
        Metric::CpuFanRpm => vec![1500, 2000, 2500, 3000],
        Metric::ChassisFanRpm => vec![1500, 1800, 2100, 2500],
        Metric::HddTemp => vec![30, 50, 70],
    };
    assert(edges@ =~= edges_of(metric));
    edges
}

/// The value of a quantity in one sample.
pub fn reading(entry: &PemonEntry, metric: Metric) -> (v: usize)
    ensures
        v == reading_of(*entry, metric),
{
    match metric {
        Metric::CpuTemp => entry.sensor.cpu_temp,
        Metric::MbTemp => entry.sensor.mb_temp,
        Metric::ChipsetTemp => entry.sensor.chipset_temp,
        Metric::CpuFanRpm => entry.sensor.cpu_fan_rpm,
        Metric::ChassisFanRpm => entry.sensor.chassis_fan_rpm,
        Metric::HddTemp => entry.hdd_temp,
    }
}

/// Computes the statistics of one quantity over a session. A session
/// without samples has none.
pub fn metric_summary(pemon: &Vec<PemonEntry>, metric: Metric) -> (r: Result<Summary, ErrorKind>)
    ensures
        match r {
            Ok(s) => pemon@.len() > 0 && s@ == metric_summary_of(pemon@, metric),
            Err(e) => pemon@.len() == 0 && e == ErrorKind::EmptySessionLog,
        },
        r matches Ok(s) ==> s@.well_formed(),
{
    let n: usize = pemon.len();
    let mut values: Vec<usize> = Vec::new();
    let mut i: usize = 0;
    while i < n
        invariant
            n == pemon.len(),
            i <= n,
            values.len() == i,
            forall|j: int| 0 <= j < i ==> values@[j] == reading_of(pemon@[j], metric),
        decreases n - i,
    {
        values.push(reading(&pemon[i], metric));
        i += 1;
    }
    assert(values@ =~= column(pemon@, metric));
    let edges = bucket_edges(metric);
    summarize_values(values.as_slice(), edges.as_slice())
}

/// Computes the statistics of the sensor readings of a session. A session
/// without samples has none.
pub fn do_sensor_statistic(pemon: &Vec<PemonEntry>) -> (r: Result<SensorStatistic, ErrorKind>)
    ensures
        match r {
            Ok(s) => pemon@.len() > 0 && s.describes(pemon@),
            Err(e) => pemon@.len() == 0 && e == ErrorKind::EmptySessionLog,
        },
{
    let cpu_temp = match metric_summary(pemon, Metric::CpuTemp) {
        Ok(s) => s,
        Err(e) => {
            return Err(e);
        },
    };
    let mb_temp = match metric_summary(pemon, Metric::MbTemp) {
        Ok(s) => s,
        Err(e) => {
            return Err(e);
        },
    };
    let chipset_temp = match metric_summary(pemon, Metric::ChipsetTemp) {
        Ok(s) => s,
        Err(e) => {
            return Err(e);
        },
    };
    let cpu_fan_rpm = match metric_summary(pemon, Metric::CpuFanRpm) {
        Ok(s) => s,
        Err(e) => {
            return Err(e);
        },
    };
    let chassis_fan_rpm = match metric_summary(pemon, Metric::ChassisFanRpm) {
        Ok(s) => s,
        Err(e) => {
            return Err(e);
        },
    };
    Ok(SensorStatistic { cpu_temp, mb_temp, chipset_temp, cpu_fan_rpm, chassis_fan_rpm })
}

/// Computes the statistics of the drive temperatures of a session. A
/// session without samples has none.
pub fn do_hdd_temp_statistic(pemon: &Vec<PemonEntry>) -> (r: Result<Summary, ErrorKind>)
    ensures
        match r {
            Ok(s) => pemon@.len() > 0 && s@ == metric_summary_of(pemon@, Metric::HddTemp),
            Err(e) => pemon@.len() == 0 && e == ErrorKind::EmptySessionLog,
        },
{
    metric_summary(pemon, Metric::HddTemp)
}

/// Computes the statistics of a session. A session without samples has
/// none: means and shares would be quotients by zero.
pub fn do_statistic(pemon: Vec<PemonEntry>) -> (r: Result<Report, ErrorKind>)
    ensures
        match r {
            Ok(report) => pemon@.len() > 0 && report.describes(pemon@),
            Err(e) => pemon@.len() == 0 && e == ErrorKind::EmptySessionLog,
        },
{
    let sensors = match do_sensor_statistic(&pemon) {
        Ok(s) => s,
        Err(e) => {
            return Err(e);
        },
    };
    let hdd_temp = match do_hdd_temp_statistic(&pemon) {
        Ok(s) => s,
        Err(e) => {
            return Err(e);
        },
    };
    Ok(Report { sensors, hdd_temp })
}

/// The statistics of a quantity depend on the values of that quantity alone:
/// two sessions that agree on them have the same statistics of it, whatever
/// else they recorded.
pub proof fn statistics_depend_on_readings(a: Seq<PemonEntry>, b: Seq<PemonEntry>, metric: Metric)
    requires
        a.len() == b.len(),
        forall|i: int| 0 <= i < a.len() ==> reading_of(a[i], metric) == reading_of(b[i], metric),
    ensures
        metric_summary_of(a, metric) == metric_summary_of(b, metric),
{
    assert(column(a, metric) =~= column(b, metric));
}

/// Two reports of one session say the same.
pub proof fn reports_agree(log: Seq<PemonEntry>, first: Report, second: Report)
    requires
        first.describes(log),
        second.describes(log),
    ensures
        first.sensors.cpu_temp@ == second.sensors.cpu_temp@,
        first.sensors.mb_temp@ == second.sensors.mb_temp@,
        first.sensors.chipset_temp@ == second.sensors.chipset_temp@,
        first.sensors.cpu_fan_rpm@ == second.sensors.cpu_fan_rpm@,
        first.sensors.chassis_fan_rpm@ == second.sensors.chassis_fan_rpm@,
        first.hdd_temp@ == second.hdd_temp@,
{
}

/// The sum of a sequence of counts.
pub open spec fn sum_of(counts: Seq<nat>) -> nat
    decreases counts.len(),
{
    if counts.len() == 0 {
        0
    } else {
        sum_of(counts.drop_last()) + counts.last()
    }
}

proof fn lemma_sum_of_zeros(counts: Seq<nat>)
    requires
        forall|k: int| 0 <= k < counts.len() ==> counts[k] == 0,
    ensures
        sum_of(counts) == 0,
    decreases counts.len(),
{
    if counts.len() > 0 {
        lemma_sum_of_zeros(counts.drop_last());
    }
}

proof fn lemma_sum_of_one_more(a: Seq<nat>, b: Seq<nat>, k: int)
    requires
        a.len() == b.len(),
        0 <= k < a.len(),
        b[k] == a[k] + 1,
        forall|j: int| 0 <= j < a.len() && j != k ==> b[j] == a[j],
    ensures
        sum_of(b) == sum_of(a) + 1,
    decreases a.len(),
{
    if k == a.len() - 1 {
        assert(a.drop_last() =~= b.drop_last());
    } else {
        lemma_sum_of_one_more(a.drop_last(), b.drop_last(), k);
    }
}

/// The buckets leave no value out and count none twice: their counts add up
/// to the number of values.
pub proof fn bucket_counts_add_up(edges: Seq<usize>, values: Seq<usize>)
    requires
        ascending(edges),
    ensures
        sum_of(summary_of(edges, values).buckets) == values.len(),
    decreases values.len(),
{
    let counts = summary_of(edges, values).buckets;
    if values.len() == 0 {
        lemma_sum_of_zeros(counts);
    } else {
        let earlier = summary_of(edges, values.drop_last()).buckets;
        bucket_counts_add_up(edges, values.drop_last());
        buckets_partition(edges, values.last());
        let k = choose|k: int| in_bucket(edges, k, values.last());
        assert forall|j: int| 0 <= j < earlier.len() && j != k implies counts[j] == earlier[j] by {
            assert(!in_bucket(edges, j, values.last()));
        }
        lemma_sum_of_one_more(earlier, counts, k);
    }
}

/// The least and the greatest value are values of the sequence, and every
/// value lies between them.
pub proof fn extremes_bound_values(values: Seq<usize>)
    requires
        values.len() > 0,
    ensures
        exists|i: int| 0 <= i < values.len() && values[i] == minimum(values),
        exists|i: int| 0 <= i < values.len() && values[i] == maximum(values),
        forall|i: int|
            0 <= i < values.len() ==> minimum(values) <= (#[trigger] values[i]) && values[i]
                <= maximum(values),
    decreases values.len(),
{
    let earlier = values.drop_last();
    let last = values.len() - 1;
    if earlier.len() == 0 {
        assert(values[last] == minimum(values));
        assert(values[last] == maximum(values));
    } else {
        extremes_bound_values(earlier);
        let lo = choose|i: int| 0 <= i < earlier.len() && earlier[i] == minimum(earlier);
        let hi = choose|i: int| 0 <= i < earlier.len() && earlier[i] == maximum(earlier);
        if values.last() < minimum(earlier) {
            assert(values[last] == minimum(values));
        } else {
            assert(values[lo] == minimum(values));
        }
        if values.last() > maximum(earlier) {
            assert(values[last] == maximum(values));
        } else {
            assert(values[hi] == maximum(values));
        }
        assert forall|i: int| 0 <= i < values.len() implies minimum(values) <= (
        #[trigger] values[i]) && values[i] <= maximum(values) by {
            if i < last {
                assert(earlier[i] == values[i]);
            }
        }
    }
}

/// The mean lies between the least and the greatest value: the sum is at
/// least the count times the one and at most the count times the other.
pub proof fn mean_between_extremes(values: Seq<usize>)
    requires
        values.len() > 0,
    ensures
        values.len() * minimum(values) <= total(values) <= values.len() * maximum(values),
    decreases values.len(),
{
    let earlier = values.drop_last();
    let n = earlier.len();
    let v = values.last() as nat;
    if n > 0 {
        mean_between_extremes(earlier);
        let lo = minimum(values);
        let hi = maximum(values);
        assert(lo <= minimum(earlier) && lo <= v);
        assert(hi >= maximum(earlier) && hi >= v);
        assert(n * lo <= n * minimum(earlier)) by (nonlinear_arith)
            requires
                lo <= minimum(earlier),
        ;
        assert(n * hi >= n * maximum(earlier)) by (nonlinear_arith)
            requires
                hi >= maximum(earlier),
        ;
        assert((n + 1) * lo == n * lo + lo) by (nonlinear_arith);
        assert((n + 1) * hi == n * hi + hi) by (nonlinear_arith);
    } else {
        assert(total(earlier) == 0);
        assert(1 * minimum(values) == minimum(values)) by (nonlinear_arith);
        assert(1 * maximum(values) == maximum(values)) by (nonlinear_arith);
    }
}

/// The statistics of at least one value are well formed.
pub proof fn summaries_are_well_formed(edges: Seq<usize>, values: Seq<usize>)
    requires
        ascending(edges),
        values.len() > 0,
    ensures
        summary_of(edges, values).well_formed(),
{
    extremes_bound_values(values);
    assert(minimum(values) <= values[0] && values[0] <= maximum(values));
    mean_between_extremes(values);
    bucket_counts_add_up(edges, values);
}

} // verus!
