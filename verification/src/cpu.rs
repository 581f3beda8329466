//! Per-core counters: snapshots of the kernel's cumulative time counters,
//! the utilization between two snapshots, and the clock frequency of each
//! core.

use vstd::prelude::*;
use crate::errors::ErrorKind;
use crate::number::{
    all_digits, decimal_of, decimal_value, digits_of, digits_read_back, number_of,
    parse_decimal, parse_usize, push_digits, unsigned_part, Decimal,
};
use crate::text::{
    bytes_eq, field_value, has_prefix, lines, split_lines, split_tokens, starts_with, tokens,
    value_after_colon, views,
};
use vstd::slice::slice_subrange;
use vstd::string::StringSliceAdditionalSpecFns;

verus! {

/// The cumulative time counters of one core, in ticks since boot.
#[derive(Clone, Copy, Debug, PartialEq, Eq, Structural)]
pub struct CpuStat {
    pub user: usize,
    pub nice: usize,
    pub system: usize,
    pub idle: usize,
    pub iowait: usize,
    pub irq: usize,
    pub softirq: usize,
    pub steal: usize,
    pub guest: usize,
    pub guest_nice: usize,
}

impl CpuStat {
    /// All ticks that the snapshot accounts for.
    pub open spec fn total_ticks(self) -> nat {
        (self.user + self.nice + self.system + self.idle + self.iowait + self.irq + self.softirq
            + self.steal + self.guest + self.guest_nice) as nat
    }

    /// A snapshot in which every counter is zero.
    pub fn new() -> (r: CpuStat)
        ensures
            r == (CpuStat {
                user: 0,
                nice: 0,
                system: 0,
                idle: 0,
                iowait: 0,
                irq: 0,
                softirq: 0,
                steal: 0,
                guest: 0,
                guest_nice: 0,
            }),
            r.total_ticks() == 0,
    {
        CpuStat {
            user: 0,
            nice: 0,
            system: 0,
            idle: 0,
            iowait: 0,
            irq: 0,
            softirq: 0,
            steal: 0,
            guest: 0,
            guest_nice: 0,
        }
    }

    /// The sum of all counters.
    pub fn total(&self) -> (r: u128)
        ensures
            r == self.total_ticks(),
    {
        let a: u128 = self.user as u128 + self.nice as u128 + self.system as u128
            + self.idle as u128 + self.iowait as u128;
        let b: u128 = self.irq as u128 + self.softirq as u128 + self.steal as u128
            + self.guest as u128 + self.guest_nice as u128;
        a + b
    }
}

/// The share of an interval in which a core was busy, as an exact fraction:
/// the utilization in percent is `100 * busy / total`.
#[derive(Clone, Copy, Debug, PartialEq, Eq, Structural)]
pub struct Usage {
    /// Ticks of the interval that were not idle.
    pub busy: i128,
    /// All ticks of the interval; never zero.
    pub total: i128,
}

impl Usage {
    /// Whether the fraction is one: its denominator is not zero.
    pub open spec fn well_formed(self) -> bool {
        self.total != 0
    }

    /// Whether the percentage lies between 0 and 100, both included.
    pub open spec fn in_percent_range(self) -> bool {
        self.total > 0 && 0 <= 100 * self.busy <= 100 * self.total
    }
}

/// Ticks elapsed between two snapshots.
pub open spec fn total_delta(previous: CpuStat, current: CpuStat) -> int {
    current.total_ticks() - previous.total_ticks()
}

/// Idle ticks elapsed between two snapshots.
pub open spec fn idle_delta(previous: CpuStat, current: CpuStat) -> int {
    current.idle - previous.idle
}

/// The utilization between two snapshots of one core: the ticks that were
/// not idle over all ticks. Undefined, and an error, where no tick elapsed.
pub open spec fn utilization(previous: CpuStat, current: CpuStat) -> Result<Usage, ErrorKind> {
    if total_delta(previous, current) == 0 {
        Err(ErrorKind::ZeroIntervalCounters)
    } else {
        Ok(
            Usage {
                busy: (total_delta(previous, current) - idle_delta(previous, current)) as i128,
                total: total_delta(previous, current) as i128,
            },
        )
    }
}

/// Computes the utilization of a core between two of its snapshots.
pub fn compute_utilization(previous: &CpuStat, current: &CpuStat) -> (r: Result<Usage, ErrorKind>)
    ensures
        r == utilization(*previous, *current),
        r is Err <==> total_delta(*previous, *current) == 0,
        r matches Ok(u) ==> u.well_formed(),
        r matches Ok(u) ==> u.total == total_delta(*previous, *current) && u.busy == total_delta(
            *previous,
            *current,
        ) - idle_delta(*previous, *current),
{
    let before: u128 = previous.total();
    let after: u128 = current.total();
    if before == after {
        return Err(ErrorKind::ZeroIntervalCounters);
    }
    let total: i128 = after as i128 - before as i128;
    let idle: i128 = current.idle as i128 - previous.idle as i128;
    Ok(Usage { busy: total - idle, total })
}

/// Where time has passed and the idle share of it is between nothing and
/// all, the utilization exists and lies between 0 and 100 percent.
pub proof fn utilization_in_bounds(previous: CpuStat, current: CpuStat)
    requires
        total_delta(previous, current) > 0,
        0 <= idle_delta(previous, current) <= total_delta(previous, current),
    ensures
        utilization(previous, current) is Ok,
        utilization(previous, current)->Ok_0.in_percent_range(),
        0 <= utilization(previous, current)->Ok_0.busy <= utilization(previous, current)->Ok_0.total,
{
}

/// Without elapsed ticks there is no utilization, whatever the counters.
pub proof fn utilization_needs_elapsed_time(previous: CpuStat, current: CpuStat)
    ensures
        total_delta(previous, current) == 0 <==> utilization(previous, current) == Err::<
            Usage,
            ErrorKind,
        >(ErrorKind::ZeroIntervalCounters),
        utilization(previous, current) matches Ok(u) ==> u.well_formed(),
{
}

/// The label that starts the counter line of core `i`.
pub open spec fn core_label(i: nat) -> Seq<u8> {
    "cpu".spec_bytes() + digits_of(i)
}

/// Whether the first token of `line` is the label of core `i`.
pub open spec fn names_core(line: Seq<u8>, i: nat) -> bool {
    tokens(line).len() > 0 && tokens(line)[0] == core_label(i)
}

/// The first of `table` that names core `i`.
pub open spec fn counter_line(table: Seq<Seq<u8>>, i: nat) -> Option<Seq<u8>>
    decreases table.len(),
{
    if table.len() == 0 {
        None
    } else if names_core(table[0], i) {
        Some(table[0])
    } else {
        counter_line(table.drop_first(), i)
    }
}

/// The snapshot that the fields of a counter line denote. The first nine
/// fields are required; the tenth, where the line has one, is `guest_nice`,
/// which is zero otherwise. Further fields are not read.
pub open spec fn stat_of_fields(fields: Seq<Seq<u8>>) -> Option<CpuStat> {
    if fields.len() >= 9 && (forall|k: int| 0 <= k < 9 ==> (#[trigger] number_of(fields[k])) is Some)
        && (fields.len() >= 10 ==> number_of(fields[9]) is Some) {
        Some(
            CpuStat {
                user: number_of(fields[0])->Some_0,
                nice: number_of(fields[1])->Some_0,
                system: number_of(fields[2])->Some_0,
                idle: number_of(fields[3])->Some_0,
                iowait: number_of(fields[4])->Some_0,
                irq: number_of(fields[5])->Some_0,
                softirq: number_of(fields[6])->Some_0,
                steal: number_of(fields[7])->Some_0,
                guest: number_of(fields[8])->Some_0,
                guest_nice: if fields.len() >= 10 {
                    number_of(fields[9])->Some_0
                } else {
                    0
                },
            },
        )
    } else {
        None
    }
}

/// The snapshot of core `i` in a counter table, given as its lines.
pub open spec fn snapshot_in(table: Seq<Seq<u8>>, i: nat) -> Result<CpuStat, ErrorKind> {
    match counter_line(table, i) {
        None => Err(ErrorKind::CounterLineNotFound),
        Some(line) => match stat_of_fields(tokens(line).drop_first()) {
            Some(stat) => Ok(stat),
            None => Err(ErrorKind::CounterParseError),
        },
    }
}

/// The snapshots of cores `0` to `n - 1`, or the error of the first core
/// that has none.
pub open spec fn snapshots_in(table: Seq<Seq<u8>>, n: nat) -> Result<Seq<CpuStat>, ErrorKind>
    decreases n,
{
    if n == 0 {
        Ok(Seq::empty())
    } else {
        match snapshots_in(table, (n - 1) as nat) {
            Err(e) => Err(e),
            Ok(stats) => match snapshot_in(table, (n - 1) as nat) {
                Ok(stat) => Ok(stats.push(stat)),
                Err(e) => Err(e),
            },
        }
    }
}

/// Builds the label of core `i`.
pub fn make_core_label(i: usize) -> (label: Vec<u8>)
    ensures
        label@ == core_label(i as nat),
{
    let name = "cpu".as_bytes();
    let mut label: Vec<u8> = Vec::new();
    let mut k: usize = 0;
    while k < name.len()
        invariant
            k <= name.len(),
            label@ == name@.subrange(0, k as int),
        decreases name.len() - k,
    {
        label.push(name[k]);
        assert(label@ =~= name@.subrange(0, k as int + 1));
        k += 1;
    }
    assert(name@.subrange(0, name.len() as int) =~= name@);
    push_digits(&mut label, i);
    label
}

/// Reads the fields of a counter line, the label left out.
pub fn parse_counter_fields(fields: &[&[u8]]) -> (r: Option<CpuStat>)
    ensures
        r == stat_of_fields(views(fields@)),
{
    let ghost f = views(fields@);
    if fields.len() < 9 {
        return None;
    }
    let wanted: usize = if fields.len() >= 10 {
        10
    } else {
        9
    };
    let mut values: Vec<usize> = Vec::new();
    let mut k: usize = 0;
    while k < wanted
        invariant
            f == views(fields@),
            9 <= wanted <= 10,
            wanted <= fields.len(),
            k <= wanted,
            values.len() == k,
            forall|j: int| 0 <= j < k ==> number_of(f[j]) == Some(#[trigger] values@[j]),
        decreases wanted - k,
    {
        match parse_usize(fields[k]) {
            Some(v) => {
                values.push(v);
            },
            None => {
                assert(number_of(f[k as int]) is None);
                return None;
            },
        }
        k += 1;
    }
    assert forall|j: int| 0 <= j < 9 implies (#[trigger] number_of(f[j])) is Some by {
        assert(number_of(f[j]) == Some(values@[j]));
    }
    assert(number_of(f[0]) == Some(values@[0]));
    assert(number_of(f[1]) == Some(values@[1]));
    assert(number_of(f[2]) == Some(values@[2]));
    assert(number_of(f[3]) == Some(values@[3]));
    assert(number_of(f[4]) == Some(values@[4]));
    assert(number_of(f[5]) == Some(values@[5]));
    assert(number_of(f[6]) == Some(values@[6]));
    assert(number_of(f[7]) == Some(values@[7]));
    assert(number_of(f[8]) == Some(values@[8]));
    let guest_nice: usize = if wanted == 10 {
        assert(number_of(f[9]) == Some(values@[9]));
        values[9]
    } else {
        0
    };
    Some(
        CpuStat {
            user: values[0],
            nice: values[1],
            system: values[2],
            idle: values[3],
            iowait: values[4],
            irq: values[5],
            softirq: values[6],
            steal: values[7],
            guest: values[8],
            guest_nice,
        },
    )
}

/// Finds and reads the counter line of core `i` among the lines of a
/// counter table.
pub fn find_cpu_stat(table: &[&[u8]], i: usize) -> (r: Result<CpuStat, ErrorKind>)
    ensures
        r == snapshot_in(views(table@), i as nat),
{
    let ghost t = views(table@);
    let label = make_core_label(i);
    let n: usize = table.len();
    let mut k: usize = 0;
    assert(t.subrange(0, n as int) =~= t);
    while k < n
        invariant
            t == views(table@),
            n == table.len(),
            k <= n,
            label@ == core_label(i as nat),
            counter_line(t, i as nat) == counter_line(t.subrange(k as int, n as int), i as nat),
        decreases n - k,
    {
        let toks = split_tokens(table[k]);
        assert(t.subrange(k as int, n as int)[0] == table@[k as int]@);
        if toks.len() > 0 && bytes_eq(toks[0], label.as_slice()) {
            assert(views(toks@)[0] == toks@[0]@);
            assert(names_core(t[k as int], i as nat));
            let fields = slice_subrange(toks.as_slice(), 1, toks.len());
            assert(views(fields@) =~= tokens(t[k as int]).drop_first());
            return match parse_counter_fields(fields) {
                Some(stat) => Ok(stat),
                None => Err(ErrorKind::CounterParseError),
            };
        }
        proof {
            if toks.len() > 0 {
                assert(views(toks@)[0] == toks@[0]@);
            }
            assert(!names_core(t[k as int], i as nat));
            assert(t.subrange(k as int, n as int).drop_first() =~= t.subrange(
                k as int + 1,
                n as int,
            ));
        }
        k += 1;
    }
    Err(ErrorKind::CounterLineNotFound)
}

/// Reads the snapshot of core `i` from the text of a counter table.
pub fn parse_cpu_stat(stat: &[u8], i: usize) -> (r: Result<CpuStat, ErrorKind>)
    ensures
        r == snapshot_in(lines(stat@), i as nat),
{
    let table = split_lines(stat);
    find_cpu_stat(table.as_slice(), i)
}

/// Where all of the first `n` cores have a snapshot, `snapshots_in` gives
/// exactly these, the one of core `i` at index `i`.
pub proof fn snapshots_are_per_core(table: Seq<Seq<u8>>, n: nat)
    ensures
        snapshots_in(table, n) matches Ok(stats) ==> stats.len() == n && forall|i: int|
            0 <= i < n ==> snapshot_in(table, i as nat) == Ok::<CpuStat, ErrorKind>(
                #[trigger] stats[i],
            ),
        snapshots_in(table, n) is Ok <==> forall|i: int|
            0 <= i < n ==> (#[trigger] snapshot_in(table, i as nat)) is Ok,
    decreases n,
{
    if n > 0 {
        let k = (n - 1) as nat;
        snapshots_are_per_core(table, k);
        if snapshots_in(table, n) is Ok {
            let earlier = snapshots_in(table, k)->Ok_0;
            let stats = snapshots_in(table, n)->Ok_0;
            assert forall|i: int| 0 <= i < n implies snapshot_in(table, i as nat) == Ok::<
                CpuStat,
                ErrorKind,
            >(#[trigger] stats[i]) by {
                if i < k {
                    assert(stats[i] == earlier[i]);
                }
            }
            assert forall|i: int| 0 <= i < n implies (#[trigger] snapshot_in(
                table,
                i as nat,
            )) is Ok by {
                assert(snapshot_in(table, i as nat) == Ok::<CpuStat, ErrorKind>(stats[i]));
            }
        } else {
            if snapshots_in(table, k) is Ok {
                assert(snapshot_in(table, k) is Err);
            } else {
                let bad = choose|i: int| 0 <= i < k && !((#[trigger] snapshot_in(
                    table,
                    i as nat,
                )) is Ok);
                assert(!(snapshot_in(table, bad as nat) is Ok));
            }
        }
    }
}

proof fn lemma_snapshots_error_stays(table: Seq<Seq<u8>>, k: nat, n: nat)
    requires
        k <= n,
        snapshots_in(table, k) is Err,
    ensures
        snapshots_in(table, n) == snapshots_in(table, k),
    decreases n - k,
{
    if k < n {
        lemma_snapshots_error_stays(table, k, (n - 1) as nat);
    }
}

/// Takes the first snapshot of each of the `cpu_num` cores from the text of
/// a counter table.
pub fn initial_cpu_stats(stat: &[u8], cpu_num: usize) -> (r: Result<Vec<CpuStat>, ErrorKind>)
    ensures
        match r {
            Ok(stats) => snapshots_in(lines(stat@), cpu_num as nat) == Ok::<
                Seq<CpuStat>,
                ErrorKind,
            >(stats@),
            Err(e) => snapshots_in(lines(stat@), cpu_num as nat) == Err::<Seq<CpuStat>, ErrorKind>(
                e,
            ),
        },
        r matches Ok(stats) ==> stats.len() == cpu_num && forall|i: int|
            0 <= i < cpu_num ==> snapshot_in(lines(stat@), i as nat) == Ok::<CpuStat, ErrorKind>(
                #[trigger] stats@[i],
            ),
{
    let table = split_lines(stat);
    let mut result: Vec<CpuStat> = Vec::new();
    let mut i: usize = 0;
    while i < cpu_num
        invariant
            views(table@) == lines(stat@),
            i <= cpu_num,
            result.len() == i,
            snapshots_in(lines(stat@), i as nat) == Ok::<Seq<CpuStat>, ErrorKind>(result@),
        decreases cpu_num - i,
    {
        match find_cpu_stat(table.as_slice(), i) {
            Ok(cs) => {
                result.push(cs);
            },
            Err(e) => {
                proof {
                    assert(snapshots_in(lines(stat@), (i + 1) as nat) == Err::<
                        Seq<CpuStat>,
                        ErrorKind,
                    >(e));
                    lemma_snapshots_error_stays(lines(stat@), (i + 1) as nat, cpu_num as nat);
                }
                return Err(e);
            },
        }
        i += 1;
    }
    proof {
        snapshots_are_per_core(lines(stat@), cpu_num as nat);
    }
    Ok(result)
}

/// One core's share of a sample: its place, its clock and its utilization.
#[derive(Clone, Copy, Debug, PartialEq, Eq, Structural)]
pub struct CpuInfoEntry {
    /// The core's number, counted from one in the order of the descriptors.
    pub id: usize,
    /// The clock frequency in MHz.
    pub freq: Decimal,
    /// The utilization since the previous sample.
    pub usage: Usage,
}

/// Whether a descriptor line starts the record of a logical processor.
pub open spec fn is_processor_line(line: Seq<u8>) -> bool {
    has_prefix(line, "processor".spec_bytes())
}

/// How many of the lines start the record of a logical processor.
pub open spec fn processor_count(table: Seq<Seq<u8>>) -> nat
    decreases table.len(),
{
    if table.len() == 0 {
        0
    } else {
        processor_count(table.drop_last()) + if is_processor_line(table.last()) {
            1nat
        } else {
            0nat
        }
    }
}

/// Whether a descriptor line gives a clock frequency.
pub open spec fn is_frequency_line(line: Seq<u8>) -> bool {
    has_prefix(line, "cpu MHz".spec_bytes())
}

/// The frequency that a frequency line gives: the decimal number that is
/// left of what follows the first colon once it is trimmed.
pub open spec fn frequency_of_line(line: Seq<u8>) -> Option<Decimal> {
    match value_after_colon(line) {
        Some(value) => decimal_of(value),
        None => None,
    }
}

/// The frequencies that the frequency lines give, in order; `None` where one
/// of them gives none.
pub open spec fn frequencies(table: Seq<Seq<u8>>) -> Option<Seq<Decimal>>
    decreases table.len(),
{
    if table.len() == 0 {
        Some(Seq::empty())
    } else {
        match frequencies(table.drop_last()) {
            None => None,
            Some(found) => if is_frequency_line(table.last()) {
                match frequency_of_line(table.last()) {
                    Some(f) => Some(found.push(f)),
                    None => None,
                }
            } else {
                Some(found)
            },
        }
    }
}

/// The fresh snapshot of core `i` and its utilization since `previous`.
pub open spec fn sample_of(table: Seq<Seq<u8>>, i: nat, previous: CpuStat) -> Result<
    (CpuStat, Usage),
    ErrorKind,
> {
    match snapshot_in(table, i) {
        Err(e) => Err(e),
        Ok(current) => match utilization(previous, current) {
            Err(e) => Err(e),
            Ok(usage) => Ok((current, usage)),
        },
    }
}

/// The samples of cores `0` to `n - 1`, or the error of the first core that
/// has none.
pub open spec fn samples_of(table: Seq<Seq<u8>>, previous: Seq<CpuStat>, n: nat) -> Result<
    Seq<(CpuStat, Usage)>,
    ErrorKind,
>
    recommends
        n <= previous.len(),
    decreases n,
{
    if n == 0 {
        Ok(Seq::empty())
    } else {
        match samples_of(table, previous, (n - 1) as nat) {
            Err(e) => Err(e),
            Ok(samples) => match sample_of(table, (n - 1) as nat, previous[n - 1]) {
                Ok(sample) => Ok(samples.push(sample)),
                Err(e) => Err(e),
            },
        }
    }
}

/// What one round of sampling yields from the descriptor text, the counter
/// table and the retained snapshots: an entry for each core that has a
/// frequency line, and the snapshots to retain. The snapshot at index `i`
/// belongs to the core with number `i + 1`; snapshots beyond the cores that
/// were sampled stay as they are.
pub open spec fn cpu_sampling(cpuinfo: Seq<u8>, stat: Seq<u8>, previous: Seq<CpuStat>) -> Result<
    (Seq<CpuInfoEntry>, Seq<CpuStat>),
    ErrorKind,
> {
    match frequencies(lines(cpuinfo)) {
        None => Err(ErrorKind::FrequencyLineMalformed),
        Some(freqs) => if previous.len() < freqs.len() {
            Err(ErrorKind::CoreCountMismatch)
        } else {
            match samples_of(lines(stat), previous, freqs.len()) {
                Err(e) => Err(e),
                Ok(samples) => Ok(
                    (
                        Seq::new(
                            freqs.len(),
                            |i: int|
                                CpuInfoEntry {
                                    id: (i + 1) as usize,
                                    freq: freqs[i],
                                    usage: samples[i].1,
                                },
                        ),
                        Seq::new(
                            previous.len(),
                            |i: int|
                                if i < freqs.len() {
                                    samples[i].0
                                } else {
                                    previous[i]
                                },
                        ),
                    ),
                ),
            }
        },
    }
}

/// Counts the logical processors that a descriptor text describes.
pub fn get_cpu_num(cpuinfo: &[u8]) -> (count: usize)
    ensures
        count == processor_count(lines(cpuinfo@)),
{
    let table = split_lines(cpuinfo);
    let ghost t = views(table@);
    let marker = "processor".as_bytes();
    let n: usize = table.len();
    let mut count: usize = 0;
    let mut k: usize = 0;
    assert(t.subrange(0, 0) =~= Seq::<Seq<u8>>::empty());
    while k < n
        invariant
            t == views(table@),
            n == table.len(),
            marker@ == "processor".spec_bytes(),
            k <= n,
            count <= k,
            count == processor_count(t.subrange(0, k as int)),
        decreases n - k,
    {
        proof {
            assert(t.subrange(0, k as int + 1).drop_last() =~= t.subrange(0, k as int));
            assert(t.subrange(0, k as int + 1).last() == table@[k as int]@);
        }
        if starts_with(table[k], marker) {
            count += 1;
        }
        k += 1;
    }
    assert(t.subrange(0, n as int) =~= t);
    count
}

/// Reads the frequency that a frequency line gives.
pub fn parse_frequency_line(line: &[u8]) -> (r: Option<Decimal>)
    ensures
        r == frequency_of_line(line@),
{
    match field_value(line) {
        Some(value) => parse_decimal(value),
        None => None,
    }
}

proof fn lemma_frequencies_failure_stays(table: Seq<Seq<u8>>, k: int)
    requires
        0 <= k <= table.len(),
        frequencies(table.subrange(0, k)) is None,
    ensures
        frequencies(table) is None,
    decreases table.len(),
{
    if k == table.len() {
        assert(table.subrange(0, k) =~= table);
    } else {
        assert(table.drop_last().subrange(0, k) =~= table.subrange(0, k));
        lemma_frequencies_failure_stays(table.drop_last(), k);
    }
}

/// Reads the frequency of every core from the lines of a descriptor text.
pub fn core_frequencies(table: &[&[u8]]) -> (r: Option<Vec<Decimal>>)
    ensures
        match r {
            Some(found) => frequencies(views(table@)) == Some(found@),
            None => frequencies(views(table@)) is None,
        },
{
    let ghost t = views(table@);
    let marker = "cpu MHz".as_bytes();
    let n: usize = table.len();
    let mut found: Vec<Decimal> = Vec::new();
    let mut k: usize = 0;
    assert(t.subrange(0, 0) =~= Seq::<Seq<u8>>::empty());
    while k < n
        invariant
            t == views(table@),
            n == table.len(),
            marker@ == "cpu MHz".spec_bytes(),
            k <= n,
            frequencies(t.subrange(0, k as int)) == Some(found@),
        decreases n - k,
    {
        proof {
            assert(t.subrange(0, k as int + 1).drop_last() =~= t.subrange(0, k as int));
            assert(t.subrange(0, k as int + 1).last() == table@[k as int]@);
        }
        if starts_with(table[k], marker) {
            match parse_frequency_line(table[k]) {
                Some(f) => {
                    found.push(f);
                },
                None => {
                    proof {
                        lemma_frequencies_failure_stays(t, k as int + 1);
                    }
                    return None;
                },
            }
        }
        k += 1;
    }
    assert(t.subrange(0, n as int) =~= t);
    Some(found)
}

proof fn lemma_samples_error_stays(
    table: Seq<Seq<u8>>,
    previous: Seq<CpuStat>,
    k: nat,
    n: nat,
)
    requires
        k <= n,
        samples_of(table, previous, k) is Err,
    ensures
        samples_of(table, previous, n) == samples_of(table, previous, k),
    decreases n - k,
{
    if k < n {
        lemma_samples_error_stays(table, previous, k, (n - 1) as nat);
    }
}

/// Takes a fresh snapshot of core `i` from the lines of a counter table and
/// computes the utilization since `previous`.
pub fn sample_core(table: &[&[u8]], i: usize, previous: &CpuStat) -> (r: Result<
    (CpuStat, Usage),
    ErrorKind,
>)
    ensures
        r == sample_of(views(table@), i as nat, *previous),
{
    let current = match find_cpu_stat(table, i) {
        Ok(cs) => cs,
        Err(e) => {
            return Err(e);
        },
    };
    match compute_utilization(previous, &current) {
        Ok(usage) => Ok((current, usage)),
        Err(e) => Err(e),
    }
}

/// Samples cores `0` to `n - 1` against their retained snapshots.
fn sample_cores(table: &[&[u8]], previous: &Vec<CpuStat>, n: usize) -> (r: Result<
    Vec<(CpuStat, Usage)>,
    ErrorKind,
>)
    requires
        n <= previous.len(),
    ensures
        match r {
            Ok(samples) => samples_of(views(table@), previous@, n as nat) == Ok::<
                Seq<(CpuStat, Usage)>,
                ErrorKind,
            >(samples@),
            Err(e) => samples_of(views(table@), previous@, n as nat) == Err::<
                Seq<(CpuStat, Usage)>,
                ErrorKind,
            >(e),
        },
        r matches Ok(samples) ==> samples.len() == n,
{
    let mut samples: Vec<(CpuStat, Usage)> = Vec::new();
    let mut i: usize = 0;
    while i < n
        invariant
            n <= previous.len(),
            i <= n,
            samples.len() == i,
            samples_of(views(table@), previous@, i as nat) == Ok::<
                Seq<(CpuStat, Usage)>,
                ErrorKind,
            >(samples@),
        decreases n - i,
    {
        match sample_core(table, i, &previous[i]) {
            Ok(sample) => {
                samples.push(sample);
            },
            Err(e) => {
                proof {
                    lemma_samples_error_stays(
                        views(table@),
                        previous@,
                        (i + 1) as nat,
                        n as nat,
                    );
                }
                return Err(e);
            },
        }
        i += 1;
    }
    Ok(samples)
}

/// Takes one sample of every core. `cpuinfo` is the descriptor text and
/// `stat` the counter table; `cpu_stats` holds the snapshot of each core
/// from the round before and is brought up to date. On an error it is left
/// as it was.
pub fn collect_cpu_info(cpuinfo: &[u8], stat: &[u8], cpu_stats: &mut Vec<CpuStat>) -> (r: Result<
    Vec<CpuInfoEntry>,
    ErrorKind,
>)
    ensures
        match r {
            Ok(entries) => cpu_sampling(cpuinfo@, stat@, old(cpu_stats)@) == Ok::<
                (Seq<CpuInfoEntry>, Seq<CpuStat>),
                ErrorKind,
            >((entries@, final(cpu_stats)@)),
            Err(e) => cpu_sampling(cpuinfo@, stat@, old(cpu_stats)@) == Err::<
                (Seq<CpuInfoEntry>, Seq<CpuStat>),
                ErrorKind,
            >(e) && final(cpu_stats)@ == old(cpu_stats)@,
        },
{
    let ghost previous = cpu_stats@;
    let info = split_lines(cpuinfo);
    let freqs = match core_frequencies(info.as_slice()) {
        Some(f) => f,
        None => {
            return Err(ErrorKind::FrequencyLineMalformed);
        },
    };
    let n: usize = freqs.len();
    if cpu_stats.len() < n {
        return Err(ErrorKind::CoreCountMismatch);
    }
    let table = split_lines(stat);
    let samples = match sample_cores(table.as_slice(), cpu_stats, n) {
        Ok(s) => s,
        Err(e) => {
            return Err(e);
        },
    };
    let mut entries: Vec<CpuInfoEntry> = Vec::new();
    let mut i: usize = 0;
    while i < n
        invariant
            n == freqs.len(),
            n == samples.len(),
            i <= n,
            entries.len() == i,
            forall|j: int|
                0 <= j < i ==> #[trigger] entries@[j] == (CpuInfoEntry {
                    id: (j + 1) as usize,
                    freq: freqs@[j],
                    usage: samples@[j].1,
                }),
        decreases n - i,
    {
        entries.push(CpuInfoEntry { id: i + 1, freq: freqs[i], usage: samples[i].1 });
        i += 1;
    }
    let mut k: usize = 0;
    while k < n
        invariant
            n == samples.len(),
            n <= previous.len(),
            k <= n,
            cpu_stats@.len() == previous.len(),
            forall|j: int| 0 <= j < k ==> cpu_stats@[j] == samples@[j].0,
            forall|j: int| k <= j < previous.len() ==> cpu_stats@[j] == previous[j],
        decreases n - k,
    {
        cpu_stats.set(k, samples[k].0);
        k += 1;
    }
    proof {
        let expected = cpu_sampling(cpuinfo@, stat@, previous)->Ok_0;
        assert(frequencies(lines(cpuinfo@)) == Some(freqs@));
        assert(samples_of(lines(stat@), previous, n as nat) == Ok::<
            Seq<(CpuStat, Usage)>,
            ErrorKind,
        >(samples@));
        assert(expected.0 =~= entries@);
        assert(expected.1 =~= cpu_stats@);
    }
    Ok(entries)
}

/// A counter line of nine fields reads as the same line with a tenth field
/// of zero: where `guest_nice` is absent it counts as zero.
pub proof fn nine_fields_read_as_ten(fields: Seq<Seq<u8>>)
    requires
        fields.len() == 9,
    ensures
        stat_of_fields(fields) == stat_of_fields(fields.push(seq![48u8])),
        stat_of_fields(fields) matches Some(stat) ==> stat.guest_nice == 0,
        stat_of_fields(fields) is Some <==> forall|k: int|
            0 <= k < 9 ==> (#[trigger] number_of(fields[k])) is Some,
{
    let zero = seq![48u8];
    let longer = fields.push(zero);
    assert(zero.drop_last() =~= Seq::<u8>::empty());
    assert(decimal_value(Seq::<u8>::empty()) == 0);
    assert(zero.last() == 48u8);
    assert(decimal_value(zero) == 0);
    assert(unsigned_part(zero) == zero);
    assert(all_digits(zero));
    assert(number_of(zero) == Some(0usize));
    assert(longer[9] == zero);
    assert forall|k: int| 0 <= k < 9 implies longer[k] == fields[k] by {}
    if stat_of_fields(fields) is Some {
        assert forall|k: int| 0 <= k < 9 implies (#[trigger] number_of(longer[k])) is Some by {
            assert(number_of(fields[k]) is Some);
        }
    } else {
        if stat_of_fields(longer) is Some {
            assert forall|k: int| 0 <= k < 9 implies (#[trigger] number_of(fields[k])) is Some by {
                assert(number_of(longer[k]) is Some);
            }
        }
    }
}

/// A round that reads the counter table from which the retained snapshots
/// were taken finds no elapsed time: sampling at once fails with
/// `ZeroIntervalCounters`, whatever the counters are.
pub proof fn sampling_at_once_fails(cpuinfo: Seq<u8>, stat: Seq<u8>, n: nat)
    requires
        snapshots_in(lines(stat), n) is Ok,
        frequencies(lines(cpuinfo)) matches Some(freqs) && 1 <= freqs.len() <= n,
    ensures
        cpu_sampling(cpuinfo, stat, snapshots_in(lines(stat), n)->Ok_0) == Err::<
            (Seq<CpuInfoEntry>, Seq<CpuStat>),
            ErrorKind,
        >(ErrorKind::ZeroIntervalCounters),
{
    let table = lines(stat);
    let previous = snapshots_in(table, n)->Ok_0;
    let cores = frequencies(lines(cpuinfo))->Some_0.len();
    snapshots_are_per_core(table, n);
    assert(snapshot_in(table, 0) == Ok::<CpuStat, ErrorKind>(previous[0]));
    assert(utilization(previous[0], previous[0]) is Err);
    assert(samples_of(table, previous, 0) is Ok);
    assert(samples_of(table, previous, 1) == Err::<Seq<(CpuStat, Usage)>, ErrorKind>(
        ErrorKind::ZeroIntervalCounters,
    ));
    lemma_samples_error_stays(table, previous, 1, cores);
}

/// Different cores have different labels: the line of core 10 is never
/// taken for that of core 1.
pub proof fn core_labels_differ(i: nat, j: nat)
    requires
        i != j,
    ensures
        core_label(i) != core_label(j),
        forall|line: Seq<u8>| names_core(line, j) ==> !names_core(line, i),
{
    let prefix = "cpu".spec_bytes();
    if core_label(i) == core_label(j) {
        let a = core_label(i);
        assert(a.subrange(prefix.len() as int, a.len() as int) =~= digits_of(i));
        assert(a.subrange(prefix.len() as int, a.len() as int) =~= digits_of(j));
        digits_read_back(i);
        digits_read_back(j);
    }
}

} // verus!
