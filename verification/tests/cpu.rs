use pemon::cpu::{
    collect_cpu_info, compute_utilization, core_frequencies, find_cpu_stat, get_cpu_num,
    initial_cpu_stats, make_core_label, parse_counter_fields, parse_cpu_stat,
    parse_frequency_line, sample_core, CpuInfoEntry, CpuStat, Usage,
};
use pemon::errors::ErrorKind;
use pemon::number::Decimal;
use pemon::text::split_lines;

fn descriptors(cores: usize) -> String {
    let mut text = String::new();
    for i in 0..cores {
        text.push_str(&format!("processor\t: {}\n", i));
        text.push_str("vendor_id\t: GenuineIntel\n");
        text.push_str("cpu family\t: 6\n");
        text.push_str("model name\t: Intel(R) Core(TM) i9-9900K CPU @ 3.60GHz\n");
        text.push_str(&format!("cpu MHz\t\t: {}.{:03}\n", 3600 + i, 125 * (i % 8)));
        text.push_str("cache size\t: 16384 KB\n");
        text.push_str("\n");
    }
    text
}

fn counters(cores: usize, round: usize) -> String {
    let mut text = String::new();
    text.push_str("cpu  1000 0 500 8000 100 0 0 0 0 0\n");
    for i in 0..cores {
        text.push_str(&format!(
            "cpu{} {} 0 {} {} 10 0 0 0 0 0\n",
            i,
            100 + 20 * round + i,
            50 + 10 * round,
            800 + 20 * round
        ));
    }
    text.push_str("intr 12345 0 0 0\nctxt 999\nbtime 1700000000\n");
    text
}

fn percent(usage: &Usage) -> f64 {
    100.0 * usage.busy as f64 / usage.total as f64
}

fn megahertz(freq: &Decimal) -> f64 {
    freq.mantissa as f64 / 10f64.powi(freq.scale as i32)
}

fn stat(fields: [usize; 10]) -> CpuStat {
    CpuStat {
        user: fields[0],
        nice: fields[1],
        system: fields[2],
        idle: fields[3],
        iowait: fields[4],
        irq: fields[5],
        softirq: fields[6],
        steal: fields[7],
        guest: fields[8],
        guest_nice: fields[9],
    }
}

#[test]
fn test_get_cpu_num() {
    let text = descriptors(16);
    let result = get_cpu_num(text.as_bytes());
    assert_eq!(result, 16);
}

#[test]
fn test_collect_cpu_info() {
    let info = descriptors(16);
    let mut stats = initial_cpu_stats(counters(16, 0).as_bytes(), get_cpu_num(info.as_bytes()))
        .unwrap();
    let result = collect_cpu_info(info.as_bytes(), counters(16, 1).as_bytes(), &mut stats)
        .unwrap();
    assert_eq!(result.len(), 16);
    for i in 0..result.len() {
        let cie = &result[i];
        assert_eq!(cie.id, i + 1);
        assert_eq!(megahertz(&cie.freq) > 0.0, true);
        assert_eq!(percent(&cie.usage) >= 0.0, true);
        println!("CPU {} freq: {}, usage: {}", cie.id, megahertz(&cie.freq), percent(&cie.usage));
    }
}

#[test]
fn new_snapshot_is_all_zero() {
    let s = CpuStat::new();
    assert_eq!(s, stat([0; 10]));
    assert_eq!(s.total(), 0);
}

#[test]
fn total_adds_all_ten_counters() {
    let s = stat([1, 2, 3, 4, 5, 6, 7, 8, 9, 10]);
    assert_eq!(s.total(), 55);
    let big = stat([usize::MAX; 10]);
    assert_eq!(big.total(), 10 * (usize::MAX as u128));
}

#[test]
fn cpu_num_counts_processor_lines_only() {
    assert_eq!(get_cpu_num(b""), 0);
    assert_eq!(get_cpu_num(b"cpu MHz : 1.0\nmodel name : processor\n"), 0);
    assert_eq!(get_cpu_num(b"  processor : 0  \r\n\r\nprocessor: 1"), 2);
    assert_eq!(get_cpu_num(b"Processor : 0\n"), 0);
}

#[test]
fn sixty_percent_between_two_snapshots() {
    let lines_before = split_lines(b"cpu0 100 0 50 800 10 0 0 0 0 0\n");
    let lines_after = split_lines(b"cpu0 120 0 60 820 10 0 0 0 0 0\n");
    let before = find_cpu_stat(&lines_before, 0).unwrap();
    let after = find_cpu_stat(&lines_after, 0).unwrap();
    assert_eq!(before, stat([100, 0, 50, 800, 10, 0, 0, 0, 0, 0]));
    assert_eq!(before.total(), 960);
    assert_eq!(after.total(), 1010);
    let usage = compute_utilization(&before, &after).unwrap();
    assert_eq!(usage, Usage { busy: 30, total: 50 });
    assert_eq!(percent(&usage), 60.0);
}

#[test]
fn no_elapsed_ticks_is_an_error() {
    let a = stat([100, 0, 50, 800, 10, 0, 0, 0, 0, 0]);
    assert_eq!(compute_utilization(&a, &a), Err(ErrorKind::ZeroIntervalCounters));
    let shifted = stat([110, 0, 40, 800, 10, 0, 0, 0, 0, 0]);
    assert_eq!(compute_utilization(&a, &shifted), Err(ErrorKind::ZeroIntervalCounters));
    let z = CpuStat::new();
    assert_eq!(compute_utilization(&z, &z), Err(ErrorKind::ZeroIntervalCounters));
}

#[test]
fn utilization_bounds() {
    let a = stat([0, 0, 0, 0, 0, 0, 0, 0, 0, 0]);
    let all_idle = stat([0, 0, 0, 10, 0, 0, 0, 0, 0, 0]);
    let all_busy = stat([7, 0, 3, 0, 0, 0, 0, 0, 0, 0]);
    assert_eq!(percent(&compute_utilization(&a, &all_idle).unwrap()), 0.0);
    assert_eq!(percent(&compute_utilization(&a, &all_busy).unwrap()), 100.0);
    let mixed = stat([1, 0, 0, 3, 0, 0, 0, 0, 0, 0]);
    assert_eq!(compute_utilization(&a, &mixed), Ok(Usage { busy: 1, total: 4 }));
    assert_eq!(percent(&compute_utilization(&a, &mixed).unwrap()), 25.0);
}

#[test]
fn counters_that_ran_backwards_follow_the_formula() {
    let later = stat([100, 0, 50, 800, 10, 0, 0, 0, 0, 0]);
    let earlier = stat([120, 0, 60, 820, 10, 0, 0, 0, 0, 0]);
    assert_eq!(compute_utilization(&earlier, &later), Ok(Usage { busy: -30, total: -50 }));
    let huge = stat([usize::MAX; 10]);
    let zero = CpuStat::new();
    let u = compute_utilization(&huge, &zero).unwrap();
    assert_eq!(u.total, -(10 * (usize::MAX as i128)));
    assert_eq!(u.busy, -(9 * (usize::MAX as i128)));
}

#[test]
fn nine_and_ten_fields_both_parse() {
    let nine = split_lines(b"cpu0 100 0 50 800 10 0 0 0 0\n");
    let ten = split_lines(b"cpu0 120 0 60 820 10 0 0 0 0 7\n");
    let a = find_cpu_stat(&nine, 0).unwrap();
    let b = find_cpu_stat(&ten, 0).unwrap();
    assert_eq!(a, stat([100, 0, 50, 800, 10, 0, 0, 0, 0, 0]));
    assert_eq!(a.guest_nice, 0);
    assert_eq!(b.guest_nice, 7);
    assert_eq!(compute_utilization(&a, &b), Ok(Usage { busy: 37, total: 57 }));
    assert_eq!(compute_utilization(&b, &a), Ok(Usage { busy: -37, total: -57 }));
}

#[test]
fn fields_beyond_the_tenth_are_not_read() {
    let table = split_lines(b"cpu3 1 2 3 4 5 6 7 8 9 10 11 twelve\n");
    assert_eq!(find_cpu_stat(&table, 3), Ok(stat([1, 2, 3, 4, 5, 6, 7, 8, 9, 10])));
}

#[test]
fn counter_fields_may_be_spaced_freely() {
    let table = split_lines(b"  cpu2\t1  2   3 4\t5 6 7 8 9   \r\n");
    assert_eq!(find_cpu_stat(&table, 2), Ok(stat([1, 2, 3, 4, 5, 6, 7, 8, 9, 0])));
}

#[test]
fn core_one_is_not_core_ten() {
    let table = split_lines(b"cpu10 1 1 1 1 1 1 1 1 1 1\ncpu11 2 2 2 2 2 2 2 2 2 2\n");
    assert_eq!(find_cpu_stat(&table, 1), Err(ErrorKind::CounterLineNotFound));
    assert_eq!(find_cpu_stat(&table, 10), Ok(stat([1; 10])));
    assert_eq!(find_cpu_stat(&table, 11), Ok(stat([2; 10])));
    let reversed = split_lines(b"cpu10 1 1 1 1 1 1 1 1 1 1\ncpu1 3 3 3 3 3 3 3 3 3 3\n");
    assert_eq!(find_cpu_stat(&reversed, 1), Ok(stat([3; 10])));
}

#[test]
fn aggregate_line_names_no_core() {
    let table = split_lines(b"cpu  9 9 9 9 9 9 9 9 9 9\ncpu0 1 1 1 1 1 1 1 1 1 1\n");
    assert_eq!(find_cpu_stat(&table, 0), Ok(stat([1; 10])));
    let only = split_lines(b"cpu  9 9 9 9 9 9 9 9 9 9\n");
    assert_eq!(find_cpu_stat(&only, 0), Err(ErrorKind::CounterLineNotFound));
    let padded = split_lines(b"cpu00 9 9 9 9 9 9 9 9 9 9\n");
    assert_eq!(find_cpu_stat(&padded, 0), Err(ErrorKind::CounterLineNotFound));
}

#[test]
fn first_line_of_a_core_counts() {
    let table = split_lines(b"cpu0 1 1 1 1 1 1 1 1 1 1\ncpu0 2 2 2 2 2 2 2 2 2 2\n");
    assert_eq!(find_cpu_stat(&table, 0), Ok(stat([1; 10])));
}

#[test]
fn all_zero_counters_are_a_snapshot() {
    let table = split_lines(b"cpu0 0 0 0 0 0 0 0 0 0 0\n");
    assert_eq!(find_cpu_stat(&table, 0), Ok(CpuStat::new()));
}

#[test]
fn missing_or_bad_fields_are_parse_errors() {
    let short = split_lines(b"cpu0 1 2 3 4 5 6 7 8\n");
    assert_eq!(find_cpu_stat(&short, 0), Err(ErrorKind::CounterParseError));
    let bare = split_lines(b"cpu0\n");
    assert_eq!(find_cpu_stat(&bare, 0), Err(ErrorKind::CounterParseError));
    let word = split_lines(b"cpu0 1 2 3 x 5 6 7 8 9 10\n");
    assert_eq!(find_cpu_stat(&word, 0), Err(ErrorKind::CounterParseError));
    let negative = split_lines(b"cpu0 1 2 3 -4 5 6 7 8 9 10\n");
    assert_eq!(find_cpu_stat(&negative, 0), Err(ErrorKind::CounterParseError));
    let bad_tenth = split_lines(b"cpu0 1 2 3 4 5 6 7 8 9 ten\n");
    assert_eq!(find_cpu_stat(&bad_tenth, 0), Err(ErrorKind::CounterParseError));
    let too_big = split_lines(b"cpu0 1 2 3 4 5 6 7 8 99999999999999999999999999\n");
    assert_eq!(find_cpu_stat(&too_big, 0), Err(ErrorKind::CounterParseError));
}

#[test]
fn counter_fields_without_label() {
    let fields: Vec<&[u8]> = vec![b"1", b"2", b"3", b"4", b"5", b"6", b"7", b"8", b"9"];
    assert_eq!(parse_counter_fields(&fields), Some(stat([1, 2, 3, 4, 5, 6, 7, 8, 9, 0])));
    let mut ten = fields.clone();
    ten.push(b"0");
    assert_eq!(parse_counter_fields(&ten), parse_counter_fields(&fields));
    assert_eq!(parse_counter_fields(&fields[..8]), None);
    assert_eq!(parse_counter_fields(&[]), None);
}

#[test]
fn core_labels() {
    assert_eq!(make_core_label(0), b"cpu0".to_vec());
    assert_eq!(make_core_label(7), b"cpu7".to_vec());
    assert_eq!(make_core_label(10), b"cpu10".to_vec());
    assert_eq!(make_core_label(1234567890), b"cpu1234567890".to_vec());
    assert_eq!(
        make_core_label(usize::MAX),
        format!("cpu{}", usize::MAX).into_bytes()
    );
    assert_ne!(make_core_label(1), make_core_label(10));
}

#[test]
fn initial_stats_take_each_core_in_turn() {
    let text = counters(3, 0);
    let stats = initial_cpu_stats(text.as_bytes(), 3).unwrap();
    assert_eq!(stats.len(), 3);
    assert_eq!(stats[0], stat([100, 0, 50, 800, 10, 0, 0, 0, 0, 0]));
    assert_eq!(stats[2], stat([102, 0, 50, 800, 10, 0, 0, 0, 0, 0]));
    assert_eq!(initial_cpu_stats(text.as_bytes(), 0), Ok(vec![]));
    assert_eq!(initial_cpu_stats(text.as_bytes(), 4), Err(ErrorKind::CounterLineNotFound));
    assert_eq!(initial_cpu_stats(b"", 1), Err(ErrorKind::CounterLineNotFound));
}

#[test]
fn initial_stats_report_the_first_failing_core() {
    let text = b"cpu0 1 1 1 1 1 1 1 1 1\ncpu1 oops\n";
    assert_eq!(initial_cpu_stats(text, 2), Err(ErrorKind::CounterParseError));
    assert_eq!(initial_cpu_stats(text, 3), Err(ErrorKind::CounterParseError));
    let gap = b"cpu0 1 1 1 1 1 1 1 1 1\ncpu2 oops\n";
    assert_eq!(initial_cpu_stats(gap, 3), Err(ErrorKind::CounterLineNotFound));
}

#[test]
fn frequency_line_values() {
    assert_eq!(
        parse_frequency_line(b"cpu MHz : 2400.125"),
        Some(Decimal { mantissa: 2400125, scale: 3 })
    );
    assert_eq!(
        megahertz(&parse_frequency_line(b"cpu MHz : 2400.125").unwrap()),
        2400.125
    );
    assert_eq!(
        parse_frequency_line(b"cpu MHz\t\t: 800"),
        Some(Decimal { mantissa: 800, scale: 0 })
    );
    assert_eq!(parse_frequency_line(b"cpu MHz : abc"), None);
    assert_eq!(parse_frequency_line(b"cpu MHz 2400.125"), None);
    assert_eq!(parse_frequency_line(b"cpu MHz :"), None);
    assert_eq!(parse_frequency_line(b"cpu MHz : 2400.125 MHz"), None);
    assert_eq!(parse_frequency_line(b"cpu MHz : -1.5"), None);
}

#[test]
fn frequencies_in_file_order() {
    let text = b"processor : 0\ncpu MHz : 1000.5\n\nprocessor : 1\ncpu MHz : 2000.25\n";
    let table = split_lines(text);
    assert_eq!(
        core_frequencies(&table),
        Some(vec![
            Decimal { mantissa: 10005, scale: 1 },
            Decimal { mantissa: 200025, scale: 2 }
        ])
    );
    let none = split_lines(b"processor : 0\n");
    assert_eq!(core_frequencies(&none), Some(vec![]));
    let bad = split_lines(b"cpu MHz : 1000.5\ncpu MHz : abc\ncpu MHz : 3.0\n");
    assert_eq!(core_frequencies(&bad), None);
}

#[test]
fn collect_replaces_the_snapshots() {
    let info = b"processor : 0\ncpu MHz : 2400.125\nprocessor : 1\ncpu MHz : 1800.000\n";
    let first = b"cpu0 100 0 50 800 10 0 0 0 0 0\ncpu1 10 0 10 10 0 0 0 0 0 0\n";
    let second = b"cpu0 120 0 60 820 10 0 0 0 0 0\ncpu1 10 0 10 20 0 0 0 0 0\n";
    let mut stats = initial_cpu_stats(first, 2).unwrap();
    let entries = collect_cpu_info(info, second, &mut stats).unwrap();
    assert_eq!(
        entries,
        vec![
            CpuInfoEntry {
                id: 1,
                freq: Decimal { mantissa: 2400125, scale: 3 },
                usage: Usage { busy: 30, total: 50 }
            },
            CpuInfoEntry {
                id: 2,
                freq: Decimal { mantissa: 1800000, scale: 3 },
                usage: Usage { busy: 0, total: 10 }
            },
        ]
    );
    assert_eq!(stats, initial_cpu_stats(second, 2).unwrap());
    assert_eq!(
        collect_cpu_info(info, second, &mut stats),
        Err(ErrorKind::ZeroIntervalCounters)
    );
    assert_eq!(stats, initial_cpu_stats(second, 2).unwrap());
}

#[test]
fn collect_leaves_further_snapshots_alone() {
    let info = b"cpu MHz : 1.0\n";
    let first = b"cpu0 1 0 0 1 0 0 0 0 0 0\ncpu1 5 5 5 5 5 5 5 5 5 5\n";
    let second = b"cpu0 2 0 0 2 0 0 0 0 0 0\ncpu1 6 6 6 6 6 6 6 6 6 6\n";
    let mut stats = initial_cpu_stats(first, 2).unwrap();
    let entries = collect_cpu_info(info, second, &mut stats).unwrap();
    assert_eq!(entries.len(), 1);
    assert_eq!(entries[0].usage, Usage { busy: 1, total: 2 });
    assert_eq!(stats[0], stat([2, 0, 0, 2, 0, 0, 0, 0, 0, 0]));
    assert_eq!(stats[1], stat([5; 10]));
}

#[test]
fn collect_errors_leave_the_snapshots_alone() {
    let first = b"cpu0 1 0 0 1 0 0 0 0 0 0\ncpu1 5 5 5 5 5 5 5 5 5 5\n";
    let second = b"cpu0 2 0 0 2 0 0 0 0 0 0\ncpu1 5 5 5 5 5 5 5 5 5 5\n";
    let seed = initial_cpu_stats(first, 2).unwrap();

    let mut stats = seed.clone();
    let two = b"cpu MHz : 1.0\ncpu MHz : 2.0\n";
    assert_eq!(
        collect_cpu_info(two, second, &mut stats),
        Err(ErrorKind::ZeroIntervalCounters)
    );
    assert_eq!(stats, seed);

    let bad = b"cpu MHz : 1.0\ncpu MHz : abc\n";
    assert_eq!(
        collect_cpu_info(bad, second, &mut stats),
        Err(ErrorKind::FrequencyLineMalformed)
    );
    let no_colon = b"cpu MHz 1.0\n";
    assert_eq!(
        collect_cpu_info(no_colon, second, &mut stats),
        Err(ErrorKind::FrequencyLineMalformed)
    );
    let three = b"cpu MHz : 1.0\ncpu MHz : 2.0\ncpu MHz : 3.0\n";
    assert_eq!(
        collect_cpu_info(three, second, &mut stats),
        Err(ErrorKind::CoreCountMismatch)
    );
    assert_eq!(
        collect_cpu_info(two, b"cpu0 2 0 0 2 0 0 0 0 0 0\n", &mut stats),
        Err(ErrorKind::CounterLineNotFound)
    );
    assert_eq!(
        collect_cpu_info(two, b"cpu0 2 0 0 2 0 0 0 0 0 0\ncpu1 5 5\n", &mut stats),
        Err(ErrorKind::CounterParseError)
    );
    assert_eq!(stats, seed);
}

#[test]
fn collect_without_frequency_lines_samples_nothing() {
    let mut stats = vec![stat([1; 10])];
    assert_eq!(collect_cpu_info(b"processor : 0\n", b"", &mut stats), Ok(vec![]));
    assert_eq!(stats, vec![stat([1; 10])]);
}

#[test]
fn snapshot_from_the_text_of_a_table() {
    let text = counters(4, 2);
    assert_eq!(
        parse_cpu_stat(text.as_bytes(), 3),
        Ok(stat([143, 0, 70, 840, 10, 0, 0, 0, 0, 0]))
    );
    assert_eq!(parse_cpu_stat(text.as_bytes(), 4), Err(ErrorKind::CounterLineNotFound));
    assert_eq!(parse_cpu_stat(b"cpu4 1 2 3\n", 4), Err(ErrorKind::CounterParseError));
    let stats = initial_cpu_stats(text.as_bytes(), 4).unwrap();
    for i in 0..4 {
        assert_eq!(parse_cpu_stat(text.as_bytes(), i), Ok(stats[i]));
    }
}

#[test]
fn sampling_the_same_table_at_once_fails() {
    let info = descriptors(2);
    let text = counters(2, 5);
    let mut stats = initial_cpu_stats(text.as_bytes(), 2).unwrap();
    assert_eq!(
        collect_cpu_info(info.as_bytes(), text.as_bytes(), &mut stats),
        Err(ErrorKind::ZeroIntervalCounters)
    );
}

#[test]
fn one_core_against_its_previous_snapshot() {
    let table = split_lines(b"cpu0 120 0 60 820 10 0 0 0 0 0\n");
    let previous = stat([100, 0, 50, 800, 10, 0, 0, 0, 0, 0]);
    assert_eq!(
        sample_core(&table, 0, &previous),
        Ok((stat([120, 0, 60, 820, 10, 0, 0, 0, 0, 0]), Usage { busy: 30, total: 50 }))
    );
    assert_eq!(sample_core(&table, 1, &previous), Err(ErrorKind::CounterLineNotFound));
    let same = stat([120, 0, 60, 820, 10, 0, 0, 0, 0, 0]);
    assert_eq!(sample_core(&table, 0, &same), Err(ErrorKind::ZeroIntervalCounters));
}
