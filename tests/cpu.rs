use rsysmetrics::cpu::{normalize, CpuTimes, CpuTimesCollector};
use rsysmetrics::entity_map::EntityMap;

const PROC_STAT_SAMPLE_1: &str = r#"cpu  62191 107 55994 16988691 15914 5073 2279 0 0 0
cpu0 2676 4 3034 527276 942 280 670 0 0 0
"#;

const PROC_STAT_SAMPLE_2: &str = r#"cpu  62291 107 56094 16989691 15914 5073 2279 0 0 0
cpu0 2776 4 3134 527376 942 280 670 0 0 0
"#;

fn lines_of(text: &str) -> Vec<String> {
    text.lines().map(String::from).collect()
}

fn times(values: [u64; 10]) -> CpuTimes {
    CpuTimes {
        user: values[0],
        nice: values[1],
        system: values[2],
        idle: values[3],
        iowait: values[4],
        irq: values[5],
        softirq: values[6],
        steal: values[7],
        guest: values[8],
        guest_nice: values[9],
    }
}

fn as_f64(p: rsysmetrics::cpu::Percent) -> f64 {
    p.numerator as f64 / p.denominator as f64
}

#[test]
fn cpu_test_collect_from_reader() {
    let mut collector = CpuTimesCollector::new();

    // The first scrape only sets the baseline.
    let deltas1 = collector.collect_from_reader(&lines_of(PROC_STAT_SAMPLE_1));
    assert!(deltas1.is_empty());

    let deltas2 = collector.collect_from_reader(&lines_of(PROC_STAT_SAMPLE_2));
    assert_eq!(deltas2.len(), 2);

    let expected_delta_cpu = CpuTimes {
        user: 100,
        nice: 0,
        system: 100,
        idle: 1000,
        iowait: 0,
        irq: 0,
        softirq: 0,
        steal: 0,
        guest: 0,
        guest_nice: 0,
    };
    assert_eq!(deltas2.get("cpu"), Some(&expected_delta_cpu));

    let expected_delta_cpu0 = CpuTimes {
        user: 100,
        nice: 0,
        system: 100,
        idle: 100,
        iowait: 0,
        irq: 0,
        softirq: 0,
        steal: 0,
        guest: 0,
        guest_nice: 0,
    };
    assert_eq!(deltas2.get("cpu0"), Some(&expected_delta_cpu0));
}

#[test]
fn test_normalize() {
    let times = CpuTimes {
        user: 100,
        nice: 100,
        system: 100,
        idle: 600,
        iowait: 0,
        irq: 0,
        softirq: 0,
        steal: 0,
        guest: 50,
        guest_nice: 50,
    };

    let usage = normalize(times);

    assert!((as_f64(usage.user) - 20.0).abs() < 1e-9);
    assert!((as_f64(usage.system) - 10.0).abs() < 1e-9);
    assert!((as_f64(usage.idle) - 60.0).abs() < 1e-9);
    assert!((as_f64(usage.guest) - 10.0).abs() < 1e-9);
}

#[test]
fn normalize_is_exact() {
    let usage = normalize(times([100, 100, 100, 600, 0, 0, 0, 0, 50, 50]));
    assert_eq!(usage.user.numerator, 20_000);
    assert_eq!(usage.user.denominator, 1000);
    assert_eq!(usage.guest.numerator, 10_000);
    assert_eq!(usage.iowait.numerator, 0);
}

#[test]
fn normalize_of_idle_interval_is_zero() {
    let usage = normalize(CpuTimes::default());
    for p in [
        usage.user,
        usage.system,
        usage.idle,
        usage.iowait,
        usage.irq,
        usage.softirq,
        usage.steal,
        usage.guest,
    ] {
        assert_eq!(p.numerator, 0);
        assert_eq!(p.denominator, 1);
        assert_eq!(as_f64(p), 0.0);
    }
}

#[test]
fn total_sums_all_counters() {
    assert_eq!(times([1, 2, 3, 4, 5, 6, 7, 8, 9, 10]).total(), 55);
}

#[test]
fn subtraction_saturates_at_zero() {
    let earlier = times([10, 10, 10, 10, 10, 10, 10, 10, 10, 10]);
    let later = times([15, 5, 10, 0, 11, 10, 9, 20, 10, 3]);
    assert_eq!(later - earlier, times([5, 0, 0, 0, 1, 0, 0, 10, 0, 0]));
}

#[test]
fn counter_reset_gives_zero_delta() {
    let mut collector = CpuTimesCollector::new();
    collector.collect_from_reader(&lines_of("cpu0 500 0 500 500 0 0 0 0\n"));
    let deltas = collector.collect_from_reader(&lines_of("cpu0 20 0 600 500 0 0 0 0\n"));
    let d = deltas.get("cpu0").unwrap();
    assert_eq!(d.user, 0);
    assert_eq!(d.system, 100);
    assert_eq!(d.idle, 0);
}

#[test]
fn vanished_entity_is_forgotten() {
    let mut collector = CpuTimesCollector::new();
    collector.collect_from_reader(&lines_of("cpu0 1 1 1 1 1 1 1 1\ncpu1 5 5 5 5 5 5 5 5\n"));
    let second = collector.collect_from_reader(&lines_of("cpu0 2 2 2 2 2 2 2 2\n"));
    assert_eq!(second.len(), 1);
    assert!(second.get("cpu1").is_none());
    let third = collector.collect_from_reader(&lines_of("cpu0 3 3 3 3 3 3 3 3\ncpu1 9 9 9 9 9 9 9 9\n"));
    assert_eq!(third.len(), 1);
    assert!(third.get("cpu1").is_none());
    assert_eq!(third.get("cpu0"), Some(&times([1, 1, 1, 1, 1, 1, 1, 1, 0, 0])));
}

#[test]
fn short_and_foreign_lines_are_skipped() {
    let mut collector = CpuTimesCollector::new();
    let text = "intr 1 2 3 4 5 6 7 8 9\ncpu2 1 2 3\ncpu3 1 2 3 4 5 6 7 8 9 10\n";
    collector.collect_from_reader(&lines_of(text));
    let deltas = collector.collect_from_reader(&lines_of(text));
    assert_eq!(deltas.len(), 1);
    assert_eq!(deltas.get("cpu3"), Some(&CpuTimes::default()));
}

#[test]
fn update_measures_against_baseline() {
    let mut engine = CpuTimesCollector::new();
    let mut first = EntityMap::new();
    first.insert("cpu0".to_string(), times([1, 0, 0, 0, 0, 0, 0, 0, 0, 0]));
    assert!(engine.update(first).is_empty());
    let mut second = EntityMap::new();
    second.insert("cpu0".to_string(), times([4, 0, 0, 0, 0, 0, 0, 0, 0, 0]));
    second.insert("cpu1".to_string(), times([9, 0, 0, 0, 0, 0, 0, 0, 0, 0]));
    let deltas = engine.update(second);
    assert_eq!(deltas.len(), 1);
    assert_eq!(deltas.get("cpu0").unwrap().user, 3);
}

#[test]
fn unparsable_counter_reads_zero() {
    let mut collector = CpuTimesCollector::new();
    collector.collect_from_reader(&lines_of("cpu0 x 0 0 0 0 0 0 0\n"));
    let deltas = collector.collect_from_reader(&lines_of("cpu0 7 +3 0 0 0 0 0 0\n"));
    assert_eq!(deltas.get("cpu0").unwrap().user, 7);
    assert_eq!(deltas.get("cpu0").unwrap().nice, 3);
}
