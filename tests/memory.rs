use rsysmetrics::memory::LinuxMemoryCollector;

const REAL_MEMINFO_DATA: &str = r#"MemTotal:       32499764 kB
MemFree:        21048968 kB
MemAvailable:   27735004 kB
Buffers:            2672 kB
Cached:          6205420 kB
SwapCached:            0 kB
Active:          6685232 kB
Inactive:        3552724 kB
Active(anon):    3266624 kB
Inactive(anon):        0 kB
Active(file):    3418608 kB
Inactive(file):  3552724 kB
Unevictable:          64 kB
Mlocked:              64 kB
SwapTotal:      25165820 kB
SwapFree:       25165820 kB
Zswap:                 0 kB
Zswapped:              0 kB
Dirty:              2208 kB
Writeback:             0 kB
AnonPages:       4001980 kB
Mapped:          1012428 kB
Shmem:             86232 kB
KReclaimable:     166152 kB
Slab:             406816 kB
SReclaimable:     166152 kB
SUnreclaim:       240664 kB
KernelStack:       22832 kB
PageTables:        56652 kB
SecPageTables:      4108 kB
NFS_Unstable:          0 kB
Bounce:                0 kB
WritebackTmp:          0 kB
CommitLimit:    41415700 kB
Committed_AS:   11450308 kB
VmallocTotal:   34359738367 kB
VmallocUsed:       93236 kB
VmallocChunk:          0 kB
Percpu:            38656 kB
HardwareCorrupted:     0 kB
AnonHugePages:    352256 kB
ShmemHugePages:        0 kB
ShmemPmdMapped:        0 kB
FileHugePages:    544768 kB
FilePmdMapped:    335872 kB
CmaTotal:              0 kB
CmaFree:               0 kB
Unaccepted:            0 kB
Balloon:               0 kB
HugePages_Total:       0
HugePages_Free:        0
HugePages_Rsvd:        0
HugePages_Surp:        0
Hugepagesize:       2048 kB
Hugetlb:               0 kB
DirectMap4k:      348700 kB
DirectMap2M:    12929024 kB
DirectMap1G:    19922944 kB
"#;

fn lines_of(text: &str) -> Vec<String> {
    text.lines().map(String::from).collect()
}

fn value_of(metrics: &[rsysmetrics::line_protocol::Metric], name: &str) -> f64 {
    metrics.iter().find(|m| m.name == name).unwrap().value.parse::<f64>().unwrap()
}

#[test]
fn test_parse_meminfo_with_real_data() {
    let collector = LinuxMemoryCollector::new();
    let meminfo = collector.parse_meminfo(&lines_of(REAL_MEMINFO_DATA));

    assert_eq!(meminfo.get("MemTotal"), Some(&32499764));
    assert_eq!(meminfo.get("MemFree"), Some(&21048968));
    assert_eq!(meminfo.get("MemAvailable"), Some(&27735004));
    assert_eq!(meminfo.get("Buffers"), Some(&2672));
    assert_eq!(meminfo.get("Cached"), Some(&6205420));
    assert_eq!(meminfo.get("SwapTotal"), Some(&25165820));
    assert_eq!(meminfo.get("SwapFree"), Some(&25165820));
    assert_eq!(meminfo.get("SwapCached"), Some(&0));
    assert_eq!(meminfo.get("Active"), Some(&6685232));
    assert_eq!(meminfo.get("Inactive"), Some(&3552724));
    assert_eq!(meminfo.get("Dirty"), Some(&2208));
    assert_eq!(meminfo.get("Shmem"), Some(&86232));
    assert_eq!(meminfo.get("Slab"), Some(&406816));
    assert_eq!(meminfo.get("PageTables"), Some(&56652));
    assert_eq!(meminfo.get("Zswap"), Some(&0));
    assert_eq!(meminfo.get("Zswapped"), Some(&0));
}

#[test]
fn test_build_metrics_with_real_data() {
    let collector = LinuxMemoryCollector::new();
    let meminfo = collector.parse_meminfo(&lines_of(REAL_MEMINFO_DATA));
    let metrics = collector.build_metrics(&meminfo);

    assert_eq!(metrics.len(), 18);
    assert_eq!(value_of(&metrics, "memory_total"), 32499764.0 * 1024.0);
    assert_eq!(value_of(&metrics, "memory_used"), (32499764.0 - 21048968.0) * 1024.0);
    assert_eq!(value_of(&metrics, "memory_available"), 27735004.0 * 1024.0);
    assert_eq!(value_of(&metrics, "memory_buffered"), 2672.0 * 1024.0);
    assert_eq!(value_of(&metrics, "memory_cached"), 6205420.0 * 1024.0);
    assert_eq!(value_of(&metrics, "swap_total"), 25165820.0 * 1024.0);
    assert_eq!(value_of(&metrics, "swap_used"), (25165820.0 - 25165820.0) * 1024.0);
    assert_eq!(value_of(&metrics, "swap_cached"), 0.0);
    assert_eq!(value_of(&metrics, "memory_active"), 6685232.0 * 1024.0);
    assert_eq!(value_of(&metrics, "memory_inactive"), 3552724.0 * 1024.0);
    assert_eq!(value_of(&metrics, "memory_dirty"), 2208.0 * 1024.0);
    assert_eq!(value_of(&metrics, "memory_shmem"), 86232.0 * 1024.0);
    assert_eq!(value_of(&metrics, "memory_slab"), 406816.0 * 1024.0);
    assert_eq!(value_of(&metrics, "memory_pagetables"), 56652.0 * 1024.0);
    assert_eq!(value_of(&metrics, "zswap_size"), 0.0 * 1024.0);
    assert_eq!(value_of(&metrics, "zswap_stored"), 0.0 * 1024.0);
}

#[test]
fn meminfo_keys_lose_their_colon_and_later_lines_win() {
    let collector = LinuxMemoryCollector::new();
    let meminfo = collector.parse_meminfo(&lines_of("A:: 5 kB\nB: x kB\nA: 7 kB\nlonely\n"));
    assert_eq!(meminfo.len(), 2);
    assert_eq!(meminfo.get("A"), Some(&7));
    assert_eq!(meminfo.get("B"), Some(&0));
    assert!(meminfo.get("lonely").is_none());
}

#[test]
fn used_memory_may_be_negative_and_missing_keys_read_zero() {
    let collector = LinuxMemoryCollector::new();
    let meminfo = collector.parse_meminfo(&lines_of("MemTotal: 1 kB\nMemFree: 3 kB\n"));
    let metrics = collector.build_metrics(&meminfo);
    let used = metrics.iter().find(|m| m.name == "memory_used").unwrap();
    assert_eq!(used.value, "-2048");
    let slab = metrics.iter().find(|m| m.name == "memory_slab").unwrap();
    assert_eq!(slab.value, "0");
    assert!(metrics.iter().all(|m| m.tags.is_empty()));
}
