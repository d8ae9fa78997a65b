use rsysmetrics::disk::{disk_metrics, is_reported_device, DiskCollector, DiskIo, DiskIoCollector};
use rsysmetrics::entity_map::EntityMap;

const PROC_DISKSTATS_SAMPLE: &str = r#"259       0 nvme0n1 77560 2503 6796613 23765 210848 619 7175916 2434865 0 66886 2481479 3691 0 52413048 14264 4799 8583
259       1 nvme0n1p1 611 1645 12829 173 14 0 12 12 0 31 185 0 0 0 0 0 0
259       2 nvme0n1p2 76856 858 6780736 23589 210830 619 7175904 2434850 0 71586 2472704 3691 0 52413048 14264 0 0
259       3 nvme1n1 82 0 2936 18 0 0 0 0 0 18 18 0 0 0 0 0 0
253       0 dm-0 77671 0 6779560 25579 211446 0 7175904 155364 0 72803 193638 3691 0 52413048 12695 0 0
8       0 sda 200 0 2000 0 200 0 2000 0 0 0 0
8       1 sda1 20 0 200 0 20 0 200 0 0 0 0
7       0 loop0 20 0 200 0 20 0 200 0 0 0 0
240     16 zd16 20 0 200 0 20 0 200 0 0 0 0
240     17 zd16p1 20 0 200 0 20 0 200 0 0 0 0
"#;

fn lines_of(text: &str) -> Vec<String> {
    text.lines().map(String::from).collect()
}

fn mapping() -> EntityMap<String> {
    let mut mapping = EntityMap::new();
    mapping.insert("nvme0n1".to_string(), "nvme-eui.0123456789abcdef".to_string());
    mapping.insert("sda".to_string(), "ata-VBOX_HARDDISK_VB0d1a2b3c-4d5e6f7a8b9c".to_string());
    mapping
}

#[test]
fn diskstats_keep_whole_devices_only() {
    let collector = DiskIoCollector::new_with_device_to_id_mapping(mapping());
    let result = collector.collect_from_reader(&lines_of(PROC_DISKSTATS_SAMPLE));

    assert_eq!(result.len(), 3);

    let expected_nvme0n1 = DiskIo {
        read_bytes: 6796613 * 512,
        written_bytes: 7175916 * 512,
        reads: 77560,
        writes: 210848,
        read_time: 23765,
        write_time: 2434865,
        io_in_progress: 0,
        disk_id: "nvme-eui.0123456789abcdef".to_string(),
    };
    assert_eq!(result.get("nvme0n1"), Some(&expected_nvme0n1));

    let expected_nvme1n1 = DiskIo {
        read_bytes: 2936 * 512,
        written_bytes: 0,
        reads: 82,
        writes: 0,
        read_time: 18,
        write_time: 0,
        io_in_progress: 0,
        disk_id: "nvme1n1".to_string(),
    };
    assert_eq!(result.get("nvme1n1"), Some(&expected_nvme1n1));

    let expected_sda = DiskIo {
        read_bytes: 2000 * 512,
        written_bytes: 2000 * 512,
        reads: 200,
        writes: 200,
        read_time: 0,
        write_time: 0,
        io_in_progress: 0,
        disk_id: "ata-VBOX_HARDDISK_VB0d1a2b3c-4d5e6f7a8b9c".to_string(),
    };
    assert_eq!(result.get("sda"), Some(&expected_sda));
}

#[test]
fn device_pattern_selects_whole_disks() {
    assert!(is_reported_device("nvme0n1"));
    assert!(is_reported_device("sdab"));
    assert!(!is_reported_device("nvme0n1p1"));
    assert!(!is_reported_device("sda1"));
    assert!(!is_reported_device("dm-0"));
    assert!(!is_reported_device("loop0"));
}

#[test]
fn huge_sector_counts_hold_at_the_maximum() {
    let collector = DiskIoCollector::new_with_device_to_id_mapping(EntityMap::new());
    let line = "8 0 sdb 1 0 18446744073709551615 0 1 0 4 0 0 0 0".to_string();
    let result = collector.collect_from_reader(&vec![line]);
    let d = result.get("sdb").unwrap();
    assert_eq!(d.read_bytes, u64::MAX);
    assert_eq!(d.written_bytes, 2048);
}

#[test]
fn disk_metrics_report_seven_readings_per_device() {
    let collector = DiskCollector::new(mapping());
    let io = collector.collector.collect_from_reader(&lines_of(PROC_DISKSTATS_SAMPLE));
    let metrics = disk_metrics(&io);
    assert_eq!(metrics.len(), 21);
    let first = &metrics[0];
    assert_eq!(first.name, "disk_read_bytes");
    assert_eq!(first.value, (6796613u64 * 512).to_string());
    assert_eq!(
        first.tags,
        vec![
            ("device".to_string(), "nvme0n1".to_string()),
            ("disk_id".to_string(), "nvme-eui.0123456789abcdef".to_string()),
        ]
    );
    assert_eq!(metrics[6].name, "disk_io_in_progress");
    assert_eq!(metrics[6].value, "0");
    assert_eq!(metrics[9].name, "disk_reads");
    assert_eq!(metrics[9].value, "82");
}

#[test]
fn one_record_reads_its_counters() {
    let collector = DiskIoCollector::new_with_device_to_id_mapping(mapping());
    let words: Vec<String> = "8 0 sda 200 0 2000 5 300 0 4000 6 1 0 0".split(' ').map(String::from).collect();
    let d = collector.disk_io_of_words(&words);
    assert_eq!(d.reads, 200);
    assert_eq!(d.read_bytes, 2000 * 512);
    assert_eq!(d.read_time, 5);
    assert_eq!(d.writes, 300);
    assert_eq!(d.written_bytes, 4000 * 512);
    assert_eq!(d.write_time, 6);
    assert_eq!(d.io_in_progress, 1);
    assert_eq!(d.disk_id, "ata-VBOX_HARDDISK_VB0d1a2b3c-4d5e6f7a8b9c");
}

#[test]
fn disk_figures_are_per_interval() {
    let mut collector = DiskCollector::new(mapping());
    let first = collector.collector.collect_from_reader(&lines_of("8 0 sda 200 0 2000 10 300 0 4000 20 3 0 0\n8 0 sdb 1 0 1 1 1 0 1 1 0 0 0\n"));
    assert!(collector.update(first).is_empty());
    let second = collector.collector.collect_from_reader(&lines_of("8 0 sda 250 0 2100 15 290 0 4400 26 1 0 0\n8 0 sdc 1 0 1 1 1 0 1 1 0 0 0\n"));
    let deltas = collector.update(second);
    assert_eq!(deltas.len(), 1);
    let d = deltas.get("sda").unwrap();
    assert_eq!(d.reads, 50);
    assert_eq!(d.read_bytes, 100 * 512);
    assert_eq!(d.read_time, 5);
    assert_eq!(d.writes, 0);
    assert_eq!(d.written_bytes, 400 * 512);
    assert_eq!(d.write_time, 6);
    assert_eq!(d.io_in_progress, 1);
    assert_eq!(d.disk_id, "ata-VBOX_HARDDISK_VB0d1a2b3c-4d5e6f7a8b9c");
    let metrics = disk_metrics(&deltas);
    assert_eq!(metrics.len(), 7);
    assert_eq!(metrics[2].value, "50");
    let third = collector.collector.collect_from_reader(&lines_of("8 0 sdb 5 0 1 1 1 0 1 1 0 0 0\n"));
    assert!(collector.update(third).is_empty());
}
