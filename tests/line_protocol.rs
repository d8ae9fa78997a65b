use rsysmetrics::line_protocol::{escape_tag_value, format_metrics, Metric};

fn metric(name: &str, value: f64, tags: &[(&str, &str)]) -> Metric {
    Metric {
        name: name.to_string(),
        value: value.to_string(),
        tags: tags.iter().map(|(k, v)| (k.to_string(), v.to_string())).collect(),
    }
}

#[test]
fn test_format_metrics() {
    let metrics = vec![
        Metric {
            name: "cpu_usage".to_string(),
            value: 0.5f64.to_string(),
            tags: vec![("core".to_string(), "cpu0".to_string())],
        },
        Metric {
            name: "cpu_temperature".to_string(),
            value: 60.0f64.to_string(),
            tags: vec![("core".to_string(), "cpu0".to_string())],
        },
        Metric { name: "memory_total".to_string(), value: 1024.0f64.to_string(), tags: vec![] },
        Metric { name: "memory_used".to_string(), value: 512.0f64.to_string(), tags: vec![] },
    ];

    let formatted = format_metrics(&metrics, "test-host", 1678886400);
    let expected = "cpu,core=cpu0,host=test-host usage=0.5,temperature=60 1678886400\nmemory,host=test-host total=1024,used=512 1678886400";
    assert_eq!(formatted, expected);
}

#[test]
fn test_format_metrics_no_grouping() {
    let metrics = vec![
        Metric {
            name: "cpu_usage".to_string(),
            value: 0.5f64.to_string(),
            tags: vec![("core".to_string(), "cpu0".to_string())],
        },
        Metric { name: "memory_total".to_string(), value: 1024.0f64.to_string(), tags: vec![] },
        Metric {
            name: "cpu_temperature".to_string(),
            value: 60.0f64.to_string(),
            tags: vec![("core".to_string(), "cpu0".to_string())],
        },
    ];

    let formatted = format_metrics(&metrics, "test-host", 1678886400);
    let expected = "cpu,core=cpu0,host=test-host usage=0.5 1678886400\nmemory,host=test-host total=1024 1678886400\ncpu,core=cpu0,host=test-host temperature=60 1678886400";
    assert_eq!(formatted, expected);
}

#[test]
fn test_format_metrics_with_whitespace() {
    let metrics = vec![Metric {
        name: "cpu_usage".to_string(),
        value: 0.5f64.to_string(),
        tags: vec![("core".to_string(), "cpu 0".to_string())],
    }];

    let formatted = format_metrics(&metrics, "test-host", 1678886400);
    let expected = "cpu,core=cpu\\ 0,host=test-host usage=0.5 1678886400";
    assert_eq!(formatted, expected);
}

#[test]
fn four_metrics_split_by_a_foreign_one_give_three_lines() {
    let metrics = vec![
        metric("cpu_usage", 0.5, &[("core", "cpu0")]),
        metric("memory_total", 1024.0, &[]),
        metric("cpu_temperature", 60.0, &[("core", "cpu0")]),
        metric("memory_used", 512.0, &[]),
    ];
    let formatted = format_metrics(&metrics, "test-host", 1678886400);
    let expected = "cpu,core=cpu0,host=test-host usage=0.5 1678886400\nmemory,host=test-host total=1024 1678886400\ncpu,core=cpu0,host=test-host temperature=60 1678886400\nmemory,host=test-host used=512 1678886400";
    assert_eq!(formatted, expected);
}

#[test]
fn empty_input_encodes_to_empty_text() {
    assert_eq!(format_metrics(&[], "test-host", 1678886400), "");
}

#[test]
fn name_without_separator_has_field_value() {
    let metrics = vec![metric("temperature", 42.5, &[("label", "k10temp")])];
    assert_eq!(
        format_metrics(&metrics, "h", 7),
        "temperature,label=k10temp,host=h value=42.5 7"
    );
}

#[test]
fn name_splits_at_first_separator_only() {
    let metrics = vec![metric("system_load_average_1m", 0.25, &[])];
    assert_eq!(format_metrics(&metrics, "h", 0), "system,host=h load_average_1m=0.25 0");
}

#[test]
fn tags_are_sorted_by_key() {
    let metrics = vec![
        metric("disk_reads", 3.0, &[("device", "sda"), ("bus", "ata")]),
        metric("disk_writes", 4.0, &[("bus", "ata"), ("device", "sda")]),
    ];
    assert_eq!(
        format_metrics(&metrics, "h", 9),
        "disk,bus=ata,device=sda,host=h reads=3,writes=4 9"
    );
}

#[test]
fn different_tag_values_start_new_lines() {
    let metrics = vec![
        metric("cpu_usage", 1.0, &[("core", "cpu0")]),
        metric("cpu_usage", 2.0, &[("core", "cpu1")]),
    ];
    assert_eq!(
        format_metrics(&metrics, "h", 1),
        "cpu,core=cpu0,host=h usage=1 1\ncpu,core=cpu1,host=h usage=2 1"
    );
}

#[test]
fn tag_values_escape_specials() {
    assert_eq!(escape_tag_value("cpu 0"), "cpu\\ 0");
    assert_eq!(escape_tag_value("a,b=c"), "a\\,b\\=c");
    assert_eq!(escape_tag_value("back\\slash"), "back\\\\slash");
    assert_eq!(escape_tag_value("plain"), "plain");
    assert_eq!(escape_tag_value(""), "");
}

#[test]
fn largest_timestamp_renders_in_full() {
    let metrics = vec![metric("uptime", 1.0, &[])];
    assert_eq!(format_metrics(&metrics, "h", u64::MAX), "uptime,host=h value=1 18446744073709551615");
}
