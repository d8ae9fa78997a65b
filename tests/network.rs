use rsysmetrics::network::{is_reported_interface, network_metrics, InterfaceCounters};
use rsysmetrics::temperature::{sensor_selected, SensorFilter};
use rsysmetrics::config::TemperatureCollectorConfig;

fn counters(name: &str, base: u64) -> InterfaceCounters {
    InterfaceCounters {
        name: name.to_string(),
        received: base,
        transmitted: base + 1,
        packets_received: base + 2,
        packets_transmitted: base + 3,
    }
}

#[test]
fn only_physical_interfaces_are_reported() {
    assert!(is_reported_interface("enp3s0"));
    assert!(is_reported_interface("wlan0"));
    assert!(is_reported_interface("wlp2s0"));
    assert!(is_reported_interface("wwan0"));
    assert!(!is_reported_interface("lo"));
    assert!(!is_reported_interface("docker0"));
}

#[test]
fn network_metrics_follow_interface_order() {
    let metrics = network_metrics(&vec![counters("lo", 1), counters("eth0", 5), counters("enp3s0", 10)]);
    assert_eq!(metrics.len(), 4);
    let names: Vec<&str> = metrics.iter().map(|m| m.name.as_str()).collect();
    assert_eq!(
        names,
        vec!["network_received", "network_transmitted", "network_packets_received", "network_packets_transmitted"]
    );
    let values: Vec<&str> = metrics.iter().map(|m| m.value.as_str()).collect();
    assert_eq!(values, vec!["10", "11", "12", "13"]);
    assert!(metrics.iter().all(|m| m.tags == vec![("interface".to_string(), "enp3s0".to_string())]));
}

fn filter(included: &[&str], excluded: &[&str]) -> SensorFilter {
    SensorFilter::new(&TemperatureCollectorConfig {
        enabled: true,
        included: included.iter().map(|s| s.to_string()).collect(),
        excluded: excluded.iter().map(|s| s.to_string()).collect(),
    })
}

#[test]
fn sensors_pass_without_globs() {
    assert!(filter(&[], &[]).selects("k10temp Tctl"));
}

#[test]
fn include_globs_select_and_exclude_globs_reject() {
    let f = filter(&["k10temp*", "nvme*"], &["*Sensor 2"]);
    assert!(f.selects("k10temp Tctl"));
    assert!(f.selects("nvme Composite"));
    assert!(!f.selects("nvme Sensor 2"));
    assert!(!f.selects("acpitz temp1"));
}

#[test]
fn invalid_globs_are_left_out() {
    let f = filter(&["[unclosed"], &[]);
    assert!(f.selects("anything"));
}

#[test]
fn one_interface_gives_four_tagged_readings() {
    let metrics = rsysmetrics::network::interface_metrics(&counters("lo", 100));
    let values: Vec<&str> = metrics.iter().map(|m| m.value.as_str()).collect();
    assert_eq!(values, vec!["100", "101", "102", "103"]);
    assert_eq!(metrics[3].name, "network_packets_transmitted");
    assert_eq!(metrics[0].tags, vec![("interface".to_string(), "lo".to_string())]);
}

#[test]
fn sensor_decision_combines_the_matches() {
    assert!(sensor_selected(false, false, false));
    assert!(!sensor_selected(true, false, false));
    assert!(sensor_selected(true, true, false));
    assert!(!sensor_selected(true, true, true));
    assert!(!sensor_selected(false, false, true));
}

#[test]
fn a_set_that_cannot_be_built_is_empty() {
    let huge = "?".repeat(400_000);
    let f = filter(&[], &[huge.as_str()]);
    assert!(f.selects("anything"));
    let g = filter(&[huge.as_str()], &[]);
    assert!(g.selects("anything"));
}

#[test]
fn glob_lists_within_the_limit_fit() {
    let config = TemperatureCollectorConfig {
        enabled: true,
        included: vec!["k10temp*".to_string()],
        excluded: vec![],
    };
    assert!(rsysmetrics::temperature::filter_fits(&config));
}
