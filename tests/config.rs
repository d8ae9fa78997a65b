use rsysmetrics::config::{default_collect_interval, default_true, InfluxDBConfig};
use rsysmetrics::exporter::{authorization, write_url};

fn sink(token: Option<&str>) -> InfluxDBConfig {
    InfluxDBConfig {
        url: "http://localhost:8086".to_string(),
        bucket: Some("metrics".to_string()),
        org: Some("home".to_string()),
        token: token.map(String::from),
        db: None,
        username: None,
        password: None,
    }
}

#[test]
fn defaults_enable_collectors_every_fifteen_seconds() {
    assert!(default_true());
    assert_eq!(default_collect_interval(), 15);
}

#[test]
fn write_url_appends_the_write_endpoint() {
    assert_eq!(write_url(&sink(None)), "http://localhost:8086/api/v2/write");
}

#[test]
fn authorization_only_for_a_non_empty_token() {
    assert_eq!(authorization(&sink(Some("abc"))), Some("Token abc".to_string()));
    assert_eq!(authorization(&sink(Some(""))), None);
    assert_eq!(authorization(&sink(None)), None);
}
