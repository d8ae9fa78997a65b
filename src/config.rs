//! The agent's settings: how often to scrape, which collectors run, and where
//! the metrics go.
use vstd::prelude::*;

verus! {

/// The agent's settings.
#[derive(Debug)]
pub struct Config {
    /// Seconds between two scrapes.
    pub collect_interval: u64,
    pub exporter: Exporter,
    pub collectors: Collectors,
}

/// Which collectors run.
#[derive(Debug, Default)]
pub struct Collectors {
    pub cpu: bool,
    pub memory: bool,
    pub network: bool,
    pub disk: bool,
    pub system: bool,
    pub gpu: bool,
    pub temperature: TemperatureCollectorConfig,
}

/// The temperature collector: whether it runs, and the glob patterns that
/// select sensors by label.
#[derive(Debug, Default, Clone)]
pub struct TemperatureCollectorConfig {
    pub enabled: bool,
    pub included: Vec<String>,
    pub excluded: Vec<String>,
}

/// A collector left unmentioned runs.
pub fn default_true() -> (r: bool)
    ensures
        r,
{
    true
}

/// Scrapes are fifteen seconds apart unless set otherwise.
pub fn default_collect_interval() -> (r: u64)
    ensures
        r == 15,
{
    15
}

/// Where the metrics are sent.
#[derive(Debug)]
pub enum Exporter {
    InfluxDB(InfluxDBConfig),
}

/// An InfluxDB sink: its base URL, the bucket, organisation and token of its
/// second version's API, and the database and credentials of its first.
#[derive(Debug)]
pub struct InfluxDBConfig {
    pub url: String,
    pub bucket: Option<String>,
    pub org: Option<String>,
    pub token: Option<String>,
    pub db: Option<String>,
    pub username: Option<String>,
    pub password: Option<String>,
}

} // verus!
