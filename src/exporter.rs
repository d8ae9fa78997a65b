//! What a write to an InfluxDB sink consists of, apart from sending it.
use vstd::prelude::*;
use vstd::string::StringExecFns;
use crate::config::InfluxDBConfig;

verus! {

/// The write endpoint of the sink: its base URL followed by `/api/v2/write`.
pub fn write_url(config: &InfluxDBConfig) -> (r: String)
    ensures
        r@ == config.url@ + "/api/v2/write"@,
{
    let mut url = config.url.clone();
    url.append("/api/v2/write");
    url
}

/// The `Authorization` header of a write: `Token <token>` where a non-empty
/// token is set, none otherwise.
pub fn authorization(config: &InfluxDBConfig) -> (r: Option<String>)
    ensures
        match config.token {
            Some(t) => if t@.len() > 0 {
                r is Some && r->0@ == "Token "@ + t@
            } else {
                r is None
            },
            None => r is None,
        },
{
    match &config.token {
        Some(token) => {
            if token.as_str().is_empty() {
                None
            } else {
                Some(String::from_str("Token ").concat(token.as_str()))
            }
        },
        None => None,
    }
}

} // verus!
