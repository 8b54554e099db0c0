//! The local network bootstrap's decisions: what a container-start exit code
//! means, and when a health-check response counts as healthy.

use vstd::prelude::*;
use crate::text::str_eq;

verus! {

/// What starting the local network container came to.
#[derive(Clone, Copy, PartialEq, Eq, Structural, Debug)]
pub enum StartOutcome {
    /// The container started; give it a moment before polling health.
    Started,
    /// The conflict exit code: the container is already running, which is
    /// success, not an error.
    AlreadyRunning,
    /// Any other failure is fatal.
    Failed,
}

/// The meaning of the container tool's exit code: `0` started the network,
/// the conflict code `1` means it was already running, anything else (or a
/// termination without an exit code) is fatal.
pub open spec fn spec_start_outcome(exit_code: Option<i32>) -> StartOutcome {
    match exit_code {
        Option::Some(0) => StartOutcome::Started,
        Option::Some(1) => StartOutcome::AlreadyRunning,
        _ => StartOutcome::Failed,
    }
}

/// Classify the container tool's exit code.
pub fn start_outcome(exit_code: Option<i32>) -> (r: StartOutcome)
    ensures
        r == spec_start_outcome(exit_code),
{
    match exit_code {
        Option::Some(0) => StartOutcome::Started,
        Option::Some(1) => StartOutcome::AlreadyRunning,
        _ => StartOutcome::Failed,
    }
}

/// How long to wait after a fresh container start before polling, in seconds.
pub fn startup_wait_seconds() -> (r: u64)
    ensures
        r == 10,
{
    10
}

/// The fixed interval between health polls, in seconds.
pub fn health_poll_seconds() -> (r: u64)
    ensures
        r == 5,
{
    5
}

/// The endpoint the health poll posts to.
pub fn health_endpoint() -> (r: String)
    ensures
        r@ == "http://localhost:8000/rpc"@,
{
    "http://localhost:8000/rpc".to_owned()
}

/// The health request body the endpoint expects.
pub fn health_request_body() -> (r: String)
    ensures
        r@ == "{\"jsonrpc\": \"2.0\", \"id\": 1, \"method\": \"getHealth\"}"@,
{
    "{\"jsonrpc\": \"2.0\", \"id\": 1, \"method\": \"getHealth\"}".to_owned()
}

/// The status string a health response carries under `result.status`, if the
/// body parses as such a response: a function of the body text alone.
pub uninterp spec fn health_status_of(body: Seq<char>) -> Option<Seq<char>>;

/// Relies on `serde_json::from_str` and `serde_json::Value::get`/`as_str`:
/// extracting the `result.status` string of a JSON-RPC health response
/// depends on the body text alone.
#[verifier::external_body]
fn parse_health_status(body: &str) -> (r: Option<String>)
    ensures
        r matches Some(s) ==> health_status_of(body@) == Option::Some(s@),
        r is None ==> health_status_of(body@) is None,
{
    let value: serde_json::Value = serde_json::from_str(body).ok()?;
    let status = value.get("result")?.get("status")?.as_str()?;
    Some(status.to_string())
}

/// One poll's verdict.
#[derive(Clone, Copy, PartialEq, Eq, Structural, Debug)]
pub enum HealthVerdict {
    /// The network reported `healthy`: the bootstrap is done.
    Healthy,
    /// A well-formed response with any other status: log it and retry.
    NotHealthy,
    /// A failed request or an unreadable body: log it and retry.
    Unreadable,
}

/// Whether a reported status string is the healthy one.
pub fn status_is_healthy(status: &str) -> (r: bool)
    ensures
        r <==> status@ == "healthy"@,
{
    str_eq(status, "healthy")
}

/// Judge one health response body: `Healthy` exactly when it carries
/// `result.status == "healthy"`; `NotHealthy` for any other carried status;
/// `Unreadable` when no status can be read out of it.
pub fn health_verdict(body: &str) -> (r: HealthVerdict)
    ensures
        r is Healthy <==> health_status_of(body@) == Option::Some("healthy"@),
        r is Unreadable <==> health_status_of(body@) is None,
        r is NotHealthy <==> (health_status_of(body@) matches Some(s) && s != "healthy"@),
{
    match parse_health_status(body) {
        Option::Some(status) => {
            if status_is_healthy(status.as_str()) {
                HealthVerdict::Healthy
            } else {
                HealthVerdict::NotHealthy
            }
        },
        Option::None => HealthVerdict::Unreadable,
    }
}

} // verus!
