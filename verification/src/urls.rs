//! URL and path building for the HTTP surface, shared by clients.
use vstd::prelude::*;
use vstd::string::StringExecFns;

verus! {

/// Build a request URL from a base, a path and an optional API version:
/// `<base>/v<version>/<path>`, or `<base>/<path>` with no version.
pub fn build_url(baseurl: &str, path: &str, version: Option<&str>) -> (r: String)
    ensures
        version matches Some(v) ==> r@ == baseurl@ + "/v"@ + v@ + "/"@ + path@,
        version is None ==> r@ == baseurl@ + "/"@ + path@,
{
    let mut s = String::from_str(baseurl);
    match version {
        Some(v) => {
            s.append("/v");
            s.append(v);
            s.append("/");
            s.append(path);
        },
        None => {
            s.append("/");
            s.append(path);
        },
    }
    s
}

/// The path that runs a stored job synchronously.
pub fn jobs_run_path(name: &str) -> (r: String)
    ensures
        r@ == "jobs/"@ + name@ + "/run"@,
{
    let mut s = String::from_str("jobs/");
    s.append(name);
    s.append("/run");
    s
}

/// The path that reports a job's status.
pub fn job_status_path(id: &str) -> (r: String)
    ensures
        r@ == "jobs/"@ + id@ + "/status"@,
{
    let mut s = String::from_str("jobs/");
    s.append(id);
    s.append("/status");
    s
}

/// The path that reports a job's results.
pub fn job_results_path(id: &str) -> (r: String)
    ensures
        r@ == "jobs/"@ + id@ + "/results"@,
{
    let mut s = String::from_str("jobs/");
    s.append(id);
    s.append("/results");
    s
}

/// The path that stores or lists manifests.
pub fn manifests_path() -> (r: String)
    ensures
        r@ == "storage/manifests"@,
{
    String::from_str("storage/manifests")
}

/// The path that stores or fetches a manifest's executable at a version.
pub fn executable_path(fq_name: &str, version: &str) -> (r: String)
    ensures
        r@ == "storage/manifests/"@ + fq_name@ + "/executable/"@ + version@,
{
    let mut s = String::from_str("storage/manifests/");
    s.append(fq_name);
    s.append("/executable/");
    s.append(version);
    s
}

/// The path that enqueues a job under a manifest name.
pub fn enqueue_path(name: &str) -> (r: String)
    ensures
        r@ == "scheduler/enqueue/"@ + name@,
{
    let mut s = String::from_str("scheduler/enqueue/");
    s.append(name);
    s
}

/// The liveness path.
pub fn monitor_ping_path() -> (r: String)
    ensures
        r@ == "monitor/ping"@,
{
    String::from_str("monitor/ping")
}

/// The in-memory history path.
pub fn monitor_history_path() -> (r: String)
    ensures
        r@ == "monitor/history"@,
{
    String::from_str("monitor/history")
}

/// What the liveness check answers.
pub fn ping_body() -> (r: String)
    ensures
        r@ == "pong"@,
{
    String::from_str("pong")
}

} // verus!
