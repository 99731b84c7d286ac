use serval_core::config::{
    advertisement, client_metadata, first_free_port, parse_role_flag, runner_enabled, select_port,
    storage_enabled, ConfigError, RoleFlag,
};
use serval_core::peer::Addr;
use serval_core::roles::Role;
use serval_core::urls::{
    build_url, enqueue_path, executable_path, job_results_path, job_status_path, jobs_run_path,
    manifests_path, monitor_history_path, monitor_ping_path, ping_body,
};

#[test]
fn role_flags_parse() {
    assert_eq!(parse_role_flag("always"), RoleFlag::Always);
    assert_eq!(parse_role_flag("auto"), RoleFlag::Auto);
    assert_eq!(parse_role_flag("never"), RoleFlag::Never);
    assert_eq!(parse_role_flag("sometimes"), RoleFlag::Never);
}

#[test]
fn storage_is_only_enabled_when_demanded() {
    assert!(storage_enabled(RoleFlag::Always));
    assert!(!storage_enabled(RoleFlag::Auto));
    assert!(!storage_enabled(RoleFlag::Never));
}

#[test]
fn runner_follows_engine_availability() {
    assert_eq!(runner_enabled(RoleFlag::Auto, true), Ok(true));
    assert_eq!(runner_enabled(RoleFlag::Auto, false), Ok(false));
    assert_eq!(runner_enabled(RoleFlag::Never, true), Ok(false));
    assert_eq!(runner_enabled(RoleFlag::Always, true), Ok(true));
    assert_eq!(
        runner_enabled(RoleFlag::Always, false),
        Err(ConfigError::RunnerUnsupported)
    );
}

#[test]
fn port_scan_skips_a_taken_port() {
    let taken = vec![8100u16];
    let port = select_port(None, &taken).unwrap();
    assert_eq!(port, 8101);
    let ad = advertisement(
        1,
        b"agent".to_vec(),
        Addr { ip: 0x7f000001, port },
        Addr { ip: 0x7f000001, port: 8181 },
        false,
        true,
    );
    assert_eq!(ad.http_address, Some(Addr { ip: 0x7f000001, port: 8101 }));
}

#[test]
fn port_scan_takes_the_first_free_port() {
    assert_eq!(first_free_port(8100, &vec![]), Some(8100));
    assert_eq!(first_free_port(8100, &vec![8100, 8101, 8103]), Some(8102));
}

#[test]
fn a_configured_port_is_never_scanned_past() {
    assert_eq!(select_port(Some(9000), &vec![]), Some(9000));
    assert_eq!(select_port(Some(9000), &vec![9000]), None);
}

#[test]
fn advertisement_combines_roles_under_one_identity() {
    let ad = advertisement(
        5,
        b"agent".to_vec(),
        Addr { ip: 1, port: 8100 },
        Addr { ip: 1, port: 8181 },
        true,
        true,
    );
    assert_eq!(ad.peer_id, 5);
    assert!(ad.roles.has(Role::Scheduler));
    assert!(ad.roles.has(Role::Storage));
    assert!(ad.roles.has(Role::Runner));
    assert!(!ad.roles.has(Role::Client));
}

#[test]
fn client_metadata_has_only_the_client_role() {
    let c = client_metadata(9, b"client@0.0.0.0".to_vec(), Addr { ip: 0, port: 8181 });
    assert!(c.roles.has(Role::Client));
    assert!(!c.roles.has(Role::Scheduler));
    assert!(c.http_address.is_none());
}

#[test]
fn urls_are_joined_with_a_version_segment() {
    assert_eq!(
        build_url("http://10.0.0.5:8100", "storage/manifests", Some("1")),
        "http://10.0.0.5:8100/v1/storage/manifests"
    );
    assert_eq!(
        build_url("http://10.0.0.5:8100", "monitor/ping", None),
        "http://10.0.0.5:8100/monitor/ping"
    );
}

#[test]
fn paths_are_spelled_as_the_surface_expects() {
    assert_eq!(jobs_run_path("hello"), "jobs/hello/run");
    assert_eq!(job_status_path("abc"), "jobs/abc/status");
    assert_eq!(job_results_path("abc"), "jobs/abc/results");
    assert_eq!(manifests_path(), "storage/manifests");
    assert_eq!(
        executable_path("org/echo", "1.0.0"),
        "storage/manifests/org/echo/executable/1.0.0"
    );
    assert_eq!(enqueue_path("echo"), "scheduler/enqueue/echo");
    assert_eq!(monitor_ping_path(), "monitor/ping");
    assert_eq!(monitor_history_path(), "monitor/history");
    assert_eq!(ping_body(), "pong");
}
