use serval_core::mesh::MembershipView;
use serval_core::peer::{Addr, PeerMetadata};
use serval_core::proxy::{
    body_within_limit, build_relay_request, build_return_response, id_hex, proxy_counter_key,
    required_role, status_of, ErrorKind, Header, RelayDecision, Request, Response, MAX_BODY_BYTES,
};
use serval_core::roles::{Role, RoleSet};

fn peer(id: u128, roles: RoleSet, http: Option<Addr>) -> PeerMetadata {
    PeerMetadata {
        peer_id: id,
        display_name: b"peer".to_vec(),
        roles,
        http_address: http,
        mesh_address: Addr { ip: 1, port: 8181 },
    }
}

fn request(path: &[u8], headers: Vec<Header>) -> Request {
    Request {
        method: b"POST".to_vec(),
        path: path.to_vec(),
        headers,
        body: b"payload".to_vec(),
    }
}

#[test]
fn paths_map_to_their_roles() {
    assert_eq!(required_role(&b"/v1/scheduler/claim".to_vec()), Some(Role::Scheduler));
    assert_eq!(required_role(&b"/v1/jobs/hello/run".to_vec()), Some(Role::Runner));
    assert_eq!(required_role(&b"/v1/storage/manifests".to_vec()), Some(Role::Storage));
    assert_eq!(required_role(&b"/monitor/ping".to_vec()), None);
    assert_eq!(required_role(&b"/monitor/status".to_vec()), None);
}

#[test]
fn local_role_is_served_locally() {
    let local = peer(1, RoleSet::none().with(Role::Scheduler), None);
    let v = MembershipView::new();
    let req = request(b"/v1/scheduler/claim", Vec::new());
    assert_eq!(v.decide_route(&local, &req, 0), RelayDecision::HandleLocally);
}

#[test]
fn unowned_role_relays_to_a_capable_peer() {
    let local = peer(1, RoleSet::none().with(Role::Scheduler), None);
    let mut v = MembershipView::new();
    v.join(peer(2, RoleSet::none().with(Role::Runner), Some(Addr { ip: 9, port: 8100 })));
    let req = request(b"/v1/jobs/hello/run", Vec::new());
    assert_eq!(
        v.decide_route(&local, &req, 0),
        RelayDecision::Relay { peer: 2, addr: Addr { ip: 9, port: 8100 } }
    );
}

#[test]
fn missing_role_yields_no_peer() {
    let local = peer(1, RoleSet::none().with(Role::Client), None);
    let v = MembershipView::new();
    let req = request(b"/v1/scheduler/enqueue/x", Vec::new());
    assert_eq!(
        v.decide_route(&local, &req, 0),
        RelayDecision::NoPeer { role: Role::Scheduler }
    );
}

#[test]
fn a_request_already_relayed_is_never_relayed_again() {
    let local = peer(1, RoleSet::none().with(Role::Client), None);
    let mut v = MembershipView::new();
    v.join(peer(2, RoleSet::none().with(Role::Runner), Some(Addr { ip: 9, port: 8100 })));
    let marked = request(
        b"/v1/jobs/hello/run",
        vec![Header { name: b"X-Relayed-By".to_vec(), value: id_hex(77) }],
    );
    assert_eq!(
        v.decide_route(&local, &marked, 0),
        RelayDecision::NoPeer { role: Role::Runner }
    );
}

#[test]
fn a_request_carrying_the_local_mark_is_a_loop() {
    let local = peer(1, RoleSet::none().with(Role::Client), None);
    let mut v = MembershipView::new();
    v.join(peer(2, RoleSet::none().with(Role::Runner), Some(Addr { ip: 9, port: 8100 })));
    let marked = request(
        b"/v1/jobs/hello/run",
        vec![Header { name: b"x-relayed-by".to_vec(), value: id_hex(1) }],
    );
    assert_eq!(v.decide_route(&local, &marked, 0), RelayDecision::LoopDetected);
}

#[test]
fn forwarding_strips_hop_by_hop_and_adds_the_mark() {
    let req = request(
        b"/v1/jobs/hello/run",
        vec![
            Header { name: b"Connection".to_vec(), value: b"keep-alive".to_vec() },
            Header { name: b"Content-Type".to_vec(), value: b"application/wasm".to_vec() },
            Header { name: b"Transfer-Encoding".to_vec(), value: b"chunked".to_vec() },
            Header { name: b"Accept".to_vec(), value: b"*/*".to_vec() },
        ],
    );
    let fwd = build_relay_request(&req, 0xabc);
    assert_eq!(fwd.method, b"POST".to_vec());
    assert_eq!(fwd.path, b"/v1/jobs/hello/run".to_vec());
    assert_eq!(fwd.body, b"payload".to_vec());
    assert_eq!(fwd.headers.len(), 3);
    assert_eq!(fwd.headers[0].name, b"Content-Type".to_vec());
    assert_eq!(fwd.headers[1].name, b"Accept".to_vec());
    assert_eq!(fwd.headers[2].name, b"x-relayed-by".to_vec());
    assert_eq!(fwd.headers[2].value, id_hex(0xabc));
}

#[test]
fn returned_response_is_bit_identical_modulo_hop_by_hop() {
    let upstream = Response {
        status: 200,
        headers: vec![
            Header { name: b"Content-Length".to_vec(), value: b"2".to_vec() },
            Header { name: b"Keep-Alive".to_vec(), value: b"timeout=5".to_vec() },
            Header { name: b"ETag".to_vec(), value: b"xyz".to_vec() },
        ],
        body: vec![0xaa, 0xbb],
    };
    let back = build_return_response(&upstream);
    assert_eq!(back.status, 200);
    assert_eq!(back.body, vec![0xaa, 0xbb]);
    assert_eq!(back.headers.len(), 2);
    assert_eq!(back.headers[0].name, b"Content-Length".to_vec());
    assert_eq!(back.headers[1].name, b"ETag".to_vec());
}

#[test]
fn relay_then_return_matches_direct_exchange() {
    let local = peer(0xa, RoleSet::none().with(Role::Scheduler), None);
    let mut v = MembershipView::new();
    v.join(peer(0xb, RoleSet::none().with(Role::Runner), Some(Addr { ip: 9, port: 8100 })));
    let req = request(b"/v1/jobs/hello/run", Vec::new());
    let decision = v.decide_route(&local, &req, 0);
    assert_eq!(
        decision,
        RelayDecision::Relay { peer: 0xb, addr: Addr { ip: 9, port: 8100 } }
    );
    let fwd = build_relay_request(&req, 0xa);
    assert_eq!(fwd.body, req.body);
    let upstream = Response { status: 200, headers: Vec::new(), body: vec![0xaa, 0xbb] };
    let back = build_return_response(&upstream);
    assert_eq!(back.status, 200);
    assert_eq!(back.body, vec![0xaa, 0xbb]);
}

#[test]
fn id_hex_is_32_lowercase_digits() {
    let h = id_hex(0x00112233445566778899aabbccddeeff);
    assert_eq!(h, b"00112233445566778899aabbccddeeff".to_vec());
    assert_eq!(id_hex(0).len(), 32);
}

#[test]
fn error_kinds_map_to_their_statuses() {
    assert_eq!(status_of(ErrorKind::NotFound), 404);
    assert_eq!(status_of(ErrorKind::InvalidTransition), 400);
    assert_eq!(status_of(ErrorKind::NoPeerForRole), 503);
    assert_eq!(status_of(ErrorKind::RelayFailedMidStream), 502);
    assert_eq!(status_of(ErrorKind::RelayFailedPreStream), 503);
    assert_eq!(status_of(ErrorKind::LoopDetected), 508);
    assert_eq!(status_of(ErrorKind::PayloadTooLarge), 413);
    assert_eq!(status_of(ErrorKind::RelayTimeout), 504);
    assert_eq!(status_of(ErrorKind::Internal), 500);
}

#[test]
fn body_limit_is_100_mib() {
    assert_eq!(MAX_BODY_BYTES, 100 * 1024 * 1024);
    assert!(body_within_limit(MAX_BODY_BYTES));
    assert!(!body_within_limit(MAX_BODY_BYTES + 1));
}

#[test]
fn counter_key_names_role_and_path() {
    let key = proxy_counter_key(Role::Scheduler, &b"/v1/scheduler/claim".to_vec());
    assert_eq!(key, b"proxy:scheduler:/v1/scheduler/claim".to_vec());
}
