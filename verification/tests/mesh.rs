use serval_core::mesh::{DiscoveryError, MembershipView};
use serval_core::peer::{Addr, PeerMetadata};
use serval_core::roles::{Role, RoleSet};

fn peer(id: u128, roles: RoleSet, http: Option<Addr>) -> PeerMetadata {
    PeerMetadata {
        peer_id: id,
        display_name: b"peer".to_vec(),
        roles,
        http_address: http,
        mesh_address: Addr { ip: 1, port: 8181 },
    }
}

#[test]
fn join_then_leave_removes_the_peer() {
    let mut v = MembershipView::new();
    v.join(peer(1, RoleSet::none().with(Role::Scheduler), None));
    assert!(v.contains(1));
    v.leave(1);
    assert!(!v.contains(1));
    assert_eq!(v.len(), 0);
}

#[test]
fn rejoin_replaces_metadata_without_duplicating() {
    let mut v = MembershipView::new();
    v.join(peer(1, RoleSet::none().with(Role::Scheduler), None));
    v.join(peer(1, RoleSet::none().with(Role::Runner), None));
    assert_eq!(v.len(), 1);
    assert!(v.find_role(Role::Runner, 0).is_some());
    assert!(v.find_role(Role::Scheduler, 0).is_none());
}

#[test]
fn find_role_returns_a_peer_with_the_role() {
    let mut v = MembershipView::new();
    v.join(peer(1, RoleSet::none().with(Role::Scheduler), None));
    v.join(peer(2, RoleSet::none().with(Role::Runner), None));
    let p = v.find_role(Role::Runner, 0).unwrap();
    assert_eq!(p.peer_id, 2);
    assert!(v.find_role(Role::Storage, 0).is_none());
}

#[test]
fn find_role_reachable_needs_an_http_address() {
    let mut v = MembershipView::new();
    v.join(peer(1, RoleSet::none().with(Role::Runner), None));
    assert!(v.find_role(Role::Runner, 0).is_some());
    assert!(v.find_role_reachable(Role::Runner, 0).is_none());
    v.join(peer(2, RoleSet::none().with(Role::Runner), Some(Addr { ip: 9, port: 8100 })));
    let p = v.find_role_reachable(Role::Runner, 0).unwrap();
    assert_eq!(p.peer_id, 2);
}

#[test]
fn rotation_walks_all_capable_peers() {
    let mut v = MembershipView::new();
    for id in 1..4u128 {
        v.join(peer(
            id,
            RoleSet::none().with(Role::Runner),
            Some(Addr { ip: id as u32, port: 8100 }),
        ));
    }
    let mut seen = Vec::new();
    for rot in 0..3usize {
        seen.push(v.find_role_reachable(Role::Runner, rot).unwrap().peer_id);
    }
    seen.sort();
    assert_eq!(seen, vec![1, 2, 3]);
}

#[test]
fn discover_address_finds_the_serving_peer() {
    let mut v = MembershipView::new();
    v.join(peer(1, RoleSet::none().with(Role::Client), None));
    v.join(peer(2, RoleSet::none().with(Role::Runner), Some(Addr { ip: 7, port: 8101 })));
    assert_eq!(v.discover_address(Role::Runner, 0), Ok(Addr { ip: 7, port: 8101 }));
}

#[test]
fn discover_address_reports_a_missing_role() {
    let mut v = MembershipView::new();
    v.join(peer(1, RoleSet::none().with(Role::Client), None));
    assert_eq!(v.discover_address(Role::Scheduler, 0), Err(DiscoveryError::NoPeer));
}

#[test]
fn discover_address_reports_an_unreachable_peer() {
    let mut v = MembershipView::new();
    v.join(peer(1, RoleSet::none().with(Role::Runner), None));
    assert_eq!(
        v.discover_address(Role::Runner, 0),
        Err(DiscoveryError::PeerLacksAddress)
    );
}

#[test]
fn peer_at_walks_the_snapshot() {
    let mut v = MembershipView::new();
    v.join(peer(5, RoleSet::none().with(Role::Observer), None));
    assert_eq!(v.len(), 1);
    assert_eq!(v.peer_at(0).peer_id, 5);
}
