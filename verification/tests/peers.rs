use serval_core::peer::{Addr, PeerMetadata};
use serval_core::roles::{Role, RoleSet};

fn sample_roles() -> RoleSet {
    RoleSet::none().with(Role::Scheduler).with(Role::Runner)
}

fn sample_peer() -> PeerMetadata {
    PeerMetadata {
        peer_id: 0x00112233445566778899aabbccddeeff,
        display_name: b"agent@10.0.0.5".to_vec(),
        roles: sample_roles(),
        http_address: Some(Addr { ip: 0x0a000005, port: 8100 }),
        mesh_address: Addr { ip: 0x0a000005, port: 8181 },
    }
}

#[test]
fn role_bits_round_trip() {
    let s = sample_roles();
    let t = RoleSet::from_bits(s.bits());
    assert_eq!(t, s);
    assert!(t.has(Role::Scheduler));
    assert!(t.has(Role::Runner));
    assert!(!t.has(Role::Storage));
    assert!(!t.has(Role::Client));
    assert!(!t.has(Role::Observer));
}

#[test]
fn role_bits_values() {
    assert_eq!(RoleSet::none().with(Role::Scheduler).bits(), 1);
    assert_eq!(RoleSet::none().with(Role::Runner).bits(), 2);
    assert_eq!(RoleSet::none().with(Role::Storage).bits(), 4);
    assert_eq!(RoleSet::none().with(Role::Client).bits(), 8);
    assert_eq!(RoleSet::none().with(Role::Observer).bits(), 16);
}

#[test]
fn unknown_role_bits_survive_a_round_trip() {
    let s = RoleSet::from_bits(0x40 | 0x1);
    assert!(s.has(Role::Scheduler));
    assert_eq!(s.unknown_bits, 0x40);
    assert_eq!(s.bits(), 0x41);
}

#[test]
fn metadata_encoding_is_deterministic() {
    let a = sample_peer().encode();
    let b = sample_peer().encode();
    assert_eq!(a, b);
}

#[test]
fn metadata_decode_inverts_encode() {
    let p = sample_peer();
    let bytes = p.encode();
    let q = PeerMetadata::decode(&bytes).unwrap();
    assert_eq!(q.peer_id, p.peer_id);
    assert_eq!(q.display_name, p.display_name);
    assert_eq!(q.roles, p.roles);
    assert_eq!(q.http_address, p.http_address);
    assert_eq!(q.mesh_address, p.mesh_address);
}

#[test]
fn metadata_decode_ignores_trailing_bytes() {
    let p = sample_peer();
    let mut bytes = p.encode();
    bytes.extend_from_slice(&[0xca, 0xfe, 0xba, 0xbe]);
    let q = PeerMetadata::decode(&bytes).unwrap();
    assert_eq!(q.peer_id, p.peer_id);
    assert_eq!(q.display_name, p.display_name);
}

#[test]
fn metadata_without_http_address_round_trips() {
    let p = PeerMetadata {
        peer_id: 7,
        display_name: b"client@host".to_vec(),
        roles: RoleSet::none().with(Role::Client),
        http_address: None,
        mesh_address: Addr { ip: 1, port: 8181 },
    };
    let bytes = p.encode();
    let q = PeerMetadata::decode(&bytes).unwrap();
    assert_eq!(q.peer_id, 7);
    assert!(q.http_address.is_none());
    assert_eq!(q.mesh_address, Addr { ip: 1, port: 8181 });
    assert!(q.roles.has(Role::Client));
}

#[test]
fn metadata_decode_rejects_truncated_input() {
    let p = sample_peer();
    let bytes = p.encode();
    for cut in [0, 5, 21, bytes.len() - 1] {
        let short = bytes[..cut].to_vec();
        assert!(PeerMetadata::decode(&short).is_none());
    }
}

#[test]
fn metadata_decode_rejects_a_bad_flag() {
    let p = sample_peer();
    let mut bytes = p.encode();
    let flag_at = 22 + p.display_name.len();
    bytes[flag_at] = 9;
    assert!(PeerMetadata::decode(&bytes).is_none());
}

#[test]
fn encoding_is_big_endian_at_the_front() {
    let p = sample_peer();
    let bytes = p.encode();
    assert_eq!(bytes[0], 0x00);
    assert_eq!(bytes[1], 0x11);
    assert_eq!(bytes[15], 0xff);
    assert_eq!(&bytes[16..20], &[0, 0, 0, 3]);
    assert_eq!(&bytes[20..22], &[0, 14]);
    assert_eq!(&bytes[22..36], b"agent@10.0.0.5");
    assert_eq!(bytes[36], 1);
}
