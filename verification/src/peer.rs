//! Peer identity and metadata, and its deterministic gossip wire form.
use vstd::prelude::*;
use crate::roles::RoleSet;
use crate::wire::{be_bytes, be_val, pow256, push_be, push_range, copy_range, read_be};
use crate::wire::{lemma_be_bytes_len, lemma_be_val_bound, lemma_be_round_trip, lemma_pow256_16};

verus! {

/// An IPv4 socket address as plain numbers.
#[derive(Clone, Copy, Debug, PartialEq, Eq, Structural)]
pub struct Addr {
    pub ip: u32,
    pub port: u16,
}

/// Everything a peer advertises about itself: identity, a human-readable
/// name, its capability roles, an HTTP address when it accepts requests, and
/// the gossip address it is reachable on. Immutable for the peer's lifetime
/// in the mesh.
pub struct PeerMetadata {
    pub peer_id: u128,
    pub display_name: Vec<u8>,
    pub roles: RoleSet,
    pub http_address: Option<Addr>,
    pub mesh_address: Addr,
}

/// Mathematical image of a `PeerMetadata`.
pub struct PeerModel {
    pub peer_id: u128,
    pub display_name: Seq<u8>,
    pub roles: RoleSet,
    pub http_address: Option<Addr>,
    pub mesh_address: Addr,
}

impl View for PeerMetadata {
    type V = PeerModel;

    open spec fn view(&self) -> PeerModel {
        PeerModel {
            peer_id: self.peer_id,
            display_name: self.display_name@,
            roles: self.roles,
            http_address: self.http_address,
            mesh_address: self.mesh_address,
        }
    }
}

/// A peer record fit for the wire: the name fits its two-byte length field
/// and the role word is well-formed.
pub open spec fn peer_wf(m: PeerModel) -> bool {
    &&& m.display_name.len() <= 0xffff
    &&& m.roles.wf()
}

/// The wire form of an address: four ip bytes, two port bytes, big-endian.
pub open spec fn encode_addr(a: Addr) -> Seq<u8> {
    be_bytes(a.ip as int, 4) + be_bytes(a.port as int, 2)
}

/// The deterministic wire form of a peer record: id, role word, name length,
/// name bytes, an address-presence flag with the HTTP address when present,
/// then the mesh address. Decoders ignore anything after it, so newer peers
/// may append fields.
pub open spec fn encode_peer(m: PeerModel) -> Seq<u8> {
    be_bytes(m.peer_id as int, 16) + be_bytes(m.roles.spec_bits() as int, 4) + be_bytes(
        m.display_name.len() as int,
        2,
    ) + m.display_name + (match m.http_address {
        Option::Some(a) => seq![1u8] + encode_addr(a),
        Option::None => seq![0u8],
    }) + encode_addr(m.mesh_address)
}

/// The address written at offset `at`.
pub open spec fn decode_addr(s: Seq<u8>, at: int) -> Addr {
    Addr {
        ip: be_val(s.subrange(at, at + 4)) as u32,
        port: be_val(s.subrange(at + 4, at + 6)) as u16,
    }
}

/// What a wire string denotes, if anything: the inverse of `encode_peer`,
/// indifferent to trailing bytes.
pub open spec fn decode_peer(s: Seq<u8>) -> Option<PeerModel> {
    if s.len() < 22 {
        Option::None
    } else {
        let nlen = be_val(s.subrange(20, 22));
        if s.len() < 23 + nlen {
            Option::None
        } else {
            let flag = s[22 + nlen];
            let body = 23 + nlen;
            if flag == 1u8 {
                if s.len() < body + 12 {
                    Option::None
                } else {
                    Option::Some(
                        PeerModel {
                            peer_id: be_val(s.subrange(0, 16)) as u128,
                            display_name: s.subrange(22, 22 + nlen),
                            roles: RoleSet::spec_from_bits(be_val(s.subrange(16, 20)) as u32),
                            http_address: Option::Some(decode_addr(s, body)),
                            mesh_address: decode_addr(s, body + 6),
                        },
                    )
                }
            } else if flag == 0u8 {
                if s.len() < body + 6 {
                    Option::None
                } else {
                    Option::Some(
                        PeerModel {
                            peer_id: be_val(s.subrange(0, 16)) as u128,
                            display_name: s.subrange(22, 22 + nlen),
                            roles: RoleSet::spec_from_bits(be_val(s.subrange(16, 20)) as u32),
                            http_address: Option::None,
                            mesh_address: decode_addr(s, body),
                        },
                    )
                }
            } else {
                Option::None
            }
        }
    }
}

/// Values of the small byte widths used by the format.
proof fn lemma_small_pows()
    ensures
        pow256(2) == 0x10000,
        pow256(4) == 0x100000000,
{
    reveal_with_fuel(pow256, 5);
}

impl PeerMetadata {
    pub open spec fn wf(self) -> bool {
        peer_wf(self@)
    }

    /// Pack the record for the wire. Identical records give identical bytes.
    pub fn encode(&self) -> (r: Vec<u8>)
        requires
            self.wf(),
        ensures
            r@ == encode_peer(self@),
    {
        proof {
            lemma_pow256_16();
            lemma_small_pows();
        }
        let mut out: Vec<u8> = Vec::new();
        push_be(&mut out, self.peer_id, 16);
        push_be(&mut out, self.roles.bits() as u128, 4);
        push_be(&mut out, self.display_name.len() as u128, 2);
        push_range(&mut out, &self.display_name, 0, self.display_name.len());
        proof {
            assert(self.display_name@.subrange(0, self.display_name@.len() as int)
                =~= self.display_name@);
        }
        match &self.http_address {
            Option::Some(a) => {
                out.push(1u8);
                push_be(&mut out, a.ip as u128, 4);
                push_be(&mut out, a.port as u128, 2);
            },
            Option::None => {
                out.push(0u8);
            },
        }
        push_be(&mut out, self.mesh_address.ip as u128, 4);
        push_be(&mut out, self.mesh_address.port as u128, 2);
        proof {
            assert(out@ =~= encode_peer(self@));
        }
        out
    }

    /// Unpack a wire string; trailing bytes are ignored. Gives back exactly
    /// what `decode_peer` says the bytes denote.
    pub fn decode(bytes: &Vec<u8>) -> (r: Option<PeerMetadata>)
        ensures
            (match r {
                Option::Some(p) => Option::Some(p@),
                Option::None => Option::None,
            }) == decode_peer(bytes@),
            r matches Some(p) ==> p.wf(),
    {
        proof {
            lemma_pow256_16();
            lemma_small_pows();
        }
        let blen = bytes.len();
        if blen < 22 {
            return None;
        }
        let id = read_be(bytes, 0, 16);
        let bits128 = read_be(bytes, 16, 4);
        proof {
            lemma_be_val_bound(bytes@.subrange(16, 20));
        }
        let bits = bits128 as u32;
        let nlen128 = read_be(bytes, 20, 2);
        proof {
            lemma_be_val_bound(bytes@.subrange(20, 22));
        }
        let nlen = nlen128 as usize;
        if blen < 23 + nlen {
            return None;
        }
        let name = copy_range(bytes, 22, 22 + nlen);
        let flag = bytes[22 + nlen];
        let body = 23 + nlen;
        let roles = RoleSet::from_bits(bits);
        if flag == 1 {
            if blen < body + 12 {
                return None;
            }
            let hip = read_be(bytes, body, 4);
            let hport = read_be(bytes, body + 4, 2);
            let mip = read_be(bytes, body + 6, 4);
            let mport = read_be(bytes, body + 10, 2);
            proof {
                lemma_be_val_bound(bytes@.subrange(body as int, body + 4));
                lemma_be_val_bound(bytes@.subrange(body + 4, body + 6));
                lemma_be_val_bound(bytes@.subrange(body + 6, body + 10));
                lemma_be_val_bound(bytes@.subrange(body + 10, body + 12));
            }
            Some(
                PeerMetadata {
                    peer_id: id,
                    display_name: name,
                    roles,
                    http_address: Some(Addr { ip: hip as u32, port: hport as u16 }),
                    mesh_address: Addr { ip: mip as u32, port: mport as u16 },
                },
            )
        } else if flag == 0 {
            if blen < body + 6 {
                return None;
            }
            let mip = read_be(bytes, body, 4);
            let mport = read_be(bytes, body + 4, 2);
            proof {
                lemma_be_val_bound(bytes@.subrange(body as int, body + 4));
                lemma_be_val_bound(bytes@.subrange(body + 4, body + 6));
            }
            Some(
                PeerMetadata {
                    peer_id: id,
                    display_name: name,
                    roles,
                    http_address: None,
                    mesh_address: Addr { ip: mip as u32, port: mport as u16 },
                },
            )
        } else {
            None
        }
    }
}

/// Decoding an encoded record, with any bytes appended, gives the record
/// back: the format is self-delimiting and forward-compatible.
pub proof fn lemma_peer_round_trip(m: PeerModel, tail: Seq<u8>)
    requires
        peer_wf(m),
    ensures
        decode_peer(encode_peer(m) + tail) == Option::Some(m),
{
    lemma_pow256_16();
    lemma_small_pows();
    let s = encode_peer(m) + tail;
    let ida = be_bytes(m.peer_id as int, 16);
    let rola = be_bytes(m.roles.spec_bits() as int, 4);
    let lena = be_bytes(m.display_name.len() as int, 2);
    let nm = m.display_name;
    let nlen = nm.len() as int;
    let httpa = match m.http_address {
        Option::Some(a) => seq![1u8] + encode_addr(a),
        Option::None => seq![0u8],
    };
    let mesha = encode_addr(m.mesh_address);
    lemma_be_bytes_len(m.peer_id as int, 16);
    lemma_be_bytes_len(m.roles.spec_bits() as int, 4);
    lemma_be_bytes_len(m.display_name.len() as int, 2);
    lemma_be_bytes_len(m.mesh_address.ip as int, 4);
    lemma_be_bytes_len(m.mesh_address.port as int, 2);
    if m.http_address is Some {
        lemma_be_bytes_len(m.http_address->0.ip as int, 4);
        lemma_be_bytes_len(m.http_address->0.port as int, 2);
        assert(httpa.len() == 7);
    } else {
        assert(httpa.len() == 1);
    }
    assert(mesha.len() == 6);
    assert(s.len() == 22 + nlen + httpa.len() + 6 + tail.len());
    assert(s.subrange(0, 16) =~= ida);
    assert(s.subrange(16, 20) =~= rola);
    assert(s.subrange(20, 22) =~= lena);
    lemma_be_round_trip(m.peer_id as int, 16);
    lemma_be_round_trip(m.roles.spec_bits() as int, 4);
    lemma_be_round_trip(m.display_name.len() as int, 2);
    assert(be_val(s.subrange(20, 22)) == nlen);
    assert(be_val(s.subrange(0, 16)) as u128 == m.peer_id);
    assert(be_val(s.subrange(16, 20)) as u32 == m.roles.spec_bits());
    crate::roles::lemma_roles_round_trip(m.roles);
    assert(s.subrange(22, 22 + nlen) =~= nm);
    let body = 23 + nlen;
    match m.http_address {
        Option::Some(a) => {
            assert(s[22 + nlen] == 1u8);
            assert(s.len() >= body + 12);
            assert(s.subrange(body, body + 4) =~= be_bytes(a.ip as int, 4));
            assert(s.subrange(body + 4, body + 6) =~= be_bytes(a.port as int, 2));
            assert(s.subrange(body + 6, body + 10) =~= be_bytes(m.mesh_address.ip as int, 4));
            assert(s.subrange(body + 10, body + 12) =~= be_bytes(m.mesh_address.port as int, 2));
            lemma_be_round_trip(a.ip as int, 4);
            lemma_be_round_trip(a.port as int, 2);
            lemma_be_round_trip(m.mesh_address.ip as int, 4);
            lemma_be_round_trip(m.mesh_address.port as int, 2);
            assert(decode_addr(s, body) == a);
            assert(decode_addr(s, body + 6) == m.mesh_address);
        },
        Option::None => {
            assert(s[22 + nlen] == 0u8);
            assert(s.len() >= body + 6);
            assert(s.subrange(body, body + 4) =~= be_bytes(m.mesh_address.ip as int, 4));
            assert(s.subrange(body + 4, body + 6) =~= be_bytes(m.mesh_address.port as int, 2));
            lemma_be_round_trip(m.mesh_address.ip as int, 4);
            lemma_be_round_trip(m.mesh_address.port as int, 2);
            assert(decode_addr(s, body) == m.mesh_address);
        },
    }
}

} // verus!
