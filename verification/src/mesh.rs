//! The membership view: the live peers as the gossip layer reports them,
//! with role lookup for routing.
use vstd::prelude::*;
use crate::peer::{Addr, PeerMetadata, PeerModel};
use crate::roles::Role;

verus! {

/// Some peer in the view carries the id.
pub open spec fn has_peer(s: Seq<PeerModel>, id: u128) -> bool {
    exists|i: int| 0 <= i < s.len() && #[trigger] s[i].peer_id == id
}

/// The index of the peer carrying `id`; meaningful under `has_peer` and
/// unique ids.
pub open spec fn peer_index(s: Seq<PeerModel>, id: u128) -> int {
    choose|i: int| 0 <= i < s.len() && #[trigger] s[i].peer_id == id
}

/// Some peer in the view advertises the role and accepts HTTP requests.
pub open spec fn role_reachable(s: Seq<PeerModel>, role: Role) -> bool {
    exists|i: int|
        0 <= i < s.len() && (#[trigger] s[i].roles.spec_has(role)) && s[i].http_address is Some
}

/// Every peer appears at most once: one mesh identity per process.
pub open spec fn peers_unique(s: Seq<PeerModel>) -> bool {
    forall|i: int, j: int|
        0 <= i < j < s.len() ==> #[trigger] s[i].peer_id != #[trigger] s[j].peer_id
}

/// The view after a peer joins (or rejoins with fresh metadata).
pub open spec fn join_step(s: Seq<PeerModel>, p: PeerModel) -> Seq<PeerModel> {
    if has_peer(s, p.peer_id) {
        s.update(peer_index(s, p.peer_id), p)
    } else {
        s.push(p)
    }
}

/// The view after a peer leaves.
pub open spec fn leave_step(s: Seq<PeerModel>, id: u128) -> Seq<PeerModel> {
    if has_peer(s, id) {
        s.remove(peer_index(s, id))
    } else {
        s
    }
}

/// A mapping from peer id to metadata of the currently-live peers.
pub struct MembershipView {
    peers: Vec<PeerMetadata>,
}

impl View for MembershipView {
    type V = Seq<PeerModel>;

    closed spec fn view(&self) -> Seq<PeerModel> {
        self.peers@.map_values(|p: PeerMetadata| p@)
    }
}

/// With unique ids, `peer_index` names the one position holding a given id.
pub proof fn lemma_peer_index_of(s: Seq<PeerModel>, i: int)
    requires
        peers_unique(s),
        0 <= i < s.len(),
    ensures
        peer_index(s, s[i].peer_id) == i,
{
    assert(has_peer(s, s[i].peer_id));
    let k = peer_index(s, s[i].peer_id);
    if k < i {
        assert(s[k].peer_id != s[i].peer_id);
    } else if i < k {
        assert(s[i].peer_id != s[k].peer_id);
    }
}

impl MembershipView {
    pub open spec fn wf(self) -> bool {
        peers_unique(self@)
    }

    /// An empty view: nobody seen yet.
    pub fn new() -> (v: MembershipView)
        ensures
            v.wf(),
            v@.len() == 0,
    {
        MembershipView { peers: Vec::new() }
    }

    /// Index of the peer carrying `id`, if any.
    fn find_peer(&self, id: u128) -> (r: Option<usize>)
        ensures
            match r {
                Some(i) => i < self@.len() && self@[i as int].peer_id == id,
                None => !has_peer(self@, id),
            },
    {
        let mut i: usize = 0;
        while i < self.peers.len()
            invariant
                i <= self@.len(),
                forall|j: int| 0 <= j < i ==> #[trigger] self@[j].peer_id != id,
            decreases self@.len() - i,
        {
            if self.peers[i].peer_id == id {
                return Some(i);
            }
            i += 1;
        }
        None
    }

    pub fn contains(&self, id: u128) -> (r: bool)
        ensures
            r == has_peer(self@, id),
    {
        self.find_peer(id).is_some()
    }

    /// A peer joins, or rejoins with fresh metadata: its record replaces any
    /// earlier one under the same id.
    pub fn join(&mut self, p: PeerMetadata)
        requires
            old(self).wf(),
        ensures
            final(self).wf(),
            final(self)@ == join_step(old(self)@, p@),
            has_peer(final(self)@, p@.peer_id),
    {
        let ghost s = self@;
        match self.find_peer(p.peer_id) {
            Some(i) => {
                proof {
                    lemma_peer_index_of(s, i as int);
                }
                let ghost pid = p@.peer_id;
                self.peers.set(i, p);
                proof {
                    assert(self@ =~= s.update(i as int, p@));
                    assert(self@[i as int].peer_id == pid);
                    assert forall|a: int, b: int| 0 <= a < b < self@.len() implies #[trigger] self@[a].peer_id
                        != #[trigger] self@[b].peer_id by {
                        if a != i && b != i {
                            assert(self@[a] == s[a] && self@[b] == s[b]);
                        } else if a == i {
                            assert(self@[b] == s[b] && s[i as int].peer_id == pid);
                        } else {
                            assert(self@[a] == s[a] && s[i as int].peer_id == pid);
                        }
                    }
                }
            },
            None => {
                let ghost pid = p@.peer_id;
                self.peers.push(p);
                proof {
                    assert(self@ =~= s.push(p@));
                    assert forall|a: int, b: int| 0 <= a < b < self@.len() implies #[trigger] self@[a].peer_id
                        != #[trigger] self@[b].peer_id by {
                        if b < s.len() {
                            assert(self@[a] == s[a] && self@[b] == s[b]);
                        } else {
                            assert(self@[a] == s[a]);
                            if s[a].peer_id == pid {
                                assert(has_peer(s, pid));
                            }
                        }
                    }
                    assert(self@[s.len() as int].peer_id == pid);
                }
            },
        }
    }

    /// A peer leaves: its record, if present, goes away, and the id is no
    /// longer in the view.
    pub fn leave(&mut self, id: u128)
        requires
            old(self).wf(),
        ensures
            final(self).wf(),
            final(self)@ == leave_step(old(self)@, id),
            !has_peer(final(self)@, id),
    {
        let ghost s = self@;
        match self.find_peer(id) {
            Some(i) => {
                proof {
                    lemma_peer_index_of(s, i as int);
                }
                self.peers.remove(i);
                proof {
                    assert(self@ =~= s.remove(i as int));
                    assert forall|a: int, b: int| 0 <= a < b < self@.len() implies #[trigger] self@[a].peer_id
                        != #[trigger] self@[b].peer_id by {
                        let a0 = if a < i {
                            a
                        } else {
                            a + 1
                        };
                        let b0 = if b < i {
                            b
                        } else {
                            b + 1
                        };
                        assert(self@[a] == s[a0] && self@[b] == s[b0]);
                    }
                    assert forall|j: int| 0 <= j < self@.len() implies #[trigger] self@[j].peer_id != id by {
                        let j0 = if j < i {
                            j
                        } else {
                            j + 1
                        };
                        assert(self@[j] == s[j0]);
                        if j0 != i && s[j0].peer_id == id {
                            lemma_peer_index_of(s, j0);
                        }
                    }
                }
            },
            None => {},
        }
    }

    /// How many peers are live.
    pub fn len(&self) -> (r: usize)
        ensures
            r == self@.len(),
    {
        self.peers.len()
    }

    /// The peer at a position, for walking a snapshot.
    pub fn peer_at(&self, i: usize) -> (r: &PeerMetadata)
        requires
            i < self@.len(),
        ensures
            r@ == self@[i as int],
    {
        &self.peers[i]
    }

    /// A live peer that advertises `role` and accepts HTTP, if there is one.
    /// `rotation` steps the pick round-robin so no such peer is starved;
    /// which peer comes back is otherwise unspecified.
    pub fn find_role_reachable(&self, role: Role, rotation: usize) -> (r: Option<&PeerMetadata>)
        ensures
            r is Some <==> role_reachable(self@, role),
            r matches Some(p) ==> (exists|i: int|
                0 <= i < self@.len() && self@[i] == p@) && p@.roles.spec_has(role)
                && p@.http_address is Some,
    {
        let mut matches: Vec<usize> = Vec::new();
        let mut i: usize = 0;
        while i < self.peers.len()
            invariant
                i <= self@.len(),
                forall|k: int|
                    0 <= k < matches@.len() ==> (#[trigger] matches@[k]) < i
                        && self@[matches@[k] as int].roles.spec_has(role)
                        && self@[matches@[k] as int].http_address is Some,
                forall|j: int|
                    0 <= j < i && (#[trigger] self@[j].roles.spec_has(role))
                        && self@[j].http_address is Some ==> matches@.contains(j as usize),
            decreases self@.len() - i,
        {
            if self.peers[i].roles.has(role) && self.peers[i].http_address.is_some() {
                let ghost mpre = matches@;
                matches.push(i);
                proof {
                    assert(matches@[matches@.len() - 1] == i);
                    assert forall|j: int|
                        0 <= j < i + 1 && (#[trigger] self@[j].roles.spec_has(role))
                            && self@[j].http_address is Some implies matches@.contains(j as usize) by {
                        if j < i {
                            assert(mpre.contains(j as usize));
                            let k = choose|k: int| 0 <= k < mpre.len() && mpre[k] == j as usize;
                            assert(matches@[k] == j as usize);
                        } else {
                            assert(matches@[matches@.len() - 1] == j as usize);
                        }
                    }
                }
            }
            i += 1;
        }
        if matches.len() == 0 {
            proof {
                if role_reachable(self@, role) {
                    let w = choose|w: int|
                        0 <= w < self@.len() && (#[trigger] self@[w].roles.spec_has(role))
                            && self@[w].http_address is Some;
                    assert(matches@.contains(w as usize));
                }
            }
            return None;
        }
        let pick = matches[rotation % matches.len()];
        proof {
            assert(matches@.contains(matches@[rotation as int % matches@.len() as int]));
        }
        Some(&self.peers[pick])
    }
}

/// How discovery of a serving peer can fail.
#[derive(Clone, Copy, Debug, PartialEq, Eq, Structural)]
pub enum DiscoveryError {
    /// No live peer advertises the role.
    NoPeer,
    /// A peer advertises the role but accepts no inbound requests.
    PeerLacksAddress,
}

/// Some peer in the view advertises the role, reachable or not.
pub open spec fn role_present(s: Seq<PeerModel>, role: Role) -> bool {
    exists|i: int| 0 <= i < s.len() && (#[trigger] s[i].roles.spec_has(role))
}

impl MembershipView {
    /// Any live peer advertising `role`, reachable over HTTP or not.
    /// `rotation` steps the pick round-robin; which peer comes back is
    /// otherwise unspecified.
    pub fn find_role(&self, role: Role, rotation: usize) -> (r: Option<&PeerMetadata>)
        ensures
            r is Some <==> role_present(self@, role),
            r matches Some(p) ==> (exists|i: int|
                0 <= i < self@.len() && self@[i] == p@) && p@.roles.spec_has(role),
    {
        let mut matches: Vec<usize> = Vec::new();
        let mut i: usize = 0;
        while i < self.peers.len()
            invariant
                i <= self@.len(),
                forall|k: int|
                    0 <= k < matches@.len() ==> (#[trigger] matches@[k]) < i
                        && self@[matches@[k] as int].roles.spec_has(role),
                forall|j: int|
                    0 <= j < i && (#[trigger] self@[j].roles.spec_has(role)) ==> matches@.contains(
                        j as usize,
                    ),
            decreases self@.len() - i,
        {
            if self.peers[i].roles.has(role) {
                let ghost mpre = matches@;
                matches.push(i);
                proof {
                    assert(matches@[matches@.len() - 1] == i);
                    assert forall|j: int|
                        0 <= j < i + 1 && (#[trigger] self@[j].roles.spec_has(
                            role,
                        )) implies matches@.contains(j as usize) by {
                        if j < i {
                            assert(mpre.contains(j as usize));
                            let k = choose|k: int| 0 <= k < mpre.len() && mpre[k] == j as usize;
                            assert(matches@[k] == j as usize);
                        } else {
                            assert(matches@[matches@.len() - 1] == j as usize);
                        }
                    }
                }
            }
            i += 1;
        }
        if matches.len() == 0 {
            proof {
                if role_present(self@, role) {
                    let w = choose|w: int|
                        0 <= w < self@.len() && (#[trigger] self@[w].roles.spec_has(role));
                    assert(matches@.contains(w as usize));
                }
            }
            return None;
        }
        let pick = matches[rotation % matches.len()];
        proof {
            assert(matches@.contains(matches@[rotation as int % matches@.len() as int]));
        }
        Some(&self.peers[pick])
    }

    /// The discovery bootstrap's decision: the HTTP address of some live
    /// peer advertising `role`. Failing to find any such peer, or finding
    /// one that accepts no requests, is reported apart.
    pub fn discover_address(&self, role: Role, rotation: usize) -> (r: Result<Addr, DiscoveryError>)
        ensures
            r matches Ok(a) ==> exists|i: int|
                0 <= i < self@.len() && (#[trigger] self@[i].roles.spec_has(role))
                    && self@[i].http_address == Some(a),
            r == Err::<Addr, DiscoveryError>(DiscoveryError::NoPeer) <==> !role_present(
                self@,
                role,
            ),
            r == Err::<Addr, DiscoveryError>(DiscoveryError::PeerLacksAddress) ==> exists|i: int|
                0 <= i < self@.len() && (#[trigger] self@[i].roles.spec_has(role))
                    && self@[i].http_address is None,
    {
        match self.find_role(role, rotation) {
            Some(p) => {
                match &p.http_address {
                    Some(a) => {
                        let addr = Addr { ip: a.ip, port: a.port };
                        proof {
                            let w = choose|i: int| 0 <= i < self@.len() && #[trigger] self@[i] == p@;
                            assert(self@[w].roles.spec_has(role));
                            assert(self@[w].http_address == Some(addr));
                        }
                        Ok(addr)
                    },
                    None => {
                        proof {
                            let w = choose|i: int| 0 <= i < self@.len() && #[trigger] self@[i] == p@;
                            assert(self@[w].roles.spec_has(role));
                        }
                        Err(DiscoveryError::PeerLacksAddress)
                    },
                }
            },
            None => Err(DiscoveryError::NoPeer),
        }
    }
}


/// A peer that joins and then leaves is no longer in the view: departure is
/// not sticky, whatever the view held before.
pub proof fn lemma_join_then_leave(s: Seq<PeerModel>, p: PeerModel)
    requires
        peers_unique(s),
    ensures
        !has_peer(leave_step(join_step(s, p), p.peer_id), p.peer_id),
{
    let s2 = join_step(s, p);
    assert(has_peer(s2, p.peer_id)) by {
        if has_peer(s, p.peer_id) {
            let i = peer_index(s, p.peer_id);
            assert(s2[i] == p);
        } else {
            assert(s2[s.len() as int] == p);
        }
    }
    assert(peers_unique(s2)) by {
        if has_peer(s, p.peer_id) {
            let i = peer_index(s, p.peer_id);
            assert(0 <= i < s.len() && s[i].peer_id == p.peer_id);
            assert forall|a: int, b: int| 0 <= a < b < s2.len() implies #[trigger] s2[a].peer_id
                != #[trigger] s2[b].peer_id by {
                if a != i && b != i {
                    assert(s2[a] == s[a] && s2[b] == s[b]);
                } else if a == i {
                    assert(s2[b] == s[b] && s[i].peer_id == p.peer_id);
                } else {
                    assert(s2[a] == s[a] && s[i].peer_id == p.peer_id);
                }
            }
        } else {
            assert forall|a: int, b: int| 0 <= a < b < s2.len() implies #[trigger] s2[a].peer_id
                != #[trigger] s2[b].peer_id by {
                if b < s.len() {
                    assert(s2[a] == s[a] && s2[b] == s[b]);
                } else {
                    assert(s2[a] == s[a]);
                    if s[a].peer_id == p.peer_id {
                        assert(has_peer(s, p.peer_id));
                    }
                }
            }
        }
    }
    let s3 = leave_step(s2, p.peer_id);
    let i = peer_index(s2, p.peer_id);
    assert(0 <= i < s2.len() && s2[i].peer_id == p.peer_id);
    assert forall|j: int| 0 <= j < s3.len() implies #[trigger] s3[j].peer_id != p.peer_id by {
        let j0 = if j < i {
            j
        } else {
            j + 1
        };
        assert(s3[j] == s2[j0]);
        if j0 != i && s2[j0].peer_id == p.peer_id {
            lemma_peer_index_of(s2, j0);
        }
    }
}

} // verus!
