//! Peer capability roles and the bitset they travel in on the wire.
use vstd::prelude::*;

verus! {

/// A capability a peer can advertise. The set is closed; unknown wire bits
/// are carried along but never matched locally.
#[derive(Clone, Copy, Debug, PartialEq, Eq, Structural)]
pub enum Role {
    Scheduler,
    Runner,
    Storage,
    Client,
    Observer,
}

/// A set of roles, as carried in peer metadata. The five known roles are
/// explicit; bits above them, seen on the wire from newer peers, are kept
/// verbatim in `unknown_bits` so relaying preserves them.
#[derive(Clone, Copy, Debug, PartialEq, Eq, Structural)]
pub struct RoleSet {
    pub scheduler: bool,
    pub runner: bool,
    pub storage: bool,
    pub client: bool,
    pub observer: bool,
    pub unknown_bits: u32,
}

impl RoleSet {
    /// The unknown bits sit above the five known ones.
    pub open spec fn wf(self) -> bool {
        self.unknown_bits % 32 == 0
    }

    pub open spec fn spec_has(self, r: Role) -> bool {
        match r {
            Role::Scheduler => self.scheduler,
            Role::Runner => self.runner,
            Role::Storage => self.storage,
            Role::Client => self.client,
            Role::Observer => self.observer,
        }
    }

    /// The wire image of the set: one bit per known role, unknown bits kept.
    pub open spec fn spec_bits(self) -> u32 {
        ((if self.scheduler {
            1int
        } else {
            0int
        }) + (if self.runner {
            2int
        } else {
            0int
        }) + (if self.storage {
            4int
        } else {
            0int
        }) + (if self.client {
            8int
        } else {
            0int
        }) + (if self.observer {
            16int
        } else {
            0int
        }) + self.unknown_bits) as u32
    }

    /// The role set a wire word denotes.
    pub open spec fn spec_from_bits(b: u32) -> RoleSet {
        RoleSet {
            scheduler: b % 2 == 1,
            runner: b / 2 % 2 == 1,
            storage: b / 4 % 2 == 1,
            client: b / 8 % 2 == 1,
            observer: b / 16 % 2 == 1,
            unknown_bits: (b / 32 * 32) as u32,
        }
    }

    /// The set carrying no role at all.
    pub fn none() -> (r: RoleSet)
        ensures
            r.wf(),
            forall|q: Role| !(#[trigger] r.spec_has(q)),
            r.unknown_bits == 0,
    {
        RoleSet {
            scheduler: false,
            runner: false,
            storage: false,
            client: false,
            observer: false,
            unknown_bits: 0,
        }
    }

    pub fn has(&self, r: Role) -> (b: bool)
        ensures
            b == self.spec_has(r),
    {
        match r {
            Role::Scheduler => self.scheduler,
            Role::Runner => self.runner,
            Role::Storage => self.storage,
            Role::Client => self.client,
            Role::Observer => self.observer,
        }
    }

    /// The same set with one role added.
    pub fn with(self, r: Role) -> (s: RoleSet)
        ensures
            s.spec_has(r),
            forall|q: Role| q != r ==> #[trigger] s.spec_has(q) == self.spec_has(q),
            s.unknown_bits == self.unknown_bits,
            self.wf() ==> s.wf(),
    {
        match r {
            Role::Scheduler => RoleSet { scheduler: true, ..self },
            Role::Runner => RoleSet { runner: true, ..self },
            Role::Storage => RoleSet { storage: true, ..self },
            Role::Client => RoleSet { client: true, ..self },
            Role::Observer => RoleSet { observer: true, ..self },
        }
    }

    /// Pack the set for the wire.
    pub fn bits(&self) -> (b: u32)
        requires
            self.wf(),
        ensures
            b == self.spec_bits(),
    {
        proof {
            assert(self.unknown_bits == 32 * (self.unknown_bits / 32));
            assert(self.unknown_bits / 32 <= 0x7ffffff);
            assert(self.unknown_bits <= 0xffffffe0u32);
        }
        let mut b: u32 = self.unknown_bits;
        if self.scheduler {
            b = b + 1;
        }
        if self.runner {
            b = b + 2;
        }
        if self.storage {
            b = b + 4;
        }
        if self.client {
            b = b + 8;
        }
        if self.observer {
            b = b + 16;
        }
        b
    }

    /// Unpack a wire word into a role set; every bit is accounted for.
    pub fn from_bits(bits: u32) -> (s: RoleSet)
        ensures
            s.wf(),
            s.spec_bits() == bits,
            s == RoleSet::spec_from_bits(bits),
    {
        let s = RoleSet {
            scheduler: bits % 2 == 1,
            runner: bits / 2 % 2 == 1,
            storage: bits / 4 % 2 == 1,
            client: bits / 8 % 2 == 1,
            observer: bits / 16 % 2 == 1,
            unknown_bits: bits / 32 * 32,
        };
        proof {
            lemma_bits_split(bits);
        }
        s
    }
}

/// A wire word is the sum of its five low bits and the rest.
proof fn lemma_bits_split(bits: u32)
    ensures
        (if bits % 2 == 1 {
            1int
        } else {
            0int
        }) + (if bits / 2 % 2 == 1 {
            2int
        } else {
            0int
        }) + (if bits / 4 % 2 == 1 {
            4int
        } else {
            0int
        }) + (if bits / 8 % 2 == 1 {
            8int
        } else {
            0int
        }) + (if bits / 16 % 2 == 1 {
            16int
        } else {
            0int
        }) + (bits / 32 * 32) == bits,
{
    let b = bits as int;
    assert(b % 2 + 2 * (b / 2 % 2) + 4 * (b / 4 % 2) + 8 * (b / 8 % 2) + 16 * (b / 16 % 2) + 32 * (b
        / 32) == b) by (nonlinear_arith);
    assert(b % 2 == 1 || b % 2 == 0);
}

/// Digit extraction from a sum of disjoint role bits and an upper word.
proof fn lemma_digit_split(sc: int, ru: int, st: int, cl: int, ob: int, q: int)
    requires
        sc == 0 || sc == 1,
        ru == 0 || ru == 2,
        st == 0 || st == 4,
        cl == 0 || cl == 8,
        ob == 0 || ob == 16,
        0 <= q,
    ensures
        (sc + ru + st + cl + ob + 32 * q) % 2 == sc,
        (sc + ru + st + cl + ob + 32 * q) / 2 % 2 == ru / 2,
        (sc + ru + st + cl + ob + 32 * q) / 4 % 2 == st / 4,
        (sc + ru + st + cl + ob + 32 * q) / 8 % 2 == cl / 8,
        (sc + ru + st + cl + ob + 32 * q) / 16 % 2 == ob / 16,
        (sc + ru + st + cl + ob + 32 * q) / 32 == q,
{
    let b = sc + ru + st + cl + ob + 32 * q;
    let h1 = ru / 2 + st / 2 + cl / 2 + ob / 2 + 16 * q;
    let h2 = st / 4 + cl / 4 + ob / 4 + 8 * q;
    let h3 = cl / 8 + ob / 8 + 4 * q;
    let h4 = ob / 16 + 2 * q;
    vstd::arithmetic::div_mod::lemma_fundamental_div_mod_converse(b, 2, h1, sc);
    vstd::arithmetic::div_mod::lemma_fundamental_div_mod_converse(h1, 2, h2, ru / 2);
    vstd::arithmetic::div_mod::lemma_fundamental_div_mod_converse(h2, 2, h3, st / 4);
    vstd::arithmetic::div_mod::lemma_fundamental_div_mod_converse(h3, 2, h4, cl / 8);
    vstd::arithmetic::div_mod::lemma_fundamental_div_mod_converse(h4, 2, q, ob / 16);
    vstd::arithmetic::div_mod::lemma_div_denominator(b, 2, 2);
    assert(b / 4 == h2);
    vstd::arithmetic::div_mod::lemma_div_denominator(b, 4, 2);
    assert(b / 8 == h3);
    vstd::arithmetic::div_mod::lemma_div_denominator(b, 8, 2);
    assert(b / 16 == h4);
    vstd::arithmetic::div_mod::lemma_div_denominator(b, 16, 2);
    assert(b / 32 == q);
}

/// Packing and unpacking a well-formed role set gives the set back.
pub proof fn lemma_roles_round_trip(s: RoleSet)
    requires
        s.wf(),
    ensures
        RoleSet::spec_from_bits(s.spec_bits()) == s,
{
    let sc = if s.scheduler {
        1int
    } else {
        0int
    };
    let ru = if s.runner {
        2int
    } else {
        0int
    };
    let st = if s.storage {
        4int
    } else {
        0int
    };
    let cl = if s.client {
        8int
    } else {
        0int
    };
    let ob = if s.observer {
        16int
    } else {
        0int
    };
    let u = s.unknown_bits as int;
    let q = u / 32;
    assert(u == 32 * q);
    assert(q <= 0x7ffffff);
    assert(u <= 0xffffffe0);
    lemma_digit_split(sc, ru, st, cl, ob, q);
    let total = sc + ru + st + cl + ob + 32 * q;
    assert(0 <= total <= 0xffffffffint);
    assert(s.spec_bits() == total);
    assert(s.spec_bits() / 32 * 32 == u);
}

} // verus!
