//! Startup decisions: role flags, port selection, and the single mesh
//! advertisement an agent makes.
use vstd::prelude::*;
use vstd::string::StringExecFns;
use crate::peer::{Addr, PeerMetadata};
use crate::roles::{Role, RoleSet};

verus! {

/// How an optional role is switched on: unconditionally, by probing, or not
/// at all.
#[derive(Clone, Copy, Debug, PartialEq, Eq, Structural)]
pub enum RoleFlag {
    Always,
    Auto,
    Never,
}

/// Read a role flag from its environment value; anything unrecognized means
/// Never.
pub fn parse_role_flag(s: &str) -> (r: RoleFlag)
    ensures
        s@ == "always"@ ==> r == RoleFlag::Always,
        s@ == "auto"@ ==> r == RoleFlag::Auto,
        s@ != "always"@ && s@ != "auto"@ ==> r == RoleFlag::Never,
{
    proof {
        reveal_strlit("always");
        reveal_strlit("auto");
        assert("always"@.len() == 6);
        assert("auto"@.len() == 4);
    }
    let v = String::from_str(s);
    if v.eq(&String::from_str("always")) {
        RoleFlag::Always
    } else if v.eq(&String::from_str("auto")) {
        RoleFlag::Auto
    } else {
        RoleFlag::Never
    }
}

/// Whether the Storage role is taken: only when asked for outright; the
/// probing heuristic stays off until storage is distributed.
pub fn storage_enabled(flag: RoleFlag) -> (r: bool)
    ensures
        r == (flag == RoleFlag::Always),
{
    match flag {
        RoleFlag::Always => true,
        RoleFlag::Auto => false,
        RoleFlag::Never => false,
    }
}

/// Configuration faults that stop startup.
#[derive(Clone, Copy, Debug, PartialEq, Eq, Structural)]
pub enum ConfigError {
    /// The Runner role was demanded but the execution engine cannot run
    /// here.
    RunnerUnsupported,
}

/// Whether the Runner role is taken, given whether the execution engine is
/// available on this platform. Demanding it where the engine cannot run is a
/// fatal configuration fault.
pub fn runner_enabled(flag: RoleFlag, engine_available: bool) -> (r: Result<bool, ConfigError>)
    ensures
        flag == RoleFlag::Always && !engine_available ==> r == Err::<bool, ConfigError>(
            ConfigError::RunnerUnsupported,
        ),
        flag == RoleFlag::Always && engine_available ==> r == Ok::<bool, ConfigError>(true),
        flag == RoleFlag::Auto ==> r == Ok::<bool, ConfigError>(engine_available),
        flag == RoleFlag::Never ==> r == Ok::<bool, ConfigError>(false),
{
    match flag {
        RoleFlag::Always => {
            if engine_available {
                Ok(true)
            } else {
                Err(ConfigError::RunnerUnsupported)
            }
        },
        RoleFlag::Auto => Ok(engine_available),
        RoleFlag::Never => Ok(false),
    }
}

/// The smallest free port at or above `start`, given the ports known to be
/// taken; None when every port through 65535 is taken.
pub fn first_free_port(start: u16, taken: &Vec<u16>) -> (r: Option<u16>)
    ensures
        r matches Some(p) ==> start <= p && !taken@.contains(p) && (forall|q: u16|
            start <= q < p ==> taken@.contains(q)),
        r is None ==> forall|q: u16| start <= q ==> taken@.contains(q),
{
    let mut p: u16 = start;
    loop
        invariant
            start <= p,
            forall|q: u16| start <= q < p ==> taken@.contains(q),
        decreases 65535 - p,
    {
        let mut busy = false;
        let mut i: usize = 0;
        while i < taken.len()
            invariant
                i <= taken.len(),
                busy ==> taken@.contains(p),
                !busy ==> forall|j: int| 0 <= j < i ==> taken@[j] != p,
            decreases taken.len() - i,
        {
            if taken[i] == p {
                busy = true;
            }
            i += 1;
        }
        if !busy {
            return Some(p);
        }
        if p == 65535 {
            return None;
        }
        p += 1;
    }
}

/// The port the agent binds: a configured port is taken as-is and a clash
/// with a running service is fatal; with none configured, the scan walks up
/// from 8100 to the first free port.
pub fn select_port(predefined: Option<u16>, taken: &Vec<u16>) -> (r: Option<u16>)
    ensures
        predefined is Some ==> ((taken@.contains(predefined->0) ==> r is None) && (!taken@.contains(
            predefined->0,
        ) ==> r == predefined)),
        predefined is None ==> ((r matches Some(p) ==> 8100 <= p && !taken@.contains(p) && (forall|
            q: u16,
        |
            8100 <= q < p ==> taken@.contains(q))) && (r is None ==> (forall|q: u16|
            8100 <= q ==> taken@.contains(q)))),
{
    match predefined {
        Some(p) => {
            let mut i: usize = 0;
            while i < taken.len()
                invariant
                    i <= taken.len(),
                    predefined == Some(p),
                    forall|j: int| 0 <= j < i ==> taken@[j] != p,
                decreases taken.len() - i,
            {
                if taken[i] == p {
                    proof {
                        assert(taken@[i as int] == p);
                        assert(taken@.contains(p));
                    }
                    return None;
                }
                i += 1;
            }
            proof {
                if taken@.contains(p) {
                    let w = choose|w: int| 0 <= w < taken@.len() && taken@[w] == p;
                    assert(taken@[w] != p);
                }
            }
            Some(p)
        },
        None => first_free_port(8100, taken),
    }
}

/// The one mesh advertisement an agent makes: a single identity whose role
/// set combines Scheduler with whatever optional roles are enabled. A peer
/// is never represented twice.
pub fn advertisement(
    peer_id: u128,
    display_name: Vec<u8>,
    http: Addr,
    mesh: Addr,
    storage: bool,
    runner: bool,
) -> (p: PeerMetadata)
    ensures
        p@.peer_id == peer_id,
        p@.display_name == display_name@,
        p@.http_address == Some(http),
        p@.mesh_address == mesh,
        p@.roles.spec_has(Role::Scheduler),
        p@.roles.spec_has(Role::Storage) == storage,
        p@.roles.spec_has(Role::Runner) == runner,
        !p@.roles.spec_has(Role::Client),
        !p@.roles.spec_has(Role::Observer),
        p@.roles.wf(),
        display_name@.len() <= 0xffff ==> p.wf(),
{
    let mut roles = RoleSet::none().with(Role::Scheduler);
    if storage {
        roles = roles.with(Role::Storage);
    }
    if runner {
        roles = roles.with(Role::Runner);
    }
    PeerMetadata { peer_id, display_name, roles, http_address: Some(http), mesh_address: mesh }
}

/// The transient identity a client takes to discover the mesh: the Client
/// role only, no inbound HTTP address.
pub fn client_metadata(peer_id: u128, display_name: Vec<u8>, mesh: Addr) -> (p: PeerMetadata)
    ensures
        p@.peer_id == peer_id,
        p@.display_name == display_name@,
        p@.http_address is None,
        p@.mesh_address == mesh,
        p@.roles.spec_has(Role::Client),
        !p@.roles.spec_has(Role::Scheduler),
        !p@.roles.spec_has(Role::Runner),
        !p@.roles.spec_has(Role::Storage),
        !p@.roles.spec_has(Role::Observer),
        p@.roles.wf(),
        display_name@.len() <= 0xffff ==> p.wf(),
{
    PeerMetadata {
        peer_id,
        display_name,
        roles: RoleSet::none().with(Role::Client),
        http_address: None,
        mesh_address: mesh,
    }
}

} // verus!
