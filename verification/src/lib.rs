//! Core of a peer-to-peer fleet of job-running agents: the in-memory job
//! queue with its enqueue/claim/complete lifecycle, peer metadata with its
//! gossip wire form, the membership view with role lookup, the relay
//! middleware's decision logic, and the agent's startup decisions.

pub mod config;
pub mod jobs;
pub mod mesh;
pub mod peer;
pub mod proxy;
pub mod roles;
pub mod urls;
pub mod wire;
