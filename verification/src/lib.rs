//! Service core of a peer-to-peer code-collaboration node: node identities and
//! signatures, the routing table, peer sessions, the gossip state machine, and
//! the verification of signed references in a replicated repository.

pub mod bytes;
pub mod clock;
pub mod crypto;
pub mod identity;
pub mod lookup;
pub mod net;
pub mod git;
pub mod storage;
pub mod service;
