//! Workspace membership: authorization and mutation logic for multi-tenant
//! workspaces.
//!
//! The library models the membership relation between users and workspaces and
//! enforces its invariants: a `(workspace, user)` pair is recorded at most
//! once, and no operation may leave a workspace without members. Four
//! operations are offered: listing the workspaces of a user, listing the
//! members of a workspace, and adding or removing members by email. The
//! serving layer (HTTP routing, request parsing) and the persistence driver
//! sit outside this crate; they exchange plain values with it.

pub mod directory;
pub mod email;
pub mod ids;
pub mod laws;
pub mod service;
pub mod store;
