//! Identifier and row types of the membership relation.

use vstd::prelude::*;

verus! {

/// A user's stable identity: an opaque 128-bit unique identifier, produced by
/// the identity layer before a request reaches this library.
#[derive(Clone, Copy, PartialEq, Eq, Structural, Debug, Hash)]
pub struct UserId(pub u128);

/// A workspace's identity: an opaque 128-bit unique identifier.
#[derive(Clone, Copy, PartialEq, Eq, Structural, Debug, Hash)]
pub struct WorkspaceId(pub u128);

/// The role a membership row records. Mutations made through this library
/// insert `Member`, the default role; `Owner` can be seeded through the
/// store's own interface.
#[derive(Clone, Copy, PartialEq, Eq, Structural, Debug)]
pub enum Role {
    Owner,
    Member,
}

/// One row of the membership relation: `user` belongs to `workspace` with
/// `role`.
#[derive(Clone, Copy, PartialEq, Eq, Structural, Debug)]
pub struct Row {
    pub workspace: WorkspaceId,
    pub user: UserId,
    pub role: Role,
}

/// A member of a workspace as reported by a listing: the user and the role
/// the relation records for it.
#[derive(Clone, Copy, PartialEq, Eq, Structural, Debug)]
pub struct Member {
    pub user: UserId,
    pub role: Role,
}

} // verus!
