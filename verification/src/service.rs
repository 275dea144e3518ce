//! The membership service: authorization and mutation over the membership
//! relation.
//!
//! Four operations are offered. Listing a user's workspaces is open to the
//! user itself. The other three act on one workspace and are gated: a
//! workspace no row records answers `NotFound`, and a caller without a
//! membership row there answers `Forbidden`. Mutations deduplicate their
//! email list case-insensitively, resolve each email through the directory,
//! and never leave a workspace without members.

use vstd::prelude::*;

use crate::directory::{resolve_spec, DirEntry, UserDirectory};
use crate::email::{all_emails_ok, check_emails, dedup, dedup_emails};
use crate::ids::{Member, Role, Row, UserId, WorkspaceId};
use crate::store::{
    contains_pair, member_count, members_of, remove_rows, workspace_exists, workspaces_of,
    MembershipStore,
};

verus! {

/// The failures an operation can answer with.
#[derive(Clone, Copy, PartialEq, Eq, Structural, Debug)]
pub enum ServiceError {
    /// The request itself is malformed: an empty email list, or an email
    /// without the shape `local@domain`.
    InvalidInput,
    /// No row records the named workspace.
    NotFound,
    /// The caller has no membership row for the workspace.
    Forbidden,
    /// The operation would leave the workspace without members.
    InvariantViolation,
    /// The store could not be reached. The in-memory model store is always
    /// reachable; a deployment's persistence adapter answers with this kind.
    StorageUnavailable,
}

/// What an add operation reports back: the emails of the request, after
/// deduplication, that resolved to no known user. They were skipped, not
/// applied, and the caller learns so rather than reading silence as success.
#[derive(Debug)]
pub struct AddReport {
    pub unresolved: Vec<String>,
}

/// The shared gate of the mutation operations: the request must carry at
/// least one well-formed email, the workspace must exist, and the caller must
/// be one of its members — in that order of precedence.
pub open spec fn gate(
    rows: Seq<Row>,
    caller: UserId,
    w: WorkspaceId,
    es: Seq<Seq<char>>,
) -> Option<ServiceError> {
    if es.len() == 0 || !all_emails_ok(es) {
        Some(ServiceError::InvalidInput)
    } else if !workspace_exists(rows, w) {
        Some(ServiceError::NotFound)
    } else if !contains_pair(rows, w, caller) {
        Some(ServiceError::Forbidden)
    } else {
        None
    }
}

/// The emails of a batch that resolve to no user, in batch order.
pub open spec fn unresolved_of(entries: Seq<DirEntry>, es: Seq<Seq<char>>) -> Seq<Seq<char>>
    decreases es.len(),
{
    if es.len() == 0 {
        Seq::empty()
    } else {
        let prefix = unresolved_of(entries, es.drop_last());
        if resolve_spec(entries, es.last()) is None {
            prefix.push(es.last())
        } else {
            prefix
        }
    }
}

/// The users the emails of a batch resolve to, in batch order.
pub open spec fn resolved_users(entries: Seq<DirEntry>, es: Seq<Seq<char>>) -> Seq<UserId>
    decreases es.len(),
{
    if es.len() == 0 {
        Seq::empty()
    } else {
        let prefix = resolved_users(entries, es.drop_last());
        match resolve_spec(entries, es.last()) {
            Some(u) => prefix.push(u),
            None => prefix,
        }
    }
}

/// The relation after adding a batch of emails to workspace `w`: each email
/// in turn resolves and, when its user is not yet a member, appends a row
/// with the default role; anything else is a no-op for that email.
pub open spec fn add_effect(
    rows: Seq<Row>,
    entries: Seq<DirEntry>,
    w: WorkspaceId,
    es: Seq<Seq<char>>,
) -> Seq<Row>
    decreases es.len(),
{
    if es.len() == 0 {
        rows
    } else {
        let prev = add_effect(rows, entries, w, es.drop_last());
        match resolve_spec(entries, es.last()) {
            Some(u) => if contains_pair(prev, w, u) {
                prev
            } else {
                prev.push(Row { workspace: w, user: u, role: Role::Member })
            },
            None => prev,
        }
    }
}

/// Lists the workspaces the caller belongs to, in the relation's
/// deterministic row order. A workspace appears exactly when a membership row
/// links it to the caller; an empty answer is a valid one.
pub fn list_workspaces_for_user(store: &MembershipStore, caller: UserId) -> (r: Vec<WorkspaceId>)
    ensures
        r@ == workspaces_of(store@, caller),
        forall|w: WorkspaceId| r@.contains(w) <==> contains_pair(store@, w, caller),
{
    let r = store.find_workspaces_by_member(caller);
    proof {
        assert forall|w: WorkspaceId| r@.contains(w) <==> contains_pair(store@, w, caller) by {
            crate::laws::lemma_listing_matches_rows(store@, caller, w);
        }
    }
    r
}

/// Lists the members of a workspace, with their roles, in the relation's
/// deterministic row order. A workspace no row records answers `NotFound`; an
/// existing one answers `Forbidden` to every caller that is not among its
/// members.
pub fn list_members(store: &MembershipStore, caller: UserId, workspace: WorkspaceId) -> (r: Result<
    Vec<Member>,
    ServiceError,
>)
    ensures
        !workspace_exists(store@, workspace) ==> r == Err::<Vec<Member>, ServiceError>(
            ServiceError::NotFound,
        ),
        workspace_exists(store@, workspace) && !contains_pair(store@, workspace, caller) ==> r
            == Err::<Vec<Member>, ServiceError>(ServiceError::Forbidden),
        contains_pair(store@, workspace, caller) ==> (r matches Ok(ms) && ms@ == members_of(
            store@,
            workspace,
        )),
{
    if !store.workspace_known(workspace) {
        return Err(ServiceError::NotFound);
    }
    if !store.is_member(workspace, caller) {
        return Err(ServiceError::Forbidden);
    }
    Ok(store.find_members(workspace))
}

/// Adds members to a workspace by email invitation. The list is deduplicated
/// case-insensitively, first spelling kept; each email resolves through the
/// directory; a resolved user joins with the default role unless already a
/// member, which is a no-op; an unresolved email is skipped and reported.
pub fn add_members(
    store: &mut MembershipStore,
    directory: &UserDirectory,
    caller: UserId,
    workspace: WorkspaceId,
    emails: &Vec<String>,
) -> (r: Result<AddReport, ServiceError>)
    requires
        old(store).wf(),
    ensures
        final(store).wf(),
        match gate(old(store)@, caller, workspace, emails.deep_view()) {
            Some(err) => r matches Err(got) && got == err && final(store)@ == old(store)@,
            None => r matches Ok(report) && final(store)@ == add_effect(
                old(store)@,
                directory@,
                workspace,
                dedup_emails(emails.deep_view()),
            ) && report.unresolved.deep_view() == unresolved_of(
                directory@,
                dedup_emails(emails.deep_view()),
            ),
        },
{
    if emails.len() == 0 {
        return Err(ServiceError::InvalidInput);
    }
    if !check_emails(emails) {
        return Err(ServiceError::InvalidInput);
    }
    if !store.workspace_known(workspace) {
        return Err(ServiceError::NotFound);
    }
    if !store.is_member(workspace, caller) {
        return Err(ServiceError::Forbidden);
    }
    let deduped = dedup(emails);
    let ghost dd = dedup_emails(emails.deep_view());
    let mut unresolved: Vec<String> = Vec::new();
    let n = deduped.len();
    let mut i: usize = 0;
    while i < n
        invariant
            store.wf(),
            n == deduped@.len(),
            deduped.deep_view().len() == deduped@.len(),
            deduped.deep_view() == dd,
            0 <= i <= n,
            store@ == add_effect(old(store)@, directory@, workspace, dd.take(i as int)),
            unresolved.deep_view() == unresolved_of(directory@, dd.take(i as int)),
        decreases n - i,
    {
        let ghost pre = dd.take(i as int);
        let ghost cur = dd.take(i as int + 1);
        proof {
            assert(cur.drop_last() =~= pre);
            assert(cur.last() == dd[i as int]);
            assert(deduped.deep_view()[i as int] == deduped@[i as int]@);
        }
        match directory.resolve(deduped[i].as_str()) {
            Some(user) => {
                store.upsert_membership(workspace, user, Role::Member);
                proof {
                    assert(unresolved.deep_view() =~= unresolved_of(directory@, cur));
                }
            },
            None => {
                unresolved.push(deduped[i].clone());
                proof {
                    assert(unresolved.deep_view() =~= unresolved_of(directory@, cur));
                }
            },
        }
        i += 1;
    }
    proof {
        assert(dd.take(n as int) =~= dd);
    }
    Ok(AddReport { unresolved })
}

/// Removes members from a workspace by email. The list is deduplicated and
/// resolved as for adding; an email that resolves to no user, or to a user
/// who is no member, is a no-op for that entry. A batch whose removal would
/// leave the workspace without members is rejected whole, before any row is
/// deleted; otherwise the whole batch is applied.
pub fn remove_members(
    store: &mut MembershipStore,
    directory: &UserDirectory,
    caller: UserId,
    workspace: WorkspaceId,
    emails: &Vec<String>,
) -> (r: Result<(), ServiceError>)
    requires
        old(store).wf(),
    ensures
        final(store).wf(),
        match gate(old(store)@, caller, workspace, emails.deep_view()) {
            Some(err) => r == Err::<(), ServiceError>(err) && final(store)@ == old(store)@,
            None => {
                let eff = remove_rows(
                    old(store)@,
                    workspace,
                    resolved_users(directory@, dedup_emails(emails.deep_view())),
                );
                if member_count(eff, workspace) == 0 {
                    r == Err::<(), ServiceError>(ServiceError::InvariantViolation)
                        && final(store)@ == old(store)@
                } else {
                    r == Ok::<(), ServiceError>(()) && final(store)@ == eff
                }
            },
        },
        r is Err ==> final(store)@ == old(store)@,
        r is Ok ==> member_count(final(store)@, workspace) >= 1,
{
    if emails.len() == 0 {
        return Err(ServiceError::InvalidInput);
    }
    if !check_emails(emails) {
        return Err(ServiceError::InvalidInput);
    }
    if !store.workspace_known(workspace) {
        return Err(ServiceError::NotFound);
    }
    if !store.is_member(workspace, caller) {
        return Err(ServiceError::Forbidden);
    }
    let deduped = dedup(emails);
    let ghost dd = dedup_emails(emails.deep_view());
    let mut targets: Vec<UserId> = Vec::new();
    let n = deduped.len();
    let mut i: usize = 0;
    while i < n
        invariant
            n == deduped@.len(),
            deduped.deep_view().len() == deduped@.len(),
            deduped.deep_view() == dd,
            0 <= i <= n,
            targets@ == resolved_users(directory@, dd.take(i as int)),
        decreases n - i,
    {
        let ghost pre = dd.take(i as int);
        let ghost cur = dd.take(i as int + 1);
        proof {
            assert(cur.drop_last() =~= pre);
            assert(cur.last() == dd[i as int]);
            assert(deduped.deep_view()[i as int] == deduped@[i as int]@);
        }
        match directory.resolve(deduped[i].as_str()) {
            Some(user) => {
                targets.push(user);
            },
            None => {},
        }
        i += 1;
    }
    proof {
        assert(dd.take(n as int) =~= dd);
    }
    let surviving = store.count_surviving(workspace, &targets);
    if surviving == 0 {
        return Err(ServiceError::InvariantViolation);
    }
    store.retain_surviving(workspace, &targets);
    Ok(())
}

} // verus!
