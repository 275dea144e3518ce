use workspace_membership::directory::UserDirectory;
use workspace_membership::ids::{Member, Role, UserId, WorkspaceId};
use workspace_membership::service::{add_members, list_members, remove_members, ServiceError};
use workspace_membership::store::MembershipStore;

#[allow(non_snake_case)]
fn ADA() -> UserId {
    UserId(10)
}

#[allow(non_snake_case)]
fn BOB() -> UserId {
    UserId(20)
}

#[allow(non_snake_case)]
fn EVE() -> UserId {
    UserId(30)
}

fn emails(xs: &[&str]) -> Vec<String> {
    xs.iter().map(|s| s.to_string()).collect()
}

fn directory() -> UserDirectory {
    let mut dir = UserDirectory::new();
    assert!(dir.register("ada@x.com".to_string(), ADA()));
    assert!(dir.register("bob@x.com".to_string(), BOB()));
    assert!(dir.register("eve@x.com".to_string(), EVE()));
    dir
}

fn workspace_of_ada() -> (MembershipStore, WorkspaceId) {
    let mut store = MembershipStore::new();
    let w = WorkspaceId(1);
    store.upsert_membership(w, ADA(), Role::Owner);
    (store, w)
}

#[test]
fn add_rejects_an_empty_list() {
    let (mut store, w) = workspace_of_ada();
    let r = add_members(&mut store, &directory(), ADA(), w, &emails(&[]));
    assert_eq!(r.unwrap_err(), ServiceError::InvalidInput);
    assert_eq!(store.count_members(w), 1);
}

#[test]
fn add_rejects_a_malformed_email() {
    let (mut store, w) = workspace_of_ada();
    let r = add_members(&mut store, &directory(), ADA(), w, &emails(&["bob@x.com", "no-at-sign"]));
    assert_eq!(r.unwrap_err(), ServiceError::InvalidInput);
    assert_eq!(store.count_members(w), 1);
}

#[test]
fn add_to_an_unknown_workspace_is_not_found() {
    let (mut store, _) = workspace_of_ada();
    let r = add_members(&mut store, &directory(), ADA(), WorkspaceId(9), &emails(&["bob@x.com"]));
    assert_eq!(r.unwrap_err(), ServiceError::NotFound);
}

#[test]
fn add_by_a_non_member_is_forbidden() {
    let (mut store, w) = workspace_of_ada();
    let r = add_members(&mut store, &directory(), BOB(), w, &emails(&["eve@x.com"]));
    assert_eq!(r.unwrap_err(), ServiceError::Forbidden);
    assert_eq!(store.count_members(w), 1);
}

#[test]
fn add_invites_a_resolved_user_with_default_role() {
    let (mut store, w) = workspace_of_ada();
    let r = add_members(&mut store, &directory(), ADA(), w, &emails(&["bob@x.com"])).unwrap();
    assert!(r.unresolved.is_empty());
    let members = list_members(&store, ADA(), w).unwrap();
    let expected = vec![
        Member { user: ADA(), role: Role::Owner },
        Member { user: BOB(), role: Role::Member },
    ];
    assert_eq!(members, expected);
}

#[test]
fn add_resolves_emails_case_insensitively() {
    let (mut store, w) = workspace_of_ada();
    add_members(&mut store, &directory(), ADA(), w, &emails(&["BOB@X.COM"])).unwrap();
    assert!(store.is_member(w, BOB()));
}

#[test]
fn add_twice_leaves_a_single_row() {
    let (mut store, w) = workspace_of_ada();
    let dir = directory();
    let invite = emails(&["bob@x.com"]);
    add_members(&mut store, &dir, ADA(), w, &invite).unwrap();
    add_members(&mut store, &dir, ADA(), w, &invite).unwrap();
    assert_eq!(store.count_members(w), 2);
    assert!(store.is_member(w, BOB()));
}

#[test]
fn add_deduplicates_the_request() {
    let (mut store, w) = workspace_of_ada();
    let r = add_members(
        &mut store,
        &directory(),
        ADA(),
        w,
        &emails(&["new@x.com", "new@x.com"]),
    )
    .unwrap();
    assert_eq!(store.count_members(w), 1);
    assert_eq!(r.unresolved, emails(&["new@x.com"]));
}

#[test]
fn add_reports_an_unresolved_email_and_writes_nothing() {
    let (mut store, w) = workspace_of_ada();
    let r = add_members(
        &mut store,
        &directory(),
        ADA(),
        w,
        &emails(&["ghost@nowhere.invalid"]),
    )
    .unwrap();
    assert_eq!(r.unresolved, emails(&["ghost@nowhere.invalid"]));
    assert_eq!(store.count_members(w), 1);
    assert!(!store.is_member(w, BOB()));
}

#[test]
fn add_of_an_existing_member_is_a_noop() {
    let (mut store, w) = workspace_of_ada();
    let r = add_members(&mut store, &directory(), ADA(), w, &emails(&["ada@x.com"])).unwrap();
    assert!(r.unresolved.is_empty());
    let members = list_members(&store, ADA(), w).unwrap();
    assert_eq!(members, vec![Member { user: ADA(), role: Role::Owner }]);
}

#[test]
fn remove_rejects_an_empty_list() {
    let (mut store, w) = workspace_of_ada();
    let r = remove_members(&mut store, &directory(), ADA(), w, &emails(&[]));
    assert_eq!(r, Err(ServiceError::InvalidInput));
}

#[test]
fn remove_rejects_a_malformed_email() {
    let (mut store, w) = workspace_of_ada();
    let r = remove_members(&mut store, &directory(), ADA(), w, &emails(&["bob"]));
    assert_eq!(r, Err(ServiceError::InvalidInput));
}

#[test]
fn remove_from_an_unknown_workspace_is_not_found() {
    let (mut store, _) = workspace_of_ada();
    let r = remove_members(&mut store, &directory(), ADA(), WorkspaceId(9), &emails(&["bob@x.com"]));
    assert_eq!(r, Err(ServiceError::NotFound));
}

#[test]
fn remove_by_a_non_member_is_forbidden() {
    let (mut store, w) = workspace_of_ada();
    let r = remove_members(&mut store, &directory(), BOB(), w, &emails(&["ada@x.com"]));
    assert_eq!(r, Err(ServiceError::Forbidden));
    assert!(store.is_member(w, ADA()));
}

#[test]
fn remove_keeps_the_other_members() {
    let dir = directory();
    let (mut store, w) = workspace_of_ada();
    add_members(&mut store, &dir, ADA(), w, &emails(&["bob@x.com"])).unwrap();
    let r = remove_members(&mut store, &dir, ADA(), w, &emails(&["bob@x.com"]));
    assert_eq!(r, Ok(()));
    let members = list_members(&store, ADA(), w).unwrap();
    assert_eq!(members, vec![Member { user: ADA(), role: Role::Owner }]);
    let again = remove_members(&mut store, &dir, ADA(), w, &emails(&["ada@x.com"]));
    assert_eq!(again, Err(ServiceError::InvariantViolation));
    let members = list_members(&store, ADA(), w).unwrap();
    assert_eq!(members, vec![Member { user: ADA(), role: Role::Owner }]);
}

#[test]
fn remove_never_empties_a_workspace() {
    let (mut store, w) = workspace_of_ada();
    let r = remove_members(&mut store, &directory(), ADA(), w, &emails(&["ada@x.com"]));
    assert_eq!(r, Err(ServiceError::InvariantViolation));
    assert_eq!(store.count_members(w), 1);
    assert!(store.is_member(w, ADA()));
}

#[test]
fn remove_of_a_whole_workspace_is_rejected_as_a_batch() {
    let dir = directory();
    let (mut store, w) = workspace_of_ada();
    add_members(&mut store, &dir, ADA(), w, &emails(&["bob@x.com"])).unwrap();
    let r = remove_members(&mut store, &dir, ADA(), w, &emails(&["ada@x.com", "bob@x.com"]));
    assert_eq!(r, Err(ServiceError::InvariantViolation));
    assert_eq!(store.count_members(w), 2);
}

#[test]
fn remove_of_an_unresolved_email_is_a_noop() {
    let (mut store, w) = workspace_of_ada();
    let r = remove_members(
        &mut store,
        &directory(),
        ADA(),
        w,
        &emails(&["ghost@nowhere.invalid"]),
    );
    assert_eq!(r, Ok(()));
    assert_eq!(store.count_members(w), 1);
}

#[test]
fn remove_of_a_non_member_email_is_a_noop() {
    let (mut store, w) = workspace_of_ada();
    let r = remove_members(&mut store, &directory(), ADA(), w, &emails(&["bob@x.com"]));
    assert_eq!(r, Ok(()));
    assert_eq!(store.count_members(w), 1);
}
