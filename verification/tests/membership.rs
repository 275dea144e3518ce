use workspace_membership::directory::UserDirectory;
use workspace_membership::ids::{Member, Role, UserId, WorkspaceId};
use workspace_membership::service::{list_members, list_workspaces_for_user, ServiceError};
use workspace_membership::store::MembershipStore;

#[test]
fn upsert_records_a_pair_once() {
    let mut store = MembershipStore::new();
    let w = WorkspaceId(1);
    let a = UserId(10);
    assert!(store.upsert_membership(w, a, Role::Owner));
    assert!(!store.upsert_membership(w, a, Role::Member));
    assert_eq!(store.count_members(w), 1);
    assert!(store.is_member(w, a));
}

#[test]
fn delete_membership_reports_presence() {
    let mut store = MembershipStore::new();
    let w = WorkspaceId(1);
    let a = UserId(10);
    store.upsert_membership(w, a, Role::Owner);
    assert!(store.delete_membership(w, a));
    assert!(!store.delete_membership(w, a));
    assert_eq!(store.count_members(w), 0);
}

#[test]
fn listing_matches_the_relation() {
    let mut store = MembershipStore::new();
    let w1 = WorkspaceId(1);
    let w2 = WorkspaceId(2);
    let a = UserId(10);
    let b = UserId(20);
    store.upsert_membership(w1, a, Role::Owner);
    store.upsert_membership(w2, b, Role::Owner);
    store.upsert_membership(w2, a, Role::Member);
    let of_a = list_workspaces_for_user(&store, a);
    assert_eq!(of_a, vec![w1, w2]);
    let of_b = list_workspaces_for_user(&store, b);
    assert_eq!(of_b, vec![w2]);
    let of_nobody = list_workspaces_for_user(&store, UserId(30));
    assert!(of_nobody.is_empty());
}

#[test]
fn list_members_requires_an_existing_workspace() {
    let store = MembershipStore::new();
    let r = list_members(&store, UserId(10), WorkspaceId(1));
    assert_eq!(r, Err(ServiceError::NotFound));
}

#[test]
fn list_members_is_forbidden_to_non_members() {
    let mut store = MembershipStore::new();
    let w = WorkspaceId(1);
    store.upsert_membership(w, UserId(10), Role::Owner);
    let r = list_members(&store, UserId(20), w);
    assert_eq!(r, Err(ServiceError::Forbidden));
}

#[test]
fn list_members_shows_users_and_roles_in_order() {
    let mut store = MembershipStore::new();
    let w = WorkspaceId(1);
    let a = UserId(10);
    let b = UserId(20);
    store.upsert_membership(w, a, Role::Owner);
    store.upsert_membership(w, b, Role::Member);
    store.upsert_membership(WorkspaceId(2), UserId(30), Role::Owner);
    let r = list_members(&store, a, w);
    let expected = vec![
        Member { user: a, role: Role::Owner },
        Member { user: b, role: Role::Member },
    ];
    assert_eq!(r, Ok(expected));
}

#[test]
fn directory_resolves_case_insensitively() {
    let mut dir = UserDirectory::new();
    assert!(dir.register("ada@x.com".to_string(), UserId(10)));
    assert_eq!(dir.resolve("ADA@X.COM"), Some(UserId(10)));
    assert_eq!(dir.resolve("ada@x.com"), Some(UserId(10)));
    assert_eq!(dir.resolve("bob@x.com"), None);
}

#[test]
fn directory_refuses_a_second_owner_for_an_email() {
    let mut dir = UserDirectory::new();
    assert!(dir.register("ada@x.com".to_string(), UserId(10)));
    assert!(!dir.register("ADA@x.com".to_string(), UserId(20)));
    assert_eq!(dir.resolve("ada@x.com"), Some(UserId(10)));
}
