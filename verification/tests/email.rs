use workspace_membership::email::{check_email, dedup, fold_eq};

fn emails(xs: &[&str]) -> Vec<String> {
    xs.iter().map(|s| s.to_string()).collect()
}

#[test]
fn fold_eq_ignores_ascii_case() {
    assert!(fold_eq("Ada@Example.COM", "ada@example.com"));
    assert!(fold_eq("", ""));
    assert!(fold_eq("MiXeD", "mIxEd"));
}

#[test]
fn fold_eq_distinguishes_different_emails() {
    assert!(!fold_eq("ada@example.com", "bob@example.com"));
    assert!(!fold_eq("ada@example.com", "ada@example.co"));
    assert!(!fold_eq("a", ""));
}

#[test]
fn check_email_accepts_plain_addresses() {
    assert!(check_email("a@b"));
    assert!(check_email("ada.lovelace@example.com"));
}

#[test]
fn check_email_rejects_malformed_addresses() {
    assert!(!check_email(""));
    assert!(!check_email("ab"));
    assert!(!check_email("@b"));
    assert!(!check_email("a@"));
    assert!(!check_email("a@@b"));
    assert!(!check_email("a@b@c"));
    assert!(!check_email("@"));
}

#[test]
fn dedup_keeps_first_spelling_in_order() {
    let input = emails(&["A@x.com", "a@X.com", "b@x.com", "B@X.COM", "a@x.com"]);
    let out = dedup(&input);
    assert_eq!(out, emails(&["A@x.com", "b@x.com"]));
}

#[test]
fn dedup_of_distinct_emails_is_identity() {
    let input = emails(&["a@x.com", "b@x.com"]);
    assert_eq!(dedup(&input), input);
}
