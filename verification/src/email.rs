//! Email handling: ASCII case folding, syntactic validity, and
//! case-insensitive deduplication of invitation lists.
//!
//! Two emails denote the same invitee when they agree after folding ASCII
//! letters to lower case; folding is the library's equality for emails.

use vstd::prelude::*;

verus! {

/// Folds one character: an ASCII upper-case letter becomes its lower-case
/// counterpart, every other character is unchanged.
pub open spec fn fold_char(c: char) -> char {
    if 65 <= c as int && c as int <= 90 {
        ((c as int) + 32) as char
    } else {
        c
    }
}

/// Folds a whole email, character by character.
pub open spec fn fold(s: Seq<char>) -> Seq<char> {
    s.map_values(|c: char| fold_char(c))
}

/// Two emails name the same invitee when their folded forms agree.
pub open spec fn fold_eq_spec(a: Seq<char>, b: Seq<char>) -> bool {
    fold(a) == fold(b)
}

/// Folds one character at run time.
fn fold_char_exec(c: char) -> (r: char)
    ensures
        r == fold_char(c),
{
    let n = c as u32;
    if 65 <= n && n <= 90 {
        let m = (n + 32) as u8;
        assert(m as int == c as int + 32);
        m as char
    } else {
        c
    }
}

/// Decides whether two emails agree after case folding.
pub fn fold_eq(a: &str, b: &str) -> (r: bool)
    ensures
        r == fold_eq_spec(a@, b@),
{
    let na = a.unicode_len();
    let nb = b.unicode_len();
    if na != nb {
        assert(fold(a@).len() != fold(b@).len());
        return false;
    }
    let mut i: usize = 0;
    while i < na
        invariant
            na == a@.len(),
            nb == b@.len(),
            na == nb,
            0 <= i <= na,
            forall|j: int| 0 <= j < i ==> fold(a@)[j] == fold(b@)[j],
        decreases na - i,
    {
        let ca = a.get_char(i);
        let cb = b.get_char(i);
        if fold_char_exec(ca) != fold_char_exec(cb) {
            assert(fold(a@)[i as int] != fold(b@)[i as int]);
            return false;
        }
        i += 1;
    }
    assert(fold(a@) =~= fold(b@));
    true
}

/// Syntactic validity of an email: exactly one `@`, with at least one
/// character on each side of it.
pub open spec fn email_ok(s: Seq<char>) -> bool {
    exists|i: int|
        0 < i < s.len() - 1 && #[trigger] s[i] == '@' && (forall|j: int|
            0 <= j < s.len() && #[trigger] s[j] == '@' ==> j == i)
}

/// Checks an email's syntax at run time.
pub fn check_email(s: &str) -> (r: bool)
    ensures
        r == email_ok(s@),
{
    let n = s.unicode_len();
    let mut i: usize = 0;
    let mut at: usize = 0;
    let mut seen: bool = false;
    while i < n
        invariant
            n == s@.len(),
            0 <= i <= n,
            seen ==> 0 <= at < i && s@[at as int] == '@',
            forall|j: int| 0 <= j < i && #[trigger] s@[j] == '@' ==> seen && j == at,
        decreases n - i,
    {
        if s.get_char(i) == '@' {
            if seen {
                return false;
            }
            at = i;
            seen = true;
        }
        i += 1;
    }
    if !seen {
        return false;
    }
    if at == 0 || at + 1 == n {
        return false;
    }
    assert(email_ok(s@)) by {
        assert(s@[at as int] == '@');
    }
    true
}

/// Checks every email of a request at run time.
pub fn check_emails(emails: &Vec<String>) -> (r: bool)
    ensures
        r == all_emails_ok(emails.deep_view()),
{
    let n = emails.len();
    let mut i: usize = 0;
    while i < n
        invariant
            n == emails.deep_view().len(),
            emails.deep_view().len() == emails@.len(),
            0 <= i <= n,
            forall|j: int| 0 <= j < i ==> email_ok(#[trigger] emails.deep_view()[j]),
        decreases n - i,
    {
        assert(emails.deep_view()[i as int] == emails@[i as int]@);
        if !check_email(emails[i].as_str()) {
            assert(!email_ok(emails.deep_view()[i as int]));
            return false;
        }
        i += 1;
    }
    true
}

/// Every email of a request is syntactically valid.
pub open spec fn all_emails_ok(es: Seq<Seq<char>>) -> bool {
    forall|i: int| 0 <= i < es.len() ==> email_ok(#[trigger] es[i])
}

/// Some earlier email of the list folds to the same form as `e`.
pub open spec fn contains_fold(es: Seq<Seq<char>>, e: Seq<char>) -> bool {
    exists|i: int| 0 <= i < es.len() && fold_eq_spec(#[trigger] es[i], e)
}

/// Case-insensitive deduplication, keeping the first occurrence of each email
/// in its original spelling and position.
pub open spec fn dedup_emails(es: Seq<Seq<char>>) -> Seq<Seq<char>>
    decreases es.len(),
{
    if es.len() == 0 {
        Seq::empty()
    } else {
        let prefix = dedup_emails(es.drop_last());
        if contains_fold(es.drop_last(), es.last()) {
            prefix
        } else {
            prefix.push(es.last())
        }
    }
}

/// Deduplicates an invitation list at run time.
pub fn dedup(emails: &Vec<String>) -> (r: Vec<String>)
    ensures
        r.deep_view() == dedup_emails(emails.deep_view()),
{
    let n = emails.len();
    let mut out: Vec<String> = Vec::new();
    let mut i: usize = 0;
    while i < n
        invariant
            n == emails@.len(),
            emails.deep_view().len() == emails@.len(),
            0 <= i <= n,
            out.deep_view() == dedup_emails(emails.deep_view().take(i as int)),
        decreases n - i,
    {
        let mut j: usize = 0;
        let mut dup: bool = false;
        while j < i
            invariant
                0 <= j <= i < n,
                n == emails@.len(),
                emails.deep_view().len() == emails@.len(),
                dup == contains_fold(
                    emails.deep_view().take(j as int),
                    emails.deep_view()[i as int],
                ),
            decreases i - j,
        {
            let ghost dv = emails.deep_view();
            let ghost prev = dv.take(j as int);
            let ghost here = dv.take(j as int + 1);
            let hit = fold_eq(emails[j].as_str(), emails[i].as_str());
            proof {
                assert(forall|k: int| 0 <= k <= j ==> here[k] == dv[k]);
                assert(forall|k: int| 0 <= k < j ==> prev[k] == dv[k]);
                if hit {
                    assert(fold_eq_spec(here[j as int], dv[i as int]));
                } else if dup {
                    let k = choose|k: int|
                        0 <= k < prev.len() && fold_eq_spec(#[trigger] prev[k], dv[i as int]);
                    assert(fold_eq_spec(here[k], dv[i as int]));
                } else if contains_fold(here, dv[i as int]) {
                    let k = choose|k: int|
                        0 <= k < here.len() && fold_eq_spec(#[trigger] here[k], dv[i as int]);
                    assert(k < j ==> fold_eq_spec(prev[k], dv[i as int]));
                    assert(false);
                }
            }
            if hit {
                dup = true;
            }
            assert(dup == contains_fold(here, dv[i as int]));
            j += 1;
        }
        let ghost pre = emails.deep_view().take(i as int);
        let ghost cur = emails.deep_view().take(i as int + 1);
        assert(cur.drop_last() =~= pre);
        assert(cur.last() == emails.deep_view()[i as int]);
        if !dup {
            out.push(emails[i].clone());
            assert(out.deep_view() =~= dedup_emails(cur));
        } else {
            assert(out.deep_view() =~= dedup_emails(cur));
        }
        i += 1;
    }
    assert(emails.deep_view().take(n as int) =~= emails.deep_view());
    out
}

} // verus!
