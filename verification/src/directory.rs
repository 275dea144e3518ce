//! The user directory: the identity resolver's view of the world, mapping an
//! email address to the one user it denotes.
//!
//! Resolution is case-insensitive, under the folding of [`crate::email`], and
//! each registered email denotes exactly one user. A deployment's identity
//! resolver answers the same question from its own records; the service logic
//! of this crate is verified against this model.

use vstd::prelude::*;

use crate::email::{fold, fold_eq, fold_eq_spec};
use crate::ids::UserId;

verus! {

/// One directory entry: `email` denotes `user`.
#[derive(Debug)]
pub struct DirEntry {
    pub email: String,
    pub user: UserId,
}

/// Resolution over a sequence of entries: the first entry whose email folds
/// to the same form as `e` decides, and an email no entry matches resolves to
/// nothing.
pub open spec fn resolve_spec(entries: Seq<DirEntry>, e: Seq<char>) -> Option<UserId>
    decreases entries.len(),
{
    if entries.len() == 0 {
        None
    } else {
        match resolve_spec(entries.drop_last(), e) {
            Some(u) => Some(u),
            None => if fold_eq_spec(entries.last().email@, e) {
                Some(entries.last().user)
            } else {
                None
            },
        }
    }
}

/// No two entries record emails that fold to the same form.
pub open spec fn entries_wf(entries: Seq<DirEntry>) -> bool {
    forall|i: int, j: int|
        0 <= i < j < entries.len() ==> !fold_eq_spec(
            #[trigger] entries[i].email@,
            #[trigger] entries[j].email@,
        )
}

/// An email that resolves in a prefix resolves in the whole directory, to the
/// same user.
pub proof fn lemma_resolve_extend(entries: Seq<DirEntry>, n: int, e: Seq<char>, u: UserId)
    requires
        0 <= n <= entries.len(),
        resolve_spec(entries.take(n), e) == Some(u),
    ensures
        resolve_spec(entries, e) == Some(u),
    decreases entries.len() - n,
{
    if n < entries.len() {
        assert(entries.take(n + 1).drop_last() =~= entries.take(n));
        lemma_resolve_extend(entries, n + 1, e, u);
    } else {
        assert(entries.take(n) =~= entries);
    }
}

/// An email that resolves to nothing matches no entry at all.
pub proof fn lemma_unresolved_no_match(entries: Seq<DirEntry>, e: Seq<char>)
    requires
        resolve_spec(entries, e) is None,
    ensures
        forall|i: int|
            0 <= i < entries.len() ==> !fold_eq_spec(#[trigger] entries[i].email@, e),
    decreases entries.len(),
{
    if entries.len() > 0 {
        lemma_unresolved_no_match(entries.drop_last(), e);
        assert forall|i: int|
            0 <= i < entries.len() implies !fold_eq_spec(#[trigger] entries[i].email@, e) by {
            if i < entries.len() - 1 {
                assert(entries.drop_last()[i] == entries[i]);
            }
        }
    }
}

/// The user directory. Entries are reachable only through operations that
/// keep their folded emails pairwise distinct.
pub struct UserDirectory {
    entries: Vec<DirEntry>,
}

impl View for UserDirectory {
    type V = Seq<DirEntry>;

    closed spec fn view(&self) -> Seq<DirEntry> {
        self.entries@
    }
}

impl UserDirectory {
    /// The directory's invariant: each email, up to case, denotes at most one
    /// user.
    pub open spec fn wf(&self) -> bool {
        entries_wf(self@)
    }

    /// An empty directory.
    pub fn new() -> (d: Self)
        ensures
            d@ == Seq::<DirEntry>::empty(),
            d.wf(),
    {
        UserDirectory { entries: Vec::new() }
    }

    /// Resolves an email to the user it denotes, or to nothing when no entry
    /// matches it up to case.
    pub fn resolve(&self, e: &str) -> (r: Option<UserId>)
        ensures
            r == resolve_spec(self@, e@),
    {
        let n = self.entries.len();
        let mut i: usize = 0;
        while i < n
            invariant
                n == self@.len(),
                0 <= i <= n,
                resolve_spec(self@.take(i as int), e@) is None,
            decreases n - i,
        {
            let ghost pre = self@.take(i as int);
            let ghost cur = self@.take(i as int + 1);
            proof {
                assert(cur.drop_last() =~= pre);
                assert(cur.last() == self@[i as int]);
            }
            if fold_eq(self.entries[i].email.as_str(), e) {
                let u = self.entries[i].user;
                proof {
                    lemma_resolve_extend(self@, i as int + 1, e@, u);
                }
                return Some(u);
            }
            i += 1;
        }
        proof {
            assert(self@.take(n as int) =~= self@);
        }
        None
    }

    /// Registers that `email` denotes `user`. An email already present, up to
    /// case, is refused, and the directory is unchanged.
    pub fn register(&mut self, email: String, user: UserId) -> (added: bool)
        requires
            old(self).wf(),
        ensures
            final(self).wf(),
            added == (resolve_spec(old(self)@, email@) is None),
            added ==> final(self)@ == old(self)@.push((DirEntry { email, user })),
            !added ==> final(self)@ == old(self)@,
    {
        let taken = self.resolve(email.as_str());
        if taken.is_some() {
            return false;
        }
        proof {
            lemma_unresolved_no_match(self@, email@);
        }
        let ghost pre = self@;
        let entry = DirEntry { email, user };
        self.entries.push(entry);
        proof {
            assert forall|i: int, j: int|
                0 <= i < j < self@.len() implies !fold_eq_spec(
                #[trigger] self@[i].email@,
                #[trigger] self@[j].email@,
            ) by {
                if j < self@.len() - 1 {
                    assert(pre[i] == self@[i] && pre[j] == self@[j]);
                } else {
                    assert(pre[i] == self@[i]);
                }
            }
        }
        true
    }
}

} // verus!
