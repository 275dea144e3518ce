//! The membership store: the durable relation between users and workspaces,
//! modelled in memory as an ordered sequence of rows.
//!
//! The store keeps each `(workspace, user)` pair at most once, and its row
//! order is the insertion order, which makes every listing deterministic. The
//! persistence driver of a deployment mirrors this interface; the service
//! logic of this crate is verified against the model.

use vstd::prelude::*;

use crate::ids::{Member, Role, Row, UserId, WorkspaceId};

verus! {

/// How many rows record the pair `(w, u)`.
pub open spec fn count_pair(rows: Seq<Row>, w: WorkspaceId, u: UserId) -> nat
    decreases rows.len(),
{
    if rows.len() == 0 {
        0
    } else {
        count_pair(rows.drop_last(), w, u) + if rows.last().workspace == w && rows.last().user
            == u {
            1nat
        } else {
            0nat
        }
    }
}

/// Some row records the pair `(w, u)`.
pub open spec fn contains_pair(rows: Seq<Row>, w: WorkspaceId, u: UserId) -> bool {
    exists|i: int| 0 <= i < rows.len() && #[trigger] rows[i].workspace == w && rows[i].user == u
}

/// Well-formedness of the relation: no pair is recorded twice.
pub open spec fn rows_wf(rows: Seq<Row>) -> bool {
    forall|w: WorkspaceId, u: UserId| #[trigger] count_pair(rows, w, u) <= 1
}

/// A workspace exists exactly when some row records it; the non-empty-member
/// invariant leaves no other notion of existence.
pub open spec fn workspace_exists(rows: Seq<Row>, w: WorkspaceId) -> bool {
    exists|i: int| 0 <= i < rows.len() && #[trigger] rows[i].workspace == w
}

/// The members of workspace `w`, in row order.
pub open spec fn members_of(rows: Seq<Row>, w: WorkspaceId) -> Seq<Member>
    decreases rows.len(),
{
    if rows.len() == 0 {
        Seq::empty()
    } else {
        let prefix = members_of(rows.drop_last(), w);
        if rows.last().workspace == w {
            prefix.push(Member { user: rows.last().user, role: rows.last().role })
        } else {
            prefix
        }
    }
}

/// How many members workspace `w` has.
pub open spec fn member_count(rows: Seq<Row>, w: WorkspaceId) -> nat {
    members_of(rows, w).len()
}

/// The workspaces user `u` belongs to, in row order.
pub open spec fn workspaces_of(rows: Seq<Row>, u: UserId) -> Seq<WorkspaceId>
    decreases rows.len(),
{
    if rows.len() == 0 {
        Seq::empty()
    } else {
        let prefix = workspaces_of(rows.drop_last(), u);
        if rows.last().user == u {
            prefix.push(rows.last().workspace)
        } else {
            prefix
        }
    }
}

/// The relation after removing, from workspace `w`, every member named in
/// `users`; rows of other workspaces are untouched.
pub open spec fn remove_rows(rows: Seq<Row>, w: WorkspaceId, users: Seq<UserId>) -> Seq<Row>
    decreases rows.len(),
{
    if rows.len() == 0 {
        Seq::empty()
    } else {
        let prefix = remove_rows(rows.drop_last(), w, users);
        if rows.last().workspace == w && users.contains(rows.last().user) {
            prefix
        } else {
            prefix.push(rows.last())
        }
    }
}

/// A pair is recorded exactly when it is recorded a positive number of times.
pub proof fn lemma_contains_count(rows: Seq<Row>, w: WorkspaceId, u: UserId)
    ensures
        contains_pair(rows, w, u) <==> count_pair(rows, w, u) >= 1,
    decreases rows.len(),
{
    if rows.len() > 0 {
        lemma_contains_count(rows.drop_last(), w, u);
        let prefix = rows.drop_last();
        if contains_pair(rows, w, u) {
            let i = choose|i: int|
                0 <= i < rows.len() && #[trigger] rows[i].workspace == w && rows[i].user == u;
            if i < rows.len() - 1 {
                assert(prefix[i].workspace == w && prefix[i].user == u);
            }
        }
        if contains_pair(prefix, w, u) {
            let i = choose|i: int|
                0 <= i < prefix.len() && #[trigger] prefix[i].workspace == w && prefix[i].user
                    == u;
            assert(rows[i].workspace == w && rows[i].user == u);
        }
    }
}

/// Appending a row affects only its own pair's count.
pub proof fn lemma_count_push(rows: Seq<Row>, r: Row, w: WorkspaceId, u: UserId)
    ensures
        count_pair(rows.push(r), w, u) == count_pair(rows, w, u) + if r.workspace == w && r.user
            == u {
            1nat
        } else {
            0nat
        },
{
    assert(rows.push(r).drop_last() =~= rows);
}

/// Appending a row that records a fresh pair keeps the relation well-formed.
pub proof fn lemma_wf_push(rows: Seq<Row>, r: Row)
    requires
        rows_wf(rows),
        !contains_pair(rows, r.workspace, r.user),
    ensures
        rows_wf(rows.push(r)),
{
    lemma_contains_count(rows, r.workspace, r.user);
    assert forall|w: WorkspaceId, u: UserId| #[trigger] count_pair(rows.push(r), w, u) <= 1 by {
        lemma_count_push(rows, r, w, u);
    }
}

/// Every pair recorded after a removal was recorded before it, at most as
/// often.
pub proof fn lemma_count_remove(rows: Seq<Row>, w: WorkspaceId, users: Seq<UserId>, w2: WorkspaceId, u2: UserId)
    ensures
        count_pair(remove_rows(rows, w, users), w2, u2) <= count_pair(rows, w2, u2),
    decreases rows.len(),
{
    if rows.len() > 0 {
        let prefix = rows.drop_last();
        lemma_count_remove(prefix, w, users, w2, u2);
        if !(rows.last().workspace == w && users.contains(rows.last().user)) {
            lemma_count_push(remove_rows(prefix, w, users), rows.last(), w2, u2);
        }
    }
}

/// Removal keeps the relation well-formed.
pub proof fn lemma_wf_remove(rows: Seq<Row>, w: WorkspaceId, users: Seq<UserId>)
    requires
        rows_wf(rows),
    ensures
        rows_wf(remove_rows(rows, w, users)),
{
    assert forall|w2: WorkspaceId, u2: UserId|
        #[trigger] count_pair(remove_rows(rows, w, users), w2, u2) <= 1 by {
        lemma_count_remove(rows, w, users, w2, u2);
    }
}

/// The membership store. Its rows are reachable only through operations that
/// keep the relation well-formed: each `(workspace, user)` pair at most once.
pub struct MembershipStore {
    rows: Vec<Row>,
}

impl View for MembershipStore {
    type V = Seq<Row>;

    closed spec fn view(&self) -> Seq<Row> {
        self.rows@
    }
}

impl MembershipStore {
    /// The store's invariant: no `(workspace, user)` pair recorded twice.
    pub open spec fn wf(&self) -> bool {
        rows_wf(self@)
    }

    /// An empty relation.
    pub fn new() -> (s: Self)
        ensures
            s@ == Seq::<Row>::empty(),
            s.wf(),
    {
        let s = MembershipStore { rows: Vec::new() };
        proof {
            assert forall|w: WorkspaceId, u: UserId| #[trigger] count_pair(s@, w, u) <= 1 by {
                assert(count_pair(s@, w, u) == 0);
            }
        }
        s
    }

    /// Whether `u` is a member of `w`.
    pub fn is_member(&self, w: WorkspaceId, u: UserId) -> (r: bool)
        ensures
            r == contains_pair(self@, w, u),
    {
        let n = self.rows.len();
        let mut i: usize = 0;
        while i < n
            invariant
                n == self@.len(),
                0 <= i <= n,
                forall|j: int|
                    0 <= j < i ==> !(#[trigger] self@[j].workspace == w && self@[j].user == u),
            decreases n - i,
        {
            let row = self.rows[i];
            if row.workspace == w && row.user == u {
                return true;
            }
            i += 1;
        }
        false
    }

    /// Whether any row records workspace `w`.
    pub fn workspace_known(&self, w: WorkspaceId) -> (r: bool)
        ensures
            r == workspace_exists(self@, w),
    {
        let n = self.rows.len();
        let mut i: usize = 0;
        while i < n
            invariant
                n == self@.len(),
                0 <= i <= n,
                forall|j: int| 0 <= j < i ==> #[trigger] self@[j].workspace != w,
            decreases n - i,
        {
            if self.rows[i].workspace == w {
                return true;
            }
            i += 1;
        }
        false
    }

    /// Records that `u` belongs to `w` with `role`. A pair that is already
    /// recorded is left as it is, whatever its role: the conflict resolves as
    /// a no-op, and `false` comes back.
    pub fn upsert_membership(&mut self, w: WorkspaceId, u: UserId, role: Role) -> (inserted: bool)
        requires
            old(self).wf(),
        ensures
            final(self).wf(),
            inserted == !contains_pair(old(self)@, w, u),
            contains_pair(old(self)@, w, u) ==> final(self)@ == old(self)@,
            !contains_pair(old(self)@, w, u) ==> final(self)@ == old(self)@.push(
                (Row { workspace: w, user: u, role }),
            ),
            contains_pair(final(self)@, w, u),
    {
        if self.is_member(w, u) {
            return false;
        }
        let row = Row { workspace: w, user: u, role };
        proof {
            lemma_wf_push(self@, row);
        }
        self.rows.push(row);
        proof {
            assert(self@[self@.len() - 1].workspace == w && self@[self@.len() - 1].user == u);
        }
        true
    }

    /// Deletes the row `(w, u)` if it is recorded; reports whether it was.
    pub fn delete_membership(&mut self, w: WorkspaceId, u: UserId) -> (found: bool)
        requires
            old(self).wf(),
        ensures
            final(self).wf(),
            found == contains_pair(old(self)@, w, u),
            final(self)@ == remove_rows(old(self)@, w, seq![u]),
    {
        let mut users: Vec<UserId> = Vec::new();
        users.push(u);
        proof {
            assert(users@ =~= seq![u]);
        }
        let found = self.is_member(w, u);
        self.retain_surviving(w, &users);
        found
    }

    /// How many members workspace `w` has.
    pub fn count_members(&self, w: WorkspaceId) -> (n: usize)
        ensures
            n == member_count(self@, w),
    {
        let len = self.rows.len();
        let mut i: usize = 0;
        let mut n: usize = 0;
        while i < len
            invariant
                len == self@.len(),
                0 <= i <= len,
                n <= i,
                n == member_count(self@.take(i as int), w),
            decreases len - i,
        {
            let ghost pre = self@.take(i as int);
            let ghost cur = self@.take(i as int + 1);
            proof {
                assert(cur.drop_last() =~= pre);
                assert(cur.last() == self@[i as int]);
            }
            if self.rows[i].workspace == w {
                n += 1;
            }
            i += 1;
        }
        proof {
            assert(self@.take(len as int) =~= self@);
        }
        n
    }

    /// The members of workspace `w`, in row order.
    pub fn find_members(&self, w: WorkspaceId) -> (r: Vec<Member>)
        ensures
            r@ == members_of(self@, w),
    {
        let len = self.rows.len();
        let mut out: Vec<Member> = Vec::new();
        let mut i: usize = 0;
        while i < len
            invariant
                len == self@.len(),
                0 <= i <= len,
                out@ == members_of(self@.take(i as int), w),
            decreases len - i,
        {
            let ghost pre = self@.take(i as int);
            let ghost cur = self@.take(i as int + 1);
            proof {
                assert(cur.drop_last() =~= pre);
                assert(cur.last() == self@[i as int]);
            }
            let row = self.rows[i];
            if row.workspace == w {
                out.push(Member { user: row.user, role: row.role });
            }
            i += 1;
        }
        proof {
            assert(self@.take(len as int) =~= self@);
        }
        out
    }

    /// The workspaces user `u` belongs to, in row order.
    pub fn find_workspaces_by_member(&self, u: UserId) -> (r: Vec<WorkspaceId>)
        ensures
            r@ == workspaces_of(self@, u),
    {
        let len = self.rows.len();
        let mut out: Vec<WorkspaceId> = Vec::new();
        let mut i: usize = 0;
        while i < len
            invariant
                len == self@.len(),
                0 <= i <= len,
                out@ == workspaces_of(self@.take(i as int), u),
            decreases len - i,
        {
            let ghost pre = self@.take(i as int);
            let ghost cur = self@.take(i as int + 1);
            proof {
                assert(cur.drop_last() =~= pre);
                assert(cur.last() == self@[i as int]);
            }
            let row = self.rows[i];
            if row.user == u {
                out.push(row.workspace);
            }
            i += 1;
        }
        proof {
            assert(self@.take(len as int) =~= self@);
        }
        out
    }

    /// How many members workspace `w` would keep if every member named in
    /// `users` were removed — evaluated before any row is touched, so a batch
    /// can be rejected whole.
    pub fn count_surviving(&self, w: WorkspaceId, users: &Vec<UserId>) -> (n: usize)
        ensures
            n == member_count(remove_rows(self@, w, users@), w),
    {
        let len = self.rows.len();
        let mut i: usize = 0;
        let mut n: usize = 0;
        while i < len
            invariant
                len == self@.len(),
                0 <= i <= len,
                n <= i,
                n == member_count(remove_rows(self@.take(i as int), w, users@), w),
            decreases len - i,
        {
            let ghost pre = self@.take(i as int);
            let ghost cur = self@.take(i as int + 1);
            let ghost rpre = remove_rows(pre, w, users@);
            proof {
                assert(cur.drop_last() =~= pre);
                assert(cur.last() == self@[i as int]);
                assert(rpre.push(self@[i as int]).drop_last() =~= rpre);
                lemma_remove_len(pre, w, users@);
            }
            let row = self.rows[i];
            if row.workspace == w && !contains_user(users, row.user) {
                n += 1;
            }
            i += 1;
        }
        proof {
            assert(self@.take(len as int) =~= self@);
        }
        n
    }

    /// Deletes from workspace `w` every member named in `users`, as one batch.
    pub fn retain_surviving(&mut self, w: WorkspaceId, users: &Vec<UserId>) -> (removed: usize)
        requires
            old(self).wf(),
        ensures
            final(self).wf(),
            final(self)@ == remove_rows(old(self)@, w, users@),
    {
        let len = self.rows.len();
        let mut out: Vec<Row> = Vec::new();
        let mut i: usize = 0;
        while i < len
            invariant
                len == old(self)@.len(),
                self@ == old(self)@,
                0 <= i <= len,
                out@ == remove_rows(old(self)@.take(i as int), w, users@),
            decreases len - i,
        {
            let ghost pre = old(self)@.take(i as int);
            let ghost cur = old(self)@.take(i as int + 1);
            proof {
                assert(cur.drop_last() =~= pre);
                assert(cur.last() == old(self)@[i as int]);
            }
            let row = self.rows[i];
            if !(row.workspace == w && contains_user(users, row.user)) {
                out.push(row);
            }
            i += 1;
        }
        proof {
            assert(old(self)@.take(len as int) =~= old(self)@);
            lemma_wf_remove(old(self)@, w, users@);
            lemma_remove_len(old(self)@, w, users@);
        }
        let removed = self.rows.len() - out.len();
        self.rows = out;
        removed
    }
}

/// A removal never lengthens the relation.
pub proof fn lemma_remove_len(rows: Seq<Row>, w: WorkspaceId, users: Seq<UserId>)
    ensures
        remove_rows(rows, w, users).len() <= rows.len(),
    decreases rows.len(),
{
    if rows.len() > 0 {
        lemma_remove_len(rows.drop_last(), w, users);
    }
}

/// Whether `users` names `u`.
pub fn contains_user(users: &Vec<UserId>, u: UserId) -> (r: bool)
    ensures
        r == users@.contains(u),
{
    let n = users.len();
    let mut i: usize = 0;
    while i < n
        invariant
            n == users@.len(),
            0 <= i <= n,
            forall|j: int| 0 <= j < i ==> #[trigger] users@[j] != u,
        decreases n - i,
    {
        if users[i] == u {
            return true;
        }
        i += 1;
    }
    false
}

} // verus!
