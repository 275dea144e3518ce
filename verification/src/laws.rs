//! Laws of the membership service, stated over the relation's model and
//! proved once and for all.

use vstd::prelude::*;

use crate::directory::{resolve_spec, DirEntry};
use crate::email::{contains_fold, dedup_emails};
use crate::ids::{Role, Row, UserId, WorkspaceId};
use crate::store::{
    contains_pair, count_pair, lemma_contains_count, lemma_wf_push, member_count, rows_wf,
    workspace_exists, workspaces_of,
};
use crate::service::add_effect;

verus! {

/// A pair recorded in the relation stays recorded when a row is appended.
pub proof fn lemma_pair_in_push(rows: Seq<Row>, r: Row, w: WorkspaceId, u: UserId)
    requires
        contains_pair(rows, w, u),
    ensures
        contains_pair(rows.push(r), w, u),
{
    let i = choose|i: int|
        0 <= i < rows.len() && #[trigger] rows[i].workspace == w && rows[i].user == u;
    assert(rows.push(r)[i] == rows[i]);
}

/// A workspace exists exactly when its member set is non-empty: the relation
/// knows no other notion of existence, which is why no operation may empty it.
pub proof fn lemma_exists_member_count(rows: Seq<Row>, w: WorkspaceId)
    ensures
        workspace_exists(rows, w) <==> member_count(rows, w) >= 1,
    decreases rows.len(),
{
    if rows.len() > 0 {
        lemma_exists_member_count(rows.drop_last(), w);
        let prefix = rows.drop_last();
        if workspace_exists(rows, w) && rows.last().workspace != w {
            let i = choose|i: int| 0 <= i < rows.len() && #[trigger] rows[i].workspace == w;
            assert(prefix[i].workspace == w);
        }
        if workspace_exists(prefix, w) {
            let i = choose|i: int| 0 <= i < prefix.len() && #[trigger] prefix[i].workspace == w;
            assert(rows[i].workspace == w);
        }
    }
}

/// A user's workspace listing names a workspace exactly when a membership row
/// links the two: the listing is sound and complete with respect to the
/// relation.
pub proof fn lemma_listing_matches_rows(rows: Seq<Row>, u: UserId, w: WorkspaceId)
    ensures
        workspaces_of(rows, u).contains(w) <==> contains_pair(rows, w, u),
    decreases rows.len(),
{
    if rows.len() > 0 {
        let prefix = rows.drop_last();
        lemma_listing_matches_rows(prefix, u, w);
        let ws = workspaces_of(rows, u);
        let wsp = workspaces_of(prefix, u);
        if contains_pair(rows, w, u) {
            let i = choose|i: int|
                0 <= i < rows.len() && #[trigger] rows[i].workspace == w && rows[i].user == u;
            if i < rows.len() - 1 {
                assert(prefix[i].workspace == w && prefix[i].user == u);
                let j = choose|j: int| 0 <= j < wsp.len() && wsp[j] == w;
                if rows.last().user == u {
                    assert(ws[j] == wsp[j]);
                }
            } else {
                assert(ws.last() == w);
            }
            assert(ws.contains(w));
        }
        if ws.contains(w) {
            let j = choose|j: int| 0 <= j < ws.len() && ws[j] == w;
            if rows.last().user == u && j == ws.len() - 1 {
                assert(rows.last().workspace == w);
                assert(rows[rows.len() - 1].workspace == w && rows[rows.len() - 1].user == u);
            } else {
                assert(ws[j] == wsp[j]);
                assert(wsp.contains(w));
                let i = choose|i: int|
                    0 <= i < prefix.len() && #[trigger] prefix[i].workspace == w && prefix[i].user
                        == u;
                assert(rows[i].workspace == w && rows[i].user == u);
            }
        }
    }
}

/// Adding a batch never erases a recorded pair.
pub proof fn lemma_add_keeps_pair(
    rows: Seq<Row>,
    entries: Seq<DirEntry>,
    w: WorkspaceId,
    es: Seq<Seq<char>>,
    w2: WorkspaceId,
    u2: UserId,
)
    requires
        contains_pair(rows, w2, u2),
    ensures
        contains_pair(add_effect(rows, entries, w, es), w2, u2),
    decreases es.len(),
{
    if es.len() > 0 {
        lemma_add_keeps_pair(rows, entries, w, es.drop_last(), w2, u2);
        let prev = add_effect(rows, entries, w, es.drop_last());
        match resolve_spec(entries, es.last()) {
            Some(u) => {
                if !contains_pair(prev, w, u) {
                    lemma_pair_in_push(
                        prev,
                        Row { workspace: w, user: u, role: Role::Member },
                        w2,
                        u2,
                    );
                }
            },
            None => {},
        }
    }
}

/// After a batch is added, every user an email of the batch resolves to is a
/// member of the workspace.
pub proof fn lemma_add_makes_member(
    rows: Seq<Row>,
    entries: Seq<DirEntry>,
    w: WorkspaceId,
    es: Seq<Seq<char>>,
    k: int,
    u: UserId,
)
    requires
        0 <= k < es.len(),
        resolve_spec(entries, es[k]) == Some(u),
    ensures
        contains_pair(add_effect(rows, entries, w, es), w, u),
    decreases es.len(),
{
    let prev = add_effect(rows, entries, w, es.drop_last());
    if k == es.len() - 1 {
        assert(es.last() == es[k]);
        if !contains_pair(prev, w, u) {
            let appended = prev.push(Row { workspace: w, user: u, role: Role::Member });
            assert(appended[appended.len() - 1].workspace == w);
        }
    } else {
        assert(es.drop_last()[k] == es[k]);
        lemma_add_makes_member(rows, entries, w, es.drop_last(), k, u);
        match resolve_spec(entries, es.last()) {
            Some(u2) => {
                if !contains_pair(prev, w, u2) {
                    lemma_pair_in_push(
                        prev,
                        Row { workspace: w, user: u2, role: Role::Member },
                        w,
                        u,
                    );
                }
            },
            None => {},
        }
    }
}

/// A batch whose every resolved user is already a member changes nothing.
pub proof fn lemma_add_noop(
    rows: Seq<Row>,
    entries: Seq<DirEntry>,
    w: WorkspaceId,
    es: Seq<Seq<char>>,
)
    requires
        forall|k: int|
            0 <= k < es.len() ==> ((#[trigger] resolve_spec(entries, es[k])) matches Some(u)
                ==> contains_pair(rows, w, u)),
    ensures
        add_effect(rows, entries, w, es) == rows,
    decreases es.len(),
{
    if es.len() > 0 {
        assert forall|k: int|
            0 <= k < es.len() - 1 implies ((#[trigger] resolve_spec(
            entries,
            es.drop_last()[k],
        )) matches Some(u) ==> contains_pair(rows, w, u)) by {
            assert(es.drop_last()[k] == es[k]);
            assert(resolve_spec(entries, es[k]) matches Some(u) ==> contains_pair(rows, w, u));
        }
        lemma_add_noop(rows, entries, w, es.drop_last());
        assert(es[es.len() - 1] == es.last());
    }
}

/// Adding keeps the relation well-formed: no pair becomes recorded twice.
pub proof fn lemma_add_keeps_wf(
    rows: Seq<Row>,
    entries: Seq<DirEntry>,
    w: WorkspaceId,
    es: Seq<Seq<char>>,
)
    requires
        rows_wf(rows),
    ensures
        rows_wf(add_effect(rows, entries, w, es)),
    decreases es.len(),
{
    if es.len() > 0 {
        lemma_add_keeps_wf(rows, entries, w, es.drop_last());
        let prev = add_effect(rows, entries, w, es.drop_last());
        match resolve_spec(entries, es.last()) {
            Some(u) => {
                if !contains_pair(prev, w, u) {
                    lemma_wf_push(prev, Row { workspace: w, user: u, role: Role::Member });
                }
            },
            None => {},
        }
    }
}

/// Adding one batch is idempotent: adding it a second time, to the relation
/// the first addition produced, changes nothing.
pub proof fn lemma_add_twice_is_once(
    rows: Seq<Row>,
    entries: Seq<DirEntry>,
    w: WorkspaceId,
    es: Seq<Seq<char>>,
)
    ensures
        add_effect(add_effect(rows, entries, w, es), entries, w, es) == add_effect(
            rows,
            entries,
            w,
            es,
        ),
{
    let once = add_effect(rows, entries, w, es);
    assert forall|k: int|
        0 <= k < es.len() implies ((#[trigger] resolve_spec(entries, es[k])) matches Some(u)
        ==> contains_pair(once, w, u)) by {
        match resolve_spec(entries, es[k]) {
            Some(u) => {
                lemma_add_makes_member(rows, entries, w, es, k, u);
            },
            None => {},
        }
    }
    lemma_add_noop(once, entries, w, es);
}

/// Inviting one email twice yields exactly one membership row for the user it
/// resolves to: the relation after the second call is the relation after the
/// first, and it records the pair exactly once.
pub proof fn lemma_add_single_email_once(
    rows: Seq<Row>,
    entries: Seq<DirEntry>,
    w: WorkspaceId,
    e: Seq<char>,
    u: UserId,
)
    requires
        rows_wf(rows),
        resolve_spec(entries, e) == Some(u),
    ensures
        ({
            let batch = dedup_emails(seq![e]);
            let once = add_effect(rows, entries, w, batch);
            let twice = add_effect(once, entries, w, batch);
            &&& twice == once
            &&& count_pair(once, w, u) == 1
        }),
{
    let batch = dedup_emails(seq![e]);
    assert(seq![e].drop_last() =~= Seq::<Seq<char>>::empty());
    assert(dedup_emails(Seq::<Seq<char>>::empty()) =~= Seq::<Seq<char>>::empty());
    assert(!contains_fold(Seq::<Seq<char>>::empty(), e));
    assert(batch =~= seq![e]);
    assert(batch[0] == e);
    let once = add_effect(rows, entries, w, batch);
    lemma_add_twice_is_once(rows, entries, w, batch);
    lemma_add_keeps_wf(rows, entries, w, batch);
    lemma_add_makes_member(rows, entries, w, batch, 0, u);
    lemma_contains_count(once, w, u);
}

} // verus!
