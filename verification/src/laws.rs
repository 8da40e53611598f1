//! The store's laws: how the operations compose, stated over the same
//! predicates the operations' contracts use, and proved once for every
//! store and every input.
use vstd::prelude::*;

use crate::store::{
    added_note, cleanup_cutoff, expired, id_present, row_of, rows_inv, same_except,
    surviving_rows, Note,
};

verus! {

/// After an add, a point lookup of the fresh id returns a note carrying
/// exactly the added title and body, created and last edited at the same
/// moment, active in the default folder with `deleted_at` unset.
///
/// `pre`/`post` are the rows around the add, constrained as
/// `add_note_at` ensures them; `got` is what `get_note_by_id` then
/// returns for the fresh id, constrained as its contract ensures.
pub proof fn lemma_add_then_get(
    pre: Seq<Note>,
    post: Seq<Note>,
    next_id: i64,
    title: Seq<char>,
    body: Seq<char>,
    now: i64,
    got: Note,
)
    requires
        rows_inv(pre, next_id),
        post.len() == pre.len() + 1,
        post.drop_last() == pre,
        added_note(post.last(), next_id, title, body, now),
        exists|i: int| 0 <= i < post.len() && (#[trigger] post[i]) == got,
        got.id == next_id,
    ensures
        got.title@ == title,
        got.body@ == body,
        got.created_at == now,
        got.last_edited == now,
        got.created_at == got.last_edited,
        got.folder is DefaultFolder,
        got.deleted_at is None,
{
    let i = choose|i: int| 0 <= i < post.len() && (#[trigger] post[i]) == got;
    if i < pre.len() {
        assert(post[i] == post.drop_last()[i]);
        assert(pre[i].id < next_id);
        assert(false);
    }
    assert(got == post.last());
}

/// Ids are pairwise distinct and strictly increasing in storage order,
/// and every add appends a note whose id exceeds every id already
/// present; so the ids returned by any sequence of adds strictly
/// increase.
pub proof fn lemma_add_ids_increase(
    pre: Seq<Note>,
    post: Seq<Note>,
    next_id: i64,
    title: Seq<char>,
    body: Seq<char>,
    now: i64,
)
    requires
        rows_inv(pre, next_id),
        post.len() == pre.len() + 1,
        post.drop_last() == pre,
        added_note(post.last(), next_id, title, body, now),
    ensures
        forall|i: int, j: int| 0 <= i < j < post.len() ==> post[i].id < post[j].id,
        forall|i: int| 0 <= i < pre.len() ==> (#[trigger] pre[i].id) < post.last().id,
{
    assert forall|i: int, j: int| 0 <= i < j < post.len() implies post[i].id < post[j].id by {
        if j < pre.len() {
            assert(post[i] == post.drop_last()[i]);
            assert(post[j] == post.drop_last()[j]);
        } else {
            assert(post[i] == post.drop_last()[i]);
            assert(post[j] == post.last());
            assert(pre[i].id < next_id);
        }
    }
}

/// After an edit of `id`, a point lookup of `id` returns the new title
/// and body, the old creation time, and a `last_edited` equal to the
/// edit's moment — strictly later than before whenever the clock moved
/// forward.
pub proof fn lemma_edit_then_get(
    pre: Seq<Note>,
    post: Seq<Note>,
    id: i64,
    title: Seq<char>,
    body: Seq<char>,
    now: i64,
    j: int,
    got: Note,
)
    requires
        forall|a: int, b: int| 0 <= a < b < pre.len() ==> pre[a].id < pre[b].id,
        0 <= j < pre.len(),
        pre[j].id == id,
        same_except(pre, post, j),
        post[j].id == id,
        post[j].title@ == title,
        post[j].body@ == body,
        post[j].created_at == pre[j].created_at,
        post[j].last_edited == now,
        exists|i: int| 0 <= i < post.len() && (#[trigger] post[i]) == got,
        got.id == id,
    ensures
        got.title@ == title,
        got.body@ == body,
        got.created_at == pre[j].created_at,
        got.last_edited == now,
        now > pre[j].last_edited ==> got.last_edited > pre[j].last_edited,
{
    let i = choose|i: int| 0 <= i < post.len() && (#[trigger] post[i]) == got;
    if i != j {
        assert(post[i] == pre[i]);
        assert(pre[i].id != id);
        assert(false);
    }
}

/// Soft delete then restore: after the move to the trash the row shows
/// `folder == Trash` with `deleted_at` set, in the very listing the
/// store returns; after the restore the same row is back in the default
/// folder with `deleted_at` cleared, title and body untouched.
pub proof fn lemma_trash_then_restore(
    pre: Seq<Note>,
    mid: Seq<Note>,
    post: Seq<Note>,
    id: i64,
    j: int,
    j2: int,
)
    requires
        forall|a: int, b: int| 0 <= a < b < pre.len() ==> pre[a].id < pre[b].id,
        0 <= j < pre.len(),
        pre[j].id == id,
        same_except(pre, mid, j),
        mid[j].id == id,
        mid[j].title == pre[j].title,
        mid[j].body == pre[j].body,
        mid[j].folder is TrashFolder,
        mid[j].deleted_at is Some,
        0 <= j2 < mid.len(),
        mid[j2].id == id,
        same_except(mid, post, j2),
        post[j2].id == id,
        post[j2].title == mid[j2].title,
        post[j2].body == mid[j2].body,
        post[j2].folder is DefaultFolder,
        post[j2].deleted_at is None,
    ensures
        j2 == j,
        mid[j].folder is TrashFolder && !(mid[j].deleted_at is None),
        post[j].title == pre[j].title,
        post[j].body == pre[j].body,
        post[j].folder is DefaultFolder,
        post[j].deleted_at is None,
{
    if j2 != j {
        assert(mid[j2] == pre[j2]);
        assert(pre[j2].id != id);
        assert(false);
    }
}

/// After a hard delete of `id`, a point lookup of `id` finds nothing,
/// and no search, for any query, returns a note with that id: every
/// search result is one of the store's rows, and no row carries the id.
pub proof fn lemma_delete_then_search(rows: Seq<Note>, results: Seq<Note>, id: i64)
    requires
        !id_present(rows, id),
        forall|k: int| 0 <= k < results.len() ==> row_of(rows, #[trigger] results[k]),
    ensures
        forall|k: int| 0 <= k < results.len() ==> (#[trigger] results[k]).id != id,
{
    assert forall|k: int| 0 <= k < results.len() implies (#[trigger] results[k]).id != id by {
        assert(row_of(rows, results[k]));
        let j = choose|j: int| 0 <= j < rows.len() && results[k] == rows[j];
        assert(rows[j].id != id);
    }
}

/// Retention: cleanup purges a trashed row whose `deleted_at` lies
/// before the cutoff, keeps a trashed row deleted on or after it, and
/// never touches an active row (`deleted_at == None`), however old its
/// `created_at` is.
pub proof fn lemma_cleanup_retention(rows: Seq<Note>, now: i64, j: int)
    requires
        0 <= j < rows.len(),
    ensures
        expired(rows[j], cleanup_cutoff(now)) ==> forall|k: int|
            0 <= k < surviving_rows(rows, cleanup_cutoff(now)).len() ==> (#[trigger] surviving_rows(
                rows,
                cleanup_cutoff(now),
            )[k]) != rows[j],
        !expired(rows[j], cleanup_cutoff(now)) ==> row_of(
            surviving_rows(rows, cleanup_cutoff(now)),
            rows[j],
        ),
        rows[j].deleted_at is None ==> row_of(surviving_rows(rows, cleanup_cutoff(now)), rows[j]),
{
    crate::store::lemma_surviving_rows_wf(rows, cleanup_cutoff(now));
}

} // verus!
