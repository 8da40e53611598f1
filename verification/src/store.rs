//! The note store: primary rows, the derived search index, and the folder
//! table, kept consistent by every operation.
//!
//! The store owns three structures.  `notes` is the primary table, in
//! storage order, with strictly increasing ids.  `index` is the search
//! index: a denormalized projection of `(id, title, body)` that every
//! mutation updates in the same step as the primary row, so the two can
//! never disagree.  `folders` is the folder table; the two reserved
//! folders (`Default`, order 0, and `Trash`, order 999) are re-seeded by
//! every initialization.
use vstd::prelude::*;

use crate::text::{chars_of, note_matches, note_matches_x, relevance, relevance_x};

verus! {

/// Seconds in the 30-day retention window for trashed notes.
pub const RETENTION_SECONDS: i64 = 2592000;

/// A note's location: the default (active) folder, the trash, or a
/// user-defined folder.
#[derive(Debug, PartialEq, Eq)]
pub enum FolderName {
    DefaultFolder,
    TrashFolder,
    Custom(String),
}

impl FolderName {
    /// True exactly when this is the trash folder.
    pub fn is_trash(&self) -> (b: bool)
        ensures
            b == (self is TrashFolder),
    {
        match self {
            FolderName::TrashFolder => true,
            _ => false,
        }
    }

    /// True exactly when this is the default folder.
    pub fn is_default(&self) -> (b: bool)
        ensures
            b == (self is DefaultFolder),
    {
        match self {
            FolderName::DefaultFolder => true,
            _ => false,
        }
    }
}

impl Clone for FolderName {
    fn clone(&self) -> (r: Self)
        ensures
            r == *self,
    {
        match self {
            FolderName::DefaultFolder => FolderName::DefaultFolder,
            FolderName::TrashFolder => FolderName::TrashFolder,
            FolderName::Custom(s) => FolderName::Custom(s.clone()),
        }
    }
}

/// A primary row: one note.
///
/// Timestamps are seconds; `deleted_at` is `None` exactly while the note
/// is outside the trash.
#[derive(Debug, PartialEq)]
pub struct Note {
    pub id: i64,
    pub title: String,
    pub body: String,
    pub created_at: i64,
    pub last_edited: i64,
    pub folder: FolderName,
    pub deleted_at: Option<i64>,
}

impl Clone for Note {
    fn clone(&self) -> (r: Self)
        ensures
            r == *self,
    {
        Note {
            id: self.id,
            title: self.title.clone(),
            body: self.body.clone(),
            created_at: self.created_at,
            last_edited: self.last_edited,
            folder: self.folder.clone(),
            deleted_at: self.deleted_at,
        }
    }
}

/// One search-index entry: the indexed projection of a note.
#[derive(Debug, PartialEq)]
pub struct IndexEntry {
    pub id: i64,
    pub title: String,
    pub body: String,
}

impl Clone for IndexEntry {
    fn clone(&self) -> (r: Self)
        ensures
            r == *self,
    {
        IndexEntry { id: self.id, title: self.title.clone(), body: self.body.clone() }
    }
}

/// A folder-table row.
#[derive(Debug, PartialEq)]
pub struct FolderRow {
    pub name: FolderName,
    pub order_idx: i64,
}

impl Clone for FolderRow {
    fn clone(&self) -> (r: Self)
        ensures
            r == *self,
    {
        FolderRow { name: self.name.clone(), order_idx: self.order_idx }
    }
}

/// The error a point lookup reports when no row has the requested id.
#[derive(Debug, PartialEq, Eq, Clone, Copy)]
pub enum StorageError {
    NotFound,
}

/// The note store itself.
///
/// The fields are public for inspection; every operation requires and
/// preserves [`NoteStore::wf`], and stores built through [`NoteStore::new`]
/// or [`NoteStore::from_rows`] satisfy it.
pub struct NoteStore {
    pub notes: Vec<Note>,
    pub index: Vec<IndexEntry>,
    pub folders: Vec<FolderRow>,
    pub next_id: i64,
}

/// What a freshly added note looks like.
pub open spec fn added_note(n: Note, id: i64, title: Seq<char>, body: Seq<char>, now: i64) -> bool {
    &&& n.id == id
    &&& n.title@ == title
    &&& n.body@ == body
    &&& n.created_at == now
    &&& n.last_edited == now
    &&& n.folder is DefaultFolder
    &&& n.deleted_at is None
}

/// `post` agrees with `pre` everywhere except possibly at `j`.
pub open spec fn same_except(pre: Seq<Note>, post: Seq<Note>, j: int) -> bool {
    &&& post.len() == pre.len()
    &&& forall|k: int| 0 <= k < pre.len() && k != j ==> post[k] == pre[k]
}

/// The moment before which a trashed note is purged by cleanup: the
/// retention window ago, or now itself if that would underflow.
pub open spec fn cleanup_cutoff(now: i64) -> int {
    if now - RETENTION_SECONDS >= i64::MIN {
        now - RETENTION_SECONDS
    } else {
        now as int
    }
}

/// Whether cleanup purges this row: soft-deleted before the cutoff.
/// A row with `deleted_at == None` is never expired, whatever its age.
pub open spec fn expired(n: Note, cutoff: int) -> bool {
    match n.deleted_at {
        Some(d) => d < cutoff,
        None => false,
    }
}

/// `n` is one of the rows.
pub open spec fn row_of(rows: Seq<Note>, n: Note) -> bool {
    exists|j: int| 0 <= j < rows.len() && n == rows[j]
}

/// Whether `id` is the id of some row.
pub open spec fn id_present(rows: Seq<Note>, id: i64) -> bool {
    exists|i: int| 0 <= i < rows.len() && rows[i].id == id
}

/// The invariant of the primary table: ids strictly increasing (hence
/// unique and never reused, since they stay below `next_id`), and
/// `deleted_at` set exactly on rows in the trash.
pub open spec fn rows_inv(rows: Seq<Note>, next_id: i64) -> bool {
    &&& forall|i: int, j: int| 0 <= i < j < rows.len() ==> rows[i].id < rows[j].id
    &&& forall|i: int| 0 <= i < rows.len() ==> 1 <= #[trigger] rows[i].id < next_id
    &&& forall|i: int|
        0 <= i < rows.len() ==> ((#[trigger] rows[i].deleted_at is None) <==> !(rows[i].folder
            is TrashFolder))
    &&& next_id >= 1
}

/// The search-index invariant: exactly one entry per row, with matching
/// id, title and body, in the same order.
pub open spec fn index_inv(rows: Seq<Note>, index: Seq<IndexEntry>) -> bool {
    &&& index.len() == rows.len()
    &&& forall|i: int|
        0 <= i < rows.len() ==> (#[trigger] index[i].id) == rows[i].id && index[i].title@
            == rows[i].title@ && index[i].body@ == rows[i].body@
}

/// Spec-level name equality for folders.
pub open spec fn folder_eq(a: FolderName, b: FolderName) -> bool {
    match (a, b) {
        (FolderName::DefaultFolder, FolderName::DefaultFolder) => true,
        (FolderName::TrashFolder, FolderName::TrashFolder) => true,
        (FolderName::Custom(x), FolderName::Custom(y)) => x@ == y@,
        _ => false,
    }
}

pub open spec fn has_default(folders: Seq<FolderRow>) -> bool {
    exists|i: int| 0 <= i < folders.len() && folders[i].name is DefaultFolder
}

pub open spec fn has_trash(folders: Seq<FolderRow>) -> bool {
    exists|i: int| 0 <= i < folders.len() && folders[i].name is TrashFolder
}

/// The folder-table invariant: names unique, both reserved folders
/// present.
pub open spec fn folders_inv(folders: Seq<FolderRow>) -> bool {
    &&& forall|i: int, j: int|
        0 <= i < j < folders.len() ==> !folder_eq(
            #[trigger] folders[i].name,
            #[trigger] folders[j].name,
        )
    &&& has_default(folders)
    &&& has_trash(folders)
}

/// The reserved folder rows that initialization seeds.
pub open spec fn default_row() -> FolderRow {
    FolderRow { name: FolderName::DefaultFolder, order_idx: 0 }
}

pub open spec fn trash_row() -> FolderRow {
    FolderRow { name: FolderName::TrashFolder, order_idx: 999 }
}

/// What initialization does to the folder table: insert each reserved
/// folder only if it is absent.
pub open spec fn seed_folders(folders: Seq<FolderRow>) -> Seq<FolderRow> {
    let with_default = if has_default(folders) {
        folders
    } else {
        folders.push(default_row())
    };
    if has_trash(with_default) {
        with_default
    } else {
        with_default.push(trash_row())
    }
}

impl NoteStore {
    /// The store's whole well-formedness invariant.
    pub open spec fn wf(self) -> bool {
        &&& rows_inv(self.notes@, self.next_id)
        &&& index_inv(self.notes@, self.index@)
        &&& folders_inv(self.folders@)
    }

    /// An empty, initialized store.  Ids start at 1.
    pub fn new() -> (s: Self)
        ensures
            s.wf(),
            s.notes@.len() == 0,
            s.next_id == 1,
            s.folders@ == seed_folders(Seq::<FolderRow>::empty()),
    {
        let mut s = NoteStore {
            notes: Vec::new(),
            index: Vec::new(),
            folders: Vec::new(),
            next_id: 1,
        };
        s.init_db();
        s
    }

    /// The schema manager: idempotently (re-)establish the persistent
    /// structures.  The tables themselves are the store's own fields, so
    /// creating them is ensuring they exist; what remains observable is
    /// seeding the reserved folders with an insert-if-absent policy.
    /// Callable any number of times; never touches notes or ids.
    pub fn init_db(&mut self)
        ensures
            final(self).notes@ == old(self).notes@,
            final(self).index@ == old(self).index@,
            final(self).next_id == old(self).next_id,
            final(self).folders@ == seed_folders(old(self).folders@),
            has_default(final(self).folders@),
            has_trash(final(self).folders@),
            folders_inv(old(self).folders@) ==> final(self).folders@ == old(self).folders@,
            old(self).wf() ==> final(self).wf(),
    {
        let ghost f0 = self.folders@;
        let mut found_default = false;
        let mut i: usize = 0;
        while i < self.folders.len()
            invariant
                i <= self.folders@.len(),
                found_default == exists|k: int|
                    0 <= k < i && self.folders@[k].name is DefaultFolder,
            decreases self.folders@.len() - i,
        {
            if self.folders[i].name.is_default() {
                found_default = true;
            }
            i = i + 1;
        }
        assert(found_default == has_default(self.folders@));
        if !found_default {
            self.folders.push(FolderRow { name: FolderName::DefaultFolder, order_idx: 0 });
        }
        let ghost f1 = self.folders@;
        let mut found_trash = false;
        let mut j: usize = 0;
        while j < self.folders.len()
            invariant
                j <= self.folders@.len(),
                self.folders@ == f1,
                found_trash == exists|k: int| 0 <= k < j && self.folders@[k].name is TrashFolder,
            decreases self.folders@.len() - j,
        {
            if self.folders[j].name.is_trash() {
                found_trash = true;
            }
            j = j + 1;
        }
        assert(found_trash == has_trash(self.folders@));
        if !found_trash {
            self.folders.push(FolderRow { name: FolderName::TrashFolder, order_idx: 999 });
        }
        proof {
            assert(self.folders@ == seed_folders(f0));
            if folders_inv(f0) {
                assert(self.folders@ == f0);
            }
            lemma_seed_folders_inv(f0);
        }
    }

    /// The position of the row with `id`, if any.
    fn find_pos(&self, id: i64) -> (r: Option<usize>)
        ensures
            match r {
                Some(j) => j < self.notes@.len() && self.notes@[j as int].id == id,
                None => !id_present(self.notes@, id),
            },
    {
        let mut i: usize = 0;
        while i < self.notes.len()
            invariant
                i <= self.notes@.len(),
                forall|k: int| 0 <= k < i ==> (#[trigger] self.notes@[k].id) != id,
            decreases self.notes@.len() - i,
        {
            if self.notes[i].id == id {
                return Some(i);
            }
            i = i + 1;
        }
        None
    }

    /// Insert a new note, active in the default folder, stamped `now` for
    /// both `created_at` and `last_edited`.  The primary row and its
    /// search-index entry are written in the same step.  Returns the
    /// fresh id; ids are assigned strictly increasing and never reused.
    pub fn add_note_at(&mut self, title: String, body: String, now: i64) -> (id: i64)
        requires
            old(self).wf(),
            old(self).next_id < i64::MAX,
        ensures
            final(self).wf(),
            id == old(self).next_id,
            final(self).next_id == old(self).next_id + 1,
            final(self).folders@ == old(self).folders@,
            final(self).notes@.len() == old(self).notes@.len() + 1,
            final(self).notes@.drop_last() == old(self).notes@,
            added_note(final(self).notes@.last(), id, title@, body@, now),
    {
        let id = self.next_id;
        self.index.push(IndexEntry { id, title: title.clone(), body: body.clone() });
        self.notes.push(
            Note {
                id,
                title,
                body,
                created_at: now,
                last_edited: now,
                folder: FolderName::DefaultFolder,
                deleted_at: None,
            },
        );
        self.next_id = id + 1;
        proof {
            let pre = old(self).notes@;
            let post = self.notes@;
            assert(post.drop_last() =~= pre);
            assert forall|i: int, j: int| 0 <= i < j < post.len() implies post[i].id
                < post[j].id by {
                if j < pre.len() {
                } else {
                    assert(post[j].id == id);
                }
            }
        }
        id
    }

    /// Point lookup by id; `NotFound` exactly when no row has that id.
    pub fn get_note_by_id(&self, id: i64) -> (r: Result<Note, StorageError>)
        ensures
            r is Ok <==> id_present(self.notes@, id),
            match r {
                Ok(n) => exists|i: int|
                    0 <= i < self.notes@.len() && (#[trigger] self.notes@[i]) == n && n.id == id,
                Err(e) => e == StorageError::NotFound,
            },
    {
        match self.find_pos(id) {
            Some(j) => Ok(self.notes[j].clone()),
            None => Err(StorageError::NotFound),
        }
    }

    /// Every row, trashed ones included, in storage order.
    pub fn list_notes(&self) -> (r: Vec<Note>)
        ensures
            r@ == self.notes@,
    {
        let mut r: Vec<Note> = Vec::new();
        let mut i: usize = 0;
        while i < self.notes.len()
            invariant
                i <= self.notes@.len(),
                r@ == self.notes@.take(i as int),
            decreases self.notes@.len() - i,
        {
            r.push(self.notes[i].clone());
            proof {
                assert(r@ =~= self.notes@.take(i + 1 as int));
            }
            i = i + 1;
        }
        proof {
            assert(r@ =~= self.notes@);
        }
        r
    }

    /// The rows currently in the trash, in storage order.
    pub fn list_trash(&self) -> (r: Vec<Note>)
        ensures
            r@ == trash_rows(self.notes@),
    {
        let mut r: Vec<Note> = Vec::new();
        let mut i: usize = 0;
        while i < self.notes.len()
            invariant
                i <= self.notes@.len(),
                r@ == trash_rows(self.notes@.take(i as int)),
            decreases self.notes@.len() - i,
        {
            proof {
                assert(self.notes@.take(i + 1 as int) =~= self.notes@.take(i as int).push(
                    self.notes@[i as int],
                ));
                lemma_trash_rows_push(self.notes@.take(i as int), self.notes@[i as int]);
            }
            if self.notes[i].folder.is_trash() {
                r.push(self.notes[i].clone());
            }
            i = i + 1;
        }
        proof {
            assert(self.notes@.take(self.notes@.len() as int) =~= self.notes@);
        }
        r
    }

    /// Update title, body and `last_edited` of the row with `id`, and
    /// its index entry, as one step.  Returns the number of rows that
    /// matched: 0 when the id does not exist (no error, nothing created),
    /// 1 on success.
    pub fn edit_note_at(&mut self, id: i64, new_title: String, new_body: String, now: i64) -> (n:
        usize)
        requires
            old(self).wf(),
        ensures
            final(self).wf(),
            final(self).folders@ == old(self).folders@,
            final(self).next_id == old(self).next_id,
            n <= 1,
            n == 0 <==> !id_present(old(self).notes@, id),
            n == 0 ==> final(self).notes@ == old(self).notes@,
            n == 1 ==> exists|j: int|
                {
                    &&& 0 <= j < old(self).notes@.len()
                    &&& (#[trigger] old(self).notes@[j]).id == id
                    &&& same_except(old(self).notes@, final(self).notes@, j)
                    &&& final(self).notes@[j].id == id
                    &&& final(self).notes@[j].title@ == new_title@
                    &&& final(self).notes@[j].body@ == new_body@
                    &&& final(self).notes@[j].created_at == old(self).notes@[j].created_at
                    &&& final(self).notes@[j].last_edited == now
                    &&& final(self).notes@[j].folder == old(self).notes@[j].folder
                    &&& final(self).notes@[j].deleted_at == old(self).notes@[j].deleted_at
                },
    {
        match self.find_pos(id) {
            Some(j) => {
                let prev = self.notes[j].clone();
                self.index[j] = IndexEntry {
                    id,
                    title: new_title.clone(),
                    body: new_body.clone(),
                };
                self.notes[j] = Note {
                    id: prev.id,
                    title: new_title,
                    body: new_body,
                    created_at: prev.created_at,
                    last_edited: now,
                    folder: prev.folder,
                    deleted_at: prev.deleted_at,
                };
                proof {
                    let pre = old(self).notes@;
                    let post = self.notes@;
                    assert(same_except(pre, post, j as int));
                    assert forall|a: int, b: int| 0 <= a < b < post.len() implies post[a].id
                        < post[b].id by {
                        assert(post[a].id == pre[a].id);
                        assert(post[b].id == pre[b].id);
                    }
                }
                1
            },
            None => 0,
        }
    }

    /// Soft-delete: move the row with `id` to the trash and stamp
    /// `deleted_at = now`.  Idempotent at the storage level (a second
    /// call re-stamps `deleted_at`); the index is untouched since title
    /// and body do not change.  Returns the matched-row count, 0 or 1.
    pub fn move_to_trash_at(&mut self, id: i64, now: i64) -> (n: usize)
        requires
            old(self).wf(),
        ensures
            final(self).wf(),
            final(self).folders@ == old(self).folders@,
            final(self).next_id == old(self).next_id,
            n <= 1,
            n == 0 <==> !id_present(old(self).notes@, id),
            n == 0 ==> final(self).notes@ == old(self).notes@,
            n == 1 ==> exists|j: int|
                {
                    &&& 0 <= j < old(self).notes@.len()
                    &&& (#[trigger] old(self).notes@[j]).id == id
                    &&& same_except(old(self).notes@, final(self).notes@, j)
                    &&& final(self).notes@[j].id == id
                    &&& final(self).notes@[j].title == old(self).notes@[j].title
                    &&& final(self).notes@[j].body == old(self).notes@[j].body
                    &&& final(self).notes@[j].created_at == old(self).notes@[j].created_at
                    &&& final(self).notes@[j].last_edited == old(self).notes@[j].last_edited
                    &&& final(self).notes@[j].folder is TrashFolder
                    &&& final(self).notes@[j].deleted_at == Some(now)
                },
    {
        match self.find_pos(id) {
            Some(j) => {
                let prev = self.notes[j].clone();
                self.notes[j] = Note {
                    id: prev.id,
                    title: prev.title,
                    body: prev.body,
                    created_at: prev.created_at,
                    last_edited: prev.last_edited,
                    folder: FolderName::TrashFolder,
                    deleted_at: Some(now),
                };
                proof {
                    let pre = old(self).notes@;
                    let post = self.notes@;
                    assert(same_except(pre, post, j as int));
                    assert forall|a: int, b: int| 0 <= a < b < post.len() implies post[a].id
                        < post[b].id by {
                        assert(post[a].id == pre[a].id);
                        assert(post[b].id == pre[b].id);
                    }
                }
                1
            },
            None => 0,
        }
    }

    /// Restore from the trash: back to the default folder, `deleted_at`
    /// cleared.  A note trashed out of a custom folder lands in the
    /// default folder, not its old one.  Returns the matched-row count.
    pub fn restore_note(&mut self, id: i64) -> (n: usize)
        requires
            old(self).wf(),
        ensures
            final(self).wf(),
            final(self).folders@ == old(self).folders@,
            final(self).next_id == old(self).next_id,
            n <= 1,
            n == 0 <==> !id_present(old(self).notes@, id),
            n == 0 ==> final(self).notes@ == old(self).notes@,
            n == 1 ==> exists|j: int|
                {
                    &&& 0 <= j < old(self).notes@.len()
                    &&& (#[trigger] old(self).notes@[j]).id == id
                    &&& same_except(old(self).notes@, final(self).notes@, j)
                    &&& final(self).notes@[j].id == id
                    &&& final(self).notes@[j].title == old(self).notes@[j].title
                    &&& final(self).notes@[j].body == old(self).notes@[j].body
                    &&& final(self).notes@[j].created_at == old(self).notes@[j].created_at
                    &&& final(self).notes@[j].last_edited == old(self).notes@[j].last_edited
                    &&& final(self).notes@[j].folder is DefaultFolder
                    &&& final(self).notes@[j].deleted_at is None
                },
    {
        match self.find_pos(id) {
            Some(j) => {
                let prev = self.notes[j].clone();
                self.notes[j] = Note {
                    id: prev.id,
                    title: prev.title,
                    body: prev.body,
                    created_at: prev.created_at,
                    last_edited: prev.last_edited,
                    folder: FolderName::DefaultFolder,
                    deleted_at: None,
                };
                proof {
                    let pre = old(self).notes@;
                    let post = self.notes@;
                    assert(same_except(pre, post, j as int));
                    assert forall|a: int, b: int| 0 <= a < b < post.len() implies post[a].id
                        < post[b].id by {
                        assert(post[a].id == pre[a].id);
                        assert(post[b].id == pre[b].id);
                    }
                }
                1
            },
            None => 0,
        }
    }

    /// Hard delete: permanently remove the row with `id` together with
    /// its search-index entry.  The id is never reassigned, since
    /// `next_id` only ever grows.  Returns the matched-row count.
    pub fn delete_note(&mut self, id: i64) -> (n: usize)
        requires
            old(self).wf(),
        ensures
            final(self).wf(),
            final(self).folders@ == old(self).folders@,
            final(self).next_id == old(self).next_id,
            n <= 1,
            n == 0 <==> !id_present(old(self).notes@, id),
            n == 0 ==> final(self).notes@ == old(self).notes@,
            n == 1 ==> exists|j: int|
                {
                    &&& 0 <= j < old(self).notes@.len()
                    &&& (#[trigger] old(self).notes@[j]).id == id
                    &&& final(self).notes@ == old(self).notes@.remove(j)
                },
            !id_present(final(self).notes@, id),
    {
        match self.find_pos(id) {
            Some(j) => {
                self.notes.remove(j);
                self.index.remove(j);
                proof {
                    let pre = old(self).notes@;
                    let post = self.notes@;
                    assert forall|a: int, b: int| 0 <= a < b < post.len() implies post[a].id
                        < post[b].id by {
                        let a0 = if a < j { a } else { a + 1 };
                        let b0 = if b < j { b } else { b + 1 };
                        assert(post[a] == pre[a0]);
                        assert(post[b] == pre[b0]);
                    }
                    assert forall|k: int| 0 <= k < post.len() implies (#[trigger] post[k].id)
                        != id by {
                        let k0 = if k < j { k } else { k + 1 };
                        assert(post[k] == pre[k0]);
                    }
                }
                1
            },
            None => 0,
        }
    }

    /// Retention cleanup: hard-delete every trashed row whose
    /// `deleted_at` lies before `now` minus the retention window, row and
    /// index entry together, leaving every other row untouched.  Active
    /// rows (`deleted_at == None`) are never purged, whatever their age.
    /// Returns how many rows were purged.
    pub fn cleanup_old_notes_at(&mut self, now: i64) -> (purged: usize)
        requires
            old(self).wf(),
        ensures
            final(self).wf(),
            final(self).folders@ == old(self).folders@,
            final(self).next_id == old(self).next_id,
            final(self).notes@ == surviving_rows(old(self).notes@, cleanup_cutoff(now)),
            purged == old(self).notes@.len() - final(self).notes@.len(),
    {
        let cutoff = if now >= i64::MIN + RETENTION_SECONDS {
            now - RETENTION_SECONDS
        } else {
            now
        };
        assert(cutoff == cleanup_cutoff(now));
        let mut kept: Vec<Note> = Vec::new();
        let mut kept_index: Vec<IndexEntry> = Vec::new();
        let mut i: usize = 0;
        while i < self.notes.len()
            invariant
                i <= self.notes@.len(),
                self.notes@ == old(self).notes@,
                self.index@ == old(self).index@,
                old(self).wf(),
                cutoff == cleanup_cutoff(now),
                kept@ == surviving_rows(self.notes@.take(i as int), cutoff as int),
                index_inv(kept@, kept_index@),
            decreases self.notes@.len() - i,
        {
            proof {
                assert(self.notes@.take(i + 1 as int) =~= self.notes@.take(i as int).push(
                    self.notes@[i as int],
                ));
                lemma_surviving_rows_push(
                    self.notes@.take(i as int),
                    self.notes@[i as int],
                    cutoff as int,
                );
            }
            let keep = match self.notes[i].deleted_at {
                Some(d) => !(d < cutoff),
                None => true,
            };
            if keep {
                kept.push(self.notes[i].clone());
                kept_index.push(self.index[i].clone());
            }
            i = i + 1;
        }
        proof {
            assert(self.notes@.take(self.notes@.len() as int) =~= self.notes@);
            lemma_surviving_rows_wf(self.notes@, cutoff as int);
        }
        let purged = self.notes.len() - kept.len();
        self.notes = kept;
        self.index = kept_index;
        proof {
            let pre = old(self).notes@;
            let post = self.notes@;
            assert forall|k: int| 0 <= k < post.len() implies 1 <= (#[trigger] post[k].id)
                < self.next_id && ((post[k].deleted_at is None) <==> !(post[k].folder
                is TrashFolder)) by {
                let j = choose|j: int| 0 <= j < pre.len() && post[k] == pre[j];
                assert(1 <= pre[j].id < self.next_id);
            }
        }
        purged
    }

    /// Full-text search: the rows the query matches (see
    /// [`crate::text::note_matches`]), best match first, by descending
    /// relevance.  Matching and ranking go through the search index,
    /// which the store keeps identical to the primary rows.
    pub fn search_notes(&self, query: &str) -> (r: Vec<Note>)
        requires
            self.wf(),
        ensures
            r@.to_multiset() == matching_rows(self.notes@, query@).to_multiset(),
            forall|a: int, b: int|
                0 <= a < b < r@.len() ==> relevance(query@, #[trigger] r@[a].title@, r@[a].body@)
                    >= relevance(query@, #[trigger] r@[b].title@, r@[b].body@),
            forall|k: int| 0 <= k < r@.len() ==> row_of(self.notes@, #[trigger] r@[k]),
            forall|k: int|
                0 <= k < r@.len() ==> note_matches(
                    query@,
                    (#[trigger] r@[k]).title@,
                    r@[k].body@,
                ),
    {
        let qc = chars_of(query);
        let mut found: Vec<Note> = Vec::new();
        let mut scores: Vec<u128> = Vec::new();
        let mut i: usize = 0;
        while i < self.index.len()
            invariant
                self.wf(),
                i <= self.notes@.len(),
                qc@ == query@,
                found@ == matching_rows(self.notes@.take(i as int), query@),
                scores@.len() == found@.len(),
                forall|k: int|
                    0 <= k < found@.len() ==> (#[trigger] scores@[k]) as int == relevance(
                        query@,
                        found@[k].title@,
                        found@[k].body@,
                    ),
            decreases self.notes@.len() - i,
        {
            proof {
                assert(self.notes@.take(i + 1 as int) =~= self.notes@.take(i as int).push(
                    self.notes@[i as int],
                ));
                lemma_matching_rows_push(self.notes@.take(i as int), self.notes@[i as int], query@);
                assert(self.index@[i as int].id == self.notes@[i as int].id);
            }
            let tc = chars_of(self.index[i].title.as_str());
            let bc = chars_of(self.index[i].body.as_str());
            if note_matches_x(&qc, &tc, &bc) {
                let sc = relevance_x(&qc, &tc, &bc);
                found.push(self.notes[i].clone());
                scores.push(sc);
            }
            i = i + 1;
        }
        proof {
            assert(self.notes@.take(self.notes@.len() as int) =~= self.notes@);
        }
        let ghost all_matching = matching_rows(self.notes@, query@);
        let mut si: usize = 1;
        while si < found.len()
            invariant
                1 <= si,
                scores@.len() == found@.len(),
                qc@ == query@,
                found@.to_multiset() == all_matching.to_multiset(),
                forall|k: int|
                    0 <= k < found@.len() ==> (#[trigger] scores@[k]) as int == relevance(
                        query@,
                        found@[k].title@,
                        found@[k].body@,
                    ),
                forall|a: int, b: int| 0 <= a < b < si && b < scores@.len() ==> scores@[a]
                    >= scores@[b],
            decreases found@.len() - si,
        {
            let ghost pre_found = found@;
            let ghost pre_scores = scores@;
            let x = found.remove(si);
            let xs = scores.remove(si);
            let mut p: usize = 0;
            while p < si && scores[p] >= xs
                invariant
                    p <= si,
                    si <= scores@.len(),
                    scores@ == pre_scores.remove(si as int),
                    forall|k: int| 0 <= k < p ==> (#[trigger] scores@[k]) >= xs,
                decreases si - p,
            {
                p = p + 1;
            }
            found.insert(p, x);
            scores.insert(p, xs);
            proof {
                broadcast use vstd::seq_lib::group_to_multiset_ensures;
                broadcast use vstd::seq_lib::to_multiset_insert;

                assert(pre_found.contains(pre_found[si as int]));
                assert(pre_found.to_multiset().count(x) > 0);
                assert(found@.to_multiset() =~= pre_found.to_multiset());
                assert forall|a: int, b: int|
                    0 <= a < b < si + 1 && b < scores@.len() implies (#[trigger] scores@[a])
                    >= (#[trigger] scores@[b]) by {
                    let rem = pre_scores.remove(si as int);
                    if b < p {
                    } else if b == p {
                        assert(scores@[b] == xs);
                    } else {
                        assert(scores@[b] == rem[b - 1]);
                        if a < p {
                        } else if a == p {
                            assert(scores@[a] == xs);
                            assert(p < si);
                            assert(rem[p as int] < xs);
                            if b - 1 > p {
                                assert(rem[p as int] >= rem[b - 1]);
                            }
                        } else {
                            assert(scores@[a] == rem[a - 1]);
                        }
                    }
                }
                assert forall|k: int| 0 <= k < found@.len() implies (#[trigger] scores@[k]) as int
                    == relevance(query@, found@[k].title@, found@[k].body@) by {
                    let rem_f = pre_found.remove(si as int);
                    let rem_s = pre_scores.remove(si as int);
                    if k < p {
                        assert(found@[k] == rem_f[k]);
                        assert(scores@[k] == rem_s[k]);
                    } else if k == p {
                        assert(found@[k] == x);
                        assert(scores@[k] == xs);
                    } else {
                        assert(found@[k] == rem_f[k - 1]);
                        assert(scores@[k] == rem_s[k - 1]);
                    }
                }
            }
            si = si + 1;
        }
        proof {
            broadcast use vstd::seq_lib::group_to_multiset_ensures;

            lemma_matching_rows_props(self.notes@, query@);
            assert forall|k: int| 0 <= k < found@.len() implies row_of(
                self.notes@,
                #[trigger] found@[k],
            ) && note_matches(query@, found@[k].title@, found@[k].body@) by {
                assert(found@.contains(found@[k]));
                assert(found@.to_multiset().count(found@[k]) > 0);
                assert(all_matching.to_multiset().count(found@[k]) > 0);
                assert(all_matching.contains(found@[k]));
                let m = choose|m: int| 0 <= m < all_matching.len() && all_matching[m] == found@[k];
                assert(all_matching[m] == matching_rows(self.notes@, query@)[m]);
                assert(row_of(self.notes@, found@[k]));
                assert(note_matches(query@, found@[k].title@, found@[k].body@));
            }
            assert forall|a: int, b: int| 0 <= a < b < found@.len() implies relevance(
                query@,
                #[trigger] found@[a].title@,
                found@[a].body@,
            ) >= relevance(query@, #[trigger] found@[b].title@, found@[b].body@) by {
                assert(scores@[a] >= scores@[b]);
                assert(scores@[a] as int == relevance(query@, found@[a].title@, found@[a].body@));
                assert(scores@[b] as int == relevance(query@, found@[b].title@, found@[b].body@));
            }
        }
        found
    }
}

/// Relies on chrono's `Utc::now` and `DateTime::timestamp`: the current
/// moment, as whole seconds since the Unix epoch.  Nothing is assumed of
/// the reading; callers state what holds of every value.
#[verifier::external_body]
fn now_timestamp() -> i64 {
    chrono::Utc::now().timestamp()
}

impl NoteStore {
    /// [`Self::add_note_at`] stamped with the current clock reading.
    pub fn add_note(&mut self, title: String, body: String) -> (id: i64)
        requires
            old(self).wf(),
            old(self).next_id < i64::MAX,
        ensures
            final(self).wf(),
            id == old(self).next_id,
            final(self).next_id == old(self).next_id + 1,
            final(self).folders@ == old(self).folders@,
            final(self).notes@.len() == old(self).notes@.len() + 1,
            final(self).notes@.drop_last() == old(self).notes@,
            exists|t: i64| added_note(final(self).notes@.last(), id, title@, body@, t),
    {
        let now = now_timestamp();
        let ghost t = title@;
        let ghost b = body@;
        let id = self.add_note_at(title, body, now);
        proof {
            assert(added_note(self.notes@.last(), id, t, b, now));
        }
        id
    }

    /// [`Self::move_to_trash_at`] stamped with the current clock reading.
    pub fn move_to_trash(&mut self, id: i64) -> (n: usize)
        requires
            old(self).wf(),
        ensures
            final(self).wf(),
            final(self).folders@ == old(self).folders@,
            final(self).next_id == old(self).next_id,
            n <= 1,
            n == 0 <==> !id_present(old(self).notes@, id),
            n == 0 ==> final(self).notes@ == old(self).notes@,
            n == 1 ==> exists|j: int|
                {
                    &&& 0 <= j < old(self).notes@.len()
                    &&& (#[trigger] old(self).notes@[j]).id == id
                    &&& same_except(old(self).notes@, final(self).notes@, j)
                    &&& final(self).notes@[j].id == id
                    &&& final(self).notes@[j].title == old(self).notes@[j].title
                    &&& final(self).notes@[j].body == old(self).notes@[j].body
                    &&& final(self).notes@[j].created_at == old(self).notes@[j].created_at
                    &&& final(self).notes@[j].last_edited == old(self).notes@[j].last_edited
                    &&& final(self).notes@[j].folder is TrashFolder
                    &&& final(self).notes@[j].deleted_at is Some
                },
    {
        let now = now_timestamp();
        self.move_to_trash_at(id, now)
    }

    /// [`Self::edit_note_at`] stamped with the current clock reading.
    pub fn edit_note(&mut self, id: i64, new_title: String, new_body: String) -> (n: usize)
        requires
            old(self).wf(),
        ensures
            final(self).wf(),
            final(self).folders@ == old(self).folders@,
            final(self).next_id == old(self).next_id,
            n <= 1,
            n == 0 <==> !id_present(old(self).notes@, id),
            n == 0 ==> final(self).notes@ == old(self).notes@,
            n == 1 ==> exists|j: int|
                {
                    &&& 0 <= j < old(self).notes@.len()
                    &&& (#[trigger] old(self).notes@[j]).id == id
                    &&& same_except(old(self).notes@, final(self).notes@, j)
                    &&& final(self).notes@[j].id == id
                    &&& final(self).notes@[j].title@ == new_title@
                    &&& final(self).notes@[j].body@ == new_body@
                    &&& final(self).notes@[j].created_at == old(self).notes@[j].created_at
                    &&& final(self).notes@[j].folder == old(self).notes@[j].folder
                    &&& final(self).notes@[j].deleted_at == old(self).notes@[j].deleted_at
                },
    {
        let now = now_timestamp();
        self.edit_note_at(id, new_title, new_body, now)
    }

    /// [`Self::cleanup_old_notes_at`] against the current clock reading.
    pub fn cleanup_old_notes(&mut self) -> (purged: usize)
        requires
            old(self).wf(),
        ensures
            final(self).wf(),
            final(self).folders@ == old(self).folders@,
            final(self).next_id == old(self).next_id,
            exists|t: i64|
                final(self).notes@ == surviving_rows(old(self).notes@, cleanup_cutoff(t)),
            purged == old(self).notes@.len() - final(self).notes@.len(),
    {
        let now = now_timestamp();
        let purged = self.cleanup_old_notes_at(now);
        proof {
            assert(self.notes@ == surviving_rows(old(self).notes@, cleanup_cutoff(now)));
        }
        purged
    }

    /// Rebuild a store from previously persisted rows: validate them,
    /// derive the search index from them, and pick up id assignment
    /// after the highest id.  Rejects rows that no sequence of store
    /// operations could have produced.
    pub fn from_rows(rows: Vec<Note>) -> (r: Option<NoteStore>)
        ensures
            match r {
                Some(s) => {
                    &&& loadable_rows(rows@)
                    &&& s.wf()
                    &&& s.notes@ == rows@
                    &&& s.folders@ == seed_folders(Seq::<FolderRow>::empty())
                    &&& s.next_id == if rows@.len() == 0 {
                        1int
                    } else {
                        rows@.last().id + 1
                    }
                },
                None => !loadable_rows(rows@),
            },
    {
        let mut i: usize = 0;
        while i < rows.len()
            invariant
                i <= rows@.len(),
                forall|k: int| 0 <= k < i ==> 1 <= (#[trigger] rows@[k].id) < i64::MAX,
                forall|k: int| 0 < k < i ==> rows@[k - 1].id < (#[trigger] rows@[k].id),
                forall|k: int|
                    0 <= k < i ==> (((#[trigger] rows@[k].deleted_at) is None) <==> !(rows@[k].folder
                        is TrashFolder)),
            decreases rows@.len() - i,
        {
            if rows[i].id < 1 || rows[i].id == i64::MAX {
                return None;
            }
            if i > 0 && rows[i - 1].id >= rows[i].id {
                return None;
            }
            let consistent = match rows[i].deleted_at {
                Some(_) => rows[i].folder.is_trash(),
                None => !rows[i].folder.is_trash(),
            };
            if !consistent {
                return None;
            }
            i = i + 1;
        }
        proof {
            lemma_adjacent_sorted(rows@);
        }
        let mut index: Vec<IndexEntry> = Vec::new();
        let mut j: usize = 0;
        while j < rows.len()
            invariant
                j <= rows@.len(),
                index_inv(rows@.take(j as int), index@),
            decreases rows@.len() - j,
        {
            index.push(
                IndexEntry {
                    id: rows[j].id,
                    title: rows[j].title.clone(),
                    body: rows[j].body.clone(),
                },
            );
            j = j + 1;
        }
        let next_id = if rows.len() == 0 {
            1
        } else {
            rows[rows.len() - 1].id + 1
        };
        let mut s = NoteStore { notes: rows, index, folders: Vec::new(), next_id };
        s.init_db();
        proof {
            assert(index_inv(s.notes@.take(s.notes@.len() as int), s.index@));
            assert(s.notes@.take(s.notes@.len() as int) =~= s.notes@);
            assert forall|k: int| 0 <= k < s.notes@.len() implies 1 <= (#[trigger] s.notes@[k].id)
                < s.next_id by {
                if k < s.notes@.len() - 1 {
                    assert(s.notes@[k].id < s.notes@[s.notes@.len() - 1].id);
                }
            }
        }
        Some(s)
    }
}

/// Rows that a sequence of store operations could have produced: ids
/// strictly increasing, at least 1 and with room above for the next id,
/// `deleted_at` set exactly on trashed rows.
pub open spec fn loadable_rows(rows: Seq<Note>) -> bool {
    &&& forall|i: int, j: int| 0 <= i < j < rows.len() ==> rows[i].id < rows[j].id
    &&& forall|i: int| 0 <= i < rows.len() ==> 1 <= (#[trigger] rows[i].id) < i64::MAX
    &&& forall|i: int|
        0 <= i < rows.len() ==> (((#[trigger] rows[i].deleted_at) is None) <==> !(rows[i].folder
            is TrashFolder))
}

/// Rows whose adjacent ids increase have strictly increasing ids
/// throughout.
proof fn lemma_sorted_pair(rows: Seq<Note>, i: int, j: int)
    requires
        forall|k: int| 0 < k < rows.len() ==> rows[k - 1].id < (#[trigger] rows[k].id),
        0 <= i < j < rows.len(),
    ensures
        rows[i].id < rows[j].id,
    decreases j - i,
{
    if j == i + 1 {
        assert(rows[j - 1].id < rows[j].id);
    } else {
        lemma_sorted_pair(rows, i, j - 1);
        assert(rows[j - 1].id < rows[j].id);
    }
}

proof fn lemma_adjacent_sorted(rows: Seq<Note>)
    requires
        forall|k: int| 0 < k < rows.len() ==> rows[k - 1].id < (#[trigger] rows[k].id),
    ensures
        forall|i: int, j: int| 0 <= i < j < rows.len() ==> rows[i].id < rows[j].id,
{
    assert forall|i: int, j: int| 0 <= i < j < rows.len() implies rows[i].id < rows[j].id by {
        lemma_sorted_pair(rows, i, j);
    }
}

/// A lightweight listing item: the fields a list view shows.
#[derive(Debug, PartialEq)]
pub struct NoteItem {
    pub id: i64,
    pub title: String,
    pub body: String,
    pub created_at: i64,
}

impl Clone for NoteItem {
    fn clone(&self) -> (r: Self)
        ensures
            r == *self,
    {
        NoteItem {
            id: self.id,
            title: self.title.clone(),
            body: self.body.clone(),
            created_at: self.created_at,
        }
    }
}

impl NoteItem {
    /// Project a note onto its listing fields.
    pub fn from_note(n: &Note) -> (r: NoteItem)
        ensures
            r.id == n.id,
            r.title@ == n.title@,
            r.body@ == n.body@,
            r.created_at == n.created_at,
    {
        NoteItem {
            id: n.id,
            title: n.title.clone(),
            body: n.body.clone(),
            created_at: n.created_at,
        }
    }
}

/// The rows a query matches.
pub open spec fn matching_rows(rows: Seq<Note>, q: Seq<char>) -> Seq<Note> {
    rows.filter(|n: Note| note_matches(q, n.title@, n.body@))
}

/// One unfolding step of [`matching_rows`] at the back of the sequence.
pub proof fn lemma_matching_rows_push(s: Seq<Note>, x: Note, q: Seq<char>)
    ensures
        matching_rows(s.push(x), q) == if note_matches(q, x.title@, x.body@) {
            matching_rows(s, q).push(x)
        } else {
            matching_rows(s, q)
        },
{
    assert(s.push(x).drop_last() =~= s);
    assert(s.push(x).last() == x);
    reveal_with_fuel(Seq::filter, 2);
}

/// Every matched row is one of the input rows, and matches the query.
pub proof fn lemma_matching_rows_props(s: Seq<Note>, q: Seq<char>)
    ensures
        matching_rows(s, q).len() <= s.len(),
        forall|k: int|
            0 <= k < matching_rows(s, q).len() ==> row_of(s, #[trigger] matching_rows(s, q)[k]),
        forall|k: int|
            0 <= k < matching_rows(s, q).len() ==> note_matches(
                q,
                (#[trigger] matching_rows(s, q)[k]).title@,
                matching_rows(s, q)[k].body@,
            ),
    decreases s.len(),
{
    reveal_with_fuel(Seq::filter, 2);
    if s.len() == 0 {
    } else {
        let sub = s.drop_last();
        lemma_matching_rows_props(sub, q);
        assert(s =~= sub.push(s.last()));
        lemma_matching_rows_push(sub, s.last(), q);
        let out = matching_rows(s, q);
        let out_sub = matching_rows(sub, q);
        assert forall|k: int| 0 <= k < out.len() implies row_of(s, #[trigger] out[k]) by {
            if k < out_sub.len() {
                assert(row_of(sub, out_sub[k]));
                let j = choose|j: int| 0 <= j < sub.len() && out_sub[k] == sub[j];
                assert(out[k] == s[j]);
            } else {
                assert(out[k] == s[s.len() - 1]);
            }
        }
        assert forall|k: int| 0 <= k < out.len() implies note_matches(
            q,
            (#[trigger] out[k]).title@,
            out[k].body@,
        ) by {
            if k < out_sub.len() {
                assert(out[k] == out_sub[k]);
            } else {
                assert(out[k] == s.last());
            }
        }
    }
}

/// The rows that sit in the trash.
pub open spec fn trash_rows(rows: Seq<Note>) -> Seq<Note> {
    rows.filter(|n: Note| n.folder is TrashFolder)
}

/// The rows that cleanup leaves in place.
pub open spec fn surviving_rows(rows: Seq<Note>, cutoff: int) -> Seq<Note> {
    rows.filter(|n: Note| !expired(n, cutoff))
}

/// One unfolding step of [`trash_rows`] at the back of the sequence.
pub proof fn lemma_trash_rows_push(s: Seq<Note>, x: Note)
    ensures
        trash_rows(s.push(x)) == if x.folder is TrashFolder {
            trash_rows(s).push(x)
        } else {
            trash_rows(s)
        },
{
    assert(s.push(x).drop_last() =~= s);
    assert(s.push(x).last() == x);
    reveal_with_fuel(Seq::filter, 2);
}

/// One unfolding step of [`surviving_rows`] at the back of the sequence.
pub proof fn lemma_surviving_rows_push(s: Seq<Note>, x: Note, cutoff: int)
    ensures
        surviving_rows(s.push(x), cutoff) == if !expired(x, cutoff) {
            surviving_rows(s, cutoff).push(x)
        } else {
            surviving_rows(s, cutoff)
        },
{
    assert(s.push(x).drop_last() =~= s);
    assert(s.push(x).last() == x);
    reveal_with_fuel(Seq::filter, 2);
}

/// What cleanup keeps is a subsequence: no longer than the input, every
/// element one of the input's, none of them expired, every unexpired
/// input row still present, and ids still strictly increasing when the
/// input's were.
pub proof fn lemma_surviving_rows_wf(s: Seq<Note>, cutoff: int)
    ensures
        surviving_rows(s, cutoff).len() <= s.len(),
        forall|k: int|
            0 <= k < surviving_rows(s, cutoff).len() ==> exists|j: int|
                0 <= j < s.len() && (#[trigger] surviving_rows(s, cutoff)[k]) == s[j],
        forall|k: int|
            0 <= k < surviving_rows(s, cutoff).len() ==> !expired(
                #[trigger] surviving_rows(s, cutoff)[k],
                cutoff,
            ),
        forall|j: int|
            0 <= j < s.len() && !expired(#[trigger] s[j], cutoff) ==> row_of(
                surviving_rows(s, cutoff),
                s[j],
            ),
        (forall|a: int, b: int| 0 <= a < b < s.len() ==> s[a].id < s[b].id) ==> (forall|
            a: int,
            b: int,
        |
            0 <= a < b < surviving_rows(s, cutoff).len() ==> surviving_rows(s, cutoff)[a].id
                < surviving_rows(s, cutoff)[b].id),
    decreases s.len(),
{
    reveal_with_fuel(Seq::filter, 2);
    if s.len() == 0 {
    } else {
        let sub = s.drop_last();
        lemma_surviving_rows_wf(sub, cutoff);
        assert(s =~= sub.push(s.last()));
        lemma_surviving_rows_push(sub, s.last(), cutoff);
        let out = surviving_rows(s, cutoff);
        let out_sub = surviving_rows(sub, cutoff);
        assert forall|k: int| 0 <= k < out.len() implies exists|j: int|
            0 <= j < s.len() && (#[trigger] out[k]) == s[j] by {
            if k < out_sub.len() {
                let j = choose|j: int| 0 <= j < sub.len() && out_sub[k] == sub[j];
                assert(out[k] == s[j]);
            } else {
                assert(out[k] == s[s.len() - 1]);
            }
        }
        assert forall|k: int| 0 <= k < out.len() implies !expired(#[trigger] out[k], cutoff) by {
            if k < out_sub.len() {
                assert(out[k] == out_sub[k]);
            } else {
                assert(out[k] == s.last());
            }
        }
        assert forall|j: int| 0 <= j < s.len() && !expired(#[trigger] s[j], cutoff) implies row_of(
            out,
            s[j],
        ) by {
            if j < sub.len() {
                assert(row_of(out_sub, sub[j]));
                let k = choose|k: int| 0 <= k < out_sub.len() && sub[j] == out_sub[k];
                assert(s[j] == out[k]);
            } else {
                assert(s[j] == out[out.len() - 1]);
            }
        }
        if forall|a: int, b: int| 0 <= a < b < s.len() ==> s[a].id < s[b].id {
            assert forall|a: int, b: int| 0 <= a < b < out.len() implies out[a].id
                < out[b].id by {
                if b < out_sub.len() {
                } else {
                    let j = choose|j: int| 0 <= j < sub.len() && out_sub[a] == sub[j];
                    assert(out[b] == s[s.len() - 1]);
                    assert(out[a] == s[j]);
                }
            }
        }
    }
}

/// Seeding establishes the folder invariant whenever names were unique
/// before, and preserves it.
pub proof fn lemma_seed_folders_inv(folders: Seq<FolderRow>)
    ensures
        (forall|i: int, j: int|
            0 <= i < j < folders.len() ==> !folder_eq(
                #[trigger] folders[i].name,
                #[trigger] folders[j].name,
            )) ==> folders_inv(seed_folders(folders)),
        has_default(seed_folders(folders)),
        has_trash(seed_folders(folders)),
        folders_inv(folders) ==> seed_folders(folders) == folders,
{
    let out = seed_folders(folders);
    assert(has_default(out)) by {
        if has_default(folders) {
            let i = choose|i: int| 0 <= i < folders.len() && folders[i].name is DefaultFolder;
            assert(out[i].name is DefaultFolder);
        } else {
            assert(out[folders.len() as int].name is DefaultFolder);
        }
    }
    assert(has_trash(out)) by {
        let wd = if has_default(folders) {
            folders
        } else {
            folders.push(default_row())
        };
        if has_trash(wd) {
            let i = choose|i: int| 0 <= i < wd.len() && wd[i].name is TrashFolder;
            assert(out[i].name is TrashFolder);
        } else {
            assert(out[wd.len() as int].name is TrashFolder);
        }
    }
}

/// Initialization is idempotent: a second run finds both reserved
/// folders present and changes nothing.
pub proof fn lemma_seed_folders_idempotent(folders: Seq<FolderRow>)
    ensures
        seed_folders(seed_folders(folders)) == seed_folders(folders),
{
    lemma_seed_folders_inv(folders);
}

} // verus!
