use stuck::store::{FolderName, NoteStore, StorageError};

const DAY: i64 = 86400;

#[test]
fn add_then_get_matches() {
    let mut s = NoteStore::new();
    let id = s.add_note_at("Grocery list".to_string(), "milk eggs bread".to_string(), 100);
    assert_eq!(id, 1);
    let n = s.get_note_by_id(id).unwrap();
    assert_eq!(n.title, "Grocery list");
    assert_eq!(n.body, "milk eggs bread");
    assert_eq!(n.created_at, n.last_edited);
    assert!(matches!(n.folder, FolderName::DefaultFolder));
    assert_eq!(n.deleted_at, None);
}

#[test]
fn add_via_clock_stamps_both_timestamps() {
    let mut s = NoteStore::new();
    let id = s.add_note("a".to_string(), "b".to_string());
    let n = s.get_note_by_id(id).unwrap();
    assert_eq!(n.created_at, n.last_edited);
    assert_eq!(n.deleted_at, None);
    assert!(matches!(n.folder, FolderName::DefaultFolder));
    assert_eq!(n.title, "a");
}

#[test]
fn ids_distinct_and_increasing() {
    let mut s = NoteStore::new();
    let a = s.add_note_at("one".to_string(), "".to_string(), 1);
    let b = s.add_note_at("two".to_string(), "".to_string(), 2);
    let c = s.add_note_at("three".to_string(), "".to_string(), 3);
    assert!(a < b && b < c);
    assert_eq!((a, b, c), (1, 2, 3));
}

#[test]
fn ids_not_reused_after_hard_delete() {
    let mut s = NoteStore::new();
    let a = s.add_note_at("one".to_string(), "".to_string(), 1);
    assert_eq!(s.delete_note(a), 1);
    let b = s.add_note_at("two".to_string(), "".to_string(), 2);
    assert!(b > a);
}

#[test]
fn search_prefix_matches() {
    let mut s = NoteStore::new();
    let id = s.add_note_at("Grocery list".to_string(), "milk eggs bread".to_string(), 100);
    let hit = s.search_notes("milk");
    assert_eq!(hit.len(), 1);
    assert_eq!(hit[0].id, id);
    let prefix_hit = s.search_notes("mil");
    assert_eq!(prefix_hit.len(), 1);
    assert_eq!(prefix_hit[0].id, id);
    let miss = s.search_notes("xylophone");
    assert!(miss.is_empty());
}

#[test]
fn search_matches_title_too() {
    let mut s = NoteStore::new();
    let id = s.add_note_at("Grocery list".to_string(), "milk eggs bread".to_string(), 100);
    let hit = s.search_notes("Grocery");
    assert_eq!(hit.len(), 1);
    assert_eq!(hit[0].id, id);
}

#[test]
fn search_requires_every_token() {
    let mut s = NoteStore::new();
    s.add_note_at("Grocery list".to_string(), "milk eggs bread".to_string(), 100);
    assert_eq!(s.search_notes("milk bread").len(), 1);
    assert_eq!(s.search_notes("milk xylophone").len(), 0);
}

#[test]
fn search_ranks_best_match_first() {
    let mut s = NoteStore::new();
    let once = s.add_note_at("note".to_string(), "milk".to_string(), 1);
    let thrice = s.add_note_at("milk".to_string(), "milk milk".to_string(), 2);
    let r = s.search_notes("milk");
    assert_eq!(r.len(), 2);
    assert_eq!(r[0].id, thrice);
    assert_eq!(r[1].id, once);
}

#[test]
fn search_handles_unicode_words() {
    let mut s = NoteStore::new();
    let id = s.add_note_at("café menu".to_string(), "crème brûlée".to_string(), 1);
    let hit = s.search_notes("café");
    assert_eq!(hit.len(), 1);
    assert_eq!(hit[0].id, id);
    assert_eq!(s.search_notes("crème").len(), 1);
    assert_eq!(s.search_notes("créme").len(), 0);
}

#[test]
fn search_without_tokens_matches_everything() {
    let mut s = NoteStore::new();
    s.add_note_at("a".to_string(), "b".to_string(), 1);
    s.add_note_at("c".to_string(), "d".to_string(), 2);
    assert_eq!(s.search_notes("").len(), 2);
    assert_eq!(s.search_notes("  ...  ").len(), 2);
}

#[test]
fn edit_round_trip() {
    let mut s = NoteStore::new();
    let id = s.add_note_at("old title".to_string(), "old body".to_string(), 100);
    let n0 = s.get_note_by_id(id).unwrap();
    let affected = s.edit_note_at(id, "new title".to_string(), "new body".to_string(), 200);
    assert_eq!(affected, 1);
    let n = s.get_note_by_id(id).unwrap();
    assert_eq!(n.title, "new title");
    assert_eq!(n.body, "new body");
    assert!(n.last_edited > n0.last_edited);
    assert_eq!(n.created_at, n0.created_at);
}

#[test]
fn search_reflects_edit() {
    let mut s = NoteStore::new();
    let id = s.add_note_at("old title".to_string(), "old body".to_string(), 100);
    s.edit_note_at(id, "fresh words".to_string(), "entirely new".to_string(), 200);
    assert!(s.search_notes("old").is_empty());
    assert!(s.search_notes("body").is_empty());
    let r = s.search_notes("fresh");
    assert_eq!(r.len(), 1);
    assert_eq!(r[0].id, id);
    assert_eq!(s.search_notes("entirely").len(), 1);
}

#[test]
fn trash_then_list_then_restore() {
    let mut s = NoteStore::new();
    let id = s.add_note_at("t".to_string(), "b".to_string(), 100);
    assert_eq!(s.move_to_trash_at(id, 150), 1);
    let listed = s.list_notes();
    assert_eq!(listed.len(), 1);
    assert!(matches!(listed[0].folder, FolderName::TrashFolder));
    assert_eq!(listed[0].deleted_at, Some(150));
    let trash = s.list_trash();
    assert_eq!(trash.len(), 1);
    assert_eq!(trash[0].id, id);
    assert_eq!(s.restore_note(id), 1);
    let n = s.get_note_by_id(id).unwrap();
    assert!(matches!(n.folder, FolderName::DefaultFolder));
    assert_eq!(n.deleted_at, None);
    assert!(s.list_trash().is_empty());
}

#[test]
fn trash_twice_restamps() {
    let mut s = NoteStore::new();
    let id = s.add_note_at("t".to_string(), "b".to_string(), 100);
    assert_eq!(s.move_to_trash_at(id, 150), 1);
    assert_eq!(s.move_to_trash_at(id, 180), 1);
    let n = s.get_note_by_id(id).unwrap();
    assert_eq!(n.deleted_at, Some(180));
}

#[test]
fn hard_delete_removes_row_and_index() {
    let mut s = NoteStore::new();
    let id = s.add_note_at("Grocery list".to_string(), "milk eggs bread".to_string(), 100);
    assert_eq!(s.delete_note(id), 1);
    assert_eq!(s.get_note_by_id(id), Err(StorageError::NotFound));
    assert!(s.search_notes("milk").iter().all(|n| n.id != id));
    assert!(s.search_notes("milk").is_empty());
    assert!(s.list_notes().is_empty());
}

#[test]
fn cleanup_respects_retention() {
    let mut s = NoteStore::new();
    let now = 100 * DAY;
    let old_trashed = s.add_note_at("old".to_string(), "old".to_string(), 1);
    let new_trashed = s.add_note_at("new".to_string(), "new".to_string(), 2);
    let active_old = s.add_note_at("active".to_string(), "ancient but active".to_string(), 3);
    s.move_to_trash_at(old_trashed, now - 31 * DAY);
    s.move_to_trash_at(new_trashed, now - 1 * DAY);
    let purged = s.cleanup_old_notes_at(now);
    assert_eq!(purged, 1);
    assert_eq!(s.get_note_by_id(old_trashed), Err(StorageError::NotFound));
    assert!(s.get_note_by_id(new_trashed).is_ok());
    assert!(s.get_note_by_id(active_old).is_ok());
}

#[test]
fn cleanup_boundary_is_strict() {
    let mut s = NoteStore::new();
    let now = 100 * DAY;
    let at_cutoff = s.add_note_at("edge".to_string(), "".to_string(), 1);
    s.move_to_trash_at(at_cutoff, now - 30 * DAY);
    assert_eq!(s.cleanup_old_notes_at(now), 0);
    assert!(s.get_note_by_id(at_cutoff).is_ok());
}

#[test]
fn init_twice_is_idempotent() {
    let mut s = NoteStore::new();
    let id = s.add_note_at("t".to_string(), "b".to_string(), 100);
    let folders_before = s.folders.clone();
    let notes_before = s.list_notes();
    s.init_db();
    s.init_db();
    assert_eq!(s.folders, folders_before);
    assert_eq!(s.list_notes(), notes_before);
    assert!(s.get_note_by_id(id).is_ok());
}

#[test]
fn reserved_folders_exist() {
    let s = NoteStore::new();
    assert!(s.folders.iter().any(|f| matches!(f.name, FolderName::DefaultFolder) && f.order_idx == 0));
    assert!(s.folders.iter().any(|f| matches!(f.name, FolderName::TrashFolder) && f.order_idx == 999));
    assert_eq!(s.folders.len(), 2);
}

#[test]
fn mutations_on_missing_id_affect_nothing() {
    let mut s = NoteStore::new();
    s.add_note_at("t".to_string(), "b".to_string(), 100);
    assert_eq!(s.edit_note_at(42, "x".to_string(), "y".to_string(), 200), 0);
    assert_eq!(s.move_to_trash_at(42, 200), 0);
    assert_eq!(s.restore_note(42), 0);
    assert_eq!(s.delete_note(42), 0);
    let listed = s.list_notes();
    assert_eq!(listed.len(), 1);
    assert_eq!(listed[0].title, "t");
    assert_eq!(listed[0].body, "b");
}

#[test]
fn clock_paths_trash_edit_cleanup() {
    let mut s = NoteStore::new();
    let id = s.add_note("t".to_string(), "b".to_string());
    assert_eq!(s.move_to_trash(id), 1);
    let n = s.get_note_by_id(id).unwrap();
    assert!(matches!(n.folder, FolderName::TrashFolder));
    assert!(n.deleted_at.is_some());
    // Freshly trashed: well inside the retention window, so kept.
    assert_eq!(s.cleanup_old_notes(), 0);
    assert_eq!(s.restore_note(id), 1);
    assert_eq!(s.edit_note(id, "t2".to_string(), "b2".to_string()), 1);
    let n2 = s.get_note_by_id(id).unwrap();
    assert_eq!(n2.title, "t2");
    assert_eq!(n2.body, "b2");
    assert_eq!(n2.created_at, n.created_at);
}

#[test]
fn list_returns_all_rows_unfiltered() {
    let mut s = NoteStore::new();
    let a = s.add_note_at("a".to_string(), "".to_string(), 1);
    let b = s.add_note_at("b".to_string(), "".to_string(), 2);
    s.move_to_trash_at(a, 3);
    let listed = s.list_notes();
    assert_eq!(listed.len(), 2);
    assert_eq!(listed[0].id, a);
    assert_eq!(listed[1].id, b);
}
