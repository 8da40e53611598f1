use stuck::policy::{prepare_add_input, prepare_edit_input};
use stuck::store::{FolderName, NoteItem, NoteStore};

#[test]
fn add_input_rejects_all_whitespace() {
    assert_eq!(prepare_add_input("   ", " \t\n "), None);
    assert_eq!(prepare_add_input("", ""), None);
}

#[test]
fn add_input_substitutes_untitled() {
    let (t, b) = prepare_add_input("  ", " shopping list ").unwrap();
    assert_eq!(t, "Untitled");
    assert_eq!(b, "shopping list");
}

#[test]
fn add_input_trims_both_fields() {
    let (t, b) = prepare_add_input("  a title ", "\tthe body\n").unwrap();
    assert_eq!(t, "a title");
    assert_eq!(b, "the body");
}

#[test]
fn edit_input_rejects_empty_and_keeps_trimmed() {
    assert_eq!(prepare_edit_input(" ", "\t"), None);
    let (t, b) = prepare_edit_input("", " new body ").unwrap();
    assert_eq!(t, "");
    assert_eq!(b, "new body");
}

#[test]
fn from_rows_rebuilds_a_store() {
    let mut src = NoteStore::new();
    let a = src.add_note_at("Grocery list".to_string(), "milk eggs bread".to_string(), 1);
    let b = src.add_note_at("second".to_string(), "note".to_string(), 2);
    src.move_to_trash_at(b, 3);
    let rows = src.list_notes();
    let s = NoteStore::from_rows(rows).unwrap();
    assert_eq!(s.next_id, 3);
    let hit = s.search_notes("milk");
    assert_eq!(hit.len(), 1);
    assert_eq!(hit[0].id, a);
    assert!(matches!(s.get_note_by_id(b).unwrap().folder, FolderName::TrashFolder));
}

#[test]
fn from_rows_rejects_inconsistent_rows() {
    let mut src = NoteStore::new();
    let a = src.add_note_at("a".to_string(), "".to_string(), 1);
    src.add_note_at("b".to_string(), "".to_string(), 2);
    let mut rows = src.list_notes();
    rows.swap(0, 1);
    assert!(NoteStore::from_rows(rows).is_none());

    let mut rows2 = src.list_notes();
    rows2[0].deleted_at = Some(5);
    let _ = a;
    assert!(NoteStore::from_rows(rows2).is_none());
}

#[test]
fn note_item_projects_listing_fields() {
    let mut s = NoteStore::new();
    let id = s.add_note_at("t".to_string(), "b".to_string(), 7);
    let n = s.get_note_by_id(id).unwrap();
    let item = NoteItem::from_note(&n);
    assert_eq!(item.id, id);
    assert_eq!(item.title, "t");
    assert_eq!(item.body, "b");
    assert_eq!(item.created_at, 7);
}
