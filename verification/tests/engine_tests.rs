use notevault::engine::{
    note_name, resolve, AppendOutcome, CreateOutcome, DeleteOutcome, StorageEngine,
};
use notevault::index::ContentIndex;

fn count_title(engine: &StorageEngine, title: &[u8]) -> usize {
    engine.list_titles().iter().filter(|t| t.as_slice() == title).count()
}

#[test]
fn resolve_is_stable_and_exact() {
    assert_eq!(resolve(b"contents"), resolve(b"contents"));
    assert_eq!(
        resolve(b"contents"),
        b"d1b2a59fbea7e20077af9f91b27e95e865061b270be03ff539ab3b73587882e8".to_vec()
    );
    let n = note_name(b"contents");
    assert_eq!(
        n,
        b"d1b2a59fbea7e20077af9f91b27e95e865061b270be03ff539ab3b73587882e8.txt".to_vec()
    );
}

#[test]
fn create_lists_title_exactly_once() {
    let mut e = StorageEngine::new();
    assert!(e.ensure_main());
    assert!(matches!(e.create(b"todo"), CreateOutcome::Created));
    assert_eq!(count_title(&e, b"todo"), 1);
    // a second create is a no-op and does not double the entry
    assert!(matches!(e.create(b"todo"), CreateOutcome::AlreadyExists));
    assert_eq!(count_title(&e, b"todo"), 1);
}

#[test]
fn delete_removes_title_and_absent_is_noop() {
    let mut e = StorageEngine::new();
    assert!(e.ensure_main());
    assert!(matches!(e.create(b"todo"), CreateOutcome::Created));
    assert!(matches!(e.delete_by_title(b"todo"), DeleteOutcome::Deleted));
    assert_eq!(count_title(&e, b"todo"), 0);
    // no file resolves to the deleted title any more
    let gone = note_name(b"todo");
    assert!(e.export().iter().all(|f| f.name != gone));
    assert!(matches!(e.delete_by_title(b"todo"), DeleteOutcome::NotFound));
    assert_eq!(count_title(&e, b"todo"), 0);
}

#[test]
fn reserved_titles_are_exempt() {
    let mut e = StorageEngine::new();
    assert!(e.ensure_main());
    assert!(matches!(e.create(b"contents"), CreateOutcome::Reserved));
    assert!(matches!(e.create(b"main"), CreateOutcome::Reserved));
    assert!(matches!(e.delete_by_title(b"main"), DeleteOutcome::Reserved));
    assert!(matches!(e.delete_by_title(b"contents"), DeleteOutcome::Reserved));
}

#[test]
fn created_note_carries_title_header() {
    let mut e = StorageEngine::new();
    assert!(matches!(e.create(b"todo"), CreateOutcome::Created));
    let name = note_name(b"todo");
    let exported = e.export();
    let file = exported.iter().find(|f| f.name == name).unwrap();
    assert_eq!(file.data, b"Title: todo\n".to_vec());
}

#[test]
fn append_line_extends_the_note() {
    let mut e = StorageEngine::new();
    assert!(matches!(e.create(b"todo"), CreateOutcome::Created));
    assert!(matches!(e.append_line(b"todo", b"2023-01-01 hi"), AppendOutcome::Appended));
    let name = note_name(b"todo");
    let exported = e.export();
    let file = exported.iter().find(|f| f.name == name).unwrap();
    assert_eq!(file.data, b"Title: todo\n2023-01-01 hi\n".to_vec());
}

#[test]
fn landing_note_receives_plain_lines() {
    let mut e = StorageEngine::new();
    assert!(e.ensure_main());
    assert!(matches!(e.append_line(b"main", b"2023-01-01 note"), AppendOutcome::Appended));
    let name = note_name(b"main");
    let exported = e.export();
    let file = exported.iter().find(|f| f.name == name).unwrap();
    assert_eq!(file.data, b"Title: main\n2023-01-01 note\n".to_vec());
}

#[test]
fn append_line_rejects_index_and_missing_notes() {
    let mut e = StorageEngine::new();
    assert!(matches!(e.append_line(b"contents", b"x"), AppendOutcome::Reserved));
    assert!(matches!(e.append_line(b"nowhere", b"x"), AppendOutcome::NotFound));
}

#[test]
fn export_load_roundtrip() {
    let mut e = StorageEngine::new();
    assert!(e.ensure_main());
    assert!(matches!(e.create(b"todo"), CreateOutcome::Created));
    assert!(matches!(e.append_line(b"todo", b"a line"), AppendOutcome::Appended));
    let titles_before: Vec<Vec<u8>> = e.list_titles().clone();
    let exported = e.export();
    let back = StorageEngine::load(exported).unwrap();
    assert_eq!(back.list_titles(), &titles_before);
    let name = note_name(b"todo");
    let again = back.export();
    let file = again.iter().find(|f| f.name == name).unwrap();
    assert_eq!(file.data, b"Title: todo\na line\n".to_vec());
}

#[test]
fn load_without_index_record_fails() {
    assert!(StorageEngine::load(Vec::new()).is_none());
}

#[test]
fn load_rejects_inconsistent_sets() {
    // an index that names a title whose note file is missing is corruption
    let mut e = StorageEngine::new();
    assert!(matches!(e.create(b"todo"), CreateOutcome::Created));
    let mut exported = e.export();
    let name = note_name(b"todo");
    exported.retain(|f| f.name != name);
    assert!(StorageEngine::load(exported).is_none());
}

#[test]
fn index_render_parse_roundtrip() {
    let idx = ContentIndex::from_titles(vec![b"main".to_vec(), b"todo".to_vec(), b"x".to_vec()]);
    let text = idx.render();
    assert_eq!(text, b"main\ntodo\nx\n".to_vec());
    let back = ContentIndex::parse(&text);
    assert_eq!(back.list(), idx.list());
}

#[test]
fn index_remove_first_occurrence_only() {
    let mut idx = ContentIndex::from_titles(vec![b"a".to_vec(), b"b".to_vec(), b"a".to_vec()]);
    idx.remove_title(b"a");
    assert_eq!(idx.list(), &vec![b"b".to_vec(), b"a".to_vec()]);
    // removing an absent title is a no-op
    idx.remove_title(b"zzz");
    assert_eq!(idx.list(), &vec![b"b".to_vec(), b"a".to_vec()]);
}

#[test]
fn index_parse_trailing_partial_line() {
    let idx = ContentIndex::parse(b"main\ntodo");
    assert_eq!(idx.list(), &vec![b"main".to_vec(), b"todo".to_vec()]);
    let empty = ContentIndex::parse(b"");
    assert_eq!(empty.len(), 0);
}

fn copy_set(files: &[notevault::cipher::NoteFile]) -> Vec<notevault::cipher::NoteFile> {
    files
        .iter()
        .map(|f| notevault::cipher::NoteFile { name: f.name.clone(), data: f.data.clone() })
        .collect()
}

#[test]
fn assemble_accepts_consistent_and_rejects_duplicates() {
    let mut e = StorageEngine::new();
    assert!(matches!(e.create(b"todo"), CreateOutcome::Created));
    let idx_ok = ContentIndex::from_titles(vec![b"todo".to_vec()]);
    let files: Vec<notevault::cipher::NoteFile> = e
        .export()
        .into_iter()
        .filter(|f| f.name != note_name(b"contents"))
        .collect();
    let rebuilt = StorageEngine::assemble(idx_ok, copy_set(&files));
    assert!(rebuilt.is_some());
    let idx_dup = ContentIndex::from_titles(vec![b"todo".to_vec(), b"todo".to_vec()]);
    assert!(StorageEngine::assemble(idx_dup, copy_set(&files)).is_none());
}

#[test]
fn index_contains_and_append() {
    let mut idx = ContentIndex::empty();
    assert!(!idx.contains_title(b"a"));
    idx.append(b"a".to_vec());
    assert!(idx.contains_title(b"a"));
    assert_eq!(idx.len(), 1);
}
