use move_syntax::change::Change;
use move_syntax::database::RootDatabase;
use move_syntax::diagnostics::diagnostics;
use move_syntax::input::{Durability, FileId, FileSet, SourceRoot};

#[test]
fn parse_is_memoized_per_file() {
    let mut db = RootDatabase::new();
    db.set_file_text_with_durability(FileId(0), b"module m {}".to_vec(), Durability::Low);
    assert_eq!(db.parse_count, 0);
    let first = db.parse(FileId(0));
    assert_eq!(db.parse_count, 1);
    let second = db.parse(FileId(0));
    // the second call re-uses the memoized tree: same content, no
    // second run of the parser
    assert_eq!(db.parse_count, 1);
    assert_eq!(first, second);
}

#[test]
fn text_change_invalidates_exactly_that_file() {
    let mut db = RootDatabase::new();
    db.set_file_text_with_durability(FileId(0), b"module a {}".to_vec(), Durability::Low);
    db.set_file_text_with_durability(FileId(1), b"module b {}".to_vec(), Durability::Low);
    db.parse(FileId(0));
    db.parse(FileId(1));
    assert_eq!(db.parse_count, 2);
    db.set_file_text_with_durability(FileId(0), b"module c {}".to_vec(), Durability::Low);
    db.parse(FileId(1));
    // the other file's memo survived
    assert_eq!(db.parse_count, 2);
    db.parse(FileId(0));
    assert_eq!(db.parse_count, 3);
}

#[test]
fn cancellation_then_reapply_yields_the_new_text() {
    let mut db = RootDatabase::new();
    db.set_file_text_with_durability(FileId(7), b"module old {}".to_vec(), Durability::Low);
    let before = db.parse(FileId(7));
    assert_eq!(before.green.text(), b"module old {}".to_vec());
    db.request_cancellation();
    let mut change = Change::new();
    change.change_file(FileId(7), Some(b"module new {}".to_vec()));
    change.apply(&mut db);
    let after = db.parse(FileId(7));
    // never the old text
    assert_eq!(after.green.text(), b"module new {}".to_vec());
}

#[test]
fn deleting_a_file_resets_its_text_to_empty() {
    let mut db = RootDatabase::new();
    db.set_file_text_with_durability(FileId(3), b"module m {}".to_vec(), Durability::Low);
    let mut change = Change::new();
    change.change_file(FileId(3), None);
    db.apply_change(change);
    let parse = db.parse(FileId(3));
    assert_eq!(parse.green.text(), Vec::<u8>::new());
}

#[test]
fn library_roots_get_high_durability() {
    let mut db = RootDatabase::new();

    let mut lib_files = FileSet::new();
    lib_files.insert(FileId(0), b"/lib/a.move".to_vec());
    lib_files.insert(FileId(1), b"/lib/b.move".to_vec());
    let library = SourceRoot::new_library(lib_files);

    let mut local_files = FileSet::new();
    local_files.insert(FileId(2), b"/src/main.move".to_vec());
    let local = SourceRoot::new_local(local_files);

    let mut change = Change::new();
    change.set_roots(vec![library, local]);
    change.change_file(FileId(0), Some(b"module a {}".to_vec()));
    change.change_file(FileId(2), Some(b"module m {}".to_vec()));
    db.apply_change(change);

    // every file of the library root is high durability, every file of
    // the local root low, also after its text was written
    assert_eq!(db.durabilities[0], Durability::High);
    assert_eq!(db.durabilities[1], Durability::High);
    assert_eq!(db.durabilities[2], Durability::Low);
    assert_eq!(db.file_roots[0].0, 0);
    assert_eq!(db.file_roots[1].0, 0);
    assert_eq!(db.file_roots[2].0, 1);
    assert_eq!(db.file_texts[0], b"module a {}".to_vec());
    assert_eq!(db.file_texts[2], b"module m {}".to_vec());
}

#[test]
fn root_mappings_are_bidirectional() {
    let mut files = FileSet::new();
    files.insert(FileId(5), b"/x/y.move".to_vec());
    let root = SourceRoot::new_local(files);
    assert_eq!(root.file_for_path(b"/x/y.move"), Some(FileId(5)));
    assert_eq!(root.file_for_path(b"/x/z.move"), None);
    assert_eq!(root.path_for_file(FileId(5)).map(|p| p.clone()), Some(b"/x/y.move".to_vec()));
    assert!(root.path_for_file(FileId(6)).is_none());
}

#[test]
fn diagnostics_are_capped() {
    let mut db = RootDatabase::new();
    // two hundred stray semicolons: one syntax error each
    let text = vec![b';'; 200];
    db.set_file_text_with_durability(FileId(0), text, Durability::Low);
    let parse = db.parse(FileId(0));
    assert_eq!(parse.errors.len(), 200);
    let diags = diagnostics(&mut db, FileId(0));
    assert_eq!(diags.len(), 128);
    assert_eq!(diags[0].code.as_str(), "syntax-error");
    assert!(diags[0].message.starts_with("Syntax Error: "));
}

#[test]
fn diagnostics_carry_the_error_ranges() {
    let mut db = RootDatabase::new();
    db.set_file_text_with_durability(FileId(0), b"module m".to_vec(), Durability::Low);
    let parse = db.parse(FileId(0));
    assert!(!parse.errors.is_empty());
    let diags = diagnostics(&mut db, FileId(0));
    assert_eq!(diags.len(), parse.errors.len());
    for (d, e) in diags.iter().zip(parse.errors.iter()) {
        assert_eq!(d.start, e.start);
        assert_eq!(d.end, e.end);
    }
}

#[test]
fn later_write_wins_within_one_change() {
    let mut db = RootDatabase::new();
    let mut change = Change::new();
    change.change_file(FileId(4), Some(b"module a {}".to_vec()));
    change.change_file(FileId(4), Some(b"module b {}".to_vec()));
    db.apply_change(change);
    // writes apply in order, so the later text is the one recorded
    assert_eq!(db.file_texts[4], b"module b {}".to_vec());
    let parse = db.parse(FileId(4));
    assert_eq!(parse.green.text(), b"module b {}".to_vec());
}

#[test]
fn cancellation_moves_the_revision_and_nothing_else() {
    let mut db = RootDatabase::new();
    db.set_file_text_with_durability(FileId(0), b"module m {}".to_vec(), Durability::Low);
    db.parse(FileId(0));
    let before = db.revision;
    let count_before = db.parse_count;
    db.request_cancellation();
    assert_eq!(db.revision, before.wrapping_add(1));
    assert_eq!(db.file_texts[0], b"module m {}".to_vec());
    // the memo survived: the next parse is still a hit
    db.parse(FileId(0));
    assert_eq!(db.parse_count, count_before);
}
