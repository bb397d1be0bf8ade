use nibb_core::errors::NibbError;
use nibb_core::command::Position;
use nibb_core::file_type::FileType;
use nibb_core::manager::{
    insert_snippet, insert_to_file_end, insert_to_file_marker, insert_to_file_start,
};
use nibb_core::markers::{find_markers, join_lines, marker_lines, split_lines, splice_lines};
use nibb_core::storage::{init_nibb_db, insert_snippet as store_snippet, SnippetRecord};

fn db_with(name: &str, content: &str) -> nibb_core::storage::Database {
    let mut db = init_nibb_db();
    store_snippet(
        &mut db,
        &SnippetRecord {
            id: 0,
            name: name.to_string(),
            content: content.to_string(),
            description: None,
            tags: vec![],
            lang: FileType::Rust,
        },
    )
    .unwrap();
    db
}

#[test]
fn split_then_join_is_identity() {
    for s in ["", "a", "a\nb", "a\nb\n", "\n\n", "one line", "x\r\ny"] {
        let lines = split_lines(s);
        assert_eq!(join_lines(&lines), s);
    }
}

#[test]
fn marker_lines_finds_each_marked_line() {
    let file = "first\n//NIBB here\nthird\nfourth\n//NIBB again\nsixth";
    let lines = split_lines(file);
    let marked = marker_lines(&lines, "//NIBB");
    assert_eq!(marked, vec![1usize, 4usize]);
}

#[test]
fn marker_rewrite_selected_line_only() {
    // Marker on (1-based) lines 2 and 5; the caller selects only line 2.
    let file = "first\n//NIBB here\nthird\nfourth\n//NIBB again\nsixth";
    let lines = split_lines(file);
    let marked = marker_lines(&lines, "//NIBB");
    assert_eq!(marked, vec![1usize, 4usize]);
    let selected = vec![marked[0]];
    let out = find_markers("AAA\nBBB", file, &selected);
    // The snippet's lines stand in place of line 2; line 5's marker text is
    // unchanged verbatim; every other line is byte-identical and in order.
    assert_eq!(out, "first\nAAA\nBBB\nthird\nfourth\n//NIBB again\nsixth");
}

#[test]
fn marker_rewrite_no_selection_is_byte_identical() {
    let file = "a\n//NIBB\nb\n";
    let out = find_markers("whatever", file, &vec![]);
    assert_eq!(out, file);
}

#[test]
fn splice_replaces_each_selected_index() {
    let lines = split_lines("l0\nl1\nl2");
    let block = split_lines("X\nY");
    let out = splice_lines(&lines, &block, &vec![0usize, 2usize]);
    let texts: Vec<String> = out;
    assert_eq!(texts, vec!["X", "Y", "l1", "X", "Y"]);
}

#[test]
fn insert_at_end_appends_with_one_newline() {
    let db = db_with("s", "tail");
    let out = insert_to_file_end("s", "line1\nline2", &db).unwrap();
    assert_eq!(out, "line1\nline2\ntail");
}

#[test]
fn insert_at_start_prepends_with_one_newline() {
    let db = db_with("s", "head");
    let out = insert_to_file_start("s", "line1\nline2", &db).unwrap();
    assert_eq!(out, "head\nline1\nline2");
}

#[test]
fn insert_missing_snippet_is_not_found() {
    let db = init_nibb_db();
    assert!(matches!(insert_to_file_end("s", "f", &db), Err(NibbError::NotFound(_))));
    assert!(matches!(insert_to_file_start("s", "f", &db), Err(NibbError::NotFound(_))));
    assert!(matches!(
        insert_to_file_marker("s", "f", &db, &vec![]),
        Err(NibbError::NotFound(_))
    ));
}

#[test]
fn insert_dispatch_by_position() {
    let db = db_with("s", "S");
    let end = insert_snippet(&db, "s", "F", Position::End, &vec![]).unwrap();
    assert_eq!(end, Some("F\nS".to_string()));
    let start = insert_snippet(&db, "s", "F", Position::Start, &vec![]).unwrap();
    assert_eq!(start, Some("S\nF".to_string()));
    let cursor = insert_snippet(&db, "s", "F", Position::Cursor, &vec![]).unwrap();
    assert_eq!(cursor, None);
    let marker = insert_snippet(&db, "s", "//NIBB\nkeep", Position::Marker, &vec![0usize])
        .unwrap();
    assert_eq!(marker, Some("S\nkeep".to_string()));
}
