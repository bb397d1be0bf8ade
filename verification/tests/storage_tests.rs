use nibb_core::errors::NibbError;
use nibb_core::file_type::FileType;
use nibb_core::manager::{
    add_tag, filter_snippets_by_tags, new_snippet, remove_tag, rename_snippet,
};
use nibb_core::storage::{
    add_tag_db, delete_snippet, filter_snippets, get_snippet, get_snippet_by_name, init_nibb_db,
    insert_snippet, list_snippets, rm_tag_db, update_snippet, Database, FFISnippet, LinkRow,
    SnippetRecord, SnippetRow, TagRow,
};

fn record(name: &str, content: &str, tags: &[&str], lang: FileType) -> SnippetRecord {
    SnippetRecord {
        id: 0,
        name: name.to_string(),
        content: content.to_string(),
        description: None,
        tags: tags.iter().map(|t| t.to_string()).collect(),
        lang,
    }
}

fn sorted(mut v: Vec<String>) -> Vec<String> {
    v.sort();
    v
}

#[test]
fn insert_then_get_round_trip() {
    let mut db = init_nibb_db();
    insert_snippet(&mut db, &record("hello", "print(\"hi\")", &["py", "demo"], FileType::Python))
        .unwrap();
    let rec = get_snippet(&db, 1).unwrap();
    assert_eq!(rec.name, "hello");
    assert_eq!(rec.content, "print(\"hi\")");
    assert_eq!(rec.lang, FileType::Python);
    assert_eq!(sorted(rec.tags), vec!["demo".to_string(), "py".to_string()]);
}

#[test]
fn update_snippet_syncs_tags_exactly() {
    let mut db = init_nibb_db();
    insert_snippet(&mut db, &record("s", "c", &["a", "b"], FileType::Rust)).unwrap();
    let mut rec = get_snippet_by_name(&db, "s").unwrap();
    assert_eq!(sorted(rec.tags.clone()), vec!["a".to_string(), "b".to_string()]);
    rec.tags = vec!["b".to_string(), "c".to_string()];
    update_snippet(&mut db, &rec, rec.id).unwrap();
    let after = get_snippet(&db, rec.id).unwrap();
    // Exactly the rows for {b, c}: none for a, one each for b and c.
    assert_eq!(sorted(after.tags), vec!["b".to_string(), "c".to_string()]);
}

#[test]
fn update_missing_id_is_not_found() {
    let mut db = init_nibb_db();
    let rec = record("s", "c", &[], FileType::Rust);
    let r = update_snippet(&mut db, &rec, 42);
    assert!(matches!(r, Err(NibbError::NotFound(_))));
}

#[test]
fn delete_then_list_excludes() {
    let mut db = init_nibb_db();
    insert_snippet(&mut db, &record("one", "a", &["t"], FileType::C)).unwrap();
    insert_snippet(&mut db, &record("two", "b", &["t"], FileType::C)).unwrap();
    let one = get_snippet_by_name(&db, "one").unwrap();
    delete_snippet(&mut db, one.id).unwrap();
    let all = list_snippets(&db).unwrap();
    assert_eq!(all.len(), 1);
    assert_eq!(all[0].name, "two");
    // The shared tag row survives the delete.
    assert_eq!(all[0].tags, vec!["t".to_string()]);
}

#[test]
fn delete_missing_id_is_not_found_and_no_mutation() {
    let mut db = init_nibb_db();
    insert_snippet(&mut db, &record("one", "a", &[], FileType::C)).unwrap();
    let r = delete_snippet(&mut db, 99);
    assert!(matches!(r, Err(NibbError::NotFound(_))));
    assert_eq!(list_snippets(&db).unwrap().len(), 1);
}

#[test]
fn add_and_remove_tag_by_name() {
    let mut db = init_nibb_db();
    insert_snippet(&mut db, &record("s", "c", &[], FileType::Bash)).unwrap();
    add_tag_db(&mut db, "s", "x").unwrap();
    add_tag_db(&mut db, "s", "x").unwrap(); // linking twice collapses
    assert_eq!(get_snippet_by_name(&db, "s").unwrap().tags, vec!["x".to_string()]);
    rm_tag_db(&mut db, "s", "x").unwrap();
    assert_eq!(get_snippet_by_name(&db, "s").unwrap().tags, Vec::<String>::new());
    assert!(matches!(add_tag_db(&mut db, "missing", "x"), Err(NibbError::NotFound(_))));
    assert!(matches!(rm_tag_db(&mut db, "s", "missing"), Err(NibbError::NotFound(_))));
}

#[test]
fn rename_keeps_content_and_tags() {
    let mut db = init_nibb_db();
    insert_snippet(&mut db, &record("old", "body", &["k"], FileType::Lua)).unwrap();
    rename_snippet("old".to_string(), "new".to_string(), &mut db).unwrap();
    assert!(matches!(get_snippet_by_name(&db, "old"), Err(NibbError::NotFound(_))));
    let rec = get_snippet_by_name(&db, "new").unwrap();
    assert_eq!(rec.content, "body");
    assert_eq!(rec.tags, vec!["k".to_string()]);
}

#[test]
fn get_missing_is_not_found() {
    let db = init_nibb_db();
    assert!(matches!(get_snippet(&db, 1), Err(NibbError::NotFound(_))));
    assert!(matches!(get_snippet_by_name(&db, "none"), Err(NibbError::NotFound(_))));
}

#[test]
fn filter_snippets_substring() {
    let recs = vec![
        record("alpha", "one", &["x"], FileType::Rust),
        record("beta", "two", &["y"], FileType::Python),
    ];
    let kept = filter_snippets(recs.clone(), Some("alp".to_string()));
    assert_eq!(kept.len(), 1);
    assert_eq!(kept[0].name, "alpha");
    // A tag matches only when taken whole.
    let by_tag = filter_snippets(recs.clone(), Some("y".to_string()));
    assert_eq!(by_tag.len(), 1);
    assert_eq!(by_tag[0].name, "beta");
    // The language's printable name counts too.
    let by_lang = filter_snippets(recs.clone(), Some("Pyth".to_string()));
    assert_eq!(by_lang.len(), 1);
    assert_eq!(by_lang[0].name, "beta");
    // An absent or empty filter keeps everything.
    assert_eq!(filter_snippets(recs.clone(), None).len(), 2);
    assert_eq!(filter_snippets(recs, Some(String::new())).len(), 2);
}

#[test]
fn end_to_end_create_list_delete() {
    let mut db = init_nibb_db();
    let created = new_snippet(
        "hello".to_string(),
        Some(vec!["py".to_string()]),
        FileType::Python,
        &mut db,
    )
    .unwrap();
    assert_eq!(created.content, "");
    let mut rec = get_snippet_by_name(&db, "hello").unwrap();
    rec.content = "print(\"hi\")".to_string();
    update_snippet(&mut db, &rec, rec.id).unwrap();

    let listed = filter_snippets_by_tags(
        &list_snippets(&db).unwrap(),
        Some(vec!["py".to_string()]),
    );
    assert_eq!(listed.len(), 1);
    assert_eq!(listed[0].name, "hello");
    assert_eq!(listed[0].content, "print(\"hi\")");

    delete_snippet(&mut db, listed[0].id).unwrap();
    let empty = filter_snippets_by_tags(
        &list_snippets(&db).unwrap(),
        Some(vec!["py".to_string()]),
    );
    assert_eq!(empty.len(), 0);
}

#[test]
fn tag_filter_any_of() {
    let mut db = init_nibb_db();
    insert_snippet(&mut db, &record("one", "a", &["x"], FileType::C)).unwrap();
    insert_snippet(&mut db, &record("two", "b", &["y"], FileType::C)).unwrap();
    let all = list_snippets(&db).unwrap();
    let either = filter_snippets_by_tags(&all, Some(vec!["x".to_string(), "y".to_string()]));
    assert_eq!(either.len(), 2);
    let none = filter_snippets_by_tags(&all, Some(vec!["z".to_string()]));
    assert_eq!(none.len(), 0);
    let everything = filter_snippets_by_tags(&all, None);
    assert_eq!(everything.len(), 2);
}

#[test]
fn tag_add_and_remove_via_manager() {
    let mut db = init_nibb_db();
    insert_snippet(&mut db, &record("s", "c", &[], FileType::C)).unwrap();
    add_tag(&mut db, "s", "t1").unwrap();
    remove_tag(&mut db, "s", "t1").unwrap();
    assert_eq!(get_snippet_by_name(&db, "s").unwrap().tags.len(), 0);
}

#[test]
fn ffi_snippet_flattens_record() {
    let rec = SnippetRecord {
        id: 7,
        name: "n".to_string(),
        content: "c".to_string(),
        description: None,
        tags: vec!["t".to_string()],
        lang: FileType::Rust,
    };
    let f = FFISnippet::from_record(&rec);
    assert_eq!(f.name, "n");
    assert_eq!(f.content, "c");
    assert_eq!(f.description, "");
    assert_eq!(f.tags, vec!["t".to_string()]);
}

#[test]
fn from_parts_validates_invariant() {
    fn row(id: i64, name: &str) -> SnippetRow {
        SnippetRow {
            id,
            name: name.to_string(),
            content: "c".to_string(),
            description: None,
            lang: FileType::Rust,
        }
    }
    fn tag(id: i64, name: &str) -> TagRow {
        TagRow { id, name: name.to_string() }
    }
    let link = LinkRow { snippet_id: 1, tag_id: 1 };

    // A consistent set of tables is accepted and behaves like the store.
    let db = Database::from_parts(vec![row(1, "s")], vec![tag(1, "t")], vec![link], 2, 2).unwrap();
    let rec = get_snippet(&db, 1).unwrap();
    assert_eq!(rec.name, "s");
    assert_eq!(rec.tags, vec!["t".to_string()]);

    // Duplicate row ids are refused.
    assert!(Database::from_parts(vec![row(1, "a"), row(1, "b")], vec![], vec![], 2, 1).is_none());
    // A row id at or above the counter is refused.
    assert!(Database::from_parts(vec![row(3, "a")], vec![], vec![], 2, 1).is_none());
    // Duplicate tag names are refused.
    assert!(
        Database::from_parts(vec![], vec![tag(1, "t"), tag(2, "t")], vec![], 1, 3).is_none()
    );
    // A join row without its tag is refused.
    assert!(Database::from_parts(vec![row(1, "s")], vec![], vec![link], 2, 1).is_none());
    // A join row without its snippet is refused.
    assert!(Database::from_parts(vec![], vec![tag(1, "t")], vec![link], 1, 2).is_none());
    // A duplicated join pair is refused.
    assert!(
        Database::from_parts(vec![row(1, "s")], vec![tag(1, "t")], vec![link, link], 2, 2)
            .is_none()
    );
}
