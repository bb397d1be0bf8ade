use nibb_core::file_type::FileType;
use nibb_core::fs_repo::{FSRepo, SnippetRepository};
use nibb_core::snippet::{Meta, Snippet};

fn get_test_repo() -> FSRepo {
    FSRepo::new(".nibb".to_string())
}

fn get_test_snippet() -> Snippet {
    let meta = Meta::new(
        "Test Snippet".to_string(),
        "test-desc".to_string(),
        vec!["test-tag, another-tag".to_string()],
        FileType::Rust,
        None,
    );
    Snippet::new(meta, "main() {\n println!(\"Hello world\"); \n}".to_string())
}

#[test]
fn test_new_and_delete() {
    let mut repo = get_test_repo();
    let snippet = get_test_snippet();
    repo.save(&snippet).unwrap();

    let slug = snippet.meta.get_slug();
    let snippet_path = repo.snippet_path(&slug);
    assert!(snippet_path.ends_with("/snippets/test-snippet"));
    let files = repo.dir_files(&slug).unwrap();
    assert!(files.contains(&"meta.toml".to_string()));
    assert!(files.contains(&"content.rs".to_string()));

    repo.delete(&slug).unwrap();
    assert!(repo.dir_files(&slug).is_none());
    assert!(repo.load(&slug).is_err());
}

#[test]
fn test_override() {
    let mut repo = get_test_repo();
    let mut snippet = get_test_snippet();
    repo.save(&snippet).unwrap();
    snippet.meta.language = FileType::Python;
    repo.save(&snippet).unwrap();
    let slug = snippet.meta.get_slug();
    let files = repo.dir_files(&slug).unwrap();
    assert!(files.contains(&"meta.toml".to_string()));
    assert!(files.contains(&"content.py".to_string()));
    // Exactly one content file survives; the old extension is gone.
    assert_eq!(files.len(), 2);
    assert!(!files.contains(&"content.rs".to_string()));
}

#[test]
fn test_load() {
    let mut repo = get_test_repo();
    let snippet = get_test_snippet();
    repo.save(&snippet).unwrap();
    let snippet = repo.load(&snippet.meta.get_slug()).unwrap();
    assert_eq!(snippet.meta.language, FileType::Rust);
    assert_eq!(snippet.content, "main() {\n println!(\"Hello world\"); \n}");
    assert_eq!(snippet.meta.name, "Test Snippet");
    assert_eq!(snippet.meta.description, "test-desc");
    assert_eq!(snippet.meta.tags, vec!["test-tag, another-tag".to_string()]);
}

#[test]
fn save_then_load_round_trip() {
    let mut repo = get_test_repo();
    let meta = Meta::new(
        "My Snippet!".to_string(),
        "d".to_string(),
        vec!["a".to_string(), "b".to_string()],
        FileType::Python,
        None,
    );
    let snippet = Snippet::new(meta, "print('hi')".to_string());
    repo.save(&snippet).unwrap();
    // The slug is the path-safe transform of the name.
    assert_eq!(snippet.meta.get_slug(), "my-snippet");
    let loaded = repo.load("my-snippet").unwrap();
    assert_eq!(loaded.meta.name, "My Snippet!");
    assert_eq!(loaded.content, "print('hi')");
    assert_eq!(loaded.meta.tags, vec!["a".to_string(), "b".to_string()]);
    assert_eq!(loaded.meta.language, FileType::Python);
    // Loading by the raw name finds the same snippet.
    let by_name = repo.load("My Snippet!").unwrap();
    assert_eq!(by_name.meta.name, "My Snippet!");
}

#[test]
fn delete_then_load_all_excludes() {
    let mut repo = get_test_repo();
    let one = Snippet::new(
        Meta::new("one".to_string(), String::new(), vec![], FileType::Rust, None),
        "a".to_string(),
    );
    let two = Snippet::new(
        Meta::new("two".to_string(), String::new(), vec![], FileType::Rust, None),
        "b".to_string(),
    );
    repo.save(&one).unwrap();
    repo.save(&two).unwrap();
    repo.delete("one").unwrap();
    let all = repo.load_all().unwrap();
    assert_eq!(all.len(), 1);
    assert_eq!(all[0].meta.name, "two");
}

#[test]
fn delete_missing_is_not_found_and_no_mutation() {
    let mut repo = get_test_repo();
    let snippet = get_test_snippet();
    repo.save(&snippet).unwrap();
    let r = repo.delete("no-such-snippet");
    assert!(matches!(r, Err(nibb_core::errors::NibbError::NotFound(_))));
    // Nothing was removed.
    assert_eq!(repo.load_all().unwrap().len(), 1);
}

#[test]
fn save_all_saves_each() {
    let mut repo = get_test_repo();
    let one = Snippet::new(
        Meta::new("one".to_string(), String::new(), vec![], FileType::C, None),
        "a".to_string(),
    );
    let two = Snippet::new(
        Meta::new("two".to_string(), String::new(), vec![], FileType::Go, None),
        "b".to_string(),
    );
    repo.save_all(&vec![one, two]).unwrap();
    let all = repo.load_all().unwrap();
    assert_eq!(all.len(), 2);
    assert_eq!(all[0].meta.name, "one");
    assert_eq!(all[1].meta.name, "two");
}
