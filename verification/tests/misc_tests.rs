use nibb_core::errors::{NibbError, NibbFFIError};
use nibb_core::file_type::FileType;
use nibb_core::filters::filter_snippets;
use nibb_core::fuzzy::fuzzy_search;
use nibb_core::paths::{
    get_nibb_backups_dir, get_nibb_dir, get_nibb_toml_path, get_snippets_dir, get_storage_path,
};
use nibb_core::snippet::{Meta, Snippet};
use nibb_core::storage::SnippetRecord;
use nibb_core::text::{contains_str, i64_string, join_with, replace_all, str_eq, u64_string};

fn rec(name: &str, content: &str, tags: &[&str]) -> SnippetRecord {
    SnippetRecord {
        id: 0,
        name: name.to_string(),
        content: content.to_string(),
        description: None,
        tags: tags.iter().map(|t| t.to_string()).collect(),
        lang: FileType::Rust,
    }
}

#[test]
fn slug_is_path_safe_transform() {
    let meta = Meta::new(
        "My Snippet!".to_string(),
        String::new(),
        vec![],
        FileType::Rust,
        None,
    );
    assert_eq!(meta.get_slug(), "my-snippet");
    let meta2 = Meta::new("  --test_-_cool".to_string(), String::new(), vec![], FileType::C, None);
    assert_eq!(meta2.get_slug(), "test-cool");
}

#[test]
fn meta_new_sets_both_timestamps_together() {
    let meta = Meta::new("n".to_string(), "d".to_string(), vec![], FileType::Rust, None);
    assert_eq!(meta.created, meta.modified);
}

#[test]
fn fuzzy_search_keeps_matches_and_ranks() {
    let snippets = vec![
        rec("alpha utility", "fn alpha() {}", &["tools"]),
        rec("unrelated", "nothing here", &["misc"]),
        rec("alpha", "alpha alpha alpha", &["alpha"]),
    ];
    let hits = fuzzy_search("alpha", &snippets);
    // Only the matching snippets come back.
    assert_eq!(hits.len(), 2);
    assert!(hits.iter().all(|s| s.name.contains("alpha")));
    let none = fuzzy_search("zzqqy", &snippets);
    assert_eq!(none.len(), 0);
}

#[test]
fn filter_by_text_and_date() {
    let old_meta = Meta::new(
        "ancient".to_string(),
        "old one".to_string(),
        vec!["keep".to_string()],
        FileType::C,
        None,
    );
    let snippets = vec![Snippet::new(old_meta, "content".to_string())];
    // Text matches.
    assert_eq!(filter_snippets(snippets.clone(), "anci").len(), 1);
    assert_eq!(filter_snippets(snippets.clone(), "keep").len(), 1);
    assert_eq!(filter_snippets(snippets.clone(), "nothing").len(), 0);
    // Blank and catch-all filters keep everything.
    assert_eq!(filter_snippets(snippets.clone(), "").len(), 1);
    assert_eq!(filter_snippets(snippets.clone(), "all").len(), 1);
    // A far-future date keeps a snippet created now; a date before the epoch
    // keeps nothing.
    assert_eq!(filter_snippets(snippets.clone(), "2999-01-01").len(), 1);
    assert_eq!(filter_snippets(snippets, "1969-01-01").len(), 0);
}

#[test]
fn text_helpers_exact_values() {
    assert_eq!(replace_all("a{x}b{x}", "{x}", "yy"), "ayybyy");
    assert_eq!(replace_all("aaa", "aa", "b"), "ba");
    assert_eq!(replace_all("abc", "", "z"), "abc");
    assert_eq!(u64_string(0), "0");
    assert_eq!(u64_string(907), "907");
    assert_eq!(i64_string(-35), "-35");
    assert_eq!(i64_string(i64::MIN), "-9223372036854775808");
    assert_eq!(join_with(&vec!["a".to_string(), "b".to_string()], ", "), "a, b");
    assert_eq!(join_with(&vec![], ", "), "");
    assert!(contains_str("hello world", "lo wo"));
    assert!(!contains_str("hello", "hellooo"));
    assert!(contains_str("x", ""));
    assert!(str_eq("same", "same"));
    assert!(!str_eq("same", "other"));
}

#[test]
fn paths_end_with_their_segments() {
    assert!(get_nibb_dir().unwrap().ends_with("/.nibb"));
    assert!(get_snippets_dir().unwrap().ends_with("/.nibb/snippets"));
    assert!(get_nibb_toml_path().unwrap().ends_with("/.nibb/nibb.toml"));
    assert!(get_nibb_backups_dir().unwrap().ends_with("/.nibb/backups"));
    assert!(get_storage_path().unwrap().ends_with("/.nibb/snippets/nibb.db"));
}

#[test]
fn ffi_error_keeps_variant_and_message() {
    let e = NibbError::NotFound("missing".to_string());
    assert!(matches!(NibbFFIError::from_error(&e), NibbFFIError::NotFound(m) if m == "missing"));
    let c = NibbError::ConfigError("bad".to_string());
    assert!(matches!(NibbFFIError::from_error(&c), NibbFFIError::Config(m) if m == "bad"));
    let g = NibbError::GitError("boom".to_string());
    assert!(matches!(NibbFFIError::from_error(&g), NibbFFIError::Git(m) if m == "boom"));
}
