use nibb_core::command::Position;
use nibb_core::config::{Config, GitConfig};
use nibb_core::errors::NibbError;
use nibb_core::file_type::FileType;
use nibb_core::get_default_marker;
use nibb_core::settings::Settings;
use nibb_core::snippet::Visibility;

#[test]
fn defaults() {
    let s = Settings::default();
    assert_eq!(s.editor(), "vi");
    assert_eq!(s.marker(), "//NIBB");
    assert!(s.git_enabled());
    assert!(s.auto_commit());
    assert!(!s.auto_push());
    assert!(!s.auto_pull());
    assert_eq!(s.commit_message(), "update: {name}");
    assert_eq!(s.branch(), "master");
    assert_eq!(s.remote(), "origin");
    assert_eq!(get_default_marker(), "//NIBB");
}

#[test]
fn set_and_get_each_key() {
    let mut s = Settings::default();
    s.set("editor", "nano").unwrap();
    assert_eq!(s.get("editor").unwrap(), "nano");
    s.set("marker", "#MARK").unwrap();
    assert_eq!(s.get("marker").unwrap(), "#MARK");
    s.set("git.enabled", "false").unwrap();
    assert_eq!(s.get("git.enabled").unwrap(), "false");
    s.set("git.enabled", "1").unwrap();
    assert_eq!(s.get("git.enabled").unwrap(), "true");
    s.set("git.remote", "upstream").unwrap();
    assert_eq!(s.get("git.remote").unwrap(), "upstream");
    s.set("git.auto-commit", "0").unwrap();
    assert_eq!(s.get("git.auto-commit").unwrap(), "false");
    s.set("git.auto-push", "true").unwrap();
    assert_eq!(s.get("git.auto-push").unwrap(), "true");
    s.set("git.auto-pull", "true").unwrap();
    assert_eq!(s.get("git.auto-pull").unwrap(), "true");
    s.set("git.commit-message", "msg {name}").unwrap();
    assert_eq!(s.get("git.commit-message").unwrap(), "msg {name}");
    s.set("git.branch", "main").unwrap();
    assert_eq!(s.get("git.branch").unwrap(), "main");
}

#[test]
fn set_rejects_unknown_key_and_bad_flag() {
    let mut s = Settings::default();
    assert!(matches!(s.set("nope", "1"), Err(NibbError::ConfigError(_))));
    assert!(matches!(s.set("git.enabled", "maybe"), Err(NibbError::ConfigError(_))));
    // A refused assignment changes nothing.
    assert!(s.git_enabled());
    assert!(matches!(s.get("nope"), Err(NibbError::NotFound(_))));
}

#[test]
fn reset_restores_builtins() {
    let mut s = Settings::default();
    s.set("editor", "nano").unwrap();
    s.set("marker", "#M").unwrap();
    s.reset(None).unwrap();
    assert_eq!(s.editor(), "vi");
    assert_eq!(s.marker(), "//NIBB");
    s.set("git.auto-commit", "false").unwrap();
    s.reset(Some("git.auto-commit")).unwrap();
    // `default` means off for this flag.
    assert_eq!(s.get("git.auto-commit").unwrap(), "false");
}

#[test]
fn config_defaults() {
    let c = Config::new();
    assert!(!c.git.enabled);
    assert!(!c.git.auto_commit);
    assert_eq!(c.git.commit_message, "update: {name} @{modified}");
    assert_eq!(c.git.branch, "master");
    assert!(c.git.remote.is_none());
    let g = GitConfig::new();
    assert!(!g.enabled);
    assert_eq!(g.commit_message, "");
}

#[test]
fn position_tags_round_trip() {
    for p in [Position::Marker, Position::Cursor, Position::Start, Position::End] {
        assert_eq!(Position::from_tag(p.tag()), Some(p));
    }
    assert_eq!(Position::from_tag("elsewhere"), None);
}

#[test]
fn visibility_tags() {
    assert_eq!(Visibility::from_tag("public"), Visibility::Public);
    assert_eq!(Visibility::from_tag("archived"), Visibility::Archived);
    assert_eq!(Visibility::from_tag("private"), Visibility::Private);
    // Unknown values default to private.
    assert_eq!(Visibility::from_tag("whatever"), Visibility::Private);
    assert_eq!(Visibility::Public.tag(), "public");
}

#[test]
fn file_type_extensions() {
    assert_eq!(FileType::Rust.extension(), "rs");
    assert_eq!(FileType::Markdown.extension(), "md");
    assert_eq!(FileType::Maven.extension(), "pom.xml");
    assert_eq!(FileType::Unknown.extension(), "");
    assert_eq!(FileType::from_extension("rs"), FileType::Rust);
    assert_eq!(FileType::from_extension(".py"), FileType::Python);
    assert_eq!(FileType::from_extension("YML"), FileType::Yaml);
    assert_eq!(FileType::from_extension("unknown_ext"), FileType::Unknown);
    assert_eq!(FileType::from_name("RUST"), FileType::Rust);
    assert_eq!(FileType::from_name("js"), FileType::JavaScript);
    assert_eq!(FileType::from_name("objective-c"), FileType::ObjectiveC);
    assert_eq!(FileType::from_name("nonsense"), FileType::Unknown);
    assert_eq!(FileType::default(), FileType::Unknown);
    assert_eq!(FileType::Python.display_name(), "Python");
}
