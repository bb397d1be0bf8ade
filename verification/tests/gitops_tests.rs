use nibb_core::file_type::FileType;
use nibb_core::gitops::{
    auto_commit, auto_pull, auto_push, format_commit_message, format_commit_msg, GitCommand,
    nibb_git_post_actions, nibb_git_pre_actions, validate_git_args,
};
use nibb_core::settings::Settings;
use nibb_core::snippet::{Meta, Snippet};
use nibb_core::storage::{init_nibb_db, insert_snippet, SnippetRecord};

fn rec(name: &str) -> SnippetRecord {
    SnippetRecord {
        id: 0,
        name: name.to_string(),
        content: "c".to_string(),
        description: Some("a desc".to_string()),
        tags: vec!["t1".to_string(), "t2".to_string()],
        lang: FileType::Rust,
    }
}

#[test]
fn validate_accepts_safe_commands() {
    let ok = vec!["status".to_string(), "-s".to_string()];
    assert!(validate_git_args(&ok).is_ok());
    let ok2 = vec!["add".to_string(), "snippets/demo".to_string()];
    assert!(validate_git_args(&ok2).is_ok());
}

#[test]
fn validate_rejects_unsafe_commands() {
    assert!(validate_git_args(&vec![]).is_err());
    assert!(validate_git_args(&vec!["rm".to_string()]).is_err());
    assert!(validate_git_args(&vec!["add".to_string(), "../secrets".to_string()]).is_err());
    assert!(validate_git_args(&vec!["add".to_string(), "/etc/passwd".to_string()]).is_err());
    assert!(validate_git_args(&vec!["add".to_string(), "a:b".to_string()]).is_err());
}

#[test]
fn commit_message_substitutes_placeholders() {
    let m = format_commit_message("update: {name} [{tags}] {description}", &rec("hello"));
    assert_eq!(m, "update: hello [t1, t2] a desc");
}

#[test]
fn commit_message_missing_description_is_empty() {
    let mut r = rec("n");
    r.description = None;
    let m = format_commit_message("<{description}>", &r);
    assert_eq!(m, "<>");
}

#[test]
fn commit_msg_meta_substitutes_timestamps() {
    let meta = Meta::new(
        "n".to_string(),
        "d".to_string(),
        vec!["x".to_string(), "y".to_string()],
        FileType::Rust,
        None,
    );
    let created = meta.created;
    let snippet = Snippet::new(meta, "c".to_string());
    let m = format_commit_msg("{name}|{tags}|{description}|{created}", &snippet);
    assert_eq!(m, format!("n|x,y|d|{}", created));
}

#[test]
fn pre_actions_follow_settings() {
    let mut cfg = Settings::default();
    assert!(nibb_git_pre_actions(&cfg).is_none());
    cfg.set("git.auto-pull", "true").unwrap();
    let pull = nibb_git_pre_actions(&cfg).unwrap();
    assert!(matches!(pull, GitCommand::Pull { ref remote, ref branch }
        if remote == "origin" && branch == "master"));
    cfg.set("git.enabled", "false").unwrap();
    assert!(nibb_git_pre_actions(&cfg).is_none());
}

#[test]
fn post_actions_follow_settings() {
    let mut db = init_nibb_db();
    insert_snippet(&mut db, &rec("hello")).unwrap();
    let mut cfg = Settings::default();
    cfg.set("git.commit-message", "update: {name}").unwrap();

    // Defaults: tracking on, commit on, push off.
    let plan = nibb_git_post_actions("hello", &db, &cfg);
    assert_eq!(plan.len(), 2);
    assert!(matches!(plan[0], GitCommand::AddAll));
    assert!(matches!(plan[1], GitCommand::Commit { ref message } if message == "update: hello"));

    cfg.set("git.auto-push", "true").unwrap();
    let plan = nibb_git_post_actions("hello", &db, &cfg);
    assert_eq!(plan.len(), 3);
    assert!(matches!(plan[2], GitCommand::Push { ref remote, ref branch }
        if remote == "origin" && branch == "master"));

    // A deleted snippet still yields a message built from the bare name.
    let plan = nibb_git_post_actions("gone", &db, &cfg);
    assert!(matches!(plan[1], GitCommand::Commit { ref message } if message == "update: gone"));

    cfg.set("git.enabled", "false").unwrap();
    assert_eq!(nibb_git_post_actions("hello", &db, &cfg).len(), 0);
}

#[test]
fn command_builders() {
    assert!(matches!(auto_pull("o", "b"), GitCommand::Pull { ref remote, ref branch }
        if remote == "o" && branch == "b"));
    assert!(matches!(auto_push("o", "b"), GitCommand::Push { ref remote, ref branch }
        if remote == "o" && branch == "b"));
    let pair = auto_commit("c: {name}", &rec("n"));
    assert_eq!(pair.len(), 2);
    assert!(matches!(pair[0], GitCommand::AddAll));
    assert!(matches!(pair[1], GitCommand::Commit { ref message } if message == "c: n"));
}
