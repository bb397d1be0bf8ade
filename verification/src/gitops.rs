use vstd::prelude::*;
use crate::settings::Settings;
use crate::snippet::{Snippet, SnippetView};
use crate::storage::{Database, DbModel, RecordView, SnippetRecord, find_row_by_name, record_of};
use crate::text::{
    contains_seq, contains_str, join_with, replace_all, spec_i64_str, spec_join, spec_replace,
    str_eq, i64_string,
};
use crate::file_type::FileType;

verus! {

/// One git invocation that a mutating operation asks for. The caller runs
/// them in order against the store's root.
#[derive(Debug)]
pub enum GitCommand {
    /// `git pull <remote> <branch>`, before the operation.
    Pull { remote: String, branch: String },
    /// `git add .`, staging every change.
    AddAll,
    /// `git commit -m <message>`.
    Commit { message: String },
    /// `git push <remote> <branch>`.
    Push { remote: String, branch: String },
}

/// The mathematical content of one git invocation.
#[verifier::ext_equal]
pub ghost enum GitCommandView {
    Pull { remote: Seq<char>, branch: Seq<char> },
    AddAll,
    Commit { message: Seq<char> },
    Push { remote: Seq<char>, branch: Seq<char> },
}

impl View for GitCommand {
    type V = GitCommandView;

    open spec fn view(&self) -> GitCommandView {
        match self {
            GitCommand::Pull { remote, branch } => GitCommandView::Pull {
                remote: remote@,
                branch: branch@,
            },
            GitCommand::AddAll => GitCommandView::AddAll,
            GitCommand::Commit { message } => GitCommandView::Commit { message: message@ },
            GitCommand::Push { remote, branch } => GitCommandView::Push {
                remote: remote@,
                branch: branch@,
            },
        }
    }
}

impl DeepView for GitCommand {
    type V = GitCommandView;

    open spec fn deep_view(&self) -> GitCommandView {
        self.view()
    }
}

/// The git subcommands that may be passed through to the store's repository.
pub open spec fn spec_allowed_command(c: Seq<char>) -> bool {
    ||| c == "status"@
    ||| c == "log"@
    ||| c == "diff"@
    ||| c == "show"@
    ||| c == "branch"@
    ||| c == "checkout"@
    ||| c == "add"@
    ||| c == "commit"@
    ||| c == "push"@
    ||| c == "pull"@
    ||| c == "fetch"@
}

/// A safe path argument: a flag is passed through; anything else must not
/// reach outside the repository (no `..`, no absolute path, no colon).
pub open spec fn spec_arg_ok(a: Seq<char>) -> bool {
    ||| (a.len() > 0 && a[0] == '-')
    ||| (!contains_seq(a, ".."@) && !(a.len() > 0 && a[0] == '/') && !contains_seq(a, ":"@))
}

/// A runnable pass-through git command line: a whitelisted subcommand
/// followed by safe arguments.
pub open spec fn spec_args_valid(args: Seq<Seq<char>>) -> bool {
    &&& args.len() > 0
    &&& spec_allowed_command(args[0])
    &&& forall|i: int| 1 <= i < args.len() ==> spec_arg_ok(#[trigger] args[i])
}

/// Accepts a pass-through git command line exactly when its subcommand is
/// whitelisted and every argument is safe; the error names what was refused.
pub fn validate_git_args(args: &Vec<String>) -> (r: Result<(), String>)
    ensures
        r is Ok <==> spec_args_valid(args.deep_view()),
{
    let ghost av = args.deep_view();
    if args.len() == 0 {
        return Err(String::from_str("No git command provided"));
    }
    let sub = args[0].as_str();
    let allowed = str_eq(sub, "status") || str_eq(sub, "log") || str_eq(sub, "diff") || str_eq(
        sub,
        "show",
    ) || str_eq(sub, "branch") || str_eq(sub, "checkout") || str_eq(sub, "add") || str_eq(
        sub,
        "commit",
    ) || str_eq(sub, "push") || str_eq(sub, "pull") || str_eq(sub, "fetch");
    if !allowed {
        return Err(String::from_str("Git subcommand is not allowed"));
    }
    let mut i: usize = 1;
    while i < args.len()
        invariant
            av == args.deep_view(),
            1 <= i <= av.len(),
            av.len() == args.len(),
            spec_allowed_command(av[0]),
            forall|k: int| 1 <= k < i ==> spec_arg_ok(#[trigger] av[k]),
        decreases av.len() - i,
    {
        let a = args[i].as_str();
        let n = a.unicode_len();
        if n > 0 && a.get_char(0) == '-' {
            i += 1;
            continue ;
        }
        if contains_str(a, "..") {
            proof {
                assert(!spec_arg_ok(av[i as int]));
            }
            return Err(String::from_str("Path argument contains disallowed '..'"));
        }
        if n > 0 && a.get_char(0) == '/' {
            proof {
                assert(!spec_arg_ok(av[i as int]));
            }
            return Err(String::from_str("Absolute path argument is not allowed"));
        }
        if contains_str(a, ":") {
            proof {
                assert(!spec_arg_ok(av[i as int]));
            }
            return Err(String::from_str("Absolute path argument is not allowed"));
        }
        i += 1;
    }
    Ok(())
}

/// What the description contributes to a commit message: its text, or
/// nothing.
pub open spec fn spec_desc_text(d: Option<Seq<char>>) -> Seq<char> {
    match d {
        Some(t) => t,
        None => Seq::empty(),
    }
}

/// A commit message built from its template: `{name}`, `{tags}` (joined
/// with a comma and a space) and `{description}` substituted from the
/// snippet, in that order.
pub open spec fn spec_commit_message(msg: Seq<char>, rec: RecordView) -> Seq<char> {
    spec_replace(
        spec_replace(
            spec_replace(msg, "{name}"@, rec.name),
            "{tags}"@,
            spec_join(rec.tags, ", "@),
        ),
        "{description}"@,
        spec_desc_text(rec.description),
    )
}

/// Builds a commit message from the template, substituting `{name}`,
/// `{tags}` and `{description}` from the snippet.
pub fn format_commit_message(message: &str, snippet: &SnippetRecord) -> (r: String)
    ensures
        r@ == spec_commit_message(message@, snippet@),
{
    let m1 = replace_all(message, "{name}", snippet.name.as_str());
    let tags = join_with(&snippet.tags, ", ");
    let m2 = replace_all(m1.as_str(), "{tags}", tags.as_str());
    let m3 = match &snippet.description {
        Some(d) => replace_all(m2.as_str(), "{description}", d.as_str()),
        None => {
            proof {
                reveal_strlit("");
                assert(""@ =~= Seq::<char>::empty());
            }
            replace_all(m2.as_str(), "{description}", "")
        },
    };
    m3
}

/// A commit message for the filesystem store, built from its template:
/// `{name}`, `{tags}` (joined with commas), `{description}`, `{modified}`
/// and `{created}` substituted from the snippet, in that order.
pub open spec fn spec_commit_msg_meta(msg: Seq<char>, s: SnippetView) -> Seq<char> {
    spec_replace(
        spec_replace(
            spec_replace(
                spec_replace(
                    spec_replace(msg, "{name}"@, s.meta.name),
                    "{tags}"@,
                    spec_join(s.meta.tags, ","@),
                ),
                "{description}"@,
                s.meta.description,
            ),
            "{modified}"@,
            spec_i64_str(s.meta.modified),
        ),
        "{created}"@,
        spec_i64_str(s.meta.created),
    )
}

/// Builds a commit message from the template, substituting `{name}`,
/// `{tags}`, `{description}`, `{modified}` and `{created}` from the
/// snippet's metadata.
pub fn format_commit_msg(msg: &str, snippet: &Snippet) -> (r: String)
    ensures
        r@ == spec_commit_msg_meta(msg@, snippet@),
{
    let m1 = replace_all(msg, "{name}", snippet.meta.name.as_str());
    let tags = join_with(&snippet.meta.tags, ",");
    let m2 = replace_all(m1.as_str(), "{tags}", tags.as_str());
    let m3 = replace_all(m2.as_str(), "{description}", snippet.meta.description.as_str());
    let modified = i64_string(snippet.meta.modified);
    let m4 = replace_all(m3.as_str(), "{modified}", modified.as_str());
    let created = i64_string(snippet.meta.created);
    replace_all(m4.as_str(), "{created}", created.as_str())
}

/// The pull that runs before a mutating operation.
pub fn auto_pull(remote: &str, branch: &str) -> (r: GitCommand)
    ensures
        r@ == (GitCommandView::Pull { remote: remote@, branch: branch@ }),
{
    GitCommand::Pull { remote: remote.to_owned(), branch: branch.to_owned() }
}

/// The push that runs after a commit.
pub fn auto_push(remote: &str, branch: &str) -> (r: GitCommand)
    ensures
        r@ == (GitCommandView::Push { remote: remote@, branch: branch@ }),
{
    GitCommand::Push { remote: remote.to_owned(), branch: branch.to_owned() }
}

/// The stage-and-commit pair that records one snippet's mutation.
pub fn auto_commit(message: &str, snippet: &SnippetRecord) -> (r: Vec<GitCommand>)
    ensures
        r.deep_view() =~= seq![
            GitCommandView::AddAll,
            GitCommandView::Commit { message: spec_commit_message(message@, snippet@) },
        ],
{
    let mut r: Vec<GitCommand> = Vec::new();
    r.push(GitCommand::AddAll);
    r.push(GitCommand::Commit { message: format_commit_message(message, snippet) });
    r
}

/// What runs before a mutating command: a pull, exactly when change
/// tracking and auto-pull are both on. A failure of this pull aborts the
/// whole command before any mutation.
pub fn nibb_git_pre_actions(cfg: &Settings) -> (r: Option<GitCommand>)
    ensures
        cfg@.git.enabled && cfg@.git.auto_pull ==> (r matches Some(c) && c@ == (GitCommandView::Pull {
            remote: cfg@.git.remote,
            branch: cfg@.git.branch,
        })),
        !(cfg@.git.enabled && cfg@.git.auto_pull) ==> r is None,
{
    if !cfg.git_enabled() {
        return None;
    }
    if cfg.auto_pull() {
        Some(auto_pull(cfg.remote(), cfg.branch()))
    } else {
        None
    }
}

/// The snippet a post-action commit message falls back to when the name
/// resolves to no stored snippet: the bare name with nothing else.
pub open spec fn spec_fallback_record(name: Seq<char>) -> RecordView {
    RecordView {
        id: 0,
        name: name,
        content: Seq::empty(),
        description: None,
        tags: Seq::empty(),
        lang: FileType::Unknown,
    }
}

/// What runs after a successful mutation of the named snippet: nothing when
/// change tracking is off; otherwise a stage-and-commit pair when
/// auto-commit is on, then a push when auto-push is on. The message comes
/// from the stored snippet, or from the bare name when it is gone (as after
/// a delete).
pub open spec fn spec_post_plan(db: DbModel, name: Seq<char>, s: crate::settings::SettingsView) -> Seq<
    GitCommandView,
> {
    if !s.git.enabled {
        Seq::empty()
    } else {
        let rec = match find_row_by_name(db.rows, name) {
            Some(row) => record_of(db, row),
            None => spec_fallback_record(name),
        };
        (if s.git.auto_commit {
            seq![
                GitCommandView::AddAll,
                GitCommandView::Commit {
                    message: spec_commit_message(s.git.commit_message, rec),
                },
            ]
        } else {
            Seq::empty()
        }) + (if s.git.auto_push {
            seq![GitCommandView::Push { remote: s.git.remote, branch: s.git.branch }]
        } else {
            Seq::empty()
        })
    }
}

/// The git invocations that follow a successful mutation of the named
/// snippet, in order.
pub fn nibb_git_post_actions(name: &str, conn: &Database, cfg: &Settings) -> (r: Vec<GitCommand>)
    requires
        conn.wf(),
    ensures
        r.deep_view() == spec_post_plan(conn@, name@, cfg@),
{
    let mut r: Vec<GitCommand> = Vec::new();
    if !cfg.git_enabled() {
        proof {
            assert(r.deep_view() =~= spec_post_plan(conn@, name@, cfg@));
        }
        return r;
    }
    let snippet = match crate::storage::get_snippet_by_name(conn, name) {
        Ok(s) => s,
        Err(_) => SnippetRecord {
            id: 0,
            name: name.to_owned(),
            content: String::new(),
            description: None,
            tags: Vec::new(),
            lang: FileType::Unknown,
        },
    };
    proof {
        assert(snippet@ =~= (match find_row_by_name(conn@.rows, name@) {
            Some(row) => record_of(conn@, row),
            None => spec_fallback_record(name@),
        }));
    }
    if cfg.auto_commit() {
        r.push(GitCommand::AddAll);
        r.push(GitCommand::Commit { message: format_commit_message(cfg.commit_message(), &snippet) });
    }
    if cfg.auto_push() {
        r.push(auto_push(cfg.remote(), cfg.branch()));
    }
    proof {
        assert(r.deep_view() =~= spec_post_plan(conn@, name@, cfg@));
    }
    r
}

} // verus!
