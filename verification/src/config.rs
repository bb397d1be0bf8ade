use vstd::prelude::*;

verus! {

/// The per-repository git configuration of the filesystem store.
#[derive(Debug)]
pub struct GitConfig {
    pub enabled: bool,
    pub auto_commit: bool,
    pub commit_message: String,
    pub author: String,
    pub author_email: String,
    pub push_on_commit: bool,
    pub remote: Option<String>,
    pub branch: String,
}

/// The mathematical content of the git configuration.
#[verifier::ext_equal]
pub ghost struct GitConfigView {
    pub enabled: bool,
    pub auto_commit: bool,
    pub commit_message: Seq<char>,
    pub author: Seq<char>,
    pub author_email: Seq<char>,
    pub push_on_commit: bool,
    pub remote: Option<Seq<char>>,
    pub branch: Seq<char>,
}

impl View for GitConfig {
    type V = GitConfigView;

    open spec fn view(&self) -> GitConfigView {
        GitConfigView {
            enabled: self.enabled,
            auto_commit: self.auto_commit,
            commit_message: self.commit_message@,
            author: self.author@,
            author_email: self.author_email@,
            push_on_commit: self.push_on_commit,
            remote: match self.remote {
                Some(r) => Some(r@),
                None => None,
            },
            branch: self.branch@,
        }
    }
}

/// A git configuration with everything off and every text empty.
pub open spec fn spec_git_config_new() -> GitConfigView {
    GitConfigView {
        enabled: false,
        auto_commit: false,
        commit_message: Seq::empty(),
        author: Seq::empty(),
        author_email: Seq::empty(),
        push_on_commit: false,
        remote: None,
        branch: "master"@,
    }
}

/// The git configuration a fresh repository starts with: tracking off, with
/// a template and author placeholders filled in.
pub open spec fn spec_git_config_default() -> GitConfigView {
    GitConfigView {
        enabled: false,
        auto_commit: false,
        commit_message: "update: {name} @{modified}"@,
        author: "<AUTHOR NAME>"@,
        author_email: "<AUTHOR EMAIL>"@,
        push_on_commit: false,
        remote: None,
        branch: "master"@,
    }
}

impl GitConfig {
    /// A configuration with everything off and every text empty.
    pub fn new() -> (r: Self)
        ensures
            r@ =~= (GitConfigView { branch: Seq::empty(), ..spec_git_config_new() }),
    {
        GitConfig {
            enabled: false,
            auto_commit: false,
            commit_message: String::new(),
            author: String::new(),
            author_email: String::new(),
            push_on_commit: false,
            remote: None,
            branch: String::new(),
        }
    }
}

impl Default for GitConfig {
    /// The configuration a fresh repository starts with.
    fn default() -> (r: Self)
        ensures
            r@ == spec_git_config_default(),
    {
        let r = GitConfig {
            enabled: false,
            auto_commit: false,
            commit_message: String::from_str("update: {name} @{modified}"),
            author: String::from_str("<AUTHOR NAME>"),
            author_email: String::from_str("<AUTHOR EMAIL>"),
            push_on_commit: false,
            remote: None,
            branch: String::from_str("master"),
        };
        proof {
            assert(r@ =~= spec_git_config_default());
        }
        r
    }
}

/// A filesystem store's configuration: its git section.
#[derive(Debug)]
pub struct Config {
    pub git: GitConfig,
}

impl View for Config {
    type V = GitConfigView;

    open spec fn view(&self) -> GitConfigView {
        self.git@
    }
}

impl Config {
    /// A configuration whose git section is the fresh-repository default.
    pub fn new() -> (r: Self)
        ensures
            r@ == spec_git_config_default(),
    {
        Config { git: GitConfig::default() }
    }
}

impl Default for Config {
    /// Same as `new`.
    fn default() -> (r: Self)
        ensures
            r@ == spec_git_config_default(),
    {
        Config { git: GitConfig::default() }
    }
}

} // verus!
