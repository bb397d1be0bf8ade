use vstd::prelude::*;
use crate::errors::{NibbError, NibbResult};
use crate::text::str_eq;

verus! {

/// The git section of the settings file.
#[derive(Debug)]
pub struct Git {
    pub enabled: bool,
    pub remote: String,
    pub auto_commit: bool,
    pub auto_push: bool,
    pub auto_pull: bool,
    pub commit_message: String,
    pub branch: String,
}

/// The mathematical content of the git section.
#[verifier::ext_equal]
pub ghost struct GitView {
    pub enabled: bool,
    pub remote: Seq<char>,
    pub auto_commit: bool,
    pub auto_push: bool,
    pub auto_pull: bool,
    pub commit_message: Seq<char>,
    pub branch: Seq<char>,
}

impl View for Git {
    type V = GitView;

    open spec fn view(&self) -> GitView {
        GitView {
            enabled: self.enabled,
            remote: self.remote@,
            auto_commit: self.auto_commit,
            auto_push: self.auto_push,
            auto_pull: self.auto_pull,
            commit_message: self.commit_message@,
            branch: self.branch@,
        }
    }
}

/// The git section as it stands before the user changes anything.
pub open spec fn spec_default_git() -> GitView {
    GitView {
        enabled: true,
        remote: "origin"@,
        auto_commit: true,
        auto_push: false,
        auto_pull: false,
        commit_message: "update: {name}"@,
        branch: "master"@,
    }
}

impl Git {
    /// The git section as it stands before the user changes anything:
    /// tracking on, committing on every mutation, neither pushing nor
    /// pulling.
    pub fn default() -> (r: Self)
        ensures
            r@ == spec_default_git(),
    {
        let r = Git {
            enabled: true,
            remote: String::from_str("origin"),
            auto_commit: true,
            auto_push: false,
            auto_pull: false,
            commit_message: String::from_str("update: {name}"),
            branch: String::from_str("master"),
        };
        proof {
            assert(r@ =~= spec_default_git());
        }
        r
    }
}

/// The user's settings: the editor, the marker token, and the git section.
#[derive(Debug)]
pub struct Settings {
    editor: String,
    marker: String,
    git: Git,
}

/// The mathematical content of the settings.
#[verifier::ext_equal]
pub ghost struct SettingsView {
    pub editor: Seq<char>,
    pub marker: Seq<char>,
    pub git: GitView,
}

impl View for Settings {
    type V = SettingsView;

    closed spec fn view(&self) -> SettingsView {
        SettingsView { editor: self.editor@, marker: self.marker@, git: self.git@ }
    }
}

/// The built-in fallback editor. A caller that can probe the system for an
/// installed editor sets its own choice afterwards.
pub open spec fn spec_default_editor() -> Seq<char> {
    "vi"@
}

/// The settings as they stand before the user changes anything.
pub open spec fn spec_default_settings() -> SettingsView {
    SettingsView { editor: spec_default_editor(), marker: "//NIBB"@, git: spec_default_git() }
}

/// What a configuration value means as a flag: `false`, `0` and `default`
/// switch off; `true` and `1` switch on; everything else is invalid.
pub open spec fn spec_flag_of(value: Seq<char>) -> Option<bool> {
    if value == "false"@ || value == "0"@ || value == "default"@ {
        Some(false)
    } else if value == "true"@ || value == "1"@ {
        Some(true)
    } else {
        None
    }
}

/// The settings after assigning one dotted key, or nothing when the key is
/// unknown or the value invalid for it.
pub open spec fn spec_set(s: SettingsView, key: Seq<char>, value: Seq<char>) -> Option<
    SettingsView,
> {
    if key == "editor"@ {
        Some(
            SettingsView {
                editor: if value == "default"@ {
                    spec_default_editor()
                } else {
                    value
                },
                ..s
            },
        )
    } else if key == "marker"@ {
        Some(
            SettingsView {
                marker: if value == "default"@ {
                    "//NIBB"@
                } else {
                    value
                },
                ..s
            },
        )
    } else if key == "git.enabled"@ {
        match spec_flag_of(value) {
            Some(b) => Some(SettingsView { git: GitView { enabled: b, ..s.git }, ..s }),
            None => None,
        }
    } else if key == "git.remote"@ {
        Some(SettingsView { git: GitView { remote: value, ..s.git }, ..s })
    } else if key == "git.auto-commit"@ {
        match spec_flag_of(value) {
            Some(b) => Some(SettingsView { git: GitView { auto_commit: b, ..s.git }, ..s }),
            None => None,
        }
    } else if key == "git.auto-push"@ {
        match spec_flag_of(value) {
            Some(b) => Some(SettingsView { git: GitView { auto_push: b, ..s.git }, ..s }),
            None => None,
        }
    } else if key == "git.auto-pull"@ {
        match spec_flag_of(value) {
            Some(b) => Some(SettingsView { git: GitView { auto_pull: b, ..s.git }, ..s }),
            None => None,
        }
    } else if key == "git.commit-message"@ {
        Some(SettingsView { git: GitView { commit_message: value, ..s.git }, ..s })
    } else if key == "git.branch"@ {
        Some(SettingsView { git: GitView { branch: value, ..s.git }, ..s })
    } else {
        None
    }
}

/// The printed form of a flag.
pub open spec fn spec_bool_str(b: bool) -> Seq<char> {
    if b {
        "true"@
    } else {
        "false"@
    }
}

/// The value a dotted key reads as text, or nothing when the key is unknown.
pub open spec fn spec_get(s: SettingsView, key: Seq<char>) -> Option<Seq<char>> {
    if key == "editor"@ {
        Some(s.editor)
    } else if key == "marker"@ {
        Some(s.marker)
    } else if key == "git.enabled"@ {
        Some(spec_bool_str(s.git.enabled))
    } else if key == "git.remote"@ {
        Some(s.git.remote)
    } else if key == "git.auto-commit"@ {
        Some(spec_bool_str(s.git.auto_commit))
    } else if key == "git.auto-push"@ {
        Some(spec_bool_str(s.git.auto_push))
    } else if key == "git.auto-pull"@ {
        Some(spec_bool_str(s.git.auto_pull))
    } else if key == "git.commit-message"@ {
        Some(s.git.commit_message)
    } else if key == "git.branch"@ {
        Some(s.git.branch)
    } else {
        None
    }
}

/// The printed form of a flag.
fn bool_string(b: bool) -> (r: String)
    ensures
        r@ == spec_bool_str(b),
{
    if b {
        String::from_str("true")
    } else {
        String::from_str("false")
    }
}

/// Reads the value of one flag-valued setting from its text.
fn parse_flag(value: &str) -> (r: Option<bool>)
    ensures
        r == spec_flag_of(value@),
{
    if str_eq(value, "false") || str_eq(value, "0") || str_eq(value, "default") {
        Some(false)
    } else if str_eq(value, "true") || str_eq(value, "1") {
        Some(true)
    } else {
        None
    }
}

impl Settings {
    /// The settings as they stand before the user changes anything.
    pub fn default() -> (r: Self)
        ensures
            r@ == spec_default_settings(),
    {
        let r = Settings {
            editor: String::from_str("vi"),
            marker: String::from_str("//NIBB"),
            git: Git::default(),
        };
        proof {
            assert(r@ =~= spec_default_settings());
        }
        r
    }

    /// The configured editor command.
    pub fn editor(&self) -> (r: &str)
        ensures
            r@ == self@.editor,
    {
        self.editor.as_str()
    }

    /// The configured marker token.
    pub fn marker(&self) -> (r: &str)
        ensures
            r@ == self@.marker,
    {
        self.marker.as_str()
    }

    /// Whether change tracking is on at all.
    pub fn git_enabled(&self) -> (r: bool)
        ensures
            r == self@.git.enabled,
    {
        self.git.enabled
    }

    /// Whether every mutation is committed.
    pub fn auto_commit(&self) -> (r: bool)
        ensures
            r == self@.git.auto_commit,
    {
        self.git.auto_commit
    }

    /// Whether a commit is pushed afterwards.
    pub fn auto_push(&self) -> (r: bool)
        ensures
            r == self@.git.auto_push,
    {
        self.git.auto_push
    }

    /// Whether a pull runs before every mutating command.
    pub fn auto_pull(&self) -> (r: bool)
        ensures
            r == self@.git.auto_pull,
    {
        self.git.auto_pull
    }

    /// The commit-message template.
    pub fn commit_message(&self) -> (r: &str)
        ensures
            r@ == self@.git.commit_message,
    {
        self.git.commit_message.as_str()
    }

    /// The configured branch.
    pub fn branch(&self) -> (r: &str)
        ensures
            r@ == self@.git.branch,
    {
        self.git.branch.as_str()
    }

    /// The configured remote.
    pub fn remote(&self) -> (r: &str)
        ensures
            r@ == self@.git.remote,
    {
        self.git.remote.as_str()
    }

    /// Assigns one dotted key. `default` restores a key's built-in value
    /// where one exists. Fails with a configuration error, changing nothing,
    /// exactly when the key is unknown or the value is not a valid flag for
    /// a flag-valued key.
    pub fn set(&mut self, key: &str, value: &str) -> (r: NibbResult<()>)
        ensures
            match spec_set(old(self)@, key@, value@) {
                Some(s2) => r is Ok && final(self)@ == s2,
                None => (r matches Err(e) && e matches NibbError::ConfigError(_)) && final(self)@
                    == old(self)@,
            },
    {
        if str_eq(key, "editor") {
            if str_eq(value, "default") {
                self.editor = String::from_str("vi");
            } else {
                self.editor = value.to_owned();
            }
            proof {
                assert(Some(self@) =~= spec_set(old(self)@, key@, value@));
            }
            Ok(())
        } else if str_eq(key, "marker") {
            if str_eq(value, "default") {
                self.marker = String::from_str("//NIBB");
            } else {
                self.marker = value.to_owned();
            }
            proof {
                assert(Some(self@) =~= spec_set(old(self)@, key@, value@));
            }
            Ok(())
        } else if str_eq(key, "git.enabled") {
            match parse_flag(value) {
                Some(b) => {
                    self.git.enabled = b;
                    proof {
                        assert(Some(self@) =~= spec_set(old(self)@, key@, value@));
                    }
                    Ok(())
                },
                None => Err(NibbError::ConfigError(value.to_owned())),
            }
        } else if str_eq(key, "git.remote") {
            self.git.remote = value.to_owned();
            proof {
                assert(Some(self@) =~= spec_set(old(self)@, key@, value@));
            }
            Ok(())
        } else if str_eq(key, "git.auto-commit") {
            match parse_flag(value) {
                Some(b) => {
                    self.git.auto_commit = b;
                    proof {
                        assert(Some(self@) =~= spec_set(old(self)@, key@, value@));
                    }
                    Ok(())
                },
                None => Err(NibbError::ConfigError(value.to_owned())),
            }
        } else if str_eq(key, "git.auto-push") {
            match parse_flag(value) {
                Some(b) => {
                    self.git.auto_push = b;
                    proof {
                        assert(Some(self@) =~= spec_set(old(self)@, key@, value@));
                    }
                    Ok(())
                },
                None => Err(NibbError::ConfigError(value.to_owned())),
            }
        } else if str_eq(key, "git.auto-pull") {
            match parse_flag(value) {
                Some(b) => {
                    self.git.auto_pull = b;
                    proof {
                        assert(Some(self@) =~= spec_set(old(self)@, key@, value@));
                    }
                    Ok(())
                },
                None => Err(NibbError::ConfigError(value.to_owned())),
            }
        } else if str_eq(key, "git.commit-message") {
            self.git.commit_message = value.to_owned();
            proof {
                assert(Some(self@) =~= spec_set(old(self)@, key@, value@));
            }
            Ok(())
        } else if str_eq(key, "git.branch") {
            self.git.branch = value.to_owned();
            proof {
                assert(Some(self@) =~= spec_set(old(self)@, key@, value@));
            }
            Ok(())
        } else {
            Err(NibbError::ConfigError(key.to_owned()))
        }
    }

    /// Reads one dotted key as text. Fails with `NotFound` exactly when the
    /// key is unknown.
    pub fn get(&self, key: &str) -> (r: NibbResult<String>)
        ensures
            match spec_get(self@, key@) {
                Some(v) => r matches Ok(s) && s@ == v,
                None => r matches Err(e) && e matches NibbError::NotFound(_),
            },
    {
        if str_eq(key, "editor") {
            Ok(self.editor.clone())
        } else if str_eq(key, "marker") {
            Ok(self.marker.clone())
        } else if str_eq(key, "git.enabled") {
            Ok(bool_string(self.git.enabled))
        } else if str_eq(key, "git.remote") {
            Ok(self.git.remote.clone())
        } else if str_eq(key, "git.auto-commit") {
            Ok(bool_string(self.git.auto_commit))
        } else if str_eq(key, "git.auto-push") {
            Ok(bool_string(self.git.auto_push))
        } else if str_eq(key, "git.auto-pull") {
            Ok(bool_string(self.git.auto_pull))
        } else if str_eq(key, "git.commit-message") {
            Ok(self.git.commit_message.clone())
        } else if str_eq(key, "git.branch") {
            Ok(self.git.branch.clone())
        } else {
            Err(NibbError::NotFound(key.to_owned()))
        }
    }

    /// Restores one key to its built-in value — `set` with `default` — or,
    /// given no key, restores the editor and the marker and leaves the git
    /// section alone.
    pub fn reset(&mut self, key: Option<&str>) -> (r: NibbResult<()>)
        ensures
            match key {
                Some(k) => match spec_set(old(self)@, k@, "default"@) {
                    Some(s2) => r is Ok && final(self)@ == s2,
                    None => (r matches Err(e) && e matches NibbError::ConfigError(_))
                        && final(self)@ == old(self)@,
                },
                None => r is Ok && final(self)@ == (SettingsView {
                    editor: spec_default_editor(),
                    marker: "//NIBB"@,
                    git: old(self)@.git,
                }),
            },
    {
        match key {
            Some(k) => {
                let d = String::from_str("default");
                self.set(k, d.as_str())
            },
            None => {
                self.editor = String::from_str("vi");
                self.marker = String::from_str("//NIBB");
                Ok(())
            },
        }
    }
}

/// The marker token a fresh installation starts with.
pub fn get_default_marker() -> (r: String)
    ensures
        r@ == "//NIBB"@,
{
    String::from_str("//NIBB")
}

} // verus!
