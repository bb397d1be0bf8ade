use vstd::prelude::*;
use crate::errors::{NibbError, NibbResult};

verus! {

/// `suffix` is the tail of `s`.
pub open spec fn ends_with(s: Seq<char>, suffix: Seq<char>) -> bool {
    suffix.len() <= s.len() && s.skip(s.len() - suffix.len()) == suffix
}

/// Relies on dirs::home_dir: the user's home directory, when the platform
/// reports one whose path is valid UTF-8. Nothing is assumed of the value.
#[verifier::external_body]
fn home_dir_string() -> (r: Option<String>) {
    dirs::home_dir().and_then(|p| p.into_os_string().into_string().ok())
}

/// The home directory with a path segment appended, or `NotFound` when the
/// platform reports no home directory.
fn home_joined(segment: &str) -> (r: NibbResult<String>)
    ensures
        r matches Ok(p) ==> ends_with(p@, segment@),
        r matches Err(e) ==> e matches NibbError::NotFound(_),
{
    match home_dir_string() {
        Some(home) => {
            let p = home.concat(segment);
            proof {
                assert(p@.skip(p@.len() - segment@.len()) =~= segment@);
            }
            Ok(p)
        },
        None => Err(NibbError::NotFound(String::from_str("Home directory"))),
    }
}

/// The store's root directory: `.nibb` under the user's home directory.
pub fn get_nibb_dir() -> (r: NibbResult<String>)
    ensures
        r matches Ok(p) ==> ends_with(p@, "/.nibb"@),
        r matches Err(e) ==> e matches NibbError::NotFound(_),
{
    home_joined("/.nibb")
}

/// The directory that holds one subdirectory per snippet.
pub fn get_snippets_dir() -> (r: NibbResult<String>)
    ensures
        r matches Ok(p) ==> ends_with(p@, "/.nibb/snippets"@),
        r matches Err(e) ==> e matches NibbError::NotFound(_),
{
    home_joined("/.nibb/snippets")
}

/// The settings file's path.
pub fn get_nibb_toml_path() -> (r: NibbResult<String>)
    ensures
        r matches Ok(p) ==> ends_with(p@, "/.nibb/nibb.toml"@),
        r matches Err(e) ==> e matches NibbError::NotFound(_),
{
    home_joined("/.nibb/nibb.toml")
}

/// The directory that holds exported snippet collections.
pub fn get_nibb_backups_dir() -> (r: NibbResult<String>)
    ensures
        r matches Ok(p) ==> ends_with(p@, "/.nibb/backups"@),
        r matches Err(e) ==> e matches NibbError::NotFound(_),
{
    home_joined("/.nibb/backups")
}

/// The relational store's database file, kept under the snippets directory.
pub fn get_storage_path() -> (r: NibbResult<String>)
    ensures
        r matches Ok(p) ==> ends_with(p@, "/.nibb/snippets/nibb.db"@),
        r matches Err(e) ==> e matches NibbError::NotFound(_),
{
    home_joined("/.nibb/snippets/nibb.db")
}

} // verus!
