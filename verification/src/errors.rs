use vstd::prelude::*;

verus! {

/// The error taxonomy of the library.
///
/// Every repository, insertion and configuration operation reports failure
/// through one of these variants instead of aborting.
#[derive(Debug, Clone)]
pub enum NibbError {
    /// An input/output failure, described in text.
    IoError(String),
    /// A snippet, tag or configuration key that does not exist.
    NotFound(String),
    /// A clipboard failure.
    ClipboardError(String),
    /// A file-system failure.
    FSError(String),
    /// An external editor failure.
    EditorError(String),
    /// A git failure.
    GitError(String),
    /// An invalid configuration key or value.
    ConfigError(String),
    /// A database failure.
    DBError(String),
}

pub type NibbResult<T> = Result<T, NibbError>;

/// The same taxonomy with plain payloads, as it crosses a foreign-function
/// boundary.
#[derive(Debug, Clone)]
pub enum NibbFFIError {
    Io(String),
    NotFound(String),
    Clipboard(String),
    Fs(String),
    Editor(String),
    Git(String),
    Config(String),
    Db(String),
}

impl NibbFFIError {
    /// Maps a library error onto its foreign-boundary counterpart,
    /// variant for variant, keeping the message.
    pub fn from_error(err: &NibbError) -> (r: NibbFFIError)
        ensures
            r == spec_ffi_error(*err),
    {
        match err {
            NibbError::IoError(s) => NibbFFIError::Io(s.clone()),
            NibbError::NotFound(s) => NibbFFIError::NotFound(s.clone()),
            NibbError::ClipboardError(s) => NibbFFIError::Clipboard(s.clone()),
            NibbError::FSError(s) => NibbFFIError::Fs(s.clone()),
            NibbError::EditorError(s) => NibbFFIError::Editor(s.clone()),
            NibbError::GitError(s) => NibbFFIError::Git(s.clone()),
            NibbError::ConfigError(s) => NibbFFIError::Config(s.clone()),
            NibbError::DBError(s) => NibbFFIError::Db(s.clone()),
        }
    }
}

/// The variant-for-variant mapping from a library error to its
/// foreign-boundary counterpart.
pub open spec fn spec_ffi_error(err: NibbError) -> NibbFFIError {
    match err {
        NibbError::IoError(s) => NibbFFIError::Io(s),
        NibbError::NotFound(s) => NibbFFIError::NotFound(s),
        NibbError::ClipboardError(s) => NibbFFIError::Clipboard(s),
        NibbError::FSError(s) => NibbFFIError::Fs(s),
        NibbError::EditorError(s) => NibbFFIError::Editor(s),
        NibbError::GitError(s) => NibbFFIError::Git(s),
        NibbError::ConfigError(s) => NibbFFIError::Config(s),
        NibbError::DBError(s) => NibbFFIError::Db(s),
    }
}

} // verus!
