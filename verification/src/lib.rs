pub mod clock;
pub mod command;
pub mod config;
pub mod errors;
pub mod file_type;
pub mod filters;
pub mod fs_repo;
pub mod fuzzy;
pub mod gitops;
pub mod manager;
pub mod markers;
pub mod paths;
pub mod settings;
pub mod slugs;
pub mod snippet;
pub mod storage;
pub mod text;

pub use errors::{NibbError, NibbFFIError, NibbResult};
pub use file_type::FileType;
pub use fs_repo::{FSRepo, SnippetRepository};
pub use paths::get_nibb_dir;
pub use settings::{get_default_marker, Settings};
pub use snippet::{Meta, Snippet, Visibility};

