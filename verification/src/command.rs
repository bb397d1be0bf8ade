use vstd::prelude::*;
use crate::text::str_eq;

verus! {

/// Where snippet content goes in a target file.
#[derive(Debug, Clone, Copy, PartialEq, Eq, Structural)]
pub enum Position {
    /// At the marker lines the caller selects.
    Marker,
    /// At an editor cursor: only an editor integration can place this, so
    /// the engine refuses it.
    Cursor,
    /// Before the first line, with one newline between.
    Start,
    /// After the last line, with one newline between.
    End,
}

/// The lower-case tag of each position.
pub open spec fn spec_position_tag(p: Position) -> Seq<char> {
    match p {
        Position::Marker => "marker"@,
        Position::Cursor => "cursor"@,
        Position::Start => "start"@,
        Position::End => "end"@,
    }
}

impl Position {
    /// The lower-case tag of this position.
    pub fn tag(&self) -> (r: &'static str)
        ensures
            r@ == spec_position_tag(*self),
    {
        match self {
            Position::Marker => "marker",
            Position::Cursor => "cursor",
            Position::Start => "start",
            Position::End => "end",
        }
    }

    /// Parses a position from its lower-case tag.
    pub fn from_tag(s: &str) -> (r: Option<Position>)
        ensures
            match r {
                Some(p) => spec_position_tag(p) == s@,
                None => s@ != "marker"@ && s@ != "cursor"@ && s@ != "start"@ && s@ != "end"@,
            },
    {
        if str_eq(s, "marker") {
            Some(Position::Marker)
        } else if str_eq(s, "cursor") {
            Some(Position::Cursor)
        } else if str_eq(s, "start") {
            Some(Position::Start)
        } else if str_eq(s, "end") {
            Some(Position::End)
        } else {
            None
        }
    }
}

/// Adding or removing tags.
#[derive(Debug, Clone, Copy, PartialEq, Eq, Structural)]
pub enum TagOp {
    Add,
    Rm,
}

/// One operation on the settings file.
#[derive(Debug, Clone)]
pub enum ConfigOp {
    Get { key: String },
    Assign { key: String, value: String },
    Reset { key: Option<String> },
}

/// One command against the relational store.
#[derive(Debug, Clone)]
pub enum Commands {
    New { name: String, tags: Option<Vec<String>>, clip: bool, file: Option<String> },
    Insert { name: String, file: String, at: Position },
    Cpy { name: String },
    Edit { clip: bool, name: String },
    Rename { old_name: String, new_name: String },
    List { tags: Option<Vec<String>> },
    Config { op: ConfigOp },
    Delete { name: String },
    Tag { op: TagOp, name: String, tags: Vec<String> },
    Fuzz { query: String },
    Git { git_args: Vec<String> },
    Export { file_name: Option<String>, pretty: bool },
}

/// A parsed command line against the relational store.
#[derive(Debug, Clone)]
pub struct NibbCli {
    pub command: Commands,
    pub verbose: bool,
    pub quiet: bool,
}

/// Which metadata field an edit replaces.
#[derive(Debug, Clone, Copy, PartialEq, Eq, Structural)]
pub enum SnippetKey {
    Name,
    Description,
    Content,
    Language,
    Tags,
    Visibility,
}

/// One command against the filesystem store.
#[derive(Debug, Clone)]
pub enum NibbCommand {
    New {
        name: String,
        description: Option<String>,
        content: String,
        language: Option<String>,
        tags: Vec<String>,
        public: bool,
    },
    List { filter: Option<String>, json: bool },
    Delete { name: String },
    Edit { name: String, key: SnippetKey, value: String },
}

/// A parsed command line against the filesystem store.
#[derive(Debug, Clone)]
pub struct Arguments {
    pub command: NibbCommand,
}

} // verus!
