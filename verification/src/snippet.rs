use vstd::prelude::*;
use crate::clock::now_ts;
use crate::file_type::{FileType, spec_extension};
use crate::slugs::{is_slug, slug_of, slugify};

verus! {

/// Who may see a snippet.
#[derive(Debug, Clone, Copy, PartialEq, Eq, Structural)]
pub enum Visibility {
    /// Visible only to the owner.
    Private,
    /// Visible to everyone.
    Public,
    /// Visible but no longer maintained.
    Archived,
}

impl Default for Visibility {
    /// Snippets are private unless said otherwise.
    fn default() -> (r: Self)
        ensures
            r == Visibility::Private,
    {
        Visibility::Private
    }
}

/// The visibility a string denotes; unknown strings mean `Private`.
pub open spec fn spec_visibility_of(s: Seq<char>) -> Visibility {
    if s == "private"@ {
        Visibility::Private
    } else if s == "public"@ {
        Visibility::Public
    } else if s == "archived"@ {
        Visibility::Archived
    } else {
        Visibility::Private
    }
}

impl Visibility {
    /// Parses a visibility from its lower-case tag; unknown values default
    /// to `Private`.
    pub fn from_tag(s: &str) -> (r: Visibility)
        ensures
            r == spec_visibility_of(s@),
    {
        if crate::text::str_eq(s, "private") {
            Visibility::Private
        } else if crate::text::str_eq(s, "public") {
            Visibility::Public
        } else if crate::text::str_eq(s, "archived") {
            Visibility::Archived
        } else {
            Visibility::Private
        }
    }

    /// The lower-case tag of this visibility.
    pub fn tag(&self) -> (r: &'static str)
        ensures
            r@ == spec_visibility_tag(*self),
    {
        match self {
            Visibility::Private => "private",
            Visibility::Public => "public",
            Visibility::Archived => "archived",
        }
    }
}

/// The lower-case tag of each visibility.
pub open spec fn spec_visibility_tag(v: Visibility) -> Seq<char> {
    match v {
        Visibility::Private => "private"@,
        Visibility::Public => "public"@,
        Visibility::Archived => "archived"@,
    }
}

/// The mathematical content of a snippet's metadata.
#[verifier::ext_equal]
pub ghost struct MetaView {
    pub name: Seq<char>,
    pub description: Seq<char>,
    pub tags: Seq<Seq<char>>,
    pub language: FileType,
    pub created: int,
    pub modified: int,
    pub visibility: Visibility,
}

/// A snippet's metadata: everything but the content itself.
///
/// Timestamps are whole seconds since the Unix epoch.
#[derive(Debug)]
pub struct Meta {
    /// Display name; its slug keys the snippet on the filesystem.
    pub name: String,
    /// Free-text description.
    pub description: String,
    /// Tags; a set, so the order carries no meaning and duplicates collapse.
    pub tags: Vec<String>,
    /// Language, which picks the content file's extension.
    pub language: FileType,
    /// When the snippet was created, in seconds since the Unix epoch.
    pub created: i64,
    /// When the snippet was last changed, in seconds since the Unix epoch.
    pub modified: i64,
    /// Who may see the snippet.
    pub visibility: Visibility,
}

impl View for Meta {
    type V = MetaView;

    open spec fn view(&self) -> MetaView {
        MetaView {
            name: self.name@,
            description: self.description@,
            tags: self.tags.deep_view(),
            language: self.language,
            created: self.created as int,
            modified: self.modified as int,
            visibility: self.visibility,
        }
    }
}

impl DeepView for Meta {
    type V = MetaView;

    open spec fn deep_view(&self) -> MetaView {
        self.view()
    }
}

impl Clone for Meta {
    /// Clones keep every field.
    fn clone(&self) -> (r: Self)
        ensures
            r@ == self@,
    {
        let r = Meta {
            name: self.name.clone(),
            description: self.description.clone(),
            tags: clone_strings(&self.tags),
            language: self.language,
            created: self.created,
            modified: self.modified,
            visibility: self.visibility,
        };
        proof {
            assert(r.tags.deep_view() =~= self.tags.deep_view());
            assert(r@ =~= self@);
        }
        r
    }
}

/// Clones a vector of strings, keeping every element.
pub fn clone_strings(v: &Vec<String>) -> (r: Vec<String>)
    ensures
        r@ == v@,
{
    let mut r: Vec<String> = Vec::new();
    let mut i: usize = 0;
    while i < v.len()
        invariant
            i <= v.len(),
            r@ == v@.take(i as int),
        decreases v.len() - i,
    {
        r.push(v[i].clone());
        proof {
            assert(v@.take(i + 1) =~= v@.take(i as int).push(v@[i as int]));
        }
        i += 1;
    }
    proof {
        assert(v@.take(v@.len() as int) =~= v@);
    }
    r
}

impl Meta {
    /// Builds metadata for a fresh snippet. Both timestamps are set to the
    /// same moment, the time of the call; a missing visibility means
    /// `Private`.
    pub fn new(
        name: String,
        description: String,
        tags: Vec<String>,
        language: FileType,
        visibility: Option<Visibility>,
    ) -> (r: Self)
        ensures
            r.name == name,
            r.description == description,
            r.tags == tags,
            r.language == language,
            r.created == r.modified,
            r.visibility == (match visibility {
                Some(v) => v,
                None => Visibility::Private,
            }),
    {
        let ts = now_ts();
        Meta {
            name,
            description,
            tags,
            language,
            created: ts,
            modified: ts,
            visibility: match visibility {
                Some(v) => v,
                None => Visibility::Private,
            },
        }
    }

    /// The extension (without a dot) of this snippet's content file.
    pub fn get_content_extension(&self) -> (r: String)
        ensures
            r@ == spec_extension(self.language),
    {
        String::from_str(self.language.extension())
    }

    /// The slug of this snippet's name: its key on the filesystem.
    pub fn get_slug(&self) -> (r: String)
        ensures
            r@ == slug_of(self.name@),
            is_slug(r@),
    {
        slugify(self.name.as_str())
    }
}

/// The mathematical content of a complete snippet.
#[verifier::ext_equal]
pub ghost struct SnippetView {
    pub meta: MetaView,
    pub content: Seq<char>,
}

/// A complete snippet: metadata plus the raw content text.
#[derive(Debug)]
pub struct Snippet {
    /// The metadata.
    pub meta: Meta,
    /// The raw content, opaque to the library.
    pub content: String,
}

impl View for Snippet {
    type V = SnippetView;

    open spec fn view(&self) -> SnippetView {
        SnippetView { meta: self.meta@, content: self.content@ }
    }
}

impl DeepView for Snippet {
    type V = SnippetView;

    open spec fn deep_view(&self) -> SnippetView {
        self.view()
    }
}

impl Clone for Snippet {
    /// Clones keep the metadata and the content.
    fn clone(&self) -> (r: Self)
        ensures
            r@ == self@,
    {
        let r = Snippet { meta: self.meta.clone(), content: self.content.clone() };
        proof {
            assert(r@ =~= self@);
        }
        r
    }
}

impl Snippet {
    /// Pairs metadata with content.
    pub fn new(meta: Meta, content: String) -> (r: Self)
        ensures
            r.meta == meta,
            r.content == content,
    {
        Snippet { meta, content }
    }
}

} // verus!
