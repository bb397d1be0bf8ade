use vstd::prelude::*;
use crate::errors::{NibbError, NibbResult};
use crate::file_type::spec_extension;
use crate::slugs::{slug_of, slugify};
use crate::snippet::{Meta, Snippet, SnippetView};
use crate::text::str_eq;

verus! {

/// One content file inside a snippet directory: `content.<extension>` and
/// what it holds.
#[derive(Debug)]
pub struct ContentFile {
    /// The extension after `content.`, without a dot.
    pub extension: String,
    /// The file's text.
    pub data: String,
}

/// The mathematical content of one content file.
#[verifier::ext_equal]
pub ghost struct FileModel {
    pub extension: Seq<char>,
    pub data: Seq<char>,
}

impl View for ContentFile {
    type V = FileModel;

    open spec fn view(&self) -> FileModel {
        FileModel { extension: self.extension@, data: self.data@ }
    }
}

impl DeepView for ContentFile {
    type V = FileModel;

    open spec fn deep_view(&self) -> FileModel {
        self@
    }
}

/// One snippet directory: the slug that names it, the sidecar metadata and
/// the content files beside it.
#[derive(Debug)]
pub struct SnippetDir {
    /// The directory's name: the slug of the snippet's name.
    pub slug: String,
    /// The sidecar metadata.
    pub meta: Meta,
    /// The content files in the directory.
    pub files: Vec<ContentFile>,
}

/// The mathematical content of one snippet directory.
#[verifier::ext_equal]
pub ghost struct DirModel {
    pub slug: Seq<char>,
    pub meta: crate::snippet::MetaView,
    pub files: Seq<FileModel>,
}

impl View for SnippetDir {
    type V = DirModel;

    open spec fn view(&self) -> DirModel {
        DirModel { slug: self.slug@, meta: self.meta@, files: self.files.deep_view() }
    }
}

impl DeepView for SnippetDir {
    type V = DirModel;

    open spec fn deep_view(&self) -> DirModel {
        self@
    }
}

/// The directory a snippet is stored as: named by the slug of its name,
/// holding its metadata and exactly one content file whose extension is the
/// one of its language.
pub open spec fn dir_model_of(s: SnippetView) -> DirModel {
    DirModel {
        slug: slug_of(s.meta.name),
        meta: s.meta,
        files: seq![
            FileModel { extension: spec_extension(s.meta.language), data: s.content },
        ],
    }
}

/// The first entry with the given slug, scanning front to back.
pub open spec fn spec_lookup(m: Seq<DirModel>, slug: Seq<char>) -> Option<DirModel>
    decreases m.len(),
{
    if m.len() == 0 {
        None
    } else if m[0].slug == slug {
        Some(m[0])
    } else {
        spec_lookup(m.drop_first(), slug)
    }
}

/// The store after an upsert: the first entry with the same slug is replaced,
/// or the new entry is appended when none matches.
pub open spec fn spec_save(m: Seq<DirModel>, d: DirModel) -> Seq<DirModel>
    decreases m.len(),
{
    if m.len() == 0 {
        seq![d]
    } else if m[0].slug == d.slug {
        seq![d] + m.drop_first()
    } else {
        seq![m[0]] + spec_save(m.drop_first(), d)
    }
}

/// The store after a delete: the first entry with the slug is removed.
pub open spec fn spec_remove(m: Seq<DirModel>, slug: Seq<char>) -> Seq<DirModel>
    decreases m.len(),
{
    if m.len() == 0 {
        Seq::empty()
    } else if m[0].slug == slug {
        m.drop_first()
    } else {
        seq![m[0]] + spec_remove(m.drop_first(), slug)
    }
}

/// The store after saving each snippet in order.
pub open spec fn spec_save_all(m: Seq<DirModel>, ss: Seq<SnippetView>) -> Seq<DirModel>
    decreases ss.len(),
{
    if ss.len() == 0 {
        m
    } else {
        spec_save_all(spec_save(m, dir_model_of(ss[0])), ss.drop_first())
    }
}

/// The first content file with the given extension.
pub open spec fn first_file(files: Seq<FileModel>, ext: Seq<char>) -> Option<FileModel>
    decreases files.len(),
{
    if files.len() == 0 {
        None
    } else if files[0].extension == ext {
        Some(files[0])
    } else {
        first_file(files.drop_first(), ext)
    }
}

/// The snippet a directory denotes: its metadata, and the text of the
/// content file that matches its language.
pub open spec fn snippet_of_dir(d: DirModel) -> SnippetView {
    SnippetView {
        meta: d.meta,
        content: first_file(d.files, spec_extension(d.meta.language)).unwrap().data,
    }
}

/// A filesystem-backed snippet store, seen as the tree under its
/// `snippets/` directory: one directory per snippet.
///
/// The struct is the in-memory image of that tree; reading the tree from
/// disk and writing it back is the caller's side of the boundary.
pub struct FSRepo {
    /// The root directory's path.
    pub base_dir: String,
    entries: Vec<SnippetDir>,
}

impl FSRepo {
    /// The root directory's path.
    pub closed spec fn spec_base_dir(&self) -> Seq<char> {
        self.base_dir@
    }
}

impl View for FSRepo {
    type V = Seq<DirModel>;

    closed spec fn view(&self) -> Seq<DirModel> {
        self.entries.deep_view()
    }
}

/// The capability contract every snippet store backend satisfies: load one
/// or all snippets, upsert one or many, delete one — each phrased over the
/// backend's view of its directory tree and its invariant.
pub trait SnippetRepository: Sized {
    /// The stored directories, in order.
    spec fn repo_view(&self) -> Seq<DirModel>;

    /// The backend's structural invariant.
    spec fn inv(&self) -> bool;

    /// Loads every stored snippet, in store order.
    fn load_all(&self) -> (r: NibbResult<Vec<Snippet>>)
        requires
            self.inv(),
        ensures
            r matches Ok(v) && v.deep_view() == self.repo_view().map_values(
                |d: DirModel| snippet_of_dir(d),
            ),
    ;

    /// Loads the snippet stored under the slug of the given key. Fails with
    /// `NotFound` exactly when no entry carries that slug.
    fn load(&self, slug: &str) -> (r: NibbResult<Snippet>)
        requires
            self.inv(),
        ensures
            match spec_lookup(self.repo_view(), slug_of(slug@)) {
                Some(d) => r matches Ok(s) && s@ == snippet_of_dir(d),
                None => r matches Err(e) && e matches NibbError::NotFound(_),
            },
    ;

    /// Upserts one snippet: creates its entry or fully replaces it.
    fn save(&mut self, snippet: &Snippet) -> (r: NibbResult<()>)
        requires
            old(self).inv(),
        ensures
            r is Ok,
            final(self).repo_view() == spec_save(old(self).repo_view(), dir_model_of(snippet@)),
            final(self).inv(),
    ;

    /// Saves each snippet in order; one upsert per element.
    fn save_all(&mut self, snippets: &Vec<Snippet>) -> (r: NibbResult<()>)
        requires
            old(self).inv(),
        ensures
            r is Ok,
            final(self).repo_view() == spec_save_all(
                old(self).repo_view(),
                snippets.deep_view(),
            ),
            final(self).inv(),
    ;

    /// Deletes the entry stored under the slug of the given key. Fails with
    /// `NotFound`, changing nothing, exactly when no entry carries that slug.
    fn delete(&mut self, slug: &str) -> (r: NibbResult<()>)
        requires
            old(self).inv(),
        ensures
            final(self).inv(),
            match spec_lookup(old(self).repo_view(), slug_of(slug@)) {
                Some(_) => r is Ok && final(self).repo_view() == spec_remove(
                    old(self).repo_view(),
                    slug_of(slug@),
                ),
                None => r matches Err(e) && e matches NibbError::NotFound(_)
                    && final(self).repo_view() == old(self).repo_view(),
            },
    ;
}

impl FSRepo {
    /// Every slug names at most one directory, every directory is named by
    /// the slug of its snippet's name, and every directory has a content
    /// file matching its language.
    pub open spec fn wf(&self) -> bool {
        &&& forall|i: int, j: int|
            0 <= i < j < self@.len() ==> (#[trigger] self@[i]).slug != (#[trigger] self@[j]).slug
        &&& forall|i: int|
            0 <= i < self@.len() ==> (#[trigger] self@[i]).slug == slug_of(self@[i].meta.name)
        &&& forall|i: int|
            0 <= i < self@.len() ==> first_file(
                (#[trigger] self@[i]).files,
                spec_extension(self@[i].meta.language),
            ) is Some
    }

    /// A store with no snippets yet, rooted at the given path.
    pub fn new(base_dir: String) -> (r: FSRepo)
        ensures
            r@ =~= Seq::<DirModel>::empty(),
            r.wf(),
            r.spec_base_dir() == base_dir@,
    {
        FSRepo { base_dir, entries: Vec::new() }
    }

    /// The path of a snippet's directory under the store's root.
    pub fn snippet_path(&self, slug: &str) -> (r: String)
        ensures
            r@ == self.spec_base_dir() + "/snippets/"@ + slug@,
    {
        let mut r = self.base_dir.clone();
        r.append("/snippets/");
        r.append(slug);
        r
    }

    /// The names of the files in a snippet's directory: the sidecar
    /// `meta.toml`, then one `content.<extension>` per content file; nothing
    /// when no directory carries the slug.
    pub fn dir_files(&self, slug: &str) -> (r: Option<Vec<String>>)
        ensures
            match spec_lookup(self@, slug_of(slug@)) {
                Some(d) => r matches Some(v) && v.deep_view().len() == 1 + d.files.len()
                    && v.deep_view()[0] == "meta.toml"@ && (forall|k: int|
                    0 <= k < d.files.len() ==> v.deep_view()[k + 1] == "content."@ + (
                    #[trigger] d.files[k]).extension),
                None => r is None,
            },
    {
        let key = slugify(slug);
        match self.position_of(key.as_str()) {
            Some(i) => {
                let entry = &self.entries[i];
                let ghost fs = entry.files.deep_view();
                let mut v: Vec<String> = Vec::new();
                v.push(String::from_str("meta.toml"));
                let mut k: usize = 0;
                while k < entry.files.len()
                    invariant
                        fs == entry.files.deep_view(),
                        k <= fs.len(),
                        fs.len() == entry.files.len(),
                        v.deep_view().len() == 1 + k,
                        v.deep_view()[0] == "meta.toml"@,
                        forall|a: int|
                            0 <= a < k ==> v.deep_view()[a + 1] == "content."@ + (
                            #[trigger] fs[a]).extension,
                    decreases fs.len() - k,
                {
                    let mut name = String::from_str("content.");
                    name.append(entry.files[k].extension.as_str());
                    v.push(name);
                    k += 1;
                }
                Some(v)
            },
            None => None,
        }
    }

    /// The position of the first entry with the given slug, if any.
    fn position_of(&self, slug: &str) -> (r: Option<usize>)
        ensures
            match r {
                Some(i) => i < self@.len() && self@[i as int].slug == slug@ && spec_lookup(
                    self@,
                    slug@,
                ) == Some(self@[i as int]) && (forall|k: int|
                    0 <= k < i ==> (#[trigger] self@[k]).slug != slug@),
                None => spec_lookup(self@, slug@) is None,
            },
    {
        let mut i: usize = 0;
        proof {
            assert(self@.skip(0) =~= self@);
        }
        while i < self.entries.len()
            invariant
                i <= self@.len(),
                self@.len() == self.entries.len(),
                spec_lookup(self@, slug@) == spec_lookup(self@.skip(i as int), slug@),
                forall|k: int| 0 <= k < i ==> (#[trigger] self@[k]).slug != slug@,
            decreases self@.len() - i,
        {
            if str_eq(self.entries[i].slug.as_str(), slug) {
                proof {
                    assert(self@.skip(i as int)[0] == self@[i as int]);
                }
                return Some(i);
            }
            proof {
                assert(self@.skip(i as int).drop_first() =~= self@.skip(i + 1));
                assert(self@.skip(i as int)[0] == self@[i as int]);
            }
            i += 1;
        }
        proof {
            assert(self@.skip(i as int) =~= Seq::<DirModel>::empty());
        }
        None
    }
}

impl SnippetRepository for FSRepo {
    /// The stored directories.
    open spec fn repo_view(&self) -> Seq<DirModel> {
        self@
    }

    /// The store's invariant.
    open spec fn inv(&self) -> bool {
        self.wf()
    }

    /// Loads every stored snippet, in directory order.
    fn load_all(&self) -> (r: NibbResult<Vec<Snippet>>)
    {
        let mut out: Vec<Snippet> = Vec::new();
        let mut i: usize = 0;
        while i < self.entries.len()
            invariant
                self.wf(),
                i <= self@.len(),
                self@.len() == self.entries.len(),
                out.deep_view() =~= self@.take(i as int).map_values(
                    |d: DirModel| snippet_of_dir(d),
                ),
            decreases self@.len() - i,
        {
            let entry = &self.entries[i];
            let ext = entry.meta.get_content_extension();
            match position_of_file(&entry.files, ext.as_str()) {
                Some(j) => {
                    out.push(
                        Snippet { meta: entry.meta.clone(), content: entry.files[j].data.clone() },
                    );
                },
                None => {
                    proof {
                        assert(false);
                    }
                },
            }
            proof {
                assert(self@.take(i + 1).map_values(|d: DirModel| snippet_of_dir(d)) =~= self@.take(
                    i as int,
                ).map_values(|d: DirModel| snippet_of_dir(d)).push(
                    snippet_of_dir(self@[i as int]),
                ));
            }
            i += 1;
        }
        proof {
            assert(self@.take(self@.len() as int) =~= self@);
        }
        Ok(out)
    }

    /// Loads the snippet stored under the slug of the given key; the key is
    /// slugified first, so a raw name finds its own snippet. Fails with
    /// `NotFound` exactly when no directory carries that slug.
    fn load(&self, slug: &str) -> (r: NibbResult<Snippet>)
    {
        let key = slugify(slug);
        match self.position_of(key.as_str()) {
            Some(i) => {
                let entry = &self.entries[i];
                let ext = entry.meta.get_content_extension();
                match position_of_file(&entry.files, ext.as_str()) {
                    Some(j) => Ok(
                        Snippet {
                            meta: entry.meta.clone(),
                            content: entry.files[j].data.clone(),
                        },
                    ),
                    None => {
                        proof {
                            assert(false);
                        }
                        Err(NibbError::NotFound(key))
                    },
                }
            },
            None => Err(NibbError::NotFound(key)),
        }
    }

    /// Upserts one snippet: its directory is created or fully replaced, so
    /// that it holds the new metadata and exactly one content file, whose
    /// extension is the one of the snippet's (possibly changed) language.
    fn save(&mut self, snippet: &Snippet) -> (r: NibbResult<()>)
    {
        let slug = snippet.meta.get_slug();
        let file = ContentFile {
            extension: snippet.meta.get_content_extension(),
            data: snippet.content.clone(),
        };
        let mut files: Vec<ContentFile> = Vec::new();
        files.push(file);
        let dir = SnippetDir { slug, meta: snippet.meta.clone(), files };
        proof {
            assert(dir@.files =~= dir_model_of(snippet@).files);
            assert(dir@ =~= dir_model_of(snippet@));
        }
        match self.position_of(dir.slug.as_str()) {
            Some(i) => {
                let ghost m = self@;
                let ghost d = dir@;
                self.entries.remove(i);
                self.entries.insert(i, dir);
                proof {
                    assert(self@ =~= m.update(i as int, d));
                    lemma_save_at(m, d, i as int);
                    lemma_update_wf(m, d, i as int, *old(self), *self);
                }
                Ok(())
            },
            None => {
                let ghost m = self@;
                let ghost d = dir@;
                self.entries.push(dir);
                proof {
                    assert(self@ =~= m.push(d));
                    lemma_save_absent(m, d);
                    lemma_push_wf(m, d, *old(self), *self);
                }
                Ok(())
            },
        }
    }

    /// Saves each snippet in order; one upsert per element.
    fn save_all(&mut self, snippets: &Vec<Snippet>) -> (r: NibbResult<()>)
    {
        let ghost all = snippets.deep_view();
        let mut i: usize = 0;
        while i < snippets.len()
            invariant
                i <= snippets.len(),
                all == snippets.deep_view(),
                all.len() == snippets.len(),
                self@ == spec_save_all(old(self)@, all.take(i as int)),
                self.wf(),
            decreases snippets.len() - i,
        {
            let _ = self.save(&snippets[i]);
            proof {
                lemma_save_all_push(old(self)@, all.take(i as int), all[i as int]);
                assert(all.take(i + 1) =~= all.take(i as int).push(all[i as int]));
            }
            i += 1;
        }
        proof {
            assert(all.take(snippets.len() as int) =~= all);
        }
        Ok(())
    }

    /// Deletes the directory stored under the slug of the given key. Fails
    /// with `NotFound`, changing nothing, exactly when no directory carries
    /// that slug.
    fn delete(&mut self, slug: &str) -> (r: NibbResult<()>)
    {
        let key = slugify(slug);
        match self.position_of(key.as_str()) {
            Some(i) => {
                let ghost m = self@;
                self.entries.remove(i);
                proof {
                    assert(self@ =~= m.remove(i as int));
                    lemma_remove_at(m, key@, i as int);
                    lemma_remove_wf(m, i as int, *old(self), *self);
                }
                Ok(())
            },
            None => Err(NibbError::NotFound(key)),
        }
    }
}

/// The position of the first content file with the given extension, if any.
fn position_of_file(files: &Vec<ContentFile>, ext: &str) -> (r: Option<usize>)
    ensures
        match r {
            Some(j) => j < files.deep_view().len() && first_file(files.deep_view(), ext@) == Some(
                files.deep_view()[j as int],
            ),
            None => first_file(files.deep_view(), ext@) is None,
        },
{
    let ghost fs = files.deep_view();
    let mut j: usize = 0;
    proof {
        assert(fs.skip(0) =~= fs);
    }
    while j < files.len()
        invariant
            fs == files.deep_view(),
            j <= fs.len(),
            fs.len() == files.len(),
            first_file(fs, ext@) == first_file(fs.skip(j as int), ext@),
            forall|k: int| 0 <= k < j ==> (#[trigger] fs[k]).extension != ext@,
        decreases fs.len() - j,
    {
        if str_eq(files[j].extension.as_str(), ext) {
            proof {
                assert(fs.skip(j as int)[0] == fs[j as int]);
            }
            return Some(j);
        }
        proof {
            assert(fs.skip(j as int).drop_first() =~= fs.skip(j + 1));
            assert(fs.skip(j as int)[0] == fs[j as int]);
        }
        j += 1;
    }
    proof {
        assert(fs.skip(j as int) =~= Seq::<FileModel>::empty());
    }
    None
}

/// Replacing the first entry that carries the slug is what an upsert does
/// when the slug is present.
proof fn lemma_save_at(m: Seq<DirModel>, d: DirModel, i: int)
    requires
        0 <= i < m.len(),
        m[i].slug == d.slug,
        forall|k: int| 0 <= k < i ==> (#[trigger] m[k]).slug != d.slug,
    ensures
        spec_save(m, d) == m.update(i, d),
    decreases i,
{
    if i == 0 {
        assert(spec_save(m, d) == seq![d] + m.drop_first());
        assert(seq![d] + m.drop_first() =~= m.update(0, d));
    } else {
        lemma_save_at(m.drop_first(), d, i - 1);
        assert(spec_save(m, d) == seq![m[0]] + spec_save(m.drop_first(), d));
        assert(seq![m[0]] + m.drop_first().update(i - 1, d) =~= m.update(i, d));
    }
}

/// Appending the entry is what an upsert does when the slug is absent.
proof fn lemma_save_absent(m: Seq<DirModel>, d: DirModel)
    requires
        spec_lookup(m, d.slug) is None,
    ensures
        spec_save(m, d) == m.push(d),
        forall|k: int| 0 <= k < m.len() ==> (#[trigger] m[k]).slug != d.slug,
    decreases m.len(),
{
    if m.len() == 0 {
        assert(spec_save(m, d) =~= m.push(d));
    } else {
        lemma_save_absent(m.drop_first(), d);
        assert(seq![m[0]] + m.drop_first().push(d) =~= m.push(d));
        assert forall|k: int| 0 <= k < m.len() implies (#[trigger] m[k]).slug != d.slug by {
            if k > 0 {
                assert(m.drop_first()[k - 1] == m[k]);
            }
        }
    }
}

/// Replacing an entry by a well-shaped directory of the same slug keeps the
/// store well-shaped.
proof fn lemma_update_wf(m: Seq<DirModel>, d: DirModel, i: int, pre: FSRepo, post: FSRepo)
    requires
        pre.wf(),
        pre@ == m,
        0 <= i < m.len(),
        m[i].slug == d.slug,
        post@ == m.update(i, d),
        d.slug == slug_of(d.meta.name),
        first_file(d.files, spec_extension(d.meta.language)) is Some,
    ensures
        post.wf(),
{
    assert forall|a: int, b: int|
        0 <= a < b < post@.len() implies (#[trigger] post@[a]).slug != (#[trigger] post@[b]).slug by {
        assert(m[a].slug != m[b].slug);
    }
}

/// Appending a well-shaped directory whose slug is new keeps the store
/// well-shaped.
proof fn lemma_push_wf(m: Seq<DirModel>, d: DirModel, pre: FSRepo, post: FSRepo)
    requires
        pre.wf(),
        pre@ == m,
        forall|k: int| 0 <= k < m.len() ==> (#[trigger] m[k]).slug != d.slug,
        post@ == m.push(d),
        d.slug == slug_of(d.meta.name),
        first_file(d.files, spec_extension(d.meta.language)) is Some,
    ensures
        post.wf(),
{
    assert forall|a: int, b: int|
        0 <= a < b < post@.len() implies (#[trigger] post@[a]).slug != (#[trigger] post@[b]).slug by {
        if b < m.len() {
            assert(m[a].slug != m[b].slug);
        }
    }
}

/// Removing the entry at the first matching position is what a delete does.
proof fn lemma_remove_at(m: Seq<DirModel>, slug: Seq<char>, i: int)
    requires
        0 <= i < m.len(),
        m[i].slug == slug,
        forall|k: int| 0 <= k < i ==> (#[trigger] m[k]).slug != slug,
    ensures
        spec_remove(m, slug) == m.remove(i),
    decreases i,
{
    if i == 0 {
        assert(spec_remove(m, slug) == m.drop_first());
        assert(m.drop_first() =~= m.remove(0));
    } else {
        lemma_remove_at(m.drop_first(), slug, i - 1);
        assert(spec_remove(m, slug) == seq![m[0]] + spec_remove(m.drop_first(), slug));
        assert(seq![m[0]] + m.drop_first().remove(i - 1) =~= m.remove(i));
    }
}

/// A delete keeps the store well-shaped.
proof fn lemma_remove_wf(m: Seq<DirModel>, i: int, pre: FSRepo, post: FSRepo)
    requires
        pre.wf(),
        pre@ == m,
        0 <= i < m.len(),
        post@ == m.remove(i),
    ensures
        post.wf(),
{
    m.remove_ensures(i);
    assert forall|a: int, b: int|
        0 <= a < b < post@.len() implies (#[trigger] post@[a]).slug != (#[trigger] post@[b]).slug by {
        let a0: int = if a < i {
            a
        } else {
            a + 1
        };
        let b0: int = if b < i {
            b
        } else {
            b + 1
        };
        assert(post@[a] == m[a0] && post@[b] == m[b0]);
        assert(m[a0].slug != m[b0].slug);
    }
    assert forall|a: int| 0 <= a < post@.len() implies (#[trigger] post@[a]).slug == slug_of(
        post@[a].meta.name,
    ) && first_file(post@[a].files, spec_extension(post@[a].meta.language)) is Some by {
        let a0: int = if a < i {
            a
        } else {
            a + 1
        };
        assert(post@[a] == m[a0]);
    }
}

/// Saving a snippet and then loading its slug finds exactly the snippet that
/// was saved — same name, content, tags and language — whatever the store
/// held before.
pub proof fn lemma_save_then_load(m: Seq<DirModel>, s: SnippetView)
    ensures
        spec_lookup(spec_save(m, dir_model_of(s)), slug_of(s.meta.name)) == Some(dir_model_of(s)),
        snippet_of_dir(dir_model_of(s)) == s,
    decreases m.len(),
{
    let d = dir_model_of(s);
    if m.len() == 0 {
        assert(spec_save(m, d)[0] == d);
    } else if m[0].slug == d.slug {
        assert(spec_save(m, d)[0] == d);
    } else {
        lemma_save_then_load(m.drop_first(), s);
        assert(spec_save(m, d)[0] == m[0]);
        assert(spec_save(m, d).drop_first() =~= spec_save(m.drop_first(), d));
    }
    assert(first_file(d.files, spec_extension(s.meta.language)) == Some(d.files[0]));
    assert(snippet_of_dir(d) =~= s);
}

/// Saving a snippet twice, the second time with only its language changed,
/// leaves its slug mapped to one directory with exactly one content file,
/// whose extension belongs to the new language; nothing of the first save's
/// content file survives.
pub proof fn lemma_resave_replaces_content(m: Seq<DirModel>, s1: SnippetView, s2: SnippetView)
    requires
        s1.meta.name == s2.meta.name,
    ensures
        ({
            let after = spec_save(spec_save(m, dir_model_of(s1)), dir_model_of(s2));
            &&& spec_lookup(after, slug_of(s2.meta.name)) == Some(dir_model_of(s2))
            &&& dir_model_of(s2).files.len() == 1
            &&& dir_model_of(s2).files[0].extension == spec_extension(s2.meta.language)
        }),
{
    lemma_save_then_load(spec_save(m, dir_model_of(s1)), s2);
}

/// After a delete, neither a lookup nor an enumeration of the store sees the
/// deleted slug: in a store of distinct slugs, no remaining entry carries it.
pub proof fn lemma_delete_gone(m: Seq<DirModel>, slug: Seq<char>)
    requires
        forall|i: int, j: int|
            0 <= i < j < m.len() ==> (#[trigger] m[i]).slug != (#[trigger] m[j]).slug,
    ensures
        spec_lookup(spec_remove(m, slug), slug) is None,
        forall|i: int|
            0 <= i < spec_remove(m, slug).len() ==> (#[trigger] spec_remove(m, slug)[i]).slug
                != slug,
    decreases m.len(),
{
    if m.len() == 0 {
    } else if m[0].slug == slug {
        assert(spec_remove(m, slug) == m.drop_first());
        assert forall|i: int| 0 <= i < m.drop_first().len() implies (#[trigger] m.drop_first()[
            i]).slug != slug by {
            assert(m.drop_first()[i] == m[i + 1]);
        }
        lemma_lookup_absent(m.drop_first(), slug);
    } else {
        assert forall|i: int, j: int|
            0 <= i < j < m.drop_first().len() implies (#[trigger] m.drop_first()[i]).slug != (
        #[trigger] m.drop_first()[j]).slug by {
            assert(m.drop_first()[i] == m[i + 1] && m.drop_first()[j] == m[j + 1]);
        }
        lemma_delete_gone(m.drop_first(), slug);
        let r = spec_remove(m, slug);
        assert(r == seq![m[0]] + spec_remove(m.drop_first(), slug));
        assert(r[0] == m[0]);
        assert(r.drop_first() =~= spec_remove(m.drop_first(), slug));
        assert forall|i: int| 0 <= i < r.len() implies (#[trigger] r[i]).slug != slug by {
            if i > 0 {
                assert(r[i] == spec_remove(m.drop_first(), slug)[i - 1]);
            }
        }
    }
}

/// A store in which no entry carries the slug looks it up to nothing.
proof fn lemma_lookup_absent(m: Seq<DirModel>, slug: Seq<char>)
    requires
        forall|i: int| 0 <= i < m.len() ==> (#[trigger] m[i]).slug != slug,
    ensures
        spec_lookup(m, slug) is None,
    decreases m.len(),
{
    if m.len() > 0 {
        assert forall|i: int| 0 <= i < m.drop_first().len() implies (#[trigger] m.drop_first()[
            i]).slug != slug by {
            assert(m.drop_first()[i] == m[i + 1]);
        }
        lemma_lookup_absent(m.drop_first(), slug);
    }
}

/// Saving one more snippet after a batch is the batch extended by it.
proof fn lemma_save_all_push(m: Seq<DirModel>, ss: Seq<SnippetView>, s: SnippetView)
    ensures
        spec_save_all(m, ss.push(s)) == spec_save(spec_save_all(m, ss), dir_model_of(s)),
    decreases ss.len(),
{
    if ss.len() == 0 {
        assert(ss.push(s).drop_first() =~= Seq::<SnippetView>::empty());
        assert(ss.push(s)[0] == s);
        assert(spec_save_all(m, ss.push(s)) == spec_save_all(
            spec_save(m, dir_model_of(s)),
            Seq::<SnippetView>::empty(),
        ));
        assert(spec_save_all(spec_save(m, dir_model_of(s)), Seq::<SnippetView>::empty())
            == spec_save(m, dir_model_of(s)));
        assert(spec_save_all(m, ss) == m);
    } else {
        lemma_save_all_push(spec_save(m, dir_model_of(ss[0])), ss.drop_first(), s);
        assert(ss.push(s)[0] == ss[0]);
        assert(ss.push(s).drop_first() =~= ss.drop_first().push(s));
    }
}

} // verus!
