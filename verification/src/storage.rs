use vstd::prelude::*;
use crate::errors::{NibbError, NibbResult};
use crate::file_type::{FileType, spec_display_name};
use crate::snippet::clone_strings;
use crate::text::{contains_seq, contains_str, str_eq};

verus! {

/// One snippet of the relational store, flattened: the row's columns plus
/// the tag names linked to it.
#[derive(Debug)]
pub struct SnippetRecord {
    /// The row's key; assigned by the store on insert.
    pub id: i64,
    /// Display name.
    pub name: String,
    /// The raw content.
    pub content: String,
    /// Optional free-text description.
    pub description: Option<String>,
    /// The tag names; a set, so order carries no meaning and duplicates
    /// collapse when stored.
    pub tags: Vec<String>,
    /// The language.
    pub lang: FileType,
}

/// The mathematical content of a flattened snippet.
#[verifier::ext_equal]
pub ghost struct RecordView {
    pub id: int,
    pub name: Seq<char>,
    pub content: Seq<char>,
    pub description: Option<Seq<char>>,
    pub tags: Seq<Seq<char>>,
    pub lang: FileType,
}

impl View for SnippetRecord {
    type V = RecordView;

    open spec fn view(&self) -> RecordView {
        RecordView {
            id: self.id as int,
            name: self.name@,
            content: self.content@,
            description: match self.description {
                Some(d) => Some(d@),
                None => None,
            },
            tags: self.tags.deep_view(),
            lang: self.lang,
        }
    }
}

impl DeepView for SnippetRecord {
    type V = RecordView;

    open spec fn deep_view(&self) -> RecordView {
        self.view()
    }
}

impl Clone for SnippetRecord {
    /// Clones keep every field.
    fn clone(&self) -> (r: Self)
        ensures
            r@ == self@,
    {
        let r = SnippetRecord {
            id: self.id,
            name: self.name.clone(),
            content: self.content.clone(),
            description: match &self.description {
                Some(d) => Some(d.clone()),
                None => None,
            },
            tags: clone_strings(&self.tags),
            lang: self.lang,
        };
        proof {
            assert(r@ =~= self@);
        }
        r
    }
}

/// One row of the `snippets` table.
#[derive(Debug)]
pub struct SnippetRow {
    pub id: i64,
    pub name: String,
    pub content: String,
    pub description: Option<String>,
    pub lang: FileType,
}

/// The mathematical content of one `snippets` row.
#[verifier::ext_equal]
pub ghost struct RowView {
    pub id: int,
    pub name: Seq<char>,
    pub content: Seq<char>,
    pub description: Option<Seq<char>>,
    pub lang: FileType,
}

impl View for SnippetRow {
    type V = RowView;

    open spec fn view(&self) -> RowView {
        RowView {
            id: self.id as int,
            name: self.name@,
            content: self.content@,
            description: match self.description {
                Some(d) => Some(d@),
                None => None,
            },
            lang: self.lang,
        }
    }
}

impl DeepView for SnippetRow {
    type V = RowView;

    open spec fn deep_view(&self) -> RowView {
        self.view()
    }
}

/// One row of the `tags` table.
#[derive(Debug)]
pub struct TagRow {
    pub id: i64,
    pub name: String,
}

/// The mathematical content of one `tags` row.
#[verifier::ext_equal]
pub ghost struct TagView {
    pub id: int,
    pub name: Seq<char>,
}

impl View for TagRow {
    type V = TagView;

    open spec fn view(&self) -> TagView {
        TagView { id: self.id as int, name: self.name@ }
    }
}

impl DeepView for TagRow {
    type V = TagView;

    open spec fn deep_view(&self) -> TagView {
        self.view()
    }
}

/// One row of the `snippets_tags` join table.
#[derive(Debug, Clone, Copy)]
pub struct LinkRow {
    pub snippet_id: i64,
    pub tag_id: i64,
}

/// The mathematical content of one join row.
#[verifier::ext_equal]
pub ghost struct LinkView {
    pub snippet_id: int,
    pub tag_id: int,
}

impl View for LinkRow {
    type V = LinkView;

    open spec fn view(&self) -> LinkView {
        LinkView { snippet_id: self.snippet_id as int, tag_id: self.tag_id as int }
    }
}

impl DeepView for LinkRow {
    type V = LinkView;

    open spec fn deep_view(&self) -> LinkView {
        self.view()
    }
}

/// The mathematical content of the whole relational store: the three tables
/// and the two key counters.
#[verifier::ext_equal]
pub ghost struct DbModel {
    pub rows: Seq<RowView>,
    pub tags: Seq<TagView>,
    pub links: Seq<LinkView>,
    pub next_row_id: int,
    pub next_tag_id: int,
}

/// The first row with the given id.
pub open spec fn find_row(rows: Seq<RowView>, id: int) -> Option<RowView>
    decreases rows.len(),
{
    if rows.len() == 0 {
        None
    } else if rows[0].id == id {
        Some(rows[0])
    } else {
        find_row(rows.drop_first(), id)
    }
}

/// The first row with the given name.
pub open spec fn find_row_by_name(rows: Seq<RowView>, name: Seq<char>) -> Option<RowView>
    decreases rows.len(),
{
    if rows.len() == 0 {
        None
    } else if rows[0].name == name {
        Some(rows[0])
    } else {
        find_row_by_name(rows.drop_first(), name)
    }
}

/// The first tag with the given name.
pub open spec fn find_tag_by_name(tags: Seq<TagView>, name: Seq<char>) -> Option<TagView>
    decreases tags.len(),
{
    if tags.len() == 0 {
        None
    } else if tags[0].name == name {
        Some(tags[0])
    } else {
        find_tag_by_name(tags.drop_first(), name)
    }
}

/// The first tag with the given id.
pub open spec fn find_tag_by_id(tags: Seq<TagView>, id: int) -> Option<TagView>
    decreases tags.len(),
{
    if tags.len() == 0 {
        None
    } else if tags[0].id == id {
        Some(tags[0])
    } else {
        find_tag_by_id(tags.drop_first(), id)
    }
}

/// A join row for the pair is present.
pub open spec fn has_link(links: Seq<LinkView>, sid: int, tid: int) -> bool {
    exists|k: int|
        0 <= k < links.len() && (#[trigger] links[k]).snippet_id == sid && links[k].tag_id == tid
}

/// The join rows that do not belong to the given snippet id.
pub open spec fn links_without(links: Seq<LinkView>, sid: int) -> Seq<LinkView>
    decreases links.len(),
{
    if links.len() == 0 {
        Seq::empty()
    } else if links[0].snippet_id == sid {
        links_without(links.drop_first(), sid)
    } else {
        seq![links[0]] + links_without(links.drop_first(), sid)
    }
}

/// The store after linking one tag to one snippet id: the tag row is created
/// unless present, the join row is created unless present. Nothing else
/// changes.
pub open spec fn spec_add_tag(db: DbModel, sid: int, tag: Seq<char>) -> DbModel {
    let present = find_tag_by_name(db.tags, tag);
    let tid = match present {
        Some(t) => t.id,
        None => db.next_tag_id,
    };
    let tags2 = match present {
        Some(_) => db.tags,
        None => db.tags.push(TagView { id: db.next_tag_id, name: tag }),
    };
    let next2 = match present {
        Some(_) => db.next_tag_id,
        None => db.next_tag_id + 1,
    };
    let links2 = if has_link(db.links, sid, tid) {
        db.links
    } else {
        db.links.push(LinkView { snippet_id: sid, tag_id: tid })
    };
    DbModel {
        rows: db.rows,
        tags: tags2,
        links: links2,
        next_row_id: db.next_row_id,
        next_tag_id: next2,
    }
}

/// The store after linking each tag in order.
pub open spec fn spec_add_tags(db: DbModel, sid: int, tags: Seq<Seq<char>>) -> DbModel
    decreases tags.len(),
{
    if tags.len() == 0 {
        db
    } else {
        spec_add_tags(spec_add_tag(db, sid, tags[0]), sid, tags.drop_first())
    }
}

/// How linking a record's tags can stop early: after `base` and the first
/// `k` tags linked, the store stands unchanged at the `k`-th tag, which
/// would need a fresh tag row while the tag id space is exhausted.
pub open spec fn spec_tags_exhausted(
    base: DbModel,
    sid: int,
    tags: Seq<Seq<char>>,
    post: DbModel,
) -> bool {
    exists|k: int|
        0 <= k < tags.len() && #[trigger] spec_add_tags(base, sid, tags.take(k)) == post
            && post.next_tag_id == i64::MAX as int && find_tag_by_name(post.tags, tags[k]) is None
}

/// The row a record is stored as, under the given id.
pub open spec fn row_of(rec: RecordView, id: int) -> RowView {
    RowView {
        id: id,
        name: rec.name,
        content: rec.content,
        description: rec.description,
        lang: rec.lang,
    }
}

/// The rows after replacing the scalar columns of the first row with the id.
pub open spec fn rows_update(rows: Seq<RowView>, id: int, rec: RecordView) -> Seq<RowView>
    decreases rows.len(),
{
    if rows.len() == 0 {
        Seq::empty()
    } else if rows[0].id == id {
        seq![row_of(rec, id)] + rows.drop_first()
    } else {
        seq![rows[0]] + rows_update(rows.drop_first(), id, rec)
    }
}

/// The rows after removing the first row with the id.
pub open spec fn rows_remove(rows: Seq<RowView>, id: int) -> Seq<RowView>
    decreases rows.len(),
{
    if rows.len() == 0 {
        Seq::empty()
    } else if rows[0].id == id {
        rows.drop_first()
    } else {
        seq![rows[0]] + rows_remove(rows.drop_first(), id)
    }
}

/// The store after an insert: the record's row under the fresh id, then each
/// of its tags linked to that id.
pub open spec fn spec_insert(db: DbModel, rec: RecordView) -> DbModel {
    spec_add_tags(spec_insert_row(db, rec), db.next_row_id, rec.tags)
}

/// The store after only the row-insert step of an insert.
pub open spec fn spec_insert_row(db: DbModel, rec: RecordView) -> DbModel {
    DbModel {
        rows: db.rows.push(row_of(rec, db.next_row_id)),
        tags: db.tags,
        links: db.links,
        next_row_id: db.next_row_id + 1,
        next_tag_id: db.next_tag_id,
    }
}

/// The store after an update of the snippet with the id: its scalar columns
/// replaced, all of its join rows dropped, then each tag of the new state
/// linked afresh.
pub open spec fn spec_update(db: DbModel, rec: RecordView, id: int) -> DbModel {
    spec_add_tags(spec_update_row(db, rec, id), id, rec.tags)
}

/// The store after only the scalar-update and link-drop steps of an update.
pub open spec fn spec_update_row(db: DbModel, rec: RecordView, id: int) -> DbModel {
    DbModel {
        rows: rows_update(db.rows, id, rec),
        tags: db.tags,
        links: links_without(db.links, id),
        next_row_id: db.next_row_id,
        next_tag_id: db.next_tag_id,
    }
}

/// The store after a delete: the snippet's join rows go, then its row; tag
/// rows are never deleted.
pub open spec fn spec_delete(db: DbModel, id: int) -> DbModel {
    DbModel {
        rows: rows_remove(db.rows, id),
        tags: db.tags,
        links: links_without(db.links, id),
        next_row_id: db.next_row_id,
        next_tag_id: db.next_tag_id,
    }
}

/// The names of the tags linked to a snippet id, walking the join rows in
/// order; a dangling join row contributes nothing.
pub open spec fn tags_of_links(links: Seq<LinkView>, tags: Seq<TagView>, sid: int) -> Seq<Seq<char>>
    decreases links.len(),
{
    if links.len() == 0 {
        Seq::empty()
    } else if links[0].snippet_id == sid && find_tag_by_id(tags, links[0].tag_id) is Some {
        seq![find_tag_by_id(tags, links[0].tag_id).unwrap().name] + tags_of_links(
            links.drop_first(),
            tags,
            sid,
        )
    } else {
        tags_of_links(links.drop_first(), tags, sid)
    }
}

/// The flattened record a row denotes, with its linked tag names.
pub open spec fn record_of(db: DbModel, row: RowView) -> RecordView {
    RecordView {
        id: row.id,
        name: row.name,
        content: row.content,
        description: row.description,
        tags: tags_of_links(db.links, db.tags, row.id),
        lang: row.lang,
    }
}

/// The set of tag names joined to a snippet id.
pub open spec fn link_tag_names(db: DbModel, sid: int) -> Set<Seq<char>> {
    Set::new(
        |t: Seq<char>|
            exists|k: int|
                0 <= k < db.tags.len() && (#[trigger] db.tags[k]).name == t && has_link(
                    db.links,
                    sid,
                    db.tags[k].id,
                ),
    )
}

/// The store's invariant: distinct row ids below the row counter, distinct
/// tag ids below the tag counter, distinct tag names, distinct join pairs,
/// and join rows that reference existing tags and rows.
pub open spec fn wf_model(db: DbModel) -> bool {
    &&& db.next_row_id >= 1
    &&& db.next_tag_id >= 1
    &&& forall|i: int, j: int|
        0 <= i < j < db.rows.len() ==> (#[trigger] db.rows[i]).id != (#[trigger] db.rows[j]).id
    &&& forall|i: int| 0 <= i < db.rows.len() ==> 1 <= (#[trigger] db.rows[i]).id < db.next_row_id
    &&& forall|i: int, j: int|
        0 <= i < j < db.tags.len() ==> (#[trigger] db.tags[i]).id != (#[trigger] db.tags[j]).id
    &&& forall|i: int, j: int|
        0 <= i < j < db.tags.len() ==> (#[trigger] db.tags[i]).name != (#[trigger] db.tags[j]).name
    &&& forall|i: int| 0 <= i < db.tags.len() ==> 1 <= (#[trigger] db.tags[i]).id < db.next_tag_id
    &&& forall|i: int, j: int|
        0 <= i < j < db.links.len() ==> !((#[trigger] db.links[i]).snippet_id == (
        #[trigger] db.links[j]).snippet_id && db.links[i].tag_id == db.links[j].tag_id)
    &&& forall|i: int|
        0 <= i < db.links.len() ==> find_tag_by_id(db.tags, (#[trigger] db.links[i]).tag_id) is Some
    &&& forall|i: int|
        0 <= i < db.links.len() ==> find_row(db.rows, (#[trigger] db.links[i]).snippet_id) is Some
}

/// The relational snippet store: the three tables of the schema, held as the
/// in-memory image of the database file. Executing the corresponding SQL
/// against the file is the caller's side of the boundary.
pub struct Database {
    rows: Vec<SnippetRow>,
    tags: Vec<TagRow>,
    links: Vec<LinkRow>,
    next_row_id: i64,
    next_tag_id: i64,
}

impl View for Database {
    type V = DbModel;

    closed spec fn view(&self) -> DbModel {
        DbModel {
            rows: self.rows.deep_view(),
            tags: self.tags.deep_view(),
            links: self.links.deep_view(),
            next_row_id: self.next_row_id as int,
            next_tag_id: self.next_tag_id as int,
        }
    }
}

impl Database {
    /// The store's invariant.
    pub open spec fn wf(&self) -> bool {
        wf_model(self@)
    }

    /// An empty store: the three tables freshly created.
    pub fn new() -> (r: Database)
        ensures
            r@.rows =~= Seq::<RowView>::empty(),
            r@.tags =~= Seq::<TagView>::empty(),
            r@.links =~= Seq::<LinkView>::empty(),
            r@.next_row_id == 1,
            r@.next_tag_id == 1,
            r.wf(),
    {
        Database {
            rows: Vec::new(),
            tags: Vec::new(),
            links: Vec::new(),
            next_row_id: 1,
            next_tag_id: 1,
        }
    }
}

impl Database {
    /// The position of the first row with the given id, if any.
    fn idx_row_by_id(&self, id: i64) -> (r: Option<usize>)
        ensures
            match r {
                Some(i) => i < self@.rows.len() && self@.rows[i as int].id == id as int && find_row(
                    self@.rows,
                    id as int,
                ) == Some(self@.rows[i as int]) && (forall|k: int|
                    0 <= k < i ==> (#[trigger] self@.rows[k]).id != id as int),
                None => find_row(self@.rows, id as int) is None && (forall|k: int|
                    0 <= k < self@.rows.len() ==> (#[trigger] self@.rows[k]).id != id as int),
            },
    {
        let ghost rows = self@.rows;
        let mut i: usize = 0;
        proof {
            assert(rows.skip(0) =~= rows);
        }
        while i < self.rows.len()
            invariant
                rows == self@.rows,
                i <= rows.len(),
                rows.len() == self.rows.len(),
                find_row(rows, id as int) == find_row(rows.skip(i as int), id as int),
                forall|k: int| 0 <= k < i ==> (#[trigger] rows[k]).id != id as int,
            decreases rows.len() - i,
        {
            if self.rows[i].id == id {
                proof {
                    assert(rows.skip(i as int)[0] == rows[i as int]);
                }
                return Some(i);
            }
            proof {
                assert(rows.skip(i as int).drop_first() =~= rows.skip(i + 1));
                assert(rows.skip(i as int)[0] == rows[i as int]);
            }
            i += 1;
        }
        proof {
            assert(rows.skip(i as int) =~= Seq::<RowView>::empty());
        }
        None
    }

    /// The position of the first row with the given name, if any.
    fn idx_row_by_name(&self, name: &str) -> (r: Option<usize>)
        ensures
            match r {
                Some(i) => i < self@.rows.len() && self@.rows[i as int].name == name@
                    && find_row_by_name(self@.rows, name@) == Some(self@.rows[i as int]) && (
                forall|k: int| 0 <= k < i ==> (#[trigger] self@.rows[k]).name != name@),
                None => find_row_by_name(self@.rows, name@) is None && (forall|k: int|
                    0 <= k < self@.rows.len() ==> (#[trigger] self@.rows[k]).name != name@),
            },
    {
        let ghost rows = self@.rows;
        let mut i: usize = 0;
        proof {
            assert(rows.skip(0) =~= rows);
        }
        while i < self.rows.len()
            invariant
                rows == self@.rows,
                i <= rows.len(),
                rows.len() == self.rows.len(),
                find_row_by_name(rows, name@) == find_row_by_name(rows.skip(i as int), name@),
                forall|k: int| 0 <= k < i ==> (#[trigger] rows[k]).name != name@,
            decreases rows.len() - i,
        {
            if str_eq(self.rows[i].name.as_str(), name) {
                proof {
                    assert(rows.skip(i as int)[0] == rows[i as int]);
                }
                return Some(i);
            }
            proof {
                assert(rows.skip(i as int).drop_first() =~= rows.skip(i + 1));
                assert(rows.skip(i as int)[0] == rows[i as int]);
            }
            i += 1;
        }
        proof {
            assert(rows.skip(i as int) =~= Seq::<RowView>::empty());
        }
        None
    }

    /// The position of the first tag with the given name, if any.
    fn idx_tag_by_name(&self, name: &str) -> (r: Option<usize>)
        ensures
            match r {
                Some(i) => i < self@.tags.len() && self@.tags[i as int].name == name@
                    && find_tag_by_name(self@.tags, name@) == Some(self@.tags[i as int]) && (
                forall|k: int| 0 <= k < i ==> (#[trigger] self@.tags[k]).name != name@),
                None => find_tag_by_name(self@.tags, name@) is None && (forall|k: int|
                    0 <= k < self@.tags.len() ==> (#[trigger] self@.tags[k]).name != name@),
            },
    {
        let ghost tags = self@.tags;
        let mut i: usize = 0;
        proof {
            assert(tags.skip(0) =~= tags);
        }
        while i < self.tags.len()
            invariant
                tags == self@.tags,
                i <= tags.len(),
                tags.len() == self.tags.len(),
                find_tag_by_name(tags, name@) == find_tag_by_name(tags.skip(i as int), name@),
                forall|k: int| 0 <= k < i ==> (#[trigger] tags[k]).name != name@,
            decreases tags.len() - i,
        {
            if str_eq(self.tags[i].name.as_str(), name) {
                proof {
                    assert(tags.skip(i as int)[0] == tags[i as int]);
                }
                return Some(i);
            }
            proof {
                assert(tags.skip(i as int).drop_first() =~= tags.skip(i + 1));
                assert(tags.skip(i as int)[0] == tags[i as int]);
            }
            i += 1;
        }
        proof {
            assert(tags.skip(i as int) =~= Seq::<TagView>::empty());
        }
        None
    }

    /// The position of the first tag with the given id, if any.
    fn idx_tag_by_id(&self, id: i64) -> (r: Option<usize>)
        ensures
            match r {
                Some(i) => i < self@.tags.len() && self@.tags[i as int].id == id as int
                    && find_tag_by_id(self@.tags, id as int) == Some(self@.tags[i as int]),
                None => find_tag_by_id(self@.tags, id as int) is None && (forall|k: int|
                    0 <= k < self@.tags.len() ==> (#[trigger] self@.tags[k]).id != id as int),
            },
    {
        let ghost tags = self@.tags;
        let mut i: usize = 0;
        proof {
            assert(tags.skip(0) =~= tags);
        }
        while i < self.tags.len()
            invariant
                tags == self@.tags,
                i <= tags.len(),
                tags.len() == self.tags.len(),
                find_tag_by_id(tags, id as int) == find_tag_by_id(tags.skip(i as int), id as int),
                forall|k: int| 0 <= k < i ==> (#[trigger] tags[k]).id != id as int,
            decreases tags.len() - i,
        {
            if self.tags[i].id == id {
                proof {
                    assert(tags.skip(i as int)[0] == tags[i as int]);
                }
                return Some(i);
            }
            proof {
                assert(tags.skip(i as int).drop_first() =~= tags.skip(i + 1));
                assert(tags.skip(i as int)[0] == tags[i as int]);
            }
            i += 1;
        }
        proof {
            assert(tags.skip(i as int) =~= Seq::<TagView>::empty());
        }
        None
    }

    /// The position of the join row for the pair, if any.
    fn idx_link(&self, sid: i64, tid: i64) -> (r: Option<usize>)
        ensures
            match r {
                Some(i) => i < self@.links.len() && self@.links[i as int].snippet_id == sid as int
                    && self@.links[i as int].tag_id == tid as int,
                None => !has_link(self@.links, sid as int, tid as int),
            },
    {
        let ghost links = self@.links;
        let mut i: usize = 0;
        while i < self.links.len()
            invariant
                links == self@.links,
                i <= links.len(),
                links.len() == self.links.len(),
                forall|k: int|
                    0 <= k < i ==> !((#[trigger] links[k]).snippet_id == sid as int
                        && links[k].tag_id == tid as int),
            decreases links.len() - i,
        {
            if self.links[i].snippet_id == sid && self.links[i].tag_id == tid {
                return Some(i);
            }
            i += 1;
        }
        None
    }

    /// Links one tag name to the row with the given id: the tag row is
    /// created unless present, the join row is created unless present.
    /// Fails only when a fresh tag id would be needed and the id space is
    /// exhausted; nothing changes then.
    fn add_tag_for_id(&mut self, sid: i64, tag: &str) -> (r: NibbResult<()>)
        requires
            old(self).wf(),
            find_row(old(self)@.rows, sid as int) is Some,
        ensures
            match r {
                Ok(()) => final(self)@ == spec_add_tag(old(self)@, sid as int, tag@)
                    && final(self).wf(),
                Err(e) => e matches NibbError::DBError(_) && final(self)@ == old(self)@
                    && old(self)@.next_tag_id == i64::MAX as int
                    && find_tag_by_name(old(self)@.tags, tag@) is None,
            },
    {
        let tid: i64 = match self.idx_tag_by_name(tag) {
            Some(ti) => self.tags[ti].id,
            None => {
                if self.next_tag_id == i64::MAX {
                    return Err(NibbError::DBError(String::from_str("tag id space exhausted")));
                }
                let tid = self.next_tag_id;
                self.tags.push(TagRow { id: tid, name: tag.to_owned() });
                self.next_tag_id = tid + 1;
                tid
            },
        };
        proof {
            assert(self@.tags =~= spec_add_tag(old(self)@, sid as int, tag@).tags);
        }
        match self.idx_link(sid, tid) {
            Some(_) => {
                proof {
                    assert(self@ =~= spec_add_tag(old(self)@, sid as int, tag@));
                    lemma_add_tag_wf(old(self)@, sid as int, tag@);
                }
            },
            None => {
                self.links.push(LinkRow { snippet_id: sid, tag_id: tid });
                proof {
                    assert(self@.links =~= old(self)@.links.push(
                        LinkView { snippet_id: sid as int, tag_id: tid as int },
                    ));
                    assert(self@ =~= spec_add_tag(old(self)@, sid as int, tag@));
                    lemma_add_tag_wf(old(self)@, sid as int, tag@);
                }
            },
        }
        Ok(())
    }
}

/// Finding a tag id succeeds exactly when some tag carries it.
proof fn lemma_tag_id_find_iff(tags: Seq<TagView>, id: int)
    ensures
        (find_tag_by_id(tags, id) is Some) <==> (exists|k: int|
            0 <= k < tags.len() && (#[trigger] tags[k]).id == id),
    decreases tags.len(),
{
    if tags.len() > 0 {
        lemma_tag_id_find_iff(tags.drop_first(), id);
        if tags[0].id == id {
        } else {
            assert forall|k: int|
                0 <= k < tags.len() && (#[trigger] tags[k]).id == id implies exists|k2: int|
                0 <= k2 < tags.drop_first().len() && (#[trigger] tags.drop_first()[k2]).id == id by {
                assert(tags.drop_first()[k - 1] == tags[k]);
            }
            assert forall|k2: int|
                0 <= k2 < tags.drop_first().len() && (#[trigger] tags.drop_first()[k2]).id
                    == id implies exists|k: int| 0 <= k < tags.len() && (#[trigger] tags[k]).id
                == id by {
                assert(tags[k2 + 1] == tags.drop_first()[k2]);
            }
        }
    }
}

/// Linking a tag keeps the store's invariant, when the snippet id names a
/// row.
proof fn lemma_add_tag_wf(db: DbModel, sid: int, tag: Seq<char>)
    requires
        wf_model(db),
        find_row(db.rows, sid) is Some,
    ensures
        wf_model(spec_add_tag(db, sid, tag)),
{
    let db2 = spec_add_tag(db, sid, tag);
    let present = find_tag_by_name(db.tags, tag);
    let tid = match present {
        Some(t) => t.id,
        None => db.next_tag_id,
    };
    // The tag id used by the (possibly new) join row names a tag row of db2.
    match present {
        Some(t) => {
            lemma_tag_name_member(db.tags, tag);
            let k = choose|k: int|
                0 <= k < db.tags.len() && db.tags[k] == t && (#[trigger] db.tags[k]).name == tag;
            lemma_tag_id_find_iff(db2.tags, tid);
            assert(db2.tags[k].id == tid);
        },
        None => {
            lemma_tag_id_find_iff(db2.tags, tid);
            assert(db2.tags[db.tags.len() as int].id == tid);
        },
    }
    // Tag rows of db2: distinct ids, distinct names, ids below the counter.
    match present {
        Some(_) => {},
        None => {
            lemma_tag_name_none(db.tags, tag);
            assert forall|i: int, j: int| 0 <= i < j < db2.tags.len() implies (
            #[trigger] db2.tags[i]).id != (#[trigger] db2.tags[j]).id && db2.tags[i].name
                != db2.tags[j].name by {
                if j < db.tags.len() {
                    assert(db2.tags[i] == db.tags[i] && db2.tags[j] == db.tags[j]);
                } else {
                    assert(db2.tags[i] == db.tags[i]);
                    assert(db2.tags[j] == TagView { id: db.next_tag_id, name: tag });
                }
            }
            assert forall|i: int| 0 <= i < db2.tags.len() implies 1 <= (#[trigger] db2.tags[i]).id
                < db2.next_tag_id by {
                if i < db.tags.len() {
                    assert(db2.tags[i] == db.tags[i]);
                }
            }
        },
    }
    // Old tag ids still name tag rows when the tag table grew.
    assert forall|i: int| 0 <= i < db.links.len() implies find_tag_by_id(
        db2.tags,
        (#[trigger] db.links[i]).tag_id,
    ) is Some by {
        lemma_tag_id_find_iff(db.tags, db.links[i].tag_id);
        let k = choose|k: int|
            0 <= k < db.tags.len() && (#[trigger] db.tags[k]).id == db.links[i].tag_id;
        lemma_tag_id_find_iff(db2.tags, db.links[i].tag_id);
        assert(db2.tags[k].id == db.links[i].tag_id);
    }
    // Join rows of db2: distinct pairs, and both foreign keys resolve.
    if !has_link(db.links, sid, tid) {
        let newlink = LinkView { snippet_id: sid, tag_id: tid };
        assert(db2.links == db.links.push(newlink));
        assert forall|i: int, j: int| 0 <= i < j < db2.links.len() implies !((
        #[trigger] db2.links[i]).snippet_id == (#[trigger] db2.links[j]).snippet_id
            && db2.links[i].tag_id == db2.links[j].tag_id) by {
            if j < db.links.len() {
                assert(db2.links[i] == db.links[i] && db2.links[j] == db.links[j]);
            } else {
                assert(db2.links[i] == db.links[i]);
                assert(db2.links[j] == newlink);
            }
        }
        assert forall|i: int| 0 <= i < db2.links.len() implies find_tag_by_id(
            db2.tags,
            (#[trigger] db2.links[i]).tag_id,
        ) is Some && find_row(db2.rows, db2.links[i].snippet_id) is Some by {
            if i < db.links.len() {
                assert(db2.links[i] == db.links[i]);
            } else {
                assert(db2.links[i] == newlink);
            }
        }
    } else {
        assert(db2.links == db.links);
        assert forall|i: int| 0 <= i < db2.links.len() implies find_tag_by_id(
            db2.tags,
            (#[trigger] db2.links[i]).tag_id,
        ) is Some by {
            assert(db2.links[i] == db.links[i]);
        }
    }
}

/// A tag found by name is one of the tag rows.
proof fn lemma_tag_name_member(tags: Seq<TagView>, name: Seq<char>)
    requires
        find_tag_by_name(tags, name) is Some,
    ensures
        exists|k: int|
            0 <= k < tags.len() && tags[k] == find_tag_by_name(tags, name).unwrap() && (
            #[trigger] tags[k]).name == name,
    decreases tags.len(),
{
    if tags.len() > 0 {
        if tags[0].name == name {
            assert(tags[0] == find_tag_by_name(tags, name).unwrap());
        } else {
            lemma_tag_name_member(tags.drop_first(), name);
            let k = choose|k: int|
                0 <= k < tags.drop_first().len() && tags.drop_first()[k] == find_tag_by_name(
                    tags.drop_first(),
                    name,
                ).unwrap() && (#[trigger] tags.drop_first()[k]).name == name;
            assert(tags[k + 1] == tags.drop_first()[k]);
        }
    }
}

/// When no tag is found by name, no tag row carries the name.
proof fn lemma_tag_name_none(tags: Seq<TagView>, name: Seq<char>)
    requires
        find_tag_by_name(tags, name) is None,
    ensures
        forall|k: int| 0 <= k < tags.len() ==> (#[trigger] tags[k]).name != name,
    decreases tags.len(),
{
    if tags.len() > 0 {
        lemma_tag_name_none(tags.drop_first(), name);
        assert forall|k: int| 0 <= k < tags.len() implies (#[trigger] tags[k]).name != name by {
            if k > 0 {
                assert(tags.drop_first()[k - 1] == tags[k]);
            }
        }
    }
}

/// The join rows with the first row for the pair removed; unchanged when
/// the pair has no row.
pub open spec fn links_drop_pair(links: Seq<LinkView>, sid: int, tid: int) -> Seq<LinkView>
    decreases links.len(),
{
    if links.len() == 0 {
        Seq::empty()
    } else if links[0].snippet_id == sid && links[0].tag_id == tid {
        links.drop_first()
    } else {
        seq![links[0]] + links_drop_pair(links.drop_first(), sid, tid)
    }
}

/// The store after unlinking one tag from one snippet: only the join row for
/// the pair goes; the tag row stays.
pub open spec fn spec_rm_tag(db: DbModel, sid: int, tid: int) -> DbModel {
    DbModel {
        rows: db.rows,
        tags: db.tags,
        links: links_drop_pair(db.links, sid, tid),
        next_row_id: db.next_row_id,
        next_tag_id: db.next_tag_id,
    }
}

/// Finding a row id succeeds exactly when some row carries it.
pub(crate) proof fn lemma_row_id_find_iff(rows: Seq<RowView>, id: int)
    ensures
        (find_row(rows, id) is Some) <==> (exists|k: int|
            0 <= k < rows.len() && (#[trigger] rows[k]).id == id),
    decreases rows.len(),
{
    if rows.len() > 0 {
        lemma_row_id_find_iff(rows.drop_first(), id);
        if rows[0].id != id {
            assert forall|k: int|
                0 <= k < rows.len() && (#[trigger] rows[k]).id == id implies exists|k2: int|
                0 <= k2 < rows.drop_first().len() && (#[trigger] rows.drop_first()[k2]).id == id by {
                assert(rows.drop_first()[k - 1] == rows[k]);
            }
            assert forall|k2: int|
                0 <= k2 < rows.drop_first().len() && (#[trigger] rows.drop_first()[k2]).id
                    == id implies exists|k: int| 0 <= k < rows.len() && (#[trigger] rows[k]).id
                == id by {
                assert(rows[k2 + 1] == rows.drop_first()[k2]);
            }
        }
    }
}

/// Linking a list of tags one more time is linking the batch and then the
/// last one.
proof fn lemma_add_tags_push(db: DbModel, sid: int, ts: Seq<Seq<char>>, t: Seq<char>)
    ensures
        spec_add_tags(db, sid, ts.push(t)) == spec_add_tag(spec_add_tags(db, sid, ts), sid, t),
    decreases ts.len(),
{
    if ts.len() == 0 {
        assert(ts.push(t).drop_first() =~= Seq::<Seq<char>>::empty());
        assert(ts.push(t)[0] == t);
        assert(spec_add_tags(db, sid, ts.push(t)) == spec_add_tags(
            spec_add_tag(db, sid, t),
            sid,
            Seq::<Seq<char>>::empty(),
        ));
    } else {
        lemma_add_tags_push(spec_add_tag(db, sid, ts[0]), sid, ts.drop_first(), t);
        assert(ts.push(t)[0] == ts[0]);
        assert(ts.push(t).drop_first() =~= ts.drop_first().push(t));
    }
}

/// Linking tags changes neither the snippet rows nor the row counter.
proof fn lemma_add_tags_rows(db: DbModel, sid: int, ts: Seq<Seq<char>>)
    ensures
        spec_add_tags(db, sid, ts).rows == db.rows,
        spec_add_tags(db, sid, ts).next_row_id == db.next_row_id,
    decreases ts.len(),
{
    if ts.len() > 0 {
        lemma_add_tags_rows(spec_add_tag(db, sid, ts[0]), sid, ts.drop_first());
    }
}

/// Dropping a snippet's join rows, one row at a time from the front.
proof fn lemma_links_without_push(links: Seq<LinkView>, sid: int, l: LinkView)
    ensures
        links_without(links.push(l), sid) == if l.snippet_id == sid {
            links_without(links, sid)
        } else {
            links_without(links, sid).push(l)
        },
    decreases links.len(),
{
    if links.len() == 0 {
        assert(links.push(l).drop_first() =~= Seq::<LinkView>::empty());
        assert(links.push(l)[0] == l);
        if l.snippet_id != sid {
            assert(seq![l] + links_without(Seq::<LinkView>::empty(), sid) =~= links_without(
                links,
                sid,
            ).push(l));
        }
    } else {
        lemma_links_without_push(links.drop_first(), sid, l);
        assert(links.push(l)[0] == links[0]);
        assert(links.push(l).drop_first() =~= links.drop_first().push(l));
        if links[0].snippet_id != sid && l.snippet_id != sid {
            assert(seq![links[0]] + links_without(links.drop_first(), sid).push(l) =~= (seq![
                links[0],
            ] + links_without(links.drop_first(), sid)).push(l));
        } else if links[0].snippet_id != sid {
            assert(seq![links[0]] + links_without(links.drop_first().push(l), sid) =~= seq![
                links[0],
            ] + links_without(links.drop_first(), sid));
        }
    }
}

/// What dropping a snippet's join rows leaves: no row of that snippet, only
/// rows that were there, still pairwise distinct when they were before.
proof fn lemma_links_without_all(links: Seq<LinkView>, sid: int)
    requires
        forall|i: int, j: int|
            0 <= i < j < links.len() ==> !((#[trigger] links[i]).snippet_id == (
            #[trigger] links[j]).snippet_id && links[i].tag_id == links[j].tag_id),
    ensures
        forall|i: int|
            0 <= i < links_without(links, sid).len() ==> (#[trigger] links_without(
                links,
                sid,
            )[i]).snippet_id != sid,
        forall|i: int|
            0 <= i < links_without(links, sid).len() ==> links.contains(
                #[trigger] links_without(links, sid)[i],
            ),
        forall|i: int, j: int|
            0 <= i < j < links_without(links, sid).len() ==> !((#[trigger] links_without(
                links,
                sid,
            )[i]).snippet_id == (#[trigger] links_without(links, sid)[j]).snippet_id
                && links_without(links, sid)[i].tag_id == links_without(links, sid)[j].tag_id),
    decreases links.len(),
{
    if links.len() > 0 {
        let tail = links.drop_first();
        assert forall|i: int, j: int|
            0 <= i < j < tail.len() implies !((#[trigger] tail[i]).snippet_id == (
        #[trigger] tail[j]).snippet_id && tail[i].tag_id == tail[j].tag_id) by {
            assert(tail[i] == links[i + 1] && tail[j] == links[j + 1]);
        }
        lemma_links_without_all(tail, sid);
        let r = links_without(links, sid);
        assert forall|i: int| 0 <= i < tail.len() implies links.contains(#[trigger] tail[i]) by {
            assert(tail[i] == links[i + 1]);
        }
        if links[0].snippet_id == sid {
            assert forall|i: int|
                0 <= i < links_without(tail, sid).len() implies links.contains(
                #[trigger] links_without(tail, sid)[i]) by {
                assert(tail.contains(links_without(tail, sid)[i]));
            }
        } else {
            assert(r == seq![links[0]] + links_without(tail, sid));
            assert forall|i: int| 0 <= i < r.len() implies links.contains(#[trigger] r[i])
                && r[i].snippet_id != sid by {
                if i == 0 {
                    assert(r[0] == links[0]);
                    assert(links[0] == links[0]);
                } else {
                    assert(r[i] == links_without(tail, sid)[i - 1]);
                    assert(tail.contains(r[i]));
                }
            }
            assert forall|i: int, j: int|
                0 <= i < j < r.len() implies !((#[trigger] r[i]).snippet_id == (
            #[trigger] r[j]).snippet_id && r[i].tag_id == r[j].tag_id) by {
                if i == 0 {
                    assert(r[j] == links_without(tail, sid)[j - 1]);
                    assert(tail.contains(r[j]));
                    let w = choose|w: int| 0 <= w < tail.len() && tail[w] == r[j];
                    assert(links[w + 1] == r[j]);
                    assert(!(links[0].snippet_id == links[w + 1].snippet_id && links[0].tag_id
                        == links[w + 1].tag_id));
                } else {
                    assert(r[i] == links_without(tail, sid)[i - 1]);
                    assert(r[j] == links_without(tail, sid)[j - 1]);
                }
            }
        }
    }
}

/// Replacing the scalars of the first row with the id is what the update
/// step does.
proof fn lemma_rows_update_at(rows: Seq<RowView>, id: int, rec: RecordView, i: int)
    requires
        0 <= i < rows.len(),
        rows[i].id == id,
        forall|k: int| 0 <= k < i ==> (#[trigger] rows[k]).id != id,
    ensures
        rows_update(rows, id, rec) == rows.update(i, row_of(rec, id)),
    decreases i,
{
    if i == 0 {
        assert(seq![row_of(rec, id)] + rows.drop_first() =~= rows.update(0, row_of(rec, id)));
    } else {
        lemma_rows_update_at(rows.drop_first(), id, rec, i - 1);
        assert(seq![rows[0]] + rows.drop_first().update(i - 1, row_of(rec, id)) =~= rows.update(
            i,
            row_of(rec, id),
        ));
    }
}

/// Removing the first row with the id is what a delete does to the rows.
proof fn lemma_rows_remove_at(rows: Seq<RowView>, id: int, i: int)
    requires
        0 <= i < rows.len(),
        rows[i].id == id,
        forall|k: int| 0 <= k < i ==> (#[trigger] rows[k]).id != id,
    ensures
        rows_remove(rows, id) == rows.remove(i),
    decreases i,
{
    if i == 0 {
        assert(rows.drop_first() =~= rows.remove(0));
    } else {
        lemma_rows_remove_at(rows.drop_first(), id, i - 1);
        assert(seq![rows[0]] + rows.drop_first().remove(i - 1) =~= rows.remove(i));
    }
}

/// Collecting a snippet's tag names, one join row at a time from the front.
proof fn lemma_tags_of_links_push(
    links: Seq<LinkView>,
    tags: Seq<TagView>,
    sid: int,
    l: LinkView,
)
    ensures
        tags_of_links(links.push(l), tags, sid) == if l.snippet_id == sid && find_tag_by_id(
            tags,
            l.tag_id,
        ) is Some {
            tags_of_links(links, tags, sid).push(find_tag_by_id(tags, l.tag_id).unwrap().name)
        } else {
            tags_of_links(links, tags, sid)
        },
    decreases links.len(),
{
    if links.len() == 0 {
        assert(links.push(l).drop_first() =~= Seq::<LinkView>::empty());
        assert(links.push(l)[0] == l);
        if l.snippet_id == sid && find_tag_by_id(tags, l.tag_id) is Some {
            assert(seq![find_tag_by_id(tags, l.tag_id).unwrap().name] + tags_of_links(
                Seq::<LinkView>::empty(),
                tags,
                sid,
            ) =~= tags_of_links(links, tags, sid).push(
                find_tag_by_id(tags, l.tag_id).unwrap().name,
            ));
        }
    } else {
        lemma_tags_of_links_push(links.drop_first(), tags, sid, l);
        assert(links.push(l)[0] == links[0]);
        assert(links.push(l).drop_first() =~= links.drop_first().push(l));
        if links[0].snippet_id == sid && find_tag_by_id(tags, links[0].tag_id) is Some {
            let h = find_tag_by_id(tags, links[0].tag_id).unwrap().name;
            if l.snippet_id == sid && find_tag_by_id(tags, l.tag_id) is Some {
                let n = find_tag_by_id(tags, l.tag_id).unwrap().name;
                assert(seq![h] + tags_of_links(links.drop_first(), tags, sid).push(n) =~= (seq![h]
                    + tags_of_links(links.drop_first(), tags, sid)).push(n));
            }
        }
    }
}

/// Dropping the join row at its first position is what unlinking does.
proof fn lemma_drop_pair_at(links: Seq<LinkView>, sid: int, tid: int, i: int)
    requires
        0 <= i < links.len(),
        links[i].snippet_id == sid && links[i].tag_id == tid,
        forall|k: int|
            0 <= k < i ==> !((#[trigger] links[k]).snippet_id == sid && links[k].tag_id == tid),
    ensures
        links_drop_pair(links, sid, tid) == links.remove(i),
    decreases i,
{
    if i == 0 {
        assert(links.drop_first() =~= links.remove(0));
    } else {
        lemma_drop_pair_at(links.drop_first(), sid, tid, i - 1);
        assert(seq![links[0]] + links.drop_first().remove(i - 1) =~= links.remove(i));
    }
}

/// Unlinking a pair that has no join row changes nothing.
proof fn lemma_drop_pair_absent(links: Seq<LinkView>, sid: int, tid: int)
    requires
        !has_link(links, sid, tid),
    ensures
        links_drop_pair(links, sid, tid) == links,
    decreases links.len(),
{
    if links.len() > 0 {
        assert(!(links[0].snippet_id == sid && links[0].tag_id == tid));
        assert forall|k: int|
            0 <= k < links.drop_first().len() implies !((#[trigger] links.drop_first()[
        k]).snippet_id == sid && links.drop_first()[k].tag_id == tid) by {
            assert(links.drop_first()[k] == links[k + 1]);
        }
        lemma_drop_pair_absent(links.drop_first(), sid, tid);
        assert(seq![links[0]] + links.drop_first() =~= links);
    }
}

/// The row-insert step keeps the store's invariant.
proof fn lemma_insert_row_wf(db: DbModel, rec: RecordView)
    requires
        wf_model(db),
    ensures
        wf_model(spec_insert_row(db, rec)),
        find_row(spec_insert_row(db, rec).rows, db.next_row_id) is Some,
{
    let db2 = spec_insert_row(db, rec);
    let newrow = row_of(rec, db.next_row_id);
    assert(db2.rows == db.rows.push(newrow));
    assert forall|i: int, j: int| 0 <= i < j < db2.rows.len() implies (#[trigger] db2.rows[i]).id
        != (#[trigger] db2.rows[j]).id by {
        if j < db.rows.len() {
            assert(db2.rows[i] == db.rows[i] && db2.rows[j] == db.rows[j]);
        } else {
            assert(db2.rows[i] == db.rows[i]);
            assert(db2.rows[j] == newrow);
        }
    }
    assert forall|i: int| 0 <= i < db2.rows.len() implies 1 <= (#[trigger] db2.rows[i]).id
        < db2.next_row_id by {
        if i < db.rows.len() {
            assert(db2.rows[i] == db.rows[i]);
        } else {
            assert(db2.rows[i] == newrow);
        }
    }
    assert forall|i: int| 0 <= i < db2.links.len() implies find_row(
        db2.rows,
        (#[trigger] db2.links[i]).snippet_id,
    ) is Some by {
        lemma_row_id_find_iff(db.rows, db.links[i].snippet_id);
        let k = choose|k: int|
            0 <= k < db.rows.len() && (#[trigger] db.rows[k]).id == db.links[i].snippet_id;
        lemma_row_id_find_iff(db2.rows, db.links[i].snippet_id);
        assert(db2.rows[k].id == db.links[i].snippet_id);
    }
    lemma_row_id_find_iff(db2.rows, db.next_row_id);
    assert(db2.rows[db.rows.len() as int].id == db.next_row_id);
}

/// The scalar-update and link-drop step keeps the store's invariant, and the
/// updated id still names a row.
proof fn lemma_update_row_wf(db: DbModel, rec: RecordView, id: int, i: int)
    requires
        wf_model(db),
        0 <= i < db.rows.len(),
        db.rows[i].id == id,
        forall|k: int| 0 <= k < i ==> (#[trigger] db.rows[k]).id != id,
    ensures
        wf_model(spec_update_row(db, rec, id)),
        find_row(spec_update_row(db, rec, id).rows, id) is Some,
        link_tag_names(spec_update_row(db, rec, id), id) =~= Set::<Seq<char>>::empty(),
{
    let db2 = spec_update_row(db, rec, id);
    lemma_rows_update_at(db.rows, id, rec, i);
    assert(db2.rows == db.rows.update(i, row_of(rec, id)));
    assert forall|a: int| 0 <= a < db2.rows.len() implies (#[trigger] db2.rows[a]).id
        == db.rows[a].id by {
        if a != i {
            assert(db2.rows[a] == db.rows[a]);
        }
    }
    lemma_links_without_all(db.links, id);
    assert(db2.links == links_without(db.links, id));
    assert forall|a: int| 0 <= a < db2.links.len() implies find_tag_by_id(
        db2.tags,
        (#[trigger] db2.links[a]).tag_id,
    ) is Some && find_row(db2.rows, db2.links[a].snippet_id) is Some by {
        assert(db.links.contains(db2.links[a]));
        let w = choose|w: int| 0 <= w < db.links.len() && db.links[w] == db2.links[a];
        assert(find_tag_by_id(db.tags, db.links[w].tag_id) is Some);
        lemma_row_id_find_iff(db.rows, db.links[w].snippet_id);
        let k = choose|k: int|
            0 <= k < db.rows.len() && (#[trigger] db.rows[k]).id == db.links[w].snippet_id;
        lemma_row_id_find_iff(db2.rows, db2.links[a].snippet_id);
        assert(db2.rows[k].id == db.links[w].snippet_id);
    }
    lemma_row_id_find_iff(db2.rows, id);
    assert(db2.rows[i].id == id);
    assert forall|t: Seq<char>| !(#[trigger] link_tag_names(db2, id).contains(t)) by {
        if link_tag_names(db2, id).contains(t) {
            let k = choose|k: int|
                0 <= k < db2.tags.len() && (#[trigger] db2.tags[k]).name == t && has_link(
                    db2.links,
                    id,
                    db2.tags[k].id,
                );
            let w = choose|w: int|
                0 <= w < db2.links.len() && (#[trigger] db2.links[w]).snippet_id == id
                    && db2.links[w].tag_id == db2.tags[k].id;
            assert(db2.links[w].snippet_id != id);
        }
    }
}

/// A delete keeps the store's invariant.
proof fn lemma_delete_wf(db: DbModel, id: int, i: int)
    requires
        wf_model(db),
        0 <= i < db.rows.len(),
        db.rows[i].id == id,
        forall|k: int| 0 <= k < i ==> (#[trigger] db.rows[k]).id != id,
    ensures
        wf_model(spec_delete(db, id)),
{
    let db2 = spec_delete(db, id);
    lemma_rows_remove_at(db.rows, id, i);
    assert(db2.rows == db.rows.remove(i));
    db.rows.remove_ensures(i);
    assert forall|a: int, b: int| 0 <= a < b < db2.rows.len() implies (#[trigger] db2.rows[a]).id
        != (#[trigger] db2.rows[b]).id by {
        let a0: int = if a < i {
            a
        } else {
            a + 1
        };
        let b0: int = if b < i {
            b
        } else {
            b + 1
        };
        assert(db2.rows[a] == db.rows[a0] && db2.rows[b] == db.rows[b0]);
        assert(db.rows[a0].id != db.rows[b0].id);
    }
    assert forall|a: int| 0 <= a < db2.rows.len() implies 1 <= (#[trigger] db2.rows[a]).id
        < db2.next_row_id by {
        let a0: int = if a < i {
            a
        } else {
            a + 1
        };
        assert(db2.rows[a] == db.rows[a0]);
    }
    lemma_links_without_all(db.links, id);
    assert forall|a: int| 0 <= a < db2.links.len() implies find_tag_by_id(
        db2.tags,
        (#[trigger] db2.links[a]).tag_id,
    ) is Some && find_row(db2.rows, db2.links[a].snippet_id) is Some by {
        assert(db.links.contains(db2.links[a]));
        let w = choose|w: int| 0 <= w < db.links.len() && db.links[w] == db2.links[a];
        assert(find_tag_by_id(db.tags, db.links[w].tag_id) is Some);
        lemma_row_id_find_iff(db.rows, db.links[w].snippet_id);
        let k = choose|k: int|
            0 <= k < db.rows.len() && (#[trigger] db.rows[k]).id == db.links[w].snippet_id;
        assert(db.rows[k].id != id);
        assert(k != i);
        let k2: int = if k < i {
            k
        } else {
            k - 1
        };
        assert(db2.rows[k2] == db.rows[k]);
        lemma_row_id_find_iff(db2.rows, db2.links[a].snippet_id);
    }
}

impl Database {
    /// The tag names linked to a snippet id, in join-row order.
    fn collect_tags(&self, sid: i64) -> (r: Vec<String>)
        requires
            self.wf(),
        ensures
            r.deep_view() == tags_of_links(self@.links, self@.tags, sid as int),
    {
        let ghost links = self@.links;
        let mut out: Vec<String> = Vec::new();
        let mut j: usize = 0;
        while j < self.links.len()
            invariant
                self.wf(),
                links == self@.links,
                j <= links.len(),
                links.len() == self.links.len(),
                out.deep_view() =~= tags_of_links(links.take(j as int), self@.tags, sid as int),
            decreases links.len() - j,
        {
            let l = self.links[j];
            proof {
                assert(self@.links[j as int] == l@);
            }
            if l.snippet_id == sid {
                match self.idx_tag_by_id(l.tag_id) {
                    Some(t) => {
                        out.push(self.tags[t].name.clone());
                    },
                    None => {
                        proof {
                            assert(false);
                        }
                    },
                }
            }
            proof {
                lemma_tags_of_links_push(
                    links.take(j as int),
                    self@.tags,
                    sid as int,
                    links[j as int],
                );
                assert(links.take(j + 1) =~= links.take(j as int).push(links[j as int]));
            }
            j += 1;
        }
        proof {
            assert(links.take(links.len() as int) =~= links);
        }
        out
    }

    /// The flattened record of the row at a position, with its tag names.
    fn record_at(&self, i: usize) -> (r: SnippetRecord)
        requires
            self.wf(),
            i < self@.rows.len(),
        ensures
            r@ == record_of(self@, self@.rows[i as int]),
    {
        let row = &self.rows[i];
        let tags = self.collect_tags(row.id);
        let r = SnippetRecord {
            id: row.id,
            name: row.name.clone(),
            content: row.content.clone(),
            description: match &row.description {
                Some(d) => Some(d.clone()),
                None => None,
            },
            tags,
            lang: row.lang,
        };
        proof {
            assert(r@ =~= record_of(self@, self@.rows[i as int]));
        }
        r
    }
}

/// Inserts a snippet: its row is stored under a fresh id, then each of its
/// tags is linked to that id, creating tag rows as needed. Fails with a
/// database error only when an id space is exhausted; the row and the tags
/// linked up to that point remain, as each linking step stands alone.
pub fn insert_snippet(conn: &mut Database, snippet: &SnippetRecord) -> (r: NibbResult<()>)
    requires
        old(conn).wf(),
    ensures
        final(conn).wf(),
        match r {
            Ok(()) => final(conn)@ == spec_insert(old(conn)@, snippet@),
            Err(e) => e matches NibbError::DBError(_) && ((final(conn)@ == old(conn)@
                && old(conn)@.next_row_id == i64::MAX as int) || spec_tags_exhausted(
                spec_insert_row(old(conn)@, snippet@),
                old(conn)@.next_row_id,
                snippet@.tags,
                final(conn)@,
            )),
        },
{
    if conn.next_row_id == i64::MAX {
        return Err(NibbError::DBError(String::from_str("snippet id space exhausted")));
    }
    let sid = conn.next_row_id;
    conn.rows.push(
        SnippetRow {
            id: sid,
            name: snippet.name.clone(),
            content: snippet.content.clone(),
            description: match &snippet.description {
                Some(d) => Some(d.clone()),
                None => None,
            },
            lang: snippet.lang,
        },
    );
    conn.next_row_id = sid + 1;
    let ghost base = conn@;
    proof {
        assert(base =~= spec_insert_row(old(conn)@, snippet@));
        lemma_insert_row_wf(old(conn)@, snippet@);
    }
    let ghost ts = snippet@.tags;
    let mut k: usize = 0;
    while k < snippet.tags.len()
        invariant
            conn.wf(),
            base == spec_insert_row(old(conn)@, snippet@),
            sid as int == old(conn)@.next_row_id,
            ts == snippet@.tags,
            k <= ts.len(),
            ts.len() == snippet.tags.len(),
            conn@ == spec_add_tags(base, sid as int, ts.take(k as int)),
            find_row(conn@.rows, sid as int) is Some,
        decreases ts.len() - k,
    {
        let ghost pre = conn@;
        match conn.add_tag_for_id(sid, snippet.tags[k].as_str()) {
            Ok(()) => {
                proof {
                    lemma_add_tags_push(base, sid as int, ts.take(k as int), ts[k as int]);
                    assert(ts.take(k + 1) =~= ts.take(k as int).push(ts[k as int]));
                    lemma_add_tags_rows(base, sid as int, ts.take(k + 1));
                }
            },
            Err(e) => {
                proof {
                    assert(snippet@.tags[k as int] == snippet.tags@[k as int].deep_view());
                    assert(conn@ == spec_add_tags(
                        spec_insert_row(old(conn)@, snippet@),
                        old(conn)@.next_row_id,
                        snippet@.tags.take(k as int),
                    ));
                    assert(conn@.next_tag_id == i64::MAX as int);
                    assert(find_tag_by_name(conn@.tags, snippet@.tags[k as int]) is None);
                    assert(spec_tags_exhausted(
                        spec_insert_row(old(conn)@, snippet@),
                        old(conn)@.next_row_id,
                        snippet@.tags,
                        conn@,
                    ));
                }
                return Err(e);
            },
        }
        k += 1;
    }
    proof {
        assert(ts.take(ts.len() as int) =~= ts);
    }
    Ok(())
}

/// Updates the snippet stored under the id, in the update-then-resync shape:
/// the scalar columns are replaced, every join row of the id is dropped, and
/// each tag of the new state is linked afresh, so the join table mirrors the
/// new tag set exactly. Fails with `NotFound`, changing nothing, when the id
/// names no row; fails with a database error only when the tag id space is
/// exhausted, leaving the tags linked up to that point.
pub fn update_snippet(conn: &mut Database, snippet: &SnippetRecord, id: i64) -> (r: NibbResult<()>)
    requires
        old(conn).wf(),
    ensures
        final(conn).wf(),
        match find_row(old(conn)@.rows, id as int) {
            None => r matches Err(NibbError::NotFound(_)) && final(conn)@ == old(conn)@,
            Some(_) => match r {
                Ok(()) => final(conn)@ == spec_update(old(conn)@, snippet@, id as int),
                Err(e) => e matches NibbError::DBError(_) && spec_tags_exhausted(
                    spec_update_row(old(conn)@, snippet@, id as int),
                    id as int,
                    snippet@.tags,
                    final(conn)@,
                ),
            },
        },
{
    let i = match conn.idx_row_by_id(id) {
        Some(i) => i,
        None => {
            return Err(NibbError::NotFound(String::from_str("snippet id")));
        },
    };
    conn.rows.remove(i);
    conn.rows.insert(
        i,
        SnippetRow {
            id,
            name: snippet.name.clone(),
            content: snippet.content.clone(),
            description: match &snippet.description {
                Some(d) => Some(d.clone()),
                None => None,
            },
            lang: snippet.lang,
        },
    );
    let mut kept: Vec<LinkRow> = Vec::new();
    let ghost oldlinks = old(conn)@.links;
    let mut j: usize = 0;
    while j < conn.links.len()
        invariant
            j <= oldlinks.len(),
            oldlinks.len() == conn.links.len(),
            conn@.links == oldlinks,
            kept.deep_view() =~= links_without(oldlinks.take(j as int), id as int),
        decreases oldlinks.len() - j,
    {
        let l = conn.links[j];
        proof {
            assert(oldlinks[j as int] == l@);
        }
        if l.snippet_id != id {
            kept.push(l);
        }
        proof {
            lemma_links_without_push(oldlinks.take(j as int), id as int, oldlinks[j as int]);
            assert(oldlinks.take(j + 1) =~= oldlinks.take(j as int).push(oldlinks[j as int]));
        }
        j += 1;
    }
    proof {
        assert(oldlinks.take(oldlinks.len() as int) =~= oldlinks);
    }
    conn.links = kept;
    let ghost base = conn@;
    proof {
        assert(conn@.rows =~= old(conn)@.rows.update(i as int, row_of(snippet@, id as int)));
        lemma_rows_update_at(old(conn)@.rows, id as int, snippet@, i as int);
        assert(base =~= spec_update_row(old(conn)@, snippet@, id as int));
        lemma_update_row_wf(old(conn)@, snippet@, id as int, i as int);
    }
    let ghost ts = snippet@.tags;
    let mut k: usize = 0;
    while k < snippet.tags.len()
        invariant
            conn.wf(),
            base == spec_update_row(old(conn)@, snippet@, id as int),
            find_row(old(conn)@.rows, id as int) is Some,
            ts == snippet@.tags,
            k <= ts.len(),
            ts.len() == snippet.tags.len(),
            conn@ == spec_add_tags(base, id as int, ts.take(k as int)),
            find_row(conn@.rows, id as int) is Some,
        decreases ts.len() - k,
    {
        match conn.add_tag_for_id(id, snippet.tags[k].as_str()) {
            Ok(()) => {
                proof {
                    lemma_add_tags_push(base, id as int, ts.take(k as int), ts[k as int]);
                    assert(ts.take(k + 1) =~= ts.take(k as int).push(ts[k as int]));
                    lemma_add_tags_rows(base, id as int, ts.take(k + 1));
                }
            },
            Err(e) => {
                proof {
                    assert(snippet@.tags[k as int] == snippet.tags@[k as int].deep_view());
                    assert(conn@ == spec_add_tags(
                        spec_update_row(old(conn)@, snippet@, id as int),
                        id as int,
                        snippet@.tags.take(k as int),
                    ));
                    assert(conn@.next_tag_id == i64::MAX as int);
                    assert(find_tag_by_name(conn@.tags, snippet@.tags[k as int]) is None);
                    assert(spec_tags_exhausted(
                        spec_update_row(old(conn)@, snippet@, id as int),
                        id as int,
                        snippet@.tags,
                        conn@,
                    ));
                }
                return Err(e);
            },
        }
        k += 1;
    }
    proof {
        assert(ts.take(ts.len() as int) =~= ts);
    }
    Ok(())
}

/// Deletes the snippet stored under the id: first every join row of the id,
/// then its row; tag rows are never deleted. Fails with `NotFound`, changing
/// nothing, when the id names no row.
pub fn delete_snippet(conn: &mut Database, id: i64) -> (r: NibbResult<()>)
    requires
        old(conn).wf(),
    ensures
        final(conn).wf(),
        match find_row(old(conn)@.rows, id as int) {
            None => r matches Err(NibbError::NotFound(_)) && final(conn)@ == old(conn)@,
            Some(_) => r is Ok && final(conn)@ == spec_delete(old(conn)@, id as int),
        },
{
    let i = match conn.idx_row_by_id(id) {
        Some(i) => i,
        None => {
            return Err(NibbError::NotFound(String::from_str("snippet id")));
        },
    };
    let mut kept: Vec<LinkRow> = Vec::new();
    let ghost oldlinks = old(conn)@.links;
    let mut j: usize = 0;
    while j < conn.links.len()
        invariant
            j <= oldlinks.len(),
            oldlinks.len() == conn.links.len(),
            conn@.links == oldlinks,
            kept.deep_view() =~= links_without(oldlinks.take(j as int), id as int),
        decreases oldlinks.len() - j,
    {
        let l = conn.links[j];
        proof {
            assert(oldlinks[j as int] == l@);
        }
        if l.snippet_id != id {
            kept.push(l);
        }
        proof {
            lemma_links_without_push(oldlinks.take(j as int), id as int, oldlinks[j as int]);
            assert(oldlinks.take(j + 1) =~= oldlinks.take(j as int).push(oldlinks[j as int]));
        }
        j += 1;
    }
    proof {
        assert(oldlinks.take(oldlinks.len() as int) =~= oldlinks);
    }
    conn.links = kept;
    conn.rows.remove(i);
    proof {
        assert(conn@.rows =~= old(conn)@.rows.remove(i as int));
        lemma_rows_remove_at(old(conn)@.rows, id as int, i as int);
        assert(conn@ =~= spec_delete(old(conn)@, id as int));
        lemma_delete_wf(old(conn)@, id as int, i as int);
    }
    Ok(())
}

/// Loads the snippet stored under the id, with its tag names. Fails with
/// `NotFound` exactly when the id names no row.
pub fn get_snippet(conn: &Database, id: i64) -> (r: NibbResult<SnippetRecord>)
    requires
        conn.wf(),
    ensures
        match find_row(conn@.rows, id as int) {
            Some(row) => r matches Ok(rec) && rec@ == record_of(conn@, row),
            None => r matches Err(NibbError::NotFound(_)),
        },
{
    match conn.idx_row_by_id(id) {
        Some(i) => Ok(conn.record_at(i)),
        None => Err(NibbError::NotFound(String::from_str("snippet id"))),
    }
}

/// Loads the first snippet stored under the name, with its tag names. Fails
/// with `NotFound` exactly when no row carries the name.
pub fn get_snippet_by_name(conn: &Database, name: &str) -> (r: NibbResult<SnippetRecord>)
    requires
        conn.wf(),
    ensures
        match find_row_by_name(conn@.rows, name@) {
            Some(row) => r matches Ok(rec) && rec@ == record_of(conn@, row),
            None => r matches Err(NibbError::NotFound(_)),
        },
{
    match conn.idx_row_by_name(name) {
        Some(i) => Ok(conn.record_at(i)),
        None => Err(NibbError::NotFound(name.to_owned())),
    }
}

/// Loads every stored snippet, in row order, each with its tag names.
pub fn list_snippets(conn: &Database) -> (r: NibbResult<Vec<SnippetRecord>>)
    requires
        conn.wf(),
    ensures
        r matches Ok(v) && v.deep_view() == conn@.rows.map_values(
            |row: RowView| record_of(conn@, row),
        ),
{
    let mut out: Vec<SnippetRecord> = Vec::new();
    let mut i: usize = 0;
    while i < conn.rows.len()
        invariant
            conn.wf(),
            i <= conn@.rows.len(),
            conn@.rows.len() == conn.rows.len(),
            out.deep_view() =~= conn@.rows.take(i as int).map_values(
                |row: RowView| record_of(conn@, row),
            ),
        decreases conn@.rows.len() - i,
    {
        out.push(conn.record_at(i));
        proof {
            assert(conn@.rows.take(i + 1).map_values(|row: RowView| record_of(conn@, row))
                =~= conn@.rows.take(i as int).map_values(|row: RowView| record_of(conn@, row)).push(
                record_of(conn@, conn@.rows[i as int]),
            ));
        }
        i += 1;
    }
    proof {
        assert(conn@.rows.take(conn@.rows.len() as int) =~= conn@.rows);
    }
    Ok(out)
}

/// Links one tag to the first snippet with the name: the tag row is created
/// unless present, the join row is created unless present. Fails with
/// `NotFound`, changing nothing, when the name resolves to no row; fails
/// with a database error, changing nothing, exactly when the tag is new and
/// the tag id space is exhausted.
pub fn add_tag_db(conn: &mut Database, snippet_name: &str, tag: &str) -> (r: NibbResult<()>)
    requires
        old(conn).wf(),
    ensures
        final(conn).wf(),
        match find_row_by_name(old(conn)@.rows, snippet_name@) {
            None => r matches Err(NibbError::NotFound(_)) && final(conn)@ == old(conn)@,
            Some(row) => match r {
                Ok(()) => final(conn)@ == spec_add_tag(old(conn)@, row.id, tag@),
                Err(e) => e matches NibbError::DBError(_) && final(conn)@ == old(conn)@
                    && old(conn)@.next_tag_id == i64::MAX as int && find_tag_by_name(
                    old(conn)@.tags,
                    tag@,
                ) is None,
            },
        },
{
    let i = match conn.idx_row_by_name(snippet_name) {
        Some(i) => i,
        None => {
            return Err(NibbError::NotFound(snippet_name.to_owned()));
        },
    };
    let sid = conn.rows[i].id;
    proof {
        lemma_row_id_find_iff(conn@.rows, sid as int);
    }
    conn.add_tag_for_id(sid, tag)
}

/// Unlinks one tag from the first snippet with the name: only the join row
/// goes; the tag row stays. Fails with `NotFound`, changing nothing, when
/// the name resolves to no row or the tag does not exist.
pub fn rm_tag_db(conn: &mut Database, snippet_name: &str, tag: &str) -> (r: NibbResult<()>)
    requires
        old(conn).wf(),
    ensures
        final(conn).wf(),
        match (
            find_row_by_name(old(conn)@.rows, snippet_name@),
            find_tag_by_name(old(conn)@.tags, tag@),
        ) {
            (Some(row), Some(t)) => r is Ok && final(conn)@ == spec_rm_tag(
                old(conn)@,
                row.id,
                t.id,
            ),
            _ => r matches Err(NibbError::NotFound(_)) && final(conn)@ == old(conn)@,
        },
{
    let i = match conn.idx_row_by_name(snippet_name) {
        Some(i) => i,
        None => {
            return Err(NibbError::NotFound(snippet_name.to_owned()));
        },
    };
    let sid = conn.rows[i].id;
    let ti = match conn.idx_tag_by_name(tag) {
        Some(ti) => ti,
        None => {
            return Err(NibbError::NotFound(tag.to_owned()));
        },
    };
    let tid = conn.tags[ti].id;
    match conn.idx_link(sid, tid) {
        Some(j) => {
            let ghost m = conn@;
            conn.links.remove(j);
            proof {
                assert(conn@.links =~= m.links.remove(j as int));
                lemma_drop_pair_at(m.links, sid as int, tid as int, j as int);
                assert(conn@ =~= spec_rm_tag(old(conn)@, sid as int, tid as int));
                lemma_rm_wf(m, sid as int, tid as int, j as int, *conn);
            }
            Ok(())
        },
        None => {
            proof {
                lemma_drop_pair_absent(conn@.links, sid as int, tid as int);
                assert(conn@ =~= spec_rm_tag(old(conn)@, sid as int, tid as int));
            }
            Ok(())
        },
    }
}

/// Removing one join row keeps the store's invariant.
proof fn lemma_rm_wf(db: DbModel, sid: int, tid: int, j: int, post: Database)
    requires
        wf_model(db),
        0 <= j < db.links.len(),
        post@ == (DbModel {
            rows: db.rows,
            tags: db.tags,
            links: db.links.remove(j),
            next_row_id: db.next_row_id,
            next_tag_id: db.next_tag_id,
        }),
    ensures
        post.wf(),
{
    db.links.remove_ensures(j);
    let nl = db.links.remove(j);
    assert forall|a: int, b: int| 0 <= a < b < nl.len() implies !((#[trigger] nl[a]).snippet_id == (
    #[trigger] nl[b]).snippet_id && nl[a].tag_id == nl[b].tag_id) by {
        let a0: int = if a < j {
            a
        } else {
            a + 1
        };
        let b0: int = if b < j {
            b
        } else {
            b + 1
        };
        assert(nl[a] == db.links[a0] && nl[b] == db.links[b0]);
    }
    assert forall|a: int| 0 <= a < nl.len() implies find_tag_by_id(db.tags, (#[trigger] nl[a]).tag_id)
        is Some && find_row(db.rows, nl[a].snippet_id) is Some by {
        let a0: int = if a < j {
            a
        } else {
            a + 1
        };
        assert(nl[a] == db.links[a0]);
    }
}

/// A join row is in a grown join table exactly when it was there or is the
/// new one.
proof fn lemma_has_link_push(links: Seq<LinkView>, l: LinkView, sid: int, tid: int)
    ensures
        has_link(links.push(l), sid, tid) <==> (has_link(links, sid, tid) || (l.snippet_id == sid
            && l.tag_id == tid)),
{
    let p = links.push(l);
    if has_link(p, sid, tid) {
        let k = choose|k: int|
            0 <= k < p.len() && (#[trigger] p[k]).snippet_id == sid && p[k].tag_id == tid;
        if k < links.len() {
            assert(links[k] == p[k]);
        } else {
            assert(p[k] == l);
        }
    }
    if has_link(links, sid, tid) {
        let k = choose|k: int|
            0 <= k < links.len() && (#[trigger] links[k]).snippet_id == sid && links[k].tag_id
                == tid;
        assert(p[k] == links[k]);
    }
    if l.snippet_id == sid && l.tag_id == tid {
        assert(p[links.len() as int] == l);
    }
}

/// Linking one tag adds exactly its name to the snippet's tag-name set.
proof fn lemma_add_tag_names(db: DbModel, sid: int, tag: Seq<char>)
    requires
        wf_model(db),
    ensures
        link_tag_names(spec_add_tag(db, sid, tag), sid) == link_tag_names(db, sid).insert(tag),
        forall|sid2: int|
            sid2 != sid ==> #[trigger] link_tag_names(spec_add_tag(db, sid, tag), sid2)
                == link_tag_names(db, sid2),
{
    let db2 = spec_add_tag(db, sid, tag);
    let present = find_tag_by_name(db.tags, tag);
    let tid = match present {
        Some(t) => t.id,
        None => db.next_tag_id,
    };
    let newlink = LinkView { snippet_id: sid, tag_id: tid };
    if present is Some {
        lemma_tag_name_member(db.tags, tag);
        let kt = choose|kt: int|
            0 <= kt < db.tags.len() && db.tags[kt] == present.unwrap() && (
            #[trigger] db.tags[kt]).name == tag;
        assert forall|u: Seq<char>| #[trigger] link_tag_names(db2, sid).contains(u) implies
            link_tag_names(db, sid).insert(tag).contains(u) by {
            let k = choose|k: int|
                0 <= k < db2.tags.len() && (#[trigger] db2.tags[k]).name == u && has_link(
                    db2.links,
                    sid,
                    db2.tags[k].id,
                );
            if !has_link(db.links, sid, tid) {
                lemma_has_link_push(db.links, newlink, sid, db.tags[k].id);
            }
            if has_link(db.links, sid, db.tags[k].id) {
                assert(link_tag_names(db, sid).contains(u));
            } else {
                assert(db.tags[k].id == tid);
                assert(u == tag) by {
                    if k != kt {
                        assert(db.tags[k].id != db.tags[kt].id);
                    }
                }
            }
        }
        assert forall|u: Seq<char>| link_tag_names(db, sid).insert(tag).contains(u) implies
            #[trigger] link_tag_names(db2, sid).contains(u) by {
            if u == tag {
                if !has_link(db.links, sid, tid) {
                    lemma_has_link_push(db.links, newlink, sid, tid);
                }
                assert(db2.tags[kt].name == tag && has_link(db2.links, sid, db2.tags[kt].id));
            } else {
                let k = choose|k: int|
                    0 <= k < db.tags.len() && (#[trigger] db.tags[k]).name == u && has_link(
                        db.links,
                        sid,
                        db.tags[k].id,
                    );
                if !has_link(db.links, sid, tid) {
                    lemma_has_link_push(db.links, newlink, sid, db.tags[k].id);
                }
                assert(db2.tags[k].name == u && has_link(db2.links, sid, db2.tags[k].id));
            }
        }
        assert(link_tag_names(db2, sid) =~= link_tag_names(db, sid).insert(tag));
        assert forall|sid2: int| sid2 != sid implies #[trigger] link_tag_names(db2, sid2)
            == link_tag_names(db, sid2) by {
            assert forall|u: Seq<char>| #[trigger] link_tag_names(db2, sid2).contains(u) implies
                link_tag_names(db, sid2).contains(u) by {
                let k = choose|k: int|
                    0 <= k < db2.tags.len() && (#[trigger] db2.tags[k]).name == u && has_link(
                        db2.links,
                        sid2,
                        db2.tags[k].id,
                    );
                if !has_link(db.links, sid, tid) {
                    lemma_has_link_push(db.links, newlink, sid2, db.tags[k].id);
                }
                assert(has_link(db.links, sid2, db.tags[k].id));
            }
            assert forall|u: Seq<char>| #[trigger] link_tag_names(db, sid2).contains(u) implies
                link_tag_names(db2, sid2).contains(u) by {
                let k = choose|k: int|
                    0 <= k < db.tags.len() && (#[trigger] db.tags[k]).name == u && has_link(
                        db.links,
                        sid2,
                        db.tags[k].id,
                    );
                if !has_link(db.links, sid, tid) {
                    lemma_has_link_push(db.links, newlink, sid2, db.tags[k].id);
                }
            }
            assert(link_tag_names(db2, sid2) =~= link_tag_names(db, sid2));
        }
    } else {
        lemma_tag_name_none(db.tags, tag);
        let newtag = TagView { id: db.next_tag_id, name: tag };
        assert(db2.tags == db.tags.push(newtag));
        let nti = db.tags.len() as int;
        assert(db2.tags[nti] == newtag);
        assert(!has_link(db.links, sid, tid)) by {
            if has_link(db.links, sid, tid) {
                let k = choose|k: int|
                    0 <= k < db.links.len() && (#[trigger] db.links[k]).snippet_id == sid
                        && db.links[k].tag_id == tid;
                lemma_tag_id_find_iff(db.tags, tid);
                let w = choose|w: int| 0 <= w < db.tags.len() && (#[trigger] db.tags[w]).id == tid;
            }
        }
        assert(db2.links == db.links.push(newlink));
        assert forall|u: Seq<char>| #[trigger] link_tag_names(db2, sid).contains(u) implies
            link_tag_names(db, sid).insert(tag).contains(u) by {
            let k = choose|k: int|
                0 <= k < db2.tags.len() && (#[trigger] db2.tags[k]).name == u && has_link(
                    db2.links,
                    sid,
                    db2.tags[k].id,
                );
            lemma_has_link_push(db.links, newlink, sid, db2.tags[k].id);
            if k < db.tags.len() {
                assert(db2.tags[k] == db.tags[k]);
                if has_link(db.links, sid, db.tags[k].id) {
                    assert(link_tag_names(db, sid).contains(u));
                } else {
                    assert(db.tags[k].id == tid);
                    assert(false);
                }
            } else {
                assert(u == tag);
            }
        }
        assert forall|u: Seq<char>| link_tag_names(db, sid).insert(tag).contains(u) implies
            #[trigger] link_tag_names(db2, sid).contains(u) by {
            if u == tag {
                lemma_has_link_push(db.links, newlink, sid, tid);
                assert(db2.tags[nti].name == tag && has_link(db2.links, sid, db2.tags[nti].id));
            } else {
                let k = choose|k: int|
                    0 <= k < db.tags.len() && (#[trigger] db.tags[k]).name == u && has_link(
                        db.links,
                        sid,
                        db.tags[k].id,
                    );
                lemma_has_link_push(db.links, newlink, sid, db.tags[k].id);
                assert(db2.tags[k].name == u && has_link(db2.links, sid, db2.tags[k].id));
            }
        }
        assert(link_tag_names(db2, sid) =~= link_tag_names(db, sid).insert(tag));
        assert forall|sid2: int| sid2 != sid implies #[trigger] link_tag_names(db2, sid2)
            == link_tag_names(db, sid2) by {
            assert forall|u: Seq<char>| #[trigger] link_tag_names(db2, sid2).contains(u) implies
                link_tag_names(db, sid2).contains(u) by {
                let k = choose|k: int|
                    0 <= k < db2.tags.len() && (#[trigger] db2.tags[k]).name == u && has_link(
                        db2.links,
                        sid2,
                        db2.tags[k].id,
                    );
                lemma_has_link_push(db.links, newlink, sid2, db2.tags[k].id);
                assert(has_link(db.links, sid2, db2.tags[k].id));
                if k < db.tags.len() {
                    assert(db2.tags[k] == db.tags[k]);
                } else {
                    let w = choose|w: int|
                        0 <= w < db.links.len() && (#[trigger] db.links[w]).snippet_id == sid2
                            && db.links[w].tag_id == tid;
                    lemma_tag_id_find_iff(db.tags, tid);
                    let v = choose|v: int|
                        0 <= v < db.tags.len() && (#[trigger] db.tags[v]).id == tid;
                    assert(false);
                }
            }
            assert forall|u: Seq<char>| #[trigger] link_tag_names(db, sid2).contains(u) implies
                link_tag_names(db2, sid2).contains(u) by {
                let k = choose|k: int|
                    0 <= k < db.tags.len() && (#[trigger] db.tags[k]).name == u && has_link(
                        db.links,
                        sid2,
                        db.tags[k].id,
                    );
                lemma_has_link_push(db.links, newlink, sid2, db.tags[k].id);
                assert(db2.tags[k].name == u && has_link(db2.links, sid2, db2.tags[k].id));
            }
            assert(link_tag_names(db2, sid2) =~= link_tag_names(db, sid2));
        }
    }
}

/// Linking a list of tags adds exactly their names to the snippet's tag-name
/// set.
proof fn lemma_add_tags_names(db: DbModel, sid: int, ts: Seq<Seq<char>>)
    requires
        wf_model(db),
        find_row(db.rows, sid) is Some,
    ensures
        wf_model(spec_add_tags(db, sid, ts)),
        link_tag_names(spec_add_tags(db, sid, ts), sid) == link_tag_names(db, sid).union(
            ts.to_set(),
        ),
    decreases ts.len(),
{
    if ts.len() == 0 {
        assert(ts.to_set() =~= Set::<Seq<char>>::empty());
        assert(link_tag_names(db, sid).union(ts.to_set()) =~= link_tag_names(db, sid));
    } else {
        let db1 = spec_add_tag(db, sid, ts[0]);
        lemma_add_tag_wf(db, sid, ts[0]);
        lemma_add_tag_names(db, sid, ts[0]);
        lemma_add_tags_names(db1, sid, ts.drop_first());
        assert(ts.to_set() =~= ts.drop_first().to_set().insert(ts[0])) by {
            assert forall|u: Seq<char>| #[trigger] ts.contains(u) implies ts.drop_first().to_set().insert(
                ts[0],
            ).contains(u) by {
                let k = choose|k: int| 0 <= k < ts.len() && ts[k] == u;
                if k > 0 {
                    assert(ts.drop_first()[k - 1] == u);
                    assert(ts.drop_first().contains(u));
                }
            }
            assert forall|u: Seq<char>| ts.drop_first().to_set().insert(ts[0]).contains(u) implies
                #[trigger] ts.to_set().contains(u) by {
                if u == ts[0] {
                    assert(ts.contains(u));
                } else {
                    let k = choose|k: int|
                        0 <= k < ts.drop_first().len() && ts.drop_first()[k] == u;
                    assert(ts[k + 1] == u);
                    assert(ts.contains(u));
                }
            }
        }
        assert(link_tag_names(db, sid).insert(ts[0]).union(ts.drop_first().to_set())
            =~= link_tag_names(db, sid).union(ts.to_set()));
    }
}

/// Replacing a snippet's tag set replaces its join rows exactly: after an
/// update the names joined to the id are the new tags and nothing else — no
/// row survives for a dropped tag — and, the join pairs being distinct, each
/// kept or added tag has exactly one join row.
pub proof fn lemma_update_syncs_tags(db: DbModel, rec: RecordView, id: int, i: int)
    requires
        wf_model(db),
        0 <= i < db.rows.len(),
        db.rows[i].id == id,
        forall|k: int| 0 <= k < i ==> (#[trigger] db.rows[k]).id != id,
    ensures
        wf_model(spec_update(db, rec, id)),
        link_tag_names(spec_update(db, rec, id), id) == rec.tags.to_set(),
{
    let base = spec_update_row(db, rec, id);
    lemma_update_row_wf(db, rec, id, i);
    lemma_add_tags_names(base, id, rec.tags);
    assert(link_tag_names(base, id).union(rec.tags.to_set()) =~= rec.tags.to_set());
}

/// A row found by name is one of the rows.
pub(crate) proof fn lemma_row_name_member(rows: Seq<RowView>, name: Seq<char>)
    requires
        find_row_by_name(rows, name) is Some,
    ensures
        exists|k: int|
            0 <= k < rows.len() && rows[k] == find_row_by_name(rows, name).unwrap() && (
            #[trigger] rows[k]).name == name,
    decreases rows.len(),
{
    if rows.len() > 0 {
        if rows[0].name == name {
            assert(rows[0] == find_row_by_name(rows, name).unwrap());
        } else {
            lemma_row_name_member(rows.drop_first(), name);
            let k = choose|k: int|
                0 <= k < rows.drop_first().len() && rows.drop_first()[k] == find_row_by_name(
                    rows.drop_first(),
                    name,
                ).unwrap() && (#[trigger] rows.drop_first()[k]).name == name;
            assert(rows[k + 1] == rows.drop_first()[k]);
        }
    }
}

/// A flattened snippet keeps a filter string when the string occurs in its
/// name or its content, is one of its tags, or occurs in its language's
/// name.
pub open spec fn spec_record_keep(rec: RecordView, f: Seq<char>) -> bool {
    ||| contains_seq(rec.name, f)
    ||| contains_seq(rec.content, f)
    ||| rec.tags.contains(f)
    ||| contains_seq(spec_display_name(rec.lang), f)
}

/// The records that keep the filter string, in input order.
pub open spec fn spec_record_filter(recs: Seq<RecordView>, f: Seq<char>) -> Seq<RecordView>
    decreases recs.len(),
{
    if recs.len() == 0 {
        Seq::empty()
    } else if spec_record_keep(recs[0], f) {
        seq![recs[0]] + spec_record_filter(recs.drop_first(), f)
    } else {
        spec_record_filter(recs.drop_first(), f)
    }
}

/// Filtering one more record, from the front.
proof fn lemma_record_filter_push(recs: Seq<RecordView>, f: Seq<char>, rec: RecordView)
    ensures
        spec_record_filter(recs.push(rec), f) == if spec_record_keep(rec, f) {
            spec_record_filter(recs, f).push(rec)
        } else {
            spec_record_filter(recs, f)
        },
    decreases recs.len(),
{
    let p = recs.push(rec);
    assert(spec_record_filter(p, f) == if spec_record_keep(p[0], f) {
        seq![p[0]] + spec_record_filter(p.drop_first(), f)
    } else {
        spec_record_filter(p.drop_first(), f)
    });
    if recs.len() == 0 {
        assert(p[0] == rec);
        assert(p.drop_first() =~= Seq::<RecordView>::empty());
        if spec_record_keep(rec, f) {
            assert(seq![rec] + Seq::<RecordView>::empty() =~= spec_record_filter(recs, f).push(
                rec,
            ));
        }
    } else {
        lemma_record_filter_push(recs.drop_first(), f, rec);
        assert(p[0] == recs[0]);
        assert(p.drop_first() =~= recs.drop_first().push(rec));
        if spec_record_keep(recs[0], f) && spec_record_keep(rec, f) {
            assert(seq![recs[0]] + spec_record_filter(recs.drop_first(), f).push(rec) =~= (seq![
                recs[0],
            ] + spec_record_filter(recs.drop_first(), f)).push(rec));
        }
    }
}

/// Whether the vector holds the string.
pub(crate) fn vec_contains_string(v: &Vec<String>, x: &str) -> (r: bool)
    ensures
        r == v.deep_view().contains(x@),
{
    let ghost dv = v.deep_view();
    let mut i: usize = 0;
    while i < v.len()
        invariant
            dv == v.deep_view(),
            i <= dv.len(),
            dv.len() == v.len(),
            forall|k: int| 0 <= k < i ==> dv[k] != x@,
        decreases dv.len() - i,
    {
        if str_eq(v[i].as_str(), x) {
            assert(dv[i as int] == x@);
            return true;
        }
        i += 1;
    }
    proof {
        if dv.contains(x@) {
            let k = choose|k: int| 0 <= k < dv.len() && dv[k] == x@;
        }
    }
    false
}

/// Whether one record keeps a filter string.
fn record_keeps(rec: &SnippetRecord, f: &str) -> (r: bool)
    ensures
        r == spec_record_keep(rec@, f@),
{
    contains_str(rec.name.as_str(), f) || contains_str(rec.content.as_str(), f)
        || vec_contains_string(&rec.tags, f) || contains_str(rec.lang.display_name(), f)
}

/// Keeps the snippets in which the filter string occurs — in the name, the
/// content, a tag taken whole, or the language's name. An absent or empty
/// filter keeps everything.
pub fn filter_snippets(snippets: Vec<SnippetRecord>, filter: Option<String>) -> (r: Vec<
    SnippetRecord,
>)
    ensures
        match filter {
            None => r.deep_view() == snippets.deep_view(),
            Some(f) => if f@.len() == 0 {
                r.deep_view() == snippets.deep_view()
            } else {
                r.deep_view() == spec_record_filter(snippets.deep_view(), f@)
            },
        },
{
    let f = match filter {
        Some(f) => f,
        None => {
            return snippets;
        },
    };
    if f.as_str().is_empty() {
        return snippets;
    }
    let ghost sv = snippets.deep_view();
    let mut out: Vec<SnippetRecord> = Vec::new();
    let mut i: usize = 0;
    while i < snippets.len()
        invariant
            sv == snippets.deep_view(),
            i <= sv.len(),
            sv.len() == snippets.len(),
            f@.len() > 0,
            out.deep_view() =~= spec_record_filter(sv.take(i as int), f@),
        decreases sv.len() - i,
    {
        let ghost pre = out.deep_view();
        if record_keeps(&snippets[i], f.as_str()) {
            out.push(snippets[i].clone());
            proof {
                assert(out.deep_view() =~= pre.push(sv[i as int]));
            }
        }
        proof {
            lemma_record_filter_push(sv.take(i as int), f@, sv[i as int]);
            assert(sv.take(i + 1) =~= sv.take(i as int).push(sv[i as int]));
        }
        i += 1;
    }
    proof {
        assert(sv.take(sv.len() as int) =~= sv);
    }
    out
}

/// A snippet as it crosses a foreign-function boundary: plain fields only,
/// with an empty text for a missing description.
#[derive(Debug)]
pub struct FFISnippet {
    pub name: String,
    pub content: String,
    pub description: String,
    pub tags: Vec<String>,
}

impl FFISnippet {
    /// Flattens a stored snippet for the boundary: the description becomes
    /// an empty text when missing; the id and the language stay behind.
    pub fn from_record(rec: &SnippetRecord) -> (r: FFISnippet)
        ensures
            r.name@ == rec@.name,
            r.content@ == rec@.content,
            r.description@ == crate::gitops::spec_desc_text(rec@.description),
            r.tags.deep_view() == rec@.tags,
    {
        FFISnippet {
            name: rec.name.clone(),
            content: rec.content.clone(),
            description: match &rec.description {
                Some(d) => d.clone(),
                None => String::new(),
            },
            tags: clone_strings(&rec.tags),
        }
    }
}

/// A row pushed under a fresh id is what a lookup of that id finds.
proof fn lemma_find_row_pushed(rows: Seq<RowView>, row: RowView)
    requires
        forall|k: int| 0 <= k < rows.len() ==> (#[trigger] rows[k]).id != row.id,
    ensures
        find_row(rows.push(row), row.id) == Some(row),
    decreases rows.len(),
{
    let p = rows.push(row);
    if rows.len() == 0 {
        assert(p[0] == row);
    } else {
        assert forall|k: int|
            0 <= k < rows.drop_first().len() implies (#[trigger] rows.drop_first()[k]).id
            != row.id by {
            assert(rows.drop_first()[k] == rows[k + 1]);
        }
        lemma_find_row_pushed(rows.drop_first(), row);
        assert(p[0] == rows[0]);
        assert(p.drop_first() =~= rows.drop_first().push(row));
    }
}

/// Inserting a snippet and then loading the fresh id finds exactly what was
/// inserted: the same scalar columns, and join rows that mirror its tag set
/// — with distinct join pairs, one row per tag.
pub proof fn lemma_insert_round_trip(db: DbModel, rec: RecordView)
    requires
        wf_model(db),
    ensures
        wf_model(spec_insert(db, rec)),
        find_row(spec_insert(db, rec).rows, db.next_row_id) == Some(row_of(rec, db.next_row_id)),
        link_tag_names(spec_insert(db, rec), db.next_row_id) == rec.tags.to_set(),
{
    let id = db.next_row_id;
    let base = spec_insert_row(db, rec);
    lemma_insert_row_wf(db, rec);
    assert forall|t: Seq<char>| !(#[trigger] link_tag_names(base, id).contains(t)) by {
        if link_tag_names(base, id).contains(t) {
            let k = choose|k: int|
                0 <= k < base.tags.len() && (#[trigger] base.tags[k]).name == t && has_link(
                    base.links,
                    id,
                    base.tags[k].id,
                );
            let w = choose|w: int|
                0 <= w < base.links.len() && (#[trigger] base.links[w]).snippet_id == id
                    && base.links[w].tag_id == base.tags[k].id;
            assert(base.links[w] == db.links[w]);
            lemma_row_id_find_iff(db.rows, id);
            let v = choose|v: int| 0 <= v < db.rows.len() && (#[trigger] db.rows[v]).id == id;
        }
    }
    assert(link_tag_names(base, id) =~= Set::<Seq<char>>::empty());
    lemma_add_tags_names(base, id, rec.tags);
    assert(link_tag_names(base, id).union(rec.tags.to_set()) =~= rec.tags.to_set());
    lemma_add_tags_rows(base, id, rec.tags);
    lemma_find_row_pushed(db.rows, row_of(rec, id));
}

/// After a delete, neither a lookup of the id nor an enumeration of the rows
/// sees the deleted snippet: in a store of distinct row ids, no remaining
/// row carries it.
pub proof fn lemma_delete_row_gone(db: DbModel, id: int)
    requires
        forall|i: int, j: int|
            0 <= i < j < db.rows.len() ==> (#[trigger] db.rows[i]).id != (#[trigger] db.rows[j]).id,
    ensures
        forall|i: int|
            0 <= i < spec_delete(db, id).rows.len() ==> (#[trigger] spec_delete(db, id).rows[i]).id
                != id,
        find_row(spec_delete(db, id).rows, id) is None,
{
    lemma_rows_remove_gone(db.rows, id);
    lemma_find_row_absent(spec_delete(db, id).rows, id);
}

/// Removing the first row with an id leaves no row with it, when row ids are
/// distinct.
proof fn lemma_rows_remove_gone(rows: Seq<RowView>, id: int)
    requires
        forall|i: int, j: int|
            0 <= i < j < rows.len() ==> (#[trigger] rows[i]).id != (#[trigger] rows[j]).id,
    ensures
        forall|i: int|
            0 <= i < rows_remove(rows, id).len() ==> (#[trigger] rows_remove(rows, id)[i]).id != id,
    decreases rows.len(),
{
    if rows.len() > 0 {
        let tail = rows.drop_first();
        assert forall|i: int, j: int|
            0 <= i < j < tail.len() implies (#[trigger] tail[i]).id != (#[trigger] tail[j]).id by {
            assert(tail[i] == rows[i + 1] && tail[j] == rows[j + 1]);
        }
        if rows[0].id == id {
            assert forall|i: int| 0 <= i < tail.len() implies (#[trigger] tail[i]).id != id by {
                assert(tail[i] == rows[i + 1]);
            }
        } else {
            lemma_rows_remove_gone(tail, id);
            let r = rows_remove(rows, id);
            assert(r == seq![rows[0]] + rows_remove(tail, id));
            assert forall|i: int| 0 <= i < r.len() implies (#[trigger] r[i]).id != id by {
                if i > 0 {
                    assert(r[i] == rows_remove(tail, id)[i - 1]);
                }
            }
        }
    }
}

/// A store in which no row carries the id looks it up to nothing.
proof fn lemma_find_row_absent(rows: Seq<RowView>, id: int)
    requires
        forall|i: int| 0 <= i < rows.len() ==> (#[trigger] rows[i]).id != id,
    ensures
        find_row(rows, id) is None,
    decreases rows.len(),
{
    if rows.len() > 0 {
        assert forall|i: int|
            0 <= i < rows.drop_first().len() implies (#[trigger] rows.drop_first()[i]).id != id by {
            assert(rows.drop_first()[i] == rows[i + 1]);
        }
        lemma_find_row_absent(rows.drop_first(), id);
    }
}

impl Database {
    /// Rebuilds a store from table rows read back from its file, after
    /// checking the schema's invariant: distinct row ids and tag ids below
    /// their counters, distinct tag names, distinct join pairs, and join
    /// rows whose two keys resolve. Returns nothing exactly when a check
    /// fails.
    pub fn from_parts(
        rows: Vec<SnippetRow>,
        tags: Vec<TagRow>,
        links: Vec<LinkRow>,
        next_row_id: i64,
        next_tag_id: i64,
    ) -> (r: Option<Database>)
        ensures
            match r {
                Some(db) => db.wf() && db@ == (DbModel {
                    rows: rows.deep_view(),
                    tags: tags.deep_view(),
                    links: links.deep_view(),
                    next_row_id: next_row_id as int,
                    next_tag_id: next_tag_id as int,
                }),
                None => !wf_model(
                    DbModel {
                        rows: rows.deep_view(),
                        tags: tags.deep_view(),
                        links: links.deep_view(),
                        next_row_id: next_row_id as int,
                        next_tag_id: next_tag_id as int,
                    },
                ),
            },
    {
        let ghost m = DbModel {
            rows: rows.deep_view(),
            tags: tags.deep_view(),
            links: links.deep_view(),
            next_row_id: next_row_id as int,
            next_tag_id: next_tag_id as int,
        };
        if next_row_id < 1 || next_tag_id < 1 {
            return None;
        }
        let mut i: usize = 0;
        while i < rows.len()
            invariant
                m.rows == rows.deep_view(),
                m.next_row_id == next_row_id as int,
                i <= m.rows.len(),
                m.rows.len() == rows.len(),
                forall|a: int| 0 <= a < i ==> 1 <= (#[trigger] m.rows[a]).id < m.next_row_id,
                forall|a: int, b: int|
                    0 <= a < b < i ==> (#[trigger] m.rows[a]).id != (#[trigger] m.rows[b]).id,
            decreases m.rows.len() - i,
        {
            proof {
                assert(m.rows[i as int] == rows@[i as int].deep_view());
            }
            let bad_row = rows[i].id < 1 || rows[i].id >= next_row_id;
            proof {
                assert(m.rows[i as int].id == rows@[i as int].id as int);
                assert(bad_row == (m.rows[i as int].id < 1 || m.rows[i as int].id
                    >= m.next_row_id));
            }
            if bad_row {
                proof {
                    assert(!wf_model(m));
                }
                return None;
            }
            let mut j: usize = 0;
            while j < i
                invariant
                    m.rows == rows.deep_view(),
                    j <= i < m.rows.len(),
                    m.rows.len() == rows.len(),
                    forall|a: int| 0 <= a < j ==> (#[trigger] m.rows[a]).id != m.rows[i as int].id,
                decreases i - j,
            {
                if rows[j].id == rows[i].id {
                    proof {
                        assert(m.rows[j as int] == rows@[j as int].deep_view());
                        assert(m.rows[i as int] == rows@[i as int].deep_view());
                        assert(m.rows[j as int].id == m.rows[i as int].id);
                        assert(!wf_model(m));
                    }
                    return None;
                }
                j += 1;
            }
            proof {
                assert forall|a: int, b: int|
                    0 <= a < b < i + 1 implies (#[trigger] m.rows[a]).id != (
                #[trigger] m.rows[b]).id by {}
            }
            i += 1;
        }
        let mut i: usize = 0;
        while i < tags.len()
            invariant
                m.tags == tags.deep_view(),
                m.next_tag_id == next_tag_id as int,
                i <= m.tags.len(),
                m.tags.len() == tags.len(),
                forall|a: int| 0 <= a < i ==> 1 <= (#[trigger] m.tags[a]).id < m.next_tag_id,
                forall|a: int, b: int|
                    0 <= a < b < i ==> (#[trigger] m.tags[a]).id != (#[trigger] m.tags[b]).id && (
                    #[trigger] m.tags[a]).name != (#[trigger] m.tags[b]).name,
            decreases m.tags.len() - i,
        {
            proof {
                assert(m.tags[i as int] == tags@[i as int].deep_view());
            }
            let bad_tag = tags[i].id < 1 || tags[i].id >= next_tag_id;
            proof {
                assert(m.tags[i as int].id == tags@[i as int].id as int);
                assert(bad_tag == (m.tags[i as int].id < 1 || m.tags[i as int].id
                    >= m.next_tag_id));
            }
            if bad_tag {
                proof {
                    assert(!wf_model(m));
                }
                return None;
            }
            let mut j: usize = 0;
            while j < i
                invariant
                    m.tags == tags.deep_view(),
                    j <= i < m.tags.len(),
                    m.tags.len() == tags.len(),
                    forall|a: int|
                        0 <= a < j ==> (#[trigger] m.tags[a]).id != m.tags[i as int].id && (
                        #[trigger] m.tags[a]).name != m.tags[i as int].name,
                decreases i - j,
            {
                if tags[j].id == tags[i].id || str_eq(tags[j].name.as_str(), tags[i].name.as_str())
                {
                    proof {
                        assert(m.tags[j as int] == tags@[j as int].deep_view());
                        assert(m.tags[i as int] == tags@[i as int].deep_view());
                        assert(m.tags[j as int].id == m.tags[i as int].id || m.tags[j as int].name
                            == m.tags[i as int].name);
                        assert(!wf_model(m));
                    }
                    return None;
                }
                j += 1;
            }
            proof {
                assert forall|a: int, b: int|
                    0 <= a < b < i + 1 implies (#[trigger] m.tags[a]).id != (
                #[trigger] m.tags[b]).id && (#[trigger] m.tags[a]).name != (
                #[trigger] m.tags[b]).name by {}
            }
            i += 1;
        }
        let mut i: usize = 0;
        while i < links.len()
            invariant
                m.rows == rows.deep_view(),
                m.tags == tags.deep_view(),
                m.links == links.deep_view(),
                i <= m.links.len(),
                m.links.len() == links.len(),
                m.rows.len() == rows.len(),
                m.tags.len() == tags.len(),
                forall|a: int|
                    0 <= a < i ==> find_tag_by_id(m.tags, (#[trigger] m.links[a]).tag_id) is Some
                        && find_row(m.rows, m.links[a].snippet_id) is Some,
                forall|a: int, b: int|
                    0 <= a < b < i ==> !((#[trigger] m.links[a]).snippet_id == (
                    #[trigger] m.links[b]).snippet_id && m.links[a].tag_id == m.links[b].tag_id),
            decreases m.links.len() - i,
        {
            let l = links[i];
            proof {
                assert(m.links[i as int] == links@[i as int].deep_view());
            }
            let mut t: usize = 0;
            let mut tag_found = false;
            while t < tags.len() && !tag_found
                invariant
                    m.tags == tags.deep_view(),
                    t <= m.tags.len(),
                    m.tags.len() == tags.len(),
                    m.links[i as int] == l@,
                    i < m.links.len(),
                    tag_found ==> exists|k: int|
                        0 <= k < m.tags.len() && (#[trigger] m.tags[k]).id
                            == m.links[i as int].tag_id,
                    !tag_found ==> forall|k: int|
                        0 <= k < t ==> (#[trigger] m.tags[k]).id != m.links[i as int].tag_id,
                decreases m.tags.len() - t + (if tag_found { 0int } else { 1int }),
            {
                if tags[t].id == l.tag_id {
                    proof {
                        assert(m.tags[t as int] == tags@[t as int].deep_view());
                    }
                    tag_found = true;
                } else {
                    t += 1;
                }
            }
            proof {
                lemma_tag_id_find_iff(m.tags, m.links[i as int].tag_id);
            }
            if !tag_found {
                proof {
                    assert(forall|k: int|
                        0 <= k < m.tags.len() ==> (#[trigger] m.tags[k]).id != m.links[
                            i as int
                        ].tag_id);
                    assert(find_tag_by_id(m.tags, m.links[i as int].tag_id) is None);
                    assert(!wf_model(m));
                }
                return None;
            }
            let mut w: usize = 0;
            let mut row_found = false;
            while w < rows.len() && !row_found
                invariant
                    m.rows == rows.deep_view(),
                    w <= m.rows.len(),
                    m.rows.len() == rows.len(),
                    m.links[i as int] == l@,
                    i < m.links.len(),
                    row_found ==> exists|k: int|
                        0 <= k < m.rows.len() && (#[trigger] m.rows[k]).id
                            == m.links[i as int].snippet_id,
                    !row_found ==> forall|k: int|
                        0 <= k < w ==> (#[trigger] m.rows[k]).id != m.links[i as int].snippet_id,
                decreases m.rows.len() - w + (if row_found { 0int } else { 1int }),
            {
                if rows[w].id == l.snippet_id {
                    proof {
                        assert(m.rows[w as int] == rows@[w as int].deep_view());
                    }
                    row_found = true;
                } else {
                    w += 1;
                }
            }
            proof {
                lemma_row_id_find_iff(m.rows, m.links[i as int].snippet_id);
            }
            if !row_found {
                proof {
                    assert(!wf_model(m));
                }
                return None;
            }
            let mut j: usize = 0;
            while j < i
                invariant
                    m.links == links.deep_view(),
                    j <= i < m.links.len(),
                    m.links.len() == links.len(),
                    m.links[i as int] == l@,
                    forall|a: int|
                        0 <= a < j ==> !((#[trigger] m.links[a]).snippet_id
                            == m.links[i as int].snippet_id && m.links[a].tag_id
                            == m.links[i as int].tag_id),
                decreases i - j,
            {
                if links[j].snippet_id == l.snippet_id && links[j].tag_id == l.tag_id {
                    proof {
                        assert(m.links[j as int] == links@[j as int].deep_view());
                        assert(m.links[j as int].snippet_id == m.links[i as int].snippet_id
                            && m.links[j as int].tag_id == m.links[i as int].tag_id);
                        assert(!wf_model(m));
                    }
                    return None;
                }
                j += 1;
            }
            proof {
                assert forall|a: int, b: int|
                    0 <= a < b < i + 1 implies !((#[trigger] m.links[a]).snippet_id == (
                #[trigger] m.links[b]).snippet_id && m.links[a].tag_id == m.links[b].tag_id) by {}
            }
            i += 1;
        }
        let db = Database { rows, tags, links, next_row_id, next_tag_id };
        proof {
            assert(db@ =~= m);
        }
        Some(db)
    }

}

/// Creates an empty relational store with the schema's three tables.
pub fn init_nibb_db() -> (r: Database)
    ensures
        r@.rows =~= Seq::<RowView>::empty(),
        r@.tags =~= Seq::<TagView>::empty(),
        r@.links =~= Seq::<LinkView>::empty(),
        r@.next_row_id == 1,
        r@.next_tag_id == 1,
        r.wf(),
{
    Database::new()
}

} // verus!
