use vstd::prelude::*;
use crate::command::Position;
use crate::errors::{NibbError, NibbResult};
use crate::file_type::FileType;
use crate::markers::{find_markers, spec_marker_rewrite};
use crate::storage::{
    Database, RecordView, SnippetRecord, add_tag_db, find_row_by_name, find_tag_by_name,
    get_snippet_by_name, lemma_row_id_find_iff, lemma_row_name_member, record_of, rm_tag_db,
    spec_add_tag, spec_insert, spec_insert_row, spec_rm_tag, spec_tags_exhausted, spec_update,
    spec_update_row, update_snippet, vec_contains_string,
};

verus! {

/// Appends a snippet's content to a file's text, with exactly one newline
/// between the old text and the content; nothing of the old text is lost.
/// Fails with `NotFound` exactly when the name resolves to no snippet.
pub fn insert_to_file_end(name: &str, file_text: &str, conn: &Database) -> (r: NibbResult<String>)
    requires
        conn.wf(),
    ensures
        match find_row_by_name(conn@.rows, name@) {
            Some(row) => r matches Ok(s) && s@ == file_text@ + seq!['\n'] + row.content,
            None => r matches Err(e) && e matches NibbError::NotFound(_),
        },
{
    let snippet = match get_snippet_by_name(conn, name) {
        Ok(s) => s,
        Err(e) => {
            return Err(e);
        },
    };
    let mut s = file_text.to_owned();
    s.push('\n');
    s.append(snippet.content.as_str());
    proof {
        assert(s@ =~= file_text@ + seq!['\n'] + find_row_by_name(conn@.rows, name@).unwrap().content);
    }
    Ok(s)
}

/// Prepends a snippet's content to a file's text, with exactly one newline
/// between the content and the old text; nothing of the old text is lost.
/// Fails with `NotFound` exactly when the name resolves to no snippet.
pub fn insert_to_file_start(name: &str, file_text: &str, conn: &Database) -> (r: NibbResult<String>)
    requires
        conn.wf(),
    ensures
        match find_row_by_name(conn@.rows, name@) {
            Some(row) => r matches Ok(s) && s@ == row.content + seq!['\n'] + file_text@,
            None => r matches Err(e) && e matches NibbError::NotFound(_),
        },
{
    let snippet = match get_snippet_by_name(conn, name) {
        Ok(s) => s,
        Err(e) => {
            return Err(e);
        },
    };
    let mut s = snippet.content.clone();
    s.push('\n');
    s.append(file_text);
    proof {
        assert(s@ =~= find_row_by_name(conn@.rows, name@).unwrap().content + seq!['\n']
            + file_text@);
    }
    Ok(s)
}

/// Rewrites a file's text with a snippet's content in place of each selected
/// marker line; every other line is kept verbatim and in order. The caller
/// picks the selection, normally from `marker_lines`. Fails with `NotFound`
/// exactly when the name resolves to no snippet.
pub fn insert_to_file_marker(
    name: &str,
    file_text: &str,
    conn: &Database,
    selected: &Vec<usize>,
) -> (r: NibbResult<String>)
    requires
        conn.wf(),
    ensures
        match find_row_by_name(conn@.rows, name@) {
            Some(row) => r matches Ok(s) && s@ == spec_marker_rewrite(
                file_text@,
                row.content,
                selected@,
            ),
            None => r matches Err(e) && e matches NibbError::NotFound(_),
        },
{
    let snippet = match get_snippet_by_name(conn, name) {
        Ok(s) => s,
        Err(e) => {
            return Err(e);
        },
    };
    Ok(find_markers(snippet.content.as_str(), file_text, selected))
}

/// Dispatches one insertion. The new text of the target file comes back for
/// the caller to write; a cursor insertion is refused as `None`, since only
/// an editor integration can place a cursor. Fails with `NotFound` exactly
/// when the name resolves to no snippet.
pub fn insert_snippet(
    conn: &Database,
    name: &str,
    file_text: &str,
    at: Position,
    selected: &Vec<usize>,
) -> (r: NibbResult<Option<String>>)
    requires
        conn.wf(),
    ensures
        at == Position::Cursor ==> (r matches Ok(o) && o is None),
        at != Position::Cursor ==> match find_row_by_name(conn@.rows, name@) {
            Some(row) => (r matches Ok(o) && o matches Some(s) && s@ == (match at {
                Position::End => file_text@ + seq!['\n'] + row.content,
                Position::Start => row.content + seq!['\n'] + file_text@,
                _ => spec_marker_rewrite(file_text@, row.content, selected@),
            })),
            None => r matches Err(e) && e matches NibbError::NotFound(_),
        },
{
    match at {
        Position::End => match insert_to_file_end(name, file_text, conn) {
            Ok(s) => Ok(Some(s)),
            Err(e) => Err(e),
        },
        Position::Start => match insert_to_file_start(name, file_text, conn) {
            Ok(s) => Ok(Some(s)),
            Err(e) => Err(e),
        },
        Position::Marker => match insert_to_file_marker(name, file_text, conn, selected) {
            Ok(s) => Ok(Some(s)),
            Err(e) => Err(e),
        },
        Position::Cursor => Ok(None),
    }
}

/// Renames a snippet: the record is looked up by its old name and updated,
/// under its id, with the new name and otherwise unchanged state. Fails with
/// `NotFound`, changing nothing, when the old name resolves to no snippet;
/// fails with a database error exactly when relinking the tags stops on an
/// exhausted tag id space, leaving the tags linked up to that point.
pub fn rename_snippet(old_name: String, new_name: String, conn: &mut Database) -> (r: NibbResult<
    (),
>)
    requires
        old(conn).wf(),
    ensures
        final(conn).wf(),
        match find_row_by_name(old(conn)@.rows, old_name@) {
            None => r matches Err(NibbError::NotFound(_)) && final(conn)@ == old(conn)@,
            Some(row) => ({
                let next = RecordView { name: new_name@, ..record_of(old(conn)@, row) };
                match r {
                    Ok(()) => final(conn)@ == spec_update(old(conn)@, next, row.id),
                    Err(e) => e matches NibbError::DBError(_) && spec_tags_exhausted(
                        spec_update_row(old(conn)@, next, row.id),
                        row.id,
                        next.tags,
                        final(conn)@,
                    ),
                }
            }),
        },
{
    let mut rec = match get_snippet_by_name(conn, old_name.as_str()) {
        Ok(rec) => rec,
        Err(e) => {
            return Err(e);
        },
    };
    let id = rec.id;
    rec.name = new_name;
    proof {
        lemma_row_name_member(conn@.rows, old_name@);
        lemma_row_id_find_iff(conn@.rows, id as int);
        assert(rec@ =~= (RecordView {
            name: rec@.name,
            ..record_of(conn@, find_row_by_name(conn@.rows, old_name@).unwrap())
        }));
    }
    update_snippet(conn, &rec, id)
}

/// The tag names a new snippet is given: the requested list, or none.
pub open spec fn spec_given_tags(tags: Option<Vec<String>>) -> Seq<Seq<char>> {
    match tags {
        Some(t) => t.deep_view(),
        None => Seq::empty(),
    }
}

/// The record a fresh snippet starts as: the given name, tags and language,
/// with empty content and no description; the store assigns the id.
pub open spec fn spec_new_record(
    name: Seq<char>,
    tags: Seq<Seq<char>>,
    lang: FileType,
) -> RecordView {
    RecordView { id: 0, name, content: Seq::empty(), description: None, tags, lang }
}

/// Creates a snippet with empty content and no description and stores it.
/// Fails with a database error exactly when an id space is exhausted: either
/// outright, changing nothing, or at one of the tags, leaving the row and
/// the tags linked up to that point.
pub fn new_snippet(
    name: String,
    tags: Option<Vec<String>>,
    lang: FileType,
    conn: &mut Database,
) -> (r: NibbResult<SnippetRecord>)
    requires
        old(conn).wf(),
    ensures
        final(conn).wf(),
        match r {
            Ok(rec) => rec@ == spec_new_record(name@, spec_given_tags(tags), lang)
                && final(conn)@ == spec_insert(old(conn)@, rec@),
            Err(e) => e matches NibbError::DBError(_) && ((final(conn)@ == old(conn)@
                && old(conn)@.next_row_id == i64::MAX as int) || spec_tags_exhausted(
                spec_insert_row(
                    old(conn)@,
                    spec_new_record(name@, spec_given_tags(tags), lang),
                ),
                old(conn)@.next_row_id,
                spec_given_tags(tags),
                final(conn)@,
            )),
        },
{
    let rec = SnippetRecord {
        id: 0,
        name,
        content: String::new(),
        description: None,
        tags: match tags {
            Some(t) => t,
            None => Vec::new(),
        },
        lang,
    };
    proof {
        if tags is None {
            assert(rec.tags.deep_view() =~= Seq::<Seq<char>>::empty());
        }
        assert(rec@ =~= spec_new_record(name@, spec_given_tags(tags), lang));
    }
    match crate::storage::insert_snippet(conn, &rec) {
        Ok(()) => Ok(rec),
        Err(e) => Err(e),
    }
}

/// Links one tag to the first snippet with the name; same contract as the
/// store's own tag linking: a database error comes, changing nothing,
/// exactly when the tag is new and the tag id space is exhausted.
pub fn add_tag(conn: &mut Database, snippet_name: &str, tag: &str) -> (r: NibbResult<()>)
    requires
        old(conn).wf(),
    ensures
        final(conn).wf(),
        match find_row_by_name(old(conn)@.rows, snippet_name@) {
            None => r matches Err(NibbError::NotFound(_)) && final(conn)@ == old(conn)@,
            Some(row) => match r {
                Ok(()) => final(conn)@ == spec_add_tag(old(conn)@, row.id, tag@),
                Err(e) => e matches NibbError::DBError(_) && final(conn)@ == old(conn)@
                    && old(conn)@.next_tag_id == i64::MAX as int && find_tag_by_name(
                    old(conn)@.tags,
                    tag@,
                ) is None,
            },
        },
{
    add_tag_db(conn, snippet_name, tag)
}

/// Unlinks one tag from the first snippet with the name; same contract as
/// the store's own tag unlinking.
pub fn remove_tag(conn: &mut Database, snippet_name: &str, tag: &str) -> (r: NibbResult<()>)
    requires
        old(conn).wf(),
    ensures
        final(conn).wf(),
        match (
            find_row_by_name(old(conn)@.rows, snippet_name@),
            find_tag_by_name(old(conn)@.tags, tag@),
        ) {
            (Some(row), Some(t)) => r is Ok && final(conn)@ == spec_rm_tag(
                old(conn)@,
                row.id,
                t.id,
            ),
            _ => r matches Err(NibbError::NotFound(_)) && final(conn)@ == old(conn)@,
        },
{
    rm_tag_db(conn, snippet_name, tag)
}

/// A flattened snippet keeps a tag filter when the filter is empty or one of
/// its tags is among the requested tags.
pub open spec fn spec_tag_keep(rec: RecordView, ts: Seq<Seq<char>>) -> bool {
    ||| ts.len() == 0
    ||| exists|k: int| 0 <= k < rec.tags.len() && ts.contains(#[trigger] rec.tags[k])
}

/// The records that keep the tag filter, in input order.
pub open spec fn spec_tag_filter(recs: Seq<RecordView>, ts: Seq<Seq<char>>) -> Seq<RecordView>
    decreases recs.len(),
{
    if recs.len() == 0 {
        Seq::empty()
    } else if spec_tag_keep(recs[0], ts) {
        seq![recs[0]] + spec_tag_filter(recs.drop_first(), ts)
    } else {
        spec_tag_filter(recs.drop_first(), ts)
    }
}

/// Filtering one more record, from the front.
proof fn lemma_tag_filter_push(recs: Seq<RecordView>, ts: Seq<Seq<char>>, rec: RecordView)
    ensures
        spec_tag_filter(recs.push(rec), ts) == if spec_tag_keep(rec, ts) {
            spec_tag_filter(recs, ts).push(rec)
        } else {
            spec_tag_filter(recs, ts)
        },
    decreases recs.len(),
{
    let p = recs.push(rec);
    assert(spec_tag_filter(p, ts) == if spec_tag_keep(p[0], ts) {
        seq![p[0]] + spec_tag_filter(p.drop_first(), ts)
    } else {
        spec_tag_filter(p.drop_first(), ts)
    });
    if recs.len() == 0 {
        assert(p[0] == rec);
        assert(p.drop_first() =~= Seq::<RecordView>::empty());
        if spec_tag_keep(rec, ts) {
            assert(seq![rec] + Seq::<RecordView>::empty() =~= spec_tag_filter(recs, ts).push(rec));
        }
    } else {
        lemma_tag_filter_push(recs.drop_first(), ts, rec);
        assert(p[0] == recs[0]);
        assert(p.drop_first() =~= recs.drop_first().push(rec));
        if spec_tag_keep(recs[0], ts) && spec_tag_keep(rec, ts) {
            assert(seq![recs[0]] + spec_tag_filter(recs.drop_first(), ts).push(rec) =~= (seq![
                recs[0],
            ] + spec_tag_filter(recs.drop_first(), ts)).push(rec));
        }
    }
}

/// Whether one record keeps the tag filter.
fn record_keeps_tags(rec: &SnippetRecord, ts: &Vec<String>) -> (r: bool)
    ensures
        r == spec_tag_keep(rec@, ts.deep_view()),
{
    if ts.len() == 0 {
        return true;
    }
    let ghost tv = rec.tags.deep_view();
    let mut k: usize = 0;
    while k < rec.tags.len()
        invariant
            tv == rec.tags.deep_view(),
            k <= tv.len(),
            tv.len() == rec.tags.len(),
            forall|a: int| 0 <= a < k ==> !ts.deep_view().contains(#[trigger] tv[a]),
        decreases tv.len() - k,
    {
        if vec_contains_string(ts, rec.tags[k].as_str()) {
            proof {
                assert(tv[k as int] == rec.tags@[k as int].deep_view());
                assert(ts.deep_view().contains(rec@.tags[k as int]));
            }
            return true;
        }
        k += 1;
    }
    false
}

/// Keeps the snippets that carry at least one of the requested tags; an
/// absent or empty request keeps everything.
pub fn filter_snippets_by_tags(snippets: &Vec<SnippetRecord>, tags: Option<Vec<String>>) -> (r: Vec<
    SnippetRecord,
>)
    ensures
        r.deep_view() == spec_tag_filter(
            snippets.deep_view(),
            match tags {
                Some(t) => t.deep_view(),
                None => Seq::<Seq<char>>::empty(),
            },
        ),
{
    let ts = match tags {
        Some(t) => t,
        None => Vec::new(),
    };
    proof {
        if tags is None {
            assert(ts.deep_view() =~= Seq::<Seq<char>>::empty());
        }
    }
    let ghost sv = snippets.deep_view();
    let mut out: Vec<SnippetRecord> = Vec::new();
    let mut i: usize = 0;
    while i < snippets.len()
        invariant
            sv == snippets.deep_view(),
            i <= sv.len(),
            sv.len() == snippets.len(),
            out.deep_view() =~= spec_tag_filter(sv.take(i as int), ts.deep_view()),
        decreases sv.len() - i,
    {
        let ghost pre = out.deep_view();
        if record_keeps_tags(&snippets[i], &ts) {
            out.push(snippets[i].clone());
            proof {
                assert(out.deep_view() =~= pre.push(sv[i as int]));
            }
        }
        proof {
            lemma_tag_filter_push(sv.take(i as int), ts.deep_view(), sv[i as int]);
            assert(sv.take(i + 1) =~= sv.take(i as int).push(sv[i as int]));
        }
        i += 1;
    }
    proof {
        assert(sv.take(sv.len() as int) =~= sv);
    }
    out
}

} // verus!
