use vstd::prelude::*;
use crate::clock::{date_days_of, parse_date_days};
use crate::file_type::spec_display_name;
use crate::snippet::{Snippet, SnippetView};
use crate::text::{contains_seq, contains_str, str_eq};

verus! {

/// A string of blanks only: spaces, tabs and line breaks.
pub open spec fn is_blank(s: Seq<char>) -> bool {
    forall|i: int|
        0 <= i < s.len() ==> (#[trigger] s[i] == ' ' || s[i] == '\t' || s[i] == '\n' || s[i]
            == '\r')
}

/// Whether a string holds blanks only.
fn blank_str(s: &str) -> (r: bool)
    ensures
        r == is_blank(s@),
{
    let n = s.unicode_len();
    let mut i: usize = 0;
    while i < n
        invariant
            i <= n,
            n == s@.len(),
            forall|k: int|
                0 <= k < i ==> (#[trigger] s@[k] == ' ' || s@[k] == '\t' || s@[k] == '\n' || s@[k]
                    == '\r'),
        decreases n - i,
    {
        let c = s.get_char(i);
        if !(c == ' ' || c == '\t' || c == '\n' || c == '\r') {
            return false;
        }
        i += 1;
    }
    true
}

/// A snippet keeps a filter string when the string occurs in its language's
/// name, its name or its description, is one of its tags taken whole, or —
/// when the string is a `YYYY-MM-DD` date — the snippet was created on or
/// before that date.
pub open spec fn spec_meta_keep(s: SnippetView, f: Seq<char>) -> bool {
    ||| contains_seq(spec_display_name(s.meta.language), f)
    ||| contains_seq(s.meta.name, f)
    ||| contains_seq(s.meta.description, f)
    ||| s.meta.tags.contains(f)
    ||| (date_days_of(f) matches Some(d) && s.meta.created < (d + 1) * 86400)
}

/// The snippets that keep the filter string, in input order.
pub open spec fn spec_meta_filter(ss: Seq<SnippetView>, f: Seq<char>) -> Seq<SnippetView>
    decreases ss.len(),
{
    if ss.len() == 0 {
        Seq::empty()
    } else if spec_meta_keep(ss[0], f) {
        seq![ss[0]] + spec_meta_filter(ss.drop_first(), f)
    } else {
        spec_meta_filter(ss.drop_first(), f)
    }
}

/// Filtering one more snippet, from the front.
proof fn lemma_meta_filter_push(ss: Seq<SnippetView>, f: Seq<char>, s: SnippetView)
    ensures
        spec_meta_filter(ss.push(s), f) == if spec_meta_keep(s, f) {
            spec_meta_filter(ss, f).push(s)
        } else {
            spec_meta_filter(ss, f)
        },
    decreases ss.len(),
{
    let p = ss.push(s);
    assert(spec_meta_filter(p, f) == if spec_meta_keep(p[0], f) {
        seq![p[0]] + spec_meta_filter(p.drop_first(), f)
    } else {
        spec_meta_filter(p.drop_first(), f)
    });
    if ss.len() == 0 {
        assert(p[0] == s);
        assert(p.drop_first() =~= Seq::<SnippetView>::empty());
        if spec_meta_keep(s, f) {
            assert(seq![s] + Seq::<SnippetView>::empty() =~= spec_meta_filter(ss, f).push(s));
        }
    } else {
        lemma_meta_filter_push(ss.drop_first(), f, s);
        assert(p[0] == ss[0]);
        assert(p.drop_first() =~= ss.drop_first().push(s));
        if spec_meta_keep(ss[0], f) && spec_meta_keep(s, f) {
            assert(seq![ss[0]] + spec_meta_filter(ss.drop_first(), f).push(s) =~= (seq![ss[0]]
                + spec_meta_filter(ss.drop_first(), f)).push(s));
        }
    }
}

/// Whether a snippet was created on or before the parsed date, given as days
/// since the Unix epoch.
fn created_on_or_before(created: i64, d: i64) -> (r: bool)
    ensures
        r == (created < (d + 1) * 86400),
{
    match d.checked_add(1) {
        Some(d1) => match d1.checked_mul(86400) {
            Some(bound) => created < bound,
            None => {
                if d1 > 0 {
                    proof {
                        assert(d1 * 86400 >= 86400 * 1) by (nonlinear_arith)
                            requires
                                d1 >= 1,
                        ;
                        assert((d1 as int) * 86400 > i64::MAX as int || (d1 as int) * 86400
                            < i64::MIN as int);
                        assert((d1 as int) * 86400 > i64::MAX as int);
                    }
                    true
                } else {
                    proof {
                        assert(d1 * 86400 <= 0) by (nonlinear_arith)
                            requires
                                d1 <= 0,
                        ;
                        assert((d1 as int) * 86400 < i64::MIN as int);
                    }
                    false
                }
            },
        },
        None => {
            proof {
                assert((d as int) + 1 > i64::MAX as int);
                assert(((d as int) + 1) * 86400 >= ((d as int) + 1) * 1) by (nonlinear_arith)
                    requires
                        (d as int) + 1 >= 1,
                ;
            }
            true
        },
    }
}

/// Whether one snippet keeps the filter string.
fn meta_keeps(s: &Snippet, f: &str) -> (r: bool)
    ensures
        r == spec_meta_keep(s@, f@),
{
    if contains_str(s.meta.language.display_name(), f) {
        return true;
    }
    if contains_str(s.meta.name.as_str(), f) {
        return true;
    }
    if contains_str(s.meta.description.as_str(), f) {
        return true;
    }
    if crate::storage::vec_contains_string(&s.meta.tags, f) {
        return true;
    }
    match parse_date_days(f) {
        Some(d) => created_on_or_before(s.meta.created, d),
        None => false,
    }
}

/// Keeps the snippets in which the filter string occurs — in the language's
/// name, the name, the description or a tag taken whole — or, when the
/// string is a `YYYY-MM-DD` date, that were created on or before it. A
/// blank filter, `all` or `a` keeps everything.
pub fn filter_snippets(snippets: Vec<Snippet>, filter: &str) -> (r: Vec<Snippet>)
    ensures
        (is_blank(filter@) || filter@ == "all"@ || filter@ == "a"@) ==> r.deep_view()
            == snippets.deep_view(),
        !(is_blank(filter@) || filter@ == "all"@ || filter@ == "a"@) ==> r.deep_view()
            == spec_meta_filter(snippets.deep_view(), filter@),
{
    if blank_str(filter) || str_eq(filter, "all") || str_eq(filter, "a") {
        return snippets;
    }
    let ghost sv = snippets.deep_view();
    let mut out: Vec<Snippet> = Vec::new();
    let mut i: usize = 0;
    while i < snippets.len()
        invariant
            sv == snippets.deep_view(),
            i <= sv.len(),
            sv.len() == snippets.len(),
            out.deep_view() =~= spec_meta_filter(sv.take(i as int), filter@),
        decreases sv.len() - i,
    {
        let ghost pre = out.deep_view();
        if meta_keeps(&snippets[i], filter) {
            out.push(snippets[i].clone());
            proof {
                assert(out.deep_view() =~= pre.push(sv[i as int]));
            }
        }
        proof {
            lemma_meta_filter_push(sv.take(i as int), filter@, sv[i as int]);
            assert(sv.take(i + 1) =~= sv.take(i as int).push(sv[i as int]));
        }
        i += 1;
    }
    proof {
        assert(sv.take(sv.len() as int) =~= sv);
    }
    out
}

} // verus!
