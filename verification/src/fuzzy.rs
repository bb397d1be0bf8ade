use vstd::prelude::*;
use crate::file_type::spec_display_name;
use crate::gitops::spec_desc_text;
use crate::storage::{RecordView, SnippetRecord};
use crate::text::{join_with, spec_join};
use vstd::multiset::Multiset;

verus! {

/// The score that the skim matcher gives a choice string against a pattern:
/// a function of the two strings alone; nothing when they do not match.
pub uninterp spec fn fuzzy_score_of(choice: Seq<char>, pattern: Seq<char>) -> Option<i64>;

/// Relies on fuzzy_matcher's SkimMatcherV2 with its default configuration:
/// the score depends on the choice and the pattern alone.
#[verifier::external_body]
fn fuzzy_match_score(choice: &str, pattern: &str) -> (r: Option<i64>)
    ensures
        r == fuzzy_score_of(choice@, pattern@),
{
    let matcher = fuzzy_matcher::skim::SkimMatcherV2::default();
    fuzzy_matcher::FuzzyMatcher::fuzzy_match(&matcher, choice, pattern)
}

/// The text a snippet is matched against: name, content, description, tags
/// and language name, separated by single spaces.
pub open spec fn spec_haystack(rec: RecordView) -> Seq<char> {
    rec.name + seq![' '] + rec.content + seq![' '] + spec_desc_text(rec.description) + seq![' ']
        + spec_join(rec.tags, seq![' ']) + seq![' '] + spec_display_name(rec.lang)
}

/// The matcher's score for a snippet against a query.
pub open spec fn spec_score(rec: RecordView, query: Seq<char>) -> Option<i64> {
    fuzzy_score_of(spec_haystack(rec), query)
}

/// The score's value, where there is one.
pub open spec fn spec_score_val(rec: RecordView, query: Seq<char>) -> int {
    spec_score(rec, query).unwrap() as int
}

/// The snippets that match the query, in input order.
pub open spec fn spec_kept(recs: Seq<RecordView>, query: Seq<char>) -> Seq<RecordView>
    decreases recs.len(),
{
    if recs.len() == 0 {
        Seq::empty()
    } else if spec_score(recs[0], query) is Some {
        seq![recs[0]] + spec_kept(recs.drop_first(), query)
    } else {
        spec_kept(recs.drop_first(), query)
    }
}

/// Keeping one more snippet, from the front.
proof fn lemma_kept_push(recs: Seq<RecordView>, query: Seq<char>, rec: RecordView)
    ensures
        spec_kept(recs.push(rec), query) == if spec_score(rec, query) is Some {
            spec_kept(recs, query).push(rec)
        } else {
            spec_kept(recs, query)
        },
    decreases recs.len(),
{
    let p = recs.push(rec);
    assert(p.len() == recs.len() + 1);
    assert(spec_kept(p, query) == if spec_score(p[0], query) is Some {
        seq![p[0]] + spec_kept(p.drop_first(), query)
    } else {
        spec_kept(p.drop_first(), query)
    });
    if recs.len() == 0 {
        assert(p[0] == rec);
        assert(p.drop_first() =~= Seq::<RecordView>::empty());
        assert(spec_kept(Seq::<RecordView>::empty(), query) == Seq::<RecordView>::empty());
        assert(spec_kept(recs, query) == Seq::<RecordView>::empty());
        if spec_score(rec, query) is Some {
            assert(spec_kept(p, query) == seq![rec] + Seq::<RecordView>::empty());
            assert(seq![rec] + Seq::<RecordView>::empty() =~= Seq::<RecordView>::empty().push(
                rec,
            ));
        }
    } else {
        lemma_kept_push(recs.drop_first(), query, rec);
        assert(p[0] == recs[0]);
        assert(p.drop_first() =~= recs.drop_first().push(rec));
        assert(spec_kept(recs, query) == if spec_score(recs[0], query) is Some {
            seq![recs[0]] + spec_kept(recs.drop_first(), query)
        } else {
            spec_kept(recs.drop_first(), query)
        });
        if spec_score(recs[0], query) is Some && spec_score(rec, query) is Some {
            assert(seq![recs[0]] + spec_kept(recs.drop_first(), query).push(rec) =~= (seq![
                recs[0],
            ] + spec_kept(recs.drop_first(), query)).push(rec));
        }
    }
}

/// Every snippet the filter keeps has a score.
proof fn lemma_kept_scores(recs: Seq<RecordView>, query: Seq<char>)
    ensures
        forall|a: int|
            0 <= a < spec_kept(recs, query).len() ==> spec_score(
                #[trigger] spec_kept(recs, query)[a],
                query,
            ) is Some,
    decreases recs.len(),
{
    if recs.len() > 0 {
        lemma_kept_scores(recs.drop_first(), query);
        let r = spec_kept(recs, query);
        if spec_score(recs[0], query) is Some {
            assert forall|a: int| 0 <= a < r.len() implies spec_score(#[trigger] r[a], query)
                is Some by {
                if a > 0 {
                    assert(r[a] == spec_kept(recs.drop_first(), query)[a - 1]);
                }
            }
        }
    }
}

/// The text a snippet is matched against.
fn build_haystack(rec: &SnippetRecord) -> (r: String)
    ensures
        r@ == spec_haystack(rec@),
{
    let mut r = rec.name.clone();
    r.append(" ");
    r.append(rec.content.as_str());
    r.append(" ");
    match &rec.description {
        Some(d) => r.append(d.as_str()),
        None => (),
    }
    r.append(" ");
    let tags = join_with(&rec.tags, " ");
    r.append(tags.as_str());
    r.append(" ");
    r.append(rec.lang.display_name());
    proof {
        reveal_strlit(" ");
        assert(" "@ =~= seq![' ']);
        assert(r@ =~= spec_haystack(rec@));
    }
    r
}

/// The matcher's score for a snippet against a query.
fn score_of(rec: &SnippetRecord, query: &str) -> (r: Option<i64>)
    ensures
        r == spec_score(rec@, query@),
{
    let haystack = build_haystack(rec);
    fuzzy_match_score(haystack.as_str(), query)
}

/// Ranks the snippets that match the query: exactly those whose haystack the
/// matcher scores, as a multiset, ordered by non-increasing score.
pub fn fuzzy_search(query: &str, snippets: &Vec<SnippetRecord>) -> (r: Vec<SnippetRecord>)
    ensures
        r.deep_view().to_multiset() == spec_kept(snippets.deep_view(), query@).to_multiset(),
        forall|i: int|
            0 <= i < r.deep_view().len() ==> spec_score(#[trigger] r.deep_view()[i], query@)
                is Some,
        forall|i: int, j: int|
            0 <= i < j < r.deep_view().len() ==> spec_score_val(#[trigger] r.deep_view()[i], query@)
                >= spec_score_val(#[trigger] r.deep_view()[j], query@),
{
    let ghost sv = snippets.deep_view();
    let mut kept: Vec<SnippetRecord> = Vec::new();
    let mut i: usize = 0;
    while i < snippets.len()
        invariant
            sv == snippets.deep_view(),
            i <= sv.len(),
            sv.len() == snippets.len(),
            kept.deep_view() =~= spec_kept(sv.take(i as int), query@),
        decreases sv.len() - i,
    {
        let ghost pre = kept.deep_view();
        if score_of(&snippets[i], query).is_some() {
            kept.push(snippets[i].clone());
            proof {
                assert(kept.deep_view() =~= pre.push(sv[i as int]));
            }
        }
        proof {
            lemma_kept_push(sv.take(i as int), query@, sv[i as int]);
            assert(sv.take(i + 1) =~= sv.take(i as int).push(sv[i as int]));
        }
        i += 1;
    }
    proof {
        assert(sv.take(sv.len() as int) =~= sv);
    }
    let ghost all = kept.deep_view();
    proof {
        lemma_kept_scores(sv, query@);
    }
    let mut out: Vec<SnippetRecord> = Vec::new();
    proof {
        broadcast use vstd::seq_lib::group_to_multiset_ensures;
        broadcast use vstd::multiset::group_multiset_axioms;

        assert(out.deep_view() =~= Seq::<RecordView>::empty());
        vstd::multiset::lemma_multiset_empty_len::<RecordView>(out.deep_view().to_multiset());
        assert(out.deep_view().to_multiset() =~= Multiset::<RecordView>::empty());
        assert(out.deep_view().to_multiset().add(kept.deep_view().to_multiset())
            =~= all.to_multiset());
    }
    while kept.len() > 0
        invariant
            out.deep_view().to_multiset().add(kept.deep_view().to_multiset())
                =~= all.to_multiset(),
            forall|a: int|
                0 <= a < kept.deep_view().len() ==> spec_score(
                    #[trigger] kept.deep_view()[a],
                    query@,
                ) is Some,
            forall|a: int|
                0 <= a < out.deep_view().len() ==> spec_score(
                    #[trigger] out.deep_view()[a],
                    query@,
                ) is Some,
            forall|a: int, b: int|
                0 <= a < b < out.deep_view().len() ==> spec_score_val(
                    #[trigger] out.deep_view()[a],
                    query@,
                ) >= spec_score_val(#[trigger] out.deep_view()[b], query@),
            forall|a: int, b: int|
                0 <= a < out.deep_view().len() && 0 <= b < kept.deep_view().len()
                    ==> spec_score_val(#[trigger] out.deep_view()[a], query@) >= spec_score_val(
                    #[trigger] kept.deep_view()[b],
                    query@,
                ),
        decreases kept.len(),
    {
        let mut best: usize = 0;
        let ghost kv = kept.deep_view();
        let mut best_score: i64 = match score_of(&kept[0], query) {
            Some(s) => s,
            None => {
                proof {
                    assert(kv[0] == kept@[0].deep_view());
                    assert(spec_score(kv[0], query@) is Some);
                    assert(false);
                }
                0
            },
        };
        let mut j: usize = 1;
        while j < kept.len()
            invariant
                kv == kept.deep_view(),
                kept.deep_view().len() == kept.len(),
                kept.len() > 0,
                best < j,
                j <= kept.len(),
                forall|a: int|
                    0 <= a < kept.deep_view().len() ==> spec_score(
                        #[trigger] kept.deep_view()[a],
                        query@,
                    ) is Some,
                best_score as int == spec_score_val(kept.deep_view()[best as int], query@),
                forall|a: int|
                    0 <= a < j ==> best_score as int >= spec_score_val(
                        #[trigger] kept.deep_view()[a],
                        query@,
                    ),
            decreases kept.len() - j,
        {
            let s = match score_of(&kept[j], query) {
                Some(s) => s,
                None => {
                    proof {
                        assert(kept.deep_view()[j as int] == kept@[j as int].deep_view());
                        assert(spec_score(kept.deep_view()[j as int], query@) is Some);
                        assert(false);
                    }
                    0
                },
            };
            if s > best_score {
                best = j;
                best_score = s;
            }
            j += 1;
        }
        let ghost pre_kept = kept.deep_view();
        let ghost pre_out = out.deep_view();
        let chosen = kept.remove(best);
        out.push(chosen);
        proof {
            broadcast use vstd::multiset::group_multiset_axioms;

            pre_kept.to_multiset_ensures();
            assert(kept.deep_view() =~= pre_kept.remove(best as int));
            assert(out.deep_view() =~= pre_out.push(pre_kept[best as int]));
            pre_out.to_multiset_ensures();
            assert(out.deep_view().to_multiset() =~= pre_out.to_multiset().insert(
                pre_kept[best as int],
            ));
            assert(kept.deep_view().to_multiset() =~= pre_kept.to_multiset().remove(
                pre_kept[best as int],
            ));
            assert(pre_kept.to_multiset().contains(pre_kept[best as int])) by {
                assert(pre_kept.to_multiset().count(pre_kept[best as int]) > 0);
            }
            assert(out.deep_view().to_multiset().add(kept.deep_view().to_multiset())
                =~= all.to_multiset());
            assert forall|a: int| 0 <= a < kept.deep_view().len() implies spec_score(
                #[trigger] kept.deep_view()[a],
                query@,
            ) is Some by {
                let a0: int = if a < best {
                    a
                } else {
                    a + 1
                };
                assert(kept.deep_view()[a] == pre_kept[a0]);
            }
            assert forall|a: int, b: int|
                0 <= a < out.deep_view().len() && 0 <= b < kept.deep_view().len() implies
                spec_score_val(#[trigger] out.deep_view()[a], query@) >= spec_score_val(
                #[trigger] kept.deep_view()[b],
                query@,
            ) by {
                let b0: int = if b < best {
                    b
                } else {
                    b + 1
                };
                assert(kept.deep_view()[b] == pre_kept[b0]);
                if a < pre_out.len() {
                    assert(out.deep_view()[a] == pre_out[a]);
                } else {
                    assert(out.deep_view()[a] == pre_kept[best as int]);
                }
            }
        }
    }
    proof {
        broadcast use vstd::seq_lib::group_to_multiset_ensures;
        broadcast use vstd::multiset::group_multiset_axioms;

        assert(kept.deep_view() =~= Seq::<RecordView>::empty());
        vstd::multiset::lemma_multiset_empty_len::<RecordView>(kept.deep_view().to_multiset());
        assert(kept.deep_view().to_multiset() =~= Multiset::<RecordView>::empty());
        assert(out.deep_view().to_multiset() =~= all.to_multiset());
    }
    out
}

} // verus!
