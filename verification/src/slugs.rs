use vstd::prelude::*;

verus! {

/// The slug that `slug::slugify` computes for a string: its transliterated,
/// lowercased, dash-separated form.
pub uninterp spec fn slug_of(s: Seq<char>) -> Seq<char>;

/// A string of `a-z`, `0-9` and `-`, with no two dashes in a row and no dash
/// at either end: the shape every slug has.
pub open spec fn is_slug(s: Seq<char>) -> bool {
    &&& forall|i: int|
        0 <= i < s.len() ==> (('a' <= s[i] && s[i] <= 'z') || ('0' <= s[i] && s[i] <= '9') || s[i]
            == '-')
    &&& forall|i: int| 0 < i < s.len() ==> !(s[i - 1] == '-' && #[trigger] s[i] == '-')
    &&& s.len() > 0 ==> s[0] != '-' && s[s.len() - 1] != '-'
}

/// Relies on slug::slugify: the result is a function of the characters alone;
/// it consists of a-z, 0-9 and dashes, never two dashes in a row and never a
/// dash at either end; and it maps a string that already has that shape to
/// itself, since every such character passes through unchanged.
#[verifier::external_body]
pub(crate) fn slugify(s: &str) -> (r: String)
    ensures
        r@ == slug_of(s@),
        is_slug(r@),
        is_slug(s@) ==> r@ == s@,
{
    slug::slugify(s)
}

} // verus!
