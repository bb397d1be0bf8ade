use vstd::prelude::*;

verus! {

// The standard library operations used here that vstd leaves unspecified.
pub assume_specification[ String::push ](s: &mut String, c: char)
    ensures
        final(s)@ == old(s)@.push(c),
;

/// Character-for-character equality of two string slices.
pub fn str_eq(a: &str, b: &str) -> (r: bool)
    ensures
        r == (a@ == b@),
{
    let x = a.to_owned();
    let y = b.to_owned();
    x == y
}

/// `needle` occurs in `hay` starting at position `i`.
pub open spec fn occurs_at(hay: Seq<char>, needle: Seq<char>, i: int) -> bool {
    &&& 0 <= i
    &&& i + needle.len() <= hay.len()
    &&& hay.subrange(i, i + needle.len() as int) == needle
}

/// `needle` occurs somewhere in `hay`.
pub open spec fn contains_seq(hay: Seq<char>, needle: Seq<char>) -> bool {
    exists|i: int| occurs_at(hay, needle, i)
}

/// Whether `needle` occurs in `hay` starting at position `i`.
pub fn match_at(hay: &str, needle: &str, i: usize) -> (r: bool)
    requires
        i + needle@.len() <= hay@.len(),
    ensures
        r == occurs_at(hay@, needle@, i as int),
{
    let n = hay.unicode_len();
    let m = needle.unicode_len();
    let mut j: usize = 0;
    while j < m
        invariant
            j <= m,
            m == needle@.len(),
            n == hay@.len(),
            i + m <= n,
            forall|k: int| 0 <= k < j ==> hay@[i + k] == needle@[k],
        decreases m - j,
    {
        if hay.get_char(i + j) != needle.get_char(j) {
            assert(!occurs_at(hay@, needle@, i as int)) by {
                assert(hay@.subrange(i as int, i + m as int)[j as int] == hay@[i + j]);
            }
            return false;
        }
        j += 1;
    }
    assert(hay@.subrange(i as int, i + m as int) =~= needle@);
    true
}

/// Whether `needle` occurs anywhere in `hay`.
pub fn contains_str(hay: &str, needle: &str) -> (r: bool)
    ensures
        r == contains_seq(hay@, needle@),
{
    let n = hay.unicode_len();
    let m = needle.unicode_len();
    if m > n {
        assert(!contains_seq(hay@, needle@));
        return false;
    }
    let bound = n - m;
    let mut i: usize = 0;
    while i < bound
        invariant
            n == hay@.len(),
            m == needle@.len(),
            m <= n,
            bound == n - m,
            i <= bound,
            forall|k: int| 0 <= k < i ==> !occurs_at(hay@, needle@, k),
        decreases bound - i,
    {
        if match_at(hay, needle, i) {
            return true;
        }
        i += 1;
    }
    if match_at(hay, needle, bound) {
        return true;
    }
    assert forall|k: int| !occurs_at(hay@, needle@, k) by {
        if 0 <= k && k + m <= n {
            assert(!occurs_at(hay@, needle@, k));
        }
    }
    false
}

/// The pieces joined with the separator between consecutive pieces.
pub open spec fn spec_join(pieces: Seq<Seq<char>>, sep: Seq<char>) -> Seq<char>
    decreases pieces.len(),
{
    if pieces.len() == 0 {
        Seq::empty()
    } else if pieces.len() == 1 {
        pieces[0]
    } else {
        pieces[0] + sep + spec_join(pieces.drop_first(), sep)
    }
}

/// Appending one more piece extends the join by a separator and that piece.
pub proof fn lemma_join_push(pieces: Seq<Seq<char>>, sep: Seq<char>, last: Seq<char>)
    ensures
        spec_join(pieces.push(last), sep) == if pieces.len() == 0 {
            last
        } else {
            spec_join(pieces, sep) + sep + last
        },
    decreases pieces.len(),
{
    if pieces.len() == 0 {
        assert(pieces.push(last) =~= seq![last]);
        assert(spec_join(seq![last], sep) == last);
    } else if pieces.len() == 1 {
        let p = pieces.push(last);
        assert(p.drop_first() =~= seq![last]);
        assert(p[0] == pieces[0]);
        assert(spec_join(p, sep) == p[0] + sep + spec_join(p.drop_first(), sep));
        assert(spec_join(pieces, sep) == pieces[0]);
    } else {
        lemma_join_push(pieces.drop_first(), sep, last);
        assert(pieces.push(last).drop_first() =~= pieces.drop_first().push(last));
        assert(spec_join(pieces, sep) + sep + last =~= pieces[0] + sep + (spec_join(
            pieces.drop_first(),
            sep,
        ) + sep + last));
    }
}

/// Joins the strings with the separator between consecutive elements.
pub fn join_with(pieces: &Vec<String>, sep: &str) -> (r: String)
    ensures
        r@ == spec_join(pieces.deep_view(), sep@),
{
    let mut r = String::new();
    let mut i: usize = 0;
    while i < pieces.len()
        invariant
            i <= pieces.len(),
            r@ == spec_join(pieces.deep_view().take(i as int), sep@),
        decreases pieces.len() - i,
    {
        if i > 0 {
            r.append(sep);
        }
        r.append(pieces[i].as_str());
        proof {
            let dv = pieces.deep_view();
            lemma_join_push(dv.take(i as int), sep@, dv[i as int]);
            assert(dv.take(i + 1) =~= dv.take(i as int).push(dv[i as int]));
        }
        i += 1;
    }
    proof {
        assert(pieces.deep_view().take(pieces.len() as int) =~= pieces.deep_view());
    }
    r
}

/// The string with every occurrence of `from` replaced by `to`, scanning
/// left to right without overlap; a string is its own replacement when
/// `from` is empty.
pub open spec fn spec_replace(s: Seq<char>, from: Seq<char>, to: Seq<char>) -> Seq<char>
    decreases s.len(),
{
    if from.len() == 0 || s.len() < from.len() {
        s
    } else if s.subrange(0, from.len() as int) == from {
        to + spec_replace(s.skip(from.len() as int), from, to)
    } else {
        seq![s[0]] + spec_replace(s.drop_first(), from, to)
    }
}

/// Replaces every occurrence of `from` by `to`, scanning left to right
/// without overlap.
pub fn replace_all(s: &str, from: &str, to: &str) -> (r: String)
    ensures
        r@ == spec_replace(s@, from@, to@),
{
    let n = s.unicode_len();
    let m = from.unicode_len();
    if m == 0 {
        return s.to_owned();
    }
    let mut r = String::new();
    let mut i: usize = 0;
    proof {
        assert(s@.skip(0) =~= s@);
        assert(Seq::<char>::empty() + spec_replace(s@, from@, to@) =~= spec_replace(
            s@,
            from@,
            to@,
        ));
    }
    while i < n
        invariant
            1 <= m,
            n == s@.len(),
            m == from@.len(),
            i <= n,
            spec_replace(s@, from@, to@) == r@ + spec_replace(s@.skip(i as int), from@, to@),
        decreases n - i,
    {
        let ghost tail = s@.skip(i as int);
        if m <= n - i && match_at(s, from, i) {
            r.append(to);
            proof {
                assert(tail.subrange(0, m as int) =~= s@.subrange(i as int, i + m as int));
                assert(tail.skip(m as int) =~= s@.skip(i + m));
                assert(spec_replace(tail, from@, to@) == to@ + spec_replace(
                    s@.skip(i + m),
                    from@,
                    to@,
                ));
            }
            i += m;
        } else {
            let c = s.get_char(i);
            r.push(c);
            proof {
                if i + m <= n {
                    assert(tail.subrange(0, m as int) =~= s@.subrange(i as int, i + m as int));
                    assert(tail.subrange(0, m as int) != from@);
                }
                assert(tail.drop_first() =~= s@.skip(i + 1));
                assert(tail[0] == s@[i as int]);
                assert(spec_replace(tail, from@, to@) == seq![s@[i as int]] + spec_replace(
                    s@.skip(i + 1),
                    from@,
                    to@,
                ));
            }
            i += 1;
        }
    }
    proof {
        assert(s@.skip(n as int) =~= Seq::<char>::empty());
        assert(r@ + Seq::<char>::empty() =~= r@);
    }
    r
}

/// The character of one decimal digit.
pub open spec fn digit_char(d: nat) -> char {
    ((48 + (d % 10)) as u8) as char
}

/// The decimal digits of a natural number, most significant first.
pub open spec fn spec_digits(n: nat) -> Seq<char>
    decreases n,
{
    if n < 10 {
        seq![digit_char(n)]
    } else {
        spec_digits(n / 10).push(digit_char(n % 10))
    }
}

/// The decimal form of a signed number: a minus sign before the digits of
/// its magnitude.
pub open spec fn spec_i64_str(v: int) -> Seq<char> {
    if v < 0 {
        seq!['-'] + spec_digits((-v) as nat)
    } else {
        spec_digits(v as nat)
    }
}

/// Writes a natural number in decimal.
pub fn u64_string(v: u64) -> (r: String)
    ensures
        r@ == spec_digits(v as nat),
{
    let mut x = v;
    let mut r = String::new();
    while x >= 10
        invariant
            spec_digits(v as nat) =~= spec_digits(x as nat) + r@,
        decreases x,
    {
        let d = (x % 10) as u8;
        let mut piece = String::new();
        piece.push((48 + d) as char);
        piece.append(r.as_str());
        proof {
            assert(spec_digits(x as nat) == spec_digits((x as nat) / 10).push(
                digit_char((x as nat) % 10),
            ));
            assert((x / 10) as nat == (x as nat) / 10);
            assert(piece@ =~= seq![digit_char((x as nat) % 10)] + r@);
            assert(spec_digits((x as nat) / 10).push(digit_char((x as nat) % 10)) + r@
                =~= spec_digits((x as nat) / 10) + (seq![digit_char((x as nat) % 10)] + r@));
        }
        r = piece;
        x = x / 10;
    }
    let mut piece = String::new();
    piece.push((48 + (x % 10) as u8) as char);
    piece.append(r.as_str());
    proof {
        assert(piece@ =~= seq![digit_char(x as nat)] + r@);
        assert(spec_digits(x as nat) =~= seq![digit_char(x as nat)]);
        assert(seq![digit_char(x as nat)] + r@ =~= spec_digits(x as nat) + r@);
    }
    piece
}

/// Writes a signed number in decimal.
pub fn i64_string(v: i64) -> (r: String)
    ensures
        r@ == spec_i64_str(v as int),
{
    if v >= 0 {
        u64_string(v as u64)
    } else {
        let mag: u64 = if v == i64::MIN {
            9223372036854775808u64
        } else {
            (-v) as u64
        };
        proof {
            assert(mag as nat == (-(v as int)) as nat);
        }
        let mut r = String::new();
        r.push('-');
        r.append(u64_string(mag).as_str());
        proof {
            assert(r@ =~= seq!['-'] + spec_digits((-(v as int)) as nat));
        }
        r
    }
}

} // verus!
