use vstd::prelude::*;
use crate::text::{contains_seq, contains_str, join_with, lemma_join_push, spec_join};

verus! {

/// Splits a string into its `\n`-separated lines, carrying the lines already
/// cut and the line being read.
pub open spec fn split_acc(s: Seq<char>, done: Seq<Seq<char>>, cur: Seq<char>) -> Seq<Seq<char>>
    decreases s.len(),
{
    if s.len() == 0 {
        done.push(cur)
    } else if s[0] == '\n' {
        split_acc(s.drop_first(), done.push(cur), Seq::empty())
    } else {
        split_acc(s.drop_first(), done, cur.push(s[0]))
    }
}

/// The `\n`-separated lines of a string. A string without a newline is one
/// line; a trailing newline yields a final empty line, so joining the lines
/// with `\n` gives the string back byte for byte.
pub open spec fn spec_split(s: Seq<char>) -> Seq<Seq<char>> {
    split_acc(s, Seq::empty(), Seq::empty())
}

/// The join of the lines cut so far and the line being read.
pub open spec fn partial_join(done: Seq<Seq<char>>, cur: Seq<char>) -> Seq<char> {
    if done.len() == 0 {
        cur
    } else {
        spec_join(done, seq!['\n']) + seq!['\n'] + cur
    }
}

/// Joining what the splitter would produce from the rest of the string gives
/// the text read so far followed by that rest.
proof fn lemma_split_acc_join(s: Seq<char>, done: Seq<Seq<char>>, cur: Seq<char>)
    ensures
        spec_join(split_acc(s, done, cur), seq!['\n']) == partial_join(done, cur) + s,
    decreases s.len(),
{
    if s.len() == 0 {
        lemma_join_push(done, seq!['\n'], cur);
        assert(partial_join(done, cur) + s =~= partial_join(done, cur));
    } else if s[0] == '\n' {
        lemma_split_acc_join(s.drop_first(), done.push(cur), Seq::empty());
        lemma_join_push(done, seq!['\n'], cur);
        assert(partial_join(done.push(cur), Seq::empty()) =~= partial_join(done, cur) + seq![
            '\n',
        ]);
        assert((partial_join(done, cur) + seq!['\n']) + s.drop_first() =~= partial_join(done, cur)
            + s);
    } else {
        lemma_split_acc_join(s.drop_first(), done, cur.push(s[0]));
        assert(partial_join(done, cur.push(s[0])) =~= partial_join(done, cur) + seq![s[0]]);
        assert((partial_join(done, cur) + seq![s[0]]) + s.drop_first() =~= partial_join(done, cur)
            + s);
    }
}

/// Joining a string's lines with `\n` gives the string back, byte for byte.
pub proof fn lemma_split_then_join(s: Seq<char>)
    ensures
        spec_join(spec_split(s), seq!['\n']) == s,
{
    lemma_split_acc_join(s, Seq::empty(), Seq::empty());
    assert(partial_join(Seq::empty(), Seq::empty()) + s =~= s);
}

/// Splits a string into its `\n`-separated lines.
pub fn split_lines(s: &str) -> (r: Vec<String>)
    ensures
        r.deep_view() == spec_split(s@),
{
    let n = s.unicode_len();
    let mut done: Vec<String> = Vec::new();
    let mut cur = String::new();
    let mut i: usize = 0;
    proof {
        assert(s@.skip(0) =~= s@);
        assert(done.deep_view() =~= Seq::<Seq<char>>::empty());
    }
    while i < n
        invariant
            i <= n,
            n == s@.len(),
            split_acc(s@, Seq::empty(), Seq::empty()) == split_acc(
                s@.skip(i as int),
                done.deep_view(),
                cur@,
            ),
        decreases n - i,
    {
        let ghost pre_done = done.deep_view();
        let ghost pre_cur = cur@;
        let c = s.get_char(i);
        if c == '\n' {
            done.push(cur);
            cur = String::new();
            proof {
                assert(done.deep_view() =~= pre_done.push(pre_cur));
            }
        } else {
            cur.push(c);
        }
        proof {
            assert(s@.skip(i as int)[0] == s@[i as int]);
            assert(s@.skip(i as int).drop_first() =~= s@.skip(i + 1));
        }
        i += 1;
    }
    proof {
        assert(s@.skip(n as int) =~= Seq::<char>::empty());
    }
    done.push(cur);
    done
}

/// Joins lines back with `\n`: the inverse of `split_lines`.
pub fn join_lines(pieces: &Vec<String>) -> (r: String)
    ensures
        r@ == spec_join(pieces.deep_view(), seq!['\n']),
{
    proof {
        reveal_strlit("\n");
        assert("\n"@ =~= seq!['\n']);
    }
    join_with(pieces, "\n")
}

/// The 0-based indices, among the first `n` lines, of every line that
/// contains the marker, in ascending order.
pub open spec fn spec_marked(lines: Seq<Seq<char>>, marker: Seq<char>, n: int) -> Seq<usize>
    decreases n,
{
    if n <= 0 {
        Seq::empty()
    } else {
        spec_marked(lines, marker, n - 1) + (if contains_seq(lines[n - 1], marker) {
            seq![(n - 1) as usize]
        } else {
            Seq::empty()
        })
    }
}

/// The 0-based indices of every line that contains the marker, in ascending
/// order.
pub fn marker_lines(lines: &Vec<String>, marker: &str) -> (r: Vec<usize>)
    ensures
        r@ == spec_marked(lines.deep_view(), marker@, lines.deep_view().len() as int),
{
    let ghost lv = lines.deep_view();
    let mut r: Vec<usize> = Vec::new();
    let mut i: usize = 0;
    while i < lines.len()
        invariant
            lv == lines.deep_view(),
            i <= lv.len(),
            lv.len() == lines.len(),
            r@ == spec_marked(lv, marker@, i as int),
        decreases lv.len() - i,
    {
        if contains_str(lines[i].as_str(), marker) {
            r.push(i);
            proof {
                assert(r@ =~= spec_marked(lv, marker@, i + 1));
            }
        } else {
            proof {
                assert(r@ =~= spec_marked(lv, marker@, i + 1));
            }
        }
        i += 1;
    }
    r
}

/// The first `n` lines rebuilt: a selected line is replaced by the whole
/// replacement block, every other line is kept verbatim, in order.
pub open spec fn spec_splice(
    lines: Seq<Seq<char>>,
    block: Seq<Seq<char>>,
    sel: Seq<usize>,
    n: int,
) -> Seq<Seq<char>>
    decreases n,
{
    if n <= 0 {
        Seq::empty()
    } else {
        spec_splice(lines, block, sel, n - 1) + (if sel.contains((n - 1) as usize) {
            block
        } else {
            seq![lines[n - 1]]
        })
    }
}

/// Whether the vector holds the value.
fn contains_usize(v: &Vec<usize>, x: usize) -> (r: bool)
    ensures
        r == v@.contains(x),
{
    let mut i: usize = 0;
    while i < v.len()
        invariant
            i <= v@.len(),
            v@.len() == v.len(),
            forall|k: int| 0 <= k < i ==> v@[k] != x,
        decreases v@.len() - i,
    {
        if v[i] == x {
            return true;
        }
        i += 1;
    }
    proof {
        if v@.contains(x) {
            let k = choose|k: int| 0 <= k < v@.len() && v@[k] == x;
        }
    }
    false
}

/// Rebuilds the lines: every line whose index is selected is replaced by the
/// whole replacement block, every other line is kept verbatim, in order.
pub fn splice_lines(lines: &Vec<String>, block: &Vec<String>, selected: &Vec<usize>) -> (r: Vec<
    String,
>)
    ensures
        r.deep_view() == spec_splice(
            lines.deep_view(),
            block.deep_view(),
            selected@,
            lines.deep_view().len() as int,
        ),
{
    let ghost lv = lines.deep_view();
    let ghost bv = block.deep_view();
    let mut out: Vec<String> = Vec::new();
    let mut i: usize = 0;
    while i < lines.len()
        invariant
            lv == lines.deep_view(),
            bv == block.deep_view(),
            i <= lv.len(),
            lv.len() == lines.len(),
            bv.len() == block.len(),
            out.deep_view() == spec_splice(lv, bv, selected@, i as int),
        decreases lv.len() - i,
    {
        if contains_usize(selected, i) {
            let mut j: usize = 0;
            while j < block.len()
                invariant
                    bv == block.deep_view(),
                    j <= bv.len(),
                    bv.len() == block.len(),
                    out.deep_view() =~= spec_splice(lv, bv, selected@, i as int) + bv.take(
                        j as int,
                    ),
                decreases bv.len() - j,
            {
                let ghost pre = out.deep_view();
                out.push(block[j].clone());
                proof {
                    assert(out.deep_view() =~= pre.push(bv[j as int]));
                    assert(bv.take(j + 1) =~= bv.take(j as int).push(bv[j as int]));
                    assert((spec_splice(lv, bv, selected@, i as int) + bv.take(j as int)).push(
                        bv[j as int],
                    ) =~= spec_splice(lv, bv, selected@, i as int) + bv.take(j + 1));
                }
                j += 1;
            }
            proof {
                assert(bv.take(bv.len() as int) =~= bv);
                assert(out.deep_view() =~= spec_splice(lv, bv, selected@, i + 1));
            }
        } else {
            out.push(lines[i].clone());
            proof {
                assert(out.deep_view() =~= spec_splice(lv, bv, selected@, i + 1));
            }
        }
        i += 1;
    }
    out
}

/// The whole marker rewrite: the file's text, with the replacement block in
/// place of each selected line, joined back with `\n`.
pub open spec fn spec_marker_rewrite(
    file: Seq<char>,
    block: Seq<char>,
    sel: Seq<usize>,
) -> Seq<char> {
    spec_join(
        spec_splice(spec_split(file), spec_split(block), sel, spec_split(file).len() as int),
        seq!['\n'],
    )
}

/// Rewrites a file's text around its marker lines: every line whose 0-based
/// index is selected is replaced by the content's lines, every other line is
/// kept verbatim and in order. The caller chooses the selection, normally
/// from `marker_lines`.
pub fn find_markers(content: &str, file_text: &str, selected: &Vec<usize>) -> (r: String)
    ensures
        r@ == spec_marker_rewrite(file_text@, content@, selected@),
{
    let lines = split_lines(file_text);
    let block = split_lines(content);
    let spliced = splice_lines(&lines, &block, selected);
    proof {
        reveal_strlit("\n");
        assert("\n"@ =~= seq!['\n']);
    }
    join_with(&spliced, "\n")
}

/// Selecting no line leaves every line in place.
proof fn lemma_splice_empty(lines: Seq<Seq<char>>, block: Seq<Seq<char>>, sel: Seq<usize>, n: int)
    requires
        sel.len() == 0,
        0 <= n <= lines.len(),
    ensures
        spec_splice(lines, block, sel, n) == lines.take(n),
    decreases n,
{
    if n <= 0 {
        assert(lines.take(0) =~= Seq::<Seq<char>>::empty());
    } else {
        lemma_splice_empty(lines, block, sel, n - 1);
        assert(!sel.contains((n - 1) as usize));
        assert(lines.take(n - 1).push(lines[n - 1]) =~= lines.take(n));
        assert(spec_splice(lines, block, sel, n) =~= lines.take(n - 1) + seq![lines[n - 1]]);
        assert(lines.take(n - 1) + seq![lines[n - 1]] =~= lines.take(n));
    }
}

/// A marker rewrite that selects no line returns the file byte for byte,
/// whatever the content.
pub proof fn lemma_rewrite_selects_nothing(file: Seq<char>, block: Seq<char>, sel: Seq<usize>)
    requires
        sel.len() == 0,
    ensures
        spec_marker_rewrite(file, block, sel) == file,
{
    let lines = spec_split(file);
    lemma_splice_empty(lines, spec_split(block), sel, lines.len() as int);
    assert(lines.take(lines.len() as int) =~= lines);
    lemma_split_then_join(file);
}

} // verus!
