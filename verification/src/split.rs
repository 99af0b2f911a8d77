//! Splitting and stripping text: `split`, `split_once`, `lines`,
//! `trim_matches` and `trim_start_matches`, over character sequences.

use vstd::prelude::*;

use crate::text::{find_from, lemma_find_seq, occurs_at, find_seq, slice_range};

verus! {

/// The texts of a list of character vectors.
pub open spec fn pieces_view(v: Seq<Vec<char>>) -> Seq<Seq<char>> {
    v.map_values(|x: Vec<char>| x@)
}

/// `s` without the leading characters equal to `c`.
pub open spec fn strip_start_char(s: Seq<char>, c: char) -> Seq<char>
    decreases s.len(),
{
    if s.len() > 0 && s[0] == c {
        strip_start_char(s.drop_first(), c)
    } else {
        s
    }
}

/// `s` without the trailing characters equal to `c`.
pub open spec fn strip_end_char(s: Seq<char>, c: char) -> Seq<char>
    decreases s.len(),
{
    if s.len() > 0 && s.last() == c {
        strip_end_char(s.drop_last(), c)
    } else {
        s
    }
}

/// `s` without leading and trailing `c` (`str::trim_matches`).
pub open spec fn trim_matches_seq(s: Seq<char>, c: char) -> Seq<char> {
    strip_end_char(strip_start_char(s, c), c)
}

/// The bounds of `v` without leading and trailing `c`.
fn char_bounds(v: &[char], c: char, from_start: bool, from_end: bool) -> (r: (usize, usize))
    ensures
        r.0 <= r.1 <= v@.len(),
        v@.subrange(r.0 as int, r.1 as int) == if from_start && from_end {
            trim_matches_seq(v@, c)
        } else if from_start {
            strip_start_char(v@, c)
        } else if from_end {
            strip_end_char(v@, c)
        } else {
            v@
        },
{
    let n = v.len();
    let mut i: usize = 0;
    assert(v@.skip(0) =~= v@);
    if from_start {
        while i < n && v[i] == c
            invariant
                n == v@.len(),
                i <= n,
                strip_start_char(v@, c) == strip_start_char(v@.skip(i as int), c),
            decreases n - i,
        {
            assert(v@.skip(i as int).drop_first() =~= v@.skip(i + 1));
            i = i + 1;
        }
    }
    let ghost s = v@.skip(i as int);
    let mut j: usize = n;
    assert(s.take((j - i) as int) =~= s);
    if from_end {
        while j > i && v[j - 1] == c
            invariant
                i <= j <= n,
                n == v@.len(),
                s == v@.skip(i as int),
                strip_end_char(s, c) == strip_end_char(s.take((j - i) as int), c),
            decreases j,
        {
            assert(s.take((j - i) as int).drop_last() =~= s.take((j - 1 - i) as int));
            j = j - 1;
        }
    }
    assert(v@.subrange(i as int, j as int) =~= s.take((j - i) as int));
    (i, j)
}

/// `v` without leading and trailing `c`.
pub fn trim_matches(v: &[char], c: char) -> (r: Vec<char>)
    ensures
        r@ == trim_matches_seq(v@, c),
{
    let (i, j) = char_bounds(v, c, true, true);
    slice_range(v, i, j)
}

/// `v` without leading `c` (`trim_start_matches` with a character).
pub fn trim_start_char(v: &[char], c: char) -> (r: Vec<char>)
    ensures
        r@ == strip_start_char(v@, c),
{
    let (i, j) = char_bounds(v, c, true, false);
    slice_range(v, i, j)
}

/// `v` without trailing `c` (`trim_end_matches` with a character).
pub fn trim_end_char(v: &[char], c: char) -> (r: Vec<char>)
    ensures
        r@ == strip_end_char(v@, c),
{
    let (i, j) = char_bounds(v, c, false, true);
    slice_range(v, i, j)
}

/// `s` with every leading copy of `p` removed (`trim_start_matches` with a
/// text).
pub open spec fn strip_prefix_all(s: Seq<char>, p: Seq<char>) -> Seq<char>
    decreases s.len(),
{
    if p.len() > 0 && s.len() >= p.len() && s.take(p.len() as int) == p {
        strip_prefix_all(s.skip(p.len() as int), p)
    } else {
        s
    }
}

/// `v` with every leading copy of `p` removed.
pub fn trim_start_text(v: &[char], p: &[char]) -> (r: Vec<char>)
    ensures
        r@ == strip_prefix_all(v@, p@),
{
    let n = v.len();
    let mut i: usize = 0;
    assert(v@.skip(0) =~= v@);
    if p.len() > 0 {
        while i < n && crate::text::occurs_at_exec(v, p, i)
            invariant
                n == v@.len(),
                i <= n,
                p@.len() > 0,
                strip_prefix_all(v@, p@) == strip_prefix_all(v@.skip(i as int), p@),
            decreases n - i,
        {
            assert(v@.skip(i as int).take(p@.len() as int) =~= v@.subrange(
                i as int,
                i + p@.len(),
            ));
            assert(v@.skip(i as int).skip(p@.len() as int) =~= v@.skip(i + p@.len()));
            i = i + p.len();
        }
        if i < n {
            assert(!(v@.skip(i as int).len() >= p@.len() && v@.skip(i as int).take(
                p@.len() as int,
            ) == p@)) by {
                if v@.skip(i as int).len() >= p@.len() {
                    assert(v@.skip(i as int).take(p@.len() as int) =~= v@.subrange(
                        i as int,
                        i + p@.len(),
                    ));
                }
            }
        }
    }
    let r = slice_range(v, i, n);
    assert(r@ =~= v@.skip(i as int));
    r
}

/// The pieces of `s` between the characters `c` (`str::split` with a
/// character): one more piece than there are `c`.
pub open spec fn split_char_seq(s: Seq<char>, c: char) -> Seq<Seq<char>>
    decreases s.len(),
{
    if s.len() == 0 {
        seq![Seq::<char>::empty()]
    } else {
        let p = split_char_seq(s.drop_last(), c);
        if s.last() == c {
            p.push(Seq::empty())
        } else {
            p.update(p.len() - 1, p.last().push(s.last()))
        }
    }
}

/// `split_char_seq` always has a piece.
pub proof fn lemma_split_char_len(s: Seq<char>, c: char)
    ensures
        split_char_seq(s, c).len() >= 1,
    decreases s.len(),
{
    if s.len() > 0 {
        lemma_split_char_len(s.drop_last(), c);
    }
}

/// The pieces of `v` between the characters `c`.
pub fn split_char(v: &[char], c: char) -> (r: Vec<Vec<char>>)
    ensures
        pieces_view(r@) == split_char_seq(v@, c),
{
    let mut out: Vec<Vec<char>> = Vec::new();
    let mut cur: Vec<char> = Vec::new();
    let mut i: usize = 0;
    assert(v@.take(0) =~= Seq::<char>::empty());
    assert(pieces_view(out@).push(cur@) =~= split_char_seq(v@.take(0), c));
    while i < v.len()
        invariant
            i <= v@.len(),
            pieces_view(out@).push(cur@) == split_char_seq(v@.take(i as int), c),
        decreases v@.len() - i,
    {
        let ghost before = pieces_view(out@).push(cur@);
        assert(v@.take(i + 1).drop_last() =~= v@.take(i as int));
        assert(v@.take(i + 1).last() == v@[i as int]);
        proof {
            lemma_split_char_len(v@.take(i as int), c);
        }
        if v[i] == c {
            let done = cur;
            out.push(done);
            cur = Vec::new();
            assert(pieces_view(out@).push(cur@) =~= before.push(Seq::empty()));
        } else {
            cur.push(v[i]);
            assert(pieces_view(out@).push(cur@) =~= before.update(
                before.len() - 1,
                before.last().push(v@[i as int]),
            ));
        }
        i = i + 1;
    }
    assert(v@.take(i as int) =~= v@);
    let ghost before = pieces_view(out@);
    out.push(cur);
    assert(pieces_view(out@) =~= before.push(cur@));
    out
}

/// `s` up to the first `c`, or all of `s` (`split(c).next()`).
pub open spec fn before_char(s: Seq<char>, c: char) -> Seq<char> {
    split_char_seq(s, c)[0]
}

/// `line` without one trailing carriage return.
pub open spec fn strip_cr(line: Seq<char>) -> Seq<char> {
    if line.len() > 0 && line.last() == '\r' {
        line.drop_last()
    } else {
        line
    }
}

/// The lines of `s` (`str::lines`): the pieces between line feeds, with no
/// piece after a final line feed, and a carriage return before a line feed
/// dropped.
pub open spec fn lines_seq(s: Seq<char>) -> Seq<Seq<char>> {
    let p = split_char_seq(s, '\n');
    if s.len() == 0 || s.last() == '\n' {
        Seq::new((p.len() - 1) as nat, |i: int| strip_cr(p[i]))
    } else {
        Seq::new(p.len(), |i: int| if i < p.len() - 1 { strip_cr(p[i]) } else { p[i] })
    }
}

/// The lines of `v`.
pub fn lines(v: &[char]) -> (r: Vec<Vec<char>>)
    ensures
        pieces_view(r@) == lines_seq(v@),
{
    let parts = split_char(v, '\n');
    let ghost p = split_char_seq(v@, '\n');
    proof {
        lemma_split_char_len(v@, '\n');
    }
    let ends = v.len() == 0 || v[v.len() - 1] == '\n';
    let count = if ends {
        parts.len() - 1
    } else {
        parts.len()
    };
    let mut out: Vec<Vec<char>> = Vec::new();
    let mut i: usize = 0;
    while i < count
        invariant
            i <= count,
            count <= parts@.len(),
            pieces_view(parts@) == p,
            p == split_char_seq(v@, '\n'),
            ends == (v@.len() == 0 || v@.last() == '\n'),
            count == if ends { p.len() - 1 } else { p.len() as int },
            pieces_view(out@) == lines_seq(v@).take(i as int),
        decreases count - i,
    {
        let piece = &parts[i];
        assert(piece@ == p[i as int]);
        let keep_cr = !ends && i == parts.len() - 1;
        let n = piece.len();
        let line = if !keep_cr && n > 0 && piece[n - 1] == '\r' {
            slice_range(piece.as_slice(), 0, n - 1)
        } else {
            slice_range(piece.as_slice(), 0, n)
        };
        assert(piece@.subrange(0, n as int) =~= piece@);
        assert(piece@.subrange(0, n - 1) =~= piece@.drop_last());
        let ghost before = pieces_view(out@);
        assert(lines_seq(v@).len() == count);
        assert(line@ == lines_seq(v@)[i as int]);
        out.push(line);
        assert(pieces_view(out@) =~= before.push(line@));
        assert(lines_seq(v@).take(i + 1) =~= lines_seq(v@).take(i as int).push(lines_seq(v@)[i as int]));
        i = i + 1;
    }
    assert(lines_seq(v@).take(i as int) =~= lines_seq(v@));
    out
}

/// The pieces of `s` between the non-overlapping occurrences of `p`, scanned
/// from the left (`str::split` with a text).
pub open spec fn split_text_seq(s: Seq<char>, p: Seq<char>) -> Seq<Seq<char>>
    decreases s.len(),
{
    if p.len() == 0 {
        seq![s]
    } else {
        match find_seq(s, p) {
            None => seq![s],
            Some(i) => {
                if 0 <= i && i + p.len() <= s.len() {
                    seq![s.take(i)] + split_text_seq(s.skip(i + p.len()), p)
                } else {
                    seq![s]
                }
            },
        }
    }
}

/// The pieces of `v` between the occurrences of `p`.
pub fn split_text(v: &[char], p: &[char]) -> (r: Vec<Vec<char>>)
    requires
        p@.len() > 0,
    ensures
        pieces_view(r@) == split_text_seq(v@, p@),
{
    let mut out: Vec<Vec<char>> = Vec::new();
    let mut start: usize = 0;
    assert(v@.skip(0) =~= v@);
    while start <= v.len()
        invariant
            p@.len() > 0,
            start <= v@.len(),
            pieces_view(out@) + split_text_seq(v@.skip(start as int), p@) == split_text_seq(v@, p@),
        decreases v@.len() + 1 - start,
    {
        let ghost rest = v@.skip(start as int);
        proof {
            lemma_find_seq(rest, p@);
        }
        let ghost before = pieces_view(out@);
        match find_from(v, p, start) {
            Some(i) => {
                proof {
                    assert(occurs_at(rest, p@, i - start)) by {
                        assert(rest.subrange(i - start, i - start + p@.len()) =~= v@.subrange(
                            i as int,
                            i + p@.len(),
                        ));
                    }
                    assert forall|j: int| 0 <= j < i - start implies !occurs_at(rest, p@, j) by {
                        assert(!occurs_at(v@, p@, start + j));
                        if occurs_at(rest, p@, j) {
                            assert(rest.subrange(j, j + p@.len()) =~= v@.subrange(
                                start + j,
                                start + j + p@.len(),
                            ));
                        }
                    }
                    assert(find_seq(rest, p@) == Some(i - start)) by {
                        match find_seq(rest, p@) {
                            Some(f) => {
                                if f < i - start {
                                } else if f > i - start {
                                }
                            },
                            None => {},
                        }
                    }
                }
                let piece = slice_range(v, start, i);
                assert(piece@ =~= rest.take(i - start));
                assert(rest.skip(i - start + p@.len()) =~= v@.skip(i + p@.len()));
                out.push(piece);
                assert(pieces_view(out@) =~= before.push(rest.take(i - start)));
                assert(pieces_view(out@) + split_text_seq(v@.skip(i + p@.len()), p@) =~= before
                    + split_text_seq(rest, p@));
                start = i + p.len();
            },
            None => {
                proof {
                    assert(find_seq(rest, p@) is None) by {
                        match find_seq(rest, p@) {
                            Some(f) => {
                                assert(!occurs_at(v@, p@, start + f));
                                assert(rest.subrange(f, f + p@.len()) =~= v@.subrange(
                                    start + f,
                                    start + f + p@.len(),
                                ));
                            },
                            None => {},
                        }
                    }
                }
                let piece = slice_range(v, start, v.len());
                assert(piece@ =~= rest);
                out.push(piece);
                assert(pieces_view(out@) =~= before + split_text_seq(rest, p@));
                return out;
            },
        }
    }
    out
}

/// The first index of `c` in `s`.
pub open spec fn char_index(s: Seq<char>, c: char) -> Option<int> {
    find_seq(s, seq![c])
}

/// `s` split at the first `c`, without it (`str::split_once` with a
/// character).
pub open spec fn split_once_seq(s: Seq<char>, c: char) -> Option<(Seq<char>, Seq<char>)> {
    match char_index(s, c) {
        Some(i) => Some((s.take(i), s.skip(i + 1))),
        None => None,
    }
}

/// `v` split at the first `c`.
pub fn split_once(v: &[char], c: char) -> (r: Option<(Vec<char>, Vec<char>)>)
    ensures
        match split_once_seq(v@, c) {
            Some((a, b)) => r matches Some(x) && x.0@ == a && x.1@ == b,
            None => r is None,
        },
{
    let pat: [char; 1] = [c];
    assert(pat@ =~= seq![c]);
    assert(seq![c].len() == 1);
    proof {
        lemma_find_seq(v@, seq![c]);
    }
    match crate::text::find(v, pat.as_slice()) {
        Some(i) => {
            assert(occurs_at(v@, seq![c], i as int));
            let n = v.len();
            assert(i + 1 <= n);
            let a = slice_range(v, 0, i);
            let b = slice_range(v, i + 1, n);
            assert(a@ =~= v@.take(i as int));
            assert(b@ =~= v@.skip(i + 1));
            Some((a, b))
        },
        None => None,
    }
}

} // verus!
