//! Reading official policy templates: the simple YAML of Chromium policy
//! definitions, the ADMX/ADML files of Brave, descriptions cleaned of
//! markup, and the remote catalog built from them.

use vstd::prelude::*;

use crate::catalog::{contains_text, opt_policy, text_pair, RemoteCatalog, RemotePolicy, RemotePolicyV};
use crate::domain::Browser;
use crate::keymap::{lookup, pget, KeyMap};
use crate::split::{
    before_char, lines, lines_seq, pieces_view, split_char, split_char_seq, split_once,
    split_once_seq, split_text, split_text_seq, strip_end_char, strip_prefix_all, strip_start_char, trim_end_char,
    trim_matches, trim_matches_seq, trim_start_char, trim_start_text,
};
use crate::state::opt_view;
use crate::text::{
    append_chars, chars_of, join_seq, occurs_at_exec, same_chars, slice_range, starts_with_seq,
    contains_seq, copy_string, find_seq, owned, lemma_replace_shorter, replace, replace_seq, string_of, trim, trim_end,
    trim_end_seq, trim_seq, trim_start, trim_start_seq,
};

verus! {

// ---------------------------------------------------------------------------
// Simple YAML
// ---------------------------------------------------------------------------

/// Whether a line is a list item: `- ` after its indentation.
pub open spec fn is_dash_item(line: Seq<char>) -> bool {
    starts_with_seq(trim_start_seq(line), seq!['-', ' '])
}

/// Trimmed, then without surrounding double and then single quotes.
pub open spec fn clean_item(x: Seq<char>) -> Seq<char> {
    trim_matches_seq(trim_matches_seq(trim_seq(x), '"'), '\'')
}

/// The text of a list item line under an empty value.
pub open spec fn dash_item(line: Seq<char>) -> Seq<char> {
    clean_item(trim_start_seq(line).skip(2))
}

/// The text of a list item line that continues an inline list item.
pub open spec fn dash_item_dq(line: Seq<char>) -> Seq<char> {
    trim_matches_seq(trim_seq(trim_start_seq(line).skip(2)), '"')
}

/// The number of consecutive list item lines from line `j`.
pub open spec fn dash_run_len(ls: Seq<Seq<char>>, j: int) -> nat
    decreases ls.len() - j,
{
    if 0 <= j < ls.len() && is_dash_item(ls[j]) {
        1 + dash_run_len(ls, j + 1)
    } else {
        0
    }
}

pub proof fn lemma_dash_run_len(ls: Seq<Seq<char>>, j: int)
    requires
        0 <= j <= ls.len(),
    ensures
        j + dash_run_len(ls, j) <= ls.len(),
    decreases ls.len() - j,
{
    if j < ls.len() && is_dash_item(ls[j]) {
        lemma_dash_run_len(ls, j + 1);
    }
}

/// Whether a line belongs to a block scalar: indented or blank.
pub open spec fn is_block_line(line: Seq<char>) -> bool {
    (line.len() > 0 && line[0] == ' ') || trim_seq(line).len() == 0
}

/// The number of consecutive block lines from line `j`.
pub open spec fn block_len(ls: Seq<Seq<char>>, j: int) -> nat
    decreases ls.len() - j,
{
    if 0 <= j < ls.len() && is_block_line(ls[j]) {
        1 + block_len(ls, j + 1)
    } else {
        0
    }
}

pub proof fn lemma_block_len(ls: Seq<Seq<char>>, j: int)
    requires
        0 <= j <= ls.len(),
    ensures
        j + block_len(ls, j) <= ls.len(),
    decreases ls.len() - j,
{
    if j < ls.len() && is_block_line(ls[j]) {
        lemma_block_len(ls, j + 1);
    }
}

/// The block scalar markers.
pub open spec fn is_block_marker(r: Seq<char>) -> bool {
    ||| r == seq!['|']
    ||| r == seq!['|', '-']
    ||| r == seq!['|', '+']
    ||| r == seq!['>']
    ||| r == seq!['>', '-']
}

/// The non-empty texts of `s`, in order.
pub open spec fn nonempty_texts(s: Seq<Seq<char>>) -> Seq<Seq<char>>
    decreases s.len(),
{
    if s.len() == 0 {
        s
    } else if s.last().len() == 0 {
        nonempty_texts(s.drop_last())
    } else {
        nonempty_texts(s.drop_last()).push(s.last())
    }
}

/// The items of an inline list `[a, b, ...]`.
pub open spec fn flow_items(rest: Seq<char>) -> Seq<Seq<char>> {
    let pieces = split_char_seq(strip_end_char(strip_start_char(rest, '['), ']'), ',');
    nonempty_texts(Seq::new(pieces.len(), |m: int| clean_item(pieces[m])))
}

/// A plain value: the text before a `#` comment, cleaned.
pub open spec fn scalar_text(rest: Seq<char>) -> Seq<char> {
    clean_item(before_char(rest, '#'))
}

/// The comma.
pub open spec fn comma() -> Seq<char> {
    seq![',']
}

/// The entries of the lines from `i` on: each top-level `key: value` line
/// gives an entry; an empty value followed by list items, a block marker
/// followed by indented lines, an inline list, or an inline item followed by
/// more items gather those lines; comments, blank and indented lines and
/// lines without a colon are passed over.
pub open spec fn yaml_from(ls: Seq<Seq<char>>, i: int) -> Seq<(Seq<char>, Seq<char>)>
    decreases ls.len() - i,
{
    if i < 0 || i >= ls.len() {
        Seq::empty()
    } else {
        let line = ls[i];
        if trim_seq(line).len() == 0 || starts_with_seq(trim_start_seq(line), seq!['#'])
            || trim_start_seq(line).len() < line.len() {
            yaml_from(ls, i + 1)
        } else {
            match split_once_seq(line, ':') {
                None => yaml_from(ls, i + 1),
                Some((k, r)) => {
                    let key = trim_seq(k);
                    let rest = trim_seq(r);
                    if rest.len() == 0 && i + 1 < ls.len() && is_dash_item(ls[i + 1]) {
                        let n = dash_run_len(ls, i + 1);
                        proof {
                            lemma_dash_run_len(ls, i + 1);
                        }
                        let items = Seq::new(n, |m: int| dash_item(ls[i + 1 + m]));
                        seq![(key, join_seq(items, comma()))] + yaml_from(ls, i + 1 + n)
                    } else if is_block_marker(rest) {
                        let n = block_len(ls, i + 1);
                        proof {
                            lemma_block_len(ls, i + 1);
                        }
                        seq![
                            (key, trim_end_seq(join_seq(ls.subrange(i + 1, i + 1 + n), seq!['\n']))),
                        ] + yaml_from(ls, i + 1 + n)
                    } else if starts_with_seq(rest, seq!['[']) {
                        seq![(key, join_seq(flow_items(rest), comma()))] + yaml_from(ls, i + 1)
                    } else if starts_with_seq(rest, seq!['-', ' ']) {
                        let n = dash_run_len(ls, i + 1);
                        proof {
                            lemma_dash_run_len(ls, i + 1);
                        }
                        let first = trim_matches_seq(strip_prefix_all(rest, seq!['-', ' ']), '"');
                        let items = seq![first] + Seq::new(n, |m: int| dash_item_dq(ls[i + 1 + m]));
                        seq![(key, join_seq(items, comma()))] + yaml_from(ls, i + 1 + n)
                    } else {
                        seq![(key, scalar_text(rest))] + yaml_from(ls, i + 1)
                    }
                },
            }
        }
    }
}

/// The entries of a simple YAML text.
pub open spec fn yaml_entries(text: Seq<char>) -> Seq<(Seq<char>, Seq<char>)> {
    yaml_from(lines_seq(text), 0)
}


/// Whether a line is a list item.
fn is_dash_line(line: &Vec<char>) -> (r: bool)
    ensures
        r == is_dash_item(line@),
{
    let t = trim_start(line.as_slice());
    let pat: [char; 2] = ['-', ' '];
    assert(pat@ =~= seq!['-', ' ']);
    occurs_at_exec(t.as_slice(), pat.as_slice(), 0)
}

/// Trimmed, then without surrounding double and then single quotes.
fn clean(v: &[char]) -> (r: Vec<char>)
    ensures
        r@ == clean_item(v@),
{
    let t = trim(v);
    let a = trim_matches(t.as_slice(), '"');
    trim_matches(a.as_slice(), '\'')
}

/// `v` from index 2 on (`v` has at least two characters).
fn skip_two(v: &Vec<char>) -> (r: Vec<char>)
    requires
        v@.len() >= 2,
    ensures
        r@ == v@.skip(2),
{
    let r = slice_range(v.as_slice(), 2, v.len());
    assert(r@ =~= v@.skip(2));
    r
}

/// The item text of a list item line.
fn dash_item_text(line: &Vec<char>, double_only: bool) -> (r: String)
    requires
        is_dash_item(line@),
    ensures
        r@ == if double_only {
            dash_item_dq(line@)
        } else {
            dash_item(line@)
        },
{
    let t = trim_start(line.as_slice());
    let rest = skip_two(&t);
    if double_only {
        let a = trim(rest.as_slice());
        let b = trim_matches(a.as_slice(), '"');
        string_of(b.as_slice())
    } else {
        let c = clean(rest.as_slice());
        string_of(c.as_slice())
    }
}

/// Whether a line belongs to a block scalar.
fn is_block_text(line: &Vec<char>) -> (r: bool)
    ensures
        r == is_block_line(line@),
{
    let t = trim(line.as_slice());
    (line.len() > 0 && line[0] == ' ') || t.len() == 0
}

/// Whether `v` spells one of the block scalar markers.
fn block_marker(v: &Vec<char>) -> (r: bool)
    ensures
        r == is_block_marker(v@),
{
    let n = v.len();
    let r = (n == 1 && (v[0] == '|' || v[0] == '>')) || (n == 2 && ((v[0] == '|' && (v[1] == '-'
        || v[1] == '+')) || (v[0] == '>' && v[1] == '-')));
    assert(r == is_block_marker(v@)) by {
        if n == 1 {
            assert(v@ =~= seq![v@[0]]);
        } else if n == 2 {
            assert(v@ =~= seq![v@[0], v@[1]]);
        }
    }
    r
}

/// The text of list item line `m`, cleaned of double quotes only or of both
/// kinds of quotes.
pub open spec fn item_text(ls: Seq<Seq<char>>, m: int, double_only: bool) -> Seq<char> {
    if double_only {
        dash_item_dq(ls[m])
    } else {
        dash_item(ls[m])
    }
}

/// The consecutive list items from line `j` on, and the line after them.
fn collect_items(ls: &Vec<Vec<char>>, j: usize, first: Option<String>, double_only: bool) -> (r: (
    Vec<String>,
    usize,
))
    requires
        j <= ls@.len(),
    ensures
        r.1 == j + dash_run_len(pieces_view(ls@), j as int),
        r.1 <= ls@.len(),
        r.0.deep_view() == match first {
            Some(f) => seq![f@],
            None => Seq::<Seq<char>>::empty(),
        } + Seq::new(
            dash_run_len(pieces_view(ls@), j as int),
            |m: int| item_text(pieces_view(ls@), j + m, double_only),
        ),
{
    let ghost L = pieces_view(ls@);
    let ghost head = match &first {
        Some(f) => seq![f@],
        None => Seq::<Seq<char>>::empty(),
    };
    let mut items: Vec<String> = Vec::new();
    match first {
        Some(f) => {
            items.push(f);
        },
        None => {},
    }
    assert(items.deep_view() =~= head);
    let mut k = j;
    while k < ls.len() && is_dash_line(&ls[k])
        invariant
            j <= k <= ls@.len(),
            L == pieces_view(ls@),
            dash_run_len(L, j as int) == (k - j) + dash_run_len(L, k as int),
            items.deep_view() == head + Seq::new((k - j) as nat, |m: int| item_text(L, j + m, double_only)),
        decreases ls@.len() - k,
    {
        assert(L[k as int] == ls@[k as int]@);
        let t = dash_item_text(&ls[k], double_only);
        let ghost before = items.deep_view();
        assert(t@ == item_text(L, k as int, double_only));
        items.push(t);
        assert(items.deep_view() =~= before.push(item_text(L, k as int, double_only)));
        assert(head + Seq::new((k + 1 - j) as nat, |m: int| item_text(L, j + m, double_only)) =~= (
        head + Seq::new((k - j) as nat, |m: int| item_text(L, j + m, double_only))).push(
            item_text(L, k as int, double_only),
        ));
        k = k + 1;
    }
    if k < ls.len() {
        assert(L[k as int] == ls@[k as int]@);
    }
    (items, k)
}

/// The block lines from line `j` on joined with line feeds, and the line
/// after them.
fn collect_block(ls: &Vec<Vec<char>>, j: usize) -> (r: (Vec<char>, usize))
    requires
        j <= ls@.len(),
    ensures
        r.1 == j + block_len(pieces_view(ls@), j as int),
        r.1 <= ls@.len(),
        r.0@ == join_seq(pieces_view(ls@).subrange(j as int, r.1 as int), seq!['\n']),
{
    let ghost L = pieces_view(ls@);
    let mut out: Vec<char> = Vec::new();
    let mut k = j;
    assert(L.subrange(j as int, j as int) =~= Seq::<Seq<char>>::empty());
    while k < ls.len() && is_block_text(&ls[k])
        invariant
            j <= k <= ls@.len(),
            L == pieces_view(ls@),
            block_len(L, j as int) == (k - j) + block_len(L, k as int),
            out@ == join_seq(L.subrange(j as int, k as int), seq!['\n']),
        decreases ls@.len() - k,
    {
        assert(L[k as int] == ls@[k as int]@);
        if k > j {
            out.push('\n');
        }
        append_chars(&mut out, ls[k].as_slice());
        assert(L.subrange(j as int, k + 1).drop_last() =~= L.subrange(j as int, k as int));
        assert(out@ =~= join_seq(L.subrange(j as int, k + 1), seq!['\n']));
        k = k + 1;
    }
    if k < ls.len() {
        assert(L[k as int] == ls@[k as int]@);
    }
    (out, k)
}

/// The non-empty texts of `v`.
fn keep_nonempty(v: &Vec<Vec<char>>) -> (r: Vec<String>)
    ensures
        r.deep_view() == nonempty_texts(pieces_view(v@)),
{
    let ghost P = pieces_view(v@);
    let mut out: Vec<String> = Vec::new();
    let mut i: usize = 0;
    assert(P.take(0) =~= Seq::<Seq<char>>::empty());
    assert(out.deep_view() =~= Seq::<Seq<char>>::empty());
    while i < v.len()
        invariant
            i <= v@.len(),
            P == pieces_view(v@),
            out.deep_view() == nonempty_texts(P.take(i as int)),
        decreases v@.len() - i,
    {
        assert(P.take(i + 1).drop_last() =~= P.take(i as int));
        assert(P.take(i + 1).last() == v@[i as int]@);
        if v[i].len() > 0 {
            let ghost before = out.deep_view();
            out.push(string_of(v[i].as_slice()));
            assert(out.deep_view() =~= before.push(v@[i as int]@));
        }
        i = i + 1;
    }
    assert(P.take(i as int) =~= P);
    out
}

/// The items of an inline list.
fn flow_list(rest: &Vec<char>) -> (r: Vec<String>)
    ensures
        r.deep_view() == flow_items(rest@),
{
    let a = trim_start_char(rest.as_slice(), '[');
    let b = trim_end_char(a.as_slice(), ']');
    let pieces = split_char(b.as_slice(), ',');
    let ghost P = pieces_view(pieces@);
    let mut cleaned: Vec<Vec<char>> = Vec::new();
    let mut i: usize = 0;
    while i < pieces.len()
        invariant
            i <= pieces@.len(),
            P == pieces_view(pieces@),
            pieces_view(cleaned@) == Seq::new(i as nat, |m: int| clean_item(P[m])),
        decreases pieces@.len() - i,
    {
        assert(P[i as int] == pieces@[i as int]@);
        let c = clean(pieces[i].as_slice());
        let ghost before = pieces_view(cleaned@);
        assert(c@ == clean_item(P[i as int]));
        cleaned.push(c);
        assert(pieces_view(cleaned@) =~= before.push(clean_item(P[i as int])));
        assert(pieces_view(cleaned@) =~= Seq::new((i + 1) as nat, |m: int| clean_item(P[m])));
        i = i + 1;
    }
    keep_nonempty(&cleaned)
}

/// The text joined with commas.
fn comma_join(items: &Vec<String>) -> (r: String)
    ensures
        r@ == join_seq(items.deep_view(), comma()),
{
    let sep: [char; 1] = [','];
    assert(sep@ =~= comma());
    let j = crate::text::join(items, sep.as_slice());
    string_of(j.as_slice())
}

/// Reads the entries of a simple YAML text (the subset used by Chromium
/// policy definitions); a later entry for a key replaces an earlier one.
pub fn parse_simple_yaml(text: &str) -> (r: KeyMap<String>)
    ensures
        forall|k: Seq<char>| #[trigger] opt_view(r.spec_get(k)) == lookup(yaml_entries(text@), k),
{
    let tc = chars_of(text);
    let ls = lines(tc.as_slice());
    let ghost L = lines_seq(text@);
    let mut result: KeyMap<String> = KeyMap::new();
    let ghost mut acc: Seq<(Seq<char>, Seq<char>)> = Seq::empty();
    let mut i: usize = 0;
    assert(acc + yaml_from(L, 0) =~= yaml_from(L, 0));
    while i < ls.len()
        invariant
            i <= ls@.len(),
            pieces_view(ls@) == L,
            L == lines_seq(text@),
            acc + yaml_from(L, i as int) == yaml_from(L, 0),
            forall|k: Seq<char>| #[trigger] opt_view(result.spec_get(k)) == lookup(acc, k),
        decreases ls@.len() - i,
    {
        let line = &ls[i];
        assert(L[i as int] == line@);
        let t = trim(line.as_slice());
        let ts = trim_start(line.as_slice());
        let hash = ts.len() > 0 && ts[0] == '#';
        assert(hash == starts_with_seq(trim_start_seq(line@), seq!['#'])) by {
            if ts@.len() > 0 {
                if ts@[0] == '#' {
                    assert(ts@.subrange(0, 1) =~= seq!['#']);
                } else {
                    assert(ts@.subrange(0, 1)[0] != seq!['#'][0]);
                }
            }
        }
        if t.len() == 0 || hash || ts.len() < line.len() {
            i = i + 1;
        } else {
            match split_once(line.as_slice(), ':') {
                None => {
                    i = i + 1;
                },
                Some((k, r)) => {
                    let key = trim(k.as_slice());
                    let rest = trim(r.as_slice());
                    let dash_next = i + 1 < ls.len() && is_dash_line(&ls[i + 1]);
                    if i + 1 < ls.len() {
                        assert(L[i + 1] == ls@[i + 1]@);
                    }
                    let entry: (Vec<char>, String);
                    let next: usize;
                    if rest.len() == 0 && dash_next {
                        let (items, e) = collect_items(&ls, i + 1, None, false);
                        assert(items.deep_view() =~= Seq::new(
                            dash_run_len(L, i + 1),
                            |m: int| dash_item(L[i + 1 + m]),
                        ));
                        entry = (key, comma_join(&items));
                        next = e;
                        assert(yaml_from(L, i as int) == seq![(entry.0@, entry.1@)] + yaml_from(L, next as int));
                    } else if block_marker(&rest) {
                        let (b, e) = collect_block(&ls, i + 1);
                        let v = trim_end(b.as_slice());
                        entry = (key, string_of(v.as_slice()));
                        next = e;
                        assert(yaml_from(L, i as int) == seq![(entry.0@, entry.1@)] + yaml_from(L, next as int));
                    } else if rest.len() > 0 && rest[0] == '[' {
                        assert(starts_with_seq(rest@, seq!['['])) by {
                            assert(rest@.subrange(0, 1) =~= seq!['[']);
                        }
                        let items = flow_list(&rest);
                        entry = (key, comma_join(&items));
                        next = i + 1;
                        assert(yaml_from(L, i as int) == seq![(entry.0@, entry.1@)] + yaml_from(L, next as int));
                    } else if rest.len() >= 2 && rest[0] == '-' && rest[1] == ' ' {
                        assert(starts_with_seq(rest@, seq!['-', ' '])) by {
                            assert(rest@.subrange(0, 2) =~= seq!['-', ' ']);
                        }
                        let pat: [char; 2] = ['-', ' '];
                        assert(pat@ =~= seq!['-', ' ']);
                        let f0 = trim_start_text(rest.as_slice(), pat.as_slice());
                        let f1 = trim_matches(f0.as_slice(), '"');
                        let (items, e) = collect_items(&ls, i + 1, Some(string_of(f1.as_slice())), true);
                        assert(items.deep_view() =~= seq![f1@] + Seq::new(
                            dash_run_len(L, i + 1),
                            |m: int| dash_item_dq(L[i + 1 + m]),
                        ));
                        entry = (key, comma_join(&items));
                        next = e;
                        assert(yaml_from(L, i as int) == seq![(entry.0@, entry.1@)] + yaml_from(L, next as int));
                    } else {
                        assert(!starts_with_seq(rest@, seq!['['])) by {
                            if rest@.len() > 0 {
                                assert(rest@.subrange(0, 1)[0] != seq!['['][0]);
                            }
                        }
                        assert(!starts_with_seq(rest@, seq!['-', ' '])) by {
                            if rest@.len() >= 2 {
                                if rest@[0] != '-' {
                                    assert(rest@.subrange(0, 2)[0] != seq!['-', ' '][0]);
                                } else {
                                    assert(rest@.subrange(0, 2)[1] != seq!['-', ' '][1]);
                                }
                            }
                        }
                        let parts = split_char(rest.as_slice(), '#');
                        proof {
                            crate::split::lemma_split_char_len(rest@, '#');
                        }
                        assert(parts@[0]@ == before_char(rest@, '#'));
                        let v = clean(parts[0].as_slice());
                        entry = (key, string_of(v.as_slice()));
                        next = i + 1;
                        assert(yaml_from(L, i as int) == seq![(entry.0@, entry.1@)] + yaml_from(L, next as int));
                    }
                    let ghost ev = (entry.0@, entry.1@);
                    assert(yaml_from(L, i as int) == seq![ev] + yaml_from(L, next as int));
                    assert(acc.push(ev) + yaml_from(L, next as int) =~= acc + (seq![ev]
                        + yaml_from(L, next as int)));
                    let ghost prev = result;
                    result.insert(string_of(entry.0.as_slice()), entry.1);
                    proof {
                        assert forall|q: Seq<char>| #[trigger] opt_view(result.spec_get(q)) == lookup(
                            acc.push(ev),
                            q,
                        ) by {
                            assert(acc.push(ev).drop_last() =~= acc);
                            assert(opt_view(prev.spec_get(q)) == lookup(acc, q));
                        }
                        acc = acc.push(ev);
                    }
                    i = next;
                },
            }
        }
    }
    assert(yaml_from(L, i as int) =~= Seq::<(Seq<char>, Seq<char>)>::empty());
    assert(acc + Seq::<(Seq<char>, Seq<char>)>::empty() =~= acc);
    result
}


// ---------------------------------------------------------------------------
// Descriptions
// ---------------------------------------------------------------------------

/// The position of the first `c` in `v` at or after `pos`, as an offset
/// found in `v[pos..]`.
fn find_char_from(v: &[char], c: char, pos: usize) -> (r: Option<usize>)
    requires
        pos <= v@.len(),
    ensures
        r is Some <==> crate::split::char_index(v@.skip(pos as int), c) is Some,
        r matches Some(x) ==> pos <= x < v@.len() && crate::split::char_index(
            v@.skip(pos as int),
            c,
        ) == Some(x - pos) && v@[x as int] == c,
{
    let pat: [char; 1] = [c];
    assert(pat@ =~= seq![c]);
    let ghost rest = v@.skip(pos as int);
    proof {
        crate::text::lemma_find_seq(rest, seq![c]);
    }
    match crate::text::find_from(v, pat.as_slice(), pos) {
        Some(i) => {
            proof {
                assert(crate::text::occurs_at(rest, seq![c], i - pos)) by {
                    assert(rest.subrange(i - pos, i - pos + 1) =~= v@.subrange(i as int, i + 1));
                }
                assert forall|j: int| 0 <= j < i - pos implies !crate::text::occurs_at(
                    rest,
                    seq![c],
                    j,
                ) by {
                    assert(!crate::text::occurs_at(v@, seq![c], pos + j));
                    if crate::text::occurs_at(rest, seq![c], j) {
                        assert(rest.subrange(j, j + 1) =~= v@.subrange(pos + j, pos + j + 1));
                    }
                }
                match crate::split::char_index(rest, c) {
                    Some(f) => {
                        if f < i - pos {
                        } else if f > i - pos {
                        }
                    },
                    None => {},
                }
                assert(v@.subrange(i as int, i + 1)[0] == v@[i as int]);
            }
            Some(i)
        },
        None => {
            proof {
                match crate::split::char_index(rest, c) {
                    Some(f) => {
                        assert(!crate::text::occurs_at(v@, seq![c], pos + f));
                        assert(rest.subrange(f, f + 1) =~= v@.subrange(pos + f, pos + f + 1));
                    },
                    None => {},
                }
            }
            None
        },
    }
}

/// Whether a tag is a placeholder or example tag, opening or closing.
pub open spec fn is_skipped_tag(tag: Seq<char>) -> bool {
    ||| starts_with_seq(tag, "<ph"@)
    ||| starts_with_seq(tag, "</ph"@)
    ||| starts_with_seq(tag, "<ex"@)
    ||| starts_with_seq(tag, "</ex"@)
}

/// `s` without its placeholder and example tags (their text stays); other
/// tags, and a `<` without a closing `>`, stay as they are.
pub open spec fn strip_tags(s: Seq<char>) -> Seq<char>
    decreases s.len(),
{
    match crate::split::char_index(s, '<') {
        None => s,
        Some(st) => {
            proof {
                crate::text::lemma_find_seq(s, seq!['<']);
            }
            if 0 <= st < s.len() {
                match crate::split::char_index(s.skip(st), '>') {
                    None => s,
                    Some(p) => {
                        proof {
                            crate::text::lemma_find_seq(s.skip(st), seq!['>']);
                        }
                        if 0 <= p && st + p + 1 <= s.len() {
                            let end = st + p + 1;
                            let tag = s.subrange(st, end);
                            s.take(st) + (if is_skipped_tag(tag) {
                                Seq::empty()
                            } else {
                                tag
                            }) + strip_tags(s.skip(end))
                        } else {
                            s
                        }
                    },
                }
            } else {
                s
            }
        },
    }
}


/// The product renamed: `Google Chrome` and `Chrome` become `Brave`, `$`
/// signs are dropped, and the numbered placeholders `1Brave`, `2Brave`
/// become `Brave`.
pub open spec fn renamed(s: Seq<char>) -> Seq<char> {
    let a = replace_seq(s, "Google Chrome"@, "Brave"@);
    let b = replace_seq(a, "Chrome"@, "Brave"@);
    let c = replace_seq(b, "$"@, Seq::empty());
    let d = replace_seq(c, "1Brave"@, "Brave"@);
    replace_seq(d, "2Brave"@, "Brave"@)
}

/// Three line feeds.
pub open spec fn three_newlines() -> Seq<char> {
    seq!['\n', '\n', '\n']
}

/// `s` with runs of three line feeds folded to two until none is left.
pub open spec fn collapse_newlines(s: Seq<char>) -> Seq<char>
    decreases s.len(),
{
    if contains_seq(s, three_newlines()) {
        proof {
            lemma_replace_shorter(s, three_newlines(), seq!['\n', '\n']);
        }
        collapse_newlines(replace_seq(s, three_newlines(), seq!['\n', '\n']))
    } else {
        s
    }
}

/// A template description made readable: placeholder and example tags
/// removed, the product renamed, blank runs folded, and trimmed.
pub open spec fn cleaned_desc(s: Seq<char>) -> Seq<char> {
    if s.len() == 0 {
        Seq::empty()
    } else {
        trim_seq(collapse_newlines(renamed(strip_tags(s))))
    }
}

/// Whether the characters `tag` start with the literal `p`.
fn tag_starts(tag: &Vec<char>, p: &str) -> (r: bool)
    ensures
        r == starts_with_seq(tag@, p@),
{
    let pc = chars_of(p);
    occurs_at_exec(tag.as_slice(), pc.as_slice(), 0)
}

/// Replaces every `p` in `v` by `r`, literal texts.
fn replace_lit(v: &Vec<char>, p: &str, r: &str) -> (out: Vec<char>)
    requires
        p@.len() > 0,
    ensures
        out@ == replace_seq(v@, p@, r@),
{
    let pc = chars_of(p);
    let rc = chars_of(r);
    replace(v.as_slice(), pc.as_slice(), rc.as_slice())
}

/// Cleans a template description (see `cleaned_desc`).
pub fn clean_desc(text: &str) -> (r: String)
    ensures
        r@ == cleaned_desc(text@),
{
    if text.is_empty() {
        return String::new();
    }
    let v = chars_of(text);
    let mut out: Vec<char> = Vec::new();
    let mut pos: usize = 0;
    let n = v.len();
    assert(v@.skip(0) =~= v@);
    loop
        invariant_except_break
            pos <= v@.len(),
            n == v@.len(),
            v@ == text@,
            out@ + strip_tags(v@.skip(pos as int)) == strip_tags(v@),
        ensures
            out@ == strip_tags(text@),
        decreases v@.len() - pos,
    {
        let ghost rest = v@.skip(pos as int);
        match find_char_from(v.as_slice(), '<', pos) {
            None => {
                let tail = slice_range(v.as_slice(), pos, n);
                assert(tail@ =~= rest);
                assert(strip_tags(rest) == rest);
                append_chars(&mut out, tail.as_slice());
                break;
            },
            Some(st) => {
                match find_char_from(v.as_slice(), '>', st) {
                    None => {
                        let tail = slice_range(v.as_slice(), pos, n);
                        assert(tail@ =~= rest);
                        assert(rest.skip(st - pos) =~= v@.skip(st as int));
                        assert(strip_tags(rest) == rest);
                        append_chars(&mut out, tail.as_slice());
                        break;
                    },
                    Some(gt) => {
                        let end = gt + 1;
                        assert(rest.skip(st - pos) =~= v@.skip(st as int));
                        let before = slice_range(v.as_slice(), pos, st);
                        let tag = slice_range(v.as_slice(), st, end);
                        assert(before@ =~= rest.take(st - pos));
                        assert(tag@ =~= rest.subrange(st - pos, end - pos));
                        assert(rest.skip(end - pos) =~= v@.skip(end as int));
                        let ghost o0 = out@;
                        append_chars(&mut out, before.as_slice());
                        let skip = tag_starts(&tag, "<ph") || tag_starts(&tag, "</ph")
                            || tag_starts(&tag, "<ex") || tag_starts(&tag, "</ex");
                        if !skip {
                            append_chars(&mut out, tag.as_slice());
                        }
                        assert(out@ + strip_tags(v@.skip(end as int)) =~= o0 + strip_tags(rest));
                        pos = end;
                    },
                }
            },
        }
    }
    proof {
        reveal_strlit("Google Chrome");
        reveal_strlit("Chrome");
        reveal_strlit("$");
        reveal_strlit("1Brave");
        reveal_strlit("2Brave");
        reveal_strlit("");
        assert(""@ =~= Seq::<char>::empty());
    }
    let a = replace_lit(&out, "Google Chrome", "Brave");
    let b = replace_lit(&a, "Chrome", "Brave");
    let c = replace_lit(&b, "$", "");
    let d = replace_lit(&c, "1Brave", "Brave");
    let mut e = replace_lit(&d, "2Brave", "Brave");
    let nnn: [char; 3] = ['\n', '\n', '\n'];
    let nn: [char; 2] = ['\n', '\n'];
    assert(nnn@ =~= three_newlines());
    assert(nn@ =~= seq!['\n', '\n']);
    while crate::text::contains(e.as_slice(), nnn.as_slice())
        invariant
            nnn@ == three_newlines(),
            nn@ == seq!['\n', '\n'],
            collapse_newlines(e@) == collapse_newlines(renamed(strip_tags(text@))),
        decreases e@.len(),
    {
        proof {
            lemma_replace_shorter(e@, three_newlines(), seq!['\n', '\n']);
        }
        e = replace(e.as_slice(), nnn.as_slice(), nn.as_slice());
    }
    let t = trim(e.as_slice());
    string_of(t.as_slice())
}


// ---------------------------------------------------------------------------
// ADMX and ADML
// ---------------------------------------------------------------------------

/// `s` up to the first occurrence of `p`, if `p` occurs.
pub open spec fn before_text(s: Seq<char>, p: Seq<char>) -> Option<Seq<char>> {
    match find_seq(s, p) {
        Some(i) => Some(s.take(i)),
        None => None,
    }
}

/// `v` up to the first occurrence of the literal `p`.
fn before_lit(v: &[char], p: &str) -> (r: Option<Vec<char>>)
    ensures
        match before_text(v@, p@) {
            Some(t) => r matches Some(x) && x@ == t,
            None => r is None,
        },
{
    let pc = chars_of(p);
    proof {
        crate::text::lemma_find_seq(v@, p@);
    }
    match crate::text::find(v, pc.as_slice()) {
        Some(i) => {
            let t = slice_range(v, 0, i);
            assert(t@ =~= v@.take(i as int));
            Some(t)
        },
        None => None,
    }
}

/// The string entry of one `<string id=...>` piece of an ADML file: the
/// id without quotes, and the trimmed text up to `</string>`.
pub open spec fn adml_entry(m: Seq<char>) -> Option<(Seq<char>, Seq<char>)> {
    match split_once_seq(m, '>') {
        None => None,
        Some((id, rest)) => match before_text(rest, "</string>"@) {
            None => None,
            Some(value) => Some((trim_matches_seq(trim_seq(id), '"'), trim_seq(value))),
        },
    }
}

/// The string entries of the pieces, in order.
pub open spec fn adml_pairs(pieces: Seq<Seq<char>>) -> Seq<(Seq<char>, Seq<char>)>
    decreases pieces.len(),
{
    if pieces.len() == 0 {
        Seq::empty()
    } else {
        let prev = adml_pairs(pieces.drop_last());
        match adml_entry(pieces.last()) {
            Some(e) => prev.push(e),
            None => prev,
        }
    }
}

/// The string entries of an ADML text.
pub open spec fn adml_entries(text: Seq<char>) -> Seq<(Seq<char>, Seq<char>)> {
    adml_pairs(split_text_seq(text, "<string id="@).skip(1))
}

/// Builds a map from entries given piece by piece: `f` gives each piece's
/// entry, if any; a later entry for a key replaces an earlier one.
fn map_pieces(pieces: &Vec<Vec<char>>, from: usize, admx: bool) -> (r: KeyMap<String>)
    requires
        from <= pieces@.len(),
    ensures
        forall|k: Seq<char>| #[trigger] opt_view(r.spec_get(k)) == lookup(
            if admx {
                admx_pairs(pieces_view(pieces@).skip(from as int))
            } else {
                adml_pairs(pieces_view(pieces@).skip(from as int))
            },
            k,
        ),
{
    let ghost P = pieces_view(pieces@).skip(from as int);
    let mut out: KeyMap<String> = KeyMap::new();
    let mut i = from;
    assert(P.take(0) =~= Seq::<Seq<char>>::empty());
    while i < pieces.len()
        invariant
            from <= i <= pieces@.len(),
            P == pieces_view(pieces@).skip(from as int),
            forall|k: Seq<char>| #[trigger] opt_view(out.spec_get(k)) == lookup(
                if admx {
                    admx_pairs(P.take(i - from))
                } else {
                    adml_pairs(P.take(i - from))
                },
                k,
            ),
        decreases pieces@.len() - i,
    {
        let ghost pre = P.take(i - from);
        let ghost post = P.take(i + 1 - from);
        assert(post.drop_last() =~= pre);
        assert(post.last() == pieces@[i as int]@);
        let entry = if admx {
            admx_entry_of(&pieces[i])
        } else {
            adml_entry_of(&pieces[i])
        };
        let ghost prev_pairs = if admx {
            admx_pairs(pre)
        } else {
            adml_pairs(pre)
        };
        let ghost before = out;
        match entry {
            Some((k, v)) => {
                let ghost e = (k@, v@);
                out.insert(k, v);
                assert forall|q: Seq<char>| #[trigger] opt_view(out.spec_get(q)) == lookup(
                    prev_pairs.push(e),
                    q,
                ) by {
                    assert(prev_pairs.push(e).drop_last() =~= prev_pairs);
                    assert(opt_view(before.spec_get(q)) == lookup(prev_pairs, q));
                }
            },
            None => {},
        }
        i = i + 1;
    }
    assert(P.take(i - from) =~= P);
    out
}

/// The string entry of one ADML piece.
fn adml_entry_of(m: &Vec<char>) -> (r: Option<(String, String)>)
    ensures
        match adml_entry(m@) {
            Some(e) => r matches Some(x) && x.0@ == e.0 && x.1@ == e.1,
            None => r is None,
        },
{
    match split_once(m.as_slice(), '>') {
        None => None,
        Some((id, rest)) => match before_lit(rest.as_slice(), "</string>") {
            None => None,
            Some(value) => {
                let a = trim(id.as_slice());
                let b = trim_matches(a.as_slice(), '"');
                let c = trim(value.as_slice());
                Some((string_of(b.as_slice()), string_of(c.as_slice())))
            },
        },
    }
}

/// Reads the strings of an ADML file: id to text.
pub fn parse_adml(text: &str) -> (r: KeyMap<String>)
    ensures
        forall|k: Seq<char>| #[trigger] opt_view(r.spec_get(k)) == lookup(adml_entries(text@), k),
{
    let tc = chars_of(text);
    let pat = chars_of("<string id=");
    proof {
        reveal_strlit("<string id=");
    }
    let pieces = split_text(tc.as_slice(), pat.as_slice());
    let from: usize = if pieces.len() >= 1 {
        1
    } else {
        0
    };
    proof {
        if pieces@.len() == 0 {
            assert(pieces_view(pieces@).skip(0) =~= pieces_view(pieces@).skip(1));
        }
    }
    map_pieces(&pieces, from, false)
}

/// The value of attribute `attr` in `block`: the text between the first
/// `attr="` and the next `"`.
pub open spec fn attr_value(block: Seq<char>, attr: Seq<char>) -> Option<Seq<char>> {
    let needle = attr + seq!['=', '"'];
    match find_seq(block, needle) {
        None => None,
        Some(i) => {
            let start = i + needle.len();
            match crate::split::char_index(block.skip(start), '"') {
                None => None,
                Some(j) => Some(block.subrange(start, start + j)),
            }
        },
    }
}

/// The value of attribute `attr` in `block`.
pub fn extract_attr(block: &[char], attr: &str) -> (r: Option<String>)
    ensures
        match attr_value(block@, attr@) {
            Some(v) => r matches Some(x) && x@ == v,
            None => r is None,
        },
{
    let mut needle = chars_of(attr);
    needle.push('=');
    needle.push('"');
    assert(needle@ =~= attr@ + seq!['=', '"']);
    proof {
        crate::text::lemma_find_seq(block@, needle@);
    }
    match crate::text::find(block, needle.as_slice()) {
        None => None,
        Some(i) => {
            assert(crate::text::occurs_at(block@, needle@, i as int));
            let n = block.len();
            let nl = needle.len();
            assert(i + nl <= n);
            let start = i + nl;
            match find_char_from(block, '"', start) {
                None => None,
                Some(end) => {
                    let v = slice_range(block, start, end);
                    Some(string_of(v.as_slice()))
                },
            }
        },
    }
}


/// The text inside `<elements>...</elements>` of a policy block, or nothing.
pub open spec fn elements_of(block: Seq<char>) -> Seq<char> {
    match find_seq(block, "<elements>"@) {
        None => Seq::empty(),
        Some(st) => match before_text(block.skip(st + 10), "</elements>"@) {
            Some(e) => e,
            None => Seq::empty(),
        },
    }
}

/// The value kind of a policy block, by the first element kind it holds:
/// `Bool`, `Int`, `Array` or `Str`; a policy with an enabled value or list
/// and no elements is `Bool`; anything else `unknown`.
pub open spec fn admx_kind(block: Seq<char>) -> Seq<char> {
    let el = elements_of(block);
    if contains_seq(el, "<boolean "@) {
        "Bool"@
    } else if contains_seq(el, "<decimal "@) {
        "Int"@
    } else if contains_seq(el, "<list "@) {
        "Array"@
    } else if contains_seq(el, "<text "@) || contains_seq(el, "<enum "@) {
        "Str"@
    } else if contains_seq(block, "<enabledValue>"@) || contains_seq(block, "<enabledList>"@) {
        "Bool"@
    } else {
        "unknown"@
    }
}

/// The policy entry of one `<policy ...` piece of an ADMX file: its name
/// and value kind, when it is closed and named.
pub open spec fn admx_entry(b: Seq<char>) -> Option<(Seq<char>, Seq<char>)> {
    match before_text(b, "</policy>"@) {
        None => None,
        Some(block) => match attr_value(block, "name"@) {
            None => None,
            Some(name) => Some((name, admx_kind(block))),
        },
    }
}

/// The policy entries of the pieces, in order.
pub open spec fn admx_pairs(pieces: Seq<Seq<char>>) -> Seq<(Seq<char>, Seq<char>)>
    decreases pieces.len(),
{
    if pieces.len() == 0 {
        Seq::empty()
    } else {
        let prev = admx_pairs(pieces.drop_last());
        match admx_entry(pieces.last()) {
            Some(e) => prev.push(e),
            None => prev,
        }
    }
}

/// The policy entries of an ADMX text.
pub open spec fn admx_entries(text: Seq<char>) -> Seq<(Seq<char>, Seq<char>)> {
    admx_pairs(split_text_seq(text, "<policy "@).skip(1))
}

/// Whether the literal `p` occurs in `v`.
fn has_lit(v: &[char], p: &str) -> (r: bool)
    ensures
        r == contains_seq(v@, p@),
{
    let pc = chars_of(p);
    crate::text::contains(v, pc.as_slice())
}

/// The text inside `<elements>...</elements>`.
fn elements_text(block: &Vec<char>) -> (r: Vec<char>)
    ensures
        r@ == elements_of(block@),
{
    let open = chars_of("<elements>");
    proof {
        reveal_strlit("<elements>");
        crate::text::lemma_find_seq(block@, "<elements>"@);
    }
    match crate::text::find(block.as_slice(), open.as_slice()) {
        None => Vec::new(),
        Some(st) => {
            assert(crate::text::occurs_at(block@, "<elements>"@, st as int));
            let n = block.len();
            assert("<elements>"@.len() == 10);
            assert(st + 10 <= n);
            let rest = slice_range(block.as_slice(), st + 10, n);
            assert(rest@ =~= block@.skip(st + 10));
            match before_lit(rest.as_slice(), "</elements>") {
                Some(e) => e,
                None => Vec::new(),
            }
        },
    }
}

/// The value kind of a policy block.
fn admx_kind_of(block: &Vec<char>) -> (r: &'static str)
    ensures
        r@ == admx_kind(block@),
{
    let el = elements_text(block);
    if has_lit(el.as_slice(), "<boolean ") {
        "Bool"
    } else if has_lit(el.as_slice(), "<decimal ") {
        "Int"
    } else if has_lit(el.as_slice(), "<list ") {
        "Array"
    } else if has_lit(el.as_slice(), "<text ") || has_lit(el.as_slice(), "<enum ") {
        "Str"
    } else if has_lit(block.as_slice(), "<enabledValue>") || has_lit(
        block.as_slice(),
        "<enabledList>",
    ) {
        "Bool"
    } else {
        "unknown"
    }
}

/// The policy entry of one ADMX piece.
fn admx_entry_of(b: &Vec<char>) -> (r: Option<(String, String)>)
    ensures
        match admx_entry(b@) {
            Some(e) => r matches Some(x) && x.0@ == e.0 && x.1@ == e.1,
            None => r is None,
        },
{
    match before_lit(b.as_slice(), "</policy>") {
        None => None,
        Some(block) => match extract_attr(block.as_slice(), "name") {
            None => None,
            Some(name) => {
                let kind = admx_kind_of(&block);
                Some((name, crate::text::owned(kind)))
            },
        },
    }
}

/// Reads the policies of an ADMX file: name to value kind.
pub fn parse_admx(text: &str) -> (r: KeyMap<String>)
    ensures
        forall|k: Seq<char>| #[trigger] opt_view(r.spec_get(k)) == lookup(admx_entries(text@), k),
{
    let tc = chars_of(text);
    let pat = chars_of("<policy ");
    proof {
        reveal_strlit("<policy ");
    }
    let pieces = split_text(tc.as_slice(), pat.as_slice());
    let from: usize = if pieces.len() >= 1 {
        1
    } else {
        0
    };
    proof {
        if pieces@.len() == 0 {
            assert(pieces_view(pieces@).skip(0) =~= pieces_view(pieces@).skip(1));
        }
    }
    map_pieces(&pieces, from, true)
}


// ---------------------------------------------------------------------------
// Text of template files
// ---------------------------------------------------------------------------

/// The UTF-16 code units of little-endian byte pairs; a trailing odd byte
/// is left out.
pub open spec fn le_units(b: Seq<u8>) -> Seq<u16> {
    Seq::new(b.len() / 2, |i: int| (b[2 * i] + 256 * b[2 * i + 1]) as u16)
}

/// The bytes after a UTF-16 little-endian byte order mark, if there is one.
pub open spec fn without_bom(b: Seq<u8>) -> Seq<u8> {
    if b.len() >= 2 && b[0] == 0xFF && b[1] == 0xFE {
        b.skip(2)
    } else {
        b
    }
}

/// The text of UTF-16 code units: a unit outside the surrogate range is the
/// character it numbers, a high surrogate followed by a low one is the
/// character the pair encodes, and every other surrogate is U+FFFD.
pub open spec fn decode_units(units: Seq<u16>) -> Seq<char>
    decreases units.len(),
{
    if units.len() == 0 {
        Seq::empty()
    } else {
        let u = units[0];
        if u < 0xD800 || u >= 0xE000 {
            seq![u as char] + decode_units(units.skip(1))
        } else if u < 0xDC00 && units.len() >= 2 && 0xDC00 <= units[1] && units[1] < 0xE000 {
            seq![(0x10000 + (u - 0xD800) * 0x400 + (units[1] - 0xDC00)) as char] + decode_units(
                units.skip(2),
            )
        } else {
            seq!['\u{FFFD}'] + decode_units(units.skip(1))
        }
    }
}

/// `String::from_utf16_lossy`: decodes UTF-16 code units, putting U+FFFD in
/// place of each unpaired surrogate, as `decode_units` states.
#[verifier::external_body]
fn from_utf16_lossy(units: &[u16]) -> (r: String)
    ensures
        r@ == decode_units(units@),
{
    String::from_utf16_lossy(units)
}

/// Decodes a UTF-16 little-endian file, with or without a byte order mark.
pub fn decode_utf16_le(bytes: &[u8]) -> (r: String)
    ensures
        r@ == decode_units(le_units(without_bom(bytes@))),
{
    let n = bytes.len();
    let start: usize = if n >= 2 && bytes[0] == 0xFF && bytes[1] == 0xFE {
        2
    } else {
        0
    };
    let ghost b = without_bom(bytes@);
    assert(b =~= bytes@.skip(start as int));
    let mut units: Vec<u16> = Vec::new();
    let mut i: usize = start;
    while i < n && n - i >= 2
        invariant
            start <= i <= n,
            n == bytes@.len(),
            b == bytes@.skip(start as int),
            (i - start) % 2 == 0,
            units@ == le_units(b).take((i - start) / 2),
        decreases n - i,
    {
        let lo = bytes[i] as u16;
        let hi = bytes[i + 1] as u16;
        let u = lo + hi * 256;
        let ghost k = (i - start) / 2;
        assert(b[2 * k] == bytes@[i as int]);
        assert(b[2 * k + 1] == bytes@[i + 1]);
        units.push(u);
        assert(units@ =~= le_units(b).take(k + 1));
        i = i + 2;
    }
    assert(units@ =~= le_units(b));
    from_utf16_lossy(units.as_slice())
}

/// The policy key a template file name stands for: the name without a
/// `.yaml` suffix.
pub open spec fn template_key_of(name: Seq<char>) -> Seq<char> {
    if name.len() >= 5 && name.skip(name.len() - 5) == ".yaml"@ {
        name.take(name.len() - 5)
    } else {
        name
    }
}

/// The policy key a template file name stands for.
pub fn template_key(name: &str) -> (r: String)
    ensures
        r@ == template_key_of(name@),
{
    let v = chars_of(name);
    let suffix = chars_of(".yaml");
    proof {
        reveal_strlit(".yaml");
    }
    let n = v.len();
    if n >= 5 && occurs_at_exec(v.as_slice(), suffix.as_slice(), n - 5) {
        assert(v@.subrange(n - 5, n as int) =~= v@.skip(n - 5));
        let t = slice_range(v.as_slice(), 0, n - 5);
        assert(t@ =~= v@.take(n - 5));
        string_of(t.as_slice())
    } else {
        if n >= 5 {
            assert(v@.subrange(n - 5, n as int) =~= v@.skip(n - 5));
        }
        string_of(v.as_slice())
    }
}


// ---------------------------------------------------------------------------
// Template metadata
// ---------------------------------------------------------------------------

/// The Chromium policy definitions archive.
pub const CHROMIUM_SOURCE_URL: &'static str = "https://chromium.googlesource.com/chromium/src/+archive/refs/heads/main/components/policy/resources/templates/policy_definitions.tar.gz";

/// The Brave policy templates archive.
pub const BRAVE_SOURCE_URL: &'static str = "https://brave-browser-downloads.s3.brave.com/latest/policy_templates.zip";

/// A cleaned text when it is not empty, else the fallback.
pub open spec fn cleaned_or(t: Option<Seq<char>>, fallback: Seq<char>) -> Seq<char> {
    match t {
        Some(c) => if cleaned_desc(c).len() > 0 {
            cleaned_desc(c)
        } else {
            fallback
        },
        None => fallback,
    }
}

/// The metadata of a policy from its Chromium definition (a simple YAML
/// text): the cleaned caption and description (else the catalog's name and
/// description, else empty), and the type (else `unknown`).
pub open spec fn chromium_policy(text: Seq<char>, existing: Option<(Seq<char>, Seq<char>)>) -> RemotePolicyV {
    RemotePolicyV {
        name: cleaned_or(
            lookup(yaml_entries(text), "caption"@),
            match existing {
                Some(e) => e.0,
                None => Seq::empty(),
            },
        ),
        tooltip: cleaned_or(
            lookup(yaml_entries(text), "desc"@),
            match existing {
                Some(e) => e.1,
                None => Seq::empty(),
            },
        ),
        kind: match lookup(yaml_entries(text), "type"@) {
            Some(t) => t,
            None => "unknown"@,
        },
    }
}

/// The Chromium metadata of the keys that have a definition (`defs` gives
/// the definition text of a key), in key order.
pub open spec fn chromium_pairs(
    keys: Seq<Seq<char>>,
    defs: spec_fn(Seq<char>) -> Option<Seq<char>>,
    existing: KeyMap<(String, String)>,
) -> Seq<(Seq<char>, RemotePolicyV)>
    decreases keys.len(),
{
    if keys.len() == 0 {
        Seq::empty()
    } else {
        let prev = chromium_pairs(keys.drop_last(), defs, existing);
        let k = keys.last();
        match defs(k) {
            Some(t) => prev.push((k, chromium_policy(t, text_pair(existing.spec_get(k))))),
            None => prev,
        }
    }
}

/// The metadata of a policy from the Brave templates: the ADML name (else
/// the catalog's name, else the key), the ADML explanation (else the
/// catalog's description, else empty), and the ADMX kind.
pub open spec fn brave_policy(
    key: Seq<char>,
    kind: Seq<char>,
    strings: spec_fn(Seq<char>) -> Option<Seq<char>>,
    existing: Option<(Seq<char>, Seq<char>)>,
) -> RemotePolicyV {
    RemotePolicyV {
        name: match strings(key) {
            Some(n) => n,
            None => match existing {
                Some(e) => e.0,
                None => key,
            },
        },
        tooltip: match strings(key + "_Explain"@) {
            Some(t) => t,
            None => match existing {
                Some(e) => e.1,
                None => Seq::empty(),
            },
        },
        kind: kind,
    }
}

/// The Brave metadata of the keys that the ADMX file defines, in key order.
pub open spec fn brave_pairs(
    keys: Seq<Seq<char>>,
    types: spec_fn(Seq<char>) -> Option<Seq<char>>,
    strings: spec_fn(Seq<char>) -> Option<Seq<char>>,
    existing: KeyMap<(String, String)>,
) -> Seq<(Seq<char>, RemotePolicyV)>
    decreases keys.len(),
{
    if keys.len() == 0 {
        Seq::empty()
    } else {
        let prev = brave_pairs(keys.drop_last(), types, strings, existing);
        let k = keys.last();
        match types(k) {
            Some(t) => prev.push((k, brave_policy(k, t, strings, text_pair(existing.spec_get(k))))),
            None => prev,
        }
    }
}

/// A cleaned text when it is not empty, else the fallback.
fn cleaned_text_or(t: Option<&String>, fallback: &String) -> (r: String)
    ensures
        r@ == cleaned_or(
            match t {
                Some(x) => Some(x@),
                None => None,
            },
            fallback@,
        ),
{
    match t {
        Some(c) => {
            let d = clean_desc(c.as_str());
            if d.as_str().is_empty() {
                copy_string(fallback)
            } else {
                d
            }
        },
        None => copy_string(fallback),
    }
}

/// The metadata of the catalog keys from Chromium policy definitions
/// (`defs`: the definition text by key).
pub fn chromium_policies(
    keys: &Vec<String>,
    defs: &KeyMap<String>,
    existing: &KeyMap<(String, String)>,
) -> (r: KeyMap<RemotePolicy>)
    ensures
        forall|k: Seq<char>| #[trigger] opt_policy(r.spec_get(k)) == lookup(
            chromium_pairs(keys.deep_view(), |d: Seq<char>| opt_view(defs.spec_get(d)), *existing),
            k,
        ),
{
    let ghost ks = keys.deep_view();
    let ghost df = |d: Seq<char>| opt_view(defs.spec_get(d));
    let mut out: KeyMap<RemotePolicy> = KeyMap::new();
    let mut i: usize = 0;
    assert(ks.take(0) =~= Seq::<Seq<char>>::empty());
    while i < keys.len()
        invariant
            i <= keys@.len(),
            ks == keys.deep_view(),
            df == (|d: Seq<char>| opt_view(defs.spec_get(d))),
            forall|k: Seq<char>| #[trigger] opt_policy(out.spec_get(k)) == lookup(
                chromium_pairs(ks.take(i as int), df, *existing),
                k,
            ),
        decreases keys@.len() - i,
    {
        let key = &keys[i];
        assert(ks.take(i + 1).drop_last() =~= ks.take(i as int));
        assert(ks.take(i + 1).last() == key@);
        let ghost prev = chromium_pairs(ks.take(i as int), df, *existing);
        let ghost before = out;
        match defs.get(key.as_str()) {
            Some(text) => {
                let entry = parse_simple_yaml(text.as_str());
                let (ename, etip) = match existing.get(key.as_str()) {
                    Some(e) => (copy_string(&e.0), copy_string(&e.1)),
                    None => (String::new(), String::new()),
                };
                proof {
                    reveal_strlit("caption");
                    reveal_strlit("desc");
                    reveal_strlit("type");
                }
                let name = cleaned_text_or(entry.get("caption"), &ename);
                let tooltip = cleaned_text_or(entry.get("desc"), &etip);
                let kind = match entry.get("type") {
                    Some(t) => copy_string(t),
                    None => owned("unknown"),
                };
                let p = RemotePolicy { name, tooltip, kind };
                let ghost e = (key@, p@);
                assert(df(key@) == Some(text@));
                assert(opt_view(entry.spec_get("caption"@)) == lookup(yaml_entries(text@), "caption"@));
                assert(opt_view(entry.spec_get("desc"@)) == lookup(yaml_entries(text@), "desc"@));
                assert(opt_view(entry.spec_get("type"@)) == lookup(yaml_entries(text@), "type"@));
                assert(p@ == chromium_policy(text@, text_pair(existing.spec_get(key@))));
                out.insert(copy_string(key), p);
                assert forall|k: Seq<char>| #[trigger] opt_policy(out.spec_get(k)) == lookup(
                    prev.push(e),
                    k,
                ) by {
                    assert(prev.push(e).drop_last() =~= prev);
                    assert(opt_policy(before.spec_get(k)) == lookup(prev, k));
                }
            },
            None => {
                assert(df(key@) is None);
            },
        }
        i = i + 1;
    }
    assert(ks.take(i as int) =~= ks);
    out
}

/// The text with `_Explain` appended.
fn explain_key(key: &str) -> (r: String)
    ensures
        r@ == key@ + "_Explain"@,
{
    let mut v = chars_of(key);
    let s = chars_of("_Explain");
    append_chars(&mut v, s.as_slice());
    string_of(v.as_slice())
}

/// The metadata of the catalog keys from the Brave templates: `types` from
/// the ADMX file, `strings` from the ADML file.
pub fn brave_policies(
    keys: &Vec<String>,
    types: &KeyMap<String>,
    strings: &KeyMap<String>,
    existing: &KeyMap<(String, String)>,
) -> (r: KeyMap<RemotePolicy>)
    ensures
        forall|k: Seq<char>| #[trigger] opt_policy(r.spec_get(k)) == lookup(
            brave_pairs(
                keys.deep_view(),
                |d: Seq<char>| opt_view(types.spec_get(d)),
                |d: Seq<char>| opt_view(strings.spec_get(d)),
                *existing,
            ),
            k,
        ),
{
    let ghost ks = keys.deep_view();
    let ghost tf = |d: Seq<char>| opt_view(types.spec_get(d));
    let ghost sf = |d: Seq<char>| opt_view(strings.spec_get(d));
    let mut out: KeyMap<RemotePolicy> = KeyMap::new();
    let mut i: usize = 0;
    assert(ks.take(0) =~= Seq::<Seq<char>>::empty());
    while i < keys.len()
        invariant
            i <= keys@.len(),
            ks == keys.deep_view(),
            tf == (|d: Seq<char>| opt_view(types.spec_get(d))),
            sf == (|d: Seq<char>| opt_view(strings.spec_get(d))),
            forall|k: Seq<char>| #[trigger] opt_policy(out.spec_get(k)) == lookup(
                brave_pairs(ks.take(i as int), tf, sf, *existing),
                k,
            ),
        decreases keys@.len() - i,
    {
        let key = &keys[i];
        assert(ks.take(i + 1).drop_last() =~= ks.take(i as int));
        assert(ks.take(i + 1).last() == key@);
        let ghost prev = brave_pairs(ks.take(i as int), tf, sf, *existing);
        let ghost before = out;
        match types.get(key.as_str()) {
            Some(kind) => {
                let ex = existing.get(key.as_str());
                let name = match strings.get(key.as_str()) {
                    Some(n) => copy_string(n),
                    None => match ex {
                        Some(e) => copy_string(&e.0),
                        None => copy_string(key),
                    },
                };
                let ek = explain_key(key.as_str());
                let tooltip = match strings.get(ek.as_str()) {
                    Some(t) => copy_string(t),
                    None => match ex {
                        Some(e) => copy_string(&e.1),
                        None => String::new(),
                    },
                };
                let p = RemotePolicy { name, tooltip, kind: copy_string(kind) };
                let ghost e = (key@, p@);
                assert(tf(key@) == Some(kind@));
                assert(sf(key@) == opt_view(strings.spec_get(key@)));
                assert(sf(ek@) == opt_view(strings.spec_get(ek@)));
                assert(p@ == brave_policy(key@, kind@, sf, text_pair(existing.spec_get(key@))));
                out.insert(copy_string(key), p);
                assert forall|k: Seq<char>| #[trigger] opt_policy(out.spec_get(k)) == lookup(
                    prev.push(e),
                    k,
                ) by {
                    assert(prev.push(e).drop_last() =~= prev);
                    assert(opt_policy(before.spec_get(k)) == lookup(prev, k));
                }
            },
            None => {
                assert(tf(key@) is None);
            },
        }
        i = i + 1;
    }
    assert(ks.take(i as int) =~= ks);
    out
}

/// Adds the policies of `more` to `base`, replacing those of the same key.
pub fn extend_policies(base: &mut KeyMap<RemotePolicy>, more: &KeyMap<RemotePolicy>)
    ensures
        forall|k: Seq<char>| #[trigger] opt_policy(final(base).spec_get(k)) == match opt_policy(more.spec_get(k)) {
            Some(p) => Some(p),
            None => opt_policy(old(base).spec_get(k)),
        },
{
    let ghost b0 = *base;
    let es = more.entries();
    let mut i: usize = 0;
    assert(es@.take(0) =~= Seq::<(String, RemotePolicy)>::empty());
    while i < es.len()
        invariant
            i <= es@.len(),
            es@ == more.entries_view(),
            crate::keys::ascending(crate::keymap::entry_keys(es@)),
            forall|k: Seq<char>| #[trigger] opt_policy(base.spec_get(k)) == match opt_policy(pget(es@.take(i as int), k)) {
                Some(p) => Some(p),
                None => opt_policy(b0.spec_get(k)),
            },
        decreases es@.len() - i,
    {
        let ghost pre = es@.take(i as int);
        let ghost post = es@.take(i + 1);
        assert(post.drop_last() =~= pre);
        assert(post.last() == es@[i as int]);
        let ghost before = *base;
        base.insert(copy_string(&es[i].0), es[i].1.copy());
        assert forall|k: Seq<char>| #[trigger] opt_policy(base.spec_get(k)) == match opt_policy(pget(post, k)) {
            Some(p) => Some(p),
            None => opt_policy(b0.spec_get(k)),
        } by {
            assert(pget(post, k) == if es@[i as int].0@ == k { Some(es@[i as int].1) } else { pget(pre, k) });
        }
        i = i + 1;
    }
    assert(es@.take(i as int) =~= es@);
}

/// The version text of fetched metadata for a browser.
pub open spec fn remote_version(browser: Browser) -> Seq<char> {
    match browser {
        Browser::Brave => "brave-official + chromium-main"@,
        Browser::Chrome => "chromium-main"@,
    }
}

/// Fetched metadata for `browser`: its version and source texts, and the
/// policies.
pub fn remote_catalog(browser: Browser, policies: KeyMap<RemotePolicy>) -> (r: RemoteCatalog)
    ensures
        r.version@ == remote_version(browser),
        r.source@ == match browser {
            Browser::Brave => CHROMIUM_SOURCE_URL@ + "\n"@ + BRAVE_SOURCE_URL@,
            Browser::Chrome => CHROMIUM_SOURCE_URL@,
        },
        r.policies == policies,
{
    match browser {
        Browser::Brave => {
            let mut src = chars_of(CHROMIUM_SOURCE_URL);
            let nl = chars_of("\n");
            let b = chars_of(BRAVE_SOURCE_URL);
            append_chars(&mut src, nl.as_slice());
            append_chars(&mut src, b.as_slice());
            RemoteCatalog {
                version: owned("brave-official + chromium-main"),
                source: string_of(src.as_slice()),
                policies,
            }
        },
        Browser::Chrome => RemoteCatalog {
            version: owned("chromium-main"),
            source: owned(CHROMIUM_SOURCE_URL),
            policies,
        },
    }
}

// ---------------------------------------------------------------------------
// Template archives
// ---------------------------------------------------------------------------

/// The entries of a gzip-compressed tar archive, in archive order: for each
/// entry that could be read, its file name (when it has one that is valid
/// text) and its content (when that is valid UTF-8 text); or the text of
/// the error that ended the listing.
pub uninterp spec fn tar_gz_files(data: Seq<u8>) -> Result<
    Seq<(Option<Seq<char>>, Option<Seq<char>>)>,
    Seq<char>,
>;

/// The contents of listed archive files.
pub open spec fn files_view(v: Seq<(Option<String>, Option<String>)>) -> Seq<
    (Option<Seq<char>>, Option<Seq<char>>),
> {
    v.map_values(|e: (Option<String>, Option<String>)| (opt_view(e.0), opt_view(e.1)))
}

/// Lists a gzip-compressed tar archive with `flate2::read::GzDecoder` and
/// `tar::Archive::entries`: each entry that the tar reader yields (entries
/// it fails on are passed over) gives its path's file name and its content
/// read as UTF-8 text; an error listing the entries or reading a path ends
/// the listing. The listing is named by `tar_gz_files`.
#[verifier::external_body]
fn read_tar_gz(data: &[u8]) -> (r: Result<Vec<(Option<String>, Option<String>)>, String>)
    ensures
        match r {
            Ok(v) => tar_gz_files(data@) == Ok::<_, Seq<char>>(files_view(v@)),
            Err(e) => tar_gz_files(data@) == Err::<Seq<(Option<Seq<char>>, Option<Seq<char>>)>, _>(e@),
        },
{
    let mut archive = tar::Archive::new(flate2::read::GzDecoder::new(data));
    let mut out = Vec::new();
    for entry in archive.entries().map_err(|err| err.to_string())? {
        let Ok(mut entry) = entry else { continue };
        let path = entry.path().map_err(|err| err.to_string())?;
        let name = path.file_name().and_then(|n| n.to_str()).map(|n| n.to_owned());
        let mut text = String::new();
        let read = std::io::Read::read_to_string(&mut entry, &mut text);
        out.push((name, read.ok().map(|_| text)));
    }
    Ok(out)
}

/// The definition texts among archive files for the given keys: each file
/// with a name whose key (`template_key_of`) is one of `keys` and with a
/// text content gives that key and content, in archive order.
pub open spec fn definition_texts(
    keys: Seq<Seq<char>>,
    files: Seq<(Option<Seq<char>>, Option<Seq<char>>)>,
) -> Seq<(Seq<char>, Seq<char>)>
    decreases files.len(),
{
    if files.len() == 0 {
        Seq::empty()
    } else {
        let prev = definition_texts(keys, files.drop_last());
        match files.last() {
            (Some(n), Some(t)) => if keys.contains(template_key_of(n)) {
                prev.push((template_key_of(n), t))
            } else {
                prev
            },
            _ => prev,
        }
    }
}

/// The Chromium definition text of each key among the archive files (a
/// later file of a key replacing an earlier one).
pub fn chromium_definitions(
    keys: &Vec<String>,
    files: &Vec<(Option<String>, Option<String>)>,
) -> (r: KeyMap<String>)
    ensures
        forall|k: Seq<char>| #[trigger] opt_view(r.spec_get(k)) == lookup(
            definition_texts(keys.deep_view(), files_view(files@)),
            k,
        ),
{
    let ghost ks = keys.deep_view();
    let ghost fs = files_view(files@);
    let mut out: KeyMap<String> = KeyMap::new();
    let mut i: usize = 0;
    assert(fs.take(0) =~= Seq::<(Option<Seq<char>>, Option<Seq<char>>)>::empty());
    while i < files.len()
        invariant
            i <= files@.len(),
            ks == keys.deep_view(),
            fs == files_view(files@),
            forall|k: Seq<char>| #[trigger] opt_view(out.spec_get(k)) == lookup(
                definition_texts(ks, fs.take(i as int)),
                k,
            ),
        decreases files@.len() - i,
    {
        let ghost prev = definition_texts(ks, fs.take(i as int));
        let ghost before = out;
        assert(fs.take(i + 1).drop_last() =~= fs.take(i as int));
        assert(fs.take(i + 1).last() == fs[i as int]);
        match (&files[i].0, &files[i].1) {
            (Some(n), Some(t)) => {
                let key = template_key(n.as_str());
                if contains_text(keys, key.as_str()) {
                    let ghost e = (key@, t@);
                    out.insert(key, copy_string(t));
                    assert forall|k: Seq<char>| #[trigger] opt_view(out.spec_get(k)) == lookup(
                        prev.push(e),
                        k,
                    ) by {
                        assert(prev.push(e).drop_last() =~= prev);
                        assert(opt_view(before.spec_get(k)) == lookup(prev, k));
                    }
                }
            },
            _ => {},
        }
        i = i + 1;
    }
    assert(fs.take(i as int) =~= fs);
    out
}

/// The Chromium metadata of the catalog keys from the policy definitions
/// archive; an archive whose entries cannot be listed gives the error.
pub fn chromium_from_archive(
    data: &[u8],
    keys: &Vec<String>,
    existing: &KeyMap<(String, String)>,
) -> (r: Result<KeyMap<RemotePolicy>, String>)
    ensures
        match tar_gz_files(data@) {
            Err(e) => r matches Err(m) && m@ == e,
            Ok(fs) => r matches Ok(p) && forall|k: Seq<char>| #[trigger] opt_policy(p.spec_get(k))
                == lookup(
                chromium_pairs(
                    keys.deep_view(),
                    |d: Seq<char>| lookup(definition_texts(keys.deep_view(), fs), d),
                    *existing,
                ),
                k,
            ),
        },
{
    match read_tar_gz(data) {
        Err(e) => Err(e),
        Ok(files) => {
            let defs = chromium_definitions(keys, &files);
            let policies = chromium_policies(keys, &defs, existing);
            let ghost fs = files_view(files@);
            assert((|d: Seq<char>| opt_view(defs.spec_get(d))) =~= (|d: Seq<char>|
                lookup(definition_texts(keys.deep_view(), fs), d)));
            Ok(policies)
        },
    }
}

/// The step of reading a zip archive member that failed.
#[derive(Clone, Copy, Debug, PartialEq, Eq, Structural)]
pub enum ZipStep {
    Open,
    Find,
    Read,
}

/// The bytes of the member `name` of a zip archive, or the step that failed
/// and the text of its error.
pub uninterp spec fn zip_member(data: Seq<u8>, name: Seq<char>) -> Result<
    Seq<u8>,
    (ZipStep, Seq<char>),
>;

/// Reads one member of a zip archive with `zip::ZipArchive::new`,
/// `ZipArchive::by_name` and `std::io::Read::read_to_end`; a failure gives
/// the step and the error's text. The outcome is named by `zip_member`.
#[verifier::external_body]
fn read_zip_member(data: &[u8], name: &str) -> (r: Result<Vec<u8>, (ZipStep, String)>)
    ensures
        match r {
            Ok(b) => zip_member(data@, name@) == Ok::<_, (ZipStep, Seq<char>)>(b@),
            Err((step, m)) => zip_member(data@, name@) == Err::<Seq<u8>, _>((step, m@)),
        },
{
    let cursor = std::io::Cursor::new(data);
    let mut archive = zip::ZipArchive::new(cursor).map_err(|err| (ZipStep::Open, err.to_string()))?;
    let mut member = archive.by_name(name).map_err(|err| (ZipStep::Find, err.to_string()))?;
    let mut bytes = Vec::new();
    std::io::Read::read_to_end(&mut member, &mut bytes).map_err(|err| (ZipStep::Read, err.to_string()))?;
    Ok(bytes)
}

/// The text of a UTF-16 template file.
pub open spec fn utf16_text(b: Seq<u8>) -> Seq<char> {
    decode_units(le_units(without_bom(b)))
}

/// The error text of a failed read of the template file `file`.
pub open spec fn zip_error_text(file: Seq<char>, step: ZipStep, message: Seq<char>) -> Seq<char> {
    match step {
        ZipStep::Open => "brave zip parse failed: "@ + message,
        ZipStep::Find => file + " missing: "@ + message,
        ZipStep::Read => message,
    }
}

/// The error text of a failed read of the template file `file`.
fn zip_error(file: &str, step: ZipStep, message: String) -> (r: String)
    ensures
        r@ == zip_error_text(file@, step, message@),
{
    match step {
        ZipStep::Open => {
            let mut v = chars_of("brave zip parse failed: ");
            let m = chars_of(message.as_str());
            append_chars(&mut v, m.as_slice());
            string_of(v.as_slice())
        },
        ZipStep::Find => {
            let mut v = chars_of(file);
            let s = chars_of(" missing: ");
            let m = chars_of(message.as_str());
            append_chars(&mut v, s.as_slice());
            append_chars(&mut v, m.as_slice());
            string_of(v.as_slice())
        },
        ZipStep::Read => message,
    }
}

/// The path of the ADMX file in the Brave templates archive.
pub const BRAVE_ADMX_PATH: &'static str = "windows/admx/brave.admx";

/// The path of the English ADML file in the Brave templates archive.
pub const BRAVE_ADML_PATH: &'static str = "windows/admx/en-US/brave.adml";

/// The Brave metadata of the catalog keys from the templates archive: the
/// ADMX file gives the kinds, the English ADML file the texts; a file that
/// cannot be read gives the error.
pub fn brave_from_archive(
    data: &[u8],
    keys: &Vec<String>,
    existing: &KeyMap<(String, String)>,
) -> (r: Result<KeyMap<RemotePolicy>, String>)
    ensures
        match zip_member(data@, BRAVE_ADMX_PATH@) {
            Err((step, m)) => r matches Err(e) && e@ == zip_error_text("brave.admx"@, step, m),
            Ok(admx) => match zip_member(data@, BRAVE_ADML_PATH@) {
                Err((step, m)) => r matches Err(e) && e@ == zip_error_text("brave.adml"@, step, m),
                Ok(adml) => r matches Ok(p) && forall|k: Seq<char>| #[trigger] opt_policy(
                    p.spec_get(k),
                ) == lookup(
                    brave_pairs(
                        keys.deep_view(),
                        |d: Seq<char>| lookup(admx_entries(utf16_text(admx)), d),
                        |d: Seq<char>| lookup(adml_entries(utf16_text(adml)), d),
                        *existing,
                    ),
                    k,
                ),
            },
        },
{
    let admx = match read_zip_member(data, BRAVE_ADMX_PATH) {
        Ok(b) => b,
        Err((step, m)) => return Err(zip_error("brave.admx", step, m)),
    };
    let adml = match read_zip_member(data, BRAVE_ADML_PATH) {
        Ok(b) => b,
        Err((step, m)) => return Err(zip_error("brave.adml", step, m)),
    };
    let admx_text = decode_utf16_le(admx.as_slice());
    let adml_text = decode_utf16_le(adml.as_slice());
    let types = parse_admx(admx_text.as_str());
    let strings = parse_adml(adml_text.as_str());
    let policies = brave_policies(keys, &types, &strings, existing);
    assert((|d: Seq<char>| opt_view(types.spec_get(d))) =~= (|d: Seq<char>|
        lookup(admx_entries(utf16_text(admx@)), d)));
    assert((|d: Seq<char>| opt_view(strings.spec_get(d))) =~= (|d: Seq<char>|
        lookup(adml_entries(utf16_text(adml@)), d)));
    Ok(policies)
}


/// A template policy's value kind is that of the first kind of element its
/// `<elements>` hold, looking for booleans, then numbers, then lists, then
/// texts and choices: a block whose elements hold a `<text ` or `<enum `
/// element and no boolean, decimal or list element is a text policy. A
/// block with no such element is a boolean when it has an enabled value or
/// list, else of unknown kind.
pub proof fn law_admx_kind_follows_the_elements(block: Seq<char>)
    ensures
        ({
            let el = elements_of(block);
            let boolean = contains_seq(el, "<boolean "@);
            let decimal = contains_seq(el, "<decimal "@);
            let list = contains_seq(el, "<list "@);
            let text = contains_seq(el, "<text "@) || contains_seq(el, "<enum "@);
            let enabled = contains_seq(block, "<enabledValue>"@) || contains_seq(
                block,
                "<enabledList>"@,
            );
            &&& boolean ==> admx_kind(block) == "Bool"@
            &&& !boolean && decimal ==> admx_kind(block) == "Int"@
            &&& !boolean && !decimal && list ==> admx_kind(block) == "Array"@
            &&& !boolean && !decimal && !list && text ==> admx_kind(block) == "Str"@
            &&& !boolean && !decimal && !list && !text && enabled ==> admx_kind(block) == "Bool"@
            &&& !boolean && !decimal && !list && !text && !enabled ==> admx_kind(block)
                == "unknown"@
        }),
{
}

} // verus!
