//! Lists of text keys: the first position of a key, and strictly ascending
//! key lists that behave as sets (the order and content of a `BTreeSet`).

use vstd::prelude::*;

use crate::text::{
    chars_of, compare_text, lemma_text_lt_asymmetric, lemma_text_lt_irreflexive,
    lemma_text_lt_total, lemma_text_lt_transitive, text_lt,
};

verus! {

/// The first position of `k` in `s`, if it occurs.
pub open spec fn first_index(s: Seq<Seq<char>>, k: Seq<char>) -> Option<int>
    decreases s.len(),
{
    if s.len() == 0 {
        None
    } else {
        match first_index(s.drop_last(), k) {
            Some(i) => Some(i),
            None => if s.last() == k {
                Some(s.len() - 1)
            } else {
                None
            },
        }
    }
}

/// `first_index` finds the first occurrence, or reports that there is none.
pub proof fn lemma_first_index(s: Seq<Seq<char>>, k: Seq<char>)
    ensures
        match first_index(s, k) {
            Some(j) => 0 <= j < s.len() && s[j] == k && forall|l: int| 0 <= l < j ==> s[l] != k,
            None => forall|l: int| 0 <= l < s.len() ==> s[l] != k,
        },
    decreases s.len(),
{
    if s.len() > 0 {
        lemma_first_index(s.drop_last(), k);
        match first_index(s.drop_last(), k) {
            Some(j) => {
                assert forall|l: int| 0 <= l < j implies s[l] != k by {
                    assert(s[l] == s.drop_last()[l]);
                }
            },
            None => {
                assert forall|l: int| 0 <= l < s.len() - 1 implies s[l] != k by {
                    assert(s[l] == s.drop_last()[l]);
                }
            },
        }
    }
}

/// A position holding `k` with no `k` before it is the first index of `k`.
pub proof fn lemma_first_index_is(s: Seq<Seq<char>>, k: Seq<char>, j: int)
    requires
        0 <= j < s.len(),
        s[j] == k,
        forall|l: int| 0 <= l < j ==> s[l] != k,
    ensures
        first_index(s, k) == Some(j),
{
    lemma_first_index(s, k);
}

/// A key that does not occur has no first index.
pub proof fn lemma_first_index_none(s: Seq<Seq<char>>, k: Seq<char>)
    requires
        forall|l: int| 0 <= l < s.len() ==> s[l] != k,
    ensures
        first_index(s, k) is None,
{
    lemma_first_index(s, k);
}

/// An element occurs in `s.push(x)` when it occurs in `s` or is `x`.
pub proof fn lemma_contains_push<A>(s: Seq<A>, x: A, k: A)
    ensures
        s.push(x).contains(k) <==> (s.contains(k) || k == x),
{
    let t = s.push(x);
    if t.contains(k) {
        let l = choose|l: int| 0 <= l < t.len() && t[l] == k;
        if l < s.len() {
            assert(s[l] == k);
        }
    }
    if s.contains(k) {
        let l = choose|l: int| 0 <= l < s.len() && s[l] == k;
        assert(t[l] == k);
    }
    if k == x {
        assert(t[s.len() as int] == k);
    }
}

/// Keys in strictly ascending text order, hence without repeats.
pub open spec fn ascending(s: Seq<Seq<char>>) -> bool {
    forall|i: int, j: int| 0 <= i < j < s.len() ==> text_lt(#[trigger] s[i], #[trigger] s[j])
}

/// Ascending keys hold no key twice.
pub proof fn lemma_ascending_distinct(s: Seq<Seq<char>>, i: int, j: int)
    requires
        ascending(s),
        0 <= i < s.len(),
        0 <= j < s.len(),
        i != j,
    ensures
        s[i] != s[j],
{
    if i < j {
        assert(text_lt(s[i], s[j]));
    } else {
        assert(text_lt(s[j], s[i]));
    }
    lemma_text_lt_irreflexive(s[i]);
}

/// Whether the text of `a` equals that of `b`.
pub fn same_text(a: &str, b: &str) -> (r: bool)
    ensures
        r == (a@ == b@),
{
    crate::text::str_eq(a, b)
}

/// Adds `key` to an ascending key list, keeping it ascending.
pub fn insert_key(v: &mut Vec<String>, key: String)
    requires
        ascending(old(v).deep_view()),
    ensures
        ascending(final(v).deep_view()),
        forall|x: Seq<char>|
            final(v).deep_view().contains(x) <==> (old(v).deep_view().contains(x) || x == key@),
{
    let ghost s0 = v.deep_view();
    let kc = chars_of(key.as_str());
    let mut p: usize = 0;
    let mut above = false;
    while p < v.len() && !above
        invariant
            p <= v@.len(),
            above ==> p < v@.len() && text_lt(key@, s0[p as int]),
            ascending(s0),
            v.deep_view() == s0,
            s0.len() == v@.len(),
            kc@ == key@,
            forall|l: int| 0 <= l < p ==> text_lt(#[trigger] s0[l], key@),
        decreases v@.len() - p + (if above { 0int } else { 1int }),
    {
        let vc = chars_of(v[p].as_str());
        let c = compare_text(vc.as_slice(), kc.as_slice());
        assert(s0[p as int] == v@[p as int]@);
        if c == 0 {
            assert(s0.contains(key@));
            return;
        }
        if c > 0 {
            above = true;
        } else {
            p = p + 1;
        }
    }
    // every key from p on is above `key`
    assert forall|l: int| p <= l < s0.len() implies text_lt(key@, #[trigger] s0[l]) by {
        assert(s0[p as int] == v@[p as int]@);
        if l > p {
            assert(text_lt(s0[p as int], s0[l]));
            lemma_text_lt_transitive(key@, s0[p as int], s0[l]);
        }
    }
    v.insert(p, key);
    let ghost s1 = v.deep_view();
    assert(s1 =~= s0.insert(p as int, key@)) by {
        assert forall|l: int| 0 <= l < s1.len() implies s1[l] == s0.insert(p as int, key@)[l] by {
            if l < p {
                assert(s1[l] == v@[l]@);
            } else if l > p {
                assert(s1[l] == v@[l]@);
            }
        }
    }
    assert forall|i: int, j: int| 0 <= i < j < s1.len() implies text_lt(
        #[trigger] s1[i],
        #[trigger] s1[j],
    ) by {
        if j < p {
        } else if j == p {
        } else if i < p {
            lemma_text_lt_transitive(s1[i], key@, s1[j]);
        } else if i == p {
        } else {
            assert(s1[i] == s0[i - 1] && s1[j] == s0[j - 1]);
        }
    }
    assert forall|x: Seq<char>| s1.contains(x) <==> (s0.contains(x) || x == key@) by {
        if s1.contains(x) {
            let l = choose|l: int| 0 <= l < s1.len() && s1[l] == x;
            if l < p {
                assert(s0[l] == x);
            } else if l > p {
                assert(s0[l - 1] == x);
            }
        }
        if s0.contains(x) {
            let l = choose|l: int| 0 <= l < s0.len() && s0[l] == x;
            if l < p {
                assert(s1[l] == x);
            } else {
                assert(s1[l + 1] == x);
            }
        }
        if x == key@ {
            assert(s1[p as int] == x);
        }
    }
}

} // verus!
