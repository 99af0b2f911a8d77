//! Maps from text keys to values, kept in ascending key order (the order and
//! the one-entry-per-key content of a `BTreeMap<String, V>`).

use vstd::prelude::*;

use crate::keys::{ascending, lemma_ascending_distinct};
use crate::text::{
    chars_of, compare_text, lemma_text_lt_irreflexive, lemma_text_lt_transitive, str_eq, text_lt,
};

verus! {

/// The value of the last entry with key `k`, if any.
pub open spec fn pget<V>(s: Seq<(String, V)>, k: Seq<char>) -> Option<V>
    decreases s.len(),
{
    if s.len() == 0 {
        None
    } else if s.last().0@ == k {
        Some(s.last().1)
    } else {
        pget(s.drop_last(), k)
    }
}

/// The keys of a list of entries, in order.
pub open spec fn entry_keys<V>(s: Seq<(String, V)>) -> Seq<Seq<char>> {
    Seq::new(s.len(), |i: int| s[i].0@)
}

/// The entry at `i`, with no later entry of the same key, gives the value.
pub proof fn lemma_pget_at<V>(s: Seq<(String, V)>, k: Seq<char>, i: int)
    requires
        0 <= i < s.len(),
        s[i].0@ == k,
        forall|j: int| i < j < s.len() ==> s[j].0@ != k,
    ensures
        pget(s, k) == Some(s[i].1),
    decreases s.len(),
{
    if i < s.len() - 1 {
        lemma_pget_at(s.drop_last(), k, i);
    }
}

/// A key with no entry has no value.
pub proof fn lemma_pget_none<V>(s: Seq<(String, V)>, k: Seq<char>)
    requires
        forall|j: int| 0 <= j < s.len() ==> s[j].0@ != k,
    ensures
        pget(s, k) is None,
    decreases s.len(),
{
    if s.len() > 0 {
        lemma_pget_none(s.drop_last(), k);
    }
}

/// A value found comes from some entry with that key.
pub proof fn lemma_pget_some<V>(s: Seq<(String, V)>, k: Seq<char>)
    requires
        pget(s, k) is Some,
    ensures
        exists|i: int| 0 <= i < s.len() && s[i].0@ == k && s[i].1 == pget(s, k).unwrap(),
    decreases s.len(),
{
    if s.last().0@ != k {
        lemma_pget_some(s.drop_last(), k);
        let i = choose|i: int|
            0 <= i < s.drop_last().len() && s.drop_last()[i].0@ == k && s.drop_last()[i].1 == pget(
                s.drop_last(),
                k,
            ).unwrap();
        assert(s[i] == s.drop_last()[i]);
    } else {
        assert(s[s.len() - 1].0@ == k);
    }
}

/// Entries appended after `s` decide a key they hold; other keys keep the
/// value they have in `s`.
pub proof fn lemma_pget_append<V>(s: Seq<(String, V)>, t: Seq<(String, V)>, k: Seq<char>)
    ensures
        pget(s + t, k) == match pget(t, k) {
            Some(v) => Some(v),
            None => pget(s, k),
        },
    decreases t.len(),
{
    if t.len() == 0 {
        assert(s + t =~= s);
    } else {
        assert((s + t).drop_last() =~= s + t.drop_last());
        assert((s + t).last() == t.last());
        lemma_pget_append(s, t.drop_last(), k);
    }
}

/// The value paired last with `k` in a list of key-value pairs, if any.
pub open spec fn lookup<T>(s: Seq<(Seq<char>, T)>, k: Seq<char>) -> Option<T>
    decreases s.len(),
{
    if s.len() == 0 {
        None
    } else if s.last().0 == k {
        Some(s.last().1)
    } else {
        lookup(s.drop_last(), k)
    }
}

/// A key paired with nothing has no value.
pub proof fn lemma_lookup_none<T>(s: Seq<(Seq<char>, T)>, k: Seq<char>)
    requires
        forall|j: int| 0 <= j < s.len() ==> s[j].0 != k,
    ensures
        lookup(s, k) is None,
    decreases s.len(),
{
    if s.len() > 0 {
        lemma_lookup_none(s.drop_last(), k);
    }
}

/// The pair at `i`, with no later pair of the same key, gives the value.
pub proof fn lemma_lookup_at<T>(s: Seq<(Seq<char>, T)>, k: Seq<char>, i: int)
    requires
        0 <= i < s.len(),
        s[i].0 == k,
        forall|j: int| i < j < s.len() ==> s[j].0 != k,
    ensures
        lookup(s, k) == Some(s[i].1),
    decreases s.len(),
{
    if i < s.len() - 1 {
        lemma_lookup_at(s.drop_last(), k, i);
    }
}

/// A value found comes from a pair with that key.
pub proof fn lemma_lookup_some<T>(s: Seq<(Seq<char>, T)>, k: Seq<char>)
    requires
        lookup(s, k) is Some,
    ensures
        exists|i: int| 0 <= i < s.len() && s[i].0 == k && s[i].1 == lookup(s, k).unwrap(),
    decreases s.len(),
{
    if s.last().0 != k {
        lemma_lookup_some(s.drop_last(), k);
        let i = choose|i: int|
            0 <= i < s.drop_last().len() && s.drop_last()[i].0 == k && s.drop_last()[i].1
                == lookup(s.drop_last(), k).unwrap();
        assert(s[i] == s.drop_last()[i]);
    } else {
        assert(s[s.len() - 1].0 == k);
    }
}

/// A map from text keys to values with one entry per key, in ascending key
/// order.
pub struct KeyMap<V> {
    entries: Vec<(String, V)>,
}

impl<V> KeyMap<V> {
    #[verifier::type_invariant]
    spec fn keys_ascending(self) -> bool {
        ascending(entry_keys(self.entries@))
    }

    /// The entries, in ascending key order.
    pub closed spec fn entries_view(self) -> Seq<(String, V)> {
        self.entries@
    }

    /// The value for `k`, if any.
    pub open spec fn spec_get(self, k: Seq<char>) -> Option<V> {
        pget(self.entries_view(), k)
    }

    /// The empty map.
    pub fn new() -> (r: Self)
        ensures
            r.entries_view() == Seq::<(String, V)>::empty(),
            forall|k: Seq<char>| r.spec_get(k) is None,
    {
        let r = KeyMap { entries: Vec::new() };
        assert(entry_keys(r.entries@) =~= Seq::<Seq<char>>::empty());
        r
    }

    /// The number of entries.
    pub fn len(&self) -> (r: usize)
        ensures
            r == self.entries_view().len(),
    {
        self.entries.len()
    }

    /// Whether there is no entry.
    pub fn is_empty(&self) -> (r: bool)
        ensures
            r == (self.entries_view().len() == 0),
    {
        self.entries.len() == 0
    }

    /// The entries in ascending key order.
    pub fn entries(&self) -> (r: &Vec<(String, V)>)
        ensures
            r@ == self.entries_view(),
            ascending(entry_keys(r@)),
    {
        proof {
            use_type_invariant(self);
        }
        &self.entries
    }

    /// The position of the entry with key `key`.
    fn position(&self, key: &str) -> (r: Option<usize>)
        ensures
            match r {
                Some(i) => i < self.entries_view().len() && self.entries_view()[i as int].0@
                    == key@,
                None => forall|j: int|
                    0 <= j < self.entries_view().len() ==> self.entries_view()[j].0@ != key@,
            },
    {
        let mut i: usize = 0;
        while i < self.entries.len()
            invariant
                i <= self.entries@.len(),
                forall|j: int| 0 <= j < i ==> self.entries@[j].0@ != key@,
            decreases self.entries@.len() - i,
        {
            if str_eq(self.entries[i].0.as_str(), key) {
                return Some(i);
            }
            i = i + 1;
        }
        None
    }

    /// The value for `key`.
    pub fn get(&self, key: &str) -> (r: Option<&V>)
        ensures
            r is Some <==> self.spec_get(key@) is Some,
            r is Some ==> *r.unwrap() == self.spec_get(key@).unwrap(),
    {
        proof {
            use_type_invariant(self);
        }
        match self.position(key) {
            Some(i) => {
                proof {
                    let s = self.entries@;
                    assert forall|j: int| i < j < s.len() implies s[j].0@ != key@ by {
                        lemma_ascending_distinct(entry_keys(s), i as int, j);
                    }
                    lemma_pget_at(s, key@, i as int);
                }
                Some(&self.entries[i].1)
            },
            None => {
                proof {
                    lemma_pget_none(self.entries@, key@);
                }
                None
            },
        }
    }

    /// Whether there is an entry for `key`.
    pub fn contains_key(&self, key: &str) -> (r: bool)
        ensures
            r == self.spec_get(key@) is Some,
    {
        self.get(key).is_some()
    }

    /// Sets the value for `key`, replacing the entry it has.
    pub fn insert(&mut self, key: String, value: V)
        ensures
            forall|k: Seq<char>|
                final(self).spec_get(k) == if k == key@ {
                    Some(value)
                } else {
                    old(self).spec_get(k)
                },
    {
        proof {
            use_type_invariant(&*self);
        }
        let ghost s0 = self.entries@;
        let ghost ks = entry_keys(s0);
        let mut es: Vec<(String, V)> = Vec::new();
        std::mem::swap(&mut es, &mut self.entries);
        let kc = chars_of(key.as_str());
        let mut p: usize = 0;
        let mut above = false;
        while p < es.len() && !above
            invariant
                p <= s0.len(),
                es@ == s0,
                s0 == old(self).entries_view(),
                ks == entry_keys(s0),
                ascending(ks),
                kc@ == key@,
                above ==> p < s0.len() && text_lt(key@, ks[p as int]),
                forall|l: int| 0 <= l < p ==> text_lt(#[trigger] ks[l], key@),
            decreases s0.len() - p + (if above {
                0int
            } else {
                1int
            }),
        {
            let ec = chars_of(es[p].0.as_str());
            let c = compare_text(ec.as_slice(), kc.as_slice());
            if c == 0 {
                assert(ks[p as int] == key@);
                let ghost s1 = s0.update(p as int, (key, value));
                let _old_entry = es.remove(p);
                es.insert(p, (key, value));
                proof {
                    assert(es@ =~= s1);
                    assert(entry_keys(s1) =~= ks);
                    assert forall|k: Seq<char>| #[trigger]
                        pget(s1, k) == if k == key@ {
                            Some(value)
                        } else {
                            pget(s0, k)
                        } by {
                        if k == key@ {
                            assert forall|j: int| p < j < s1.len() implies s1[j].0@ != k by {
                                lemma_ascending_distinct(ks, p as int, j);
                            }
                            lemma_pget_at(s1, k, p as int);
                        } else {
                            let other = exists|j: int| 0 <= j < s0.len() && s0[j].0@ == k;
                            if other {
                                let j = choose|j: int| 0 <= j < s0.len() && s0[j].0@ == k;
                                assert forall|l: int| j < l < s0.len() implies s0[l].0@ != k by {
                                    lemma_ascending_distinct(ks, j, l);
                                }
                                assert forall|l: int| j < l < s1.len() implies s1[l].0@ != k by {
                                    lemma_ascending_distinct(ks, j, l);
                                }
                                lemma_pget_at(s0, k, j);
                                lemma_pget_at(s1, k, j);
                            } else {
                                lemma_pget_none(s0, k);
                                lemma_pget_none(s1, k);
                            }
                        }
                    }
                }
                self.entries = es;
                return;
            }
            if c > 0 {
                above = true;
            } else {
                p = p + 1;
            }
        }
        assert forall|l: int| p <= l < s0.len() implies text_lt(key@, #[trigger] ks[l]) by {
            if l > p {
                assert(text_lt(ks[p as int], ks[l]));
                lemma_text_lt_transitive(key@, ks[p as int], ks[l]);
            }
        }
        es.insert(p, (key, value));
        proof {
            let s1 = es@;
            assert(s1 =~= s0.insert(p as int, (key, value)));
            let ks1 = entry_keys(s1);
            assert forall|i: int, j: int| 0 <= i < j < ks1.len() implies text_lt(
                #[trigger] ks1[i],
                #[trigger] ks1[j],
            ) by {
                if j < p {
                    assert(ks1[i] == ks[i] && ks1[j] == ks[j]);
                } else if j == p {
                    assert(ks1[i] == ks[i]);
                } else if i < p {
                    assert(ks1[i] == ks[i] && ks1[j] == ks[j - 1]);
                    lemma_text_lt_transitive(ks1[i], key@, ks1[j]);
                } else if i == p {
                    assert(ks1[j] == ks[j - 1]);
                } else {
                    assert(ks1[i] == ks[i - 1] && ks1[j] == ks[j - 1]);
                }
            }
            assert forall|k: Seq<char>| #[trigger]
                pget(s1, k) == if k == key@ {
                    Some(value)
                } else {
                    pget(s0, k)
                } by {
                if k == key@ {
                    assert forall|j: int| p < j < s1.len() implies s1[j].0@ != k by {
                        assert(s1[j] == s0[j - 1]);
                        assert(ks[j - 1] == s0[j - 1].0@);
                        assert(text_lt(key@, ks[j - 1]));
                        lemma_text_lt_irreflexive(k);
                    }
                    lemma_pget_at(s1, k, p as int);
                } else {
                    let other = exists|j: int| 0 <= j < s0.len() && s0[j].0@ == k;
                    if other {
                        let j = choose|j: int| 0 <= j < s0.len() && s0[j].0@ == k;
                        assert forall|l: int| j < l < s0.len() implies s0[l].0@ != k by {
                            lemma_ascending_distinct(ks, j, l);
                        }
                        let j1 = if j < p {
                            j
                        } else {
                            j + 1
                        };
                        assert(s1[j1] == s0[j]);
                        assert forall|l: int| j1 < l < s1.len() implies s1[l].0@ != k by {
                            if l == p {
                            } else if l < p {
                                assert(s1[l] == s0[l]);
                                lemma_ascending_distinct(ks, j, l);
                            } else {
                                assert(s1[l] == s0[l - 1]);
                                lemma_ascending_distinct(ks, j, l - 1);
                            }
                        }
                        lemma_pget_at(s0, k, j);
                        lemma_pget_at(s1, k, j1);
                    } else {
                        lemma_pget_none(s0, k);
                        assert forall|l: int| 0 <= l < s1.len() implies s1[l].0@ != k by {
                            if l < p {
                                assert(s1[l] == s0[l]);
                            } else if l > p {
                                assert(s1[l] == s0[l - 1]);
                            }
                        }
                        lemma_pget_none(s1, k);
                    }
                }
            }
        }
        self.entries = es;
    }
}

} // verus!
