//! A map from names to values kept in ascending name order, the way the
//! configuration file's tables are read and written.
use vstd::prelude::*;
use crate::text::{lex_lt, str_eq, str_lt, lemma_lex_lt_irreflexive, lemma_lex_lt_total,
    lemma_lex_lt_transitive, lemma_lex_lt_asymmetric};

verus! {

/// Entries whose names are in strictly ascending order.
pub open spec fn sorted_keys<T>(s: Seq<(Seq<char>, T)>) -> bool {
    forall|i: int, j: int| 0 <= i < j < s.len() ==> lex_lt(#[trigger] s[i].0, #[trigger] s[j].0)
}

/// Some entry of `s` is named `k`.
pub open spec fn has_key<T>(s: Seq<(Seq<char>, T)>, k: Seq<char>) -> bool {
    exists|i: int| 0 <= i < s.len() && #[trigger] s[i].0 == k
}

/// The position of the entry named `k` (meaningful when `has_key(s, k)`).
pub open spec fn key_index<T>(s: Seq<(Seq<char>, T)>, k: Seq<char>) -> int {
    choose|i: int| 0 <= i < s.len() && #[trigger] s[i].0 == k
}

/// The value stored under `k`, if any.
pub open spec fn lookup<T>(s: Seq<(Seq<char>, T)>, k: Seq<char>) -> Option<T> {
    if has_key(s, k) {
        Some(s[key_index(s, k)].1)
    } else {
        None
    }
}

/// The names of the entries, in order.
pub open spec fn keys_of<T>(s: Seq<(Seq<char>, T)>) -> Seq<Seq<char>> {
    s.map_values(|e: (Seq<char>, T)| e.0)
}

/// In sorted entries, a name occurs at one position only.
pub proof fn lemma_sorted_unique<T>(s: Seq<(Seq<char>, T)>, i: int, j: int)
    requires
        sorted_keys(s),
        0 <= i < s.len(),
        0 <= j < s.len(),
        s[i].0 == s[j].0,
    ensures
        i == j,
{
    if i < j {
        assert(lex_lt(s[i].0, s[j].0));
        lemma_lex_lt_irreflexive(s[i].0);
    } else if j < i {
        assert(lex_lt(s[j].0, s[i].0));
        lemma_lex_lt_irreflexive(s[i].0);
    }
}

/// In sorted entries, `lookup` finds the value at the position of the name.
pub proof fn lemma_lookup_at<T>(s: Seq<(Seq<char>, T)>, i: int)
    requires
        sorted_keys(s),
        0 <= i < s.len(),
    ensures
        lookup(s, s[i].0) == Some(s[i].1),
        key_index(s, s[i].0) == i,
{
    assert(has_key(s, s[i].0));
    let j = key_index(s, s[i].0);
    lemma_sorted_unique(s, i, j);
}

/// A map from names to values, iterated in ascending name order.
pub struct StrMap<T> {
    entries: Vec<(String, T)>,
}

impl<T> View for StrMap<T> {
    type V = Seq<(Seq<char>, T)>;

    closed spec fn view(&self) -> Seq<(Seq<char>, T)> {
        self.entries@.map_values(|e: (String, T)| (e.0@, e.1))
    }
}

impl<T> StrMap<T> {
    #[verifier::type_invariant]
    spec fn inv(self) -> bool {
        sorted_keys(self@)
    }

    /// An empty map.
    pub fn new() -> (m: Self)
        ensures
            m@ == Seq::<(Seq<char>, T)>::empty(),
    {
        let m = StrMap { entries: Vec::new() };
        assert(m@ =~= Seq::<(Seq<char>, T)>::empty());
        m
    }

    /// The number of entries (the entries are always in strictly ascending name order).
    pub fn len(&self) -> (n: usize)
        ensures
            n == self@.len(),
            sorted_keys(self@),
    {
        proof {
            use_type_invariant(self);
        }
        self.entries.len()
    }

    /// Whether the map has no entries.
    pub fn is_empty(&self) -> (b: bool)
        ensures
            b == (self@.len() == 0),
    {
        self.entries.len() == 0
    }

    /// The name and value of the `i`-th entry in name order.
    pub fn entry(&self, i: usize) -> (r: (&String, &T))
        requires
            i < self@.len(),
        ensures
            r.0@ == self@[i as int].0,
            *r.1 == self@[i as int].1,
    {
        let e = &self.entries[i];
        (&e.0, &e.1)
    }

    /// The position of the entry named `k`, if there is one.
    pub fn position(&self, k: &str) -> (r: Option<usize>)
        ensures
            r is Some <==> has_key(self@, k@),
            r matches Some(i) ==> i < self@.len() && self@[i as int].0 == k@,
    {
        let mut i: usize = 0;
        while i < self.entries.len()
            invariant
                i <= self@.len(),
                self@.len() == self.entries@.len(),
                forall|j: int| 0 <= j < i ==> self@[j].0 != k@,
            decreases self.entries.len() - i,
        {
            if str_eq(self.entries[i].0.as_str(), k) {
                assert(self@[i as int].0 == k@);
                return Some(i);
            }
            i = i + 1;
        }
        None
    }

    /// Whether some entry is named `k`.
    pub fn contains_key(&self, k: &str) -> (b: bool)
        ensures
            b == has_key(self@, k@),
    {
        self.position(k).is_some()
    }

    /// The value stored under `k`, if any.
    pub fn get(&self, k: &str) -> (r: Option<&T>)
        ensures
            r is Some <==> has_key(self@, k@),
            r matches Some(v) ==> lookup(self@, k@) == Some(*v),
    {
        proof {
            use_type_invariant(self);
        }
        match self.position(k) {
            Some(i) => {
                proof {
                    lemma_lookup_at(self@, i as int);
                }
                Some(&self.entries[i].1)
            },
            None => None,
        }
    }

    /// Stores `v` under `k`, replacing what was there; returns the replaced value.
    pub fn insert(&mut self, k: String, v: T) -> (r: Option<T>)
        ensures
            r == lookup(old(self)@, k@),
            forall|x: Seq<char>|
                #[trigger] lookup(final(self)@, x) == (if x == k@ {
                    Some(v)
                } else {
                    lookup(old(self)@, x)
                }),
            forall|x: Seq<char>|
                #[trigger] has_key(final(self)@, x) == (x == k@ || has_key(old(self)@, x)),
    {
        proof {
            use_type_invariant(&*self);
        }
        let ghost s = self@;
        let mut p: usize = 0;
        while p < self.entries.len() && str_lt(self.entries[p].0.as_str(), k.as_str())
            invariant
                p <= s.len(),
                s == self@,
                s.len() == self.entries@.len(),
                forall|j: int| 0 <= j < p ==> lex_lt(s[j].0, k@),
            decreases self.entries.len() - p,
        {
            p = p + 1;
        }
        let mut entries = Vec::new();
        std::mem::swap(&mut entries, &mut self.entries);
        let found = p < entries.len() && str_eq(entries[p].0.as_str(), k.as_str());
        let ghost kv = k@;
        let ghost vv = v;
        let r;
        if found {
            let old_e = entries.remove(p);
            entries.insert(p, (k, v));
            r = Some(old_e.1);
            let ghost t = entries@.map_values(|e: (String, T)| (e.0@, e.1));
            proof {
                assert(t =~= s.update(p as int, (kv, vv)));
                lemma_lookup_at(s, p as int);
                assert forall|i: int, j: int| 0 <= i < j < t.len() implies lex_lt(
                    #[trigger] t[i].0,
                    #[trigger] t[j].0,
                ) by {
                    assert(t[i].0 == s[i].0);
                    assert(t[j].0 == s[j].0);
                }
                self.lemma_after_replace(s, t, p as int, kv, vv);
            }
        } else {
            entries.insert(p, (k, v));
            r = None;
            let ghost t = entries@.map_values(|e: (String, T)| (e.0@, e.1));
            proof {
                assert(t =~= s.insert(p as int, (kv, vv)));
                if p < s.len() {
                    lemma_lex_lt_total(s[p as int].0, kv);
                    assert(lex_lt(kv, s[p as int].0));
                }
                assert forall|m: int| p <= m < s.len() implies lex_lt(kv, #[trigger] s[m].0) by {
                    if m > p {
                        lemma_lex_lt_transitive(kv, s[p as int].0, s[m].0);
                    }
                }
                assert forall|i: int, j: int| 0 <= i < j < t.len() implies lex_lt(
                    #[trigger] t[i].0,
                    #[trigger] t[j].0,
                ) by {
                    if j < p {
                    } else if j == p {
                    } else if i < p {
                        assert(lex_lt(kv, s[j - 1].0));
                        lemma_lex_lt_transitive(s[i].0, kv, s[j - 1].0);
                    } else if i == p {
                        assert(lex_lt(kv, s[j - 1].0));
                    } else {
                    }
                }
                self.lemma_after_insert(s, t, p as int, kv, vv);
            }
        }
        self.entries = entries;
        r
    }

    proof fn lemma_after_replace(
        &self,
        s: Seq<(Seq<char>, T)>,
        t: Seq<(Seq<char>, T)>,
        p: int,
        k: Seq<char>,
        v: T,
    )
        requires
            sorted_keys(s),
            sorted_keys(t),
            0 <= p < s.len(),
            s[p].0 == k,
            t == s.update(p, (k, v)),
        ensures
            forall|x: Seq<char>|
                #[trigger] lookup(t, x) == (if x == k {
                    Some(v)
                } else {
                    lookup(s, x)
                }),
            forall|x: Seq<char>| #[trigger] has_key(t, x) == (x == k || has_key(s, x)),
    {
        assert forall|x: Seq<char>| #[trigger] has_key(t, x) == (x == k || has_key(s, x)) by {
            if has_key(s, x) {
                let i = choose|i: int| 0 <= i < s.len() && #[trigger] s[i].0 == x;
                assert(t[i].0 == x);
            }
            if has_key(t, x) {
                let i = choose|i: int| 0 <= i < t.len() && #[trigger] t[i].0 == x;
                assert(s[i].0 == x);
            }
            if x == k {
                assert(t[p].0 == x);
            }
        }
        assert forall|x: Seq<char>|
            #[trigger] lookup(t, x) == (if x == k {
                Some(v)
            } else {
                lookup(s, x)
            }) by {
            if has_key(t, x) {
                let i = choose|i: int| 0 <= i < t.len() && #[trigger] t[i].0 == x;
                lemma_lookup_at(t, i);
                lemma_lookup_at(s, i);
            }
        }
    }

    proof fn lemma_after_insert(
        &self,
        s: Seq<(Seq<char>, T)>,
        t: Seq<(Seq<char>, T)>,
        p: int,
        k: Seq<char>,
        v: T,
    )
        requires
            sorted_keys(s),
            sorted_keys(t),
            0 <= p <= s.len(),
            t == s.insert(p, (k, v)),
        ensures
            lookup(s, k) is None,
            forall|x: Seq<char>|
                #[trigger] lookup(t, x) == (if x == k {
                    Some(v)
                } else {
                    lookup(s, x)
                }),
            forall|x: Seq<char>| #[trigger] has_key(t, x) == (x == k || has_key(s, x)),
    {
        if has_key(s, k) {
            let i = choose|i: int| 0 <= i < s.len() && #[trigger] s[i].0 == k;
            if i < p {
                assert(t[i].0 == k);
            } else {
                assert(t[i + 1].0 == k);
            }
            assert(t[p].0 == k);
            lemma_sorted_unique(t, p, if i < p { i } else { i + 1 });
        }
        assert forall|x: Seq<char>| #[trigger] has_key(t, x) == (x == k || has_key(s, x)) by {
            if has_key(s, x) {
                let i = choose|i: int| 0 <= i < s.len() && #[trigger] s[i].0 == x;
                if i < p {
                    assert(t[i].0 == x);
                } else {
                    assert(t[i + 1].0 == x);
                }
            }
            if has_key(t, x) {
                let i = choose|i: int| 0 <= i < t.len() && #[trigger] t[i].0 == x;
                if i < p {
                    assert(s[i].0 == x);
                } else if i > p {
                    assert(s[i - 1].0 == x);
                }
            }
            if x == k {
                assert(t[p].0 == x);
            }
        }
        assert forall|x: Seq<char>|
            #[trigger] lookup(t, x) == (if x == k {
                Some(v)
            } else {
                lookup(s, x)
            }) by {
            if has_key(t, x) {
                let i = choose|i: int| 0 <= i < t.len() && #[trigger] t[i].0 == x;
                lemma_lookup_at(t, i);
                if i < p {
                    lemma_lookup_at(s, i);
                } else if i > p {
                    lemma_lookup_at(s, i - 1);
                }
            }
        }
    }

    /// Removes the entry named `k`; returns its value.
    pub fn remove(&mut self, k: &str) -> (r: Option<T>)
        ensures
            r == lookup(old(self)@, k@),
            forall|x: Seq<char>|
                #[trigger] lookup(final(self)@, x) == (if x == k@ {
                    None
                } else {
                    lookup(old(self)@, x)
                }),
            forall|x: Seq<char>|
                #[trigger] has_key(final(self)@, x) == (x != k@ && has_key(old(self)@, x)),
    {
        proof {
            use_type_invariant(&*self);
        }
        let ghost s = self@;
        match self.position(k) {
            None => {
                assert forall|x: Seq<char>| #[trigger] lookup(self@, x) == (if x == k@ {
                    None
                } else {
                    lookup(s, x)
                }) by {}
                None
            },
            Some(p) => {
                proof {
                    lemma_lookup_at(s, p as int);
                }
                let mut entries = Vec::new();
                std::mem::swap(&mut entries, &mut self.entries);
                let e = entries.remove(p);
                let ghost t = entries@.map_values(|e: (String, T)| (e.0@, e.1));
                proof {
                    assert(t =~= s.remove(p as int));
                    assert forall|i: int, j: int| 0 <= i < j < t.len() implies lex_lt(
                        #[trigger] t[i].0,
                        #[trigger] t[j].0,
                    ) by {
                        if i < p && j < p {
                        } else if i < p {
                            assert(t[j].0 == s[j + 1].0);
                        } else {
                            assert(t[i].0 == s[i + 1].0);
                            assert(t[j].0 == s[j + 1].0);
                        }
                    }
                    self.lemma_after_remove(s, t, p as int);
                }
                self.entries = entries;
                Some(e.1)
            },
        }
    }

    proof fn lemma_after_remove(&self, s: Seq<(Seq<char>, T)>, t: Seq<(Seq<char>, T)>, p: int)
        requires
            sorted_keys(s),
            sorted_keys(t),
            0 <= p < s.len(),
            t == s.remove(p),
        ensures
            forall|x: Seq<char>|
                #[trigger] lookup(t, x) == (if x == s[p].0 {
                    None
                } else {
                    lookup(s, x)
                }),
            forall|x: Seq<char>| #[trigger] has_key(t, x) == (x != s[p].0 && has_key(s, x)),
    {
        let k = s[p].0;
        assert forall|x: Seq<char>| #[trigger] has_key(t, x) == (x != k && has_key(s, x)) by {
            if has_key(s, x) && x != k {
                let i = choose|i: int| 0 <= i < s.len() && #[trigger] s[i].0 == x;
                if i < p {
                    assert(t[i].0 == x);
                } else {
                    assert(t[i - 1].0 == x);
                }
            }
            if has_key(t, x) {
                let i = choose|i: int| 0 <= i < t.len() && #[trigger] t[i].0 == x;
                if i < p {
                    assert(s[i].0 == x);
                    if x == k {
                        lemma_sorted_unique(s, i, p);
                    }
                } else {
                    assert(s[i + 1].0 == x);
                    if x == k {
                        lemma_sorted_unique(s, i + 1, p);
                    }
                }
            }
        }
        assert forall|x: Seq<char>|
            #[trigger] lookup(t, x) == (if x == k {
                None
            } else {
                lookup(s, x)
            }) by {
            if has_key(t, x) {
                let i = choose|i: int| 0 <= i < t.len() && #[trigger] t[i].0 == x;
                lemma_lookup_at(t, i);
                if i < p {
                    lemma_lookup_at(s, i);
                } else {
                    lemma_lookup_at(s, i + 1);
                }
            }
        }
    }
}

} // verus!
