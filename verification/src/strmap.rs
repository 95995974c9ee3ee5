//! A map from strings to values, kept as a vector sorted by key in
//! lexicographic order.  The accumulated per-language configurations and
//! the synthesized-name mapping use it, so that emission order is stable
//! and the output is reproducible byte for byte.

use vstd::prelude::*;

use crate::text::{lemma_lex_transitive, lemma_lex_trichotomy, lex_lt, str_eq, str_lt};

verus! {

/// The key/value views of the entries.
pub open spec fn map_view<V: View>(m: Seq<(String, V)>) -> Seq<(Seq<char>, V::V)> {
    Seq::new(m.len(), |i: int| (m[i].0@, m[i].1@))
}

/// Strictly ascending keys.
pub open spec fn entries_sorted<T>(m: Seq<(Seq<char>, T)>) -> bool {
    forall|i: int, j: int| 0 <= i < j < m.len() ==> lex_lt(
        (#[trigger] m[i]).0,
        (#[trigger] m[j]).0,
    )
}

/// `m` with `v` bound to `k`: an existing binding of `k` is replaced, a new
/// key is placed where the order puts it.
pub open spec fn spec_map_insert<T>(m: Seq<(Seq<char>, T)>, k: Seq<char>, v: T) -> Seq<
    (Seq<char>, T),
>
    decreases m.len(),
{
    if m.len() == 0 {
        seq![(k, v)]
    } else if lex_lt(k, m.first().0) {
        seq![(k, v)] + m
    } else if k == m.first().0 {
        seq![(k, v)] + m.drop_first()
    } else {
        seq![m.first()] + spec_map_insert(m.drop_first(), k, v)
    }
}

/// The value bound to `k`, if any.
pub open spec fn spec_map_get<T>(m: Seq<(Seq<char>, T)>, k: Seq<char>) -> Option<T>
    decreases m.len(),
{
    if m.len() == 0 {
        None
    } else if m.first().0 == k {
        Some(m.first().1)
    } else {
        spec_map_get(m.drop_first(), k)
    }
}

proof fn lemma_map_insert_at<T>(m: Seq<(Seq<char>, T)>, k: Seq<char>, v: T, i: int)
    requires
        0 <= i <= m.len(),
        forall|j: int| 0 <= j < i ==> lex_lt((#[trigger] m[j]).0, k),
        i < m.len() ==> !lex_lt(m[i].0, k),
    ensures
        i < m.len() && m[i].0 == k ==> spec_map_insert(m, k, v) == m.update(i, (k, v)),
        !(i < m.len() && m[i].0 == k) ==> spec_map_insert(m, k, v) == m.subrange(0, i) + seq![
            (k, v),
        ] + m.subrange(i, m.len() as int),
    decreases m.len(),
{
    if m.len() == 0 {
        assert(spec_map_insert(m, k, v) =~= m.subrange(0, 0) + seq![(k, v)] + m.subrange(0, 0));
    } else if i == 0 {
        lemma_lex_trichotomy(k, m.first().0);
        if m[0].0 == k {
            assert(spec_map_insert(m, k, v) =~= m.update(0, (k, v)));
        } else {
            assert(lex_lt(k, m.first().0));
            assert(spec_map_insert(m, k, v) =~= m.subrange(0, 0) + seq![(k, v)] + m.subrange(
                0,
                m.len() as int,
            ));
        }
    } else {
        assert(lex_lt(m[0].0, k));
        lemma_lex_trichotomy(k, m.first().0);
        let d = m.drop_first();
        assert(forall|j: int| 0 <= j < i - 1 ==> lex_lt((#[trigger] d[j]).0, k));
        lemma_map_insert_at(d, k, v, i - 1);
        if i < m.len() && m[i].0 == k {
            assert(d[i - 1].0 == k);
            assert(spec_map_insert(d, k, v) == d.update(i - 1, (k, v)));
            assert(seq![m.first()] + d.update(i - 1, (k, v)) =~= m.update(i, (k, v)));
        } else {
            assert(seq![m.first()] + (d.subrange(0, i - 1) + seq![(k, v)] + d.subrange(
                i - 1,
                d.len() as int,
            )) =~= m.subrange(0, i) + seq![(k, v)] + m.subrange(i, m.len() as int));
        }
    }
}

proof fn lemma_map_insert_sorted<T>(m: Seq<(Seq<char>, T)>, k: Seq<char>, v: T)
    requires
        entries_sorted(m),
    ensures
        entries_sorted(spec_map_insert(m, k, v)),
    decreases m.len(),
{
    if m.len() == 0 {
    } else if lex_lt(k, m.first().0) {
        let r = seq![(k, v)] + m;
        assert forall|i: int, j: int| 0 <= i < j < r.len() implies lex_lt(
            (#[trigger] r[i]).0,
            (#[trigger] r[j]).0,
        ) by {
            if i == 0 {
                if j > 1 {
                    lemma_lex_transitive(k, m.first().0, m[j - 1].0);
                }
            } else {
                assert(r[i] == m[i - 1] && r[j] == m[j - 1]);
            }
        }
    } else if k == m.first().0 {
        let r = seq![(k, v)] + m.drop_first();
        assert forall|i: int, j: int| 0 <= i < j < r.len() implies lex_lt(
            (#[trigger] r[i]).0,
            (#[trigger] r[j]).0,
        ) by {
            if i == 0 {
                assert(r[j] == m[j]);
                assert(lex_lt(m[0].0, m[j].0));
            } else {
                assert(r[i] == m[i] && r[j] == m[j]);
            }
        }
    } else {
        assert(entries_sorted(m.drop_first()));
        lemma_map_insert_sorted(m.drop_first(), k, v);
        let rd = spec_map_insert(m.drop_first(), k, v);
        let r = seq![m.first()] + rd;
        lemma_lex_trichotomy(k, m.first().0);
        assert(lex_lt(m.first().0, k));
        lemma_insert_keys(m.drop_first(), k, v);
        assert forall|i: int, j: int| 0 <= i < j < r.len() implies lex_lt(
            (#[trigger] r[i]).0,
            (#[trigger] r[j]).0,
        ) by {
            if i == 0 {
                let kj = rd[j - 1].0;
                assert(kj == k || m.drop_first().to_set().map(
                    |p: (Seq<char>, T)| p.0,
                ).contains(kj) || exists|q: int|
                    0 <= q < m.drop_first().len() && (#[trigger] m.drop_first()[q]).0 == kj);
                if kj == k {
                } else {
                    let q = choose|q: int|
                        0 <= q < m.drop_first().len() && (#[trigger] m.drop_first()[q]).0 == kj;
                    assert(lex_lt(m[0].0, m[q + 1].0));
                }
            } else {
                assert(r[i] == rd[i - 1] && r[j] == rd[j - 1]);
            }
        }
    }
}

/// Every key of the inserted map is the new key or one of the old keys.
proof fn lemma_insert_keys<T>(m: Seq<(Seq<char>, T)>, k: Seq<char>, v: T)
    ensures
        forall|j: int| 0 <= j < spec_map_insert(m, k, v).len() ==> ((#[trigger] spec_map_insert(
            m,
            k,
            v,
        )[j]).0 == k || exists|q: int| 0 <= q < m.len() && (#[trigger] m[q]).0 == spec_map_insert(
            m,
            k,
            v,
        )[j].0),
    decreases m.len(),
{
    let r = spec_map_insert(m, k, v);
    if m.len() == 0 {
    } else if lex_lt(k, m.first().0) {
        assert forall|j: int| 0 <= j < r.len() implies ((#[trigger] r[j]).0 == k || exists|q: int|
            0 <= q < m.len() && (#[trigger] m[q]).0 == r[j].0) by {
            if j > 0 {
                assert(m[j - 1].0 == r[j].0);
            }
        }
    } else if k == m.first().0 {
        assert forall|j: int| 0 <= j < r.len() implies ((#[trigger] r[j]).0 == k || exists|q: int|
            0 <= q < m.len() && (#[trigger] m[q]).0 == r[j].0) by {
            if j > 0 {
                assert(m[j].0 == r[j].0);
            }
        }
    } else {
        lemma_insert_keys(m.drop_first(), k, v);
        let rd = spec_map_insert(m.drop_first(), k, v);
        assert forall|j: int| 0 <= j < r.len() implies ((#[trigger] r[j]).0 == k || exists|q: int|
            0 <= q < m.len() && (#[trigger] m[q]).0 == r[j].0) by {
            if j == 0 {
                assert(m[0].0 == r[0].0);
            } else {
                assert(r[j] == rd[j - 1]);
                let kj = rd[j - 1].0;
                if kj != k {
                    let q = choose|q: int|
                        0 <= q < m.drop_first().len() && (#[trigger] m.drop_first()[q]).0 == kj;
                    assert(m[q + 1].0 == r[j].0);
                }
            }
        }
    }
}

proof fn lemma_map_get_at<T>(m: Seq<(Seq<char>, T)>, k: Seq<char>, i: int)
    requires
        0 <= i <= m.len(),
        forall|j: int| 0 <= j < i ==> (#[trigger] m[j]).0 != k,
        i < m.len() ==> m[i].0 == k,
    ensures
        i < m.len() ==> spec_map_get(m, k) == Some(m[i].1),
        i == m.len() ==> spec_map_get(m, k) is None,
    decreases i,
{
    if m.len() == 0 {
    } else if i == 0 {
    } else {
        assert(m.first().0 != k);
        lemma_map_get_at(m.drop_first(), k, i - 1);
    }
}

/// A string-keyed map whose entries stay sorted by key.
pub struct StrMap<V> {
    pub entries: Vec<(String, V)>,
}

impl<V: View> StrMap<V> {
    pub open spec fn view_seq(&self) -> Seq<(Seq<char>, V::V)> {
        map_view(self.entries@)
    }

    pub open spec fn wf(&self) -> bool {
        entries_sorted(self.view_seq())
    }

    pub fn new() -> (r: Self)
        ensures
            r.wf(),
            r.view_seq() == Seq::<(Seq<char>, V::V)>::empty(),
    {
        let r = StrMap { entries: Vec::new() };
        proof {
            assert(r.view_seq() =~= Seq::<(Seq<char>, V::V)>::empty());
        }
        r
    }

    pub fn get<'a>(&'a self, k: &str) -> (r: Option<&'a V>)
        ensures
            match r {
                Some(rv) => spec_map_get(self.view_seq(), k@) == Some(rv@),
                None => spec_map_get(self.view_seq(), k@) is None,
            },
    {
        let ghost mv = self.view_seq();
        let mut i: usize = 0;
        while i < self.entries.len()
            invariant
                i <= self.entries@.len(),
                mv == self.view_seq(),
                forall|j: int| 0 <= j < i ==> (#[trigger] mv[j]).0 != k@,
            decreases self.entries@.len() - i,
        {
            if str_eq(self.entries[i].0.as_str(), k) {
                proof {
                    lemma_map_get_at(mv, k@, i as int);
                }
                return Some(&self.entries[i].1);
            }
            i = i + 1;
        }
        proof {
            lemma_map_get_at(mv, k@, mv.len() as int);
        }
        None
    }

    pub fn contains_key(&self, k: &str) -> (r: bool)
        ensures
            r == (spec_map_get(self.view_seq(), k@) is Some),
    {
        match self.get(k) {
            Some(_) => true,
            None => false,
        }
    }

    pub fn insert(&mut self, k: String, v: V)
        requires
            old(self).wf(),
        ensures
            final(self).wf(),
            final(self).view_seq() == spec_map_insert(old(self).view_seq(), k@, v@),
    {
        let ghost mv = self.view_seq();
        let ghost kv = k@;
        let mut i: usize = 0;
        while i < self.entries.len() && str_lt(self.entries[i].0.as_str(), k.as_str())
            invariant
                i <= self.entries@.len(),
                mv == self.view_seq(),
                kv == k@,
                forall|j: int| 0 <= j < i ==> lex_lt((#[trigger] mv[j]).0, kv),
            decreases self.entries@.len() - i,
        {
            i = i + 1;
        }
        proof {
            lemma_map_insert_at(mv, kv, v@, i as int);
            lemma_map_insert_sorted(mv, kv, v@);
        }
        if i < self.entries.len() && str_eq(self.entries[i].0.as_str(), k.as_str()) {
            self.entries.remove(i);
            self.entries.insert(i, (k, v));
            proof {
                assert(self.view_seq() =~= mv.update(i as int, (kv, v@)));
            }
        } else {
            self.entries.insert(i, (k, v));
            proof {
                assert(self.view_seq() =~= mv.subrange(0, i as int) + seq![(kv, v@)]
                    + mv.subrange(i as int, mv.len() as int));
            }
        }
    }

    pub fn len(&self) -> (r: usize)
        ensures
            r == self.view_seq().len(),
    {
        self.entries.len()
    }
}

} // verus!

verus! {

/// Looking a key up after an insert: the inserted key finds the new value,
/// any other key finds what it found before.
pub proof fn lemma_map_get_insert<T>(m: Seq<(Seq<char>, T)>, k: Seq<char>, v: T, q: Seq<char>)
    ensures
        spec_map_get(spec_map_insert(m, k, v), q) == (if q == k {
            Some(v)
        } else {
            spec_map_get(m, q)
        }),
    decreases m.len(),
{
    let r = spec_map_insert(m, k, v);
    if m.len() == 0 {
        assert(r.len() == 1);
        assert(r.first() == (k, v));
        if q != k {
            assert(r.drop_first() =~= Seq::<(Seq<char>, T)>::empty());
            assert(spec_map_get(r, q) is None);
        } else {
            assert(spec_map_get(r, q) == Some(v));
        }
    } else if lex_lt(k, m.first().0) {
        assert(r.first() == (k, v));
        if q != k {
            assert(r.drop_first() =~= m);
            assert(spec_map_get(r, q) == spec_map_get(m, q));
        } else {
            assert(spec_map_get(r, q) == Some(v));
        }
    } else if k == m.first().0 {
        assert(r.first() == (k, v));
        if q != k {
            assert(r.drop_first() =~= m.drop_first());
            assert(spec_map_get(r, q) == spec_map_get(m.drop_first(), q));
            assert(spec_map_get(m, q) == spec_map_get(m.drop_first(), q));
        } else {
            assert(spec_map_get(r, q) == Some(v));
        }
    } else {
        assert(r.first() == m.first());
        assert(r.drop_first() =~= spec_map_insert(m.drop_first(), k, v));
        lemma_map_get_insert(m.drop_first(), k, v, q);
        if q == m.first().0 {
            assert(spec_map_get(r, q) == Some(m.first().1));
            assert(spec_map_get(m, q) == Some(m.first().1));
            assert(q != k);
        } else {
            assert(spec_map_get(r, q) == spec_map_get(spec_map_insert(m.drop_first(), k, v), q));
            assert(spec_map_get(m, q) == spec_map_get(m.drop_first(), q));
        }
    }
}

impl<V: View> StrMap<V> {
    /// Hand the entries out, in key order.
    pub fn into_entries(self) -> (r: Vec<(String, V)>)
        ensures
            map_view(r@) == self.view_seq(),
    {
        self.entries
    }
}

} // verus!
