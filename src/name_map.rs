//! A map from names (byte strings) to values, kept sorted by name.
use vstd::prelude::*;
use crate::bytes::{bytes_eq, bytes_lt, lex_lt, lemma_lex_irreflexive, lemma_lex_total, lemma_lex_transitive};

verus! {

/// Whether the names of `s` are strictly increasing (so also unique).
pub open spec fn sorted_by_name<V>(s: Seq<(Seq<u8>, V)>) -> bool {
    forall|i: int, j: int| 0 <= i < j < s.len() ==> lex_lt(#[trigger] s[i].0, #[trigger] s[j].0)
}

/// Whether `k` is the name of an entry of `s`.
pub open spec fn has_name<V>(s: Seq<(Seq<u8>, V)>, k: Seq<u8>) -> bool {
    exists|i: int| 0 <= i < s.len() && #[trigger] s[i].0 == k
}

/// The names of `s`, in order.
pub open spec fn names_of<V>(s: Seq<(Seq<u8>, V)>) -> Seq<Seq<u8>> {
    s.map_values(|e: (Seq<u8>, V)| e.0)
}

/// `s` with `(k, v)` put at its place by name, replacing an entry of the same name.
pub open spec fn insert_sorted<V>(s: Seq<(Seq<u8>, V)>, k: Seq<u8>, v: V) -> Seq<(Seq<u8>, V)>
    decreases s.len(),
{
    if s.len() == 0 {
        seq![(k, v)]
    } else if s[0].0 == k {
        seq![(k, v)] + s.drop_first()
    } else if lex_lt(k, s[0].0) {
        seq![(k, v)] + s
    } else {
        seq![s[0]] + insert_sorted(s.drop_first(), k, v)
    }
}

/// The value stored under `k` in `s`, if any.
pub open spec fn lookup<V>(s: Seq<(Seq<u8>, V)>, k: Seq<u8>) -> Option<V>
    decreases s.len(),
{
    if s.len() == 0 {
        None
    } else if s[0].0 == k {
        Some(s[0].1)
    } else {
        lookup(s.drop_first(), k)
    }
}

proof fn lemma_insert_at<V>(s: Seq<(Seq<u8>, V)>, k: Seq<u8>, v: V, p: int)
    requires
        sorted_by_name(s),
        0 <= p <= s.len(),
        forall|i: int| 0 <= i < p ==> lex_lt(#[trigger] s[i].0, k),
        p < s.len() ==> !lex_lt(s[p].0, k),
    ensures
        p < s.len() && s[p].0 == k ==> insert_sorted(s, k, v) == s.update(p, (k, v)),
        !(p < s.len() && s[p].0 == k) ==> insert_sorted(s, k, v) == s.insert(p, (k, v)),
    decreases s.len(),
{
    if s.len() == 0 {
        assert(seq![(k, v)] =~= s.insert(p, (k, v)));
    } else if p == 0 {
        lemma_lex_total(s[0].0, k);
        if s[0].0 == k {
            assert(seq![(k, v)] + s.drop_first() =~= s.update(0, (k, v)));
        } else {
            assert(seq![(k, v)] + s =~= s.insert(0, (k, v)));
        }
    } else {
        assert(lex_lt(s[0].0, k));
        lemma_lex_total(s[0].0, k);
        lemma_lex_irreflexive(k);
        let t = s.drop_first();
        assert forall|i: int| 0 <= i < p - 1 implies lex_lt(#[trigger] t[i].0, k) by {
            assert(t[i] == s[i + 1]);
        }
        lemma_insert_at(t, k, v, p - 1);
        if p < s.len() && s[p].0 == k {
            assert(seq![s[0]] + t.update(p - 1, (k, v)) =~= s.update(p, (k, v)));
        } else {
            assert(seq![s[0]] + t.insert(p - 1, (k, v)) =~= s.insert(p, (k, v)));
        }
    }
}

/// Inserting keeps the names strictly sorted.
pub proof fn lemma_insert_sorted<V>(s: Seq<(Seq<u8>, V)>, k: Seq<u8>, v: V)
    requires
        sorted_by_name(s),
    ensures
        sorted_by_name(insert_sorted(s, k, v)),
        insert_sorted(s, k, v).len() == if has_name(s, k) { s.len() } else { s.len() + 1 },
        has_name(insert_sorted(s, k, v), k),
        forall|j: Seq<u8>| has_name(insert_sorted(s, k, v), j) <==> (j == k || has_name(s, j)),
        lookup(insert_sorted(s, k, v), k) == Some(v),
        forall|j: Seq<u8>| j != k ==> lookup(insert_sorted(s, k, v), j) == lookup(s, j),
    decreases s.len(),
{
    let r = insert_sorted(s, k, v);
    if s.len() == 0 {
        assert(r[0].0 == k);
        assert(!has_name(s, k));
        assert forall|j: Seq<u8>| has_name(r, j) <==> (j == k || has_name(s, j)) by {
            if has_name(r, j) {
                let i = choose|i: int| 0 <= i < r.len() && r[i].0 == j;
                assert(i == 0);
            }
        }
        assert forall|j: Seq<u8>| j != k implies lookup(r, j) == lookup(s, j) by {
            assert(r.drop_first().len() == 0);
            assert(lookup(r.drop_first(), j) == None::<V>);
        }
    } else {
        let t = s.drop_first();
        assert forall|i: int, j: int| 0 <= i < j < t.len() implies lex_lt(#[trigger] t[i].0, #[trigger] t[j].0) by {
            assert(t[i] == s[i + 1] && t[j] == s[j + 1]);
        }
        assert forall|j: Seq<u8>| has_name(s, j) <==> (j == s[0].0 || has_name(t, j)) by {
            if has_name(s, j) && j != s[0].0 {
                let i = choose|i: int| 0 <= i < s.len() && s[i].0 == j;
                assert(t[i - 1].0 == j);
            }
            if has_name(t, j) {
                let i = choose|i: int| 0 <= i < t.len() && t[i].0 == j;
                assert(s[i + 1].0 == j);
            }
            if j == s[0].0 {
                assert(s[0].0 == j);
            }
        }
        assert forall|i: int| 0 <= i < t.len() implies lex_lt(s[0].0, #[trigger] t[i].0) by {
            assert(t[i] == s[i + 1]);
        }
        assert(!has_name(t, s[0].0)) by {
            if has_name(t, s[0].0) {
                let i = choose|i: int| 0 <= i < t.len() && t[i].0 == s[0].0;
                lemma_lex_irreflexive(s[0].0);
            }
        }
        lemma_lex_total(k, s[0].0);
        if s[0].0 == k {
            assert(r =~= seq![(k, v)] + t);
            assert forall|i: int, j: int| 0 <= i < j < r.len() implies lex_lt(#[trigger] r[i].0, #[trigger] r[j].0) by {
                if i == 0 {
                    assert(r[j] == s[j]);
                } else {
                    assert(r[i] == s[i] && r[j] == s[j]);
                }
            }
            assert forall|j: Seq<u8>| has_name(r, j) <==> (j == k || has_name(s, j)) by {
                if has_name(r, j) && j != k {
                    let i = choose|i: int| 0 <= i < r.len() && r[i].0 == j;
                    assert(r[i] == s[i]);
                }
                if has_name(s, j) {
                    let i = choose|i: int| 0 <= i < s.len() && s[i].0 == j;
                    if i > 0 { assert(r[i] == s[i]); } else { assert(r[0].0 == j); }
                }
            }
            assert(r.drop_first() =~= t);
            assert(r[0].0 == k);
            assert forall|j: Seq<u8>| j != k implies lookup(r, j) == lookup(s, j) by {
                assert(lookup(r, j) == lookup(r.drop_first(), j));
            }
        } else if lex_lt(k, s[0].0) {
            assert(r =~= seq![(k, v)] + s);
            assert forall|i: int, j: int| 0 <= i < j < r.len() implies lex_lt(#[trigger] r[i].0, #[trigger] r[j].0) by {
                if i == 0 {
                    assert(r[j] == s[j - 1]);
                    if j > 1 {
                        lemma_lex_transitive(k, s[0].0, s[j - 1].0);
                    }
                } else {
                    assert(r[i] == s[i - 1] && r[j] == s[j - 1]);
                }
            }
            assert(!has_name(s, k)) by {
                if has_name(s, k) {
                    let i = choose|i: int| 0 <= i < s.len() && s[i].0 == k;
                    if i > 0 {
                        lemma_lex_transitive(k, s[0].0, s[i].0);
                    }
                    lemma_lex_irreflexive(k);
                }
            }
            assert forall|j: Seq<u8>| has_name(r, j) <==> (j == k || has_name(s, j)) by {
                if has_name(r, j) && j != k {
                    let i = choose|i: int| 0 <= i < r.len() && r[i].0 == j;
                    assert(r[i] == s[i - 1]);
                }
                if has_name(s, j) {
                    let i = choose|i: int| 0 <= i < s.len() && s[i].0 == j;
                    assert(r[i + 1] == s[i]);
                }
                if j == k {
                    assert(r[0].0 == j);
                }
            }
            assert(r.drop_first() =~= s);
            assert(r[0].0 == k);
            assert forall|j: Seq<u8>| j != k implies lookup(r, j) == lookup(s, j) by {
                assert(lookup(r, j) == lookup(r.drop_first(), j));
            }
        } else {
            lemma_insert_sorted(t, k, v);
            let rt = insert_sorted(t, k, v);
            assert(r =~= seq![s[0]] + rt);
            assert forall|i: int| 0 <= i < rt.len() implies lex_lt(s[0].0, #[trigger] rt[i].0) by {
                assert(has_name(rt, rt[i].0));
                if rt[i].0 != k {
                    assert(has_name(t, rt[i].0));
                    let m = choose|m: int| 0 <= m < t.len() && t[m].0 == rt[i].0;
                    assert(t[m] == s[m + 1]);
                }
            }
            assert forall|i: int, j: int| 0 <= i < j < r.len() implies lex_lt(#[trigger] r[i].0, #[trigger] r[j].0) by {
                if i == 0 {
                    assert(r[j] == rt[j - 1]);
                } else {
                    assert(r[i] == rt[i - 1] && r[j] == rt[j - 1]);
                }
            }
            assert forall|j: Seq<u8>| has_name(r, j) <==> (j == s[0].0 || has_name(rt, j)) by {
                if has_name(r, j) && j != s[0].0 {
                    let i = choose|i: int| 0 <= i < r.len() && r[i].0 == j;
                    assert(rt[i - 1].0 == j);
                }
                if has_name(rt, j) {
                    let i = choose|i: int| 0 <= i < rt.len() && rt[i].0 == j;
                    assert(r[i + 1].0 == j);
                }
                if j == s[0].0 {
                    assert(r[0].0 == j);
                }
            }
            assert(r.drop_first() =~= rt);
            assert(r[0] == s[0]);
            assert forall|j: Seq<u8>| j != k implies lookup(r, j) == lookup(s, j) by {
                if j != s[0].0 {
                    assert(lookup(r, j) == lookup(rt, j));
                    assert(lookup(s, j) == lookup(t, j));
                } else {
                    assert(lookup(r, j) == Some(r[0].1));
                    assert(lookup(s, j) == Some(s[0].1));
                }
            }
        }
    }
}

/// The entries of `s` with `f` applied to each value.
pub open spec fn map_vals<V, W>(s: Seq<(Seq<u8>, V)>, f: spec_fn(V) -> W) -> Seq<(Seq<u8>, W)> {
    s.map_values(|e: (Seq<u8>, V)| (e.0, f(e.1)))
}

/// Applying `f` to the values keeps the names, so also their order.
pub proof fn lemma_map_vals<V, W>(s: Seq<(Seq<u8>, V)>, f: spec_fn(V) -> W)
    ensures
        sorted_by_name(map_vals(s, f)) == sorted_by_name(s),
        forall|k: Seq<u8>| has_name(map_vals(s, f), k) == has_name(s, k),
        names_of(map_vals(s, f)) == names_of(s),
{
    let t = map_vals(s, f);
    assert forall|k: Seq<u8>| has_name(t, k) == has_name(s, k) by {
        if has_name(s, k) {
            let i = choose|i: int| 0 <= i < s.len() && s[i].0 == k;
            assert(t[i].0 == k);
        }
        if has_name(t, k) {
            let i = choose|i: int| 0 <= i < t.len() && t[i].0 == k;
            assert(s[i].0 == k);
        }
    }
    if sorted_by_name(s) {
        assert forall|i: int, j: int| 0 <= i < j < t.len() implies lex_lt(#[trigger] t[i].0, #[trigger] t[j].0) by {
            assert(t[i].0 == s[i].0 && t[j].0 == s[j].0);
        }
    }
    if sorted_by_name(t) {
        assert forall|i: int, j: int| 0 <= i < j < s.len() implies lex_lt(#[trigger] s[i].0, #[trigger] s[j].0) by {
            assert(t[i].0 == s[i].0 && t[j].0 == s[j].0);
        }
    }
    assert(names_of(t) =~= names_of(s));
}

/// Looking up after applying `f` is applying `f` to what is looked up.
pub proof fn lemma_lookup_map_vals<V, W>(s: Seq<(Seq<u8>, V)>, k: Seq<u8>, f: spec_fn(V) -> W)
    ensures
        lookup(map_vals(s, f), k) == (match lookup(s, k) {
            Some(v) => Some(f(v)),
            None => None,
        }),
    decreases s.len(),
{
    if s.len() > 0 {
        let t = map_vals(s, f);
        assert(t.drop_first() =~= map_vals(s.drop_first(), f));
        lemma_lookup_map_vals(s.drop_first(), k, f);
    }
}

/// Inserting and then applying `f` is applying `f` and then inserting.
pub proof fn lemma_insert_map_vals<V, W>(s: Seq<(Seq<u8>, V)>, k: Seq<u8>, v: V, f: spec_fn(V) -> W)
    ensures
        map_vals(insert_sorted(s, k, v), f) == insert_sorted(map_vals(s, f), k, f(v)),
    decreases s.len(),
{
    let t = map_vals(s, f);
    if s.len() == 0 {
        assert(map_vals(insert_sorted(s, k, v), f) =~= seq![(k, f(v))]);
    } else {
        assert(t[0].0 == s[0].0);
        assert(t.drop_first() =~= map_vals(s.drop_first(), f));
        if s[0].0 == k {
            assert(map_vals(insert_sorted(s, k, v), f) =~= seq![(k, f(v))] + t.drop_first());
        } else if lex_lt(k, s[0].0) {
            assert(map_vals(insert_sorted(s, k, v), f) =~= seq![(k, f(v))] + t);
        } else {
            lemma_insert_map_vals(s.drop_first(), k, v, f);
            assert(map_vals(insert_sorted(s, k, v), f) =~= seq![t[0]] + insert_sorted(t.drop_first(), k, f(v)));
        }
    }
}

/// A map from names to values whose entries are kept sorted by name.
pub struct NameMap<V> {
    pub(crate) entries: Vec<(Vec<u8>, V)>,
}

impl<V> View for NameMap<V> {
    type V = Seq<(Seq<u8>, V)>;

    /// The entries, sorted by name.
    closed spec fn view(&self) -> Seq<(Seq<u8>, V)> {
        self.entries@.map_values(|e: (Vec<u8>, V)| (e.0@, e.1))
    }
}

impl<V> NameMap<V> {
    pub open spec fn wf(&self) -> bool {
        sorted_by_name(self@)
    }

    /// An empty map.
    pub fn new() -> (r: Self)
        ensures
            r.wf(),
            r@ == Seq::<(Seq<u8>, V)>::empty(),
    {
        let r = NameMap { entries: Vec::new() };
        assert(r@ =~= Seq::<(Seq<u8>, V)>::empty());
        r
    }

    /// Number of entries.
    pub fn len(&self) -> (r: usize)
        ensures
            r == self@.len(),
    {
        self.entries.len()
    }

    /// The name of the `i`-th entry in order.
    pub fn name_at(&self, i: usize) -> (r: &[u8])
        requires
            i < self@.len(),
        ensures
            r@ == self@[i as int].0,
    {
        self.entries[i].0.as_slice()
    }

    /// The value of the `i`-th entry in order.
    pub fn value_at(&self, i: usize) -> (r: &V)
        requires
            i < self@.len(),
        ensures
            *r == self@[i as int].1,
    {
        &self.entries[i].1
    }

    /// The first position whose name is not below `k`.
    fn position(&self, k: &[u8]) -> (p: usize)
        requires
            self.wf(),
        ensures
            p <= self@.len(),
            forall|i: int| 0 <= i < p ==> lex_lt(#[trigger] self@[i].0, k@),
            p < self@.len() ==> !lex_lt(self@[p as int].0, k@),
    {
        let mut p: usize = 0;
        while p < self.entries.len()
            invariant
                p <= self@.len(),
                self@.len() == self.entries@.len(),
                forall|i: int| 0 <= i < p ==> lex_lt(#[trigger] self@[i].0, k@),
            decreases self@.len() - p,
        {
            if !bytes_lt(self.entries[p].0.as_slice(), k) {
                return p;
            }
            p = p + 1;
        }
        p
    }

    /// The index of the entry named `k`, if any.
    pub fn find(&self, k: &[u8]) -> (r: Option<usize>)
        requires
            self.wf(),
        ensures
            r.is_some() <==> has_name(self@, k@),
            r matches Some(i) ==> i < self@.len() && self@[i as int].0 == k@,
            lookup(self@, k@) == (match r { Some(i) => Some(self@[i as int].1), None => None }),
    {
        let p = self.position(k);
        proof { lemma_lookup_at(self@, k@, p as int); }
        if p < self.entries.len() && bytes_eq(self.entries[p].0.as_slice(), k) {
            Some(p)
        } else {
            proof {
                if has_name(self@, k@) {
                    let i = choose|i: int| 0 <= i < self@.len() && self@[i].0 == k@;
                    lemma_lex_irreflexive(k@);
                    if i > p {
                        lemma_lex_total(self@[p as int].0, k@);
                        lemma_lex_transitive(k@, self@[p as int].0, self@[i].0);
                    }
                }
            }
            None
        }
    }

    /// Appends an entry whose name comes after every name present.
    pub fn push_last(&mut self, k: Vec<u8>, v: V)
        requires
            old(self).wf(),
            old(self)@.len() > 0 ==> lex_lt(old(self)@.last().0, k@),
        ensures
            final(self).wf(),
            final(self)@ == old(self)@.push((k@, v)),
    {
        let ghost kv = k@;
        self.entries.push((k, v));
        assert(self@ =~= old(self)@.push((kv, v)));
        assert forall|i: int, j: int| 0 <= i < j < self@.len() implies lex_lt(#[trigger] self@[i].0, #[trigger] self@[j].0) by {
            if j == self@.len() - 1 && i < j - 1 {
                lemma_lex_transitive(self@[i].0, old(self)@.last().0, kv);
            }
        }
    }

    /// The names, in order.
    pub fn names(&self) -> (r: Vec<Vec<u8>>)
        ensures
            r@.map_values(|n: Vec<u8>| n@) == names_of(self@),
    {
        let mut r: Vec<Vec<u8>> = Vec::new();
        let mut i: usize = 0;
        while i < self.entries.len()
            invariant
                i <= self@.len(),
                self@.len() == self.entries@.len(),
                r@.map_values(|n: Vec<u8>| n@) == names_of(self@).subrange(0, i as int),
            decreases self@.len() - i,
        {
            let n = vstd::slice::slice_to_vec(self.entries[i].0.as_slice());
            assert(n@ == self@[i as int].0);
            let ghost before = r@;
            r.push(n);
            assert(r@.map_values(|n: Vec<u8>| n@) =~= before.map_values(|n: Vec<u8>| n@).push(n@));
            i = i + 1;
            assert(r@.map_values(|n: Vec<u8>| n@) =~= names_of(self@).subrange(0, i as int));
        }
        assert(names_of(self@).subrange(0, i as int) =~= names_of(self@));
        r
    }

    /// Puts `v` under `k`, replacing a previous value of that name.
    pub fn insert(&mut self, k: Vec<u8>, v: V)
        requires
            old(self).wf(),
        ensures
            final(self).wf(),
            final(self)@ == insert_sorted(old(self)@, k@, v),
    {
        let p = self.position(k.as_slice());
        let ghost kv = k@;
        proof {
            lemma_insert_at(self@, kv, v, p as int);
            lemma_insert_sorted(self@, kv, v);
        }
        if p < self.entries.len() && bytes_eq(self.entries[p].0.as_slice(), k.as_slice()) {
            self.entries.set(p, (k, v));
            assert(self@ =~= insert_sorted(old(self)@, kv, v));
        } else {
            self.entries.insert(p, (k, v));
            assert(self@ =~= insert_sorted(old(self)@, kv, v));
        }
    }
}

proof fn lemma_lookup_at<V>(s: Seq<(Seq<u8>, V)>, k: Seq<u8>, p: int)
    requires
        sorted_by_name(s),
        0 <= p <= s.len(),
        forall|i: int| 0 <= i < p ==> lex_lt(#[trigger] s[i].0, k),
        p < s.len() ==> !lex_lt(s[p].0, k),
    ensures
        lookup(s, k) == (if p < s.len() && s[p].0 == k { Some(s[p].1) } else { None }),
    decreases s.len(),
{
    if s.len() > 0 {
        let t = s.drop_first();
        if p == 0 {
            if s[0].0 != k {
                lemma_lex_total(s[0].0, k);
                assert forall|i: int| 0 <= i < t.len() implies lex_lt(k, #[trigger] t[i].0) by {
                    assert(t[i] == s[i + 1]);
                    lemma_lex_transitive(k, s[0].0, t[i].0);
                }
                lemma_lookup_absent(t, k);
            }
        } else {
            lemma_lex_irreflexive(k);
            assert forall|i: int, j: int| 0 <= i < j < t.len() implies lex_lt(#[trigger] t[i].0, #[trigger] t[j].0) by {
                assert(t[i] == s[i + 1] && t[j] == s[j + 1]);
            }
            assert forall|i: int| 0 <= i < p - 1 implies lex_lt(#[trigger] t[i].0, k) by {
                assert(t[i] == s[i + 1]);
            }
            lemma_lookup_at(t, k, p - 1);
        }
    }
}

proof fn lemma_lookup_absent<V>(s: Seq<(Seq<u8>, V)>, k: Seq<u8>)
    requires
        forall|i: int| 0 <= i < s.len() ==> lex_lt(k, #[trigger] s[i].0),
    ensures
        lookup(s, k) == None::<V>,
    decreases s.len(),
{
    if s.len() > 0 {
        lemma_lex_irreflexive(k);
        let t = s.drop_first();
        assert forall|i: int| 0 <= i < t.len() implies lex_lt(k, #[trigger] t[i].0) by {
            assert(t[i] == s[i + 1]);
        }
        lemma_lookup_absent(t, k);
    }
}

} // verus!
