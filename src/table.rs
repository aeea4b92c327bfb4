use vstd::prelude::*;
use crate::syntax::Id;

verus! {

/// Keys of `s` are pairwise distinct.
pub open spec fn keys_unique<K, V>(s: Seq<(K, V)>) -> bool {
    forall|i: int, j: int| 0 <= i < j < s.len() ==> s[i].0 != s[j].0
}

pub open spec fn has_key<K, V>(s: Seq<(K, V)>, k: K) -> bool {
    exists|i: int| 0 <= i < s.len() && s[i].0 == k
}

pub open spec fn key_pos<K, V>(s: Seq<(K, V)>, k: K) -> int {
    choose|i: int| 0 <= i < s.len() && s[i].0 == k
}

/// The value stored under `k`, if any.
pub open spec fn assoc_get<K, V>(s: Seq<(K, V)>, k: K) -> Option<V> {
    if has_key(s, k) {
        Some(s[key_pos(s, k)].1)
    } else {
        None
    }
}

/// Map insertion on an insertion-ordered list: an existing key keeps its
/// place and takes the new value; a new key goes to the end.
pub open spec fn assoc_insert<K, V>(s: Seq<(K, V)>, k: K, v: V) -> Seq<(K, V)> {
    if has_key(s, k) {
        s.update(key_pos(s, k), (k, v))
    } else {
        s.push((k, v))
    }
}

/// First-writer-wins insertion.
pub open spec fn assoc_insert_vacant<K, V>(s: Seq<(K, V)>, k: K, v: V) -> Seq<(K, V)> {
    if has_key(s, k) {
        s
    } else {
        s.push((k, v))
    }
}

pub proof fn lemma_key_pos_unique<K, V>(s: Seq<(K, V)>, k: K, i: int)
    requires
        keys_unique(s),
        0 <= i < s.len(),
        s[i].0 == k,
    ensures
        has_key(s, k),
        key_pos(s, k) == i,
        assoc_get(s, k) == Some(s[i].1),
{
}

pub proof fn lemma_insert_keeps_unique<K, V>(s: Seq<(K, V)>, k: K, v: V)
    requires
        keys_unique(s),
    ensures
        keys_unique(assoc_insert(s, k, v)),
        keys_unique(assoc_insert_vacant(s, k, v)),
        assoc_get(assoc_insert(s, k, v), k) == Some(v),
        has_key(s, k) ==> assoc_get(assoc_insert_vacant(s, k, v), k) == assoc_get(s, k),
        !has_key(s, k) ==> assoc_get(assoc_insert_vacant(s, k, v), k) == Some(v),
{
    let t = assoc_insert(s, k, v);
    if has_key(s, k) {
        let p = key_pos(s, k);
        lemma_key_pos_unique(t, k, p);
    } else {
        lemma_key_pos_unique(t, k, s.len() as int);
        lemma_key_pos_unique(s.push((k, v)), k, s.len() as int);
    }
}

pub proof fn lemma_insert_other_key<K, V>(s: Seq<(K, V)>, k: K, k2: K, v: V)
    requires
        keys_unique(s),
        k2 != k,
    ensures
        assoc_get(assoc_insert(s, k2, v), k) == assoc_get(s, k),
        assoc_get(assoc_insert_vacant(s, k2, v), k) == assoc_get(s, k),
        has_key(assoc_insert(s, k2, v), k) == has_key(s, k),
        has_key(assoc_insert_vacant(s, k2, v), k) == has_key(s, k),
{
    lemma_insert_keeps_unique(s, k2, v);
    let t = assoc_insert(s, k2, v);
    let u = assoc_insert_vacant(s, k2, v);
    if has_key(s, k) {
        let p = key_pos(s, k);
        assert(t[p].0 == k);
        lemma_key_pos_unique(t, k, p);
        assert(u[p].0 == k);
        lemma_key_pos_unique(u, k, p);
    } else {
        if has_key(t, k) {
            let q = key_pos(t, k);
            assert(s[q].0 == k);
        }
        if has_key(u, k) {
            let q = key_pos(u, k);
            assert(s[q].0 == k);
        }
    }
}

pub proof fn lemma_insert_keeps_key<K, V>(s: Seq<(K, V)>, k: K, k2: K, v: V)
    requires
        has_key(s, k),
    ensures
        has_key(assoc_insert(s, k2, v), k),
        has_key(assoc_insert_vacant(s, k2, v), k),
{
    let p = key_pos(s, k);
    if has_key(s, k2) {
        let q = key_pos(s, k2);
        let t = assoc_insert(s, k2, v);
        if p == q {
            assert(t[p].0 == k);
        } else {
            assert(t[p].0 == k);
        }
    } else {
        assert(assoc_insert(s, k2, v)[p].0 == k);
    }
}

/// The list with each value passed through `f`.
pub open spec fn map_vals<K, V, W>(s: Seq<(K, V)>, f: spec_fn(V) -> W) -> Seq<(K, W)> {
    s.map_values(|e: (K, V)| (e.0, f(e.1)))
}

pub proof fn lemma_map_vals_insert<K, V, W>(s: Seq<(K, V)>, k: K, v: V, f: spec_fn(V) -> W)
    requires
        keys_unique(s),
    ensures
        keys_unique(map_vals(s, f)),
        has_key(map_vals(s, f), k) == has_key(s, k),
        map_vals(assoc_insert(s, k, v), f) == assoc_insert(map_vals(s, f), k, f(v)),
        map_vals(assoc_insert_vacant(s, k, v), f) == assoc_insert_vacant(map_vals(s, f), k, f(v)),
{
    let m = map_vals(s, f);
    assert(keys_unique(m)) by {
        assert forall|i: int, j: int| 0 <= i < j < m.len() implies m[i].0 != m[j].0 by {
            assert(m[i].0 == s[i].0 && m[j].0 == s[j].0);
        }
    }
    if has_key(s, k) {
        let p = key_pos(s, k);
        assert(m[p].0 == k);
        lemma_key_pos_unique(m, k, p);
        assert(map_vals(assoc_insert(s, k, v), f) =~= assoc_insert(m, k, f(v)));
    } else {
        if has_key(m, k) {
            let q = key_pos(m, k);
            assert(s[q].0 == k);
        }
        assert(map_vals(assoc_insert(s, k, v), f) =~= assoc_insert(m, k, f(v)));
        assert(map_vals(assoc_insert_vacant(s, k, v), f) =~= assoc_insert_vacant(m, k, f(v)));
    }
}

/// An insertion-ordered map from hygienic identities to values.
pub struct IdTable<V> {
    pub entries: Vec<(Id, V)>,
}

impl<V> IdTable<V> {
    pub open spec fn view(&self) -> Seq<((Seq<char>, u32), V)> {
        self.entries@.map_values(|e: (Id, V)| (e.0@, e.1))
    }

    pub open spec fn wf(&self) -> bool {
        keys_unique(self.view())
    }

    pub fn new() -> (r: Self)
        ensures
            r.view() == Seq::<((Seq<char>, u32), V)>::empty(),
            r.wf(),
    {
        let r = IdTable { entries: Vec::new() };
        assert(r.view() =~= Seq::<((Seq<char>, u32), V)>::empty());
        r
    }

    pub fn len(&self) -> (r: usize)
        ensures
            r == self.view().len(),
    {
        self.entries.len()
    }

    /// The position of `k`, if it is a key.
    pub fn find(&self, k: &Id) -> (r: Option<usize>)
        requires
            self.wf(),
        ensures
            r is None <==> !has_key(self.view(), k@),
            r matches Some(i) ==> i < self.view().len() && self.view()[i as int].0 == k@
                && key_pos(self.view(), k@) == i,
    {
        let mut i: usize = 0;
        while i < self.entries.len()
            invariant
                0 <= i <= self.entries.len(),
                self.wf(),
                forall|j: int| 0 <= j < i ==> self.view()[j].0 != k@,
            decreases self.entries.len() - i,
        {
            if self.entries[i].0.same(k) {
                proof {
                    lemma_key_pos_unique(self.view(), k@, i as int);
                }
                return Some(i);
            }
            i = i + 1;
        }
        None
    }

    pub fn get(&self, k: &Id) -> (r: Option<&V>)
        requires
            self.wf(),
        ensures
            r matches Some(v) ==> assoc_get(self.view(), k@) == Some(*v),
            r is None ==> assoc_get(self.view(), k@) is None,
    {
        match self.find(k) {
            Some(i) => Some(&self.entries[i].1),
            None => None,
        }
    }

    /// Inserts `v` under `k`, replacing the value of an existing key.
    pub fn insert(&mut self, k: Id, v: V)
        requires
            old(self).wf(),
        ensures
            final(self).wf(),
            final(self).view() == assoc_insert(old(self).view(), k@, v),
    {
        proof {
            lemma_insert_keeps_unique(self.view(), k@, v);
        }
        let ghost kv = k@;
        match self.find(&k) {
            Some(i) => {
                self.entries.set(i, (k, v));
            },
            None => {
                self.entries.push((k, v));
            },
        }
        assert(self.view() =~= assoc_insert(old(self).view(), kv, v));
    }

    /// Inserts `v` under `k` only where `k` is not a key yet; tells whether
    /// it did.
    pub fn insert_vacant(&mut self, k: Id, v: V) -> (r: bool)
        requires
            old(self).wf(),
        ensures
            final(self).wf(),
            final(self).view() == assoc_insert_vacant(old(self).view(), k@, v),
            r == !has_key(old(self).view(), k@),
    {
        proof {
            lemma_insert_keeps_unique(self.view(), k@, v);
        }
        let ghost kv = k@;
        match self.find(&k) {
            Some(_) => false,
            None => {
                self.entries.push((k, v));
                assert(self.view() =~= assoc_insert_vacant(old(self).view(), kv, v));
                true
            },
        }
    }
}

/// An insertion-ordered map from (specifier, source) to the local identity.
pub struct RevTable {
    pub entries: Vec<((String, String), Id)>,
}

impl RevTable {
    pub open spec fn view(&self) -> Seq<((Seq<char>, Seq<char>), (Seq<char>, u32))> {
        self.entries@.map_values(|e: ((String, String), Id)| ((e.0.0@, e.0.1@), e.1@))
    }

    pub open spec fn wf(&self) -> bool {
        keys_unique(self.view())
    }

    pub fn new() -> (r: Self)
        ensures
            r.view() == Seq::<((Seq<char>, Seq<char>), (Seq<char>, u32))>::empty(),
            r.wf(),
    {
        let r = RevTable { entries: Vec::new() };
        assert(r.view() =~= Seq::<((Seq<char>, Seq<char>), (Seq<char>, u32))>::empty());
        r
    }

    fn find(&self, specifier: &String, source: &String) -> (r: Option<usize>)
        requires
            self.wf(),
        ensures
            r is None <==> !has_key(self.view(), (specifier@, source@)),
            r matches Some(i) ==> i < self.view().len() && key_pos(self.view(), (specifier@, source@)) == i,
    {
        let ghost k = (specifier@, source@);
        let mut i: usize = 0;
        while i < self.entries.len()
            invariant
                0 <= i <= self.entries.len(),
                k == (specifier@, source@),
                self.wf(),
                forall|j: int| 0 <= j < i ==> self.view()[j].0 != k,
            decreases self.entries.len() - i,
        {
            if self.entries[i].0.0 == *specifier && self.entries[i].0.1 == *source {
                proof {
                    lemma_key_pos_unique(self.view(), k, i as int);
                }
                return Some(i);
            }
            i = i + 1;
        }
        None
    }

    /// The local identity imported as `specifier` from `source`, if any.
    pub fn get(&self, specifier: &String, source: &String) -> (r: Option<Id>)
        requires
            self.wf(),
        ensures
            r matches Some(id) ==> assoc_get(self.view(), (specifier@, source@)) == Some(id@),
            r is None ==> assoc_get(self.view(), (specifier@, source@)) is None,
    {
        match self.find(specifier, source) {
            Some(i) => Some(self.entries[i].1.copy()),
            None => None,
        }
    }

    pub fn insert(&mut self, specifier: String, source: String, id: Id)
        requires
            old(self).wf(),
        ensures
            final(self).wf(),
            final(self).view() == assoc_insert(old(self).view(), (specifier@, source@), id@),
    {
        let ghost k = (specifier@, source@);
        let ghost v = id@;
        proof {
            lemma_insert_keeps_unique(self.view(), k, v);
        }
        match self.find(&specifier, &source) {
            Some(i) => {
                self.entries.set(i, ((specifier, source), id));
            },
            None => {
                self.entries.push(((specifier, source), id));
            },
        }
        assert(self.view() =~= assoc_insert(old(self).view(), k, v));
    }
}

} // verus!
