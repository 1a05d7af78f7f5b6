//! A small map keyed by tile index.
//!
//! The viewer keeps a handful of entries around the viewport (the eviction
//! radius bounds them), so entries live in a vector and lookups scan it.

use vstd::prelude::*;

verus! {

/// Distance between two tile indices.
pub open spec fn dist(a: usize, b: usize) -> int {
    if a >= b {
        a - b
    } else {
        b - a
    }
}

/// The value of the first entry with key `k`.
pub open spec fn lookup<T>(s: Seq<(usize, T)>, k: usize) -> Option<T>
    decreases s.len(),
{
    if s.len() == 0 {
        None
    } else if s[0].0 == k {
        Some(s[0].1)
    } else {
        lookup(s.drop_first(), k)
    }
}

proof fn lemma_lookup_absent<T>(s: Seq<(usize, T)>, k: usize)
    ensures
        (forall|m: int| 0 <= m < s.len() ==> (#[trigger] s[m]).0 != k) <==> lookup(s, k) is None,
    decreases s.len(),
{
    if s.len() > 0 {
        lemma_lookup_absent(s.drop_first(), k);
        if lookup(s, k) is None {
            assert forall|m: int| 0 <= m < s.len() implies (#[trigger] s[m]).0 != k by {
                if m > 0 {
                    assert(s[m] == s.drop_first()[m - 1]);
                }
            }
        }
        if forall|m: int| 0 <= m < s.len() ==> (#[trigger] s[m]).0 != k {
            assert forall|m: int| 0 <= m < s.drop_first().len() implies (
            #[trigger] s.drop_first()[m]).0 != k by {
                assert(s.drop_first()[m] == s[m + 1]);
            }
        }
    }
}

proof fn lemma_lookup_push<T>(s: Seq<(usize, T)>, e: (usize, T), k: usize)
    ensures
        lookup(s.push(e), k) == (if lookup(s, k) is Some {
            lookup(s, k)
        } else if e.0 == k {
            Some(e.1)
        } else {
            None
        }),
    decreases s.len(),
{
    if s.len() == 0 {
        assert(s.push(e).drop_first() =~= Seq::<(usize, T)>::empty());
        assert(s.push(e)[0] == e);
        assert(lookup(s.push(e).drop_first(), k) is None);
        assert(lookup(s, k) is None);
    } else {
        assert(s.push(e).drop_first() =~= s.drop_first().push(e));
        assert(s.push(e)[0] == s[0]);
        lemma_lookup_push(s.drop_first(), e, k);
    }
}

proof fn lemma_lookup_update<T>(s: Seq<(usize, T)>, i: int, v: T, k: usize)
    requires
        0 <= i < s.len(),
        s[i].0 == k,
        forall|m: int| 0 <= m < i ==> (#[trigger] s[m]).0 != k,
    ensures
        forall|j: usize|
            #[trigger] lookup(s.update(i, (k, v)), j) == (if j == k {
                Some(v)
            } else {
                lookup(s, j)
            }),
    decreases s.len(),
{
    assert forall|j: usize|
        #[trigger] lookup(s.update(i, (k, v)), j) == (if j == k {
            Some(v)
        } else {
            lookup(s, j)
        }) by {
        if i > 0 {
            assert(s.update(i, (k, v)).drop_first() =~= s.drop_first().update(i - 1, (k, v)));
            assert forall|m: int| 0 <= m < i - 1 implies (#[trigger] s.drop_first()[m]).0 != k by {
                assert(s.drop_first()[m] == s[m + 1]);
            }
            lemma_lookup_update(s.drop_first(), i - 1, v, k);
            assert(s[0].0 != k);
            assert(s.update(i, (k, v))[0] == s[0]);
            assert(lookup(s.drop_first().update(i - 1, (k, v)), j) == (if j == k {
                Some(v)
            } else {
                lookup(s.drop_first(), j)
            }));
        } else {
            assert(s.update(i, (k, v)).drop_first() =~= s.drop_first());
            assert(s.update(i, (k, v))[0] == (k, v));
        }
    }
}

proof fn lemma_lookup_remove<T>(s: Seq<(usize, T)>, i: int, k: usize)
    requires
        0 <= i < s.len(),
        s[i].0 != k,
    ensures
        lookup(s.remove(i), k) == lookup(s, k),
    decreases s.len(),
{
    if i > 0 {
        assert(s.remove(i).drop_first() =~= s.drop_first().remove(i - 1));
        lemma_lookup_remove(s.drop_first(), i - 1, k);
    } else {
        assert(s.remove(i) =~= s.drop_first());
    }
}

/// No key occurs twice.
pub open spec fn unique<T>(s: Seq<(usize, T)>) -> bool {
    forall|i: int, j: int| 0 <= i < s.len() && 0 <= j < s.len() && i != j ==> (#[trigger] s[i]).0 != (#[trigger] s[j]).0
}

proof fn lemma_unique_remove<T>(s: Seq<(usize, T)>, i: int)
    requires
        unique(s),
        0 <= i < s.len(),
    ensures
        unique(s.remove(i)),
        forall|m: int| 0 <= m < s.remove(i).len() ==> (#[trigger] s.remove(i)[m]).0 != s[i].0,
{
    let t = s.remove(i);
    assert forall|a: int, b: int| 0 <= a < t.len() && 0 <= b < t.len() && a != b implies (
    #[trigger] t[a]).0 != (#[trigger] t[b]).0 by {
        let x = if a < i { a } else { a + 1 };
        let y = if b < i { b } else { b + 1 };
        assert(t[a] == s[x] && t[b] == s[y]);
    }
    assert forall|m: int| 0 <= m < t.len() implies (#[trigger] t[m]).0 != s[i].0 by {
        let x = if m < i { m } else { m + 1 };
        assert(t[m] == s[x]);
    }
}

proof fn lemma_unique_push<T>(s: Seq<(usize, T)>, e: (usize, T))
    requires
        unique(s),
        forall|m: int| 0 <= m < s.len() ==> (#[trigger] s[m]).0 != e.0,
    ensures
        unique(s.push(e)),
{
    let t = s.push(e);
    assert forall|a: int, b: int| 0 <= a < t.len() && 0 <= b < t.len() && a != b implies (
    #[trigger] t[a]).0 != (#[trigger] t[b]).0 by {
        if a < s.len() {
            assert(t[a] == s[a]);
        }
        if b < s.len() {
            assert(t[b] == s[b]);
        }
    }
}

proof fn lemma_unique_lookup<T>(s: Seq<(usize, T)>, i: int)
    requires
        unique(s),
        0 <= i < s.len(),
    ensures
        lookup(s, s[i].0) == Some(s[i].1),
{
    assert forall|m: int| 0 <= m < i implies (#[trigger] s[m]).0 != s[i].0 by {}
    lemma_first_in(s, i, s[i].0);
}

/// Entries keyed by tile index, each key at most once.
pub struct TileMap<T> {
    entries: Vec<(usize, T)>,
}

impl<T> TileMap<T> {
    /// No key is stored twice.
    #[verifier::type_invariant]
    spec fn keys_unique(&self) -> bool {
        unique(self.entries@)
    }

    /// The value stored under `k`, if any.
    pub closed spec fn get_spec(&self, k: usize) -> Option<T> {
        lookup(self.entries@, k)
    }

    pub fn new() -> (r: Self)
        ensures
            forall|k: usize| (#[trigger] r.get_spec(k)) is None,
    {
        TileMap { entries: Vec::new() }
    }

    fn find(&self, k: usize) -> (r: Option<usize>)
        ensures
            r matches Some(i) ==> i < self.entries@.len() && self.entries@[i as int].0 == k
                && forall|m: int| 0 <= m < i ==> (#[trigger] self.entries@[m]).0 != k,
            r is None ==> forall|m: int|
                0 <= m < self.entries@.len() ==> (#[trigger] self.entries@[m]).0 != k,
    {
        let mut i: usize = 0;
        while i < self.entries.len()
            invariant
                i <= self.entries@.len(),
                forall|m: int| 0 <= m < i ==> (#[trigger] self.entries@[m]).0 != k,
            decreases self.entries@.len() - i,
        {
            if self.entries[i].0 == k {
                return Some(i);
            }
            i = i + 1;
        }
        None
    }

    proof fn lemma_first(&self, i: int, k: usize)
        requires
            0 <= i < self.entries@.len(),
            self.entries@[i].0 == k,
            forall|m: int| 0 <= m < i ==> (#[trigger] self.entries@[m]).0 != k,
        ensures
            self.get_spec(k) == Some(self.entries@[i].1),
        decreases i,
    {
        lemma_first_in(self.entries@, i, k);
    }

    pub fn get(&self, k: usize) -> (r: Option<&T>)
        ensures
            r is None <==> self.get_spec(k) is None,
            r matches Some(v) ==> self.get_spec(k) == Some(*v),
    {
        match self.find(k) {
            Some(i) => {
                proof {
                    self.lemma_first(i as int, k);
                }
                Some(&self.entries[i].1)
            },
            None => {
                proof {
                    lemma_lookup_absent(self.entries@, k);
                }
                None
            },
        }
    }

    pub fn contains(&self, k: usize) -> (r: bool)
        ensures
            r == self.get_spec(k) is Some,
    {
        let r = self.find(k);
        proof {
            lemma_lookup_absent(self.entries@, k);
        }
        r.is_some()
    }

    pub fn insert(&mut self, k: usize, v: T)
        ensures
            forall|j: usize|
                #[trigger] final(self).get_spec(j) == (if j == k {
                    Some(v)
                } else {
                    old(self).get_spec(j)
                }),
    {
        proof {
            use_type_invariant(&*self);
        }
        let found = self.find(k);
        let mut es: Vec<(usize, T)> = Vec::new();
        std::mem::swap(&mut self.entries, &mut es);
        let ghost s0 = es@;
        match found {
            Some(i) => {
                proof {
                    lemma_unique_remove(s0, i as int);
                    assert forall|j: usize| j != k implies #[trigger] lookup(s0.remove(i as int), j)
                        == lookup(s0, j) by {
                        lemma_lookup_remove(s0, i as int, j);
                    }
                }
                let _ = es.remove(i);
                proof {
                    let s1 = es@;
                    lemma_unique_push(s1, (k, v));
                    lemma_lookup_absent(s1, k);
                    assert forall|j: usize| #[trigger] lookup(s1.push((k, v)), j) == (if j == k {
                        Some(v)
                    } else {
                        lookup(s0, j)
                    }) by {
                        lemma_lookup_push(s1, (k, v), j);
                    }
                }
                es.push((k, v));
            },
            None => {
                proof {
                    lemma_unique_push(s0, (k, v));
                    lemma_lookup_absent(s0, k);
                    assert forall|j: usize| #[trigger] lookup(s0.push((k, v)), j) == (if j == k {
                        Some(v)
                    } else {
                        lookup(s0, j)
                    }) by {
                        lemma_lookup_push(s0, (k, v), j);
                    }
                }
                es.push((k, v));
            },
        }
        self.entries = es;
    }

    /// Removes the entry under `k` and returns its value.
    pub fn remove(&mut self, k: usize) -> (r: Option<T>)
        ensures
            r == old(self).get_spec(k),
            forall|j: usize| j != k ==> #[trigger] final(self).get_spec(j) == old(self).get_spec(j),
            final(self).get_spec(k) is None,
    {
        proof {
            use_type_invariant(&*self);
        }
        let mut v: Vec<(usize, T)> = Vec::new();
        std::mem::swap(&mut self.entries, &mut v);
        let mut removed: Option<T> = None;
        let mut i: usize = 0;
        while i < v.len()
            invariant
                unique(v@),
                i <= v@.len(),
                forall|m: int| 0 <= m < i ==> (#[trigger] v@[m]).0 != k,
                forall|j: usize|
                    j != k ==> #[trigger] lookup(v@, j) == lookup(old(self).entries@, j),
                removed is None ==> lookup(v@, k) == lookup(old(self).entries@, k),
                removed is Some ==> removed == lookup(old(self).entries@, k),
            decreases v@.len() - i,
        {
            if v[i].0 == k {
                proof {
                    lemma_unique_remove(v@, i as int);
                    lemma_first_in(v@, i as int, k);
                    assert forall|j: usize| j != k implies #[trigger] lookup(
                        v@.remove(i as int),
                        j,
                    ) == lookup(v@, j) by {
                        lemma_lookup_remove(v@, i as int, j);
                    }
                }
                let e = v.remove(i);
                if removed.is_none() {
                    removed = Some(e.1);
                }
            } else {
                i = i + 1;
            }
        }
        proof {
            lemma_lookup_absent(v@, k);
        }
        self.entries = v;
        removed
    }

    /// Removes every entry whose key is farther than `radius` from `center`,
    /// and returns the removed entries.
    pub fn retain_near(&mut self, center: usize, radius: usize) -> (evicted: Vec<(usize, T)>)
        ensures
            forall|j: usize|
                #[trigger] final(self).get_spec(j) == (if dist(j, center) > radius {
                    None
                } else {
                    old(self).get_spec(j)
                }),
            forall|m: int|
                0 <= m < evicted@.len() ==> dist((#[trigger] evicted@[m]).0, center) > radius,
            forall|m: int|
                0 <= m < evicted@.len() ==> old(self).get_spec((#[trigger] evicted@[m]).0) == Some(
                    evicted@[m].1,
                ),
            forall|k: usize|
                dist(k, center) > radius && #[trigger] old(self).get_spec(k) is Some ==> exists|m: int|
                    0 <= m < evicted@.len() && evicted@[m].0 == k,
    {
        proof {
            use_type_invariant(&*self);
        }
        let mut v: Vec<(usize, T)> = Vec::new();
        std::mem::swap(&mut self.entries, &mut v);
        let ghost s0 = v@;
        let mut evicted: Vec<(usize, T)> = Vec::new();
        let mut i: usize = 0;
        proof {
            assert forall|k: usize|
                dist(k, center) > radius && #[trigger] lookup(s0, k) is Some implies (exists|j: int|
                    0 <= j < v@.len() && v@[j].0 == k) || (exists|m: int|
                    0 <= m < evicted@.len() && evicted@[m].0 == k) by {
                lemma_lookup_absent(s0, k);
            }
        }
        while i < v.len()
            invariant
                unique(v@),
                unique(s0),
                s0 == old(self).entries@,
                i <= v@.len(),
                forall|m: int|
                    0 <= m < v@.len() ==> s0.contains(#[trigger] v@[m]),
                forall|m: int|
                    0 <= m < evicted@.len() ==> lookup(s0, (#[trigger] evicted@[m]).0) == Some(
                        evicted@[m].1,
                    ),
                forall|k: usize|
                    dist(k, center) > radius && #[trigger] lookup(s0, k) is Some ==> (exists|j: int|
                        0 <= j < v@.len() && v@[j].0 == k) || (exists|m: int|
                        0 <= m < evicted@.len() && evicted@[m].0 == k),
                forall|m: int|
                    0 <= m < i ==> dist((#[trigger] v@[m]).0, center) <= radius,
                forall|j: usize|
                    dist(j, center) <= radius ==> #[trigger] lookup(v@, j) == lookup(
                        old(self).entries@,
                        j,
                    ),
                forall|j: usize|
                    dist(j, center) > radius && #[trigger] lookup(old(self).entries@, j) is None
                        ==> lookup(v@, j) is None,
                forall|m: int|
                    0 <= m < evicted@.len() ==> dist((#[trigger] evicted@[m]).0, center) > radius,
            decreases v@.len() - i,
        {
            let k = v[i].0;
            let d = if k >= center {
                k - center
            } else {
                center - k
            };
            if d > radius {
                proof {
                    assert forall|j: usize| j != k implies #[trigger] lookup(
                        v@.remove(i as int),
                        j,
                    ) == lookup(v@, j) by {
                        lemma_lookup_remove(v@, i as int, j);
                    }
                    assert forall|j: usize|
                        dist(j, center) > radius && #[trigger] lookup(old(self).entries@, j)
                            is None implies lookup(v@.remove(i as int), j) is None by {
                        if j != k {
                            lemma_lookup_remove(v@, i as int, j);
                        } else {
                            lemma_lookup_absent(v@, j);
                            lemma_lookup_absent(v@.remove(i as int), j);
                        }
                    }
                }
                let ghost cur = v@;
                let ghost ev0 = evicted@;
                proof {
                    lemma_unique_remove(cur, i as int);
                    assert(s0.contains(cur[i as int]));
                    let x = choose|x: int| 0 <= x < s0.len() && s0[x] == cur[i as int];
                    lemma_unique_lookup(s0, x);
                }
                let e = v.remove(i);
                evicted.push(e);
                proof {
                    let cur1 = v@;
                    assert forall|m: int| 0 <= m < cur1.len() implies s0.contains(#[trigger] cur1[m]) by {
                        let x = if m < i { m } else { m + 1 };
                        assert(cur1[m] == cur[x]);
                    }
                    assert forall|m: int| 0 <= m < evicted@.len() implies lookup(
                        s0,
                        (#[trigger] evicted@[m]).0,
                    ) == Some(evicted@[m].1) by {
                        if m < ev0.len() {
                            assert(evicted@[m] == ev0[m]);
                        }
                    }
                    assert forall|kk: usize|
                        dist(kk, center) > radius && #[trigger] lookup(s0, kk) is Some implies (exists|j: int|
                        0 <= j < cur1.len() && cur1[j].0 == kk) || (exists|m: int|
                        0 <= m < evicted@.len() && evicted@[m].0 == kk) by {
                        if kk == k {
                            assert(evicted@[ev0.len() as int].0 == kk);
                        } else if exists|j: int| 0 <= j < cur.len() && cur[j].0 == kk {
                            let j = choose|j: int| 0 <= j < cur.len() && cur[j].0 == kk;
                            let y = if j < i { j } else { j - 1 };
                            assert(cur1[y] == cur[j]);
                        } else {
                            let m = choose|m: int| 0 <= m < ev0.len() && ev0[m].0 == kk;
                            assert(evicted@[m] == ev0[m]);
                        }
                    }
                }
            } else {
                i = i + 1;
            }
        }
        proof {
            assert forall|j: usize| dist(j, center) > radius implies #[trigger] lookup(
                v@,
                j,
            ) is None by {
                lemma_lookup_absent(v@, j);
            }
            assert forall|kk: usize|
                dist(kk, center) > radius && #[trigger] lookup(s0, kk) is Some implies exists|m: int|
                    0 <= m < evicted@.len() && evicted@[m].0 == kk by {
                if exists|j: int| 0 <= j < v@.len() && v@[j].0 == kk {
                    let j = choose|j: int| 0 <= j < v@.len() && v@[j].0 == kk;
                    assert(dist(v@[j].0, center) <= radius);
                }
            }
        }
        self.entries = v;
        evicted
    }

    /// The keys, in storage order.
    pub fn keys(&self) -> (r: Vec<usize>)
        ensures
            forall|k: usize| r@.contains(k) <==> #[trigger] self.get_spec(k) is Some,
    {
        let mut r: Vec<usize> = Vec::new();
        let mut i: usize = 0;
        while i < self.entries.len()
            invariant
                i <= self.entries@.len(),
                r@.len() == i,
                forall|n: int| 0 <= n < i ==> #[trigger] r@[n] == self.entries@[n].0,
            decreases self.entries@.len() - i,
        {
            r.push(self.entries[i].0);
            i = i + 1;
        }
        proof {
            assert forall|k: usize| r@.contains(k) <==> #[trigger] self.get_spec(k) is Some by {
                lemma_lookup_absent(self.entries@, k);
                if r@.contains(k) {
                    let n = choose|n: int| 0 <= n < r@.len() && r@[n] == k;
                    assert(self.entries@[n].0 == k);
                }
                if self.get_spec(k) is Some {
                    let m = choose|m: int| 0 <= m < self.entries@.len() && (#[trigger] self.entries@[m]).0 == k;
                    assert(r@[m] == k);
                }
            }
        }
        r
    }

    pub fn clear(&mut self)
        ensures
            forall|k: usize| (#[trigger] final(self).get_spec(k)) is None,
    {
        self.entries = Vec::new();
    }
}

proof fn lemma_first_in<T>(s: Seq<(usize, T)>, i: int, k: usize)
    requires
        0 <= i < s.len(),
        s[i].0 == k,
        forall|m: int| 0 <= m < i ==> (#[trigger] s[m]).0 != k,
    ensures
        lookup(s, k) == Some(s[i].1),
    decreases i,
{
    if i > 0 {
        assert forall|m: int| 0 <= m < i - 1 implies (#[trigger] s.drop_first()[m]).0 != k by {
            assert(s.drop_first()[m] == s[m + 1]);
        }
        assert(s[0].0 != k);
        lemma_first_in(s.drop_first(), i - 1, k);
    }
}

} // verus!
