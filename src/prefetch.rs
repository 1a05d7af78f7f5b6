//! Prefetch requests and the registry of images placed in the terminal.

use vstd::prelude::*;

use crate::tile::TiledDocumentCache;
use crate::tile_map::{dist, TileMap};

verus! {

/// Tile indices sent to the worker whose results have not come back.
pub struct InFlight {
    set: TileMap<()>,
}

impl InFlight {
    pub closed spec fn has(&self, idx: usize) -> bool {
        self.set.get_spec(idx) is Some
    }

    pub fn new() -> (r: Self)
        ensures
            forall|k: usize| !(#[trigger] r.has(k)),
    {
        InFlight { set: TileMap::new() }
    }

    pub fn contains(&self, idx: usize) -> (r: bool)
        ensures
            r == self.has(idx),
    {
        self.set.contains(idx)
    }

    /// A result came back: the index leaves the set.
    pub fn finish(&mut self, idx: usize)
        ensures
            forall|k: usize| #[trigger] final(self).has(k) == (old(self).has(k) && k != idx),
    {
        let _ = self.set.remove(idx);
    }

    pub fn clear(&mut self)
        ensures
            forall|k: usize| !(#[trigger] final(self).has(k)),
    {
        self.set.clear();
    }
}

/// The candidates around tile `current`: two ahead, one behind.
pub open spec fn candidates(current: usize) -> Seq<usize> {
    let ahead = if current <= usize::MAX - 2 {
        seq![(current + 1) as usize, (current + 2) as usize]
    } else {
        Seq::empty()
    };
    if current >= 1 {
        ahead.push((current - 1) as usize)
    } else {
        ahead
    }
}

/// Whether tile `idx` is worth requesting.
pub open spec fn qualifies(idx: usize, count: usize, cache: TiledDocumentCache, fl: InFlight) -> bool {
    idx < count && cache.cached(idx) is None && !fl.has(idx)
}

/// The candidates that qualify, in candidate order.
pub open spec fn picks(cands: Seq<usize>, count: usize, cache: TiledDocumentCache, fl: InFlight) -> Seq<usize>
    decreases cands.len(),
{
    if cands.len() == 0 {
        Seq::empty()
    } else {
        let p = picks(cands.drop_last(), count, cache, fl);
        if qualifies(cands.last(), count, cache, fl) {
            p.push(cands.last())
        } else {
            p
        }
    }
}

/// Choose the tiles to prefetch around the viewport at `y_offset` (two
/// ahead, one behind) that exist and are neither cached nor in flight, and
/// mark them in flight. Returns them in request order.
pub fn send_prefetch(
    in_flight: &mut InFlight,
    cache: &TiledDocumentCache,
    tile_count: usize,
    tile_height_px: u32,
    y_offset: u32,
) -> (r: Vec<usize>)
    requires
        tile_height_px > 0,
    ensures
        r@ == picks(candidates((y_offset / tile_height_px) as usize), tile_count, *cache, *old(in_flight)),
        forall|i: int|
            0 <= i < r@.len() ==> qualifies(#[trigger] r@[i], tile_count, *cache, *old(in_flight)),
        r@.no_duplicates(),
        forall|k: usize| #[trigger] final(in_flight).has(k) == (old(in_flight).has(k) || r@.contains(k)),
        forall|k: usize|
            candidates((y_offset / tile_height_px) as usize).contains(k) && qualifies(
                k,
                tile_count,
                *cache,
                *old(in_flight),
            ) ==> r@.contains(k),
{
    let current = (y_offset / tile_height_px) as usize;
    let mut cands: Vec<usize> = Vec::new();
    if current <= usize::MAX - 2 {
        cands.push(current + 1);
        cands.push(current + 2);
    }
    if current >= 1 {
        cands.push(current - 1);
    }
    assert(cands@ =~= candidates(current));
    let mut r: Vec<usize> = Vec::new();
    let mut i: usize = 0;
    while i < cands.len()
        invariant
            i <= cands@.len(),
            cands@ == candidates(current),
            cands@.no_duplicates(),
            forall|j: int|
                0 <= j < r@.len() ==> qualifies(#[trigger] r@[j], tile_count, *cache, *old(in_flight)),
            r@.no_duplicates(),
            forall|j: int| 0 <= j < r@.len() ==> cands@.take(i as int).contains(#[trigger] r@[j]),
            forall|k: usize| #[trigger] in_flight.has(k) == (old(in_flight).has(k) || r@.contains(k)),
            forall|k: usize|
                cands@.take(i as int).contains(k) && qualifies(k, tile_count, *cache, *old(in_flight))
                    ==> #[trigger] r@.contains(k),
            r@ == picks(cands@.take(i as int), tile_count, *cache, *old(in_flight)),
        decreases cands@.len() - i,
    {
        let idx = cands[i];
        assert(cands@.take(i as int + 1) =~= cands@.take(i as int).push(idx));
        assert(cands@.take(i as int + 1).drop_last() =~= cands@.take(i as int));
        proof {
            assert(!r@.contains(idx)) by {
                if r@.contains(idx) {
                    let j = choose|j: int| 0 <= j < r@.len() && r@[j] == idx;
                    assert(cands@.take(i as int).contains(r@[j]));
                    let m = choose|m: int| 0 <= m < i && cands@[m] == idx;
                    assert(cands@[m] == cands@[i as int]);
                }
            }
            assert(in_flight.has(idx) == old(in_flight).has(idx));
        }
        if idx < tile_count && !cache.contains(idx) && !in_flight.contains(idx) {
            let ghost before = r@;
            let ghost fl_before = *in_flight;
            r.push(idx);
            in_flight.set.insert(idx, ());
            proof {
                assert forall|k: usize| #[trigger] in_flight.has(k) == (fl_before.has(k) || k == idx) by {
                    assert(in_flight.set.get_spec(k) == (if k == idx {
                        Some(())
                    } else {
                        fl_before.set.get_spec(k)
                    }));
                }
                assert forall|k: usize| #[trigger] r@.contains(k) == (before.contains(k) || k == idx) by {
                    if r@.contains(k) {
                        let j = choose|j: int| 0 <= j < r@.len() && r@[j] == k;
                        if j < before.len() {
                            assert(before[j] == k);
                        }
                    }
                    if before.contains(k) {
                        let j = choose|j: int| 0 <= j < before.len() && before[j] == k;
                        assert(r@[j] == k);
                    }
                    if k == idx {
                        assert(r@[before.len() as int] == k);
                    }
                }
                assert forall|j: int| 0 <= j < r@.len() implies cands@.take(i as int + 1).contains(
                    #[trigger] r@[j],
                ) by {
                    if j < before.len() {
                        let m = choose|m: int| 0 <= m < i && cands@.take(i as int)[m] == before[j];
                        assert(cands@.take(i as int + 1)[m] == r@[j]);
                    } else {
                        assert(cands@.take(i as int + 1)[i as int] == r@[j]);
                    }
                }
            }
        } else {
            proof {
                assert forall|j: int| 0 <= j < r@.len() implies cands@.take(i as int + 1).contains(
                    #[trigger] r@[j],
                ) by {
                    let m = choose|m: int| 0 <= m < i && cands@.take(i as int)[m] == r@[j];
                    assert(cands@.take(i as int + 1)[m] == r@[j]);
                }
            }
        }
        i = i + 1;
    }
    assert(cands@.take(i as int) =~= cands@);
    r
}

/// One step of a viewer run, as the prefetch controller sees it: a batch
/// of requests sent to the worker, or a result received from it.
pub enum PrefetchStep {
    Request(Seq<usize>),
    Receive(usize),
}

pub open spec fn occurrences(s: Seq<usize>, k: usize) -> nat
    decreases s.len(),
{
    if s.len() == 0 {
        0
    } else if s.last() == k {
        occurrences(s.drop_last(), k) + 1
    } else {
        occurrences(s.drop_last(), k)
    }
}

/// The in-flight set after a run.
pub open spec fn in_flight_after(steps: Seq<PrefetchStep>) -> Set<usize>
    decreases steps.len(),
{
    if steps.len() == 0 {
        Set::empty()
    } else {
        let f = in_flight_after(steps.drop_last());
        match steps.last() {
            PrefetchStep::Request(rs) => f.union(rs.to_set()),
            PrefetchStep::Receive(k) => f.remove(k),
        }
    }
}

/// Times `k` was sent to the worker.
pub open spec fn sends(steps: Seq<PrefetchStep>, k: usize) -> nat
    decreases steps.len(),
{
    if steps.len() == 0 {
        0
    } else {
        let n = sends(steps.drop_last(), k);
        match steps.last() {
            PrefetchStep::Request(rs) => n + occurrences(rs, k),
            PrefetchStep::Receive(_) => n,
        }
    }
}

/// Times a result for `k` came back.
pub open spec fn receives(steps: Seq<PrefetchStep>, k: usize) -> nat
    decreases steps.len(),
{
    if steps.len() == 0 {
        0
    } else {
        let n = receives(steps.drop_last(), k);
        match steps.last() {
            PrefetchStep::Request(_) => n,
            PrefetchStep::Receive(j) => if j == k {
                n + 1
            } else {
                n
            },
        }
    }
}

/// Every batch holds distinct indices, none in flight when it is sent (what
/// `send_prefetch` ensures of each call).
pub open spec fn requests_fresh(steps: Seq<PrefetchStep>) -> bool
    decreases steps.len(),
{
    if steps.len() == 0 {
        true
    } else {
        requests_fresh(steps.drop_last()) && match steps.last() {
            PrefetchStep::Request(rs) => rs.no_duplicates() && forall|i: int|
                0 <= i < rs.len() ==> !in_flight_after(steps.drop_last()).contains(#[trigger] rs[i]),
            PrefetchStep::Receive(_) => true,
        }
    }
}

proof fn lemma_occurrences(s: Seq<usize>, k: usize)
    requires
        s.no_duplicates(),
    ensures
        occurrences(s, k) == (if s.contains(k) { 1nat } else { 0nat }),
    decreases s.len(),
{
    if s.len() > 0 {
        let t = s.drop_last();
        assert(t.no_duplicates()) by {
            assert forall|i: int, j: int| 0 <= i < t.len() && 0 <= j < t.len() && i != j implies t[i]
                != t[j] by {
                assert(t[i] == s[i] && t[j] == s[j]);
            }
        }
        lemma_occurrences(t, k);
        if s.last() == k {
            assert(!t.contains(k)) by {
                if t.contains(k) {
                    let i = choose|i: int| 0 <= i < t.len() && t[i] == k;
                    assert(s[i] == s[s.len() - 1]);
                }
            }
            assert(s.contains(k)) by {
                assert(s[s.len() - 1] == k);
            }
        } else {
            if s.contains(k) {
                let i = choose|i: int| 0 <= i < s.len() && s[i] == k;
                assert(t[i] == k);
            }
            if t.contains(k) {
                let i = choose|i: int| 0 <= i < t.len() && t[i] == k;
                assert(s[i] == k);
            }
        }
    }
}

/// Across a run in which every request batch is fresh, each tile index is
/// sent to the worker at most once more than its results came back.
pub proof fn lemma_no_duplicate_prefetch(steps: Seq<PrefetchStep>, k: usize)
    requires
        requests_fresh(steps),
    ensures
        sends(steps, k) <= receives(steps, k) + (if in_flight_after(steps).contains(k) {
            1nat
        } else {
            0nat
        }),
        sends(steps, k) <= receives(steps, k) + 1,
    decreases steps.len(),
{
    if steps.len() > 0 {
        let prev = steps.drop_last();
        lemma_no_duplicate_prefetch(prev, k);
        match steps.last() {
            PrefetchStep::Request(rs) => {
                lemma_occurrences(rs, k);
                if rs.contains(k) {
                    let i = choose|i: int| 0 <= i < rs.len() && rs[i] == k;
                    assert(!in_flight_after(prev).contains(rs[i]));
                    assert(rs.to_set().contains(k));
                }
            },
            PrefetchStep::Receive(j) => {},
        }
    }
}

/// Terminal image identifiers of one tile's content and sidebar images.
#[derive(Clone, Copy, Debug, PartialEq, Eq, Structural)]
pub struct TileImageIds {
    pub content_id: u32,
    pub sidebar_id: u32,
}

/// `ids` were placed for some tile farther than the radius from `idx`.
pub open spec fn dropped_from(t: LoadedTiles, idx: usize, ids: TileImageIds) -> bool {
    exists|k: usize| k != idx && dist(k, idx) > t.radius() && #[trigger] t.placed(k) == Some(ids)
}

/// The first image identifier issued.
pub const FIRST_IMAGE_ID: u32 = 100;

/// Which tiles have images in the terminal, and under which identifiers.
pub struct LoadedTiles {
    map: TileMap<TileImageIds>,
    next_id: u32,
    evict_distance: usize,
}

impl LoadedTiles {
    pub closed spec fn placed(&self, idx: usize) -> Option<TileImageIds> {
        self.map.get_spec(idx)
    }

    pub closed spec fn next(&self) -> u32 {
        self.next_id
    }

    pub closed spec fn radius(&self) -> usize {
        self.evict_distance
    }

    pub fn new(evict_distance: usize) -> (r: Self)
        ensures
            forall|k: usize| (#[trigger] r.placed(k)) is None,
            r.next() == FIRST_IMAGE_ID,
            r.radius() == evict_distance,
    {
        LoadedTiles { map: TileMap::new(), next_id: FIRST_IMAGE_ID, evict_distance }
    }

    pub fn get(&self, idx: usize) -> (r: Option<TileImageIds>)
        ensures
            r == self.placed(idx),
    {
        match self.map.get(idx) {
            Some(ids) => Some(*ids),
            None => None,
        }
    }

    /// Two fresh identifiers for tile `idx`, or `None` when it is already
    /// placed. The counter restarts at the first identifier when exhausted.
    pub fn allocate(&mut self, idx: usize) -> (r: Option<TileImageIds>)
        ensures
            r is None <==> old(self).placed(idx) is Some,
            r matches Some(ids) ==> {
                let n = if old(self).next() <= u32::MAX - 2 {
                    old(self).next()
                } else {
                    FIRST_IMAGE_ID
                };
                &&& ids == TileImageIds { content_id: n, sidebar_id: (n + 1) as u32 }
                &&& final(self).next() == n + 2
            },
            r is None ==> final(self).next() == old(self).next(),
            forall|k: usize| #[trigger] final(self).placed(k) == old(self).placed(k),
            final(self).radius() == old(self).radius(),
    {
        if self.map.contains(idx) {
            return None;
        }
        if self.next_id > u32::MAX - 2 {
            self.next_id = FIRST_IMAGE_ID;
        }
        let ids = TileImageIds { content_id: self.next_id, sidebar_id: self.next_id + 1 };
        self.next_id = self.next_id + 2;
        Some(ids)
    }

    /// Records tile `idx` as placed under `ids`, and drops every tile farther
    /// than the eviction radius from it; returns the dropped identifiers,
    /// whose images the caller deletes from the terminal.
    pub fn record(&mut self, idx: usize, ids: TileImageIds) -> (evicted: Vec<TileImageIds>)
        ensures
            forall|k: usize|
                #[trigger] final(self).placed(k) == (if k == idx {
                    Some(ids)
                } else if dist(k, idx) > old(self).radius() {
                    None
                } else {
                    old(self).placed(k)
                }),
            forall|m: int|
                0 <= m < evicted@.len() ==> dropped_from(*old(self), idx, #[trigger] evicted@[m]),
            forall|k: usize|
                k != idx && dist(k, idx) > old(self).radius() && #[trigger] old(self).placed(k)
                    is Some ==> evicted@.contains(old(self).placed(k)->0),
            final(self).next() == old(self).next(),
            final(self).radius() == old(self).radius(),
    {
        self.map.insert(idx, ids);
        let ghost mid = self.map;
        let dropped = self.map.retain_near(idx, self.evict_distance);
        let mut out: Vec<TileImageIds> = Vec::new();
        let mut i: usize = 0;
        while i < dropped.len()
            invariant
                i <= dropped@.len(),
                out@.len() == i,
                forall|n: int| 0 <= n < i ==> out@[n] == (#[trigger] dropped@[n]).1,
            decreases dropped@.len() - i,
        {
            out.push(dropped[i].1);
            i = i + 1;
        }
        proof {
            assert forall|m: int| 0 <= m < out@.len() implies dropped_from(
                *old(self),
                idx,
                #[trigger] out@[m],
            ) by {
                let k = dropped@[m].0;
                assert(out@[m] == dropped@[m].1);
                assert(dist(k, idx) > old(self).radius());
                assert(mid.get_spec(k) == Some(dropped@[m].1));
                assert(k != idx);
                assert(old(self).placed(k) == mid.get_spec(k));
                assert(k != idx && dist(k, idx) > old(self).radius() && old(self).placed(k) == Some(
                    out@[m],
                ));
            }
            assert forall|k: usize|
                k != idx && dist(k, idx) > old(self).radius() && #[trigger] old(self).placed(k)
                    is Some implies out@.contains(old(self).placed(k)->0) by {
                assert(mid.get_spec(k) == old(self).placed(k));
                assert(mid.get_spec(k) is Some);
                let m = choose|m: int| 0 <= m < dropped@.len() && dropped@[m].0 == k;
                assert(out@[m] == dropped@[m].1);
                assert(mid.get_spec(dropped@[m].0) == Some(dropped@[m].1));
                assert(out@[m] == old(self).placed(k)->0);
            }
        }
        out
    }

    /// Identifiers of every placed tile.
    pub fn all(&self) -> (r: Vec<TileImageIds>)
        ensures
            forall|k: usize|
                #[trigger] self.placed(k) is Some ==> r@.contains(self.placed(k)->0),
            forall|m: int|
                0 <= m < r@.len() ==> exists|k: usize| self.placed(k) == Some(#[trigger] r@[m]),
    {
        let keys = self.map.keys();
        let mut out: Vec<TileImageIds> = Vec::new();
        let mut i: usize = 0;
        while i < keys.len()
            invariant
                i <= keys@.len(),
                forall|k: usize| keys@.contains(k) <==> #[trigger] self.placed(k) is Some,
                forall|j: int|
                    0 <= j < i ==> out@.contains(#[trigger] self.placed(keys@[j])->0),
                forall|m: int|
                    0 <= m < out@.len() ==> exists|k: usize| self.placed(k) == Some(#[trigger] out@[m]),
            decreases keys@.len() - i,
        {
            let k = keys[i];
            assert(keys@.contains(k)) by {
                assert(keys@[i as int] == k);
            }
            let ghost before = out@;
            match self.map.get(k) {
                Some(ids) => {
                    out.push(*ids);
                },
                None => {},
            }
            proof {
                assert(out@[out@.len() - 1] == self.placed(k)->0);
                assert forall|m: int| 0 <= m < out@.len() implies exists|kk: usize| self.placed(kk)
                    == Some(#[trigger] out@[m]) by {
                    if m < before.len() {
                        assert(out@[m] == before[m]);
                        let kk = choose|kk: usize| self.placed(kk) == Some(before[m]);
                    } else {
                        assert(self.placed(k) == Some(out@[m]));
                    }
                }
                assert forall|j: int| 0 <= j < i + 1 implies out@.contains(
                    #[trigger] self.placed(keys@[j])->0,
                ) by {
                    if j < i {
                        let m = choose|m: int| 0 <= m < before.len() && before[m] == self.placed(keys@[j])->0;
                        assert(out@[m] == before[m]);
                    } else {
                        assert(out@[out@.len() - 1] == self.placed(keys@[j])->0);
                    }
                }
            }
            i = i + 1;
        }
        proof {
            assert forall|k: usize| #[trigger] self.placed(k) is Some implies out@.contains(
                self.placed(k)->0,
            ) by {
                assert(keys@.contains(k));
                let j = choose|j: int| 0 <= j < keys@.len() && keys@[j] == k;
                assert(out@.contains(self.placed(keys@[j])->0));
            }
        }
        out
    }

    pub fn clear(&mut self)
        ensures
            forall|k: usize| (#[trigger] final(self).placed(k)) is None,
            final(self).next() == old(self).next(),
            final(self).radius() == old(self).radius(),
    {
        self.map.clear();
    }
}

} // verus!
