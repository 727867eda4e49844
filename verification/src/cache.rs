use vstd::prelude::*;
use crate::model::Response;
use crate::strutil::str_eq;

verus! {

/// A cached response: its key, the response, and when it was stored (a
/// reading of a monotonic clock).
#[derive(Debug)]
pub struct CacheEntry {
    pub key: String,
    pub response: Response,
    pub stored_at: u64,
}

/// Responses of executed requests kept for references to them, at most
/// `max` of them, one per key.
#[derive(Debug)]
pub struct ResponseCache {
    pub entries: Vec<CacheEntry>,
    pub max: usize,
}

/// `es` with `e` stored under its key: in place of the entry that held the
/// key, or last when none did.
pub open spec fn spec_upsert(es: Seq<CacheEntry>, e: CacheEntry) -> Seq<CacheEntry> {
    if exists|i: int| 0 <= i < es.len() && (#[trigger] es[i]).key@ == e.key@ {
        es.update(choose|i: int| 0 <= i < es.len() && (#[trigger] es[i]).key@ == e.key@, e)
    } else {
        es.push(e)
    }
}

/// `i` is the oldest entry of `es`, the first of equally old ones.
pub open spec fn spec_is_oldest(es: Seq<CacheEntry>, i: int) -> bool {
    &&& 0 <= i < es.len()
    &&& forall|k: int| 0 <= k < es.len() ==> es[i].stored_at <= (#[trigger] es[k]).stored_at
    &&& forall|k: int| 0 <= k < i ==> es[i].stored_at < (#[trigger] es[k]).stored_at
}

/// `es` after dropping its oldest entry while it holds more than `max`.
pub open spec fn spec_evict(es: Seq<CacheEntry>, max: int) -> Seq<CacheEntry>
    decreases es.len(),
{
    let o = spec_oldest_index(es);
    if es.len() <= max || !(0 <= o < es.len()) {
        es
    } else {
        spec_evict(es.remove(o), max)
    }
}

/// The index of the oldest entry of `es`, the first of equally old ones
/// (0 for no entries).
pub open spec fn spec_oldest_index(es: Seq<CacheEntry>) -> int
    decreases es.len(),
{
    if es.len() <= 1 {
        0
    } else {
        let i = spec_oldest_index(es.drop_last());
        if es.last().stored_at < es[i].stored_at { es.len() - 1 } else { i }
    }
}

/// The oldest index is the one [`spec_is_oldest`] describes.
proof fn lemma_oldest_index(es: Seq<CacheEntry>)
    requires
        es.len() > 0,
    ensures
        spec_is_oldest(es, spec_oldest_index(es)),
    decreases es.len(),
{
    if es.len() == 1 {
        assert(spec_is_oldest(es, 0));
    } else {
        lemma_oldest_index(es.drop_last());
        let i = spec_oldest_index(es.drop_last());
        let l = es.len() - 1;
        assert(es.drop_last()[i] == es[i]);
        if es[l].stored_at < es[i].stored_at {
            assert forall|k: int| 0 <= k < l implies es[l].stored_at < (#[trigger] es[k]).stored_at by {
                assert(es.drop_last()[k] == es[k]);
            }
            assert(spec_is_oldest(es, l));
        } else {
            assert forall|k: int| 0 <= k < es.len() implies es[i].stored_at <= (#[trigger] es[k]).stored_at by {
                if k < l {
                    assert(es.drop_last()[k] == es[k]);
                }
            }
            assert forall|k: int| 0 <= k < i implies es[i].stored_at < (#[trigger] es[k]).stored_at by {
                assert(es.drop_last()[k] == es[k]);
            }
            assert(spec_is_oldest(es, i));
        }
    }
}

/// Only one index is the oldest.
proof fn lemma_oldest_unique(es: Seq<CacheEntry>, o: int)
    requires
        spec_is_oldest(es, o),
    ensures
        spec_oldest_index(es) == o,
{
    lemma_oldest_index(es);
    let c = spec_oldest_index(es);
    if c != o {
        if c < o {
            assert(es[o].stored_at < es[c].stored_at);
            assert(es[c].stored_at <= es[o].stored_at);
        } else {
            assert(es[c].stored_at < es[o].stored_at);
            assert(es[o].stored_at <= es[c].stored_at);
        }
    }
}

/// Eviction keeps `max` entries when there were more, else all of them.
pub proof fn lemma_evict_len(es: Seq<CacheEntry>, max: int)
    requires
        max >= 0,
    ensures
        spec_evict(es, max).len() == if es.len() <= max { es.len() as int } else { max },
    decreases es.len(),
{
    if es.len() > max && es.len() > 0 {
        lemma_oldest_index(es);
        lemma_evict_len(es.remove(spec_oldest_index(es)), max);
    }
}

/// A stored entry newer than all others is the newest after storing.
pub proof fn lemma_upsert_newest(es: Seq<CacheEntry>, e: CacheEntry)
    requires
        forall|k: int| 0 <= k < es.len() ==> (#[trigger] es[k]).stored_at < e.stored_at,
    ensures
        spec_upsert(es, e).contains(e),
        forall|k: int| 0 <= k < spec_upsert(es, e).len() && spec_upsert(es, e)[k] != e
            ==> (#[trigger] spec_upsert(es, e)[k]).stored_at < e.stored_at,
{
    let u = spec_upsert(es, e);
    if exists|i: int| 0 <= i < es.len() && (#[trigger] es[i]).key@ == e.key@ {
        let c = choose|i: int| 0 <= i < es.len() && (#[trigger] es[i]).key@ == e.key@;
        assert(u[c] == e);
        assert forall|k: int| 0 <= k < u.len() && u[k] != e implies (#[trigger] u[k]).stored_at < e.stored_at by {
            assert(k != c);
            assert(u[k] == es[k]);
        }
    } else {
        assert(u[es.len() as int] == e);
        assert forall|k: int| 0 <= k < u.len() && u[k] != e implies (#[trigger] u[k]).stored_at < e.stored_at by {
            assert(u[k] == es[k]);
        }
    }
}

/// Storing under a key keeps keys unique.
proof fn lemma_upsert_well_formed(es: Seq<CacheEntry>, e: CacheEntry)
    requires
        forall|i: int, j: int| 0 <= i < j < es.len() ==> (#[trigger] es[i]).key@ != (#[trigger] es[j]).key@,
    ensures
        forall|i: int, j: int| 0 <= i < j < spec_upsert(es, e).len() ==> (#[trigger] spec_upsert(es, e)[i]).key@ != (#[trigger] spec_upsert(es, e)[j]).key@,
{
    let u = spec_upsert(es, e);
    if exists|i: int| 0 <= i < es.len() && (#[trigger] es[i]).key@ == e.key@ {
        let c = choose|i: int| 0 <= i < es.len() && (#[trigger] es[i]).key@ == e.key@;
        assert forall|i: int, j: int| 0 <= i < j < u.len() implies (#[trigger] u[i]).key@ != (#[trigger] u[j]).key@ by {
            if i == c {
                assert(es[j].key@ != es[c].key@);
            } else if j == c {
                assert(es[i].key@ != es[c].key@);
            }
        }
    } else {
        assert forall|i: int, j: int| 0 <= i < j < u.len() implies (#[trigger] u[i]).key@ != (#[trigger] u[j]).key@ by {
            if j == es.len() {
                assert(u[i] == es[i]);
            }
        }
    }
}

/// Eviction never drops an entry newer than every other one, when at
/// least one entry may be kept.
pub proof fn lemma_evict_keeps_newest(es: Seq<CacheEntry>, max: int, e: CacheEntry)
    requires
        max > 0,
        es.contains(e),
        forall|k: int| 0 <= k < es.len() && es[k] != e ==> (#[trigger] es[k]).stored_at < e.stored_at,
    ensures
        spec_evict(es, max).contains(e),
    decreases es.len(),
{
    if es.len() > max {
        lemma_oldest_index(es);
        let o = spec_oldest_index(es);
        let p0 = choose|p: int| 0 <= p < es.len() && es[p] == e;
        let q: int = if o == 0 { 1 } else { 0 };
        if es[o] == e && es[q] != e {
            assert(es[q].stored_at < e.stored_at);
            assert(es[o].stored_at <= es[q].stored_at);
        }
        let p = if es[o] == e { q } else { p0 };
        assert(es[p] == e && p != o);
        let r = es.remove(o);
        let p2 = if p < o { p } else { p - 1 };
        assert(r[p2] == e);
        assert forall|k: int| 0 <= k < r.len() && r[k] != e implies (#[trigger] r[k]).stored_at < e.stored_at by {
            let k2 = if k < o { k } else { k + 1 };
            assert(r[k] == es[k2]);
        }
        lemma_evict_keeps_newest(r, max, e);
    }
}

impl ResponseCache {
    /// No two entries share a key.
    pub open spec fn well_formed(&self) -> bool {
        forall|i: int, j: int| 0 <= i < j < self.entries@.len() ==> (#[trigger] self.entries@[i]).key@ != (#[trigger] self.entries@[j]).key@
    }

    /// An empty cache holding at most `max` responses.
    pub fn new(max: usize) -> (r: Self)
        ensures
            r.entries@.len() == 0,
            r.max == max,
            r.well_formed(),
    {
        ResponseCache { entries: Vec::new(), max }
    }

    /// The entry stored under `key`, if any.
    pub fn get(&self, key: &str) -> (r: Option<&CacheEntry>)
        requires
            self.well_formed(),
        ensures
            match r {
                Some(e) => exists|i: int| 0 <= i < self.entries@.len() && self.entries@[i] == *e && e.key@ == key@,
                None => forall|i: int| 0 <= i < self.entries@.len() ==> (#[trigger] self.entries@[i]).key@ != key@,
            },
    {
        let mut i: usize = 0;
        while i < self.entries.len()
            invariant
                i <= self.entries@.len(),
                forall|k: int| 0 <= k < i ==> (#[trigger] self.entries@[k]).key@ != key@,
            decreases self.entries@.len() - i,
        {
            if str_eq(self.entries[i].key.as_str(), key) {
                return Some(&self.entries[i]);
            }
            i = i + 1;
        }
        None
    }

    fn find(&self, key: &str) -> (r: Option<usize>)
        ensures
            match r {
                Some(i) => i < self.entries@.len() && self.entries@[i as int].key@ == key@,
                None => forall|k: int| 0 <= k < self.entries@.len() ==> (#[trigger] self.entries@[k]).key@ != key@,
            },
    {
        let mut i: usize = 0;
        while i < self.entries.len()
            invariant
                i <= self.entries@.len(),
                forall|k: int| 0 <= k < i ==> (#[trigger] self.entries@[k]).key@ != key@,
            decreases self.entries@.len() - i,
        {
            if str_eq(self.entries[i].key.as_str(), key) {
                return Some(i);
            }
            i = i + 1;
        }
        None
    }

    fn oldest(&self) -> (r: usize)
        requires
            self.entries@.len() > 0,
        ensures
            r < self.entries@.len(),
            forall|k: int| 0 <= k < self.entries@.len() ==> self.entries@[r as int].stored_at <= (#[trigger] self.entries@[k]).stored_at,
            forall|k: int| 0 <= k < r ==> self.entries@[r as int].stored_at < (#[trigger] self.entries@[k]).stored_at,
    {
        let mut best: usize = 0;
        let mut i: usize = 1;
        while i < self.entries.len()
            invariant
                1 <= i <= self.entries@.len(),
                best < i,
                forall|k: int| 0 <= k < i ==> self.entries@[best as int].stored_at <= (#[trigger] self.entries@[k]).stored_at,
                forall|k: int| 0 <= k < best ==> self.entries@[best as int].stored_at < (#[trigger] self.entries@[k]).stored_at,
            decreases self.entries@.len() - i,
        {
            if self.entries[i].stored_at < self.entries[best].stored_at {
                best = i;
            }
            i = i + 1;
        }
        best
    }

    /// Store `response` under `key` at time `now` (replacing what the key
    /// held, in place; a new key goes last), then drop the oldest entry
    /// (the first of equally old ones) while more than `max` are kept.
    pub fn insert(&mut self, key: String, response: Response, now: u64)
        requires
            old(self).well_formed(),
        ensures
            final(self).well_formed(),
            final(self).max == old(self).max,
            final(self).entries@ == spec_evict(
                spec_upsert(old(self).entries@, CacheEntry { key: key, response: response, stored_at: now }),
                old(self).max as int,
            ),
            final(self).entries@.len() == (if spec_upsert(old(self).entries@, CacheEntry { key: key, response: response, stored_at: now }).len() <= old(self).max {
                spec_upsert(old(self).entries@, CacheEntry { key: key, response: response, stored_at: now }).len() as int
            } else {
                old(self).max as int
            }),
            (forall|k: int| 0 <= k < old(self).entries@.len() ==> (#[trigger] old(self).entries@[k]).stored_at < now)
                && old(self).max > 0 ==> final(self).entries@.contains(CacheEntry { key: key, response: response, stored_at: now }),
    {
        let entry = CacheEntry { key, response, stored_at: now };
        let ghost new_entry = entry;
        let ghost up = spec_upsert(self.entries@, new_entry);
        match self.find(entry.key.as_str()) {
            Some(j) => {
                proof {
                    let i = choose|i: int| 0 <= i < self.entries@.len() && (#[trigger] self.entries@[i]).key@ == new_entry.key@;
                    if i != j {
                        if i < j {
                            assert(self.entries@[i].key@ != self.entries@[j as int].key@);
                        } else {
                            assert(self.entries@[j as int].key@ != self.entries@[i].key@);
                        }
                    }
                }
                self.entries.set(j, entry);
            },
            None => {
                self.entries.push(entry);
            },
        }
        proof {
            assert(self.entries@ =~= up);
            lemma_upsert_well_formed(old(self).entries@, new_entry);
            lemma_evict_len(up, self.max as int);
            if (forall|k: int| 0 <= k < old(self).entries@.len() ==> (#[trigger] old(self).entries@[k]).stored_at < now) && self.max > 0 {
                lemma_upsert_newest(old(self).entries@, new_entry);
                lemma_evict_keeps_newest(up, self.max as int, new_entry);
            }
        }
        while self.entries.len() > self.max
            invariant
                self.well_formed(),
                self.max == old(self).max,
                spec_evict(self.entries@, self.max as int) == spec_evict(up, self.max as int),
            decreases self.entries@.len(),
        {
            let o = self.oldest();
            proof {
                lemma_oldest_unique(self.entries@, o as int);
            }
            let ghost old_entries = self.entries@;
            let _ = self.entries.remove(o);
            proof {
                assert(self.entries@ =~= old_entries.remove(o as int));
                assert forall|i: int, j: int| 0 <= i < j < self.entries@.len() implies (#[trigger] self.entries@[i]).key@ != (#[trigger] self.entries@[j]).key@ by {
                    let i2 = if i < o { i } else { i + 1 };
                    let j2 = if j < o { j } else { j + 1 };
                    assert(self.entries@[i] == old_entries[i2]);
                    assert(self.entries@[j] == old_entries[j2]);
                }
            }
        }
    }

    /// Forget the entry for `key`.
    pub fn remove(&mut self, key: &str)
        requires
            old(self).well_formed(),
        ensures
            final(self).well_formed(),
            final(self).max == old(self).max,
            forall|k: int| 0 <= k < final(self).entries@.len() ==> (#[trigger] final(self).entries@[k]).key@ != key@,
            forall|k: int| 0 <= k < old(self).entries@.len() && (#[trigger] old(self).entries@[k]).key@ != key@
                ==> exists|m: int| 0 <= m < final(self).entries@.len() && final(self).entries@[m] == old(self).entries@[k],
    {
        match self.find(key) {
            Some(j) => {
                let ghost old_entries = self.entries@;
                let _ = self.entries.remove(j);
                proof {
                    assert forall|k: int| 0 <= k < self.entries@.len() implies (#[trigger] self.entries@[k]) == old_entries[if k < j { k } else { k + 1 }] by {}
                    assert forall|k: int| 0 <= k < old_entries.len() && (#[trigger] old_entries[k]).key@ != key@
                        implies exists|m: int| 0 <= m < self.entries@.len() && self.entries@[m] == old_entries[k] by {
                        let m = if k < j { k } else { k - 1 };
                        assert(self.entries@[m] == old_entries[k]);
                    }
                }
            },
            None => {},
        }
    }

    /// Forget every entry.
    pub fn clear(&mut self)
        ensures
            final(self).entries@.len() == 0,
            final(self).max == old(self).max,
            final(self).well_formed(),
    {
        self.entries = Vec::new();
    }
}

} // verus!
