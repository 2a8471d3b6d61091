//! The split footer cache: maps a split id to its footer-plus-hotcache
//! bytes, bounded by total byte size with least-recently-used eviction.
//!
//! A split's footer never changes, so entries are only ever evicted for
//! capacity. Opening a split consults this cache first; on a miss the driver
//! fetches the footer byte range from the `<split_id>.split` file and stores
//! it here.

use vstd::prelude::*;

use crate::request::SplitIdAndFooterOffsets;

verus! {

/// The bytes a lookup of `key` yields, scanning entries newest first.
pub open spec fn spec_footer_lookup(
    entries: Seq<(String, Vec<u8>)>,
    key: Seq<char>,
) -> Option<Seq<u8>>
    decreases entries.len(),
{
    if entries.len() == 0 {
        None
    } else if entries.last().0@ == key {
        Some(entries.last().1@)
    } else {
        spec_footer_lookup(entries.drop_last(), key)
    }
}

/// The total byte size of the cached values.
pub open spec fn spec_total_bytes(entries: Seq<(String, Vec<u8>)>) -> int
    decreases entries.len(),
{
    if entries.len() == 0 {
        0
    } else {
        spec_total_bytes(entries.drop_last()) + entries.last().1@.len()
    }
}

/// No two entries share a key.
pub open spec fn keys_distinct(entries: Seq<(String, Vec<u8>)>) -> bool {
    forall|i: int, j: int|
        0 <= i < j < entries.len() ==> (#[trigger] entries[i]).0@ != (#[trigger] entries[j]).0@
}

proof fn lemma_total_bytes_drop_first(entries: Seq<(String, Vec<u8>)>)
    requires
        entries.len() > 0,
    ensures
        spec_total_bytes(entries) == spec_total_bytes(entries.drop_first())
            + entries[0].1@.len(),
    decreases entries.len(),
{
    if entries.len() == 1 {
        assert(entries.drop_first() =~= Seq::<(String, Vec<u8>)>::empty());
        assert(entries.drop_last() =~= Seq::<(String, Vec<u8>)>::empty());
    } else {
        lemma_total_bytes_drop_first(entries.drop_last());
        assert(entries.drop_last().drop_first() =~= entries.drop_first().drop_last());
        assert(entries.drop_first().last() == entries.last());
    }
}

proof fn lemma_total_bytes_nonneg(entries: Seq<(String, Vec<u8>)>)
    ensures
        spec_total_bytes(entries) >= 0,
    decreases entries.len(),
{
    if entries.len() > 0 {
        lemma_total_bytes_nonneg(entries.drop_last());
    }
}

proof fn lemma_lookup_drop_first(entries: Seq<(String, Vec<u8>)>, key: Seq<char>)
    requires
        entries.len() > 0,
    ensures
        spec_footer_lookup(entries.drop_first(), key) == spec_footer_lookup(entries, key)
            || spec_footer_lookup(entries.drop_first(), key) == None::<Seq<u8>>,
    decreases entries.len(),
{
    if entries.len() == 1 {
        assert(entries.drop_first() =~= Seq::<(String, Vec<u8>)>::empty());
    } else {
        assert(entries.drop_first().last() == entries.last());
        assert(entries.drop_first().drop_last() =~= entries.drop_last().drop_first());
        lemma_lookup_drop_first(entries.drop_last(), key);
    }
}

proof fn lemma_lookup_remove_other(entries: Seq<(String, Vec<u8>)>, i: int, key: Seq<char>)
    requires
        0 <= i < entries.len(),
        entries[i].0@ != key,
    ensures
        spec_footer_lookup(entries.remove(i), key) == spec_footer_lookup(entries, key),
    decreases entries.len(),
{
    if i == entries.len() - 1 {
        assert(entries.remove(i) =~= entries.drop_last());
    } else {
        assert(entries.remove(i).last() == entries.last());
        assert(entries.remove(i).drop_last() =~= entries.drop_last().remove(i));
        lemma_lookup_remove_other(entries.drop_last(), i, key);
    }
}

proof fn lemma_lookup_finds(entries: Seq<(String, Vec<u8>)>, i: int)
    requires
        keys_distinct(entries),
        0 <= i < entries.len(),
    ensures
        spec_footer_lookup(entries, entries[i].0@) == Some(entries[i].1@),
    decreases entries.len(),
{
    if i == entries.len() - 1 {
    } else {
        assert(entries.drop_last()[i] == entries[i]);
        lemma_lookup_finds(entries.drop_last(), i);
    }
}

proof fn lemma_lookup_none(entries: Seq<(String, Vec<u8>)>, key: Seq<char>)
    requires
        forall|i: int| 0 <= i < entries.len() ==> (#[trigger] entries[i]).0@ != key,
    ensures
        spec_footer_lookup(entries, key) == None::<Seq<u8>>,
    decreases entries.len(),
{
    if entries.len() > 0 {
        assert(forall|i: int|
            0 <= i < entries.drop_last().len() ==> (#[trigger] entries.drop_last()[i]).0@ != key);
        lemma_lookup_none(entries.drop_last(), key);
    }
}

/// Copies a byte buffer.
fn clone_bytes(bytes: &Vec<u8>) -> (r: Vec<u8>)
    ensures
        r@ == bytes@,
{
    let mut out: Vec<u8> = Vec::new();
    let mut i: usize = 0;
    while i < bytes.len()
        invariant
            i <= bytes@.len(),
            out@ == bytes@.take(i as int),
        decreases bytes@.len() - i,
    {
        out.push(bytes[i]);
        proof {
            assert(bytes@.take(i + 1) =~= bytes@.take(i as int).push(bytes@[i as int]));
        }
        i += 1;
    }
    proof {
        assert(bytes@.take(bytes@.len() as int) =~= bytes@);
    }
    out
}

/// A byte-size-bounded cache of split footers with least-recently-used
/// eviction; entries are kept oldest first, the most recently used last.
#[derive(Debug)]
pub struct SplitFooterCache {
    entries: Vec<(String, Vec<u8>)>,
    capacity_bytes: u64,
    used_bytes: u64,
}

impl SplitFooterCache {
    pub closed spec fn wf(&self) -> bool {
        &&& self.used_bytes == spec_total_bytes(self.entries@)
        &&& self.used_bytes <= self.capacity_bytes
        &&& keys_distinct(self.entries@)
    }

    pub closed spec fn spec_lookup(&self, key: Seq<char>) -> Option<Seq<u8>> {
        spec_footer_lookup(self.entries@, key)
    }

    pub closed spec fn spec_capacity(&self) -> u64 {
        self.capacity_bytes
    }

    /// An empty cache that will hold at most `capacity_bytes` of values.
    pub fn new(capacity_bytes: u64) -> (r: SplitFooterCache)
        ensures
            r.wf(),
            r.spec_capacity() == capacity_bytes,
            forall|k: Seq<char>| r.spec_lookup(k) == None::<Seq<u8>>,
    {
        SplitFooterCache { entries: Vec::new(), capacity_bytes, used_bytes: 0 }
    }

    /// Looks the split's footer up and, on a hit, marks it most recently
    /// used. Every cached value stays available.
    pub fn get(&mut self, split_id: &String) -> (r: Option<Vec<u8>>)
        requires
            old(self).wf(),
        ensures
            final(self).wf(),
            final(self).spec_capacity() == old(self).spec_capacity(),
            match r {
                Some(v) => old(self).spec_lookup(split_id@) == Some(v@),
                None => old(self).spec_lookup(split_id@) == None::<Seq<u8>>,
            },
            forall|k: Seq<char>| final(self).spec_lookup(k) == old(self).spec_lookup(k),
    {
        let ghost entries0 = self.entries@;
        let n = self.entries.len();
        let mut i: usize = 0;
        while i < n
            invariant
                n == entries0.len(),
                i <= n,
                entries0 == old(self).entries@,
                keys_distinct(entries0),
                self.entries@ == entries0,
                self.used_bytes == old(self).used_bytes,
                self.capacity_bytes == old(self).capacity_bytes,
                old(self).wf(),
                forall|j: int| 0 <= j < i ==> (#[trigger] entries0[j]).0@ != split_id@,
            decreases n - i,
        {
            if self.entries[i].0.eq(split_id) {
                let entry = self.entries.remove(i);
                let result = clone_bytes(&entry.1);
                let ghost entry_g = entry;
                self.entries.push(entry);
                proof {
                    assert(entries0[i as int] == entry_g);
                    lemma_lookup_finds(entries0, i as int);
                    let removed = entries0.remove(i as int);
                    assert(self.entries@ == removed.push(entry_g));
                    // distinct keys survive the move to the back
                    assert forall|p: int, q: int|
                        0 <= p < q < self.entries@.len() implies (
                    #[trigger] self.entries@[p]).0@ != (#[trigger] self.entries@[q]).0@ by {
                        if q < removed.len() {
                            let p0: int = if p < i { p } else { p + 1 };
                            let q0: int = if q < i { q } else { q + 1 };
                            assert(self.entries@[p] == entries0[p0]);
                            assert(self.entries@[q] == entries0[q0]);
                            assert(entries0[p0].0@ != entries0[q0].0@);
                        } else {
                            let p0: int = if p < i { p } else { p + 1 };
                            assert(self.entries@[q] == entry_g);
                            assert(entry_g == entries0[i as int]);
                            assert(self.entries@[p] == entries0[p0]);
                            if p0 < i {
                                assert(entries0[p0].0@ != entries0[i as int].0@);
                            } else {
                                assert(entries0[i as int].0@ != entries0[p0].0@);
                            }
                        }
                    }
                    // byte total is a permutation sum
                    lemma_total_bytes_move_to_back(entries0, i as int);
                    // every key still looks up to the same value
                    assert forall|k: Seq<char>|
                        spec_footer_lookup(self.entries@, k) == spec_footer_lookup(
                            entries0,
                            k,
                        ) by {
                        if k == entry_g.0@ {
                            assert(self.entries@.last() == entry_g);
                        } else {
                            assert(self.entries@.drop_last() =~= removed);
                            lemma_lookup_remove_other(entries0, i as int, k);
                        }
                    }
                }
                return Some(result);
            }
            i += 1;
        }
        proof {
            lemma_lookup_none(entries0, split_id@);
        }
        None
    }

    /// Stores the split's footer: an existing entry under the same id is
    /// replaced, and old entries are evicted until the bytes fit. A value
    /// larger than the whole capacity is not stored; every other value is
    /// afterwards cached. Any other entry either keeps its value or is
    /// evicted.
    pub fn put(&mut self, split_id: String, bytes: Vec<u8>)
        requires
            old(self).wf(),
        ensures
            final(self).wf(),
            final(self).spec_capacity() == old(self).spec_capacity(),
            bytes@.len() <= old(self).spec_capacity() ==> final(self).spec_lookup(split_id@)
                == Some(bytes@),
            forall|k: Seq<char>|
                k != split_id@ ==> (final(self).spec_lookup(k) == old(self).spec_lookup(k)
                    || final(self).spec_lookup(k) == None::<Seq<u8>>),
    {
        let ghost entries0 = self.entries@;
        // drop an existing entry under the same id
        let n = self.entries.len();
        let mut i: usize = 0;
        let mut found: bool = false;
        while i < n && !found
            invariant
                old(self).wf(),
                n == entries0.len(),
                i <= n,
                entries0 == old(self).entries@,
                keys_distinct(entries0),
                self.capacity_bytes == old(self).capacity_bytes,
                !found ==> self.entries@ == entries0 && self.used_bytes == old(self).used_bytes
                    && (forall|j: int| 0 <= j < i ==> (#[trigger] entries0[j]).0@ != split_id@),
                found ==> self.wf() && (forall|k: Seq<char>|
                    k != split_id@ ==> spec_footer_lookup(self.entries@, k) == spec_footer_lookup(
                        entries0,
                        k,
                    )) && (forall|j: int|
                    0 <= j < self.entries@.len() ==> (#[trigger] self.entries@[j]).0@
                        != split_id@),
            decreases (if found { 0int } else { 1int }), n - i,
        {
            if self.entries[i].0.eq(&split_id) {
                proof {
                    lemma_total_bytes_remove(entries0, i as int);
                    lemma_total_bytes_nonneg(entries0.remove(i as int));
                }
                let entry = self.entries.remove(i);
                self.used_bytes = self.used_bytes - entry.1.len() as u64;
                found = true;
                proof {
                    let removed = entries0.remove(i as int);
                    assert forall|p: int, q: int|
                        0 <= p < q < removed.len() implies (#[trigger] removed[p]).0@ != (
                    #[trigger] removed[q]).0@ by {
                        let p0: int = if p < i { p } else { p + 1 };
                        let q0: int = if q < i { q } else { q + 1 };
                        assert(removed[p] == entries0[p0]);
                        assert(removed[q] == entries0[q0]);
                        assert(entries0[p0].0@ != entries0[q0].0@);
                    }
                    assert forall|k: Seq<char>|
                        k != split_id@ implies spec_footer_lookup(removed, k) == spec_footer_lookup(
                            entries0,
                            k,
                        ) by {
                        lemma_lookup_remove_other(entries0, i as int, k);
                    }
                    assert forall|j: int|
                        0 <= j < removed.len() implies (#[trigger] removed[j]).0@ != split_id@ by {
                        if j < i {
                            assert(removed[j] == entries0[j]);
                        } else {
                            assert(removed[j] == entries0[j + 1]);
                            assert(entries0[i as int].0@ == split_id@);
                        }
                    }
                }
            } else {
                i += 1;
            }
        }
        proof {
            if !found {
                lemma_lookup_none(entries0, split_id@);
            }
        }
        if bytes.len() as u64 > self.capacity_bytes {
            // too large to ever fit; the stale entry is already gone
            return ;
        }
        // evict the oldest entries until the new value fits
        let ghost entries1 = self.entries@;
        while self.used_bytes > self.capacity_bytes - bytes.len() as u64
            invariant
                self.wf(),
                self.capacity_bytes == old(self).capacity_bytes,
                bytes@.len() <= self.capacity_bytes,
                forall|k: Seq<char>|
                    spec_footer_lookup(self.entries@, k) == spec_footer_lookup(entries1, k)
                        || spec_footer_lookup(self.entries@, k) == None::<Seq<u8>>,
                forall|j: int|
                    0 <= j < self.entries@.len() ==> (#[trigger] self.entries@[j]).0@ != split_id@,
            decreases self.entries@.len(),
        {
            proof {
                if self.entries@.len() == 0 {
                    assert(spec_total_bytes(self.entries@) == 0);
                    assert(false);
                }
                lemma_total_bytes_drop_first(self.entries@);
                lemma_total_bytes_nonneg(self.entries@.drop_first());
            }
            let ghost before = self.entries@;
            let evicted = self.entries.remove(0);
            self.used_bytes = self.used_bytes - evicted.1.len() as u64;
            proof {
                assert(self.entries@ =~= before.drop_first());
                assert forall|p: int, q: int|
                    0 <= p < q < self.entries@.len() implies (#[trigger] self.entries@[p]).0@ != (
                #[trigger] self.entries@[q]).0@ by {
                    assert(self.entries@[p] == before[p + 1] && self.entries@[q] == before[q + 1]);
                }
                assert forall|k: Seq<char>|
                    spec_footer_lookup(self.entries@, k) == spec_footer_lookup(entries1, k)
                        || spec_footer_lookup(self.entries@, k) == None::<Seq<u8>> by {
                    lemma_lookup_drop_first(before, k);
                }
            }
        }
        let ghost entries2 = self.entries@;
        let ghost stored = (split_id, bytes);
        self.used_bytes = self.used_bytes + bytes.len() as u64;
        self.entries.push((split_id, bytes));
        proof {
            assert(self.entries@ == entries2.push(stored));
            assert(self.entries@.drop_last() =~= entries2);
            assert(spec_footer_lookup(self.entries@, stored.0@) == Some(stored.1@));
            assert forall|p: int, q: int|
                0 <= p < q < self.entries@.len() implies (#[trigger] self.entries@[p]).0@ != (
            #[trigger] self.entries@[q]).0@ by {
                if q < entries2.len() {
                    assert(self.entries@[p] == entries2[p] && self.entries@[q] == entries2[q]);
                } else {
                    assert(self.entries@[q] == stored);
                    assert(self.entries@[p] == entries2[p]);
                }
            }
            assert forall|k: Seq<char>|
                k != stored.0@ implies (spec_footer_lookup(self.entries@, k) == spec_footer_lookup(
                    entries0,
                    k,
                ) || spec_footer_lookup(self.entries@, k) == None::<Seq<u8>>) by {
                assert(spec_footer_lookup(self.entries@, k) == spec_footer_lookup(entries2, k));
            }
        }
    }
}

proof fn lemma_total_bytes_remove(entries: Seq<(String, Vec<u8>)>, i: int)
    requires
        0 <= i < entries.len(),
    ensures
        spec_total_bytes(entries) == spec_total_bytes(entries.remove(i)) + entries[i].1@.len(),
    decreases entries.len(),
{
    if i == entries.len() - 1 {
        assert(entries.remove(i) =~= entries.drop_last());
    } else {
        assert(entries.remove(i).last() == entries.last());
        assert(entries.remove(i).drop_last() =~= entries.drop_last().remove(i));
        lemma_total_bytes_remove(entries.drop_last(), i);
    }
}

proof fn lemma_total_bytes_move_to_back(entries: Seq<(String, Vec<u8>)>, i: int)
    requires
        0 <= i < entries.len(),
    ensures
        spec_total_bytes(entries.remove(i).push(entries[i])) == spec_total_bytes(entries),
{
    lemma_total_bytes_remove(entries, i);
    assert(entries.remove(i).push(entries[i]).drop_last() =~= entries.remove(i));
}

/// The name of the bundle file that holds a split: `<split_id>.split`.
pub fn split_file_name(split_id: &String) -> (r: String)
    ensures
        r@ == split_id@ + ".split"@,
{
    let mut name = String::new();
    name.append(split_id.as_str());
    name.append(".split");
    name
}

/// What opening a split's footer requires next: the cached bytes when they
/// are at hand, else the file and byte range to fetch (and then store).
#[derive(Debug)]
pub enum FooterLookup {
    Hit { footer: Vec<u8> },
    Miss { path: String, start: u64, end: u64 },
}

/// Consults the footer cache for a split; on a miss, says which byte range
/// of which file holds the footer. The driver fetches the range and hands
/// the bytes back through `SplitFooterCache::put`.
pub fn footer_fetch_plan(cache: &mut SplitFooterCache, split: &SplitIdAndFooterOffsets) -> (r:
    FooterLookup)
    requires
        old(cache).wf(),
    ensures
        final(cache).wf(),
        final(cache).spec_capacity() == old(cache).spec_capacity(),
        forall|k: Seq<char>| final(cache).spec_lookup(k) == old(cache).spec_lookup(k),
        match r {
            FooterLookup::Hit { footer } => old(cache).spec_lookup(split.split_id@) == Some(
                footer@,
            ),
            FooterLookup::Miss { path, start, end } => {
                &&& old(cache).spec_lookup(split.split_id@) == None::<Seq<u8>>
                &&& path@ == split.split_id@ + ".split"@
                &&& start == split.split_footer_start
                &&& end == split.split_footer_end
            },
        },
{
    match cache.get(&split.split_id) {
        Some(footer) => FooterLookup::Hit { footer },
        None => FooterLookup::Miss {
            path: split_file_name(&split.split_id),
            start: split.split_footer_start,
            end: split.split_footer_end,
        },
    }
}

} // verus!
