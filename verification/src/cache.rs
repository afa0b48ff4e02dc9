//! A least-recently-used cache of texts, bounded by the total size of what
//! it holds.
//!
//! Each value may be at most `unitsize` bytes; the cache holds at most
//! `unitsize * maxcount` bytes in all.  Making room for a new value drops
//! the least recently used entries first; reading a value with
//! [`LruCache::get`] makes it the most recently used.
use vstd::prelude::*;
use vstd::utf8::encode_utf8;

verus! {

/// A key and its value.
pub type Entry = (Seq<char>, Seq<char>);

/// The size of a value: the length of its UTF-8 encoding.
pub open spec fn value_size(v: Seq<char>) -> nat {
    encode_utf8(v).len()
}

/// The total size of the values of the entries.
pub open spec fn total_size(es: Seq<Entry>) -> nat
    decreases es.len(),
{
    if es.len() == 0 {
        0
    } else {
        total_size(es.drop_last()) + value_size(es.last().1)
    }
}

/// No key occurs twice.
pub open spec fn distinct_keys(es: Seq<Entry>) -> bool {
    forall|i: int, j: int| 0 <= i < j < es.len() ==> es[i].0 != es[j].0
}

/// Some entry has the key `k`.
pub open spec fn has_key(es: Seq<Entry>, k: Seq<char>) -> bool {
    exists|i: int| 0 <= i < es.len() && es[i].0 == k
}

/// The position of the entry with key `k`.
pub open spec fn key_index(es: Seq<Entry>, k: Seq<char>) -> int {
    choose|i: int| 0 <= i < es.len() && es[i].0 == k
}

/// The entries without the one with key `k`.
pub open spec fn without_key(es: Seq<Entry>, k: Seq<char>) -> Seq<Entry> {
    if has_key(es, k) {
        es.remove(key_index(es, k))
    } else {
        es
    }
}

/// The value stored under `k`.
pub open spec fn lookup(es: Seq<Entry>, k: Seq<char>) -> Option<Seq<char>> {
    if has_key(es, k) {
        Some(es[key_index(es, k)].1)
    } else {
        None
    }
}

/// Drops the least recently used entries until `need` more bytes fit
/// strictly below `max`, or nothing is left.
pub open spec fn evict(es: Seq<Entry>, need: nat, max: nat) -> Seq<Entry>
    decreases es.len(),
{
    if es.len() == 0 || total_size(es) + need < max {
        es
    } else {
        evict(es.drop_first(), need, max)
    }
}

/// The abstract state of an [`LruCache`].
pub struct CacheModel {
    /// The entries, least recently used first.
    pub entries: Seq<Entry>,
    /// The largest size of a single value.
    pub unitsize: usize,
    /// The largest total size.
    pub maxsize: usize,
}

/// What `insert` does, and whether it stored the value.
pub open spec fn cache_insert(c: CacheModel, k: Seq<char>, v: Seq<char>) -> (CacheModel, bool) {
    if value_size(v) > c.unitsize {
        (c, false)
    } else {
        (
            CacheModel {
                entries: evict(without_key(c.entries, k), value_size(v), c.maxsize as nat).push((k, v)),
                ..c
            },
            true,
        )
    }
}

/// What `get` does, and what it returns.
pub open spec fn cache_get(c: CacheModel, k: Seq<char>) -> (CacheModel, Option<Seq<char>>) {
    match lookup(c.entries, k) {
        Some(v) => (CacheModel { entries: without_key(c.entries, k).push((k, v)), ..c }, Some(v)),
        None => (c, None),
    }
}

/// What `remove` does, and what it returns.
pub open spec fn cache_remove(c: CacheModel, k: Seq<char>) -> (CacheModel, Option<Seq<char>>) {
    (CacheModel { entries: without_key(c.entries, k), ..c }, lookup(c.entries, k))
}

pub proof fn lemma_total_push(es: Seq<Entry>, e: Entry)
    ensures
        total_size(es.push(e)) == total_size(es) + value_size(e.1),
{
    assert(es.push(e).drop_last() =~= es);
}

pub proof fn lemma_total_remove(es: Seq<Entry>, i: int)
    requires
        0 <= i < es.len(),
    ensures
        total_size(es.remove(i)) + value_size(es[i].1) == total_size(es),
    decreases es.len(),
{
    if i == es.len() - 1 {
        assert(es.remove(i) =~= es.drop_last());
    } else {
        let init = es.drop_last();
        lemma_total_remove(init, i);
        assert(es.remove(i) =~= init.remove(i).push(es.last()));
        lemma_total_push(init.remove(i), es.last());
    }
}

/// With distinct keys the position of a key is the one where it occurs.
pub proof fn lemma_key_index(es: Seq<Entry>, i: int)
    requires
        distinct_keys(es),
        0 <= i < es.len(),
    ensures
        has_key(es, es[i].0),
        key_index(es, es[i].0) == i,
{
    let k = es[i].0;
    assert(has_key(es, k));
    let j = key_index(es, k);
    if j < i {
        assert(es[j].0 != es[i].0);
    } else if i < j {
        assert(es[i].0 != es[j].0);
    }
}

proof fn lemma_distinct_remove(es: Seq<Entry>, i: int)
    requires
        distinct_keys(es),
        0 <= i < es.len(),
    ensures
        distinct_keys(es.remove(i)),
        !has_key(es.remove(i), es[i].0),
{
    let r = es.remove(i);
    assert forall|a: int, b: int| 0 <= a < b < r.len() implies r[a].0 != r[b].0 by {
        let a2 = if a < i { a } else { a + 1 };
        let b2 = if b < i { b } else { b + 1 };
        assert(r[a] == es[a2] && r[b] == es[b2]);
    }
    if has_key(r, es[i].0) {
        let j = choose|j: int| 0 <= j < r.len() && r[j].0 == es[i].0;
        let j2 = if j < i { j } else { j + 1 };
        assert(r[j] == es[j2]);
    }
}

proof fn lemma_distinct_push(es: Seq<Entry>, e: Entry)
    requires
        distinct_keys(es),
        !has_key(es, e.0),
    ensures
        distinct_keys(es.push(e)),
{
    assert forall|a: int, b: int| 0 <= a < b < es.push(e).len() implies es.push(e)[a].0 != es.push(
        e,
    )[b].0 by {
        if b == es.len() {
            assert(es[a].0 != e.0);
        }
    }
}

/// Eviction keeps a suffix: it drops the least recently used entries
/// first, and it stops once the new value fits or nothing is left.
pub proof fn law_eviction_drops_least_recent_first(es: Seq<Entry>, need: nat, max: nat)
    ensures
        exists|n: int| 0 <= n <= es.len() && evict(es, need, max) == es.skip(n),
        evict(es, need, max).len() == 0 || total_size(evict(es, need, max)) + need < max,
    decreases es.len(),
{
    if es.len() == 0 || total_size(es) + need < max {
        assert(es.skip(0) =~= es);
    } else {
        law_eviction_drops_least_recent_first(es.drop_first(), need, max);
        let n = choose|n: int|
            0 <= n <= es.drop_first().len() && evict(es.drop_first(), need, max)
                == es.drop_first().skip(n);
        assert(es.drop_first().skip(n) =~= es.skip(n + 1));
    }
}

proof fn lemma_suffix_keeps_keys_out(es: Seq<Entry>, n: int, k: Seq<char>)
    requires
        0 <= n <= es.len(),
        distinct_keys(es),
        !has_key(es, k),
    ensures
        distinct_keys(es.skip(n)),
        !has_key(es.skip(n), k),
{
    let t = es.skip(n);
    assert forall|a: int, b: int| 0 <= a < b < t.len() implies t[a].0 != t[b].0 by {
        assert(t[a] == es[a + n] && t[b] == es[b + n]);
    }
    if has_key(t, k) {
        let j = choose|j: int| 0 <= j < t.len() && t[j].0 == k;
        assert(t[j] == es[j + n]);
    }
}

proof fn lemma_without_key(es: Seq<Entry>, k: Seq<char>)
    requires
        distinct_keys(es),
    ensures
        distinct_keys(without_key(es, k)),
        !has_key(without_key(es, k), k),
{
    if has_key(es, k) {
        let i = key_index(es, k);
        lemma_distinct_remove(es, i);
    }
}

/// Reading a key right after storing a value under it gives that value
/// back.
pub proof fn law_get_after_insert(c: CacheModel, k: Seq<char>, v: Seq<char>)
    requires
        distinct_keys(c.entries),
        cache_insert(c, k, v).1,
    ensures
        cache_get(cache_insert(c, k, v).0, k).1 == Some(v),
        distinct_keys(cache_insert(c, k, v).0.entries),
{
    let base = without_key(c.entries, k);
    lemma_without_key(c.entries, k);
    let kept = evict(base, value_size(v), c.maxsize as nat);
    law_eviction_drops_least_recent_first(base, value_size(v), c.maxsize as nat);
    let n = choose|n: int| 0 <= n <= base.len() && kept == base.skip(n);
    lemma_suffix_keeps_keys_out(base, n, k);
    lemma_distinct_push(kept, (k, v));
    let es2 = kept.push((k, v));
    lemma_key_index(es2, es2.len() - 1);
}

/// A value is refused exactly when it is larger than one unit, and a
/// refused value leaves the cache as it was.
pub proof fn law_insert_refuses_only_oversized_values(c: CacheModel, k: Seq<char>, v: Seq<char>)
    ensures
        !cache_insert(c, k, v).1 <==> value_size(v) > c.unitsize,
        !cache_insert(c, k, v).1 ==> cache_insert(c, k, v).0 == c,
{
}

/// When a unit fits in the total bound (the cache holds at least one unit),
/// storing a value keeps the total size within the bound.
pub proof fn law_insert_keeps_total_within_bound(c: CacheModel, k: Seq<char>, v: Seq<char>)
    requires
        c.unitsize <= c.maxsize,
        total_size(c.entries) <= c.maxsize,
    ensures
        total_size(cache_insert(c, k, v).0.entries) <= c.maxsize,
{
    if cache_insert(c, k, v).1 {
        let base = without_key(c.entries, k);
        let kept = evict(base, value_size(v), c.maxsize as nat);
        law_eviction_drops_least_recent_first(base, value_size(v), c.maxsize as nat);
        lemma_total_push(kept, (k, v));
    }
}

/// After a key is removed it is no longer cached, and every other entry
/// stays, in the same order.
pub proof fn law_remove_forgets_key(c: CacheModel, k: Seq<char>)
    requires
        distinct_keys(c.entries),
    ensures
        !has_key(cache_remove(c, k).0.entries, k),
        cache_remove(c, k).0.entries.len() == c.entries.len() - (if has_key(c.entries, k) {
            1int
        } else {
            0int
        }),
{
    lemma_without_key(c.entries, k);
}

/// A key that is read becomes the most recently used entry, and nothing
/// is lost.
pub proof fn law_get_makes_most_recent(c: CacheModel, k: Seq<char>)
    requires
        distinct_keys(c.entries),
        has_key(c.entries, k),
    ensures
        cache_get(c, k).0.entries.last() == (k, lookup(c.entries, k)->Some_0),
        cache_get(c, k).0.entries.len() == c.entries.len(),
        total_size(cache_get(c, k).0.entries) == total_size(c.entries),
{
    let i = key_index(c.entries, k);
    lemma_total_remove(c.entries, i);
    lemma_total_push(c.entries.remove(i), (k, c.entries[i].1));
}

/// A least-recently-used cache of texts keyed by texts.
pub struct LruCache {
    // Entries, least recently used first.
    entries: Vec<(String, String)>,
    unitsize: usize,
    maxsize: usize,
    cursize: usize,
}

/// The abstract entries of concrete ones.
pub open spec fn entries_view(v: Seq<(String, String)>) -> Seq<Entry> {
    v.map_values(|e: (String, String)| (e.0@, e.1@))
}

impl View for LruCache {
    type V = CacheModel;

    closed spec fn view(&self) -> CacheModel {
        CacheModel {
            entries: entries_view(self.entries@),
            unitsize: self.unitsize,
            maxsize: self.maxsize,
        }
    }
}

impl LruCache {
    /// The cache is consistent: keys are distinct and the recorded size is
    /// the total size, which stays within the bound unless a single value
    /// alone exceeds it.
    pub closed spec fn wf(&self) -> bool {
        &&& distinct_keys(self@.entries)
        &&& forall|i: int|
            0 <= i < self@.entries.len() ==> value_size(#[trigger] self@.entries[i].1)
                <= self.unitsize
        &&& self.cursize == total_size(self@.entries)
        &&& (self.cursize <= self.maxsize || (self.entries@.len() == 1 && self.cursize
            <= self.unitsize))
    }

    /// What a consistent cache guarantees: no key is stored twice, every
    /// value fits in one unit, and the total size stays within the bound
    /// unless a single value alone exceeds it.
    pub proof fn lemma_wf(&self)
        requires
            self.wf(),
        ensures
            distinct_keys(self@.entries),
            forall|i: int|
                0 <= i < self@.entries.len() ==> value_size(#[trigger] self@.entries[i].1)
                    <= self@.unitsize,
            total_size(self@.entries) <= self@.maxsize || (self@.entries.len() == 1 && total_size(
                self@.entries,
            ) <= self@.unitsize),
    {
    }

    /// When one unit fits in the total bound (a cache made for at least one
    /// value), the values held never exceed the bound in all.
    pub proof fn law_total_within_bound(&self)
        requires
            self.wf(),
            self@.unitsize <= self@.maxsize,
        ensures
            total_size(self@.entries) <= self@.maxsize,
    {
    }

    /// An empty cache for at most `maxcount` values of at most `maxsize`
    /// bytes each.
    pub fn new(maxcount: usize, maxsize: usize) -> (cache: Self)
        requires
            maxcount * maxsize <= usize::MAX,
        ensures
            cache.wf(),
            cache@.entries == Seq::<Entry>::empty(),
            cache@.unitsize == maxsize,
            cache@.maxsize == maxsize * maxcount,
    {
        let cache = LruCache {
            entries: Vec::new(),
            unitsize: maxsize,
            maxsize: maxsize * maxcount,
            cursize: 0,
        };
        assert(cache@.entries =~= Seq::<Entry>::empty());
        cache
    }

    /// The position of `key`, if it is cached.
    fn find(&self, key: &String) -> (pos: Option<usize>)
        requires
            self.wf(),
        ensures
            match pos {
                Some(i) => i < self@.entries.len() && has_key(self@.entries, key@) && key_index(
                    self@.entries,
                    key@,
                ) == i,
                None => !has_key(self@.entries, key@),
            },
    {
        let mut i: usize = 0;
        while i < self.entries.len()
            invariant
                i <= self.entries@.len(),
                self.wf(),
                forall|j: int| 0 <= j < i ==> self@.entries[j].0 != key@,
            decreases self.entries@.len() - i,
        {
            if self.entries[i].0 == *key {
                proof {
                    lemma_key_index(self@.entries, i as int);
                }
                return Some(i);
            }
            i = i + 1;
        }
        None
    }

    /// Takes out the entry at `i`.
    fn take(&mut self, i: usize) -> (entry: (String, String))
        requires
            old(self).wf(),
            i < old(self)@.entries.len(),
        ensures
            final(self).wf(),
            final(self)@ == (CacheModel { entries: old(self)@.entries.remove(i as int), ..old(self)@ }),
            (entry.0@, entry.1@) == old(self)@.entries[i as int],
    {
        let ghost es = self@.entries;
        proof {
            lemma_total_remove(es, i as int);
            lemma_distinct_remove(es, i as int);
        }
        let entry = self.entries.remove(i);
        assert(self@.entries =~= es.remove(i as int));
        let size = entry.1.as_str().len();
        self.cursize = self.cursize - size;
        entry
    }

    /// Puts `entry` in as the most recently used one.
    fn put(&mut self, entry: (String, String))
        requires
            old(self).wf(),
            !has_key(old(self)@.entries, entry.0@),
            value_size(entry.1@) <= old(self).unitsize,
            old(self).cursize + value_size(entry.1@) <= old(self).maxsize || (old(self)@.entries.len()
                == 0 && value_size(entry.1@) <= old(self).unitsize),
        ensures
            final(self).wf(),
            final(self)@ == (CacheModel {
                entries: old(self)@.entries.push((entry.0@, entry.1@)),
                ..old(self)@
            }),
    {
        let ghost es = self@.entries;
        let ghost e = (entry.0@, entry.1@);
        proof {
            lemma_total_push(es, e);
            lemma_distinct_push(es, e);
        }
        let size = entry.1.as_str().len();
        self.cursize = self.cursize + size;
        self.entries.push(entry);
        assert(self@.entries =~= es.push(e));
    }

    /// Stores `value` under `key` as the most recently used entry, first
    /// dropping the least recently used entries until it fits; refuses a
    /// value larger than the size of a single unit.
    pub fn insert(&mut self, key: String, value: String) -> (stored: bool)
        requires
            old(self).wf(),
            value_size(value@) <= usize::MAX,
        ensures
            final(self).wf(),
            (final(self)@, stored) == cache_insert(old(self)@, key@, value@),
    {
        let size = value.as_str().len();
        if size > self.unitsize {
            return false;
        }
        let ghost k = key@;
        let ghost base = without_key(self@.entries, k);
        match self.find(&key) {
            Some(i) => {
                let _ = self.take(i);
            },
            None => {},
        }
        assert(self@.entries == base);
        proof {
            lemma_without_key(old(self)@.entries, k);
        }
        while self.entries.len() > 0 && (size >= self.maxsize || self.cursize >= self.maxsize - size)
            invariant
                self.wf(),
                self.unitsize == old(self).unitsize,
                self.maxsize == old(self).maxsize,
                size == value_size(value@),
                size <= self.unitsize,
                !has_key(self@.entries, k),
                evict(self@.entries, size as nat, self.maxsize as nat) == evict(
                    base,
                    size as nat,
                    old(self).maxsize as nat,
                ),
            decreases self.entries@.len(),
        {
            let ghost es = self@.entries;
            let _ = self.take(0);
            proof {
                assert(es.remove(0) =~= es.drop_first());
                if has_key(self@.entries, k) {
                    let j = choose|j: int| 0 <= j < self@.entries.len() && self@.entries[j].0 == k;
                    assert(es[j + 1].0 == k);
                }
            }
        }
        assert(evict(self@.entries, size as nat, self.maxsize as nat) == self@.entries);
        self.put((key, value));
        true
    }

    /// The value stored under `key`, which becomes the most recently used
    /// entry.
    pub fn get(&mut self, key: &String) -> (value: Option<&String>)
        requires
            old(self).wf(),
        ensures
            final(self).wf(),
            cache_get(old(self)@, key@).0 == final(self)@,
            cache_get(old(self)@, key@).1 == match value {
                Some(v) => Some(v@),
                None => None::<Seq<char>>,
            },
    {
        match self.find(key) {
            Some(i) => {
                let ghost es = self@.entries;
                let entry = self.take(i);
                proof {
                    lemma_distinct_remove(es, i as int);
                    lemma_total_remove(es, i as int);
                    assert(es.remove(i as int) == without_key(es, key@));
                }
                self.put(entry);
                let last = self.entries.len() - 1;
                Some(&self.entries[last].1)
            },
            None => None,
        }
    }

    /// Whether `key` is cached; the order of use is unchanged.
    pub fn has(&self, key: &String) -> (cached: bool)
        requires
            self.wf(),
        ensures
            cached == has_key(self@.entries, key@),
    {
        self.find(key).is_some()
    }

    /// Takes the value stored under `key` out of the cache.
    pub fn remove(&mut self, key: &String) -> (value: Option<String>)
        requires
            old(self).wf(),
        ensures
            final(self).wf(),
            cache_remove(old(self)@, key@).0 == final(self)@,
            cache_remove(old(self)@, key@).1 == match value {
                Some(v) => Some(v@),
                None => None::<Seq<char>>,
            },
    {
        match self.find(key) {
            Some(i) => {
                let entry = self.take(i);
                Some(entry.1)
            },
            None => None,
        }
    }
}

} // verus!
