//! Bounded caches that forget what was used least recently.

use crate::extractor::object_plan;
use crate::extractor::object_plan::{ObjectPlan, ObjectPlanView};
use crate::regex::TextRegex;
use crate::shared;
use crate::tel::compiled::CompiledPatternView;
use crate::tel::CompiledPattern;
use lru::LruCache;
use std::sync::Arc;
use vstd::prelude::*;

verus! {

/// `lru::DefaultHasher`, the hasher of a cache, is a parameter of its type.
#[verifier::external_type_specification]
#[verifier::external_body]
pub struct ExDefaultHasher(lru::DefaultHasher);

/// `lru::LruCache` holds the entries of a [`BoundedCache`].
#[verifier::external_type_specification]
#[verifier::external_body]
#[verifier::reject_recursive_types(K)]
#[verifier::reject_recursive_types(V)]
#[verifier::reject_recursive_types(S)]
pub struct ExLruCache<K, V, S>(LruCache<K, V, S>);

/// What values are kept by: a pattern, the number of a mode, captured classes, and an offset.
pub type CacheKey = (String, u8, Vec<Option<String>>, Option<usize>);

/// The value of a [`CacheKey`].
pub type CacheKeyView = (Seq<char>, u8, Seq<Option<Seq<char>>>, Option<usize>);

/// What is kept.
pub enum CacheValue {
    Pattern(Arc<CompiledPattern>),
    Plan(Arc<ObjectPlan>),
    Regex(Arc<TextRegex>),
}

/// The value of a [`CacheValue`].
#[verifier::ext_equal]
pub enum CacheValueView {
    Pattern(CompiledPatternView),
    Plan(ObjectPlanView),
    Regex(Seq<char>),
}

impl View for CacheValue {
    type V = CacheValueView;

    open spec fn view(&self) -> CacheValueView {
        match self {
            CacheValue::Pattern(pattern) => CacheValueView::Pattern(pattern@),
            CacheValue::Plan(plan) => CacheValueView::Plan(plan@),
            CacheValue::Regex(regex) => CacheValueView::Regex(regex.source()),
        }
    }
}

impl Clone for CacheValue {
    fn clone(&self) -> (r: Self)
        ensures
            r@ == self@,
    {
        match self {
            CacheValue::Pattern(pattern) => CacheValue::Pattern(shared::share(pattern)),
            CacheValue::Plan(plan) => CacheValue::Plan(shared::share(plan)),
            CacheValue::Regex(regex) => CacheValue::Regex(shared::share(regex)),
        }
    }
}

/// Keys with their values, the most recently used first.
pub type Entries = Seq<(CacheKeyView, CacheValueView)>;

/// The value of a key.
pub open spec fn key_view(key: CacheKey) -> CacheKeyView {
    (key.0@, key.1, object_plan::captured_view(key.2@), key.3)
}

/// Whether the entry at `i` is the one that a key keeps.
pub open spec fn is_at(entries: Entries, key: CacheKeyView, i: int) -> bool {
    0 <= i < entries.len() && entries[i].0 == key
}

/// Whether a key keeps something.
pub open spec fn has_key(entries: Entries, key: CacheKeyView) -> bool {
    exists|i: int| is_at(entries, key, i)
}

/// Where the entry of a key stands.
pub open spec fn place_of(entries: Entries, key: CacheKeyView) -> int {
    choose|i: int| is_at(entries, key, i)
}

/// Whether no key occurs twice.
pub open spec fn keys_differ(entries: Entries) -> bool {
    forall|i: int, j: int|
        0 <= i < j < entries.len() ==> (#[trigger] entries[i]).0 != (#[trigger] entries[j]).0
}

/// Entries after one of them was used.
pub open spec fn touched(entries: Entries, key: CacheKeyView) -> Entries {
    if has_key(entries, key) {
        seq![entries[place_of(entries, key)]] + entries.remove(place_of(entries, key))
    } else {
        entries
    }
}

/// At most `cap` entries after one was put in front: in place of the one with the same key, or of
/// the last where there are `cap` already.
pub open spec fn pushed(entries: Entries, cap: nat, key: CacheKeyView, value: CacheValueView) -> Entries {
    if has_key(entries, key) {
        seq![(key, value)] + entries.remove(place_of(entries, key))
    } else if entries.len() == cap {
        seq![(key, value)] + entries.drop_last()
    } else {
        seq![(key, value)] + entries
    }
}

/// The entry that gives way to one with the given key: that of the same key, else the last.
pub open spec fn replaced(entries: Entries, key: CacheKeyView) -> (CacheKeyView, CacheValueView) {
    if has_key(entries, key) {
        entries[place_of(entries, key)]
    } else {
        entries.last()
    }
}

/// The entries of a cache, the most recently used first.
pub uninterp spec fn lru_entries(cache: LruCache<CacheKey, CacheValue>) -> Entries;

/// How many entries a cache holds at most.
pub uninterp spec fn lru_cap(cache: LruCache<CacheKey, CacheValue>) -> nat;

/// `lru::LruCache::sparse` makes an empty cache that holds at most `cap` entries; room for them is
/// made as they come.
#[verifier::external_body]
fn lru_sparse(cap: usize) -> (r: LruCache<CacheKey, CacheValue>)
    requires
        cap > 0,
    ensures
        lru_entries(r) == Entries::empty(),
        lru_cap(r) == cap,
{
    LruCache::sparse(std::num::NonZeroUsize::new(cap).unwrap())
}

/// `lru::LruCache::get` gives the value of a key and makes its entry the most recently used; where
/// the key is not there it changes nothing.
#[verifier::external_body]
fn lru_get<'a>(cache: &'a mut LruCache<CacheKey, CacheValue>, key: &CacheKey) -> (r: Option<
    &'a CacheValue,
>)
    ensures
        lru_entries(*final(cache)) == touched(lru_entries(*old(cache)), key_view(*key)),
        lru_cap(*final(cache)) == lru_cap(*old(cache)),
        r is Some <==> has_key(lru_entries(*old(cache)), key_view(*key)),
        r matches Some(value) ==> value@ == lru_entries(*old(cache))[place_of(
            lru_entries(*old(cache)),
            key_view(*key),
        )].1,
{
    cache.get(key)
}

/// `lru::LruCache::push` puts an entry in front and gives back the one that it replaced: that of the
/// same key, or the least recently used of a full cache.
#[verifier::external_body]
fn lru_push(cache: &mut LruCache<CacheKey, CacheValue>, key: CacheKey, value: CacheValue) -> (r:
    Option<(CacheKey, CacheValue)>)
    ensures
        lru_entries(*final(cache)) == pushed(
            lru_entries(*old(cache)),
            lru_cap(*old(cache)),
            key_view(key),
            value@,
        ),
        lru_cap(*final(cache)) == lru_cap(*old(cache)),
        r is Some <==> has_key(lru_entries(*old(cache)), key_view(key)) || lru_entries(
            *old(cache),
        ).len() == lru_cap(*old(cache)),
        r matches Some(gone) ==> (key_view(gone.0), gone.1@) == replaced(
            lru_entries(*old(cache)),
            key_view(key),
        ),
{
    cache.push(key, value)
}

/// `lru::LruCache::contains` tells whether a key is there, without using its entry.
#[verifier::external_body]
fn lru_contains(cache: &LruCache<CacheKey, CacheValue>, key: &CacheKey) -> (r: bool)
    ensures
        r == has_key(lru_entries(*cache), key_view(*key)),
{
    cache.contains(key)
}

/// `lru::LruCache::len` tells how many entries there are.
#[verifier::external_body]
fn lru_len(cache: &LruCache<CacheKey, CacheValue>) -> (r: usize)
    ensures
        r == lru_entries(*cache).len(),
{
    cache.len()
}

/// `lru::LruCache::iter` visits the entries, the most recently used first; their values are handed
/// out.
#[verifier::external_body]
fn lru_values(cache: &LruCache<CacheKey, CacheValue>) -> (r: Vec<CacheValue>)
    ensures
        r.len() == lru_entries(*cache).len(),
        forall|i: int| 0 <= i < r.len() ==> (#[trigger] r@[i])@ == lru_entries(*cache)[i].1,
{
    cache.iter().map(|(_, value)| value.clone()).collect()
}

/// How a cache was used.
#[derive(Debug, Clone, Copy, PartialEq, Eq, Structural)]
pub struct CacheStats {
    pub capacity: usize,
    pub len: usize,
    pub hits: usize,
    pub misses: usize,
    pub inserts: usize,
    pub evictions: usize,
}

impl Default for CacheStats {
    fn default() -> (r: Self)
        ensures
            r == (CacheStats { capacity: 0, len: 0, hits: 0, misses: 0, inserts: 0, evictions: 0 }),
    {
        CacheStats { capacity: 0, len: 0, hits: 0, misses: 0, inserts: 0, evictions: 0 }
    }
}

/// One more; a count that can grow no further stays.
pub open spec fn bumped(count: usize) -> usize {
    if count == usize::MAX {
        count
    } else {
        (count + 1) as usize
    }
}

/// One more; a count that can grow no further stays.
pub fn bump(count: usize) -> (r: usize)
    ensures
        r == bumped(count),
{
    if count == usize::MAX {
        count
    } else {
        count + 1
    }
}

/// A cache that holds no more than its capacity; one of capacity 0 holds nothing.
pub struct BoundedCache {
    capacity: usize,
    values: Option<LruCache<CacheKey, CacheValue>>,
    hits: usize,
    misses: usize,
    inserts: usize,
    evictions: usize,
}

/// The value of a [`BoundedCache`].
#[verifier::ext_equal]
pub struct BoundedCacheView {
    pub capacity: usize,
    pub entries: Entries,
    pub hits: usize,
    pub misses: usize,
    pub inserts: usize,
    pub evictions: usize,
}

impl View for BoundedCache {
    type V = BoundedCacheView;

    closed spec fn view(&self) -> BoundedCacheView {
        BoundedCacheView {
            capacity: self.capacity,
            entries: match self.values {
                Some(values) => lru_entries(values),
                None => Seq::empty(),
            },
            hits: self.hits,
            misses: self.misses,
            inserts: self.inserts,
            evictions: self.evictions,
        }
    }
}

impl BoundedCacheView {
    /// An unused cache.
    pub open spec fn unused(capacity: usize) -> Self {
        BoundedCacheView {
            capacity,
            entries: Seq::empty(),
            hits: 0,
            misses: 0,
            inserts: 0,
            evictions: 0,
        }
    }

    /// The cache after a key was looked up.
    pub open spec fn looked_up(self, key: CacheKeyView) -> Self {
        if has_key(self.entries, key) {
            BoundedCacheView {
                entries: touched(self.entries, key),
                hits: bumped(self.hits),
                ..self
            }
        } else {
            BoundedCacheView { misses: bumped(self.misses), ..self }
        }
    }

    /// What a key keeps.
    pub open spec fn value_of(self, key: CacheKeyView) -> CacheValueView {
        self.entries[place_of(self.entries, key)].1
    }

    /// The cache after a value was put in.
    pub open spec fn inserted(self, key: CacheKeyView, value: CacheValueView) -> Self {
        if self.capacity == 0 {
            self
        } else {
            BoundedCacheView {
                entries: pushed(self.entries, self.capacity as nat, key, value),
                inserts: bumped(self.inserts),
                evictions: if !has_key(self.entries, key) && self.entries.len() == self.capacity {
                    bumped(self.evictions)
                } else {
                    self.evictions
                },
                ..self
            }
        }
    }

    /// Whether the cache keeps to its bounds.
    pub open spec fn is_bounded(self) -> bool {
        self.entries.len() <= self.capacity && keys_differ(self.entries)
    }
}

impl BoundedCache {
    /// Whether the cache keeps to its bounds.
    pub closed spec fn wf(self) -> bool {
        &&& self@.is_bounded()
        &&& self.values is None <==> self.capacity == 0
        &&& self.values matches Some(values) ==> lru_cap(values) == self.capacity
    }

    /// An unused cache.
    #[must_use]
    pub fn new(capacity: usize) -> (r: Self)
        ensures
            r.wf(),
            r@ == BoundedCacheView::unused(capacity),
    {
        let values = if capacity == 0 {
            None
        } else {
            Some(lru_sparse(capacity))
        };
        BoundedCache {
            capacity,
            values,
            hits: 0,
            misses: 0,
            inserts: 0,
            evictions: 0,
        }
    }

    /// What a key keeps.
    pub fn get_cloned(&mut self, key: &CacheKey) -> (r: Option<CacheValue>)
        requires
            old(self).wf(),
        ensures
            final(self).wf(),
            final(self)@ == old(self)@.looked_up(key_view(*key)),
            r is Some <==> has_key(old(self)@.entries, key_view(*key)),
            r matches Some(value) ==> value@ == old(self)@.value_of(key_view(*key)),
    {
        proof {
            lemma_touched(self@.entries, key_view(*key));
        }
        let found = match &mut self.values {
            Some(values) => match lru_get(values, key) {
                Some(value) => Some(value.clone()),
                None => None,
            },
            None => None,
        };
        if found.is_some() {
            self.hits = bump(self.hits);
        } else {
            self.misses = bump(self.misses);
        }
        found
    }

    /// Puts a value in.
    pub fn insert(&mut self, key: CacheKey, value: CacheValue)
        requires
            old(self).wf(),
        ensures
            final(self).wf(),
            final(self)@ == old(self)@.inserted(key_view(key), value@),
    {
        proof {
            if self.capacity > 0 {
                lemma_pushed(self@.entries, self.capacity as nat, key_view(key), value@);
            }
        }
        let evicted = match &mut self.values {
            Some(values) => {
                let existed = lru_contains(values, &key);
                let replaced = lru_push(values, key, value);
                replaced.is_some() && !existed
            },
            None => {
                return;
            },
        };
        if evicted {
            self.evictions = bump(self.evictions);
        }
        self.inserts = bump(self.inserts);
    }

    /// How the cache was used.
    #[must_use]
    pub fn stats(&self) -> (r: CacheStats)
        requires
            self.wf(),
        ensures
            r == (CacheStats {
                capacity: self@.capacity,
                len: self@.entries.len() as usize,
                hits: self@.hits,
                misses: self@.misses,
                inserts: self@.inserts,
                evictions: self@.evictions,
            }),
            r.len <= r.capacity,
    {
        CacheStats {
            capacity: self.capacity,
            len: match &self.values {
                Some(values) => lru_len(values),
                None => 0,
            },
            hits: self.hits,
            misses: self.misses,
            inserts: self.inserts,
            evictions: self.evictions,
        }
    }

    /// The values, the most recently used first.
    #[must_use]
    pub fn values(&self) -> (r: Vec<CacheValue>)
        ensures
            r.len() == self@.entries.len(),
            forall|i: int| 0 <= i < r.len() ==> (#[trigger] r@[i])@ == self@.entries[i].1,
    {
        match &self.values {
            Some(values) => lru_values(values),
            None => Vec::new(),
        }
    }
}

proof fn lemma_touched(entries: Entries, key: CacheKeyView)
    requires
        keys_differ(entries),
    ensures
        touched(entries, key).len() == entries.len(),
        keys_differ(touched(entries, key)),
{
    if has_key(entries, key) {
        let at = place_of(entries, key);
        assert(is_at(entries, key, at));
        lemma_to_front(entries, at, entries[at].1);
        assert(entries[at] == (key, entries[at].1));
    }
}

proof fn lemma_pushed(entries: Entries, cap: nat, key: CacheKeyView, value: CacheValueView)
    requires
        keys_differ(entries),
        entries.len() <= cap,
        cap > 0,
    ensures
        pushed(entries, cap, key, value).len() <= cap,
        keys_differ(pushed(entries, cap, key, value)),
{
    let after = pushed(entries, cap, key, value);
    if has_key(entries, key) {
        let at = place_of(entries, key);
        assert(is_at(entries, key, at));
        lemma_to_front(entries, at, value);
    } else {
        assert forall|i: int, j: int| 0 <= i < j < after.len() implies (#[trigger] after[i]).0 != (
        #[trigger] after[j]).0 by {
            assert(after[j] == entries[j - 1]);
            if i == 0 {
                if entries[j - 1].0 == key {
                    assert(is_at(entries, key, j - 1));
                }
            } else {
                assert(after[i] == entries[i - 1]);
            }
        }
    }
}

proof fn lemma_to_front(entries: Entries, at: int, value: CacheValueView)
    requires
        keys_differ(entries),
        0 <= at < entries.len(),
    ensures
        keys_differ(seq![(entries[at].0, value)] + entries.remove(at)),
{
    let rest = entries.remove(at);
    let after = seq![(entries[at].0, value)] + rest;
    assert forall|i: int, j: int| 0 <= i < j < after.len() implies (#[trigger] after[i]).0 != (
    #[trigger] after[j]).0 by {
        let b = if j - 1 < at {
            j - 1
        } else {
            j
        };
        assert(after[j] == entries[b]);
        if i > 0 {
            let a = if i - 1 < at {
                i - 1
            } else {
                i
            };
            assert(after[i] == entries[a]);
            assert(a < b);
        } else if b < at {
            assert(entries[b].0 != entries[at].0);
        } else {
            assert(entries[at].0 != entries[b].0);
        }
    }
}

/// A cache keeps to its bounds, whatever is looked up or put in.
pub proof fn law_cache_stays_bounded(c: BoundedCacheView, key: CacheKeyView, value: CacheValueView)
    requires
        c.is_bounded(),
    ensures
        c.looked_up(key).is_bounded(),
        c.inserted(key, value).is_bounded(),
{
    lemma_touched(c.entries, key);
    if c.capacity > 0 {
        lemma_pushed(c.entries, c.capacity as nat, key, value);
    }
}

/// What was put in last is found, unless the cache holds nothing at all.
pub proof fn law_inserted_is_found(c: BoundedCacheView, key: CacheKeyView, value: CacheValueView)
    requires
        c.is_bounded(),
        c.capacity > 0,
    ensures
        has_key(c.inserted(key, value).entries, key),
        c.inserted(key, value).value_of(key) == value,
{
    let after = c.inserted(key, value);
    law_cache_stays_bounded(c, key, value);
    assert(is_at(after.entries, key, 0));
    let at = place_of(after.entries, key);
    if at > 0 {
        assert(after.entries[0].0 != after.entries[at].0);
    }
}

/// Putting a value in forgets nothing but, in a full cache, what was used least recently.
pub proof fn law_only_the_last_is_forgotten(
    c: BoundedCacheView,
    key: CacheKeyView,
    value: CacheValueView,
    other: CacheKeyView,
)
    requires
        c.is_bounded(),
        c.capacity > 0,
        has_key(c.entries, other),
        has_key(c.entries, key) || c.entries.len() < c.capacity || c.entries.last().0 != other,
    ensures
        has_key(c.inserted(key, value).entries, other),
{
    let entries = c.entries;
    let after = c.inserted(key, value).entries;
    let at = place_of(entries, other);
    assert(is_at(entries, other, at));
    if other == key {
        assert(is_at(after, other, 0));
    } else if has_key(entries, key) {
        let gone = place_of(entries, key);
        assert(is_at(entries, key, gone));
        if at < gone {
            assert(is_at(after, other, at + 1));
        } else {
            assert(is_at(after, other, at));
        }
    } else {
        assert(is_at(after, other, at + 1));
    }
}

/// Looking up a key that is there counts as a hit and puts its entry in front, with the others in
/// the order that they had; looking up one that is not there counts as a miss and changes nothing
/// else.
pub proof fn law_used_comes_first(c: BoundedCacheView, key: CacheKeyView, i: int)
    requires
        c.is_bounded(),
        c.hits < usize::MAX,
        c.misses < usize::MAX,
    ensures
        is_at(c.entries, key, i) ==> c.value_of(key) == c.entries[i].1 && c.looked_up(key) == (
        BoundedCacheView {
            entries: seq![c.entries[i]] + c.entries.take(i) + c.entries.skip(i + 1),
            hits: (c.hits + 1) as usize,
            ..c
        }),
        (forall|k: int| 0 <= k < c.entries.len() ==> (#[trigger] c.entries[k]).0 != key)
            ==> c.looked_up(key) == (BoundedCacheView { misses: (c.misses + 1) as usize, ..c }),
{
    if is_at(c.entries, key, i) {
        let at = place_of(c.entries, key);
        assert(is_at(c.entries, key, at));
        assert(at == i) by {
            if at < i {
                assert(c.entries[at].0 != c.entries[i].0);
            } else if i < at {
                assert(c.entries[i].0 != c.entries[at].0);
            }
        }
        assert(c.looked_up(key).entries =~= seq![c.entries[i]] + c.entries.take(i)
            + c.entries.skip(i + 1));
    }
    if has_key(c.entries, key) {
        let at = place_of(c.entries, key);
        assert(is_at(c.entries, key, at));
        assert(c.entries[at].0 == key);
    }
}

/// A value that is put in counts as inserted and comes first, with the others in the order that they
/// had: without the one of the same key where there is one, without the last, which counts as
/// evicted, where the cache is full, and else all of them. A cache of capacity 0 stays as it is.
pub proof fn law_inserted_comes_first(
    c: BoundedCacheView,
    key: CacheKeyView,
    value: CacheValueView,
    i: int,
)
    requires
        c.is_bounded(),
        c.inserts < usize::MAX,
        c.evictions < usize::MAX,
    ensures
        ({
            let after = c.inserted(key, value);
            let is_new = forall|k: int|
                0 <= k < c.entries.len() ==> (#[trigger] c.entries[k]).0 != key;
            let counted = BoundedCacheView { inserts: (c.inserts + 1) as usize, ..c };
            &&& c.capacity == 0 ==> after == c
            &&& c.capacity > 0 && is_at(c.entries, key, i) ==> after == (BoundedCacheView {
                entries: seq![(key, value)] + c.entries.take(i) + c.entries.skip(i + 1),
                ..counted
            })
            &&& c.capacity > 0 && is_new && c.entries.len() < c.capacity ==> after == (
            BoundedCacheView { entries: seq![(key, value)] + c.entries, ..counted })
            &&& c.capacity > 0 && is_new && c.entries.len() == c.capacity ==> after == (
            BoundedCacheView {
                entries: seq![(key, value)] + c.entries.take(c.entries.len() - 1),
                evictions: (c.evictions + 1) as usize,
                ..counted
            })
        }),
{
    if is_at(c.entries, key, i) {
        let at = place_of(c.entries, key);
        assert(is_at(c.entries, key, at));
        assert(at == i) by {
            if at < i {
                assert(c.entries[at].0 != c.entries[i].0);
            } else if i < at {
                assert(c.entries[i].0 != c.entries[at].0);
            }
        }
        if c.capacity > 0 {
            assert(c.inserted(key, value).entries =~= seq![(key, value)] + c.entries.take(i)
                + c.entries.skip(i + 1));
        }
    }
    if has_key(c.entries, key) {
        let at = place_of(c.entries, key);
        assert(is_at(c.entries, key, at));
        assert(c.entries[at].0 == key);
    }
    if c.entries.len() > 0 {
        assert(c.entries.drop_last() =~= c.entries.take(c.entries.len() - 1));
    }
}

} // verus!
