//! The translation cache: a store of cache items by key, and the in-memory
//! store that implements it.

use vstd::prelude::*;
use crate::cache_item::{CacheItem, CacheItemView};

verus! {

/// Cache service trait
pub trait CacheService {
    /// The items held, by key.
    spec fn entries(&self) -> Map<Seq<char>, CacheItemView>;

    /// The item held under `key`, if any.
    fn get(&self, key: &str) -> (r: Option<CacheItem>)
        ensures
            match r {
                Some(x) => self.entries().contains_key(key@) && x@ == self.entries()[key@],
                None => !self.entries().contains_key(key@),
            },
    ;

    /// Holds `item` under `key`, in place of any item held there before.
    fn set(&mut self, key: String, item: CacheItem)
        ensures
            final(self).entries() == old(self).entries().insert(key@, item@),
    ;

    /// Drops the item held under `key`, if any.
    fn remove(&mut self, key: &str)
        ensures
            final(self).entries() == old(self).entries().remove(key@),
    ;

    /// Drops every item.
    fn clear(&mut self)
        ensures
            final(self).entries() == Map::<Seq<char>, CacheItemView>::empty(),
    ;

    /// The number of items held.
    fn len(&self) -> (r: usize)
        ensures
            r == self.entries().len(),
    ;

    /// Whether no item is held.
    fn is_empty(&self) -> (r: bool)
        ensures
            r == (self.entries().len() == 0),
    ;
}

/// The items of a list of (key, item) pairs, by key; a later pair wins.
pub open spec fn items_map(s: Seq<(String, CacheItem)>) -> Map<Seq<char>, CacheItemView>
    decreases s.len(),
{
    if s.len() == 0 {
        Map::empty()
    } else {
        items_map(s.drop_last()).insert(s.last().0@, s.last().1@)
    }
}

/// Whether no key occurs twice.
pub open spec fn keys_distinct(s: Seq<(String, CacheItem)>) -> bool {
    forall|i: int, j: int| 0 <= i < j < s.len() ==> (#[trigger] s[i]).0@ != (#[trigger] s[j]).0@
}

proof fn lemma_items_map_dom(s: Seq<(String, CacheItem)>, k: Seq<char>)
    ensures
        items_map(s).contains_key(k) <==> exists|i: int| 0 <= i < s.len() && (#[trigger] s[i]).0@ == k,
    decreases s.len(),
{
    if s.len() > 0 {
        lemma_items_map_dom(s.drop_last(), k);
        if items_map(s.drop_last()).contains_key(k) {
            let i = choose|i: int| 0 <= i < s.drop_last().len() && (#[trigger] s.drop_last()[i]).0@ == k;
            assert(s[i] == s.drop_last()[i]);
        }
        if exists|i: int| 0 <= i < s.len() && (#[trigger] s[i]).0@ == k {
            let i = choose|i: int| 0 <= i < s.len() && (#[trigger] s[i]).0@ == k;
            if i < s.len() - 1 {
                assert(s.drop_last()[i] == s[i]);
            }
        }
    }
}

proof fn lemma_items_map_finite(s: Seq<(String, CacheItem)>)
    ensures
        items_map(s).dom().finite(),
        keys_distinct(s) ==> items_map(s).len() == s.len(),
    decreases s.len(),
{
    if s.len() > 0 {
        lemma_items_map_finite(s.drop_last());
        if keys_distinct(s) {
            assert(keys_distinct(s.drop_last())) by {
                assert forall|i: int, j: int| 0 <= i < j < s.drop_last().len() implies (#[trigger] s.drop_last()[i]).0@
                    != (#[trigger] s.drop_last()[j]).0@ by {
                    assert(s.drop_last()[i] == s[i]);
                    assert(s.drop_last()[j] == s[j]);
                }
            }
            lemma_items_map_dom(s.drop_last(), s.last().0@);
            if items_map(s.drop_last()).contains_key(s.last().0@) {
                let i = choose|i: int| 0 <= i < s.drop_last().len() && (#[trigger] s.drop_last()[i]).0@ == s.last().0@;
                assert(s[i] == s.drop_last()[i]);
                assert(s[i].0@ != s[s.len() - 1].0@);
            }
        }
    }
}

proof fn lemma_items_map_value(s: Seq<(String, CacheItem)>, i: int)
    requires
        keys_distinct(s),
        0 <= i < s.len(),
    ensures
        items_map(s).contains_key(s[i].0@),
        items_map(s)[s[i].0@] == s[i].1@,
    decreases s.len(),
{
    if i < s.len() - 1 {
        assert(keys_distinct(s.drop_last())) by {
            assert forall|a: int, b: int| 0 <= a < b < s.drop_last().len() implies (#[trigger] s.drop_last()[a]).0@
                != (#[trigger] s.drop_last()[b]).0@ by {
                assert(s.drop_last()[a] == s[a]);
                assert(s.drop_last()[b] == s[b]);
            }
        }
        lemma_items_map_value(s.drop_last(), i);
        assert(s.drop_last()[i] == s[i]);
        assert(s[i].0@ != s[s.len() - 1].0@);
    }
}

proof fn lemma_items_map_update(s: Seq<(String, CacheItem)>, i: int, p: (String, CacheItem))
    requires
        keys_distinct(s),
        0 <= i < s.len(),
        p.0@ == s[i].0@,
    ensures
        items_map(s.update(i, p)) == items_map(s).insert(p.0@, p.1@),
        keys_distinct(s.update(i, p)),
{
    let t = s.update(i, p);
    assert forall|k: Seq<char>| #[trigger] items_map(t).contains_key(k) == items_map(s).insert(p.0@, p.1@).contains_key(k) by {
        lemma_items_map_dom(t, k);
        lemma_items_map_dom(s, k);
        if exists|j: int| 0 <= j < t.len() && (#[trigger] t[j]).0@ == k {
            let j = choose|j: int| 0 <= j < t.len() && (#[trigger] t[j]).0@ == k;
            if j != i {
                assert(s[j] == t[j]);
            }
        }
        if exists|j: int| 0 <= j < s.len() && (#[trigger] s[j]).0@ == k {
            let j = choose|j: int| 0 <= j < s.len() && (#[trigger] s[j]).0@ == k;
            if j != i {
                assert(s[j] == t[j]);
            } else {
                assert(t[i].0@ == k);
            }
        }
        if k == p.0@ {
            assert(t[i].0@ == k);
        }
    }
    assert(keys_distinct(t)) by {
        assert forall|a: int, b: int| 0 <= a < b < t.len() implies (#[trigger] t[a]).0@ != (#[trigger] t[b]).0@ by {
            assert(s[a].0@ != s[b].0@);
        }
    }
    assert forall|k: Seq<char>| #[trigger] items_map(t).contains_key(k) implies items_map(t)[k]
        == items_map(s).insert(p.0@, p.1@)[k] by {
        lemma_items_map_dom(t, k);
        let j = choose|j: int| 0 <= j < t.len() && (#[trigger] t[j]).0@ == k;
        lemma_items_map_value(t, j);
        if j != i {
            lemma_items_map_value(s, j);
            assert(s[j] == t[j]);
        }
    }
    assert(items_map(t) =~= items_map(s).insert(p.0@, p.1@));
}

proof fn lemma_items_map_push(s: Seq<(String, CacheItem)>, p: (String, CacheItem))
    requires
        keys_distinct(s),
        forall|j: int| 0 <= j < s.len() ==> (#[trigger] s[j]).0@ != p.0@,
    ensures
        items_map(s.push(p)) == items_map(s).insert(p.0@, p.1@),
        keys_distinct(s.push(p)),
{
    assert(s.push(p).drop_last() =~= s);
    assert(keys_distinct(s.push(p))) by {
        assert forall|a: int, b: int| 0 <= a < b < s.push(p).len() implies (#[trigger] s.push(p)[a]).0@
            != (#[trigger] s.push(p)[b]).0@ by {
            if b < s.len() {
                assert(s[a].0@ != s[b].0@);
            } else {
                assert(s.push(p)[a] == s[a]);
            }
        }
    }
}

proof fn lemma_items_map_remove(s: Seq<(String, CacheItem)>, i: int)
    requires
        keys_distinct(s),
        0 <= i < s.len(),
    ensures
        items_map(s.remove(i)) == items_map(s).remove(s[i].0@),
        keys_distinct(s.remove(i)),
{
    let t = s.remove(i);
    let k0 = s[i].0@;
    assert(keys_distinct(t)) by {
        assert forall|a: int, b: int| 0 <= a < b < t.len() implies (#[trigger] t[a]).0@ != (#[trigger] t[b]).0@ by {
            let a2 = if a < i { a } else { a + 1 };
            let b2 = if b < i { b } else { b + 1 };
            assert(t[a] == s[a2]);
            assert(t[b] == s[b2]);
            assert(s[a2].0@ != s[b2].0@);
        }
    }
    assert forall|k: Seq<char>| #[trigger] items_map(t).contains_key(k) == items_map(s).remove(k0).contains_key(k) by {
        lemma_items_map_dom(t, k);
        lemma_items_map_dom(s, k);
        if exists|j: int| 0 <= j < t.len() && (#[trigger] t[j]).0@ == k {
            let j = choose|j: int| 0 <= j < t.len() && (#[trigger] t[j]).0@ == k;
            let j2 = if j < i { j } else { j + 1 };
            assert(t[j] == s[j2]);
            assert(s[j2].0@ != s[i].0@);
        }
        if k != k0 && exists|j: int| 0 <= j < s.len() && (#[trigger] s[j]).0@ == k {
            let j = choose|j: int| 0 <= j < s.len() && (#[trigger] s[j]).0@ == k;
            assert(j != i);
            if j < i {
                assert(t[j] == s[j]);
            } else {
                assert(t[j - 1] == s[j]);
            }
        }
    }
    assert forall|k: Seq<char>| #[trigger] items_map(t).contains_key(k) implies items_map(t)[k]
        == items_map(s).remove(k0)[k] by {
        lemma_items_map_dom(t, k);
        let j = choose|j: int| 0 <= j < t.len() && (#[trigger] t[j]).0@ == k;
        lemma_items_map_value(t, j);
        let j2 = if j < i { j } else { j + 1 };
        assert(t[j] == s[j2]);
        lemma_items_map_value(s, j2);
    }
    assert(items_map(t) =~= items_map(s).remove(k0));
}

/// In-memory cache store. Its hit and miss counters are kept for the hit
/// rate; no operation here changes them.
pub struct MemoryCache {
    items: Vec<(String, CacheItem)>,
    hits: usize,
    misses: usize,
}

impl MemoryCache {
    #[verifier::type_invariant]
    spec fn inv(&self) -> bool {
        keys_distinct(self.items@)
    }

    /// The lookups that found an item.
    pub closed spec fn hit_count(&self) -> nat {
        self.hits as nat
    }

    /// The lookups that found none.
    pub closed spec fn miss_count(&self) -> nat {
        self.misses as nat
    }

    /// An empty cache.
    pub fn new() -> (r: Self)
        ensures
            r.entries() == Map::<Seq<char>, CacheItemView>::empty(),
            r.hit_count() == 0,
            r.miss_count() == 0,
    {
        let r = MemoryCache { items: Vec::new(), hits: 0, misses: 0 };
        assert(items_map(r.items@) =~= Map::<Seq<char>, CacheItemView>::empty());
        r
    }

    /// An empty cache with room for `capacity` items.
    pub fn with_capacity(capacity: usize) -> (r: Self)
        ensures
            r.entries() == Map::<Seq<char>, CacheItemView>::empty(),
            r.hit_count() == 0,
            r.miss_count() == 0,
    {
        let r = MemoryCache { items: Vec::with_capacity(capacity), hits: 0, misses: 0 };
        assert(items_map(r.items@) =~= Map::<Seq<char>, CacheItemView>::empty());
        r
    }

    /// The lookup counts `(hits, misses)`, from which the hit rate is
    /// computed.
    pub fn counts(&self) -> (r: (usize, usize))
        ensures
            r.0 == self.hit_count(),
            r.1 == self.miss_count(),
    {
        (self.hits, self.misses)
    }

    fn find(&self, key: &String) -> (r: Option<usize>)
        ensures
            match r {
                Some(i) => i < self.items@.len() && self.items@[i as int].0@ == key@,
                None => forall|j: int| 0 <= j < self.items@.len() ==> (#[trigger] self.items@[j]).0@ != key@,
            },
    {
        let mut i: usize = 0;
        while i < self.items.len()
            invariant
                i <= self.items@.len(),
                forall|j: int| 0 <= j < i ==> (#[trigger] self.items@[j]).0@ != key@,
            decreases self.items@.len() - i,
        {
            if self.items[i].0 == *key {
                return Some(i);
            }
            i = i + 1;
        }
        None
    }
}

impl Default for MemoryCache {
    fn default() -> (r: Self)
        ensures
            r.entries() == Map::<Seq<char>, CacheItemView>::empty(),
    {
        MemoryCache::new()
    }
}

impl CacheService for MemoryCache {
    closed spec fn entries(&self) -> Map<Seq<char>, CacheItemView> {
        items_map(self.items@)
    }

    fn get(&self, key: &str) -> (r: Option<CacheItem>) {
        proof {
            use_type_invariant(self);
        }
        let k = String::from_str(key);
        match self.find(&k) {
            Some(i) => {
                proof {
                    lemma_items_map_value(self.items@, i as int);
                }
                Some(self.items[i].1.duplicate())
            },
            None => {
                proof {
                    lemma_items_map_dom(self.items@, key@);
                }
                None
            },
        }
    }

    fn set(&mut self, key: String, item: CacheItem)
        ensures
            final(self).hit_count() == old(self).hit_count(),
            final(self).miss_count() == old(self).miss_count(),
    {
        proof {
            use_type_invariant(&*self);
        }
        let ghost old_items = self.items@;
        let ghost p = (key, item);
        let found = self.find(&key);
        let mut items: Vec<(String, CacheItem)> = Vec::new();
        std::mem::swap(&mut items, &mut self.items);
        match found {
            Some(i) => {
                proof {
                    lemma_items_map_update(old_items, i as int, p);
                }
                items.set(i, (key, item));
            },
            None => {
                proof {
                    lemma_items_map_push(old_items, p);
                }
                items.push((key, item));
            },
        }
        self.items = items;
    }

    fn remove(&mut self, key: &str)
        ensures
            final(self).hit_count() == old(self).hit_count(),
            final(self).miss_count() == old(self).miss_count(),
    {
        proof {
            use_type_invariant(&*self);
        }
        let k = String::from_str(key);
        let ghost old_items = self.items@;
        match self.find(&k) {
            Some(i) => {
                proof {
                    lemma_items_map_remove(old_items, i as int);
                }
                let mut items: Vec<(String, CacheItem)> = Vec::new();
                std::mem::swap(&mut items, &mut self.items);
                items.remove(i);
                self.items = items;
            },
            None => {
                proof {
                    lemma_items_map_dom(old_items, key@);
                    assert(items_map(old_items).remove(key@) =~= items_map(old_items));
                }
            },
        }
    }

    fn clear(&mut self)
        ensures
            final(self).hit_count() == old(self).hit_count(),
            final(self).miss_count() == old(self).miss_count(),
    {
        let mut items: Vec<(String, CacheItem)> = Vec::new();
        std::mem::swap(&mut items, &mut self.items);
        assert(items_map(self.items@) =~= Map::<Seq<char>, CacheItemView>::empty());
    }

    fn len(&self) -> (r: usize) {
        proof {
            use_type_invariant(self);
            lemma_items_map_finite(self.items@);
        }
        self.items.len()
    }

    fn is_empty(&self) -> (r: bool) {
        proof {
            use_type_invariant(self);
            lemma_items_map_finite(self.items@);
        }
        self.items.len() == 0
    }
}

/// Reading a key after writing it gives what was written, and writing one
/// key leaves every other key as it was.
pub proof fn lemma_read_after_write(
    before: Map<Seq<char>, CacheItemView>,
    key: Seq<char>,
    item: CacheItemView,
    other: Seq<char>,
)
    requires
        other != key,
    ensures
        before.insert(key, item).contains_key(key),
        before.insert(key, item)[key] == item,
        before.insert(key, item).contains_key(other) == before.contains_key(other),
        before.contains_key(other) ==> before.insert(key, item)[other] == before[other],
        !before.remove(key).contains_key(key),
{
}

} // verus!
