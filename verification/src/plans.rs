//! The cache of users' plans.
use vstd::prelude::*;
use crate::cache::{
    cache_get, cache_insert, cache_remove, distinct_keys, law_get_after_insert, total_size, value_size,
    CacheModel,
    LruCache,
};

verus! {

/// Plans of this many bytes or more are not cached.
pub const CACHE_ITEM_SIZE: usize = 131072;

/// How many plans of the largest size the cache holds.
pub const PLAN_CACHE_COUNT: usize = 32;

/// Recently read plans, by user name.
pub struct Plans {
    cache: LruCache,
}

impl View for Plans {
    type V = CacheModel;

    closed spec fn view(&self) -> CacheModel {
        self.cache@
    }
}

/// What remembering a plan does to the cache.
pub open spec fn plans_remember(c: CacheModel, username: Seq<char>, plan: Seq<char>) -> CacheModel {
    if value_size(plan) < CACHE_ITEM_SIZE {
        cache_insert(c, username, plan).0
    } else {
        c
    }
}

impl Plans {
    /// The cache is consistent.
    pub closed spec fn wf(&self) -> bool {
        &&& self.cache.wf()
        &&& self.cache@.unitsize == CACHE_ITEM_SIZE
        &&& self.cache@.maxsize == CACHE_ITEM_SIZE * PLAN_CACHE_COUNT
    }

    /// What a consistent plan cache guarantees: its limits are the plan
    /// limits, no user has two cached plans, every cached plan fits in one
    /// unit and all of them together stay within the bound.
    pub proof fn lemma_wf(&self)
        requires
            self.wf(),
        ensures
            self@.unitsize == CACHE_ITEM_SIZE,
            self@.maxsize == CACHE_ITEM_SIZE * PLAN_CACHE_COUNT,
            distinct_keys(self@.entries),
            forall|i: int|
                0 <= i < self@.entries.len() ==> value_size(#[trigger] self@.entries[i].1)
                    <= CACHE_ITEM_SIZE,
            total_size(self@.entries) <= self@.maxsize,
    {
        self.cache.lemma_wf();
        if self@.entries.len() == 1 {
            assert(total_size(self@.entries) == total_size(self@.entries.drop_last()) + value_size(
                self@.entries[0].1,
            ));
            assert(self@.entries.drop_last().len() == 0);
        }
    }

    /// An empty plan cache.
    pub fn new() -> (plans: Plans)
        ensures
            plans.wf(),
            plans@.entries.len() == 0,
            plans@.unitsize == CACHE_ITEM_SIZE,
            plans@.maxsize == CACHE_ITEM_SIZE * PLAN_CACHE_COUNT,
    {
        Plans { cache: LruCache::new(PLAN_CACHE_COUNT, CACHE_ITEM_SIZE) }
    }

    /// The cached plan of `username`, which becomes the most recently used;
    /// `None` when it has to be read from the user's home.
    pub fn fetch(&mut self, username: &String) -> (plan: Option<String>)
        requires
            old(self).wf(),
        ensures
            final(self).wf(),
            final(self)@ == cache_get(old(self)@, username@).0,
            cache_get(old(self)@, username@).1 == match plan {
                Some(p) => Some(p@),
                None => None::<Seq<char>>,
            },
    {
        match self.cache.get(username) {
            Some(p) => Some(p.clone()),
            None => None,
        }
    }

    /// Keeps a freshly read plan, unless it is too large to cache.
    pub fn remember(&mut self, username: String, plan: String)
        requires
            old(self).wf(),
            value_size(plan@) <= usize::MAX,
        ensures
            final(self).wf(),
            final(self)@ == plans_remember(old(self)@, username@, plan@),
    {
        if plan.as_str().len() < CACHE_ITEM_SIZE {
            let _ = self.cache.insert(username, plan);
        }
    }

    /// Drops the cached plan of `username`.
    pub fn evict(&mut self, username: &String)
        requires
            old(self).wf(),
        ensures
            final(self).wf(),
            final(self)@ == cache_remove(old(self)@, username@).0,
    {
        let _ = self.cache.remove(username);
    }
}

/// A plan small enough to cache is what the next fetch of its user gives.
pub proof fn law_fetch_after_remember(c: CacheModel, username: Seq<char>, plan: Seq<char>)
    requires
        distinct_keys(c.entries),
        c.unitsize == CACHE_ITEM_SIZE,
        value_size(plan) < CACHE_ITEM_SIZE,
    ensures
        cache_get(plans_remember(c, username, plan), username).1 == Some(plan),
{
    law_get_after_insert(c, username, plan);
}

} // verus!
