//! A pool that recycles objects instead of allocating new ones.

use vstd::prelude::*;

verus! {

/// A pool of reusable objects: objects come back to the pool while it holds
/// fewer than its maximum, and new ones are made by `create_fn` when it is
/// empty. Hits and misses are counted (wrapping).
#[verifier::reject_recursive_types(T)]
pub struct ObjectPool<T, F: Fn() -> T> {
    pool: Vec<T>,
    max_size: usize,
    create_fn: F,
    hits: u64,
    misses: u64,
}

impl<T, F: Fn() -> T> ObjectPool<T, F> {
    /// The pooled objects, the next one handed out first.
    pub closed spec fn pooled(&self) -> Seq<T> {
        self.pool@
    }

    /// The most objects the pool keeps.
    pub closed spec fn spec_max_size(&self) -> usize {
        self.max_size
    }

    /// The function that makes new objects.
    pub closed spec fn maker(&self) -> F {
        self.create_fn
    }

    /// Requests served from the pool.
    pub closed spec fn spec_hits(&self) -> u64 {
        self.hits
    }

    /// Requests that made a new object.
    pub closed spec fn spec_misses(&self) -> u64 {
        self.misses
    }

    /// An empty pool keeping at most `max_size` objects.
    pub fn new(max_size: usize, create_fn: F) -> (p: Self)
        ensures
            p.pooled() == Seq::<T>::empty(),
            p.spec_max_size() == max_size,
            p.maker() == create_fn,
            p.spec_hits() == 0,
            p.spec_misses() == 0,
    {
        ObjectPool { pool: Vec::new(), max_size, create_fn, hits: 0, misses: 0 }
    }

    /// An object from the pool, the longest pooled first, or a new one
    /// when the pool is empty.
    pub fn get(&mut self) -> (obj: T)
        requires
            old(self).maker().requires(()),
        ensures
            final(self).spec_max_size() == old(self).spec_max_size(),
            final(self).maker() == old(self).maker(),
            old(self).pooled().len() > 0 ==> {
                &&& obj == old(self).pooled()[0]
                &&& final(self).pooled() == old(self).pooled().drop_first()
                &&& final(self).spec_hits() == old(self).spec_hits().wrapping_add(1)
                &&& final(self).spec_misses() == old(self).spec_misses()
            },
            old(self).pooled().len() == 0 ==> {
                &&& old(self).maker().ensures((), obj)
                &&& final(self).pooled() == old(self).pooled()
                &&& final(self).spec_hits() == old(self).spec_hits()
                &&& final(self).spec_misses() == old(self).spec_misses().wrapping_add(1)
            },
    {
        if self.pool.len() > 0 {
            self.hits = self.hits.wrapping_add(1);
            self.pool.remove(0)
        } else {
            self.misses = self.misses.wrapping_add(1);
            (self.create_fn)()
        }
    }

    /// Gives `obj` back to the pool, which keeps it while it holds fewer
    /// than its maximum; otherwise the object is dropped.
    pub fn return_object(&mut self, obj: T)
        ensures
            old(self).pooled().len() < old(self).spec_max_size() ==> final(self).pooled() == old(self).pooled().push(obj),
            old(self).pooled().len() >= old(self).spec_max_size() ==> final(self).pooled() == old(self).pooled(),
            final(self).spec_max_size() == old(self).spec_max_size(),
            final(self).maker() == old(self).maker(),
            final(self).spec_hits() == old(self).spec_hits(),
            final(self).spec_misses() == old(self).spec_misses(),
    {
        if self.pool.len() < self.max_size {
            self.pool.push(obj);
        }
    }

    /// Hits, misses and the number of pooled objects.
    pub fn get_stats(&self) -> (s: (u64, u64, usize))
        ensures
            s == (self.spec_hits(), self.spec_misses(), self.pooled().len() as usize),
    {
        (self.hits, self.misses, self.pool.len())
    }
}

/// The pool never grows beyond its maximum: starting within it, handing out
/// an object and taking one back both leave it within it.
pub proof fn law_pool_stays_within_max<T>(pooled: Seq<T>, max_size: usize, obj: T)
    requires
        pooled.len() <= max_size,
    ensures
        (if pooled.len() < max_size { pooled.push(obj) } else { pooled }).len() <= max_size,
        pooled.len() > 0 ==> pooled.drop_first().len() <= max_size,
{
}

} // verus!
