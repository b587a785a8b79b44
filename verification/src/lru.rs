//! Trusted boundary to the outside `lru_cache` crate.
//!
//! The collectors keep bounded windows of heights and rounds in an
//! [`lru_cache::LruCache`] that maps an integer key to an index into a
//! verified store. The cache is opaque to the verifier; its contents, its
//! capacity and its recency order are named below, and each operation the
//! collectors call is wrapped with a contract over those names.

use vstd::prelude::*;

use lru_cache::LruCache;

verus! {

#[verifier::external_type_specification]
#[verifier::external_body]
#[verifier::reject_recursive_types(K)]
#[verifier::reject_recursive_types(V)]
#[verifier::reject_recursive_types(S)]
pub struct ExLruCache<K: Eq + core::hash::Hash, V, S: core::hash::BuildHasher>(
    LruCache<K, V, S>,
);

/// The key-value pairs an index cache currently holds.
pub uninterp spec fn lru_contents(c: LruCache<u64, usize>) -> Map<u64, usize>;

/// The bound the index cache was created with.
pub uninterp spec fn lru_capacity(c: LruCache<u64, usize>) -> nat;

/// The cached keys in recency order, the least-recently used first: a
/// look-up or an insertion of a key moves it to the most-recent end, and a
/// full cache evicts the first key of this order.
pub uninterp spec fn lru_order(c: LruCache<u64, usize>) -> Seq<u64>;

/// A recency order after a key was touched: a held key moves to the
/// most-recent end, an absent key changes nothing.
pub open spec fn promoted(ord: Seq<u64>, key: u64) -> Seq<u64> {
    if ord.contains(key) {
        ord.remove_value(key).push(key)
    } else {
        ord
    }
}

/// The recency order lists exactly the cached keys, each once, and the
/// cache never holds more than its capacity.
pub open spec fn lru_consistent(c: LruCache<u64, usize>) -> bool {
    &&& lru_order(c).no_duplicates()
    &&& lru_order(c).to_set() == lru_contents(c).dom()
    &&& lru_order(c).len() == lru_contents(c).dom().len()
    &&& lru_contents(c).dom().len() <= lru_capacity(c)
}

/// How one bounded insertion changes a map: the pair is stored; when the key
/// is fresh and the map is full, one other entry leaves to make room.
pub open spec fn bounded_insert<V>(
    m0: Map<u64, V>,
    m1: Map<u64, V>,
    key: u64,
    value: V,
    cap: nat,
) -> bool {
    if m0.dom().contains(key) || m0.dom().len() < cap {
        m1 == m0.insert(key, value)
    } else {
        exists|evicted: u64|
            #[trigger] m0.dom().contains(evicted) && evicted != key && m1 == m0.remove(
                evicted,
            ).insert(key, value)
    }
}

/// Relies on lru_cache::LruCache::new: an empty cache with the given capacity.
#[verifier::external_body]
pub(crate) fn lru_new(capacity: usize) -> (c: LruCache<u64, usize>)
    ensures
        lru_contents(c) =~= Map::empty(),
        lru_capacity(c) == capacity,
        lru_order(c) =~= Seq::empty(),
        lru_consistent(c),
{
    LruCache::new(capacity)
}

/// Relies on lru_cache::LruCache::get_mut: returns the entry stored for the
/// key and moves that key to the most-recent end of the order; the
/// contents, the capacity and the other keys' relative order stay as they
/// were.
#[verifier::external_body]
pub(crate) fn lru_get(c: &mut LruCache<u64, usize>, key: u64) -> (r: Option<usize>)
    ensures
        lru_contents(*final(c)) == lru_contents(*old(c)),
        lru_capacity(*final(c)) == lru_capacity(*old(c)),
        lru_order(*final(c)) == promoted(lru_order(*old(c)), key),
        lru_consistent(*final(c)),
        r == if lru_contents(*old(c)).dom().contains(key) {
            Some(lru_contents(*old(c))[key])
        } else {
            None::<usize>
        },
{
    c.get_mut(&key).map(|v| *v)
}

/// Relies on lru_cache::LruCache::len: how many pairs the cache holds.
#[verifier::external_body]
pub(crate) fn lru_len(c: &LruCache<u64, usize>) -> (r: usize)
    ensures
        r == lru_contents(*c).dom().len(),
{
    c.len()
}

/// Relies on lru_cache::LruCache::remove_lru: removes and returns the
/// least-recently-used entry, the first of the order; an empty cache
/// returns nothing and is excluded.
#[verifier::external_body]
pub(crate) fn lru_pop_lru(c: &mut LruCache<u64, usize>) -> (r: (u64, usize))
    requires
        lru_contents(*old(c)).dom().len() > 0,
    ensures
        r.0 == lru_order(*old(c)).first(),
        r.1 == lru_contents(*old(c))[r.0],
        lru_contents(*final(c)) == lru_contents(*old(c)).remove(r.0),
        lru_order(*final(c)) == lru_order(*old(c)).drop_first(),
        lru_capacity(*final(c)) == lru_capacity(*old(c)),
        lru_consistent(*final(c)),
{
    match c.remove_lru() {
        Some(kv) => kv,
        None => (0, 0),
    }
}

/// Relies on lru_cache::LruCache::insert: stores the pair at the
/// most-recent end of the order; a held key is replaced in place, and a
/// fresh key entering a full cache evicts the least-recently-used key, the
/// first of the order.
#[verifier::external_body]
pub(crate) fn lru_insert(c: &mut LruCache<u64, usize>, key: u64, value: usize)
    requires
        lru_capacity(*old(c)) > 0,
    ensures
        lru_capacity(*final(c)) == lru_capacity(*old(c)),
        lru_consistent(*final(c)),
        ({
            let m0 = lru_contents(*old(c));
            let ord0 = lru_order(*old(c));
            let m1 = lru_contents(*final(c));
            let ord1 = lru_order(*final(c));
            if m0.dom().contains(key) {
                m1 == m0.insert(key, value) && ord1 == promoted(ord0, key)
            } else if m0.dom().len() < lru_capacity(*old(c)) {
                m1 == m0.insert(key, value) && ord1 == ord0.push(key)
            } else {
                m1 == m0.remove(ord0.first()).insert(key, value) && ord1 == ord0.drop_first().push(
                    key,
                )
            }
        }),
{
    c.insert(key, value);
}

} // verus!
