//! Keys of the evaluation cache, and the cache of results with optional
//! least-recently-used eviction.

use vstd::prelude::*;
use rustc_hash::{FxBuildHasher, FxHashMap, FxHasher};
use std::collections::HashMap;
use std::hash::{Hash, Hasher};
use std::sync::Arc;
use crate::compiled::LogicId;
use crate::json::{JsonValue, JsonView};

verus! {

/// Cache key combining logic ID, data version, and dependency fingerprint.
#[derive(Debug, Clone, Copy, PartialEq, Eq, Structural, Hash)]
pub struct CacheKey {
    logic_id: LogicId,
    data_version: u64,
    dependency_hash: u64,
}

/// `FxHasher::default()` fed the logic id, the data version and each dependency
/// version through `Hash::hash`, then `finish`. FxHasher mixes machine words, so
/// its value depends on the word size; nothing is stated of it.
#[verifier::external_body]
fn dependency_fingerprint(logic_id: LogicId, data_version: u64, dependency_versions: &[u64]) -> u64 {
    let mut hasher = FxHasher::default();
    logic_id.hash(&mut hasher);
    data_version.hash(&mut hasher);
    for version in dependency_versions {
        version.hash(&mut hasher);
    }
    hasher.finish()
}

impl CacheKey {
    /// The logic id of the key.
    pub closed spec fn id(self) -> LogicId {
        self.logic_id
    }

    /// The data version of the key.
    pub closed spec fn version(self) -> u64 {
        self.data_version
    }

    /// A key for `logic_id` at `data_version`, with a fingerprint of the
    /// dependency versions.
    pub fn from_dependencies(logic_id: LogicId, data_version: u64, dependency_versions: &[u64]) -> (res: Self)
        ensures
            res.id() == logic_id,
            res.version() == data_version,
    {
        let h = dependency_fingerprint(logic_id, data_version, dependency_versions);
        CacheKey { logic_id, data_version, dependency_hash: h }
    }

    /// The logic id of the key.
    pub fn logic_id(&self) -> (res: LogicId)
        ensures
            res == self.id(),
    {
        self.logic_id
    }
}

// ---------------------------------------------------------------------------
// The result cache.

/// A cached result and its neighbours in least-recently-used order.
pub struct CacheNode {
    value: Arc<JsonValue>,
    prev: Option<CacheKey>,
    next: Option<CacheKey>,
}

/// What a node table holds.
pub uninterp spec fn cache_nodes(m: HashMap<CacheKey, CacheNode, FxBuildHasher>) -> Map<CacheKey, CacheNode>;

pub open spec fn no_nodes() -> Map<CacheKey, CacheNode> {
    Map::empty()
}

/// `FxHashMap::default()`: an empty table.
#[verifier::external_body]
fn nodes_new() -> (res: FxHashMap<CacheKey, CacheNode>)
    ensures
        cache_nodes(res) == no_nodes(),
{
    FxHashMap::default()
}

/// `HashMap::get`: the node under `k`, as its value (shared through `Arc::clone`)
/// and its two links.
#[verifier::external_body]
fn node_get(m: &FxHashMap<CacheKey, CacheNode>, k: CacheKey) -> (res: Option<(Arc<JsonValue>, Option<CacheKey>, Option<CacheKey>)>)
    ensures
        res is Some <==> cache_nodes(*m).contains_key(k),
        res matches Some(t) ==> t.0 == cache_nodes(*m)[k].value && t.1 == cache_nodes(*m)[k].prev
            && t.2 == cache_nodes(*m)[k].next,
{
    match m.get(&k) {
        Some(n) => Some((Arc::clone(&n.value), n.prev, n.next)),
        None => None,
    }
}

/// `HashMap::insert`: `k` now holds `node`.
#[verifier::external_body]
fn node_put(m: &mut FxHashMap<CacheKey, CacheNode>, k: CacheKey, node: CacheNode)
    ensures
        cache_nodes(*final(m)) == cache_nodes(*old(m)).insert(k, node),
{
    m.insert(k, node);
}

/// `HashMap::remove`: `k` holds nothing.
#[verifier::external_body]
fn node_remove(m: &mut FxHashMap<CacheKey, CacheNode>, k: CacheKey)
    ensures
        cache_nodes(*final(m)) == cache_nodes(*old(m)).remove(k),
{
    m.remove(&k);
}

/// `HashMap::clear`: no node is left.
#[verifier::external_body]
fn nodes_clear(m: &mut FxHashMap<CacheKey, CacheNode>)
    ensures
        cache_nodes(*final(m)) == no_nodes(),
{
    m.clear();
}

/// `HashMap::keys`, collected: each key once, in the table's own order.
#[verifier::external_body]
fn nodes_keys(m: &FxHashMap<CacheKey, CacheNode>) -> (res: Vec<CacheKey>)
    ensures
        res@.to_set() == cache_nodes(*m).dom(),
        res@.no_duplicates(),
{
    m.keys().copied().collect()
}

/// `HashMap::len`: the number of keys.
#[verifier::external_body]
fn nodes_len(m: &FxHashMap<CacheKey, CacheNode>) -> (res: usize)
    ensures
        res == cache_nodes(*m).len(),
{
    m.len()
}

/// The links of `order` in `nodes`: each key's `prev` and `next` name its
/// neighbours in `order`, `head` and `tail` its ends, and no key occurs twice.
pub closed spec fn links_ok(nodes: Map<CacheKey, CacheNode>, head: Option<CacheKey>, tail: Option<CacheKey>, order: Seq<CacheKey>) -> bool {
    &&& order.no_duplicates()
    &&& forall|i: int| 0 <= i < order.len() ==> nodes.contains_key(#[trigger] order[i])
    &&& head == (if order.len() == 0 { None } else { Some(order[0]) })
    &&& tail == (if order.len() == 0 { None } else { Some(order[order.len() - 1]) })
    &&& forall|i: int| 0 <= i < order.len() ==> (#[trigger] nodes[order[i]]).prev == (if i == 0 { None } else { Some(order[i - 1]) })
    &&& forall|i: int| 0 <= i < order.len() ==> (#[trigger] nodes[order[i]]).next == (if i == order.len() - 1 { None } else { Some(order[i + 1]) })
}

/// High-performance evaluation result cache with optional LRU eviction.
pub struct EvalCache {
    entries: FxHashMap<CacheKey, CacheNode>,
    head: Option<CacheKey>,
    tail: Option<CacheKey>,
    capacity: Option<usize>,
    hits: u64,
    misses: u64,
    order: Ghost<Seq<CacheKey>>,
}

/// Hit and miss counts and the number of entries of a cache.
#[derive(Debug, Clone, Copy)]
pub struct CacheCounts {
    pub hits: u64,
    pub misses: u64,
    pub size: usize,
}

/// `s` with the element at `i` moved to the end.
pub open spec fn move_last(s: Seq<CacheKey>, i: int) -> Seq<CacheKey> {
    s.remove(i).push(s[i])
}

impl EvalCache {
    pub closed spec fn nodes(self) -> Map<CacheKey, CacheNode> {
        cache_nodes(self.entries)
    }

    /// The cached keys, least recently used first.
    pub closed spec fn lru(self) -> Seq<CacheKey> {
        self.order@
    }

    /// The cached result of each key.
    pub closed spec fn values(self) -> Map<CacheKey, JsonView> {
        Map::new(|k: CacheKey| cache_nodes(self.entries).contains_key(k), |k: CacheKey| cache_nodes(self.entries)[k].value@)
    }

    pub closed spec fn limit(self) -> Option<usize> {
        self.capacity
    }

    pub closed spec fn hit_count(self) -> u64 {
        self.hits
    }

    pub closed spec fn miss_count(self) -> u64 {
        self.misses
    }

    /// The links describe `lru`, which holds exactly the cached keys, and there
    /// are never more than the capacity.
    pub closed spec fn wf(self) -> bool {
        &&& links_ok(cache_nodes(self.entries), self.head, self.tail, self.order@)
        &&& self.order@.to_set() == cache_nodes(self.entries).dom()
        &&& (self.capacity matches Some(c) ==> self.order@.len() <= c)
    }

    /// Every cached key occurs once in `lru`, and the keys of `lru` are the cached ones.
    pub proof fn lemma_wf(self)
        requires
            self.wf(),
        ensures
            self.lru().no_duplicates(),
            self.lru().to_set() == self.values().dom(),
            self.limit() matches Some(c) ==> self.lru().len() <= c,
    {
        assert(self.values().dom() =~= cache_nodes(self.entries).dom());
    }

    /// Take `self.order[i]` out of the links (its own node keeps stale links).
    fn unlink(&mut self, k: CacheKey, Ghost(i): Ghost<int>)
        requires
            links_ok(cache_nodes(old(self).entries), old(self).head, old(self).tail, old(self).order@),
            0 <= i < old(self).order@.len(),
            old(self).order@[i] == k,
        ensures
            links_ok(cache_nodes(final(self).entries), final(self).head, final(self).tail, old(self).order@.remove(i)),
            cache_nodes(final(self).entries).dom() == cache_nodes(old(self).entries).dom(),
            forall|x: CacheKey| cache_nodes(old(self).entries).contains_key(x) ==> #[trigger] cache_nodes(final(self).entries)[x].value
                == cache_nodes(old(self).entries)[x].value,
            final(self).order == old(self).order,
            final(self).capacity == old(self).capacity,
            final(self).hits == old(self).hits,
            final(self).misses == old(self).misses,
    {
        let ghost o = self.order@;
        let ghost n0 = cache_nodes(self.entries);
        let ghost o2 = o.remove(i);
        assert(n0.contains_key(o[i]));
        let (_, p, n) = node_get(&self.entries, k).unwrap();
        match p {
            Some(pk) => {
                assert(pk == o[i - 1]);
                let (v, pp, _) = node_get(&self.entries, pk).unwrap();
                node_put(&mut self.entries, pk, CacheNode { value: v, prev: pp, next: n });
            },
            None => {
                self.head = n;
            },
        }
        let ghost n1 = cache_nodes(self.entries);
        match n {
            Some(nk) => {
                assert(nk == o[i + 1]);
                assert(n1.contains_key(nk));
                let (v, _, nn) = node_get(&self.entries, nk).unwrap();
                node_put(&mut self.entries, nk, CacheNode { value: v, prev: p, next: nn });
            },
            None => {
                self.tail = p;
            },
        }
        proof {
            let n2 = cache_nodes(self.entries);
            assert(n2.dom() =~= n0.dom());
            assert forall|j: int| 0 <= j < o2.len() implies n2.contains_key(#[trigger] o2[j]) by {
                if j < i {
                    assert(o2[j] == o[j]);
                } else {
                    assert(o2[j] == o[j + 1]);
                }
            }
            assert forall|j: int| 0 <= j < o2.len() implies (#[trigger] n2[o2[j]]).prev == (if j == 0 { None } else { Some(o2[j - 1]) }) by {
                if j < i {
                    assert(o2[j] == o[j]);
                    if j > 0 {
                        assert(o2[j - 1] == o[j - 1]);
                    }
                    assert(o[j] != o[i]);
                    if i + 1 < o.len() {
                        assert(o[j] != o[i + 1]);
                    }
                } else {
                    assert(o2[j] == o[j + 1]);
                    if j > i {
                        assert(o2[j - 1] == o[j]);
                        assert(o[j + 1] != o[i + 1]);
                    }
                    if i > 0 {
                        assert(o[j + 1] != o[i - 1]);
                    }
                }
            }
            assert forall|j: int| 0 <= j < o2.len() implies (#[trigger] n2[o2[j]]).next == (if j == o2.len() - 1 { None } else { Some(o2[j + 1]) }) by {
                if j < i {
                    assert(o2[j] == o[j]);
                    if j + 1 < i {
                        assert(o2[j + 1] == o[j + 1]);
                        assert(o[j] != o[i - 1]);
                    } else if j + 1 < o2.len() {
                        assert(o2[j + 1] == o[j + 2]);
                    }
                    if i + 1 < o.len() {
                        assert(o[j] != o[i + 1]);
                    }
                } else {
                    assert(o2[j] == o[j + 1]);
                    if j + 1 < o2.len() {
                        assert(o2[j + 1] == o[j + 2]);
                    }
                    if i > 0 {
                        assert(o[j + 1] != o[i - 1]);
                    }
                }
            }
            assert(o2.no_duplicates()) by {
                assert forall|a: int, b: int| 0 <= a < b < o2.len() implies o2[a] != o2[b] by {
                    let a1 = if a < i { a } else { a + 1 };
                    let b1 = if b < i { b } else { b + 1 };
                    assert(o2[a] == o[a1] && o2[b] == o[b1]);
                }
            }
            if o2.len() > 0 {
                if i == 0 {
                    assert(o2[0] == o[1]);
                } else {
                    assert(o2[0] == o[0]);
                }
                if i == o.len() - 1 {
                    assert(o2[o2.len() - 1] == o[i - 1]);
                } else {
                    assert(o2[o2.len() - 1] == o[o.len() - 1]);
                }
            }
        }
    }

    /// Put `k` (cached, but not in `o`) at the end of the links.
    fn attach_to_tail(&mut self, k: CacheKey, Ghost(o): Ghost<Seq<CacheKey>>)
        requires
            links_ok(cache_nodes(old(self).entries), old(self).head, old(self).tail, o),
            !o.contains(k),
            cache_nodes(old(self).entries).contains_key(k),
        ensures
            links_ok(cache_nodes(final(self).entries), final(self).head, final(self).tail, o.push(k)),
            cache_nodes(final(self).entries).dom() == cache_nodes(old(self).entries).dom(),
            forall|x: CacheKey| cache_nodes(old(self).entries).contains_key(x) ==> #[trigger] cache_nodes(final(self).entries)[x].value
                == cache_nodes(old(self).entries)[x].value,
            final(self).order == old(self).order,
            final(self).capacity == old(self).capacity,
            final(self).hits == old(self).hits,
            final(self).misses == old(self).misses,
    {
        let ghost n0 = cache_nodes(self.entries);
        let ghost o2 = o.push(k);
        match self.tail {
            Some(t) => {
                assert(t == o[o.len() - 1]);
                let (v, p, _) = node_get(&self.entries, t).unwrap();
                node_put(&mut self.entries, t, CacheNode { value: v, prev: p, next: Some(k) });
                let (kv, _, _) = node_get(&self.entries, k).unwrap();
                node_put(&mut self.entries, k, CacheNode { value: kv, prev: Some(t), next: None });
            },
            None => {
                let (kv, _, _) = node_get(&self.entries, k).unwrap();
                node_put(&mut self.entries, k, CacheNode { value: kv, prev: None, next: None });
                self.head = Some(k);
            },
        }
        self.tail = Some(k);
        if self.head.is_none() {
            self.head = Some(k);
        }
        proof {
            let n2 = cache_nodes(self.entries);
            assert(n2.dom() =~= n0.dom());
            assert forall|j: int| 0 <= j < o2.len() implies n2.contains_key(#[trigger] o2[j]) by {
                if j < o.len() {
                    assert(o2[j] == o[j]);
                }
            }
            assert forall|j: int| 0 <= j < o2.len() implies (#[trigger] n2[o2[j]]).prev == (if j == 0 { None } else { Some(o2[j - 1]) }) by {
                if j < o.len() {
                    assert(o2[j] == o[j]);
                    assert(o[j] != k);
                    if j > 0 {
                        assert(o2[j - 1] == o[j - 1]);
                    }
                }
            }
            assert forall|j: int| 0 <= j < o2.len() implies (#[trigger] n2[o2[j]]).next == (if j == o2.len() - 1 { None } else { Some(o2[j + 1]) }) by {
                if j < o.len() {
                    assert(o2[j] == o[j]);
                    assert(o[j] != k);
                    if j + 1 < o.len() {
                        assert(o2[j + 1] == o[j + 1]);
                    }
                }
            }
            assert(o2.no_duplicates()) by {
                assert forall|a: int, b: int| 0 <= a < b < o2.len() implies o2[a] != o2[b] by {
                    if b == o.len() {
                        assert(o2[a] == o[a]);
                    } else {
                        assert(o2[a] == o[a] && o2[b] == o[b]);
                    }
                }
            }
        }
    }

    /// Move `self.order[i]` to the end of the links (a no-op for the last key).
    fn move_to_tail(&mut self, k: CacheKey, Ghost(i): Ghost<int>)
        requires
            links_ok(cache_nodes(old(self).entries), old(self).head, old(self).tail, old(self).order@),
            0 <= i < old(self).order@.len(),
            old(self).order@[i] == k,
        ensures
            links_ok(cache_nodes(final(self).entries), final(self).head, final(self).tail, move_last(old(self).order@, i)),
            cache_nodes(final(self).entries).dom() == cache_nodes(old(self).entries).dom(),
            forall|x: CacheKey| cache_nodes(old(self).entries).contains_key(x) ==> #[trigger] cache_nodes(final(self).entries)[x].value
                == cache_nodes(old(self).entries)[x].value,
            final(self).order == old(self).order,
            final(self).capacity == old(self).capacity,
            final(self).hits == old(self).hits,
            final(self).misses == old(self).misses,
    {
        let ghost o = self.order@;
        if self.tail == Some(k) {
            proof {
                if i != o.len() - 1 {
                    assert(o[i] == o[o.len() - 1]);
                }
                assert(move_last(o, i) =~= o);
            }
            return;
        }
        self.unlink(k, Ghost(i));
        let ghost o2 = o.remove(i);
        assert(!o2.contains(k)) by {
            if o2.contains(k) {
                let j = choose|j: int| 0 <= j < o2.len() && o2[j] == k;
                if j < i {
                    assert(o2[j] == o[j]);
                } else {
                    assert(o2[j] == o[j + 1]);
                }
            }
        }
        self.attach_to_tail(k, Ghost(o2));
    }

    /// Drop `self.order[i]` from the links and from the table.
    fn remove_node(&mut self, k: CacheKey, Ghost(i): Ghost<int>)
        requires
            links_ok(cache_nodes(old(self).entries), old(self).head, old(self).tail, old(self).order@),
            0 <= i < old(self).order@.len(),
            old(self).order@[i] == k,
        ensures
            links_ok(cache_nodes(final(self).entries), final(self).head, final(self).tail, old(self).order@.remove(i)),
            cache_nodes(final(self).entries).dom() == cache_nodes(old(self).entries).dom().remove(k),
            forall|x: CacheKey| cache_nodes(final(self).entries).contains_key(x) ==> #[trigger] cache_nodes(final(self).entries)[x].value
                == cache_nodes(old(self).entries)[x].value,
            final(self).order == old(self).order,
            final(self).capacity == old(self).capacity,
            final(self).hits == old(self).hits,
            final(self).misses == old(self).misses,
    {
        let ghost o = self.order@;
        self.unlink(k, Ghost(i));
        let ghost n1 = cache_nodes(self.entries);
        node_remove(&mut self.entries, k);
        proof {
            let o2 = o.remove(i);
            let n2 = cache_nodes(self.entries);
            assert forall|j: int| 0 <= j < o2.len() implies #[trigger] o2[j] != k by {
                if j < i {
                    assert(o2[j] == o[j]);
                } else {
                    assert(o2[j] == o[j + 1]);
                }
            }
            assert forall|j: int| 0 <= j < o2.len() implies n2.contains_key(#[trigger] o2[j]) by {
                assert(o2[j] != k);
            }
            assert forall|j: int| 0 <= j < o2.len() implies (#[trigger] n2[o2[j]]).prev == (if j == 0 { None } else { Some(o2[j - 1]) }) by {
                assert(o2[j] != k);
                assert(n2[o2[j]] == n1[o2[j]]);
            }
            assert forall|j: int| 0 <= j < o2.len() implies (#[trigger] n2[o2[j]]).next == (if j == o2.len() - 1 { None } else { Some(o2[j + 1]) }) by {
                assert(o2[j] != k);
                assert(n2[o2[j]] == n1[o2[j]]);
            }
        }
    }

    /// An empty cache without a capacity.
    pub fn new() -> (res: Self)
        ensures
            res.wf(),
            res.lru() == Seq::<CacheKey>::empty(),
            res.limit() is None,
            res.hit_count() == 0,
            res.miss_count() == 0,
    {
        Self::with_capacity(None)
    }

    /// An empty cache that keeps at most `capacity` results, when given.
    pub fn with_capacity(capacity: Option<usize>) -> (res: Self)
        ensures
            res.wf(),
            res.lru() == Seq::<CacheKey>::empty(),
            res.limit() == capacity,
            res.hit_count() == 0,
            res.miss_count() == 0,
    {
        let res = EvalCache {
            entries: nodes_new(),
            head: None,
            tail: None,
            capacity,
            hits: 0,
            misses: 0,
            order: Ghost(Seq::empty()),
        };
        assert(res.order@.to_set() =~= cache_nodes(res.entries).dom());
        res
    }

    /// The capacity, if there is one.
    pub fn capacity(&self) -> (res: Option<usize>)
        ensures
            res == self.limit(),
    {
        self.capacity
    }

    /// The cached result for `key`, if any. A hit counts as a hit and, on every
    /// sixteenth hit (when the count before it is a multiple of 16), makes `key`
    /// the most recently used; a miss counts as a miss.
    pub fn get(&mut self, key: &CacheKey) -> (res: Option<Arc<JsonValue>>)
        requires
            old(self).wf(),
        ensures
            final(self).wf(),
            final(self).values() == old(self).values(),
            final(self).limit() == old(self).limit(),
            res is Some <==> old(self).values().contains_key(*key),
            res matches Some(v) ==> v@ == old(self).values()[*key],
            old(self).values().contains_key(*key) ==> {
                &&& final(self).hit_count() == (if old(self).hit_count() == u64::MAX { 0 } else { (old(self).hit_count() + 1) as u64 })
                &&& final(self).miss_count() == old(self).miss_count()
                &&& final(self).lru() == (if old(self).hit_count() % 16 == 0 {
                    move_last(old(self).lru(), old(self).lru().index_of(*key))
                } else {
                    old(self).lru()
                })
            },
            !old(self).values().contains_key(*key) ==> {
                &&& final(self).miss_count() == (if old(self).miss_count() == u64::MAX { 0 } else { (old(self).miss_count() + 1) as u64 })
                &&& final(self).hit_count() == old(self).hit_count()
                &&& final(self).lru() == old(self).lru()
            },
    {
        let ghost o = self.order@;
        match node_get(&self.entries, *key) {
            Some((v, _, _)) => {
                let hit_count = self.hits;
                self.hits = self.hits.wrapping_add(1);
                assert(hit_count & 15 == 0 <==> hit_count % 16 == 0) by (bit_vector);
                if hit_count & 15 == 0 {
                    proof {
                        assert(o.to_set().contains(*key));
                        assert(o.contains(*key));
                    }
                    let ghost i = o.index_of(*key);
                    self.move_to_tail(*key, Ghost(i));
                    self.order = Ghost(move_last(o, i));
                    proof {
                        let o2 = move_last(o, i);
                        assert(o2.to_set() =~= cache_nodes(self.entries).dom()) by {
                            assert forall|x: CacheKey| o2.to_set().contains(x) <==> o.to_set().contains(x) by {
                                if o.contains(x) {
                                    let j = choose|j: int| 0 <= j < o.len() && o[j] == x;
                                    if j < i {
                                        assert(o2[j] == x);
                                    } else if j > i {
                                        assert(o2[j - 1] == x);
                                    } else {
                                        assert(o2[o2.len() - 1] == x);
                                    }
                                }
                                if o2.contains(x) {
                                    let j = choose|j: int| 0 <= j < o2.len() && o2[j] == x;
                                    if j < i {
                                        assert(o[j] == x);
                                    } else if j < o2.len() - 1 {
                                        assert(o[j + 1] == x);
                                    } else {
                                        assert(o[i] == x);
                                    }
                                }
                            }
                        }
                    }
                }
                assert(self.values() =~= old(self).values());
                Some(v)
            },
            None => {
                self.misses = self.misses.wrapping_add(1);
                proof {
                    assert(!o.to_set().contains(*key));
                }
                None
            },
        }
    }

    /// Evict least recently used entries while there are more than the capacity.
    fn enforce_capacity(&mut self)
        requires
            links_ok(cache_nodes(old(self).entries), old(self).head, old(self).tail, old(self).order@),
            old(self).order@.to_set() == cache_nodes(old(self).entries).dom(),
        ensures
            final(self).wf(),
            final(self).order@ == old(self).order@.skip(
                match old(self).capacity {
                    Some(c) => if old(self).order@.len() > c { old(self).order@.len() - c } else { 0 },
                    None => 0,
                },
            ),
            forall|x: CacheKey| cache_nodes(final(self).entries).contains_key(x) ==> #[trigger] cache_nodes(final(self).entries)[x].value
                == cache_nodes(old(self).entries)[x].value,
            final(self).capacity == old(self).capacity,
            final(self).hits == old(self).hits,
            final(self).misses == old(self).misses,
    {
        let ghost o1 = self.order@;
        if let Some(limit) = self.capacity {
            let ghost e: int = if o1.len() > limit { o1.len() - limit } else { 0 };
            proof {
                assert(o1.skip(0) =~= o1);
                o1.unique_seq_to_set();
            }
            while nodes_len(&self.entries) > limit
                invariant
                    links_ok(cache_nodes(self.entries), self.head, self.tail, self.order@),
                    self.order@.to_set() == cache_nodes(self.entries).dom(),
                    self.capacity == Some(limit),
                    self.hits == old(self).hits,
                    self.misses == old(self).misses,
                    0 <= self.order@.len() <= o1.len(),
                    self.order@ == o1.skip(o1.len() - self.order@.len()),
                    o1.len() - self.order@.len() <= e,
                    e == (if o1.len() > limit { o1.len() - limit } else { 0 }),
                    forall|x: CacheKey| cache_nodes(self.entries).contains_key(x) ==> #[trigger] cache_nodes(self.entries)[x].value
                        == cache_nodes(old(self).entries)[x].value,
                decreases self.order@.len(),
            {
                proof {
                    self.order@.unique_seq_to_set();
                }
                let ghost o = self.order@;
                match self.head {
                    Some(oldest) => {
                        self.remove_node(oldest, Ghost(0));
                        self.order = Ghost(o.remove(0));
                        proof {
                            assert(o.remove(0) =~= o1.skip(o1.len() - o.len() + 1));
                            let o2 = o.remove(0);
                            assert(o2.to_set() =~= cache_nodes(self.entries).dom()) by {
                                assert forall|x: CacheKey| o2.to_set().contains(x) <==> cache_nodes(self.entries).contains_key(x) by {
                                    if o2.contains(x) {
                                        let j = choose|j: int| 0 <= j < o2.len() && o2[j] == x;
                                        assert(o[j + 1] == x);
                                        assert(o[0] != o[j + 1]);
                                        assert(o.to_set().contains(x));
                                    }
                                    if cache_nodes(self.entries).contains_key(x) {
                                        assert(o.to_set().contains(x));
                                        let j = choose|j: int| 0 <= j < o.len() && o[j] == x;
                                        assert(j != 0);
                                        assert(o2[j - 1] == x);
                                    }
                                }
                            }
                        }
                    },
                    None => {
                        proof {
                            assert(false);
                        }
                    },
                }
            }
            proof {
                self.order@.unique_seq_to_set();
            }
        } else {
            proof {
                assert(o1.skip(0) =~= o1);
            }
        }
    }

    /// Store a result. An existing key gets the new result and becomes the most
    /// recently used; a new key is added as the most recently used, and then the
    /// least recently used keys are evicted down to the capacity.
    pub fn insert(&mut self, key: CacheKey, value: JsonValue)
        requires
            old(self).wf(),
        ensures
            final(self).wf(),
            final(self).limit() == old(self).limit(),
            final(self).hit_count() == old(self).hit_count(),
            final(self).miss_count() == old(self).miss_count(),
            insert_effect(*old(self), *final(self), key, value@),
    {
        let ghost o = self.order@;
        let ghost n0 = cache_nodes(self.entries);
        let ghost vv = value@;
        let arc = Arc::new(value);
        match node_get(&self.entries, key) {
            Some((_, p, n)) => {
                proof {
                    assert(o.to_set().contains(key));
                    assert(o.contains(key));
                }
                let ghost i = o.index_of(key);
                node_put(&mut self.entries, key, CacheNode { value: arc, prev: p, next: n });
                proof {
                    let n1 = cache_nodes(self.entries);
                    assert(n1.dom() =~= n0.dom());
                    assert forall|j: int| 0 <= j < o.len() implies (#[trigger] n1[o[j]]).prev == n0[o[j]].prev && n1[o[j]].next == n0[o[j]].next by {
                    }
                }
                self.move_to_tail(key, Ghost(i));
                self.order = Ghost(move_last(o, i));
                proof {
                    let o2 = move_last(o, i);
                    assert(o2.to_set() =~= cache_nodes(self.entries).dom()) by {
                        assert forall|x: CacheKey| o2.to_set().contains(x) <==> o.to_set().contains(x) by {
                            if o.contains(x) {
                                let j = choose|j: int| 0 <= j < o.len() && o[j] == x;
                                if j < i {
                                    assert(o2[j] == x);
                                } else if j > i {
                                    assert(o2[j - 1] == x);
                                } else {
                                    assert(o2[o2.len() - 1] == x);
                                }
                            }
                            if o2.contains(x) {
                                let j = choose|j: int| 0 <= j < o2.len() && o2[j] == x;
                                if j < i {
                                    assert(o[j] == x);
                                } else if j < o2.len() - 1 {
                                    assert(o[j + 1] == x);
                                } else {
                                    assert(o[i] == x);
                                }
                            }
                        }
                    }
                    assert(o2.skip(0) =~= o2);
                    assert(self.values().contains_key(key) ==> self.values()[key] == vv);
                }
            },
            None => {
                proof {
                    assert(!o.to_set().contains(key));
                    assert(!o.contains(key));
                }
                node_put(&mut self.entries, key, CacheNode { value: arc, prev: None, next: None });
                proof {
                    let n1 = cache_nodes(self.entries);
                    assert forall|j: int| 0 <= j < o.len() implies #[trigger] o[j] != key by {
                        assert(o.contains(o[j]));
                    }
                }
                self.attach_to_tail(key, Ghost(o));
                self.order = Ghost(o.push(key));
                proof {
                    assert(o.push(key).to_set() =~= cache_nodes(self.entries).dom()) by {
                        assert forall|x: CacheKey| o.push(key).to_set().contains(x) <==> cache_nodes(self.entries).contains_key(x) by {
                            if o.push(key).contains(x) {
                                let j = choose|j: int| 0 <= j < o.push(key).len() && o.push(key)[j] == x;
                                if j < o.len() {
                                    assert(o[j] == x);
                                    assert(o.to_set().contains(x));
                                }
                            }
                            if cache_nodes(self.entries).contains_key(x) && x != key {
                                assert(o.to_set().contains(x));
                                let j = choose|j: int| 0 <= j < o.len() && o[j] == x;
                                assert(o.push(key)[j] == x);
                            }
                            if x == key {
                                assert(o.push(key)[o.len() as int] == key);
                            }
                        }
                    }
                }
                self.enforce_capacity();
            },
        }
    }

    /// Clear all entries (the hit and miss counts stay).
    pub fn clear(&mut self)
        requires
            old(self).wf(),
        ensures
            final(self).wf(),
            final(self).lru() == Seq::<CacheKey>::empty(),
            final(self).values() == Map::<CacheKey, JsonView>::empty(),
            final(self).limit() == old(self).limit(),
            final(self).hit_count() == old(self).hit_count(),
            final(self).miss_count() == old(self).miss_count(),
    {
        nodes_clear(&mut self.entries);
        self.head = None;
        self.tail = None;
        self.order = Ghost(Seq::empty());
        assert(self.order@.to_set() =~= cache_nodes(self.entries).dom());
        assert(self.values() =~= Map::<CacheKey, JsonView>::empty());
    }

    /// The hit and miss counts and the number of cached results.
    pub fn stats(&self) -> (res: CacheCounts)
        requires
            self.wf(),
        ensures
            res.hits == self.hit_count(),
            res.misses == self.miss_count(),
            res.size == self.lru().len(),
    {
        proof {
            self.order@.unique_seq_to_set();
        }
        CacheCounts { hits: self.hits, misses: self.misses, size: nodes_len(&self.entries) }
    }

    /// Reset the hit and miss counts.
    pub fn reset_stats(&mut self)
        requires
            old(self).wf(),
        ensures
            final(self).wf(),
            final(self).hit_count() == 0,
            final(self).miss_count() == 0,
            final(self).lru() == old(self).lru(),
            final(self).values() == old(self).values(),
            final(self).limit() == old(self).limit(),
    {
        self.hits = 0;
        self.misses = 0;
    }

    /// Invalidate all cache entries for a specific logic id; the others keep
    /// their order.
    pub fn invalidate_logic(&mut self, logic_id: &LogicId)
        requires
            old(self).wf(),
        ensures
            final(self).wf(),
            final(self).lru() == kept(old(self).lru(), *logic_id),
            forall|x: CacheKey| #[trigger] final(self).values().contains_key(x) ==> final(self).values()[x] == old(self).values()[x],
            final(self).limit() == old(self).limit(),
            final(self).hit_count() == old(self).hit_count(),
            final(self).miss_count() == old(self).miss_count(),
    {
        let ghost o0 = self.order@;
        let mut cur = self.head;
        let ghost mut i: int = 0;
        proof {
            assert(o0.take(0) =~= Seq::<CacheKey>::empty());
            assert(kept(o0.take(0), *logic_id) + o0.skip(0) =~= o0);
        }
        while cur.is_some()
            invariant
                links_ok(cache_nodes(self.entries), self.head, self.tail, self.order@),
                self.order@.to_set() == cache_nodes(self.entries).dom(),
                o0.no_duplicates(),
                0 <= i <= o0.len(),
                self.order@ == kept(o0.take(i), *logic_id) + o0.skip(i),
                cur == (if i < o0.len() { Some(o0[i]) } else { None }),
                self.capacity == old(self).capacity,
                self.capacity matches Some(c) ==> o0.len() <= c,
                self.hits == old(self).hits,
                self.misses == old(self).misses,
                forall|x: CacheKey| cache_nodes(self.entries).contains_key(x) ==> #[trigger] cache_nodes(self.entries)[x].value
                    == cache_nodes(old(self).entries)[x].value,
                forall|x: CacheKey| #[trigger] cache_nodes(self.entries).contains_key(x) ==> cache_nodes(old(self).entries).contains_key(x),
            decreases o0.len() - i,
        {
            let k = cur.unwrap();
            let ghost o = self.order@;
            let ghost pre = kept(o0.take(i), *logic_id);
            let ghost p = pre.len() as int;
            assert(o[p] == k);
            assert(o.contains(k));
            assert(o.to_set().contains(k));
            let (_, _, next) = node_get(&self.entries, k).unwrap();
            assert(next == (if i + 1 < o0.len() { Some(o0[i + 1]) } else { None })) by {
                if p + 1 < o.len() {
                    assert(o[p + 1] == o0[i + 1]);
                }
            }
            proof {
                assert(o0.take(i + 1).drop_last() =~= o0.take(i));
                assert(o0.take(i + 1).last() == o0[i]);
            }
            if k.logic_id == *logic_id {
                self.remove_node(k, Ghost(p));
                self.order = Ghost(o.remove(p));
                proof {
                    assert(o.remove(p) =~= kept(o0.take(i + 1), *logic_id) + o0.skip(i + 1));
                    let o2 = o.remove(p);
                    assert(o2.to_set() =~= cache_nodes(self.entries).dom()) by {
                        assert forall|x: CacheKey| o2.to_set().contains(x) <==> cache_nodes(self.entries).contains_key(x) by {
                            if o2.contains(x) {
                                let j = choose|j: int| 0 <= j < o2.len() && o2[j] == x;
                                if j < p {
                                    assert(o[j] == x);
                                    assert(o[j] != o[p]);
                                } else {
                                    assert(o[j + 1] == x);
                                    assert(o[j + 1] != o[p]);
                                }
                                assert(o.to_set().contains(x));
                            }
                            if cache_nodes(self.entries).contains_key(x) {
                                assert(o.to_set().contains(x));
                                let j = choose|j: int| 0 <= j < o.len() && o[j] == x;
                                assert(j != p);
                                if j < p {
                                    assert(o2[j] == x);
                                } else {
                                    assert(o2[j - 1] == x);
                                }
                            }
                        }
                    }
                }
            } else {
                proof {
                    assert(o =~= kept(o0.take(i + 1), *logic_id) + o0.skip(i + 1));
                }
            }
            cur = next;
            proof {
                i = i + 1;
            }
        }
        proof {
            assert(o0.take(i) =~= o0);
            assert(kept(o0, *logic_id) + o0.skip(i) =~= kept(o0, *logic_id));
            kept_len(o0, *logic_id);
            assert forall|x: CacheKey| #[trigger] self.values().contains_key(x) implies self.values()[x] == old(self).values()[x] by {
                assert(cache_nodes(old(self).entries).contains_key(x));
            }
        }
    }
}

/// The order and results after storing `v` under `key` in `c`: the key moves to
/// (or joins) the most recently used end, then the least recently used keys
/// beyond the capacity go; each remaining key keeps its result, `key` gets `v`.
pub open spec fn insert_effect(c: EvalCache, new: EvalCache, key: CacheKey, v: JsonView) -> bool {
    let o1 = if c.values().contains_key(key) {
        move_last(c.lru(), c.lru().index_of(key))
    } else {
        c.lru().push(key)
    };
    let e: int = match c.limit() {
        Some(n) => if o1.len() > n { o1.len() - n } else { 0 },
        None => 0,
    };
    &&& new.lru() == o1.skip(e)
    &&& forall|x: CacheKey| #[trigger] new.values().contains_key(x) ==> new.values()[x] == c.values().insert(key, v)[x]
}

/// A read gives back what a write wrote: right after a result is stored, it is
/// cached under its key as the most recently used, unless the capacity is zero.
pub proof fn law_lookup_after_insert(c: EvalCache, new: EvalCache, key: CacheKey, v: JsonView)
    requires
        c.wf(),
        new.wf(),
        insert_effect(c, new, key, v),
        !(c.limit() == Some(0usize)),
    ensures
        new.values().contains_key(key),
        new.values()[key] == v,
        new.lru().len() > 0 && new.lru().last() == key,
{
    c.lemma_wf();
    new.lemma_wf();
    let o = c.lru();
    let o1 = if c.values().contains_key(key) { move_last(o, o.index_of(key)) } else { o.push(key) };
    if c.values().contains_key(key) {
        assert(o.to_set().contains(key));
        assert(o.contains(key));
    }
    assert(o1.len() > 0 && o1.last() == key);
    let e: int = match c.limit() {
        Some(n) => if o1.len() > n { o1.len() - n } else { 0 },
        None => 0,
    };
    assert(e < o1.len());
    assert(new.lru() == o1.skip(e));
    assert(new.lru().last() == key);
    assert(new.lru().contains(key));
    assert(new.lru().to_set().contains(key));
}

/// `s` without the keys of logic `id`, in order.
pub open spec fn kept(s: Seq<CacheKey>, id: LogicId) -> Seq<CacheKey>
    decreases s.len(),
{
    if s.len() == 0 {
        seq![]
    } else {
        kept(s.drop_last(), id) + (if s.last().id() != id { seq![s.last()] } else { seq![] })
    }
}

proof fn kept_len(s: Seq<CacheKey>, id: LogicId)
    ensures
        kept(s, id).len() <= s.len(),
    decreases s.len(),
{
    if s.len() > 0 {
        kept_len(s.drop_last(), id);
    }
}

} // verus!

