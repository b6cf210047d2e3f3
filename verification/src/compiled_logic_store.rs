//! A store of compiled expressions shared by everything that evaluates logic:
//! the same logic text is compiled once and answered by one id afterwards.

use vstd::prelude::*;
use ahash::AHasher;
use dashmap::DashMap;
use std::hash::{Hash, Hasher};
use crate::compiled::{CompiledLogic, Compiled, LogicView, compile_spec};
use crate::json::{JsonValue, JsonView};
use crate::json_text::{parse_json_text, json_text, parsed_json, serialized_json};

verus! {

#[verifier::external_type_specification]
#[verifier::external_body]
#[verifier::reject_recursive_types(K)]
#[verifier::reject_recursive_types(V)]
#[verifier::reject_recursive_types(S)]
pub struct ExDashMap<K, V, S>(DashMap<K, V, S>);

/// Unique identifier for a compiled logic expression.
#[derive(Debug, Clone, Copy, PartialEq, Eq, Structural, Hash)]
pub struct CompiledLogicId(u64);

impl View for CompiledLogicId {
    type V = u64;

    closed spec fn view(&self) -> u64 {
        self.0
    }
}

impl CompiledLogicId {
    /// The underlying number.
    pub fn as_u64(&self) -> (res: u64)
        ensures
            res == self@,
    {
        self.0
    }

    /// The id with the given number.
    pub fn from_u64(id: u64) -> (res: Self)
        ensures
            res@ == id,
    {
        CompiledLogicId(id)
    }
}

/// Statistics about the store.
#[derive(Debug, Clone)]
pub struct CompiledLogicStoreStats {
    /// Number of compiled logic expressions stored
    pub compiled_count: usize,
    /// Next ID that will be assigned
    pub next_id: u64,
}

/// What a map from text hashes to ids holds.
pub uninterp spec fn ids_by_hash(m: DashMap<u64, CompiledLogicId>) -> Map<u64, CompiledLogicId>;

/// What a map from id numbers to compiled expressions holds.
pub uninterp spec fn logic_by_id(m: DashMap<u64, CompiledLogic>) -> Map<u64, CompiledLogic>;

/// No id under any hash.
pub open spec fn no_ids() -> Map<u64, CompiledLogicId> {
    Map::empty()
}

/// No expression under any id.
pub open spec fn no_logic() -> Map<u64, CompiledLogic> {
    Map::empty()
}

/// `DashMap::new`: an empty map.
#[verifier::external_body]
fn new_hash_index() -> (res: DashMap<u64, CompiledLogicId>)
    ensures
        ids_by_hash(res) == no_ids(),
{
    DashMap::new()
}

/// `DashMap::get`, copying out the id stored under `key`, if any.
#[verifier::external_body]
fn hash_index_get(m: &DashMap<u64, CompiledLogicId>, key: u64) -> (res: Option<CompiledLogicId>)
    ensures
        res == (if ids_by_hash(*m).contains_key(key) { Some(ids_by_hash(*m)[key]) } else { None }),
{
    match m.get(&key) {
        Some(entry) => Some(*entry.value()),
        None => None,
    }
}

/// `DashMap::insert`: `key` now maps to `id`, the other keys keep theirs.
#[verifier::external_body]
fn hash_index_insert(m: &mut DashMap<u64, CompiledLogicId>, key: u64, id: CompiledLogicId)
    ensures
        ids_by_hash(*final(m)) == ids_by_hash(*old(m)).insert(key, id),
{
    m.insert(key, id);
}

/// `DashMap::len`: the number of keys.
#[verifier::external_body]
fn hash_index_len(m: &DashMap<u64, CompiledLogicId>) -> (res: usize)
    ensures
        res == ids_by_hash(*m).len(),
{
    m.len()
}

/// `DashMap::clear`: no key is left.
#[verifier::external_body]
fn hash_index_clear(m: &mut DashMap<u64, CompiledLogicId>)
    ensures
        ids_by_hash(*final(m)) == no_ids(),
{
    m.clear();
}

/// `DashMap::new`: an empty map.
#[verifier::external_body]
fn new_logic_index() -> (res: DashMap<u64, CompiledLogic>)
    ensures
        logic_by_id(res) == no_logic(),
{
    DashMap::new()
}

/// `DashMap::view`, handing the expression stored under `key`, if any, to a
/// closure that copies it with `CompiledLogic`'s `Clone` (whose verified contract
/// keeps the model).
#[verifier::external_body]
fn logic_index_get(m: &DashMap<u64, CompiledLogic>, key: u64) -> (res: Option<CompiledLogic>)
    ensures
        res is Some <==> logic_by_id(*m).contains_key(key),
        res matches Some(c) ==> c@ == logic_by_id(*m)[key]@,
{
    m.view(&key, |_, v| v.clone())
}

/// `DashMap::insert`: `key` now maps to `logic`, the other keys keep theirs.
#[verifier::external_body]
fn logic_index_insert(m: &mut DashMap<u64, CompiledLogic>, key: u64, logic: CompiledLogic)
    ensures
        logic_by_id(*final(m)) == logic_by_id(*old(m)).insert(key, logic),
{
    m.insert(key, logic);
}

/// `DashMap::clear`: no key is left.
#[verifier::external_body]
fn logic_index_clear(m: &mut DashMap<u64, CompiledLogic>)
    ensures
        logic_by_id(*final(m)) == no_logic(),
{
    m.clear();
}

/// `AHasher::default()` fed `text` through `Hash::hash`, then `finish`. The keys
/// of the default hasher are drawn once per process, so nothing is stated of the
/// value: equal texts hash alike within one process, which no clause here can say.
#[verifier::external_body]
fn text_hash(text: &String) -> u64 {
    let mut hasher = AHasher::default();
    text.hash(&mut hasher);
    hasher.finish()
}

/// `s` followed by `t`.
pub open spec fn joined(s: Seq<char>, t: Seq<char>) -> Seq<char> {
    s + t
}

/// A message made of `prefix` and then `detail`.
fn message(prefix: &str, detail: &str) -> (res: String)
    ensures
        res@ == prefix@ + detail@,
{
    let mut m = String::from_str(prefix);
    m.append(detail);
    m
}

/// The store of compiled expressions, keyed by a hash of their JSON text.
pub struct SharedLogicStore {
    store: DashMap<u64, CompiledLogicId>,
    id_map: DashMap<u64, CompiledLogic>,
    next_id: u64,
}

/// The id handed out after `n` (the counter wraps around as an atomic add does).
pub open spec fn next_after(n: u64) -> u64 {
    if n == u64::MAX {
        0
    } else {
        (n + 1) as u64
    }
}

/// What a compilation under text hash `hash` does to the store `old`, giving
/// `res` and leaving `new`: a known hash answers its id and changes nothing;
/// otherwise `None` where compiling would index an empty argument list, the
/// compiler's error, or a fresh id under which the compiled expression is kept.
pub open spec fn hashed_outcome(
    old: SharedLogicStore,
    hash: u64,
    logic: JsonView,
    res: Option<Result<CompiledLogicId, String>>,
    new: SharedLogicStore,
) -> bool {
    if old.by_hash().contains_key(hash) {
        &&& res == Some(Ok::<CompiledLogicId, String>(old.by_hash()[hash]))
        &&& new.same_contents(old)
    } else {
        match compile_spec(logic) {
            Compiled::Aborted => res is None && new.same_contents(old),
            Compiled::Failed(m) => res matches Some(Err(e)) && e@ == m && new.same_contents(old),
            Compiled::Done(l) => {
                &&& res matches Some(Ok(id)) && id@ == old.next_id()
                &&& new.by_hash() == old.by_hash().insert(hash, CompiledLogicId::spec_new(old.next_id()))
                &&& new.by_id().dom() == old.by_id().dom().insert(old.next_id())
                &&& new.by_id()[old.next_id()]@ == l
                &&& forall|k: u64| k != old.next_id() && old.by_id().contains_key(k) ==> new.by_id()[k] == old.by_id()[k]
                &&& new.next_id() == next_after(old.next_id())
            },
        }
    }
}

impl CompiledLogicId {
    /// The id with number `n`.
    pub closed spec fn spec_new(n: u64) -> CompiledLogicId {
        CompiledLogicId(n)
    }

    pub proof fn lemma_spec_new(n: u64)
        ensures
            Self::spec_new(n)@ == n,
            forall|i: CompiledLogicId| i@ == n ==> i == Self::spec_new(n),
    {
    }
}

impl SharedLogicStore {
    /// The ids stored under each text hash.
    pub closed spec fn by_hash(self) -> Map<u64, CompiledLogicId> {
        ids_by_hash(self.store)
    }

    /// The compiled expression stored under each id number.
    pub closed spec fn by_id(self) -> Map<u64, CompiledLogic> {
        logic_by_id(self.id_map)
    }

    /// The number the next new expression gets.
    pub closed spec fn next_id(self) -> u64 {
        self.next_id
    }

    /// Both stores hold what `other`'s hold, and the counter is the same.
    pub open spec fn same_contents(self, other: SharedLogicStore) -> bool {
        &&& self.by_hash() == other.by_hash()
        &&& self.by_id() == other.by_id()
        &&& self.next_id() == other.next_id()
    }

    /// Every id stored under a hash names a stored expression.
    pub open spec fn wf(self) -> bool {
        forall|h: u64| #[trigger] self.by_hash().contains_key(h) ==> self.by_id().contains_key(self.by_hash()[h]@)
    }

    /// An empty store whose first id is 1 (0 is never handed out first).
    pub fn new() -> (res: Self)
        ensures
            res.wf(),
            res.by_hash() == Map::<u64, CompiledLogicId>::empty(),
            res.by_id() == Map::<u64, CompiledLogic>::empty(),
            res.next_id() == 1,
    {
        SharedLogicStore { store: new_hash_index(), id_map: new_logic_index(), next_id: 1 }
    }

    /// Compile `logic` found under text hash `hash` (see `hashed_outcome`).
    pub fn compile_hashed(&mut self, hash: u64, logic: &JsonValue) -> (res: Option<Result<CompiledLogicId, String>>)
        requires
            old(self).wf(),
        ensures
            final(self).wf(),
            hashed_outcome(*old(self), hash, logic@, res, *final(self)),
    {
        if let Some(id) = hash_index_get(&self.store, hash) {
            return Some(Ok(id));
        }
        let compiled = match CompiledLogic::try_compile(logic) {
            None => {
                return None;
            },
            Some(Err(m)) => {
                return Some(Err(m));
            },
            Some(Ok(c)) => c,
        };
        let id = CompiledLogicId(self.next_id);
        self.next_id = if self.next_id == u64::MAX {
            0
        } else {
            self.next_id + 1
        };
        hash_index_insert(&mut self.store, hash, id);
        logic_index_insert(&mut self.id_map, id.0, compiled);
        proof {
            assert(self.by_id().dom() =~= old(self).by_id().dom().insert(id@));
            assert forall|h: u64| #[trigger] self.by_hash().contains_key(h) implies self.by_id().contains_key(self.by_hash()[h]@) by {
                if h != hash {
                    assert(old(self).by_hash().contains_key(h));
                }
            }
        }
        Some(Ok(id))
    }

    /// Compile a JSON value, answering the id of an equal text compiled before
    /// (see `hashed_outcome`, for the hash that the text got); `None` where
    /// compiling would index an empty argument list.
    pub fn try_compile_value(&mut self, logic: &JsonValue) -> (res: Option<Result<CompiledLogicId, String>>)
        requires
            old(self).wf(),
        ensures
            final(self).wf(),
            serialized_json(logic@) is None ==> {
                &&& res matches Some(Err(e)) && e@.len() >= 27 && e@.subrange(0, 27) == "Failed to serialize logic: "@
                &&& final(self).same_contents(*old(self))
            },
            serialized_json(logic@) is Some ==> exists|h: u64| hashed_outcome(*old(self), h, logic@, res, *final(self)),
    {
        let text = match json_text(logic) {
            Ok(t) => t,
            Err(e) => {
                let m = message("Failed to serialize logic: ", e.as_str());
                proof {
                    reveal_strlit("Failed to serialize logic: ");
                    assert(m@.subrange(0, 27) =~= "Failed to serialize logic: "@);
                }
                return Some(Err(m));
            },
        };
        let hash = text_hash(&text);
        self.compile_hashed(hash, logic)
    }

    /// Compile a JSON value, answering the id of an equal text compiled before.
    pub fn compile_value(&mut self, logic: &JsonValue) -> (res: Result<CompiledLogicId, String>)
        requires
            old(self).wf(),
            compile_spec(logic@) != Compiled::<LogicView>::Aborted,
        ensures
            final(self).wf(),
            serialized_json(logic@) is None ==> {
                &&& res matches Err(e) && e@.len() >= 27 && e@.subrange(0, 27) == "Failed to serialize logic: "@
                &&& final(self).same_contents(*old(self))
            },
            serialized_json(logic@) is Some ==> exists|h: u64| hashed_outcome(*old(self), h, logic@, Some(res), *final(self)),
    {
        match self.try_compile_value(logic) {
            Some(r) => r,
            None => Err(String::new()),
        }
    }

    /// Compile a JSON text, answering the id of an equal text compiled before;
    /// `None` where compiling would index an empty argument list.
    pub fn try_compile(&mut self, logic_json: &str) -> (res: Option<Result<CompiledLogicId, String>>)
        requires
            old(self).wf(),
        ensures
            final(self).wf(),
            parsed_json(logic_json@) is None ==> {
                &&& res matches Some(Err(e)) && e@.len() >= 28 && e@.subrange(0, 28) == "Failed to parse logic JSON: "@
                &&& final(self).same_contents(*old(self))
            },
            parsed_json(logic_json@) matches Some(v) ==> {
                &&& serialized_json(v) is None ==> {
                    &&& res matches Some(Err(e)) && e@.len() >= 27 && e@.subrange(0, 27) == "Failed to serialize logic: "@
                    &&& final(self).same_contents(*old(self))
                }
                &&& serialized_json(v) is Some ==> exists|h: u64| hashed_outcome(*old(self), h, v, res, *final(self))
            },
    {
        match parse_json_text(logic_json) {
            Ok(v) => self.try_compile_value(&v),
            Err(e) => {
                let m = message("Failed to parse logic JSON: ", e.as_str());
                proof {
                    reveal_strlit("Failed to parse logic JSON: ");
                    assert(m@.subrange(0, 28) =~= "Failed to parse logic JSON: "@);
                }
                Some(Err(m))
            },
        }
    }

    /// Compile a JSON text, answering the id of an equal text compiled before.
    pub fn compile(&mut self, logic_json: &str) -> (res: Result<CompiledLogicId, String>)
        requires
            old(self).wf(),
            parsed_json(logic_json@) matches Some(v) ==> compile_spec(v) != Compiled::<LogicView>::Aborted,
        ensures
            final(self).wf(),
            parsed_json(logic_json@) is None ==> {
                &&& res matches Err(e) && e@.len() >= 28 && e@.subrange(0, 28) == "Failed to parse logic JSON: "@
                &&& final(self).same_contents(*old(self))
            },
            parsed_json(logic_json@) matches Some(v) ==> {
                &&& serialized_json(v) is None ==> {
                    &&& res matches Err(e) && e@.len() >= 27 && e@.subrange(0, 27) == "Failed to serialize logic: "@
                    &&& final(self).same_contents(*old(self))
                }
                &&& serialized_json(v) is Some ==> exists|h: u64| hashed_outcome(*old(self), h, v, Some(res), *final(self))
            },
    {
        match self.try_compile(logic_json) {
            Some(r) => r,
            None => Err(String::new()),
        }
    }

    /// The compiled expression with id `id`, if stored.
    pub fn get(&self, id: CompiledLogicId) -> (res: Option<CompiledLogic>)
        ensures
            res is Some <==> self.by_id().contains_key(id@),
            res matches Some(c) ==> c@ == self.by_id()[id@]@,
    {
        logic_index_get(&self.id_map, id.0)
    }

    /// How many hashes are stored, and the next id.
    pub fn stats(&self) -> (res: CompiledLogicStoreStats)
        ensures
            res.compiled_count == self.by_hash().len(),
            res.next_id == self.next_id(),
    {
        CompiledLogicStoreStats { compiled_count: hash_index_len(&self.store), next_id: self.next_id }
    }

    /// Forget everything; the next id is 1 again.
    pub fn clear(&mut self)
        ensures
            final(self).wf(),
            final(self).by_hash() == Map::<u64, CompiledLogicId>::empty(),
            final(self).by_id() == Map::<u64, CompiledLogic>::empty(),
            final(self).next_id() == 1,
    {
        hash_index_clear(&mut self.store);
        logic_index_clear(&mut self.id_map);
        self.next_id = 1;
    }
}

/// Compile logic from a JSON string and return its id; the same logic compiled
/// before answers the existing id (see `SharedLogicStore::compile`).
pub fn compile_logic(store: &mut SharedLogicStore, logic_json: &str) -> (res: Result<CompiledLogicId, String>)
    requires
        old(store).wf(),
        parsed_json(logic_json@) matches Some(v) ==> compile_spec(v) != Compiled::<LogicView>::Aborted,
    ensures
        final(store).wf(),
        parsed_json(logic_json@) is None ==> {
            &&& res matches Err(e) && e@.len() >= 28 && e@.subrange(0, 28) == "Failed to parse logic JSON: "@
            &&& final(store).same_contents(*old(store))
        },
        parsed_json(logic_json@) matches Some(v) ==> {
            &&& serialized_json(v) is None ==> {
                &&& res matches Err(e) && e@.len() >= 27 && e@.subrange(0, 27) == "Failed to serialize logic: "@
                &&& final(store).same_contents(*old(store))
            }
            &&& serialized_json(v) is Some ==> exists|h: u64| hashed_outcome(*old(store), h, v, Some(res), *final(store))
        },
{
    store.compile(logic_json)
}

/// `compile_logic` where it can be called: `None` for a text whose logic would
/// make the compiler index an empty argument list, with the store untouched.
pub fn try_compile_logic(store: &mut SharedLogicStore, logic_json: &str) -> (res: Option<Result<CompiledLogicId, String>>)
    requires
        old(store).wf(),
    ensures
        final(store).wf(),
        res is None ==> final(store).same_contents(*old(store)),
        res is None ==> (parsed_json(logic_json@) matches Some(v) && compile_spec(v) == Compiled::<LogicView>::Aborted),
        res matches Some(r) ==> parsed_json(logic_json@) matches Some(v) ==> compile_spec(v) != Compiled::<LogicView>::Aborted,
        res matches Some(r) ==> parsed_json(logic_json@) is None ==> {
            &&& r matches Err(e) && e@.len() >= 28 && e@.subrange(0, 28) == "Failed to parse logic JSON: "@
            &&& final(store).same_contents(*old(store))
        },
        res matches Some(r) ==> parsed_json(logic_json@) matches Some(v) ==> {
            &&& serialized_json(v) is None ==> {
                &&& r matches Err(e) && e@.len() >= 27 && e@.subrange(0, 27) == "Failed to serialize logic: "@
                &&& final(store).same_contents(*old(store))
            }
            &&& serialized_json(v) is Some ==> exists|h: u64| hashed_outcome(*old(store), h, v, Some(r), *final(store))
        },
{
    if let Ok(v) = parse_json_text(logic_json) {
        if CompiledLogic::try_compile(&v).is_none() {
            return None;
        }
    }
    Some(compile_logic(store, logic_json))
}

/// Compile logic from a JSON value and return its id (see `SharedLogicStore::compile_value`).
pub fn compile_logic_value(store: &mut SharedLogicStore, logic: &JsonValue) -> (res: Result<CompiledLogicId, String>)
    requires
        old(store).wf(),
        compile_spec(logic@) != Compiled::<LogicView>::Aborted,
    ensures
        final(store).wf(),
        serialized_json(logic@) is None ==> {
            &&& res matches Err(e) && e@.len() >= 27 && e@.subrange(0, 27) == "Failed to serialize logic: "@
            &&& final(store).same_contents(*old(store))
        },
        serialized_json(logic@) is Some ==> exists|h: u64| hashed_outcome(*old(store), h, logic@, Some(res), *final(store)),
{
    store.compile_value(logic)
}

/// The compiled expression with id `id`, if stored.
pub fn get_compiled_logic(store: &SharedLogicStore, id: CompiledLogicId) -> (res: Option<CompiledLogic>)
    ensures
        res is Some <==> store.by_id().contains_key(id@),
        res matches Some(c) ==> c@ == store.by_id()[id@]@,
{
    store.get(id)
}

/// Statistics about the store.
pub fn get_store_stats(store: &SharedLogicStore) -> (res: CompiledLogicStoreStats)
    ensures
        res.compiled_count == store.by_hash().len(),
        res.next_id == store.next_id(),
{
    store.stats()
}

/// Clear all compiled logic from the store; existing ids are invalidated.
pub fn clear_store(store: &mut SharedLogicStore)
    ensures
        final(store).wf(),
        final(store).by_hash() == Map::<u64, CompiledLogicId>::empty(),
        final(store).by_id() == Map::<u64, CompiledLogic>::empty(),
        final(store).next_id() == 1,
{
    store.clear()
}

/// Compiling the same logic twice answers the same id: once a compilation under
/// text hash `h` has answered an id, a later compilation under `h` answers that
/// id again and leaves the store as it was.
pub proof fn law_same_text_same_id(
    s0: SharedLogicStore,
    h: u64,
    l1: JsonView,
    r1: Option<Result<CompiledLogicId, String>>,
    s1: SharedLogicStore,
    l2: JsonView,
    r2: Option<Result<CompiledLogicId, String>>,
    s2: SharedLogicStore,
)
    requires
        hashed_outcome(s0, h, l1, r1, s1),
        r1 matches Some(Ok(_)),
        hashed_outcome(s1, h, l2, r2, s2),
    ensures
        r2 == r1,
        s2.same_contents(s1),
{
    if !s0.by_hash().contains_key(h) {
        CompiledLogicId::lemma_spec_new(s0.next_id());
        assert(s1.by_hash().contains_key(h));
    }
}

/// Two logic texts compiled afresh one after the other get different ids.
pub proof fn law_fresh_ids_differ(
    s0: SharedLogicStore,
    h1: u64,
    l1: JsonView,
    r1: Option<Result<CompiledLogicId, String>>,
    s1: SharedLogicStore,
    h2: u64,
    l2: JsonView,
    r2: Option<Result<CompiledLogicId, String>>,
    s2: SharedLogicStore,
)
    requires
        !s0.by_hash().contains_key(h1),
        hashed_outcome(s0, h1, l1, r1, s1),
        r1 matches Some(Ok(_)),
        !s1.by_hash().contains_key(h2),
        hashed_outcome(s1, h2, l2, r2, s2),
        r2 matches Some(Ok(_)),
    ensures
        r1 != r2,
{
}

/// An id that a compilation answers names a stored expression.
pub proof fn law_answered_id_is_stored(
    s0: SharedLogicStore,
    h: u64,
    l: JsonView,
    r: Option<Result<CompiledLogicId, String>>,
    s1: SharedLogicStore,
)
    requires
        s0.wf(),
        hashed_outcome(s0, h, l, r, s1),
        r matches Some(Ok(_)),
    ensures
        s1.by_id().contains_key(r->Some_0->Ok_0@),
{
    assert(s0.by_hash().contains_key(h) ==> s0.by_id().contains_key(s0.by_hash()[h]@));
}

} // verus!
