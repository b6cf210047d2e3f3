//! Per-instance storage of compiled logic with dependency tracking. Compilation
//! goes through the shared store, so equal logic is compiled once; each instance
//! numbers its own expressions.

use vstd::prelude::*;
use ahash::AHashMap;
use crate::compiled::{CompiledLogic, Compiled, LogicId, LogicView, compile_spec, string_views};
use crate::compiled_logic_store::{SharedLogicStore, CompiledLogicId, hashed_outcome, law_answered_id_is_stored};
use crate::analysis::{vars_of, strictly_sorted};
use crate::forward::forward_ref;
use crate::json::JsonValue;
use crate::json_text::serialized_json;

verus! {

#[verifier::external_type_specification]
#[verifier::external_body]
pub struct ExAHashRandomState(ahash::RandomState);

#[verifier::external_type_specification]
#[verifier::external_body]
#[verifier::reject_recursive_types(K)]
#[verifier::reject_recursive_types(V)]
#[verifier::reject_recursive_types(S)]
pub struct ExAHashMap<K, V, S>(AHashMap<K, V, S>);

/// What a map from local ids to compiled expressions holds.
pub uninterp spec fn local_logic(m: AHashMap<LogicId, CompiledLogic>) -> Map<LogicId, CompiledLogic>;

/// What a map from local ids to dependency lists holds.
pub uninterp spec fn local_deps(m: AHashMap<LogicId, Vec<String>>) -> Map<LogicId, Vec<String>>;

pub open spec fn no_local_logic() -> Map<LogicId, CompiledLogic> {
    Map::empty()
}

pub open spec fn no_local_deps() -> Map<LogicId, Vec<String>> {
    Map::empty()
}

/// `AHashMap::default()`: an empty map.
#[verifier::external_body]
fn new_logic_map() -> (res: AHashMap<LogicId, CompiledLogic>)
    ensures
        local_logic(res) == no_local_logic(),
{
    AHashMap::default()
}

/// `AHashMap::default()`: an empty map.
#[verifier::external_body]
fn new_deps_map() -> (res: AHashMap<LogicId, Vec<String>>)
    ensures
        local_deps(res) == no_local_deps(),
{
    AHashMap::default()
}

/// `HashMap::get` through `AHashMap`'s `Deref`: the expression under `id`, if any.
#[verifier::external_body]
fn logic_map_get<'a>(m: &'a AHashMap<LogicId, CompiledLogic>, id: &LogicId) -> (res: Option<&'a CompiledLogic>)
    ensures
        res is Some <==> local_logic(*m).contains_key(*id),
        res matches Some(c) ==> *c == local_logic(*m)[*id],
{
    m.get(id)
}

/// `HashMap::insert` through `AHashMap`'s `DerefMut`.
#[verifier::external_body]
fn logic_map_insert(m: &mut AHashMap<LogicId, CompiledLogic>, id: LogicId, c: CompiledLogic)
    ensures
        local_logic(*final(m)) == local_logic(*old(m)).insert(id, c),
{
    m.insert(id, c);
}

/// `HashMap::remove` through `AHashMap`'s `DerefMut`: the removed expression, if any.
#[verifier::external_body]
fn logic_map_remove(m: &mut AHashMap<LogicId, CompiledLogic>, id: &LogicId) -> (res: Option<CompiledLogic>)
    ensures
        local_logic(*final(m)) == local_logic(*old(m)).remove(*id),
        res is Some <==> local_logic(*old(m)).contains_key(*id),
        res matches Some(c) ==> c == local_logic(*old(m))[*id],
{
    m.remove(id)
}

/// `HashMap::get` through `AHashMap`'s `Deref`: the dependency list under `id`, if any.
#[verifier::external_body]
fn deps_map_get<'a>(m: &'a AHashMap<LogicId, Vec<String>>, id: &LogicId) -> (res: Option<&'a Vec<String>>)
    ensures
        res is Some <==> local_deps(*m).contains_key(*id),
        res matches Some(d) ==> *d == local_deps(*m)[*id],
{
    m.get(id)
}

/// `HashMap::insert` through `AHashMap`'s `DerefMut`.
#[verifier::external_body]
fn deps_map_insert(m: &mut AHashMap<LogicId, Vec<String>>, id: LogicId, d: Vec<String>)
    ensures
        local_deps(*final(m)) == local_deps(*old(m)).insert(id, d),
{
    m.insert(id, d);
}

/// `HashMap::remove` through `AHashMap`'s `DerefMut`, dropping the removed list.
#[verifier::external_body]
fn deps_map_remove(m: &mut AHashMap<LogicId, Vec<String>>, id: &LogicId)
    ensures
        local_deps(*final(m)) == local_deps(*old(m)).remove(*id),
{
    m.remove(id);
}

/// Storage for compiled logic expressions with dependency tracking.
pub struct CompiledLogicStore {
    next_id: u64,
    store: AHashMap<LogicId, CompiledLogic>,
    dependencies: AHashMap<LogicId, Vec<String>>,
}

impl CompiledLogicStore {
    /// The number the next expression gets.
    pub closed spec fn next(self) -> u64 {
        self.next_id
    }

    /// The stored expressions.
    pub closed spec fn logic(self) -> Map<LogicId, CompiledLogic> {
        local_logic(self.store)
    }

    /// The dependency list of each stored expression.
    pub closed spec fn deps(self) -> Map<LogicId, Vec<String>> {
        local_deps(self.dependencies)
    }

    /// The stored expressions and their dependency lists stay as they were.
    pub open spec fn unchanged(self, other: CompiledLogicStore) -> bool {
        self.next() == other.next() && self.logic() == other.logic() && self.deps() == other.deps()
    }

    /// An empty store numbering from 0.
    pub fn new() -> (res: Self)
        ensures
            res.next() == 0,
            res.logic() == no_local_logic(),
            res.deps() == no_local_deps(),
    {
        CompiledLogicStore { next_id: 0, store: new_logic_map(), dependencies: new_deps_map() }
    }

    /// Compile `logic` through the shared store and keep it under a fresh local id,
    /// with its dependencies (the distinct variables it reads, in increasing order).
    pub fn compile(&mut self, shared: &mut SharedLogicStore, logic: &JsonValue) -> (res: Result<LogicId, String>)
        requires
            old(shared).wf(),
            old(self).next() < u64::MAX,
            compile_spec(logic@) != Compiled::<LogicView>::Aborted,
        ensures
            final(shared).wf(),
            serialized_json(logic@) is None ==> res is Err && final(shared).same_contents(*old(shared)),
            serialized_json(logic@) is Some ==> exists|h: u64, r: Result<CompiledLogicId, String>|
                hashed_outcome(*old(shared), h, logic@, Some(r), *final(shared)) && (match r {
                    Ok(gid) => res == Ok::<LogicId, String>(LogicId(old(self).next()))
                        && final(shared).by_id().contains_key(gid@)
                        && final(self).logic()[LogicId(old(self).next())]@ == final(shared).by_id()[gid@]@,
                    Err(e) => res == Err::<LogicId, String>(e),
                }),
            res is Err ==> final(self).unchanged(*old(self)),
            res is Ok ==> {
                let id = LogicId(old(self).next());
                &&& final(self).next() == old(self).next() + 1
                &&& final(self).logic().dom() == old(self).logic().dom().insert(id)
                &&& forall|k: LogicId| k != id && old(self).logic().contains_key(k) ==> final(self).logic()[k] == old(self).logic()[k]
                &&& final(self).deps() == old(self).deps().insert(id, final(self).deps()[id])
                &&& strictly_sorted(string_views(final(self).deps()[id]@))
                &&& string_views(final(self).deps()[id]@).to_set() == vars_of(final(self).logic()[id]@).to_set()
            },
    {
        let gid = match shared.compile_value(logic) {
            Ok(g) => g,
            Err(e) => {
                return Err(e);
            },
        };
        proof {
            if serialized_json(logic@) is Some {
                let h = choose|h: u64| hashed_outcome(*old(shared), h, logic@, Some(Ok::<CompiledLogicId, String>(gid)), *shared);
                law_answered_id_is_stored(*old(shared), h, logic@, Some(Ok::<CompiledLogicId, String>(gid)), *shared);
            }
        }
        let compiled = match shared.get(gid) {
            Some(c) => c,
            None => {
                return Err(String::from_str("Failed to retrieve compiled logic from global store"));
            },
        };
        let deps = compiled.referenced_vars();
        let id = LogicId(self.next_id);
        self.next_id = self.next_id + 1;
        logic_map_insert(&mut self.store, id, compiled);
        deps_map_insert(&mut self.dependencies, id, deps);
        proof {
            assert(self.logic().dom() =~= old(self).logic().dom().insert(id));
            assert(self.deps() =~= old(self).deps().insert(id, self.deps()[id]));
        }
        Ok(id)
    }

    /// The compiled expression with id `id`, if stored.
    pub fn get(&self, id: &LogicId) -> (res: Option<&CompiledLogic>)
        ensures
            res is Some <==> self.logic().contains_key(*id),
            res matches Some(c) ==> *c == self.logic()[*id],
    {
        logic_map_get(&self.store, id)
    }

    /// Remove the expression with id `id` and its dependencies; the removed
    /// expression, if it was stored.
    pub fn remove(&mut self, id: &LogicId) -> (res: Option<CompiledLogic>)
        ensures
            final(self).next() == old(self).next(),
            final(self).logic() == old(self).logic().remove(*id),
            final(self).deps() == old(self).deps().remove(*id),
            res is Some <==> old(self).logic().contains_key(*id),
            res matches Some(c) ==> c == old(self).logic()[*id],
    {
        deps_map_remove(&mut self.dependencies, id);
        logic_map_remove(&mut self.store, id)
    }

    /// The variables the expression with id `id` reads, sorted and without
    /// repeats, if it is stored.
    pub fn get_referenced_vars(&self, id: &LogicId) -> (res: Option<Vec<String>>)
        ensures
            res is Some <==> self.logic().contains_key(*id),
            res matches Some(v) ==> strictly_sorted(string_views(v@))
                && string_views(v@).to_set() == vars_of(self.logic()[*id]@).to_set(),
    {
        match self.get(id) {
            Some(c) => Some(c.referenced_vars()),
            None => None,
        }
    }

    /// Whether the expression with id `id` is stored and refers to a later
    /// iteration of a table.
    pub fn has_forward_reference(&self, id: &LogicId) -> (res: bool)
        ensures
            res == (self.logic().contains_key(*id) && forward_ref(self.logic()[*id]@)),
    {
        match self.get(id) {
            Some(c) => c.has_forward_reference(),
            None => false,
        }
    }

    /// The dependencies of the expression with id `id`, if stored.
    pub fn get_dependencies(&self, id: &LogicId) -> (res: Option<&[String]>)
        ensures
            res is Some <==> self.deps().contains_key(*id),
            res matches Some(d) ==> d@ == self.deps()[*id]@,
    {
        match deps_map_get(&self.dependencies, id) {
            Some(d) => Some(d.as_slice()),
            None => None,
        }
    }
}

impl Default for CompiledLogicStore {
    fn default() -> (res: Self)
        ensures
            res.next() == 0,
            res.logic() == no_local_logic(),
            res.deps() == no_local_deps(),
    {
        Self::new()
    }
}

} // verus!
