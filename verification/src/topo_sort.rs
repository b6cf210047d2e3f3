//! Depth-first ordering of evaluations by their dependencies, with detection of
//! circular dependencies.

use vstd::prelude::*;
use indexmap::{IndexMap, IndexSet};
use std::collections::hash_map::RandomState;
use crate::compiled::string_views;
use crate::text::{lex_less, lemma_lex_transitive, lemma_lex_total, str_less, str_eq, starts_with, contains_seq, to_chars, chars_contain, chars_occur_at, chars_start_with, copy_string};

verus! {

#[verifier::external_type_specification]
#[verifier::external_body]
#[verifier::reject_recursive_types(T)]
#[verifier::reject_recursive_types(S)]
pub struct ExIndexSet<T, S>(IndexSet<T, S>);

#[verifier::external_type_specification]
#[verifier::external_body]
#[verifier::reject_recursive_types(K)]
#[verifier::reject_recursive_types(V)]
#[verifier::reject_recursive_types(S)]
pub struct ExIndexMap<K, V, S>(IndexMap<K, V, S>);

/// The items of a set of strings, in insertion order.
pub uninterp spec fn set_items(s: IndexSet<String, RandomState>) -> Seq<Seq<char>>;

/// The dependency graph: each key's dependencies, in insertion order.
pub uninterp spec fn graph_deps(m: IndexMap<String, IndexSet<String, RandomState>, RandomState>) -> Map<Seq<char>, Seq<Seq<char>>>;

/// `IndexSet::contains`.
#[verifier::external_body]
pub(crate) fn set_contains(s: &IndexSet<String>, x: &str) -> (res: bool)
    ensures
        res == set_items(*s).contains(x@),
{
    s.contains(x)
}

/// `IndexSet::insert`: a new item goes to the end; an existing one stays put.
#[verifier::external_body]
pub(crate) fn set_insert(s: &mut IndexSet<String>, x: String) -> (res: bool)
    ensures
        res == !set_items(*old(s)).contains(x@),
        set_items(*final(s)) == (if res { set_items(*old(s)).push(x@) } else { set_items(*old(s)) }),
{
    s.insert(x)
}

/// `s` with `x` removed by moving the last item into its place.
pub open spec fn swap_removed(s: Seq<Seq<char>>, x: Seq<char>) -> Seq<Seq<char>> {
    if s.contains(x) {
        let i = s.index_of(x);
        s.update(i, s.last()).drop_last()
    } else {
        s
    }
}

/// `IndexSet::swap_remove`: the last item takes the removed one's place.
#[verifier::external_body]
fn set_swap_remove(s: &mut IndexSet<String>, x: &str)
    requires
        set_items(*old(s)).no_duplicates(),
    ensures
        set_items(*final(s)) == swap_removed(set_items(*old(s)), x@),
{
    s.swap_remove(x);
}

/// The items of a set, cloned in order; a set holds each item once.
#[verifier::external_body]
pub(crate) fn set_to_vec(s: &IndexSet<String>) -> (res: Vec<String>)
    ensures
        string_views(res@) == set_items(*s),
        string_views(res@).no_duplicates(),
{
    s.iter().cloned().collect()
}

/// `IndexSet::new`: an empty set.
#[verifier::external_body]
pub(crate) fn set_new() -> (res: IndexSet<String>)
    ensures
        set_items(res).len() == 0,
{
    IndexSet::new()
}

/// `IndexSet::len`.
#[verifier::external_body]
fn set_len(s: &IndexSet<String>) -> (res: usize)
    ensures
        res == set_items(*s).len(),
{
    s.len()
}

/// The keys of the graph, each once; their order (that of insertion) is not
/// stated.
#[verifier::external_body]
fn graph_keys(m: &IndexMap<String, IndexSet<String>>) -> (res: Vec<String>)
    ensures
        string_views(res@).no_duplicates(),
        string_views(res@).to_set() == graph_deps(*m).dom(),
{
    m.keys().cloned().collect()
}

/// The graph without nodes.
pub open spec fn empty_graph() -> Map<Seq<char>, Seq<Seq<char>>> {
    Map::empty()
}

/// `IndexMap::new`: an empty graph.
#[verifier::external_body]
pub(crate) fn graph_new() -> (res: IndexMap<String, IndexSet<String>>)
    ensures
        graph_deps(res) == empty_graph(),
{
    IndexMap::new()
}

/// `IndexMap::insert`: `k` now maps to `v`'s items.
#[verifier::external_body]
pub(crate) fn graph_insert(m: &mut IndexMap<String, IndexSet<String>>, k: String, v: IndexSet<String>)
    ensures
        graph_deps(*final(m)) == graph_deps(*old(m)).insert(k@, set_items(v)),
{
    m.insert(k, v);
}

/// `IndexSet::get_index_of`: the position of `x` in the set, if it is there.
#[verifier::external_body]
fn set_index_of(s: &IndexSet<String>, x: &str) -> (res: Option<usize>)
    ensures
        res is None <==> !set_items(*s).contains(x@),
        res matches Some(i) ==> i < set_items(*s).len() && set_items(*s)[i as int] == x@,
{
    s.get_index_of(x)
}

/// `IndexMap::get`: the dependencies of `k`, if it is a key.
#[verifier::external_body]
pub(crate) fn graph_get<'a>(m: &'a IndexMap<String, IndexSet<String>>, k: &str) -> (res: Option<&'a IndexSet<String>>)
    ensures
        res is Some <==> graph_deps(*m).contains_key(k@),
        res matches Some(d) ==> set_items(*d) == graph_deps(*m)[k@],
{
    m.get(k)
}

/// Every item of `sorted` that is a key of the graph comes after each of its
/// dependencies that is a key.
pub open spec fn topological(sorted: Seq<Seq<char>>, g: Map<Seq<char>, Seq<Seq<char>>>) -> bool {
    forall|i: int, d: Seq<char>|
        0 <= i < sorted.len() && g.contains_key(#[trigger] sorted[i]) && g[sorted[i]].contains(d) && g.contains_key(d)
            ==> #[trigger] sorted.take(i).contains(d)
}

/// The sets that a search keeps: without repeats, with the visited nodes being
/// exactly the sorted ones.
pub open spec fn search_ok(visited: Seq<Seq<char>>, visiting: Seq<Seq<char>>, sorted: Seq<Seq<char>>) -> bool {
    &&& visited.no_duplicates()
    &&& visiting.no_duplicates()
    &&& sorted.no_duplicates()
    &&& visited.to_set() == sorted.to_set()
}

/// `s` with `extra` after it.
pub open spec fn extends(s: Seq<Seq<char>>, t: Seq<Seq<char>>) -> bool {
    s.len() <= t.len() && t.take(s.len() as int) == s
}

proof fn lemma_extends_refl(s: Seq<Seq<char>>)
    ensures
        extends(s, s),
{
    assert(s.take(s.len() as int) =~= s);
}

proof fn lemma_extends_trans(s: Seq<Seq<char>>, t: Seq<Seq<char>>, u: Seq<Seq<char>>)
    requires
        extends(s, t),
        extends(t, u),
    ensures
        extends(s, u),
{
    assert(u.take(s.len() as int) =~= u.take(t.len() as int).take(s.len() as int));
}

proof fn lemma_extends_push(s: Seq<Seq<char>>, x: Seq<char>)
    ensures
        extends(s, s.push(x)),
{
    assert(s.push(x).take(s.len() as int) =~= s);
}

proof fn lemma_extends_contains(s: Seq<Seq<char>>, t: Seq<Seq<char>>, d: Seq<char>)
    requires
        extends(s, t),
        s.contains(d),
    ensures
        t.contains(d),
{
    let j = choose|j: int| 0 <= j < s.len() && s[j] == d;
    assert(t.take(s.len() as int)[j] == t[j]);
}

proof fn lemma_push_drop(s: Seq<Seq<char>>, x: Seq<char>)
    requires
        s.no_duplicates(),
        !s.contains(x),
    ensures
        swap_removed(s.push(x), x) == s,
        s.push(x).no_duplicates(),
{
    let t = s.push(x);
    assert(t.contains(x)) by {
        assert(t[s.len() as int] == x);
    }
    let i = t.index_of(x);
    if i < s.len() {
        assert(t[i] == s[i]);
        assert(s.contains(x));
    }
    assert(t.update(i, t.last()).drop_last() =~= s);
    assert(t.no_duplicates()) by {
        assert forall|a: int, b: int| 0 <= a < b < t.len() implies t[a] != t[b] by {
            if b == s.len() {
                assert(t[a] == s[a]);
                if s[a] == x {
                    assert(s.contains(x));
                }
            }
        }
    }
}

/// `p` is a path of at least one edge of `g` from `a` to `b`.
pub open spec fn path_from_to(g: Map<Seq<char>, Seq<Seq<char>>>, p: Seq<Seq<char>>, a: Seq<char>, b: Seq<char>) -> bool {
    &&& p.len() >= 2
    &&& p[0] == a
    &&& p.last() == b
    &&& forall|i: int| 0 <= i < p.len() - 1 ==> g.contains_key(#[trigger] p[i]) && g[p[i]].contains(p[i + 1])
}

/// `b` can be reached from `a` along at least one edge.
pub open spec fn reaches(g: Map<Seq<char>, Seq<Seq<char>>>, a: Seq<char>, b: Seq<char>) -> bool {
    exists|p: Seq<Seq<char>>| #[trigger] path_from_to(g, p, a, b)
}

/// No node reaches itself: the graph has no circular dependency.
pub open spec fn acyclic(g: Map<Seq<char>, Seq<Seq<char>>>) -> bool {
    forall|a: Seq<char>| !#[trigger] reaches(g, a, a)
}

/// The nodes being visited lead to `node`: each of them that is a node of the
/// graph reaches it; when `node` is no node of the graph, none of them is one;
/// and `node` is one if it is being visited.
pub open spec fn stack_leads_to(g: Map<Seq<char>, Seq<Seq<char>>>, visiting: Seq<Seq<char>>, node: Seq<char>) -> bool {
    &&& forall|v: Seq<char>| visiting.contains(v) && g.contains_key(v) ==> #[trigger] reaches(g, v, node)
    &&& !g.contains_key(node) ==> forall|v: Seq<char>| #[trigger] visiting.contains(v) ==> !g.contains_key(v)
    &&& visiting.contains(node) ==> g.contains_key(node)
}

proof fn lemma_edge_reaches(g: Map<Seq<char>, Seq<Seq<char>>>, a: Seq<char>, b: Seq<char>)
    requires
        g.contains_key(a),
        g[a].contains(b),
    ensures
        reaches(g, a, b),
{
    let p = seq![a, b];
    assert(path_from_to(g, p, a, b));
}

proof fn lemma_reaches_step(g: Map<Seq<char>, Seq<Seq<char>>>, a: Seq<char>, b: Seq<char>, c: Seq<char>)
    requires
        reaches(g, a, b),
        g.contains_key(b),
        g[b].contains(c),
    ensures
        reaches(g, a, c),
{
    let p = choose|p: Seq<Seq<char>>| #[trigger] path_from_to(g, p, a, b);
    let q = p.push(c);
    assert forall|i: int| 0 <= i < q.len() - 1 implies g.contains_key(#[trigger] q[i]) && g[q[i]].contains(q[i + 1]) by {
        if i < p.len() - 1 {
            assert(q[i] == p[i] && q[i + 1] == p[i + 1]);
        } else {
            assert(q[i] == b);
        }
    }
    assert(path_from_to(g, q, a, c));
}

/// Depth-first visit of `node`, whose dependencies are `deps`: its
/// dependencies that are keys of `graph` are visited first (in their own order,
/// or, given `tables`, those that are not tables first and each group in
/// increasing order), then `node` is added to `visited` and `sorted`. Meeting a
/// node that is still being visited is a circular dependency.
fn visit(
    node: &str,
    deps: &IndexSet<String>,
    graph: &IndexMap<String, IndexSet<String>>,
    visited: &mut IndexSet<String>,
    visiting: &mut IndexSet<String>,
    sorted: &mut IndexSet<String>,
    tables: Option<&IndexSet<String>>,
) -> (res: Result<(), String>)
    requires
        graph_deps(*graph).dom().finite(),
        graph_deps(*graph).contains_key(node@) ==> set_items(*deps) == graph_deps(*graph)[node@],
        search_ok(set_items(*old(visited)), set_items(*old(visiting)), set_items(*old(sorted))),
        topological(set_items(*old(sorted)), graph_deps(*graph)),
    ensures
        search_ok(set_items(*final(visited)), set_items(*final(visiting)), set_items(*final(sorted))),
        topological(set_items(*final(sorted)), graph_deps(*graph)),
        extends(set_items(*old(sorted)), set_items(*final(sorted))),
        set_items(*old(visited)).to_set().subset_of(set_items(*final(visited)).to_set()),
        forall|x: Seq<char>| #[trigger] set_items(*final(visited)).contains(x) && set_items(*old(visiting)).contains(x)
            ==> set_items(*old(visited)).contains(x),
        res is Ok ==> set_items(*final(visiting)) == set_items(*old(visiting)),
        res is Ok ==> set_items(*final(visited)).contains(node@),
        set_items(*old(visited)).contains(node@) && !set_items(*old(visiting)).contains(node@) ==> {
            &&& res is Ok
            &&& set_items(*final(visited)) == set_items(*old(visited))
            &&& set_items(*final(sorted)) == set_items(*old(sorted))
        },
        set_items(*old(visiting)).contains(node@) ==> (res matches Err(m) && m@ == "Circular dependency detected involving: "@ + node@),
        res matches Err(m) ==> m@.len() >= 40 && m@.subrange(0, 40) == "Circular dependency detected involving: "@,
        acyclic(graph_deps(*graph)) && stack_leads_to(graph_deps(*graph), set_items(*old(visiting)), node@) ==> res is Ok,
    decreases
        graph_deps(*graph).dom().difference(set_items(*old(visiting)).to_set()).len(),
        if graph_deps(*graph).contains_key(node@) { 0int } else { 1int },
{
    proof {
        reveal_strlit("Circular dependency detected involving: ");
    }
    proof {
        lemma_extends_refl(set_items(*sorted));
    }
    if set_contains(visiting, node) {
        let mut m = String::from_str("Circular dependency detected involving: ");
        m.append(node);
        assert(m@.subrange(0, 40) =~= "Circular dependency detected involving: "@);
        proof {
            // meeting a node again closes a cycle through it
            let g = graph_deps(*graph);
            if stack_leads_to(g, set_items(*old(visiting)), node@) {
                assert(g.contains_key(node@));
                assert(reaches(g, node@, node@));
            }
        }
        return Err(m);
    }
    if set_contains(visited, node) {
        return Ok(());
    }
    let ghost v0 = set_items(*visiting);
    let ghost g = graph_deps(*graph);
    let ghost k = g.dom();
    proof {
        lemma_push_drop(v0, node@);
    }
    set_insert(visiting, String::from_str(node));
    let ghost v1 = set_items(*visiting);
    proof {
        assert(k.difference(v1.to_set()) =~= k.difference(v0.to_set()).remove(node@)) by {
            v0.lemma_push_to_set_commute(node@);
        }
        assert(k.difference(v0.to_set()).finite());
        if k.contains(node@) {
            assert(!v0.to_set().contains(node@));
            assert(k.difference(v0.to_set()).contains(node@));
            assert(k.difference(v1.to_set()).len() == k.difference(v0.to_set()).len() - 1);
        } else {
            assert(k.difference(v1.to_set()) =~= k.difference(v0.to_set()));
        }
    }
    let items = match tables {
        Some(t) => priority_sorted(set_to_vec(deps), t),
        None => set_to_vec(deps),
    };
    let ghost dv = string_views(items@);
    let ghost s0 = set_items(*sorted);
    let ghost d0 = set_items(*visited);
    let mut j: usize = 0;
    while j < items.len()
        invariant
            j <= items@.len(),
            dv == string_views(items@),
            dv.to_set() == set_items(*deps).to_set(),
            g == graph_deps(*graph),
            k == g.dom(),
            k.finite(),
            set_items(*visiting) == v1,
            v1 == v0.push(node@),
            !v0.contains(node@),
            search_ok(set_items(*visited), set_items(*visiting), set_items(*sorted)),
            topological(set_items(*sorted), g),
            extends(s0, set_items(*sorted)),
            s0 == set_items(*old(sorted)),
            v0 == set_items(*old(visiting)),
            d0 == set_items(*old(visited)),
            !d0.contains(node@),
            forall|x: Seq<char>| #[trigger] set_items(*visited).contains(x) && v1.contains(x) ==> d0.contains(x),
            d0.to_set().subset_of(set_items(*visited).to_set()),
            !set_items(*visited).contains(node@),
            forall|t: int| 0 <= t < j && k.contains(#[trigger] dv[t]) ==> set_items(*visited).contains(dv[t]),
            k.difference(v1.to_set()).len() < k.difference(v0.to_set()).len() || !k.contains(node@),
            k.difference(v1.to_set()).len() <= k.difference(v0.to_set()).len(),
            g.contains_key(node@) ==> set_items(*deps) == g[node@],
        decreases items@.len() - j,
    {
        let dep = &items[j];
        assert(dv[j as int] == dep@);
        match graph_get(graph, dep.as_str()) {
            Some(dep_deps) => {
                let ghost before = set_items(*sorted);
                let ghost before_visited = set_items(*visited);
                assert(graph_deps(*graph).contains_key(dep@));
                assert(graph_deps(*graph).dom().difference(set_items(*visiting).to_set()).len()
                    < graph_deps(*graph).dom().difference(set_items(*old(visiting)).to_set()).len()
                    || (graph_deps(*graph).dom().difference(set_items(*visiting).to_set()).len()
                    == graph_deps(*graph).dom().difference(set_items(*old(visiting)).to_set()).len()
                    && !graph_deps(*graph).contains_key(node@)));
                proof {
                    assert(acyclic(g) && stack_leads_to(g, v0, node@) ==> stack_leads_to(g, v1, dep@)) by {
                        if acyclic(g) && stack_leads_to(g, v0, node@) {
                            assert(dv.contains(dep@));
                            assert(dv.to_set().contains(dep@));
                            assert(set_items(*deps).to_set().contains(dep@));
                            if g.contains_key(node@) {
                                assert(g[node@].contains(dep@));
                                lemma_edge_reaches(g, node@, dep@);
                            }
                            assert forall|v: Seq<char>| v1.contains(v) && g.contains_key(v) implies #[trigger] reaches(g, v, dep@) by {
                                if v != node@ {
                                    let a = choose|a: int| 0 <= a < v1.len() && v1[a] == v;
                                    assert(a < v0.len());
                                    assert(v0[a] == v);
                                    assert(v0.contains(v));
                                    assert(reaches(g, v, node@));
                                    lemma_reaches_step(g, v, node@, dep@);
                                }
                            }
                        }
                    }
                }
                let r = visit(dep.as_str(), dep_deps, graph, visited, visiting, sorted, tables);
                proof {
                    lemma_extends_trans(s0, before, set_items(*sorted));
                }
                assert(d0.to_set().subset_of(set_items(*visited).to_set()));
                proof {
                    assert forall|x: Seq<char>| #[trigger] set_items(*visited).contains(x) && v1.contains(x) implies d0.contains(x) by {
                        if !before_visited.contains(x) {
                            assert(v1.contains(x));
                        }
                    }
                }
                match r {
                    Ok(()) => {
                        proof {
                            assert forall|t: int| 0 <= t <= j && k.contains(#[trigger] dv[t]) implies set_items(*visited).contains(dv[t]) by {
                                if t < j {
                                    assert(before_visited.contains(dv[t]));
                                    assert(before_visited.to_set().contains(dv[t]));
                                    assert(set_items(*visited).to_set().contains(dv[t]));
                                }
                            }
                            assert(!set_items(*visited).contains(node@)) by {
                                if set_items(*visited).contains(node@) {
                                    assert(v1[v0.len() as int] == node@);
                                    assert(v1.contains(node@));
                                }
                            }
                        }
                    },
                    Err(e) => {
                        proof {
                            assert forall|x: Seq<char>| #[trigger] set_items(*visited).contains(x) && v0.contains(x) implies d0.contains(x) by {
                                assert(v1[v0.index_of(x)] == x);
                                assert(v1.contains(x));
                            }
                        }
                        return Err(e);
                    },
                }
            },
            None => {},
        }
        j = j + 1;
    }
    proof {
        lemma_push_drop(v0, node@);
    }
    set_swap_remove(visiting, node);
    let ghost sv = set_items(*sorted);
    let ghost dprev = set_items(*visited);
    set_insert(visited, String::from_str(node));
    assert(set_items(*visited) == dprev.push(node@));
    assert(set_items(*visited)[dprev.len() as int] == node@);
    let added = set_insert(sorted, String::from_str(node));
    proof {
        let d1 = set_items(*visited);
        let s1 = set_items(*sorted);
        assert(!sv.contains(node@)) by {
            if sv.contains(node@) {
                assert(sv.to_set().contains(node@));
            }
        }
        assert(s1 == sv.push(node@));
        lemma_push_drop(sv, node@);
        assert(d1.to_set() =~= s1.to_set()) by {
            sv.lemma_push_to_set_commute(node@);
            dprev.lemma_push_to_set_commute(node@);
        }
        assert(topological(s1, g)) by {
            assert forall|i: int, d: Seq<char>|
                0 <= i < s1.len() && g.contains_key(#[trigger] s1[i]) && g[s1[i]].contains(d) && g.contains_key(d)
                implies #[trigger] s1.take(i).contains(d) by {
                if i < sv.len() {
                    assert(s1.take(i) =~= sv.take(i));
                    assert(s1[i] == sv[i]);
                } else {
                    assert(s1[i] == node@);
                    assert(s1.take(i) =~= sv);
                    assert(set_items(*deps).to_set().contains(d));
                    assert(dv.to_set().contains(d));
                    let t = choose|t: int| 0 <= t < dv.len() && dv[t] == d;
                    assert(k.contains(dv[t]));
                    assert(dprev.contains(d));
                    assert(dprev.to_set().contains(d));
                    assert(sv.to_set().contains(d));
                }
            }
        }
        assert forall|x: Seq<char>| #[trigger] d1.contains(x) && v0.contains(x) implies d0.contains(x) by {
            if x != node@ {
                let t = choose|t: int| 0 <= t < d1.len() && d1[t] == x;
                assert(t < dprev.len());
                assert(dprev[t] == x);
                assert(dprev.contains(x));
                assert(v1[v0.index_of(x)] == x);
                assert(v1.contains(x));
            }
        }
        assert(extends(s0, s1)) by {
            assert(s1.take(s0.len() as int) =~= sv.take(s0.len() as int));
        }
    }
    Ok(())
}

/// Depth-first visit of `node`, whose dependencies are `deps`: its
/// dependencies that are keys of `graph` are visited first, in their order, then
/// `node` is added to `visited` and `sorted`. Meeting a node that is still being
/// visited is a circular dependency.
pub fn visit_node(
    node: &str,
    deps: &IndexSet<String>,
    graph: &IndexMap<String, IndexSet<String>>,
    visited: &mut IndexSet<String>,
    visiting: &mut IndexSet<String>,
    sorted: &mut IndexSet<String>,
) -> (res: Result<(), String>)
    requires
        graph_deps(*graph).dom().finite(),
        graph_deps(*graph).contains_key(node@) ==> set_items(*deps) == graph_deps(*graph)[node@],
        search_ok(set_items(*old(visited)), set_items(*old(visiting)), set_items(*old(sorted))),
        topological(set_items(*old(sorted)), graph_deps(*graph)),
    ensures
        search_ok(set_items(*final(visited)), set_items(*final(visiting)), set_items(*final(sorted))),
        topological(set_items(*final(sorted)), graph_deps(*graph)),
        extends(set_items(*old(sorted)), set_items(*final(sorted))),
        set_items(*old(visited)).to_set().subset_of(set_items(*final(visited)).to_set()),
        forall|x: Seq<char>| #[trigger] set_items(*final(visited)).contains(x) && set_items(*old(visiting)).contains(x)
            ==> set_items(*old(visited)).contains(x),
        res is Ok ==> set_items(*final(visiting)) == set_items(*old(visiting)),
        res is Ok ==> set_items(*final(visited)).contains(node@),
        set_items(*old(visited)).contains(node@) && !set_items(*old(visiting)).contains(node@) ==> {
            &&& res is Ok
            &&& set_items(*final(visited)) == set_items(*old(visited))
            &&& set_items(*final(sorted)) == set_items(*old(sorted))
        },
        set_items(*old(visiting)).contains(node@) ==> (res matches Err(m) && m@ == "Circular dependency detected involving: "@ + node@),
        res matches Err(m) ==> m@.len() >= 40 && m@.subrange(0, 40) == "Circular dependency detected involving: "@,
        acyclic(graph_deps(*graph)) && stack_leads_to(graph_deps(*graph), set_items(*old(visiting)), node@) ==> res is Ok,
{
    visit(node, deps, graph, visited, visiting, sorted, None)
}

/// `visit_node`, visiting the dependencies that are not in `table_paths` first,
/// each group in increasing order.
pub fn visit_node_with_priority(
    node: &str,
    deps: &IndexSet<String>,
    graph: &IndexMap<String, IndexSet<String>>,
    visited: &mut IndexSet<String>,
    visiting: &mut IndexSet<String>,
    sorted: &mut IndexSet<String>,
    table_paths: &IndexSet<String>,
) -> (res: Result<(), String>)
    requires
        graph_deps(*graph).dom().finite(),
        graph_deps(*graph).contains_key(node@) ==> set_items(*deps) == graph_deps(*graph)[node@],
        search_ok(set_items(*old(visited)), set_items(*old(visiting)), set_items(*old(sorted))),
        topological(set_items(*old(sorted)), graph_deps(*graph)),
    ensures
        search_ok(set_items(*final(visited)), set_items(*final(visiting)), set_items(*final(sorted))),
        topological(set_items(*final(sorted)), graph_deps(*graph)),
        extends(set_items(*old(sorted)), set_items(*final(sorted))),
        set_items(*old(visited)).to_set().subset_of(set_items(*final(visited)).to_set()),
        forall|x: Seq<char>| #[trigger] set_items(*final(visited)).contains(x) && set_items(*old(visiting)).contains(x)
            ==> set_items(*old(visited)).contains(x),
        res is Ok ==> set_items(*final(visiting)) == set_items(*old(visiting)),
        res is Ok ==> set_items(*final(visited)).contains(node@),
        set_items(*old(visited)).contains(node@) && !set_items(*old(visiting)).contains(node@) ==> {
            &&& res is Ok
            &&& set_items(*final(visited)) == set_items(*old(visited))
            &&& set_items(*final(sorted)) == set_items(*old(sorted))
        },
        set_items(*old(visiting)).contains(node@) ==> (res matches Err(m) && m@ == "Circular dependency detected involving: "@ + node@),
        res matches Err(m) ==> m@.len() >= 40 && m@.subrange(0, 40) == "Circular dependency detected involving: "@,
        acyclic(graph_deps(*graph)) && stack_leads_to(graph_deps(*graph), set_items(*old(visiting)), node@) ==> res is Ok,
{
    visit(node, deps, graph, visited, visiting, sorted, Some(table_paths))
}

/// `a` goes before `b`: a non-table before a table, otherwise by `lex_less`.
pub open spec fn priority_before(a: Seq<char>, b: Seq<char>, tables: Seq<Seq<char>>) -> bool {
    (!tables.contains(a) && tables.contains(b)) || (tables.contains(a) == tables.contains(b) && lex_less(a, b))
}

proof fn lemma_priority_transitive(a: Seq<char>, b: Seq<char>, c: Seq<char>, t: Seq<Seq<char>>)
    requires
        priority_before(a, b, t),
        priority_before(b, c, t),
    ensures
        priority_before(a, c, t),
{
    if t.contains(a) == t.contains(b) && t.contains(b) == t.contains(c) {
        lemma_lex_transitive(a, b, c);
    }
}

proof fn lemma_priority_total(a: Seq<char>, b: Seq<char>, t: Seq<Seq<char>>)
    ensures
        a == b || priority_before(a, b, t) || priority_before(b, a, t),
{
    lemma_lex_total(a, b);
}

/// Whether `y` goes before `x` (whose table membership is `xt`).
fn goes_before(y: &str, x: &str, xt: bool, tables: &IndexSet<String>) -> (res: bool)
    requires
        xt == set_items(*tables).contains(x@),
    ensures
        res == priority_before(y@, x@, set_items(*tables)),
{
    let yt = set_contains(tables, y);
    (!yt && xt) || (yt == xt && str_less(y, x))
}

/// The items in priority order (see `priority_before`); the same items.
fn priority_sorted(items: Vec<String>, tables: &IndexSet<String>) -> (res: Vec<String>)
    ensures
        string_views(res@).to_set() == string_views(items@).to_set(),
        forall|a: int, b: int| 0 <= a < b < res@.len() ==> priority_before(#[trigger] string_views(res@)[a], #[trigger] string_views(res@)[b], set_items(*tables)),
{
    let ghost t = set_items(*tables);
    let mut out: Vec<String> = Vec::new();
    let mut i: usize = 0;
    assert(string_views(out@).to_set() =~= string_views(items@).take(0).to_set());
    while i < items.len()
        invariant
            i <= items@.len(),
            t == set_items(*tables),
            string_views(out@).to_set() == string_views(items@).take(i as int).to_set(),
            forall|a: int, b: int| 0 <= a < b < out@.len() ==> priority_before(#[trigger] string_views(out@)[a], #[trigger] string_views(out@)[b], t),
        decreases items@.len() - i,
    {
        let x = &items[i];
        let xt = set_contains(tables, x.as_str());
        let ghost s0 = string_views(out@);
        let mut k: usize = 0;
        while k < out.len() && goes_before(out[k].as_str(), x.as_str(), xt, tables)
            invariant
                k <= out@.len(),
                s0 == string_views(out@),
                t == set_items(*tables),
                xt == t.contains(x@),
                forall|j: int| 0 <= j < k ==> priority_before(#[trigger] s0[j], x@, t),
            decreases out@.len() - k,
        {
            k = k + 1;
        }
        if k < out.len() && str_eq(out[k].as_str(), x.as_str()) {
            proof {
                assert(s0[k as int] == x@);
                assert(s0.to_set().contains(x@));
                let sv = string_views(items@);
                assert(sv.take(i + 1) =~= sv.take(i as int).push(x@));
                sv.take(i as int).lemma_push_to_set_commute(x@);
                assert(s0.to_set().insert(x@) =~= s0.to_set());
            }
        } else {
            proof {
                if k < s0.len() {
                    lemma_priority_total(s0[k as int], x@, t);
                }
                assert forall|j: int| k <= j < s0.len() implies priority_before(x@, #[trigger] s0[j], t) by {
                    if j > k {
                        lemma_priority_transitive(x@, s0[k as int], s0[j], t);
                    }
                }
            }
            out.insert(k, crate::text::copy_string(x));
            proof {
                let s1 = string_views(out@);
                assert(s1 =~= s0.insert(k as int, x@));
                assert forall|a: int, b: int| 0 <= a < b < s1.len() implies priority_before(#[trigger] s1[a], #[trigger] s1[b], t) by {
                    if a < k && b > k {
                        lemma_priority_transitive(s1[a], x@, s1[b], t);
                    }
                }
                let sv = string_views(items@);
                assert(sv.take(i + 1) =~= sv.take(i as int).push(x@));
                sv.take(i as int).lemma_push_to_set_commute(x@);
                assert(s1.to_set() =~= s0.to_set().insert(x@)) by {
                    assert forall|y: Seq<char>| s1.to_set().contains(y) <==> s0.to_set().insert(x@).contains(y) by {
                        if s1.to_set().contains(y) {
                            let j = choose|j: int| 0 <= j < s1.len() && s1[j] == y;
                            if j < k {
                                assert(s0[j] == y);
                            } else if j > k {
                                assert(s0[j - 1] == y);
                            }
                        }
                        if s0.to_set().contains(y) {
                            let j = choose|j: int| 0 <= j < s0.len() && s0[j] == y;
                            if j < k {
                                assert(s1[j] == y);
                            } else {
                                assert(s1[j + 1] == y);
                            }
                        }
                        if y == x@ {
                            assert(s1[k as int] == y);
                        }
                    }
                }
            }
        }
        i = i + 1;
    }
    assert(string_views(items@).take(items@.len() as int) =~= string_views(items@));
    out
}

/// Item `i` of `r` is one of `deps`, or a dependency of an item added before
/// it (from index `from` on).
pub open spec fn justified(r: Seq<Seq<char>>, from: int, deps: Seq<Seq<char>>, g: Map<Seq<char>, Seq<Seq<char>>>, i: int) -> bool {
    ||| deps.contains(r[i])
    ||| exists|j: int| from <= j < i && g.contains_key(r[j]) && #[trigger] g[r[j]].contains(r[i])
}

proof fn lemma_justified_extend(r: Seq<Seq<char>>, s: Seq<Seq<char>>, from: int, deps: Seq<Seq<char>>, g: Map<Seq<char>, Seq<Seq<char>>>, i: int)
    requires
        extends(r, s),
        0 <= from,
        0 <= i < r.len(),
        justified(r, from, deps, g, i),
    ensures
        justified(s, from, deps, g, i),
{
    assert(s.take(r.len() as int)[i] == s[i]);
    if !deps.contains(r[i]) {
        let j = choose|j: int| from <= j < i && g.contains_key(r[j]) && #[trigger] g[r[j]].contains(r[i]);
        assert(s.take(r.len() as int)[j] == s[j]);
        assert(g[s[j]].contains(s[i]));
    }
}

/// Collect into `result` the dependencies in `deps` that are not tables and,
/// for each one newly added, its own dependencies, transitively. Items already
/// in `result` are not expanded again.
pub fn collect_transitive_deps(
    deps: &IndexSet<String>,
    graph: &IndexMap<String, IndexSet<String>>,
    table_paths: &IndexSet<String>,
    result: &mut IndexSet<String>,
)
    requires
        graph_deps(*graph).dom().finite(),
        set_items(*old(result)).no_duplicates(),
    ensures
        set_items(*final(result)).no_duplicates(),
        extends(set_items(*old(result)), set_items(*final(result))),
        forall|d: Seq<char>| #[trigger] set_items(*deps).contains(d) && !set_items(*table_paths).contains(d)
            ==> set_items(*final(result)).contains(d),
        forall|i: int| set_items(*old(result)).len() <= i < set_items(*final(result)).len()
            ==> !set_items(*table_paths).contains(#[trigger] set_items(*final(result))[i]),
        forall|i: int, d: Seq<char>|
            set_items(*old(result)).len() <= i < set_items(*final(result)).len()
            && graph_deps(*graph).contains_key(#[trigger] set_items(*final(result))[i])
            && graph_deps(*graph)[set_items(*final(result))[i]].contains(d) && !set_items(*table_paths).contains(d)
            ==> #[trigger] set_items(*final(result)).contains(d),
        forall|i: int| set_items(*old(result)).len() <= i < set_items(*final(result)).len()
            ==> #[trigger] justified(set_items(*final(result)), set_items(*old(result)).len() as int, set_items(*deps), graph_deps(*graph), i),
    decreases graph_deps(*graph).dom().difference(set_items(*old(result)).to_set()).len(),
{
    let ghost k = graph_deps(*graph).dom();
    let ghost r0 = set_items(*result);
    let ghost tp = set_items(*table_paths);
    let ghost g = graph_deps(*graph);
    let items = set_to_vec(deps);
    let ghost dv = string_views(items@);
    let mut j: usize = 0;
    proof {
        lemma_extends_refl(r0);
    }
    while j < items.len()
        invariant
            j <= items@.len(),
            dv == string_views(items@),
            dv == set_items(*deps),
            k == graph_deps(*graph).dom(),
            g == graph_deps(*graph),
            k.finite(),
            tp == set_items(*table_paths),
            r0 == set_items(*old(result)),
            set_items(*result).no_duplicates(),
            extends(r0, set_items(*result)),
            forall|t: int| 0 <= t < j && !tp.contains(#[trigger] dv[t]) ==> set_items(*result).contains(dv[t]),
            forall|i: int| r0.len() <= i < set_items(*result).len() ==> !tp.contains(#[trigger] set_items(*result)[i]),
            forall|i: int, d: Seq<char>|
                r0.len() <= i < set_items(*result).len() && g.contains_key(#[trigger] set_items(*result)[i])
                && g[set_items(*result)[i]].contains(d) && !tp.contains(d) ==> #[trigger] set_items(*result).contains(d),
            forall|i: int| r0.len() <= i < set_items(*result).len()
                ==> #[trigger] justified(set_items(*result), r0.len() as int, dv, g, i),
        decreases items@.len() - j,
    {
        let dep = &items[j];
        assert(dv[j as int] == dep@);
        if set_contains(table_paths, dep.as_str()) {
            j = j + 1;
            continue;
        }
        let ghost before = set_items(*result);
        let fresh = set_insert(result, crate::text::copy_string(dep));
        if fresh {
            proof {
                assert(set_items(*result)[before.len() as int] == dep@);
                lemma_extends_push(before, dep@);
                lemma_extends_trans(r0, before, set_items(*result));
                assert forall|i: int| 0 <= i < before.len() implies set_items(*result)[i] == before[i] by {
                    assert(set_items(*result).take(before.len() as int)[i] == before[i]);
                }
                let after = set_items(*result);
                assert forall|i: int| r0.len() <= i < after.len() implies #[trigger] justified(after, r0.len() as int, dv, g, i) by {
                    if i < before.len() {
                        lemma_justified_extend(before, after, r0.len() as int, dv, g, i);
                    } else {
                        assert(dv.contains(after[i]));
                    }
                }
            }
            match graph_get(graph, dep.as_str()) {
                Some(sub) => {
                    proof {
                        // the new item is a key not counted before, so fewer keys remain
                        let after = set_items(*result);
                        before.lemma_push_to_set_commute(dep@);
                        assert(k.difference(after.to_set()) =~= k.difference(before.to_set()).remove(dep@));
                        assert(!before.to_set().contains(dep@)) by {
                            if before.to_set().contains(dep@) {
                                assert(before.contains(dep@));
                            }
                        }
                        assert(k.difference(before.to_set()).contains(dep@));
                        assert(k.difference(before.to_set()).finite());
                        assert(r0.to_set().subset_of(before.to_set())) by {
                            assert forall|x: Seq<char>| r0.to_set().contains(x) implies before.to_set().contains(x) by {
                                let t = choose|t: int| 0 <= t < r0.len() && r0[t] == x;
                                assert(before.take(r0.len() as int)[t] == x);
                            }
                        }
                        assert(k.difference(before.to_set()).subset_of(k.difference(r0.to_set())));
                        vstd::set_lib::lemma_len_subset(k.difference(before.to_set()), k.difference(r0.to_set()));
                    }
                    let ghost mid = set_items(*result);
                    collect_transitive_deps(sub, graph, table_paths, result);
                    proof {
                        lemma_extends_trans(r0, mid, set_items(*result));
                        let fin = set_items(*result);
                        lemma_extends_trans(before, mid, fin);
                        assert(fin[before.len() as int] == dep@) by {
                            assert(fin.take(mid.len() as int)[before.len() as int] == fin[before.len() as int]);
                        }
                        assert forall|i: int| r0.len() <= i < fin.len() implies #[trigger] justified(fin, r0.len() as int, dv, g, i) by {
                            if i < mid.len() {
                                lemma_justified_extend(mid, fin, r0.len() as int, dv, g, i);
                            } else {
                                assert(justified(fin, mid.len() as int, set_items(*sub), g, i));
                                if set_items(*sub).contains(fin[i]) {
                                    let w = before.len() as int;
                                    assert(g.contains_key(fin[w]) && g[fin[w]].contains(fin[i]));
                                } else {
                                    let w = choose|w: int| mid.len() <= w < i && g.contains_key(fin[w]) && #[trigger] g[fin[w]].contains(fin[i]);
                                    assert(g.contains_key(fin[w]) && g[fin[w]].contains(fin[i]));
                                }
                            }
                        }
                        assert forall|i: int, d: Seq<char>|
                            r0.len() <= i < fin.len() && g.contains_key(#[trigger] fin[i])
                            && g[fin[i]].contains(d) && !tp.contains(d) implies #[trigger] fin.contains(d) by {
                            if i < mid.len() {
                                assert(fin[i] == mid[i]) by {
                                    assert(fin.take(mid.len() as int)[i] == fin[i]);
                                }
                                if i < before.len() {
                                    assert(mid[i] == before[i]);
                                    assert(before.contains(d));
                                    lemma_extends_contains(before, fin, d);
                                } else {
                                    assert(fin[i] == dep@);
                                    assert(set_items(*sub).contains(d));
                                }
                            }
                        }
                        assert forall|i: int| r0.len() <= i < fin.len() implies !tp.contains(#[trigger] fin[i]) by {
                            if i < mid.len() {
                                assert(fin[i] == mid[i]) by {
                                    assert(fin.take(mid.len() as int)[i] == fin[i]);
                                }
                            }
                        }
                    }
                },
                None => {
                    proof {
                        let after = set_items(*result);
                        assert forall|i: int, d: Seq<char>|
                            r0.len() <= i < after.len() && g.contains_key(#[trigger] after[i])
                            && g[after[i]].contains(d) && !tp.contains(d) implies #[trigger] after.contains(d) by {
                            if i < before.len() {
                                assert(after[i] == before[i]);
                                assert(before.contains(d));
                                lemma_extends_contains(before, after, d);
                            }
                        }
                    }
                },
            }
        }
        j = j + 1;
    }
}


// ----- parallel batches -----

/// Whether `s` ends with `p`.
pub open spec fn ends_with(s: Seq<char>, p: Seq<char>) -> bool {
    p.len() <= s.len() && s.skip(s.len() - p.len()) == p
}

/// Whether a dependency names a part of a table: a column row, its data, or
/// its skip or clear flag.
pub open spec fn table_part(d: Seq<char>) -> bool {
    ||| contains_seq(d, "/$table/"@)
    ||| contains_seq(d, "/$datas/"@)
    ||| ends_with(d, "/$skip"@)
    ||| ends_with(d, "/$clear"@)
}

/// The first of `tps`, from index `k` on, that `d` starts with.
pub open spec fn first_prefix(tps: Seq<Seq<char>>, d: Seq<char>, k: int) -> Option<Seq<char>>
    decreases tps.len() - k,
{
    if k < 0 || k >= tps.len() {
        None
    } else if starts_with(d, tps[k]) {
        Some(tps[k])
    } else {
        first_prefix(tps, d, k + 1)
    }
}

/// The batch of `x`, if it is among the first `lv.len()` sorted nodes.
pub open spec fn placed(sorted: Seq<Seq<char>>, lv: Seq<nat>, x: Seq<char>) -> Option<nat> {
    if sorted.take(lv.len() as int).contains(x) {
        Some(lv[sorted.index_of(x)])
    } else {
        None
    }
}

/// The batch that a dependency holds a node back to: its own if it is a sorted
/// node placed already, else that of the first table that a table part lies in.
pub open spec fn dep_batch(sorted: Seq<Seq<char>>, tps: Seq<Seq<char>>, lv: Seq<nat>, d: Seq<char>) -> Option<nat> {
    if sorted.contains(d) {
        placed(sorted, lv, d)
    } else if table_part(d) {
        match first_prefix(tps, d, 0) {
            Some(t) => placed(sorted, lv, t),
            None => None,
        }
    } else {
        None
    }
}

/// The larger of two optional batches.
pub open spec fn opt_max(a: Option<nat>, b: Option<nat>) -> Option<nat> {
    match (a, b) {
        (Some(x), Some(y)) => Some(if x >= y { x } else { y }),
        (Some(x), None) => Some(x),
        (None, _) => b,
    }
}

/// The latest batch among those of `deps`.
pub open spec fn max_batch(sorted: Seq<Seq<char>>, tps: Seq<Seq<char>>, lv: Seq<nat>, deps: Seq<Seq<char>>) -> Option<nat>
    decreases deps.len(),
{
    if deps.len() == 0 {
        None
    } else {
        opt_max(max_batch(sorted, tps, lv, deps.drop_last()), dep_batch(sorted, tps, lv, deps.last()))
    }
}

/// The batch of node `i`, given the batches `lv` of the nodes before it.
pub open spec fn level_of(
    sorted: Seq<Seq<char>>,
    g: Map<Seq<char>, Seq<Seq<char>>>,
    tps: Seq<Seq<char>>,
    lv: Seq<nat>,
    i: int,
) -> nat {
    let m = if g.contains_key(sorted[i]) { max_batch(sorted, tps, lv, g[sorted[i]]) } else { None };
    match m {
        Some(b) => b + 1,
        None => 0,
    }
}

/// The batches of the first `n` sorted nodes.
pub open spec fn levels(sorted: Seq<Seq<char>>, g: Map<Seq<char>, Seq<Seq<char>>>, tps: Seq<Seq<char>>, n: nat) -> Seq<nat>
    decreases n,
{
    if n == 0 {
        Seq::empty()
    } else {
        let p = levels(sorted, g, tps, (n - 1) as nat);
        p.push(level_of(sorted, g, tps, p, n - 1))
    }
}

/// `bs` with empty batches added until it has at least `n`.
pub open spec fn padded(bs: Seq<Seq<Seq<char>>>, n: nat) -> Seq<Seq<Seq<char>>>
    decreases n - bs.len(),
{
    if bs.len() >= n {
        bs
    } else {
        padded(bs.push(Seq::empty()), n)
    }
}

/// `bs` with `x` added at the end of batch `b`.
pub open spec fn put(bs: Seq<Seq<Seq<char>>>, b: nat, x: Seq<char>) -> Seq<Seq<Seq<char>>> {
    let p = padded(bs, b + 1);
    p.update(b as int, p[b as int].push(x))
}

/// The first `n` sorted nodes, each put in its batch in turn.
pub open spec fn grouped(sorted: Seq<Seq<char>>, lv: Seq<nat>, n: nat) -> Seq<Seq<Seq<char>>>
    decreases n,
{
    if n == 0 {
        Seq::empty()
    } else {
        put(grouped(sorted, lv, (n - 1) as nat), lv[n - 1], sorted[n - 1])
    }
}

/// The names in a list of batches.
pub open spec fn batch_views(bs: Seq<Vec<String>>) -> Seq<Seq<Seq<char>>> {
    Seq::new(bs.len(), |i: int| string_views(bs[i]@))
}

/// Whether an optional batch, if any, comes before `bound`.
pub open spec fn below(o: Option<nat>, bound: nat) -> bool {
    match o {
        Some(v) => v < bound,
        None => true,
    }
}

pub open spec fn opt_nat(o: Option<usize>) -> Option<nat> {
    match o {
        Some(v) => Some(v as nat),
        None => None,
    }
}

proof fn lemma_levels_prefix(sorted: Seq<Seq<char>>, g: Map<Seq<char>, Seq<Seq<char>>>, tps: Seq<Seq<char>>, n: nat, m: nat)
    requires
        m <= n,
    ensures
        levels(sorted, g, tps, n).len() == n,
        levels(sorted, g, tps, n).take(m as int) == levels(sorted, g, tps, m),
    decreases n,
{
    if n > 0 {
        if m < n {
            lemma_levels_prefix(sorted, g, tps, (n - 1) as nat, m);
            let p = levels(sorted, g, tps, (n - 1) as nat);
            assert(levels(sorted, g, tps, n).take(m as int) =~= p.take(m as int));
        } else {
            lemma_levels_prefix(sorted, g, tps, (n - 1) as nat, 0);
            assert(levels(sorted, g, tps, n).take(m as int) =~= levels(sorted, g, tps, n));
        }
    } else {
        assert(levels(sorted, g, tps, n).take(m as int) =~= levels(sorted, g, tps, m));
    }
}

proof fn lemma_max_batch_bound(sorted: Seq<Seq<char>>, tps: Seq<Seq<char>>, lv: Seq<nat>, deps: Seq<Seq<char>>, bound: nat)
    requires
        forall|d: Seq<char>| below(#[trigger] dep_batch(sorted, tps, lv, d), bound),
    ensures
        below(max_batch(sorted, tps, lv, deps), bound),
    decreases deps.len(),
{
    if deps.len() > 0 {
        lemma_max_batch_bound(sorted, tps, lv, deps.drop_last(), bound);
        let _ = dep_batch(sorted, tps, lv, deps.last());
    }
}

proof fn lemma_max_batch_above(sorted: Seq<Seq<char>>, tps: Seq<Seq<char>>, lv: Seq<nat>, deps: Seq<Seq<char>>, d: Seq<char>, v: nat)
    requires
        deps.contains(d),
        dep_batch(sorted, tps, lv, d) == Some(v),
    ensures
        max_batch(sorted, tps, lv, deps) matches Some(m) && v <= m,
    decreases deps.len(),
{
    if deps.last() != d {
        let k = choose|k: int| 0 <= k < deps.len() && deps[k] == d;
        assert(deps.drop_last()[k] == d);
        lemma_max_batch_above(sorted, tps, lv, deps.drop_last(), d, v);
    }
}

/// Each batch is no later than the node's position: it fits a `usize`.
proof fn lemma_levels_bounded(sorted: Seq<Seq<char>>, g: Map<Seq<char>, Seq<Seq<char>>>, tps: Seq<Seq<char>>, n: nat)
    requires
        sorted.no_duplicates(),
        n <= sorted.len(),
    ensures
        forall|j: int| 0 <= j < n ==> #[trigger] levels(sorted, g, tps, n)[j] <= j,
    decreases n,
{
    if n > 0 {
        let p = levels(sorted, g, tps, (n - 1) as nat);
        lemma_levels_bounded(sorted, g, tps, (n - 1) as nat);
        lemma_levels_prefix(sorted, g, tps, (n - 1) as nat, 0);
        assert forall|d: Seq<char>| below(#[trigger] dep_batch(sorted, tps, p, d), (n - 1) as nat) by {
            lemma_placed_bound(sorted, p, d);
            match first_prefix(tps, d, 0) {
                Some(t) => lemma_placed_bound(sorted, p, t),
                None => {},
            }
        }
        if g.contains_key(sorted[n - 1]) {
            lemma_max_batch_bound(sorted, tps, p, g[sorted[n - 1]], (n - 1) as nat);
        }
        assert forall|j: int| 0 <= j < n implies #[trigger] levels(sorted, g, tps, n)[j] <= j by {
            if j < n - 1 {
                assert(levels(sorted, g, tps, n)[j] == p[j]);
            }
        }
    }
}

proof fn lemma_placed_bound(sorted: Seq<Seq<char>>, lv: Seq<nat>, x: Seq<char>)
    requires
        sorted.no_duplicates(),
        lv.len() <= sorted.len(),
        forall|j: int| 0 <= j < lv.len() ==> #[trigger] lv[j] <= j,
    ensures
        placed(sorted, lv, x) matches Some(v) ==> v < lv.len(),
        placed(sorted, lv, x) is Some ==> 0 <= sorted.index_of(x) < lv.len(),
{
    if sorted.take(lv.len() as int).contains(x) {
        let k = choose|k: int| 0 <= k < lv.len() && sorted.take(lv.len() as int)[k] == x;
        assert(sorted[k] == x);
        let i = sorted.index_of(x);
        assert(0 <= i < sorted.len() && sorted[i] == x);
        assert(i == k);
    }
}


/// The batches of a list of levels, as naturals.
pub open spec fn nat_seq(s: Seq<usize>) -> Seq<nat> {
    Seq::new(s.len(), |i: int| s[i] as nat)
}

/// Exec test of `ends_with`.
pub fn chars_end_with(s: &Vec<char>, p: &Vec<char>) -> (res: bool)
    ensures
        res == ends_with(s@, p@),
{
    if p.len() > s.len() {
        return false;
    }
    let r = chars_occur_at(s, p, s.len() - p.len());
    assert(s@.skip(s@.len() - p@.len()) =~= s@.subrange(s@.len() - p@.len(), s@.len() as int));
    r
}

/// Whether a dependency names a part of a table.
pub fn is_table_part(d: &str) -> (res: bool)
    ensures
        res == table_part(d@),
{
    let s = to_chars(d);
    let table = to_chars("/$table/");
    if chars_contain(&s, &table) {
        return true;
    }
    let datas = to_chars("/$datas/");
    if chars_contain(&s, &datas) {
        return true;
    }
    let skip = to_chars("/$skip");
    if chars_end_with(&s, &skip) {
        return true;
    }
    let clear = to_chars("/$clear");
    chars_end_with(&s, &clear)
}

/// The position of the first table path that `d` starts with.
fn first_table_prefix(tps: &Vec<String>, d: &str) -> (res: Option<usize>)
    ensures
        match res {
            Some(k) => k < tps@.len() && first_prefix(string_views(tps@), d@, 0) == Some(tps@[k as int]@),
            None => first_prefix(string_views(tps@), d@, 0) is None,
        },
{
    let ghost t = string_views(tps@);
    let ds = to_chars(d);
    let mut k: usize = 0;
    while k < tps.len()
        invariant
            k <= tps@.len(),
            ds@ == d@,
            t == string_views(tps@),
            first_prefix(t, d@, 0) == first_prefix(t, d@, k as int),
        decreases tps@.len() - k,
    {
        let c = to_chars(tps[k].as_str());
        assert(t[k as int] == tps@[k as int]@);
        if chars_start_with(&ds, &c) {
            return Some(k);
        }
        k = k + 1;
    }
    None
}

/// The batch of `x` if it is one of the nodes placed so far.
fn placed_batch(sorted: &IndexSet<String>, lv: &Vec<usize>, x: &str) -> (res: Option<usize>)
    requires
        lv@.len() <= set_items(*sorted).len(),
        set_items(*sorted).no_duplicates(),
    ensures
        opt_nat(res) == placed(set_items(*sorted), nat_seq(lv@), x@),
{
    let ghost s = set_items(*sorted);
    let ghost n = lv@.len() as int;
    match set_index_of(sorted, x) {
        Some(k) => {
            proof {
                let i = s.index_of(x@);
                assert(s.contains(x@));
                assert(s[i] == x@);
            }
            if k < lv.len() {
                assert(s.take(n)[k as int] == x@);
                Some(lv[k])
            } else {
                proof {
                    if s.take(n).contains(x@) {
                        let j = choose|j: int| 0 <= j < n && s.take(n)[j] == x@;
                        assert(s[j] == x@);
                    }
                }
                None
            }
        },
        None => {
            proof {
                if s.take(n).contains(x@) {
                    let j = choose|j: int| 0 <= j < n && s.take(n)[j] == x@;
                    assert(s[j] == x@);
                }
            }
            None
        },
    }
}

/// The batch that dependency `d` holds its node back to.
fn dep_batch_of(sorted: &IndexSet<String>, tps: &Vec<String>, lv: &Vec<usize>, d: &str) -> (res: Option<usize>)
    requires
        lv@.len() <= set_items(*sorted).len(),
        set_items(*sorted).no_duplicates(),
    ensures
        opt_nat(res) == dep_batch(set_items(*sorted), string_views(tps@), nat_seq(lv@), d@),
{
    if set_contains(sorted, d) {
        placed_batch(sorted, lv, d)
    } else if is_table_part(d) {
        match first_table_prefix(tps, d) {
            Some(k) => placed_batch(sorted, lv, tps[k].as_str()),
            None => None,
        }
    } else {
        None
    }
}

/// Group sorted nodes into batches that can be evaluated in parallel: a node
/// goes in the batch after the latest batch of its dependencies placed before
/// it (a table part counting as its table), or in the first batch if none is.
pub fn compute_parallel_batches(
    sorted: &IndexSet<String>,
    graph: &IndexMap<String, IndexSet<String>>,
    table_paths: &IndexSet<String>,
) -> (res: Vec<Vec<String>>)
    ensures
        batch_views(res@) == grouped(
            set_items(*sorted),
            levels(set_items(*sorted), graph_deps(*graph), set_items(*table_paths), set_items(*sorted).len()),
            set_items(*sorted).len(),
        ),
{
    let nodes = set_to_vec(sorted);
    let tps = set_to_vec(table_paths);
    let ghost s = set_items(*sorted);
    let ghost t = set_items(*table_paths);
    let ghost g = graph_deps(*graph);
    let ghost full = levels(s, g, t, s.len());
    let mut lv: Vec<usize> = Vec::new();
    let mut batches: Vec<Vec<String>> = Vec::new();
    let mut i: usize = 0;
    proof {
        assert(nat_seq(lv@) =~= levels(s, g, t, 0));
        assert(batch_views(batches@) =~= grouped(s, full, 0));
    }
    while i < nodes.len()
        invariant
            i <= nodes@.len(),
            string_views(nodes@) == s,
            s.no_duplicates(),
            string_views(tps@) == t,
            g == graph_deps(*graph),
            s == set_items(*sorted),
            full == levels(s, g, t, s.len()),
            nat_seq(lv@) == levels(s, g, t, i as nat),
            batch_views(batches@) == grouped(s, full, i as nat),
        decreases nodes@.len() - i,
    {
        let ghost cur = levels(s, g, t, i as nat);
        proof {
            lemma_levels_prefix(s, g, t, i as nat, 0);
            lemma_levels_bounded(s, g, t, i as nat);
            assert forall|d: Seq<char>| below(#[trigger] dep_batch(s, t, cur, d), i as nat) by {
                lemma_placed_bound(s, cur, d);
                match first_prefix(t, d, 0) {
                    Some(tp) => lemma_placed_bound(s, cur, tp),
                    None => {},
                }
            }
        }
        let node = &nodes[i];
        assert(s[i as int] == node@);
        let best: Option<usize> = match graph_get(graph, node.as_str()) {
            Some(deps) => {
                let dv = set_to_vec(deps);
                let ghost ds = string_views(dv@);
                let mut best: Option<usize> = None;
                let mut k: usize = 0;
                assert(ds.take(0) =~= Seq::<Seq<char>>::empty());
                while k < dv.len()
                    invariant
                        k <= dv@.len(),
                        ds == string_views(dv@),
                        s == set_items(*sorted),
                        s.no_duplicates(),
                        t == string_views(tps@),
                        nat_seq(lv@) == cur,
                        cur.len() == i,
                        i <= s.len(),
                        opt_nat(best) == max_batch(s, t, cur, ds.take(k as int)),
                    decreases dv@.len() - k,
                {
                    let b = dep_batch_of(sorted, &tps, &lv, dv[k].as_str());
                    assert(ds.take(k + 1).drop_last() =~= ds.take(k as int));
                    assert(ds.take(k + 1).last() == dv@[k as int]@);
                    best = match best {
                        Some(a) => match b {
                            Some(c) => Some(if a >= c { a } else { c }),
                            None => Some(a),
                        },
                        None => b,
                    };
                    k = k + 1;
                }
                assert(ds.take(dv@.len() as int) =~= ds);
                proof {
                    lemma_max_batch_bound(s, t, cur, ds, i as nat);
                }
                best
            },
            None => None,
        };
        let b: usize = match best {
            Some(x) => x + 1,
            None => 0,
        };
        proof {
            lemma_levels_prefix(s, g, t, s.len(), (i + 1) as nat);
            assert(full[i as int] == levels(s, g, t, (i + 1) as nat)[i as int]);
            assert(b == full[i as int]);
        }
        let ghost before = batch_views(batches@);
        while batches.len() <= b
            invariant
                padded(batch_views(batches@), b as nat + 1) == padded(before, b as nat + 1),
            decreases b + 1 - batches@.len(),
        {
            let ghost old_views = batch_views(batches@);
            let fresh_batch: Vec<String> = Vec::new();
            assert(string_views(fresh_batch@) =~= Seq::<Seq<char>>::empty());
            batches.push(fresh_batch);
            assert(batch_views(batches@) =~= old_views.push(Seq::empty()));
        }
        let ghost padded_views = batch_views(batches@);
        assert(padded_views == padded(before, b as nat + 1));
        let ghost row = batches@[b as int];
        batches[b].push(copy_string(node));
        proof {
            assert(string_views(batches@[b as int]@) =~= string_views(row@).push(node@));
            assert(batch_views(batches@) =~= padded_views.update(b as int, padded_views[b as int].push(node@)));
        }
        lv.push(b);
        assert(nat_seq(lv@) =~= cur.push(b as nat));
        i = i + 1;
    }
    proof {
        assert(s.len() == nodes@.len());
    }
    batches
}


/// A node's batch comes after the batch of each dependency that was sorted
/// before it, and after that of the table that a table-part dependency lies
/// in: batches only wait on earlier batches.
pub proof fn law_batch_after_dependency(
    sorted: Seq<Seq<char>>,
    g: Map<Seq<char>, Seq<Seq<char>>>,
    tps: Seq<Seq<char>>,
    i: int,
    j: int,
    d: Seq<char>,
)
    requires
        sorted.no_duplicates(),
        0 <= j < i < sorted.len(),
        g.contains_key(sorted[i]),
        g[sorted[i]].contains(d),
        sorted[j] == d || (!sorted.contains(d) && table_part(d) && first_prefix(tps, d, 0) == Some(sorted[j])),
    ensures
        levels(sorted, g, tps, sorted.len())[j] < levels(sorted, g, tps, sorted.len())[i],
{
    let n = sorted.len();
    let cur = levels(sorted, g, tps, i as nat);
    lemma_levels_prefix(sorted, g, tps, n, (i + 1) as nat);
    lemma_levels_prefix(sorted, g, tps, n, i as nat);
    assert(levels(sorted, g, tps, n)[j] == cur[j]) by {
        assert(levels(sorted, g, tps, n).take(i)[j] == cur[j]);
    }
    assert(levels(sorted, g, tps, n)[i] == levels(sorted, g, tps, (i + 1) as nat)[i]) by {
        assert(levels(sorted, g, tps, n).take(i + 1)[i] == levels(sorted, g, tps, (i + 1) as nat)[i]);
    }
    let x = sorted[j];
    assert(sorted.take(i)[j] == x);
    let k = sorted.index_of(x);
    assert(sorted.contains(x));
    assert(sorted[k] == x);
    assert(k == j);
    assert(placed(sorted, cur, x) == Some(cur[j]));
    assert(dep_batch(sorted, tps, cur, d) == Some(cur[j]));
    lemma_max_batch_above(sorted, tps, cur, g[sorted[i]], d, cur[j]);
}


// ----- ordering in phases -----

/// Every non-table dependency of an item of `r` that is a node is in `r` too.
pub open spec fn closed_under_deps(r: Seq<Seq<char>>, g: Map<Seq<char>, Seq<Seq<char>>>, tps: Seq<Seq<char>>) -> bool {
    forall|i: int, d: Seq<char>|
        0 <= i < r.len() && g.contains_key(#[trigger] r[i]) && g[r[i]].contains(d) && !tps.contains(d)
            ==> #[trigger] r.contains(d)
}

/// The non-table nodes that the tables depend on, transitively: phase one.
fn table_dependencies(graph: &IndexMap<String, IndexSet<String>>, table_paths: &IndexSet<String>) -> (res: IndexSet<String>)
    requires
        graph_deps(*graph).dom().finite(),
    ensures
        set_items(res).no_duplicates(),
        closed_under_deps(set_items(res), graph_deps(*graph), set_items(*table_paths)),
        forall|i: int| 0 <= i < set_items(res).len() ==> !set_items(*table_paths).contains(#[trigger] set_items(res)[i]),
        forall|t: Seq<char>, d: Seq<char>|
            set_items(*table_paths).contains(t) && graph_deps(*graph).contains_key(t) && #[trigger] graph_deps(*graph)[t].contains(d)
            && !set_items(*table_paths).contains(d) ==> #[trigger] set_items(res).contains(d),
{
    let ghost g = graph_deps(*graph);
    let ghost tp = set_items(*table_paths);
    let mut found = set_new();
    let tv = set_to_vec(table_paths);
    let mut j: usize = 0;
    assert(set_items(found) =~= Seq::<Seq<char>>::empty());
    while j < tv.len()
        invariant
            j <= tv@.len(),
            string_views(tv@) == tp,
            tp == set_items(*table_paths),
            g == graph_deps(*graph),
            g.dom().finite(),
            set_items(found).no_duplicates(),
            closed_under_deps(set_items(found), g, tp),
            forall|i: int| 0 <= i < set_items(found).len() ==> !tp.contains(#[trigger] set_items(found)[i]),
            forall|q: int, d: Seq<char>|
                0 <= q < j && g.contains_key(#[trigger] tp[q]) && g[tp[q]].contains(d) && !tp.contains(d)
                    ==> #[trigger] set_items(found).contains(d),
        decreases tv@.len() - j,
    {
        assert(tp[j as int] == tv@[j as int]@);
        match graph_get(graph, tv[j].as_str()) {
            Some(deps) => {
                let ghost before = set_items(found);
                collect_transitive_deps(deps, graph, table_paths, &mut found);
                proof {
                    let after = set_items(found);
                    assert forall|i: int, d: Seq<char>|
                        0 <= i < after.len() && g.contains_key(#[trigger] after[i]) && g[after[i]].contains(d) && !tp.contains(d)
                            implies #[trigger] after.contains(d) by {
                        if i < before.len() {
                            assert(after.take(before.len() as int)[i] == after[i]);
                            assert(before[i] == after[i]);
                            assert(before.contains(d));
                            lemma_extends_contains(before, after, d);
                        }
                    }
                    assert forall|i: int| 0 <= i < after.len() implies !tp.contains(#[trigger] after[i]) by {
                        if i < before.len() {
                            assert(after.take(before.len() as int)[i] == after[i]);
                            assert(before[i] == after[i]);
                        }
                    }
                    assert forall|q: int, d: Seq<char>|
                        0 <= q < j + 1 && g.contains_key(#[trigger] tp[q]) && g[tp[q]].contains(d) && !tp.contains(d)
                            implies #[trigger] after.contains(d) by {
                        if q < j {
                            assert(before.contains(d));
                            lemma_extends_contains(before, after, d);
                        }
                    }
                }
            },
            None => {},
        }
        j = j + 1;
    }
    // One more pass over what was found adds nothing: the set is already closed.
    let mut expanded = true;
    while expanded
        invariant
            tp == set_items(*table_paths),
            g == graph_deps(*graph),
            set_items(found).no_duplicates(),
            closed_under_deps(set_items(found), g, tp),
            forall|i: int| 0 <= i < set_items(found).len() ==> !tp.contains(#[trigger] set_items(found)[i]),
            forall|q: int, d: Seq<char>|
                0 <= q < tp.len() && g.contains_key(#[trigger] tp[q]) && g[tp[q]].contains(d) && !tp.contains(d)
                    ==> #[trigger] set_items(found).contains(d),
        decreases (if expanded { 1int } else { 0int }),
    {
        expanded = false;
        let current = set_to_vec(&found);
        let ghost r = set_items(found);
        let mut k: usize = 0;
        while k < current.len()
            invariant
                k <= current@.len(),
                string_views(current@) == r,
                r == set_items(found),
                tp == set_items(*table_paths),
                g == graph_deps(*graph),
                closed_under_deps(r, g, tp),
                !expanded,
            decreases current@.len() - k,
        {
            assert(r[k as int] == current@[k as int]@);
            match graph_get(graph, current[k].as_str()) {
                Some(sub) => {
                    let sv = set_to_vec(sub);
                    let mut m: usize = 0;
                    while m < sv.len()
                        invariant
                            m <= sv@.len(),
                            string_views(sv@) == g[r[k as int]],
                            g.contains_key(r[k as int]),
                            0 <= k < r.len(),
                            r == set_items(found),
                            tp == set_items(*table_paths),
                            g == graph_deps(*graph),
                            closed_under_deps(r, g, tp),
                            !expanded,
                        decreases sv@.len() - m,
                    {
                        assert(g[r[k as int]][m as int] == sv@[m as int]@);
                        if !set_contains(table_paths, sv[m].as_str()) {
                            assert(g[r[k as int]].contains(sv@[m as int]@));
                            assert(r.contains(sv@[m as int]@));
                            if set_insert(&mut found, copy_string(&sv[m])) {
                                expanded = true;
                            }
                        }
                        m = m + 1;
                    }
                },
                None => {},
            }
            k = k + 1;
        }
    }
    proof {
        let r = set_items(found);
        assert forall|t: Seq<char>, d: Seq<char>|
            tp.contains(t) && g.contains_key(t) && #[trigger] g[t].contains(d) && !tp.contains(d)
                implies #[trigger] r.contains(d) by {
            let q = choose|q: int| 0 <= q < tp.len() && tp[q] == t;
        }
    }
    found
}


/// The number of dependencies of a node (none if it is not one).
pub open spec fn dep_count(g: Map<Seq<char>, Seq<Seq<char>>>, x: Seq<char>) -> nat {
    if g.contains_key(x) { g[x].len() } else { 0 }
}

/// Fewer dependencies first, then by name.
pub open spec fn fewer_deps_before(g: Map<Seq<char>, Seq<Seq<char>>>, a: Seq<char>, b: Seq<char>) -> bool {
    dep_count(g, a) < dep_count(g, b) || (dep_count(g, a) == dep_count(g, b) && lex_less(a, b))
}

/// The order of tables: one that the other depends on first; else fewer
/// dependencies first, then by name.
pub open spec fn table_before(g: Map<Seq<char>, Seq<Seq<char>>>, a: Seq<char>, b: Seq<char>) -> bool {
    if g.contains_key(a) && g[a].contains(b) {
        false
    } else if g.contains_key(b) && g[b].contains(a) {
        true
    } else {
        fewer_deps_before(g, a, b)
    }
}

fn dep_count_of(graph: &IndexMap<String, IndexSet<String>>, x: &str) -> (res: usize)
    ensures
        res == dep_count(graph_deps(*graph), x@),
{
    match graph_get(graph, x) {
        Some(d) => set_len(d),
        None => 0,
    }
}

fn depends_on(graph: &IndexMap<String, IndexSet<String>>, a: &str, b: &str) -> (res: bool)
    ensures
        res == (graph_deps(*graph).contains_key(a@) && graph_deps(*graph)[a@].contains(b@)),
{
    match graph_get(graph, a) {
        Some(d) => set_contains(d, b),
        None => false,
    }
}

/// Whether `a` goes before `b`: by `table_before` for tables, else by
/// `fewer_deps_before`.
fn goes_first(graph: &IndexMap<String, IndexSet<String>>, a: &str, b: &str, tables: bool) -> (res: bool)
    ensures
        res == (if tables { table_before(graph_deps(*graph), a@, b@) } else { fewer_deps_before(graph_deps(*graph), a@, b@) }),
{
    if tables {
        if depends_on(graph, a, b) {
            return false;
        } else if depends_on(graph, b, a) {
            return true;
        }
    }
    let ca = dep_count_of(graph, a);
    let cb = dep_count_of(graph, b);
    ca < cb || (ca == cb && str_less(a, b))
}

/// `s` with `x` inserted at `p`: the same items and `x`, each once.
proof fn lemma_insert_distinct(s: Seq<Seq<char>>, p: int, x: Seq<char>)
    requires
        s.no_duplicates(),
        !s.contains(x),
        0 <= p <= s.len(),
    ensures
        s.insert(p, x).no_duplicates(),
        forall|y: Seq<char>| #[trigger] s.insert(p, x).contains(y) <==> (s.contains(y) || y == x),
{
    let t = s.insert(p, x);
    s.insert_ensures(p, x);
    assert forall|a: int, b: int| 0 <= a < t.len() && 0 <= b < t.len() && a != b implies t[a] != t[b] by {
        let ia = if a < p { a } else if a == p { -1 } else { a - 1 };
        let ib = if b < p { b } else if b == p { -1 } else { b - 1 };
        if ia >= 0 {
            assert(t[a] == s[ia]);
        }
        if ib >= 0 {
            assert(t[b] == s[ib]);
        }
        if ia < 0 && ib >= 0 {
            assert(s.contains(t[b]));
        }
        if ib < 0 && ia >= 0 {
            assert(s.contains(t[a]));
        }
    }
    assert forall|y: Seq<char>| #[trigger] t.contains(y) <==> (s.contains(y) || y == x) by {
        if t.contains(y) {
            let a = choose|a: int| 0 <= a < t.len() && t[a] == y;
            if a < p {
                assert(s[a] == y);
            } else if a > p {
                assert(s[a - 1] == y);
            }
        }
        if s.contains(y) {
            let a = choose|a: int| 0 <= a < s.len() && s[a] == y;
            if a < p {
                assert(t[a] == y);
            } else {
                assert(t[a + 1] == y);
            }
        }
        if y == x {
            assert(t[p] == y);
        }
    }
}

proof fn lemma_string_views_insert(s: Seq<String>, p: int, x: String)
    requires
        0 <= p <= s.len(),
    ensures
        string_views(s.insert(p, x)) == string_views(s).insert(p, x@),
{
    s.insert_ensures(p, x);
    string_views(s).insert_ensures(p, x@);
    assert(string_views(s.insert(p, x)) =~= string_views(s).insert(p, x@));
}

/// The nodes in order: each goes in before the first one that it goes before.
fn sort_nodes(nodes: &Vec<String>, graph: &IndexMap<String, IndexSet<String>>, tables: bool) -> (res: Vec<String>)
    requires
        string_views(nodes@).no_duplicates(),
    ensures
        string_views(res@).no_duplicates(),
        forall|y: Seq<char>| #[trigger] string_views(res@).contains(y) <==> string_views(nodes@).contains(y),
{
    let ghost ns = string_views(nodes@);
    let mut out: Vec<String> = Vec::new();
    let mut i: usize = 0;
    assert(string_views(out@) =~= Seq::<Seq<char>>::empty());
    while i < nodes.len()
        invariant
            i <= nodes@.len(),
            ns == string_views(nodes@),
            ns.no_duplicates(),
            string_views(out@).no_duplicates(),
            forall|y: Seq<char>| #[trigger] string_views(out@).contains(y) <==> ns.take(i as int).contains(y),
        decreases nodes@.len() - i,
    {
        let x = &nodes[i];
        let mut p: usize = 0;
        while p < out.len()
            invariant
                p <= out@.len(),
            decreases out@.len() - p,
        {
            if goes_first(graph, x.as_str(), out[p].as_str(), tables) {
                break;
            }
            p = p + 1;
        }
        proof {
            assert(ns[i as int] == x@);
            if string_views(out@).contains(x@) {
                let pt = ns.take(i as int);
                let a = choose|a: int| 0 <= a < pt.len() && pt[a] == x@;
                assert(ns[a] == ns[i as int]);
            }
            lemma_insert_distinct(string_views(out@), p as int, x@);
        }
        let ghost prev = out@;
        out.insert(p, copy_string(x));
        proof {
            assert(out@ == prev.insert(p as int, out@[p as int]));
            lemma_string_views_insert(prev, p as int, out@[p as int]);
            let nt = ns.take(i + 1);
            let pt = ns.take(i as int);
            assert forall|y: Seq<char>| #[trigger] string_views(out@).contains(y) <==> nt.contains(y) by {
                if pt.contains(y) {
                    let a = choose|a: int| 0 <= a < pt.len() && pt[a] == y;
                    assert(nt[a] == y);
                }
                if nt.contains(y) {
                    let a = choose|a: int| 0 <= a < nt.len() && nt[a] == y;
                    if a < i {
                        assert(pt[a] == y);
                    }
                }
                assert(nt[i as int] == x@);
            }
        }
        i = i + 1;
    }
    assert(ns.take(nodes@.len() as int) =~= ns);
    out
}


/// Visit each of `nodes` that is not visited yet, with its dependencies.
fn visit_all(
    nodes: &Vec<String>,
    graph: &IndexMap<String, IndexSet<String>>,
    visited: &mut IndexSet<String>,
    visiting: &mut IndexSet<String>,
    sorted: &mut IndexSet<String>,
) -> (res: Result<(), String>)
    requires
        graph_deps(*graph).dom().finite(),
        search_ok(set_items(*old(visited)), set_items(*old(visiting)), set_items(*old(sorted))),
        topological(set_items(*old(sorted)), graph_deps(*graph)),
        set_items(*old(visiting)).len() == 0,
    ensures
        search_ok(set_items(*final(visited)), set_items(*final(visiting)), set_items(*final(sorted))),
        topological(set_items(*final(sorted)), graph_deps(*graph)),
        set_items(*old(visited)).to_set().subset_of(set_items(*final(visited)).to_set()),
        res is Ok ==> set_items(*final(visiting)).len() == 0,
        res is Ok ==> forall|y: Seq<char>| #[trigger] string_views(nodes@).contains(y) ==> set_items(*final(visited)).contains(y),
        res matches Err(m) ==> m@.len() >= 40 && m@.subrange(0, 40) == "Circular dependency detected involving: "@,
        acyclic(graph_deps(*graph)) ==> res is Ok,
{
    let ghost v0 = set_items(*visited);
    let mut i: usize = 0;
    while i < nodes.len()
        invariant
            i <= nodes@.len(),
            graph_deps(*graph).dom().finite(),
            search_ok(set_items(*visited), set_items(*visiting), set_items(*sorted)),
            topological(set_items(*sorted), graph_deps(*graph)),
            set_items(*visiting).len() == 0,
            v0.to_set().subset_of(set_items(*visited).to_set()),
            v0 == set_items(*old(visited)),
            forall|k: int| 0 <= k < i ==> set_items(*visited).contains(#[trigger] nodes@[k]@),
        decreases nodes@.len() - i,
    {
        let node = &nodes[i];
        if !set_contains(visited, node.as_str()) {
            let ghost vb = set_items(*visited);
            proof {
                let vs = set_items(*visiting);
                assert forall|v: Seq<char>| !#[trigger] vs.contains(v) by {}
                assert(stack_leads_to(graph_deps(*graph), vs, node@));
            }
            let r = match graph_get(graph, node.as_str()) {
                Some(deps) => visit_node(node.as_str(), deps, graph, visited, visiting, sorted),
                None => {
                    let no_deps = set_new();
                    visit_node(node.as_str(), &no_deps, graph, visited, visiting, sorted)
                },
            };
            match r {
                Ok(()) => {
                    proof {
                        assert forall|k: int| 0 <= k < i + 1 implies set_items(*visited).contains(#[trigger] nodes@[k]@) by {
                            if k < i {
                                assert(vb.to_set().contains(nodes@[k]@));
                                assert(set_items(*visited).to_set().contains(nodes@[k]@));
                            }
                        }
                        assert forall|x: Seq<char>| v0.to_set().contains(x) implies set_items(*visited).to_set().contains(x) by {
                            assert(vb.to_set().contains(x));
                        }
                    }
                },
                Err(m) => {
                    proof {
                        assert forall|x: Seq<char>| v0.to_set().contains(x) implies set_items(*visited).to_set().contains(x) by {
                            assert(vb.to_set().contains(x));
                        }
                    }
                    return Err(m);
                },
            }
        }
        i = i + 1;
    }
    proof {
        assert forall|y: Seq<char>| #[trigger] string_views(nodes@).contains(y) implies set_items(*visited).contains(y) by {
            let k = choose|k: int| 0 <= k < string_views(nodes@).len() && string_views(nodes@)[k] == y;
            assert(set_items(*visited).contains(nodes@[k]@));
        }
    }
    Ok(())
}

proof fn lemma_within_after(s0: Seq<Seq<char>>, s1: Seq<Seq<char>>, x: Seq<char>, pt: Seq<Seq<char>>, nt: Seq<Seq<char>>)
    requires
        s1 == s0 || s1 == s0.push(x),
        forall|y: Seq<char>| #[trigger] s0.contains(y) ==> pt.contains(y),
        forall|y: Seq<char>| #[trigger] pt.contains(y) ==> nt.contains(y),
        nt.contains(x),
    ensures
        forall|y: Seq<char>| #[trigger] s1.contains(y) ==> nt.contains(y),
{
    assert forall|y: Seq<char>| #[trigger] s1.contains(y) implies nt.contains(y) by {
        if s1 != s0 {
            let a = choose|a: int| 0 <= a < s1.len() && s1[a] == y;
            if a < s0.len() {
                assert(s0[a] == y);
                assert(s0.contains(y));
                assert(pt.contains(y));
            }
        } else {
            assert(s0.contains(y));
            assert(pt.contains(y));
        }
    }
}

/// What an ordering in phases gives: an order of all nodes without repeats,
/// each after its dependencies, grouped into its parallel batches.
pub open spec fn phased_result(
    order: Seq<Seq<char>>,
    g: Map<Seq<char>, Seq<Seq<char>>>,
    tps: Seq<Seq<char>>,
    batches: Seq<Seq<Seq<char>>>,
) -> bool {
    &&& order.no_duplicates()
    &&& topological(order, g)
    &&& forall|k: Seq<char>| g.contains_key(k) ==> #[trigger] order.contains(k)
    &&& batches == grouped(order, levels(order, g, tps, order.len()), order.len())
}

/// Order the nodes of a dependency graph in three phases (the non-table nodes
/// that tables need, then the tables, then the rest), each phase sorted and
/// visited depth first, and group the order into parallel batches. This fails,
/// reporting a node on a cycle, exactly when the graph has a circular
/// dependency.
pub fn sort_in_phases(
    graph: &IndexMap<String, IndexSet<String>>,
    table_paths: &IndexSet<String>,
) -> (res: Result<Vec<Vec<String>>, String>)
    ensures
        res matches Ok(b) ==> exists|order: Seq<Seq<char>>|
            #[trigger] phased_result(order, graph_deps(*graph), set_items(*table_paths), batch_views(b@)),
        res matches Err(m) ==> m@.len() >= 40 && m@.subrange(0, 40) == "Circular dependency detected involving: "@,
        res is Ok <==> acyclic(graph_deps(*graph)),
{
    let keys = graph_keys(graph);
    let ghost g = graph_deps(*graph);
    let ghost ks = string_views(keys@);
    proof {
        vstd::seq_lib::seq_to_set_is_finite(ks);
        assert(g.dom().finite());
    }
    let deps_of_tables = table_dependencies(graph, table_paths);
    let mut first: Vec<String> = Vec::new();
    let mut tables: Vec<String> = Vec::new();
    let mut rest: Vec<String> = Vec::new();
    let mut i: usize = 0;
    proof {
        assert(string_views(first@) =~= Seq::<Seq<char>>::empty());
        assert(string_views(tables@) =~= Seq::<Seq<char>>::empty());
        assert(string_views(rest@) =~= Seq::<Seq<char>>::empty());
    }
    while i < keys.len()
        invariant
            i <= keys@.len(),
            ks == string_views(keys@),
            ks.no_duplicates(),
            string_views(first@).no_duplicates(),
            string_views(tables@).no_duplicates(),
            string_views(rest@).no_duplicates(),
            forall|y: Seq<char>| #[trigger] string_views(first@).contains(y) ==> ks.take(i as int).contains(y),
            forall|y: Seq<char>| #[trigger] string_views(tables@).contains(y) ==> ks.take(i as int).contains(y),
            forall|y: Seq<char>| #[trigger] string_views(rest@).contains(y) ==> ks.take(i as int).contains(y),
            forall|k: int| 0 <= k < i ==> string_views(first@).contains(#[trigger] ks[k])
                || string_views(tables@).contains(ks[k]) || string_views(rest@).contains(ks[k]),
        decreases keys@.len() - i,
    {
        let node = &keys[i];
        let ghost x = ks[i as int];
        assert(x == node@);
        proof {
            if ks.take(i as int).contains(x) {
                let pt = ks.take(i as int);
                let a = choose|a: int| 0 <= a < pt.len() && pt[a] == x;
                assert(ks[a] == ks[i as int]);
            }
        }
        let ghost (f0, t0, r0) = (string_views(first@), string_views(tables@), string_views(rest@));
        if set_contains(table_paths, node.as_str()) {
            tables.push(copy_string(node));
            assert(string_views(tables@) =~= t0.push(x));
            assert(!t0.contains(x));
            assert(string_views(tables@)[t0.len() as int] == x);
        } else if set_contains(&deps_of_tables, node.as_str()) {
            first.push(copy_string(node));
            assert(string_views(first@) =~= f0.push(x));
            assert(!f0.contains(x));
            assert(string_views(first@)[f0.len() as int] == x);
        } else {
            rest.push(copy_string(node));
            assert(string_views(rest@) =~= r0.push(x));
            assert(!r0.contains(x));
            assert(string_views(rest@)[r0.len() as int] == x);
        }
        proof {
            let nt = ks.take(i + 1);
            let pt = ks.take(i as int);
            assert(nt[i as int] == x);
            assert forall|y: Seq<char>| pt.contains(y) implies nt.contains(y) by {
                let a = choose|a: int| 0 <= a < pt.len() && pt[a] == y;
                assert(nt[a] == y);
            }
            assert(string_views(first@).contains(x) || string_views(tables@).contains(x) || string_views(rest@).contains(x));
            lemma_within_after(f0, string_views(first@), x, pt, nt);
            lemma_within_after(t0, string_views(tables@), x, pt, nt);
            lemma_within_after(r0, string_views(rest@), x, pt, nt);
            assert forall|k: int| 0 <= k < i + 1 implies string_views(first@).contains(#[trigger] ks[k])
                || string_views(tables@).contains(ks[k]) || string_views(rest@).contains(ks[k]) by {
                if k < i {
                    assert(f0.contains(ks[k]) || t0.contains(ks[k]) || r0.contains(ks[k]));
                    if f0.contains(ks[k]) {
                        let a = choose|a: int| 0 <= a < f0.len() && f0[a] == ks[k];
                        assert(string_views(first@)[a] == ks[k]);
                    }
                    if t0.contains(ks[k]) {
                        let a = choose|a: int| 0 <= a < t0.len() && t0[a] == ks[k];
                        assert(string_views(tables@)[a] == ks[k]);
                    }
                    if r0.contains(ks[k]) {
                        let a = choose|a: int| 0 <= a < r0.len() && r0[a] == ks[k];
                        assert(string_views(rest@)[a] == ks[k]);
                    }
                }
            }
        }
        i = i + 1;
    }
    let first_sorted = sort_nodes(&first, graph, false);
    let tables_sorted = sort_nodes(&tables, graph, true);
    let rest_sorted = sort_nodes(&rest, graph, false);
    let mut visited = set_new();
    let mut visiting = set_new();
    let mut sorted = set_new();
    proof {
        assert(set_items(visited).to_set() =~= set_items(sorted).to_set());
        assert(set_items(visited) =~= Seq::<Seq<char>>::empty());
        assert(set_items(visiting) =~= Seq::<Seq<char>>::empty());
        assert(set_items(sorted) =~= Seq::<Seq<char>>::empty());
    }
    match visit_all(&first_sorted, graph, &mut visited, &mut visiting, &mut sorted) {
        Ok(()) => {},
        Err(m) => {
            return Err(m);
        },
    }
    let ghost v1 = set_items(visited);
    match visit_all(&tables_sorted, graph, &mut visited, &mut visiting, &mut sorted) {
        Ok(()) => {},
        Err(m) => {
            return Err(m);
        },
    }
    let ghost v2 = set_items(visited);
    match visit_all(&rest_sorted, graph, &mut visited, &mut visiting, &mut sorted) {
        Ok(()) => {},
        Err(m) => {
            return Err(m);
        },
    }
    let batches = compute_parallel_batches(&sorted, graph, table_paths);
    proof {
        let order = set_items(sorted);
        let vs = set_items(visited);
        assert forall|k: Seq<char>| g.contains_key(k) implies #[trigger] order.contains(k) by {
            assert(ks.to_set().contains(k));
            let a = choose|a: int| 0 <= a < ks.len() && ks[a] == k;
            assert(ks.take(keys@.len() as int) =~= ks);
            assert(string_views(first@).contains(k) || string_views(tables@).contains(k) || string_views(rest@).contains(k));
            if string_views(first@).contains(k) {
                assert(string_views(first_sorted@).contains(k));
                assert(v1.contains(k));
                assert(v1.to_set().contains(k));
                assert(v2.to_set().contains(k));
            } else if string_views(tables@).contains(k) {
                assert(string_views(tables_sorted@).contains(k));
                assert(v2.contains(k));
                assert(v2.to_set().contains(k));
            } else {
                assert(string_views(rest_sorted@).contains(k));
                assert(vs.contains(k));
            }
            assert(vs.to_set().contains(k));
            assert(order.to_set().contains(k));
        }
        assert(phased_result(order, g, set_items(*table_paths), batch_views(batches@)));
        lemma_topological_acyclic(order, g);
    }
    let res: Result<Vec<Vec<String>>, String> = Ok(batches);
    assert(res matches Ok(b) && phased_result(set_items(sorted), g, set_items(*table_paths), batch_views(b@)));
    res
}


proof fn lemma_padded(bs: Seq<Seq<Seq<char>>>, k: nat)
    ensures
        padded(bs, k).len() == if bs.len() >= k { bs.len() } else { k },
        forall|i: int| 0 <= i < bs.len() ==> #[trigger] padded(bs, k)[i] == bs[i],
        forall|i: int| bs.len() <= i < padded(bs, k).len() ==> #[trigger] padded(bs, k)[i] == Seq::<Seq<char>>::empty(),
    decreases k - bs.len(),
{
    if bs.len() < k {
        let e = Seq::<Seq<char>>::empty();
        lemma_padded(bs.push(e), k);
        assert forall|i: int| 0 <= i < bs.len() implies #[trigger] padded(bs, k)[i] == bs[i] by {
            assert(bs.push(e)[i] == bs[i]);
        }
        assert forall|i: int| bs.len() <= i < padded(bs, k).len() implies #[trigger] padded(bs, k)[i] == e by {
            if i == bs.len() {
                assert(bs.push(e)[i] == e);
            }
        }
    }
}

/// Each of the first `n` sorted nodes sits in the batch of its level.
pub proof fn lemma_grouped_member(order: Seq<Seq<char>>, lv: Seq<nat>, n: nat, j: int)
    requires
        0 <= j < n,
        n <= order.len(),
        n <= lv.len(),
    ensures
        lv[j] < grouped(order, lv, n).len(),
        grouped(order, lv, n)[lv[j] as int].contains(order[j]),
    decreases n,
{
    let prev = grouped(order, lv, (n - 1) as nat);
    let b = lv[n - 1];
    lemma_padded(prev, b + 1);
    let p = padded(prev, b + 1);
    let cur = grouped(order, lv, n);
    assert(cur == p.update(b as int, p[b as int].push(order[n - 1])));
    if j == n - 1 {
        assert(p[b as int].push(order[n - 1])[p[b as int].len() as int] == order[n - 1]);
    } else {
        lemma_grouped_member(order, lv, (n - 1) as nat, j);
        let lj = lv[j] as int;
        assert(p[lj] == prev[lj]);
        let k = choose|k: int| 0 <= k < prev[lj].len() && prev[lj][k] == order[j];
        if lj == b {
            assert(cur[lj][k] == order[j]);
        } else {
            assert(cur[lj] == prev[lj]);
        }
    }
}

/// Batches are ordered by dependencies: when ordering in phases succeeds,
/// each node's dependencies that are nodes sit in earlier batches than the
/// node itself.
pub proof fn law_phased_batches_follow_dependencies(
    order: Seq<Seq<char>>,
    g: Map<Seq<char>, Seq<Seq<char>>>,
    tps: Seq<Seq<char>>,
    batches: Seq<Seq<Seq<char>>>,
    i: int,
    d: Seq<char>,
)
    requires
        phased_result(order, g, tps, batches),
        0 <= i < order.len(),
        g.contains_key(order[i]),
        g[order[i]].contains(d),
        g.contains_key(d),
    ensures
        exists|a: int, b: int| 0 <= a < b < batches.len() && #[trigger] batches[a].contains(d) && #[trigger] batches[b].contains(order[i]),
{
    assert(order.take(i).contains(d));
    let j = choose|j: int| 0 <= j < order.take(i).len() && order.take(i)[j] == d;
    assert(order[j] == d);
    law_batch_after_dependency(order, g, tps, i, j, d);
    let lv = levels(order, g, tps, order.len());
    lemma_levels_prefix(order, g, tps, order.len(), 0);
    lemma_grouped_member(order, lv, order.len(), j);
    lemma_grouped_member(order, lv, order.len(), i);
    let a = lv[j] as int;
    let b = lv[i] as int;
    assert(batches[a].contains(d) && batches[b].contains(order[i]));
}


/// Every node of the graph is in one of the batches that ordering in phases
/// gives.
pub proof fn law_phased_batches_cover_nodes(
    order: Seq<Seq<char>>,
    g: Map<Seq<char>, Seq<Seq<char>>>,
    tps: Seq<Seq<char>>,
    batches: Seq<Seq<Seq<char>>>,
    k: Seq<char>,
)
    requires
        phased_result(order, g, tps, batches),
        g.contains_key(k),
    ensures
        exists|b: int| 0 <= b < batches.len() && #[trigger] batches[b].contains(k),
{
    assert(order.contains(k));
    let j = choose|j: int| 0 <= j < order.len() && order[j] == k;
    let lv = levels(order, g, tps, order.len());
    lemma_levels_prefix(order, g, tps, order.len(), 0);
    lemma_grouped_member(order, lv, order.len(), j);
    assert(batches[lv[j] as int].contains(k));
}


/// Along an edge between two nodes, a topological order places the target
/// first.
proof fn lemma_edge_descends(order: Seq<Seq<char>>, g: Map<Seq<char>, Seq<Seq<char>>>, x: Seq<char>, y: Seq<char>)
    requires
        order.no_duplicates(),
        topological(order, g),
        order.contains(x),
        g.contains_key(x),
        g[x].contains(y),
        g.contains_key(y),
    ensures
        order.contains(y),
        order.index_of(y) < order.index_of(x),
{
    let i = order.index_of(x);
    assert(order[i] == x);
    assert(order.take(i).contains(y));
    let t = choose|t: int| 0 <= t < order.take(i).len() && order.take(i)[t] == y;
    assert(order[t] == y);
    let u = order.index_of(y);
    assert(order[u] == y);
}

proof fn lemma_path_descends(order: Seq<Seq<char>>, g: Map<Seq<char>, Seq<Seq<char>>>, p: Seq<Seq<char>>, k: int)
    requires
        order.no_duplicates(),
        topological(order, g),
        forall|x: Seq<char>| g.contains_key(x) ==> #[trigger] order.contains(x),
        p.len() >= 2,
        forall|i: int| 0 <= i < p.len() - 1 ==> g.contains_key(#[trigger] p[i]) && g[p[i]].contains(p[i + 1]),
        g.contains_key(p.last()),
        1 <= k < p.len(),
    ensures
        order.index_of(p[k]) < order.index_of(p[0]),
    decreases k,
{
    let x = p[k - 1];
    let y = p[k];
    assert(g.contains_key(x) && g[x].contains(y));
    if k < p.len() - 1 {
        assert(g.contains_key(p[k]));
    } else {
        assert(p[k] == p.last());
    }
    assert(order.contains(x));
    lemma_edge_descends(order, g, x, y);
    if k > 1 {
        lemma_path_descends(order, g, p, k - 1);
    }
}

/// A graph whose nodes all lie in a topological order without repeats has no
/// circular dependency.
pub proof fn lemma_topological_acyclic(order: Seq<Seq<char>>, g: Map<Seq<char>, Seq<Seq<char>>>)
    requires
        order.no_duplicates(),
        topological(order, g),
        forall|x: Seq<char>| g.contains_key(x) ==> #[trigger] order.contains(x),
    ensures
        acyclic(g),
{
    assert forall|a: Seq<char>| !#[trigger] reaches(g, a, a) by {
        if reaches(g, a, a) {
            let p = choose|p: Seq<Seq<char>>| #[trigger] path_from_to(g, p, a, a);
            assert(g.contains_key(p[0]));
            assert(p.last() == p[0]);
            lemma_path_descends(order, g, p, p.len() - 1);
        }
    }
}

proof fn lemma_first_prefix_at(tps: Seq<Seq<char>>, d: Seq<char>, k0: int, k: int)
    requires
        0 <= k0 <= k < tps.len(),
        starts_with(d, tps[k]),
        forall|q: int| k0 <= q < k ==> !starts_with(d, #[trigger] tps[q]),
    ensures
        first_prefix(tps, d, k0) == Some(tps[k]),
    decreases k - k0,
{
    if k0 < k {
        lemma_first_prefix_at(tps, d, k0 + 1, k);
    }
}

/// A node that reads a part of a table (its rows under `/$table/`, its data under
/// `/$datas/`, or its `/$skip` or `/$clear` flag) waits for that table: when the
/// table, the first table path the dependency lies under, was sorted before the
/// node, the node's batch comes after the table's.
#[verifier::spinoff_prover]
#[verifier::rlimit(80)]
pub proof fn law_table_part_waits_for_its_table(
    sorted: Seq<Seq<char>>,
    g: Map<Seq<char>, Seq<Seq<char>>>,
    tps: Seq<Seq<char>>,
    i: int,
    j: int,
    k: int,
    d: Seq<char>,
)
    requires
        sorted.no_duplicates(),
        0 <= j < i < sorted.len(),
        g.contains_key(sorted[i]),
        g[sorted[i]].contains(d),
        !sorted.contains(d),
        contains_seq(d, "/$table/"@) || contains_seq(d, "/$datas/"@) || ends_with(d, "/$skip"@) || ends_with(d, "/$clear"@),
        0 <= k < tps.len(),
        tps[k] == sorted[j],
        starts_with(d, tps[k]),
        forall|q: int| 0 <= q < k ==> !starts_with(d, #[trigger] tps[q]),
    ensures
        ({
            let lv = levels(sorted, g, tps, sorted.len());
            let bs = grouped(sorted, lv, sorted.len());
            &&& lv[j] < lv[i]
            &&& bs[lv[j] as int].contains(sorted[j])
            &&& bs[lv[i] as int].contains(sorted[i])
        }),
{
    lemma_first_prefix_at(tps, d, 0, k);
    law_batch_after_dependency(sorted, g, tps, i, j, d);
    let n = sorted.len();
    lemma_levels_prefix(sorted, g, tps, n, n);
    lemma_grouped_member(sorted, levels(sorted, g, tps, n), n, j);
    lemma_grouped_member(sorted, levels(sorted, g, tps, n), n, i);
}

#[verifier::spinoff_prover]
#[verifier::rlimit(80)]
proof fn lemma_max_batch_witness(sorted: Seq<Seq<char>>, tps: Seq<Seq<char>>, lv: Seq<nat>, deps: Seq<Seq<char>>)
    ensures
        max_batch(sorted, tps, lv, deps) matches Some(b) ==> exists|k: int|
            0 <= k < deps.len() && #[trigger] dep_batch(sorted, tps, lv, deps[k]) == Some(b),
    decreases deps.len(),
{
    if deps.len() > 0 {
        lemma_max_batch_witness(sorted, tps, lv, deps.drop_last());
        if let Some(b) = max_batch(sorted, tps, lv, deps) {
            let last = dep_batch(sorted, tps, lv, deps.last());
            if last == Some(b) {
                assert(dep_batch(sorted, tps, lv, deps[deps.len() - 1]) == Some(b));
            } else {
                let k = choose|k: int| 0 <= k < deps.drop_last().len()
                    && #[trigger] dep_batch(sorted, tps, lv, deps.drop_last()[k]) == Some(b);
                assert(deps[k] == deps.drop_last()[k]);
            }
        }
    }
}

/// A node waits no longer than it must: it is in the first batch, or some
/// dependency of it sorted before it (or the table that a table-part dependency
/// lies in) is in the batch right before its own.
#[verifier::spinoff_prover]
#[verifier::rlimit(80)]
pub proof fn law_batch_no_later_than_needed(
    sorted: Seq<Seq<char>>,
    g: Map<Seq<char>, Seq<Seq<char>>>,
    tps: Seq<Seq<char>>,
    i: int,
)
    requires
        sorted.no_duplicates(),
        0 <= i < sorted.len(),
    ensures
        ({
            let lv = levels(sorted, g, tps, sorted.len());
            lv[i] > 0 ==> g.contains_key(sorted[i]) && exists|j: int, d: Seq<char>|
                0 <= j < i && #[trigger] lv[j] + 1 == lv[i] && #[trigger] g[sorted[i]].contains(d)
                && (sorted[j] == d || (!sorted.contains(d) && table_part(d) && first_prefix(tps, d, 0) == Some(sorted[j])))
        }),
{
    let n = sorted.len();
    let lv = levels(sorted, g, tps, n);
    let cur = levels(sorted, g, tps, i as nat);
    lemma_levels_prefix(sorted, g, tps, n, (i + 1) as nat);
    lemma_levels_prefix(sorted, g, tps, n, i as nat);
    lemma_levels_prefix(sorted, g, tps, i as nat, i as nat);
    assert(lv[i] == levels(sorted, g, tps, (i + 1) as nat)[i]) by {
        assert(lv.take(i + 1)[i] == levels(sorted, g, tps, (i + 1) as nat)[i]);
    }
    assert(levels(sorted, g, tps, (i + 1) as nat)[i] == level_of(sorted, g, tps, cur, i));
    if lv[i] > 0 {
        assert(g.contains_key(sorted[i]));
        let deps = g[sorted[i]];
        let b = max_batch(sorted, tps, cur, deps)->Some_0;
        lemma_max_batch_witness(sorted, tps, cur, deps);
        let k = choose|k: int| 0 <= k < deps.len() && #[trigger] dep_batch(sorted, tps, cur, deps[k]) == Some(b);
        let d = deps[k];
        assert(deps.contains(d));
        let x = if sorted.contains(d) { d } else { first_prefix(tps, d, 0)->Some_0 };
        assert(placed(sorted, cur, x) == Some(b));
        assert(sorted.take(cur.len() as int).contains(x));
        let q = choose|q: int| 0 <= q < sorted.take(i).len() && sorted.take(i)[q] == x;
        assert(sorted[q] == x);
        let j = sorted.index_of(x);
        assert(sorted.contains(x));
        assert(sorted[j] == x);
        assert(j == q);
        assert(cur[j] == b);
        assert(lv[j] == cur[j]) by {
            assert(lv.take(i)[j] == cur[j]);
        }
        assert(lv[j] + 1 == lv[i]);
        assert(g[sorted[i]].contains(d));
    }
}

} // verus!
