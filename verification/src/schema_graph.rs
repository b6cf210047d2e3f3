//! The dependency graph of an evaluation schema and its ordering: evaluations
//! inside a table are merged into that table, and dependencies are resolved to
//! the evaluations and tables that they point at.

use vstd::prelude::*;
use indexmap::{IndexMap, IndexSet};
use crate::compiled::string_views;
use crate::paths::{json_pointer_of, normalize_to_json_pointer};
use crate::text::{starts_with, contains_seq, to_chars, chars_contain, chars_start_with, chars_eq, copy_string, string_of};
use crate::topo_sort::{
    set_items, graph_deps, ends_with, chars_end_with, set_insert, set_to_vec, set_new, graph_get,
    graph_new, graph_insert, sort_in_phases, phased_result, batch_views, acyclic,
};

verus! {

/// Whether an evaluation key takes part in the ordering: a `#/$` key that is
/// not about dependents, rules, options, conditions, layout, config, items or
/// values.
pub open spec fn keep_evaluation(k: Seq<char>) -> bool {
    &&& !contains_seq(k, "/dependents/"@)
    &&& !contains_seq(k, "/rules/"@)
    &&& !contains_seq(k, "/options/"@)
    &&& !contains_seq(k, "/condition/"@)
    &&& !contains_seq(k, "/$layout/"@)
    &&& !contains_seq(k, "/config/"@)
    &&& !contains_seq(k, "/items/"@)
    &&& !ends_with(k, "/options"@)
    &&& !ends_with(k, "/value"@)
    &&& starts_with(k, "#/$"@)
    &&& !contains_seq(k, "/value/"@)
}

/// The kept evaluation keys, in order.
pub open spec fn kept(keys: Seq<Seq<char>>) -> Seq<Seq<char>>
    decreases keys.len(),
{
    if keys.len() == 0 {
        keys
    } else {
        let r = kept(keys.drop_last());
        if keep_evaluation(keys.last()) {
            r.push(keys.last())
        } else {
            r
        }
    }
}

/// The recorded dependencies of an evaluation (none if there is no record).
pub open spec fn deps_of(d: Map<Seq<char>, Seq<Seq<char>>>, k: Seq<char>) -> Seq<Seq<char>> {
    if d.contains_key(k) {
        d[k]
    } else {
        Seq::empty()
    }
}

/// The last of `cands` whose JSON pointer form is `p`.
pub open spec fn pointer_owner(cands: Seq<Seq<char>>, p: Seq<char>) -> Option<Seq<char>>
    decreases cands.len(),
{
    if cands.len() == 0 {
        None
    } else if json_pointer_of(cands.last()) == p {
        Some(cands.last())
    } else {
        pointer_owner(cands.drop_last(), p)
    }
}

/// The longest of `tps` that `k` starts with (of equally long ones, the last).
pub open spec fn owning_table(tps: Seq<Seq<char>>, k: Seq<char>) -> Option<Seq<char>>
    decreases tps.len(),
{
    if tps.len() == 0 {
        None
    } else {
        let rest = owning_table(tps.drop_last(), k);
        if starts_with(k, tps.last()) {
            match rest {
                Some(r) => if r.len() > tps.last().len() { Some(r) } else { Some(tps.last()) },
                None => Some(tps.last()),
            }
        } else {
            rest
        }
    }
}

/// What follows the last `/` of `s` (all of it if there is none).
pub open spec fn last_segment(s: Seq<char>) -> Seq<char>
    decreases s.len(),
{
    if s.len() == 0 {
        s
    } else if s.last() == '/' {
        Seq::empty()
    } else {
        last_segment(s.drop_last()).push(s.last())
    }
}

/// The last of `tps` whose last segment is `name`.
pub open spec fn table_named(tps: Seq<Seq<char>>, name: Seq<char>) -> Option<Seq<char>>
    decreases tps.len(),
{
    if tps.len() == 0 {
        None
    } else if last_segment(tps.last()) == name {
        Some(tps.last())
    } else {
        table_named(tps.drop_last(), name)
    }
}

/// `dep` is `t` or a path below it.
pub open spec fn at_or_below(dep: Seq<char>, t: Seq<char>) -> bool {
    dep == t || starts_with(dep, t.push('/'))
}

/// The first of `tps`, from index `k` on and other than `own`, that `dep` is at
/// or below.
pub open spec fn table_over(tps: Seq<Seq<char>>, own: Option<Seq<char>>, dep: Seq<char>, k: int) -> Option<Seq<char>>
    decreases tps.len() - k,
{
    if k < 0 || k >= tps.len() {
        None
    } else if own != Some(tps[k]) && at_or_below(dep, tps[k]) {
        Some(tps[k])
    } else {
        table_over(tps, own, dep, k + 1)
    }
}

/// A column of the table being evaluated: `$name`, without dots or slashes.
pub open spec fn own_column(dep: Seq<char>) -> bool {
    dep.len() > 0 && dep[0] == '$' && !dep.contains('.') && !dep.contains('/')
}

pub proof fn lemma_owning_in(tps: Seq<Seq<char>>, k: Seq<char>)
    ensures
        owning_table(tps, k) matches Some(t) ==> tps.contains(t) && starts_with(k, t),
        tps.contains(k) ==> owning_table(tps, k) is Some,
    decreases tps.len(),
{
    if tps.len() > 0 {
        lemma_owning_in(tps.drop_last(), k);
        if let Some(t) = owning_table(tps.drop_last(), k) {
            let j = choose|j: int| 0 <= j < tps.drop_last().len() && tps.drop_last()[j] == t;
            assert(tps[j] == t);
        }
        assert(tps[tps.len() - 1] == tps.last());
        if tps.contains(k) && !tps.drop_last().contains(k) {
            let j = choose|j: int| 0 <= j < tps.len() && tps[j] == k;
            if j < tps.len() - 1 {
                assert(tps.drop_last()[j] == k);
            }
            assert(k.take(k.len() as int) =~= k);
        }
    }
}

/// Exec test of `keep_evaluation`.
fn keeps_evaluation(k: &str) -> (res: bool)
    ensures
        res == keep_evaluation(k@),
{
    let s = to_chars(k);
    let p = to_chars("/dependents/");
    if chars_contain(&s, &p) {
        return false;
    }
    let p = to_chars("/rules/");
    if chars_contain(&s, &p) {
        return false;
    }
    let p = to_chars("/options/");
    if chars_contain(&s, &p) {
        return false;
    }
    let p = to_chars("/condition/");
    if chars_contain(&s, &p) {
        return false;
    }
    let p = to_chars("/$layout/");
    if chars_contain(&s, &p) {
        return false;
    }
    let p = to_chars("/config/");
    if chars_contain(&s, &p) {
        return false;
    }
    let p = to_chars("/items/");
    if chars_contain(&s, &p) {
        return false;
    }
    let p = to_chars("/options");
    if chars_end_with(&s, &p) {
        return false;
    }
    let p = to_chars("/value");
    if chars_end_with(&s, &p) {
        return false;
    }
    let p = to_chars("#/$");
    if !chars_start_with(&s, &p) {
        return false;
    }
    let p = to_chars("/value/");
    !chars_contain(&s, &p)
}

/// The position in `tps` of the owning table of `k`.
fn owner_of(tps: &Vec<Vec<char>>, k: &Vec<char>, Ghost(ts): Ghost<Seq<Seq<char>>>) -> (res: Option<usize>)
    requires
        tps@.len() == ts.len(),
        forall|j: int| 0 <= j < ts.len() ==> #[trigger] tps@[j]@ == ts[j],
    ensures
        match res {
            Some(j) => j < ts.len() && owning_table(ts, k@) == Some(ts[j as int]),
            None => owning_table(ts, k@) is None,
        },
{
    let mut best: Option<usize> = None;
    let mut j: usize = 0;
    assert(ts.take(0) =~= Seq::<Seq<char>>::empty());
    while j < tps.len()
        invariant
            j <= tps@.len(),
            tps@.len() == ts.len(),
            forall|q: int| 0 <= q < ts.len() ==> #[trigger] tps@[q]@ == ts[q],
            match best {
                Some(b) => b < j && owning_table(ts.take(j as int), k@) == Some(ts[b as int]),
                None => owning_table(ts.take(j as int), k@) is None,
            },
        decreases tps@.len() - j,
    {
        let ghost pre = ts.take(j as int);
        let ghost nxt = ts.take(j + 1);
        assert(nxt.drop_last() =~= pre);
        assert(nxt.last() == ts[j as int]);
        assert(tps@[j as int]@ == ts[j as int]);
        if chars_start_with(k, &tps[j]) {
            best = match best {
                Some(b) => {
                    assert(tps@[b as int]@ == ts[b as int]);
                    if tps[b].len() > tps[j].len() {
                        Some(b)
                    } else {
                        Some(j)
                    }
                },
                None => Some(j),
            };
        }
        j = j + 1;
    }
    assert(ts.take(ts.len() as int) =~= ts);
    best
}

/// The last segment of `s`.
fn last_segment_of(s: &Vec<char>) -> (res: Vec<char>)
    ensures
        res@ == last_segment(s@),
{
    let mut seg: Vec<char> = Vec::new();
    let mut i: usize = 0;
    assert(s@.take(0) =~= Seq::<char>::empty());
    while i < s.len()
        invariant
            i <= s@.len(),
            seg@ == last_segment(s@.take(i as int)),
        decreases s@.len() - i,
    {
        assert(s@.take(i + 1).drop_last() =~= s@.take(i as int));
        assert(s@.take(i + 1).last() == s@[i as int]);
        if s[i] == '/' {
            seg = Vec::new();
            assert(seg@ =~= Seq::<char>::empty());
        } else {
            seg.push(s[i]);
        }
        i = i + 1;
    }
    assert(s@.take(s@.len() as int) =~= s@);
    seg
}

/// The last position in `cands` whose pointer form `ptrs` holds is `p`.
fn pointer_owner_at(ptrs: &Vec<String>, p: &str, Ghost(cs): Ghost<Seq<Seq<char>>>) -> (res: Option<usize>)
    requires
        ptrs@.len() == cs.len(),
        forall|j: int| 0 <= j < cs.len() ==> #[trigger] ptrs@[j]@ == json_pointer_of(cs[j]),
    ensures
        match res {
            Some(j) => j < cs.len() && pointer_owner(cs, p@) == Some(cs[j as int]),
            None => pointer_owner(cs, p@) is None,
        },
{
    let mut k: usize = ptrs.len();
    assert(cs.take(cs.len() as int) =~= cs);
    while k > 0
        invariant
            k <= cs.len(),
            ptrs@.len() == cs.len(),
            forall|j: int| 0 <= j < cs.len() ==> #[trigger] ptrs@[j]@ == json_pointer_of(cs[j]),
            pointer_owner(cs, p@) == pointer_owner(cs.take(k as int), p@),
        decreases k,
    {
        k = k - 1;
        let ghost c = cs.take(k + 1);
        assert(c.drop_last() =~= cs.take(k as int));
        assert(c.last() == cs[k as int]);
        assert(ptrs@[k as int]@ == json_pointer_of(cs[k as int]));
        if crate::text::str_eq(ptrs[k].as_str(), p) {
            return Some(k);
        }
    }
    None
}

/// The last position in `tps` whose last segment (`segs`) is `name`.
fn table_named_at(segs: &Vec<Vec<char>>, name: &Vec<char>, Ghost(ts): Ghost<Seq<Seq<char>>>) -> (res: Option<usize>)
    requires
        segs@.len() == ts.len(),
        forall|j: int| 0 <= j < ts.len() ==> #[trigger] segs@[j]@ == last_segment(ts[j]),
    ensures
        match res {
            Some(j) => j < ts.len() && table_named(ts, name@) == Some(ts[j as int]),
            None => table_named(ts, name@) is None,
        },
{
    let mut k: usize = segs.len();
    assert(ts.take(ts.len() as int) =~= ts);
    while k > 0
        invariant
            k <= ts.len(),
            segs@.len() == ts.len(),
            forall|j: int| 0 <= j < ts.len() ==> #[trigger] segs@[j]@ == last_segment(ts[j]),
            table_named(ts, name@) == table_named(ts.take(k as int), name@),
        decreases k,
    {
        k = k - 1;
        let ghost c = ts.take(k + 1);
        assert(c.drop_last() =~= ts.take(k as int));
        assert(c.last() == ts[k as int]);
        assert(segs@[k as int]@ == last_segment(ts[k as int]));
        if chars_eq(&segs[k], name) {
            return Some(k);
        }
    }
    None
}

/// The first position in `tps`, other than `own`, that `dep` is at or below;
/// `slashed` holds each table path followed by `/`.
#[verifier::spinoff_prover]
fn table_over_at(
    tps: &Vec<Vec<char>>,
    slashed: &Vec<Vec<char>>,
    own: Option<usize>,
    dep: &Vec<char>,
    Ghost(ts): Ghost<Seq<Seq<char>>>,
) -> (res: Option<usize>)
    requires
        tps@.len() == ts.len(),
        slashed@.len() == ts.len(),
        ts.no_duplicates(),
        forall|j: int| 0 <= j < ts.len() ==> #[trigger] tps@[j]@ == ts[j] && slashed@[j]@ == ts[j].push('/'),
        own matches Some(o) ==> o < ts.len(),
    ensures
        match res {
            Some(j) => j < ts.len() && table_over(ts, own_view(own, ts), dep@, 0) == Some(ts[j as int]),
            None => table_over(ts, own_view(own, ts), dep@, 0) is None,
        },
{
    let ghost ov = own_view(own, ts);
    let mut k: usize = 0;
    while k < tps.len()
        invariant
            k <= ts.len(),
            tps@.len() == ts.len(),
            slashed@.len() == ts.len(),
            ts.no_duplicates(),
            forall|j: int| 0 <= j < ts.len() ==> #[trigger] tps@[j]@ == ts[j] && slashed@[j]@ == ts[j].push('/'),
            own matches Some(o) ==> o < ts.len(),
            ov == own_view(own, ts),
            table_over(ts, ov, dep@, 0) == table_over(ts, ov, dep@, k as int),
        decreases ts.len() - k,
    {
        assert(tps@[k as int]@ == ts[k as int] && slashed@[k as int]@ == ts[k as int].push('/'));
        let not_own = match own {
            Some(o) => o != k,
            None => true,
        };
        proof {
            if let Some(o) = own {
                if o != k {
                    assert(ts[o as int] != ts[k as int]);
                }
            }
        }
        if not_own && (chars_eq(dep, &tps[k]) || chars_start_with(dep, &slashed[k])) {
            return Some(k);
        }
        k = k + 1;
    }
    None
}

/// The table path at `own`, if any.
pub open spec fn own_view(own: Option<usize>, ts: Seq<Seq<char>>) -> Option<Seq<char>> {
    match own {
        Some(o) => Some(ts[o as int]),
        None => None,
    }
}

/// Exec test of `own_column`.
fn is_own_column(dep: &Vec<char>) -> (res: bool)
    ensures
        res == own_column(dep@),
{
    if dep.len() == 0 || dep[0] != '$' {
        return false;
    }
    let mut i: usize = 0;
    while i < dep.len()
        invariant
            i <= dep@.len(),
            forall|j: int| 0 <= j < i ==> dep@[j] != '.' && dep@[j] != '/',
        decreases dep@.len() - i,
    {
        if dep[i] == '.' || dep[i] == '/' {
            assert(dep@.contains(dep@[i as int]));
            return false;
        }
        i = i + 1;
    }
    true
}


/// What a dependency of an evaluation inside table `own` stands for: nothing
/// for the table's own columns; else the evaluation or table it points at, a
/// table it lies in, or a table of that name; else itself, unless it lies in
/// `own`.
pub open spec fn table_member_dep(cands: Seq<Seq<char>>, tps: Seq<Seq<char>>, own: Seq<char>, dep: Seq<char>) -> Option<Seq<char>> {
    if own_column(dep) {
        None
    } else if pointer_owner(cands, dep) is Some {
        pointer_owner(cands, dep)
    } else if table_over(tps, Some(own), dep, 0) is Some {
        table_over(tps, Some(own), dep, 0)
    } else if table_named(tps, dep) is Some && table_named(tps, dep) != Some(own) {
        table_named(tps, dep)
    } else if !starts_with(dep, own) {
        Some(dep)
    } else {
        None
    }
}

/// A merged dependency of table `t`, resolved: none if it is `t` or points
/// at `t`, else what it points at, else itself.
pub open spec fn resolved(cands: Seq<Seq<char>>, t: Seq<char>, dep: Seq<char>) -> Option<Seq<char>> {
    if dep == t {
        None
    } else {
        match pointer_owner(cands, dep) {
            Some(k) => if k == t { None } else { Some(k) },
            None => Some(dep),
        }
    }
}

/// `acc` with each present item of `opts` added if it is new.
pub open spec fn gather(acc: Seq<Seq<char>>, opts: Seq<Option<Seq<char>>>) -> Seq<Seq<char>>
    decreases opts.len(),
{
    if opts.len() == 0 {
        acc
    } else {
        let g = gather(acc, opts.drop_last());
        match opts.last() {
            Some(x) => if g.contains(x) { g } else { g.push(x) },
            None => g,
        }
    }
}

/// `acc` with each of `xs` added if it is new.
pub open spec fn add_new(acc: Seq<Seq<char>>, xs: Seq<Seq<char>>) -> Seq<Seq<char>>
    decreases xs.len(),
{
    if xs.len() == 0 {
        acc
    } else {
        let a = add_new(acc, xs.drop_last());
        if a.contains(xs.last()) { a } else { a.push(xs.last()) }
    }
}

pub open spec fn member_deps(cands: Seq<Seq<char>>, tps: Seq<Seq<char>>, own: Seq<char>, deps: Seq<Seq<char>>) -> Seq<Option<Seq<char>>> {
    Seq::new(deps.len(), |i: int| table_member_dep(cands, tps, own, deps[i]))
}

/// The dependencies of the evaluations among the first `n` keys that lie in
/// table `t`, merged.
pub open spec fn group(
    keys: Seq<Seq<char>>,
    d: Map<Seq<char>, Seq<Seq<char>>>,
    cands: Seq<Seq<char>>,
    tps: Seq<Seq<char>>,
    t: Seq<char>,
    n: nat,
) -> Seq<Seq<char>>
    decreases n,
{
    if n == 0 {
        Seq::empty()
    } else {
        let g = group(keys, d, cands, tps, t, (n - 1) as nat);
        if owning_table(tps, keys[n - 1]) == Some(t) {
            gather(g, member_deps(cands, tps, t, deps_of(d, keys[n - 1])))
        } else {
            g
        }
    }
}

/// The dependencies of table `t` in the graph.
pub open spec fn table_node_deps(
    keys: Seq<Seq<char>>,
    d: Map<Seq<char>, Seq<Seq<char>>>,
    cands: Seq<Seq<char>>,
    tps: Seq<Seq<char>>,
    t: Seq<char>,
) -> Seq<Seq<char>> {
    let g = group(keys, d, cands, tps, t, keys.len());
    gather(Seq::empty(), Seq::new(g.len(), |i: int| resolved(cands, t, g[i])))
}

/// The keys below `prefix/`, in order.
pub open spec fn fields_under(keys: Seq<Seq<char>>, prefix: Seq<char>) -> Seq<Seq<char>>
    decreases keys.len(),
{
    if keys.len() == 0 {
        keys
    } else {
        let r = fields_under(keys.drop_last(), prefix);
        if starts_with(keys.last(), prefix.push('/')) { r.push(keys.last()) } else { r }
    }
}

/// What a dependency of an evaluation outside the tables stands for: the
/// evaluation or table it points at, the table it lies in, the evaluations
/// below it, or else itself.
pub open spec fn outside_dep(keys: Seq<Seq<char>>, cands: Seq<Seq<char>>, tps: Seq<Seq<char>>, dep: Seq<char>) -> Seq<Seq<char>> {
    match pointer_owner(cands, dep) {
        Some(k) => seq![k],
        None => match table_over(tps, None, dep, 0) {
            Some(t) => seq![t],
            None => {
                let f = fields_under(keys, seq!['#'] + json_pointer_of(dep));
                if f.len() > 0 { f } else { seq![dep] }
            },
        },
    }
}

/// The dependencies of an evaluation outside the tables, over its first `n`
/// recorded ones.
pub open spec fn outside_deps(keys: Seq<Seq<char>>, cands: Seq<Seq<char>>, tps: Seq<Seq<char>>, deps: Seq<Seq<char>>, n: nat) -> Seq<Seq<char>>
    decreases n,
{
    if n == 0 {
        Seq::empty()
    } else {
        add_new(outside_deps(keys, cands, tps, deps, (n - 1) as nat), outside_dep(keys, cands, tps, deps[n - 1]))
    }
}

/// The dependency graph of a schema with evaluation keys `keys`, recorded
/// dependencies `d` and table paths `tps`: one node per table that holds an
/// evaluation, and one per kept evaluation outside the tables.
pub open spec fn schema_graph(keys: Seq<Seq<char>>, d: Map<Seq<char>, Seq<Seq<char>>>, tps: Seq<Seq<char>>) -> Map<Seq<char>, Seq<Seq<char>>> {
    let cands = kept(keys) + tps;
    Map::new(
        |x: Seq<char>| is_graph_node(keys, tps, x),
        |x: Seq<char>|
            if tps.contains(x) {
                table_node_deps(keys, d, cands, tps, x)
            } else {
                outside_deps(keys, cands, tps, deps_of(d, x), deps_of(d, x).len())
            },
    )
}

/// A node of the schema graph: a table that holds an evaluation, or a kept
/// evaluation in no table.
pub open spec fn is_graph_node(keys: Seq<Seq<char>>, tps: Seq<Seq<char>>, x: Seq<char>) -> bool {
    ||| holds_evaluation(keys, tps, x)
    ||| (kept(keys).contains(x) && owning_table(tps, x) is None)
}

pub open spec fn holds_evaluation(keys: Seq<Seq<char>>, tps: Seq<Seq<char>>, x: Seq<char>) -> bool {
    exists|i: int| 0 <= i < keys.len() && #[trigger] owning_table(tps, keys[i]) == Some(x)
}

pub open spec fn opt_view(o: Option<String>) -> Option<Seq<char>> {
    match o {
        Some(s) => Some(s@),
        None => None,
    }
}

/// The tables' paths as characters, with `/` added, and their last segments.
struct TableText {
    chars: Vec<Vec<char>>,
    slashed: Vec<Vec<char>>,
    segs: Vec<Vec<char>>,
}

impl TableText {
    spec fn wf(self, ts: Seq<Seq<char>>) -> bool {
        &&& self.chars@.len() == ts.len()
        &&& self.slashed@.len() == ts.len()
        &&& self.segs@.len() == ts.len()
        &&& forall|j: int| 0 <= j < ts.len() ==> #[trigger] self.chars@[j]@ == ts[j]
            && self.slashed@[j]@ == ts[j].push('/') && self.segs@[j]@ == last_segment(ts[j])
    }
}

fn table_text(tps: &Vec<String>) -> (res: TableText)
    ensures
        res.wf(string_views(tps@)),
{
    let ghost ts = string_views(tps@);
    let mut res = TableText { chars: Vec::new(), slashed: Vec::new(), segs: Vec::new() };
    let mut j: usize = 0;
    while j < tps.len()
        invariant
            j <= tps@.len(),
            ts == string_views(tps@),
            res.chars@.len() == j,
            res.slashed@.len() == j,
            res.segs@.len() == j,
            forall|q: int| 0 <= q < j ==> #[trigger] res.chars@[q]@ == ts[q]
                && res.slashed@[q]@ == ts[q].push('/') && res.segs@[q]@ == last_segment(ts[q]),
        decreases tps@.len() - j,
    {
        let c = to_chars(tps[j].as_str());
        let mut sl = to_chars(tps[j].as_str());
        sl.push('/');
        let sg = last_segment_of(&c);
        res.chars.push(c);
        res.slashed.push(sl);
        res.segs.push(sg);
        j = j + 1;
    }
    res
}

/// What a dependency of an evaluation in table `own` stands for.
fn member_dep(
    ptrs: &Vec<String>,
    cands: &Vec<String>,
    tt: &TableText,
    own: usize,
    dep: &String,
    Ghost(ts): Ghost<Seq<Seq<char>>>,
) -> (res: Option<String>)
    requires
        tt.wf(ts),
        ts.no_duplicates(),
        own < ts.len(),
        ptrs@.len() == cands@.len(),
        forall|j: int| 0 <= j < cands@.len() ==> #[trigger] ptrs@[j]@ == json_pointer_of(cands@[j]@),
    ensures
        opt_view(res) == table_member_dep(string_views(cands@), ts, ts[own as int], dep@),
{
    let ghost cs = string_views(cands@);
    assert forall|j: int| 0 <= j < cs.len() implies #[trigger] ptrs@[j]@ == json_pointer_of(cs[j]) by {
        assert(ptrs@[j]@ == json_pointer_of(cands@[j]@));
    }
    let dc = to_chars(dep.as_str());
    if is_own_column(&dc) {
        return None;
    }
    match pointer_owner_at(ptrs, dep.as_str(), Ghost(cs)) {
        Some(j) => {
            return Some(copy_string(&cands[j]));
        },
        None => {},
    }
    assert(tt.chars@[own as int]@ == ts[own as int]);
    match table_over_at(&tt.chars, &tt.slashed, Some(own), &dc, Ghost(ts)) {
        Some(j) => {
            assert(tt.chars@[j as int]@ == ts[j as int]);
            return Some(string_of(&tt.chars[j]));
        },
        None => {},
    }
    assert forall|j: int| 0 <= j < ts.len() implies #[trigger] tt.segs@[j]@ == last_segment(ts[j]) by {
        assert(tt.chars@[j]@ == ts[j]);
    }
    match table_named_at(&tt.segs, &dc, Ghost(ts)) {
        Some(j) => {
            assert(tt.chars@[j as int]@ == ts[j as int]);
            if j != own {
                assert(ts[j as int] != ts[own as int]);
                return Some(string_of(&tt.chars[j]));
            }
        },
        None => {},
    }
    if !chars_start_with(&dc, &tt.chars[own]) {
        Some(copy_string(dep))
    } else {
        None
    }
}

/// A merged dependency of table `t`, resolved.
fn resolve_merged(ptrs: &Vec<String>, cands: &Vec<String>, t: &String, dep: &String) -> (res: Option<String>)
    requires
        ptrs@.len() == cands@.len(),
        forall|j: int| 0 <= j < cands@.len() ==> #[trigger] ptrs@[j]@ == json_pointer_of(cands@[j]@),
    ensures
        opt_view(res) == resolved(string_views(cands@), t@, dep@),
{
    let ghost cs = string_views(cands@);
    assert forall|j: int| 0 <= j < cs.len() implies #[trigger] ptrs@[j]@ == json_pointer_of(cs[j]) by {
        assert(ptrs@[j]@ == json_pointer_of(cands@[j]@));
    }
    if crate::text::str_eq(dep.as_str(), t.as_str()) {
        return None;
    }
    match pointer_owner_at(ptrs, dep.as_str(), Ghost(cs)) {
        Some(j) => {
            if crate::text::str_eq(cands[j].as_str(), t.as_str()) {
                None
            } else {
                Some(copy_string(&cands[j]))
            }
        },
        None => Some(copy_string(dep)),
    }
}


/// The recorded dependencies of `k`.
fn recorded_deps(dependencies: &IndexMap<String, IndexSet<String>>, k: &str) -> (res: Vec<String>)
    ensures
        string_views(res@) == deps_of(graph_deps(*dependencies), k@),
{
    match graph_get(dependencies, k) {
        Some(s) => set_to_vec(s),
        None => {
            let v: Vec<String> = Vec::new();
            assert(string_views(v@) =~= Seq::<Seq<char>>::empty());
            v
        },
    }
}

/// A list holding `s` alone.
fn single(s: String) -> (res: Vec<String>)
    ensures
        string_views(res@) == seq![s@],
{
    let mut v: Vec<String> = Vec::new();
    v.push(s);
    assert(string_views(v@) =~= seq![v@[0]@]);
    v
}

/// What a dependency of an evaluation outside the tables stands for.
fn outside_dep_of(
    keys: &Vec<String>,
    ptrs: &Vec<String>,
    cands: &Vec<String>,
    tt: &TableText,
    dep: &String,
    Ghost(ts): Ghost<Seq<Seq<char>>>,
) -> (res: Vec<String>)
    requires
        tt.wf(ts),
        ts.no_duplicates(),
        ptrs@.len() == cands@.len(),
        forall|j: int| 0 <= j < cands@.len() ==> #[trigger] ptrs@[j]@ == json_pointer_of(cands@[j]@),
    ensures
        string_views(res@) == outside_dep(string_views(keys@), string_views(cands@), ts, dep@),
{
    let ghost cs = string_views(cands@);
    let ghost ks = string_views(keys@);
    assert forall|j: int| 0 <= j < cs.len() implies #[trigger] ptrs@[j]@ == json_pointer_of(cs[j]) by {
        assert(ptrs@[j]@ == json_pointer_of(cands@[j]@));
    }
    match pointer_owner_at(ptrs, dep.as_str(), Ghost(cs)) {
        Some(j) => {
            return single(copy_string(&cands[j]));
        },
        None => {},
    }
    let dc = to_chars(dep.as_str());
    match table_over_at(&tt.chars, &tt.slashed, None, &dc, Ghost(ts)) {
        Some(j) => {
            assert(tt.chars@[j as int]@ == ts[j as int]);
            return single(string_of(&tt.chars[j]));
        },
        None => {},
    }
    let ptr = normalize_to_json_pointer(dep.as_str());
    let pc = to_chars(ptr.as_str());
    let ghost base = seq!['#'] + json_pointer_of(dep@);
    let mut prefix: Vec<char> = Vec::new();
    prefix.push('#');
    let mut q: usize = 0;
    while q < pc.len()
        invariant
            q <= pc@.len(),
            pc@ == json_pointer_of(dep@),
            prefix@ == seq!['#'] + pc@.take(q as int),
        decreases pc@.len() - q,
    {
        prefix.push(pc[q]);
        q = q + 1;
        assert(prefix@ =~= seq!['#'] + pc@.take(q as int));
    }
    prefix.push('/');
    assert(prefix@ =~= base.push('/'));
    let mut fields: Vec<String> = Vec::new();
    let mut i: usize = 0;
    assert(string_views(fields@) =~= fields_under(ks.take(0), base));
    while i < keys.len()
        invariant
            i <= keys@.len(),
            ks == string_views(keys@),
            prefix@ == base.push('/'),
            string_views(fields@) == fields_under(ks.take(i as int), base),
        decreases keys@.len() - i,
    {
        assert(ks.take(i + 1).drop_last() =~= ks.take(i as int));
        assert(ks.take(i + 1).last() == keys@[i as int]@);
        let kc = to_chars(keys[i].as_str());
        if chars_start_with(&kc, &prefix) {
            let ghost prev = fields@;
            fields.push(copy_string(&keys[i]));
            assert(string_views(fields@) =~= string_views(prev).push(keys@[i as int]@));
        }
        i = i + 1;
    }
    assert(ks.take(keys@.len() as int) =~= ks);
    if fields.len() > 0 {
        fields
    } else {
        single(copy_string(dep))
    }
}

/// The position of `x` among the table paths.
fn find_table(chars: &Vec<Vec<char>>, x: &Vec<char>, Ghost(ts): Ghost<Seq<Seq<char>>>) -> (res: Option<usize>)
    requires
        chars@.len() == ts.len(),
        forall|j: int| 0 <= j < ts.len() ==> #[trigger] chars@[j]@ == ts[j],
    ensures
        match res {
            Some(j) => j < ts.len() && ts[j as int] == x@,
            None => !ts.contains(x@),
        },
{
    let mut j: usize = 0;
    while j < chars.len()
        invariant
            j <= ts.len(),
            chars@.len() == ts.len(),
            forall|q: int| 0 <= q < ts.len() ==> #[trigger] chars@[q]@ == ts[q],
            forall|q: int| 0 <= q < j ==> ts[q] != x@,
        decreases ts.len() - j,
    {
        assert(chars@[j as int]@ == ts[j as int]);
        if chars_eq(&chars[j], x) {
            return Some(j);
        }
        j = j + 1;
    }
    None
}


/// The kept evaluation keys.
fn kept_keys_of(keys: &Vec<String>) -> (res: Vec<String>)
    ensures
        string_views(res@) == kept(string_views(keys@)),
{
    let ghost ks = string_views(keys@);
    let mut out: Vec<String> = Vec::new();
    let mut i: usize = 0;
    assert(string_views(out@) =~= kept(ks.take(0)));
    while i < keys.len()
        invariant
            i <= keys@.len(),
            ks == string_views(keys@),
            string_views(out@) == kept(ks.take(i as int)),
        decreases keys@.len() - i,
    {
        assert(ks.take(i + 1).drop_last() =~= ks.take(i as int));
        assert(ks.take(i + 1).last() == keys@[i as int]@);
        if keeps_evaluation(keys[i].as_str()) {
            let ghost prev = out@;
            out.push(copy_string(&keys[i]));
            assert(string_views(out@) =~= string_views(prev).push(keys@[i as int]@));
        }
        i = i + 1;
    }
    assert(ks.take(keys@.len() as int) =~= ks);
    out
}

/// The evaluations and tables that a dependency can point at (kept keys, then
/// table paths), with their JSON pointer forms.
fn candidates(kept_keys: &Vec<String>, tps: &Vec<String>) -> (res: (Vec<String>, Vec<String>))
    ensures
        string_views(res.0@) == string_views(kept_keys@) + string_views(tps@),
        res.1@.len() == res.0@.len(),
        forall|j: int| 0 <= j < res.0@.len() ==> #[trigger] res.1@[j]@ == json_pointer_of(res.0@[j]@),
{
    let mut cands: Vec<String> = Vec::new();
    let mut ptrs: Vec<String> = Vec::new();
    add_candidates(&mut cands, &mut ptrs, kept_keys);
    add_candidates(&mut cands, &mut ptrs, tps);
    (cands, ptrs)
}

/// `cands` with `more` added, and `ptrs` with their pointer forms.
fn add_candidates(cands: &mut Vec<String>, ptrs: &mut Vec<String>, more: &Vec<String>)
    requires
        old(ptrs)@.len() == old(cands)@.len(),
        forall|q: int| 0 <= q < old(cands)@.len() ==> #[trigger] old(ptrs)@[q]@ == json_pointer_of(old(cands)@[q]@),
    ensures
        string_views(final(cands)@) == string_views(old(cands)@) + string_views(more@),
        final(ptrs)@.len() == final(cands)@.len(),
        forall|q: int| 0 <= q < final(cands)@.len() ==> #[trigger] final(ptrs)@[q]@ == json_pointer_of(final(cands)@[q]@),
{
    let ghost start = string_views(cands@);
    let ghost ms = string_views(more@);
    let mut j: usize = 0;
    assert(start + ms.take(0) =~= start);
    while j < more.len()
        invariant
            j <= more@.len(),
            ms == string_views(more@),
            string_views(cands@) == start + ms.take(j as int),
            ptrs@.len() == cands@.len(),
            forall|q: int| 0 <= q < cands@.len() ==> #[trigger] ptrs@[q]@ == json_pointer_of(cands@[q]@),
        decreases more@.len() - j,
    {
        let c = copy_string(&more[j]);
        let p = normalize_to_json_pointer(c.as_str());
        let ghost prev = cands@;
        cands.push(c);
        ptrs.push(p);
        assert(string_views(cands@) =~= string_views(prev).push(ms[j as int]));
        assert(start + ms.take(j + 1) =~= (start + ms.take(j as int)).push(ms[j as int]));
        j = j + 1;
    }
    assert(ms.take(more@.len() as int) =~= ms);
}

/// The owning table of each key, by position.
fn owners_of(keys: &Vec<String>, tt: &TableText, Ghost(ts): Ghost<Seq<Seq<char>>>) -> (res: Vec<Option<usize>>)
    requires
        tt.wf(ts),
    ensures
        res@.len() == keys@.len(),
        forall|q: int| 0 <= q < keys@.len() ==> owner_at(#[trigger] res@[q], ts, keys@[q]@),
{
    let mut out: Vec<Option<usize>> = Vec::new();
    let mut i: usize = 0;
    while i < keys.len()
        invariant
            i <= keys@.len(),
            tt.wf(ts),
            out@.len() == i,
            forall|q: int| 0 <= q < i ==> owner_at(#[trigger] out@[q], ts, keys@[q]@),
        decreases keys@.len() - i,
    {
        let kc = to_chars(keys[i].as_str());
        let o = owner_of(&tt.chars, &kc, Ghost(ts));
        out.push(o);
        i = i + 1;
    }
    out
}

/// `o` is the position of the owning table of `k`.
pub open spec fn owner_at(o: Option<usize>, ts: Seq<Seq<char>>, k: Seq<char>) -> bool {
    match o {
        Some(j) => j < ts.len() && owning_table(ts, k) == Some(ts[j as int]),
        None => owning_table(ts, k) is None,
    }
}

/// The tables that hold an evaluation, in order of first appearance.
fn holders_of(keys: &Vec<String>, owners: &Vec<Option<usize>>, tt: &TableText, Ghost(ts): Ghost<Seq<Seq<char>>>) -> (res: IndexSet<String>)
    requires
        tt.wf(ts),
        owners@.len() == keys@.len(),
        forall|q: int| 0 <= q < keys@.len() ==> owner_at(#[trigger] owners@[q], ts, keys@[q]@),
    ensures
        set_items(res).no_duplicates(),
        forall|x: Seq<char>| #[trigger] set_items(res).contains(x) <==> holds_evaluation(string_views(keys@), ts, x),
{
    let ghost ks = string_views(keys@);
    let mut h = set_new();
    let mut i: usize = 0;
    assert(set_items(h) =~= Seq::<Seq<char>>::empty());
    while i < keys.len()
        invariant
            i <= keys@.len(),
            ks == string_views(keys@),
            tt.wf(ts),
            owners@.len() == keys@.len(),
            forall|q: int| 0 <= q < keys@.len() ==> owner_at(#[trigger] owners@[q], ts, keys@[q]@),
            set_items(h).no_duplicates(),
            forall|x: Seq<char>| #[trigger] set_items(h).contains(x) <==>
                exists|q: int| 0 <= q < i && #[trigger] owning_table(ts, ks[q]) == Some(x),
        decreases keys@.len() - i,
    {
        assert(owner_at(owners@[i as int], ts, keys@[i as int]@));
        assert(ks[i as int] == keys@[i as int]@);
        let ghost before = set_items(h);
        match owners[i] {
            Some(j) => {
                assert(tt.chars@[j as int]@ == ts[j as int]);
                let name = string_of(&tt.chars[j]);
                let fresh = set_insert(&mut h, name);
                proof {
                    let after = set_items(h);
                    if fresh {
                        assert(after[before.len() as int] == ts[j as int]);
                        assert forall|a: int, b: int| 0 <= a < after.len() && 0 <= b < after.len() && a != b implies after[a] != after[b] by {
                            if a < before.len() && b < before.len() {
                                assert(after[a] == before[a] && after[b] == before[b]);
                            } else if a < before.len() {
                                assert(after[a] == before[a]);
                                assert(before.contains(after[a]));
                            } else if b < before.len() {
                                assert(after[b] == before[b]);
                                assert(before.contains(after[b]));
                            }
                        }
                    }
                    assert forall|x: Seq<char>| #[trigger] after.contains(x) <==>
                        exists|q: int| 0 <= q < i + 1 && #[trigger] owning_table(ts, ks[q]) == Some(x) by {
                        if after.contains(x) {
                            if x == ts[j as int] {
                                assert(owning_table(ts, ks[i as int]) == Some(x));
                            } else {
                                let a = choose|a: int| 0 <= a < after.len() && after[a] == x;
                                if fresh && a == before.len() {
                                } else {
                                    assert(before[a] == x);
                                    assert(before.contains(x));
                                }
                            }
                        }
                        if exists|q: int| 0 <= q < i + 1 && #[trigger] owning_table(ts, ks[q]) == Some(x) {
                            let q = choose|q: int| 0 <= q < i + 1 && #[trigger] owning_table(ts, ks[q]) == Some(x);
                            if q < i {
                                assert(before.contains(x));
                                let a = choose|a: int| 0 <= a < before.len() && before[a] == x;
                                assert(after[a] == x);
                            } else {
                                assert(x == ts[j as int]);
                                if fresh {
                                    assert(after[before.len() as int] == x);
                                } else {
                                    assert(before.contains(x));
                                }
                            }
                        }
                    }
                }
            },
            None => {
                proof {
                    assert forall|x: Seq<char>| #[trigger] set_items(h).contains(x) <==>
                        exists|q: int| 0 <= q < i + 1 && #[trigger] owning_table(ts, ks[q]) == Some(x) by {
                        if exists|q: int| 0 <= q < i + 1 && #[trigger] owning_table(ts, ks[q]) == Some(x) {
                            let q = choose|q: int| 0 <= q < i + 1 && #[trigger] owning_table(ts, ks[q]) == Some(x);
                            assert(q < i);
                        }
                    }
                }
            },
        }
        i = i + 1;
    }
    h
}


/// The graph node of table `tx`: the merged dependencies of its evaluations,
/// resolved.
fn table_node(
    keys: &Vec<String>,
    dependencies: &IndexMap<String, IndexSet<String>>,
    owners: &Vec<Option<usize>>,
    ptrs: &Vec<String>,
    cands: &Vec<String>,
    tt: &TableText,
    tx: usize,
    Ghost(ts): Ghost<Seq<Seq<char>>>,
) -> (res: IndexSet<String>)
    requires
        tt.wf(ts),
        ts.no_duplicates(),
        tx < ts.len(),
        owners@.len() == keys@.len(),
        forall|q: int| 0 <= q < keys@.len() ==> owner_at(#[trigger] owners@[q], ts, keys@[q]@),
        ptrs@.len() == cands@.len(),
        forall|j: int| 0 <= j < cands@.len() ==> #[trigger] ptrs@[j]@ == json_pointer_of(cands@[j]@),
    ensures
        set_items(res) == table_node_deps(
            string_views(keys@), graph_deps(*dependencies), string_views(cands@), ts, ts[tx as int]),
{
    let ghost ks = string_views(keys@);
    let ghost d = graph_deps(*dependencies);
    let ghost cs = string_views(cands@);
    let ghost t = ts[tx as int];
    let mut gs = set_new();
    let mut i: usize = 0;
    assert(set_items(gs) =~= group(ks, d, cs, ts, t, 0));
    while i < keys.len()
        invariant
            i <= keys@.len(),
            ks == string_views(keys@),
            d == graph_deps(*dependencies),
            cs == string_views(cands@),
            t == ts[tx as int],
            tt.wf(ts),
            ts.no_duplicates(),
            tx < ts.len(),
            owners@.len() == keys@.len(),
            forall|q: int| 0 <= q < keys@.len() ==> owner_at(#[trigger] owners@[q], ts, keys@[q]@),
            ptrs@.len() == cands@.len(),
            forall|j: int| 0 <= j < cands@.len() ==> #[trigger] ptrs@[j]@ == json_pointer_of(cands@[j]@),
            set_items(gs) == group(ks, d, cs, ts, t, i as nat),
        decreases keys@.len() - i,
    {
        assert(owner_at(owners@[i as int], ts, keys@[i as int]@));
        assert(ks[i as int] == keys@[i as int]@);
        let here = match owners[i] {
            Some(j) => j == tx,
            None => false,
        };
        proof {
            if let Some(j) = owners@[i as int] {
                if j != tx {
                    assert(ts[j as int] != ts[tx as int]);
                }
            }
        }
        if here {
            let deps = recorded_deps(dependencies, keys[i].as_str());
            let ghost dv = string_views(deps@);
            let ghost md = member_deps(cs, ts, t, dv);
            let ghost g0 = set_items(gs);
            let mut k: usize = 0;
            assert(md.take(0) =~= Seq::<Option<Seq<char>>>::empty());
            while k < deps.len()
                invariant
                    k <= deps@.len(),
                    dv == string_views(deps@),
                    md == member_deps(cs, ts, t, dv),
                    cs == string_views(cands@),
                    t == ts[tx as int],
                    tt.wf(ts),
                    ts.no_duplicates(),
                    tx < ts.len(),
                    ptrs@.len() == cands@.len(),
                    forall|j: int| 0 <= j < cands@.len() ==> #[trigger] ptrs@[j]@ == json_pointer_of(cands@[j]@),
                    set_items(gs) == gather(g0, md.take(k as int)),
                decreases deps@.len() - k,
            {
                let r = member_dep(ptrs, cands, tt, tx, &deps[k], Ghost(ts));
                assert(md.take(k + 1).drop_last() =~= md.take(k as int));
                assert(md.take(k + 1).last() == md[k as int]);
                assert(dv[k as int] == deps@[k as int]@);
                match r {
                    Some(v) => {
                        set_insert(&mut gs, v);
                    },
                    None => {},
                }
                k = k + 1;
            }
            assert(md.take(deps@.len() as int) =~= md);
        }
        i = i + 1;
    }
    assert(ks.take(keys@.len() as int) =~= ks);
    let gv = set_to_vec(&gs);
    let ghost g = set_items(gs);
    let ghost rseq = Seq::new(g.len(), |q: int| resolved(cs, t, g[q]));
    let name = string_of(&tt.chars[tx]);
    assert(name@ == t);
    let mut rs = set_new();
    let mut k: usize = 0;
    assert(set_items(rs) =~= gather(Seq::empty(), rseq.take(0)));
    while k < gv.len()
        invariant
            k <= gv@.len(),
            string_views(gv@) == g,
            rseq == Seq::new(g.len(), |q: int| resolved(cs, t, g[q])),
            cs == string_views(cands@),
            name@ == t,
            ptrs@.len() == cands@.len(),
            forall|j: int| 0 <= j < cands@.len() ==> #[trigger] ptrs@[j]@ == json_pointer_of(cands@[j]@),
            set_items(rs) == gather(Seq::empty(), rseq.take(k as int)),
        decreases gv@.len() - k,
    {
        let r = resolve_merged(ptrs, cands, &name, &gv[k]);
        assert(rseq.take(k + 1).drop_last() =~= rseq.take(k as int));
        assert(rseq.take(k + 1).last() == rseq[k as int]);
        assert(g[k as int] == gv@[k as int]@);
        match r {
            Some(v) => {
                set_insert(&mut rs, v);
            },
            None => {},
        }
        k = k + 1;
    }
    assert(rseq.take(gv@.len() as int) =~= rseq);
    rs
}

/// The graph node of an evaluation `k` outside the tables.
fn outside_node(
    keys: &Vec<String>,
    dependencies: &IndexMap<String, IndexSet<String>>,
    ptrs: &Vec<String>,
    cands: &Vec<String>,
    tt: &TableText,
    k: &String,
    Ghost(ts): Ghost<Seq<Seq<char>>>,
) -> (res: IndexSet<String>)
    requires
        tt.wf(ts),
        ts.no_duplicates(),
        ptrs@.len() == cands@.len(),
        forall|j: int| 0 <= j < cands@.len() ==> #[trigger] ptrs@[j]@ == json_pointer_of(cands@[j]@),
    ensures
        set_items(res) == outside_deps(
            string_views(keys@), string_views(cands@), ts,
            deps_of(graph_deps(*dependencies), k@), deps_of(graph_deps(*dependencies), k@).len()),
{
    let ghost ks = string_views(keys@);
    let ghost cs = string_views(cands@);
    let deps = recorded_deps(dependencies, k.as_str());
    let ghost dv = string_views(deps@);
    let mut os = set_new();
    let mut j: usize = 0;
    assert(set_items(os) =~= outside_deps(ks, cs, ts, dv, 0));
    while j < deps.len()
        invariant
            j <= deps@.len(),
            dv == string_views(deps@),
            ks == string_views(keys@),
            cs == string_views(cands@),
            tt.wf(ts),
            ts.no_duplicates(),
            ptrs@.len() == cands@.len(),
            forall|q: int| 0 <= q < cands@.len() ==> #[trigger] ptrs@[q]@ == json_pointer_of(cands@[q]@),
            set_items(os) == outside_deps(ks, cs, ts, dv, j as nat),
        decreases deps@.len() - j,
    {
        let items = outside_dep_of(keys, ptrs, cands, tt, &deps[j], Ghost(ts));
        assert(dv[j as int] == deps@[j as int]@);
        let ghost xs = string_views(items@);
        let ghost a0 = set_items(os);
        let mut q: usize = 0;
        assert(add_new(a0, xs.take(0)) == a0) by {
            assert(xs.take(0) =~= Seq::<Seq<char>>::empty());
        }
        while q < items.len()
            invariant
                q <= items@.len(),
                xs == string_views(items@),
                set_items(os) == add_new(a0, xs.take(q as int)),
            decreases items@.len() - q,
        {
            assert(xs.take(q + 1).drop_last() =~= xs.take(q as int));
            assert(xs.take(q + 1).last() == items@[q as int]@);
            set_insert(&mut os, copy_string(&items[q]));
            q = q + 1;
        }
        assert(xs.take(items@.len() as int) =~= xs);
        j = j + 1;
    }
    os
}


/// Build the dependency graph of a schema from its evaluation keys, their
/// recorded dependencies and its table paths: each table that holds
/// evaluations becomes one node carrying their merged dependencies, and each
/// kept evaluation outside the tables becomes a node of its own, its
/// dependencies resolved to the evaluations, tables and fields they point at.
pub fn schema_dependency_graph(
    eval_keys: &IndexSet<String>,
    dependencies: &IndexMap<String, IndexSet<String>>,
    table_paths: &IndexSet<String>,
) -> (res: IndexMap<String, IndexSet<String>>)
    ensures
        graph_deps(res) == schema_graph(set_items(*eval_keys), graph_deps(*dependencies), set_items(*table_paths)),
{
    let keys = set_to_vec(eval_keys);
    let tps = set_to_vec(table_paths);
    let ghost ks = string_views(keys@);
    let ghost ts = string_views(tps@);
    let ghost d = graph_deps(*dependencies);
    let tt = table_text(&tps);
    let kept_keys = kept_keys_of(&keys);
    let ghost kv = kept(ks);
    let (cands, ptrs) = candidates(&kept_keys, &tps);
    let ghost cs = string_views(cands@);
    assert(cs == kv + ts);
    let owners = owners_of(&keys, &tt, Ghost(ts));
    let holders = holders_of(&keys, &owners, &tt, Ghost(ts));
    let hv = set_to_vec(&holders);
    let ghost hs = string_views(hv@);
    let mut graph = graph_new();
    let mut m: usize = 0;
    assert(graph_deps(graph) =~= Map::<Seq<char>, Seq<Seq<char>>>::empty());
    while m < hv.len()
        invariant
            m <= hv@.len(),
            hs == string_views(hv@),
            hs == set_items(holders),
            forall|x: Seq<char>| #[trigger] hs.contains(x) <==> holds_evaluation(ks, ts, x),
            ks == string_views(keys@),
            ts == string_views(tps@),
            ts.no_duplicates(),
            d == graph_deps(*dependencies),
            cs == string_views(cands@),
            tt.wf(ts),
            owners@.len() == keys@.len(),
            forall|q: int| 0 <= q < keys@.len() ==> owner_at(#[trigger] owners@[q], ts, keys@[q]@),
            ptrs@.len() == cands@.len(),
            forall|j: int| 0 <= j < cands@.len() ==> #[trigger] ptrs@[j]@ == json_pointer_of(cands@[j]@),
            forall|y: Seq<char>| #[trigger] graph_deps(graph).contains_key(y) <==> hs.take(m as int).contains(y),
            forall|y: Seq<char>| #[trigger] graph_deps(graph).contains_key(y)
                ==> ts.contains(y) && graph_deps(graph)[y] == table_node_deps(ks, d, cs, ts, y),
        decreases hv@.len() - m,
    {
        let ghost x = hs[m as int];
        assert(hv@[m as int]@ == x);
        assert(hs.contains(x));
        proof {
            let q = choose|q: int| 0 <= q < ks.len() && #[trigger] owning_table(ts, ks[q]) == Some(x);
            lemma_owning_in(ts, ks[q]);
        }
        let xc = to_chars(hv[m].as_str());
        match find_table(&tt.chars, &xc, Ghost(ts)) {
            Some(tx) => {
                let node = table_node(&keys, dependencies, &owners, &ptrs, &cands, &tt, tx, Ghost(ts));
                let ghost before = graph_deps(graph);
                graph_insert(&mut graph, copy_string(&hv[m]), node);
                proof {
                    let pt = hs.take(m as int);
                    let nt = hs.take(m + 1);
                    assert forall|y: Seq<char>| #[trigger] graph_deps(graph).contains_key(y) <==> nt.contains(y) by {
                        if pt.contains(y) {
                            let a = choose|a: int| 0 <= a < pt.len() && pt[a] == y;
                            assert(nt[a] == y);
                        }
                        if nt.contains(y) {
                            let a = choose|a: int| 0 <= a < nt.len() && nt[a] == y;
                            if a < m {
                                assert(pt[a] == y);
                            }
                        }
                        assert(nt[m as int] == x);
                    }
                }
            },
            None => {
                proof {
                    assert(false);
                }
            },
        }
        m = m + 1;
    }
    assert(hs.take(hv@.len() as int) =~= hs);
    let mut p: usize = 0;
    while p < kept_keys.len()
        invariant
            p <= kept_keys@.len(),
            string_views(kept_keys@) == kv,
            hs == string_views(hv@),
            forall|x: Seq<char>| #[trigger] hs.contains(x) <==> holds_evaluation(ks, ts, x),
            ks == string_views(keys@),
            ts == string_views(tps@),
            ts.no_duplicates(),
            d == graph_deps(*dependencies),
            cs == string_views(cands@),
            tt.wf(ts),
            ptrs@.len() == cands@.len(),
            forall|j: int| 0 <= j < cands@.len() ==> #[trigger] ptrs@[j]@ == json_pointer_of(cands@[j]@),
            forall|y: Seq<char>| #[trigger] graph_deps(graph).contains_key(y) <==>
                (hs.contains(y) || (kv.take(p as int).contains(y) && owning_table(ts, y) is None)),
            forall|y: Seq<char>| #[trigger] graph_deps(graph).contains_key(y) ==> graph_deps(graph)[y] == (
                if ts.contains(y) {
                    table_node_deps(ks, d, cs, ts, y)
                } else {
                    outside_deps(ks, cs, ts, deps_of(d, y), deps_of(d, y).len())
                }),
        decreases kept_keys@.len() - p,
    {
        let ghost y0 = kv[p as int];
        assert(kept_keys@[p as int]@ == y0);
        let kc = to_chars(kept_keys[p].as_str());
        let o = owner_of(&tt.chars, &kc, Ghost(ts));
        let ghost before = graph_deps(graph);
        if o.is_none() {
            proof {
                lemma_owning_in(ts, y0);
            }
            let node = outside_node(&keys, dependencies, &ptrs, &cands, &tt, &kept_keys[p], Ghost(ts));
            graph_insert(&mut graph, copy_string(&kept_keys[p]), node);
        }
        proof {
            let pt = kv.take(p as int);
            let nt = kv.take(p + 1);
            assert forall|y: Seq<char>| #[trigger] graph_deps(graph).contains_key(y) <==>
                (hs.contains(y) || (nt.contains(y) && owning_table(ts, y) is None)) by {
                if pt.contains(y) {
                    let a = choose|a: int| 0 <= a < pt.len() && pt[a] == y;
                    assert(nt[a] == y);
                }
                if nt.contains(y) {
                    let a = choose|a: int| 0 <= a < nt.len() && nt[a] == y;
                    if a < p {
                        assert(pt[a] == y);
                    } else {
                        assert(y == y0);
                    }
                }
                assert(nt[p as int] == y0);
            }
        }
        p = p + 1;
    }
    proof {
        assert(kv.take(kv.len() as int) =~= kv);
        let sg = schema_graph(ks, d, ts);
        assert forall|y: Seq<char>| #[trigger] graph_deps(graph).contains_key(y) <==> sg.contains_key(y) by {
            assert(hs.contains(y) <==> holds_evaluation(ks, ts, y));
        }
        assert forall|y: Seq<char>| #[trigger] graph_deps(graph).contains_key(y) implies graph_deps(graph)[y] == sg[y] by {
            assert(sg.contains_key(y));
        }
        assert(graph_deps(graph) =~= sg);
    }
    graph
}

/// Order the evaluations of a schema: build its dependency graph, then order
/// it in phases and group the order into parallel batches; the ordering fails
/// exactly when the graph has a circular dependency.
pub fn topological_sort_schema(
    eval_keys: &IndexSet<String>,
    dependencies: &IndexMap<String, IndexSet<String>>,
    table_paths: &IndexSet<String>,
) -> (res: Result<Vec<Vec<String>>, String>)
    ensures
        res matches Ok(b) ==> exists|order: Seq<Seq<char>>| #[trigger] phased_result(
            order,
            schema_graph(set_items(*eval_keys), graph_deps(*dependencies), set_items(*table_paths)),
            set_items(*table_paths),
            batch_views(b@),
        ),
        res matches Err(m) ==> m@.len() >= 40 && m@.subrange(0, 40) == "Circular dependency detected involving: "@,
        res is Ok <==> acyclic(schema_graph(set_items(*eval_keys), graph_deps(*dependencies), set_items(*table_paths))),
{
    let graph = schema_dependency_graph(eval_keys, dependencies, table_paths);
    sort_in_phases(&graph, table_paths)
}


proof fn lemma_gather_from(acc: Seq<Seq<char>>, opts: Seq<Option<Seq<char>>>, x: Seq<char>)
    requires
        gather(acc, opts).contains(x),
    ensures
        acc.contains(x) || exists|i: int| 0 <= i < opts.len() && #[trigger] opts[i] == Some(x),
    decreases opts.len(),
{
    if opts.len() > 0 {
        let g = gather(acc, opts.drop_last());
        if g.contains(x) {
            lemma_gather_from(acc, opts.drop_last(), x);
            if !acc.contains(x) {
                let i = choose|i: int| 0 <= i < opts.drop_last().len() && #[trigger] opts.drop_last()[i] == Some(x);
                assert(opts[i] == Some(x));
            }
        } else {
            let last = opts.len() - 1;
            assert(opts[last] == opts.last());
            match opts.last() {
                Some(y) => {
                    if !g.contains(y) {
                        let gy = g.push(y);
                        let a = choose|a: int| 0 <= a < gy.len() && gy[a] == x;
                        if a < g.len() {
                            assert(g[a] == x);
                        }
                    }
                },
                None => {},
            }
        }
    }
}

/// A table never depends on itself in the schema graph: references from a
/// table's evaluations to the table itself are dropped.
pub proof fn law_table_not_its_own_dependency(
    keys: Seq<Seq<char>>,
    d: Map<Seq<char>, Seq<Seq<char>>>,
    tps: Seq<Seq<char>>,
    t: Seq<char>,
)
    requires
        schema_graph(keys, d, tps).contains_key(t),
        tps.contains(t),
    ensures
        !schema_graph(keys, d, tps)[t].contains(t),
{
    let cands = kept(keys) + tps;
    let g = group(keys, d, cands, tps, t, keys.len());
    let opts = Seq::new(g.len(), |i: int| resolved(cands, t, g[i]));
    assert(schema_graph(keys, d, tps)[t] == gather(Seq::empty(), opts));
    if gather(Seq::empty(), opts).contains(t) {
        lemma_gather_from(Seq::empty(), opts, t);
        let i = choose|i: int| 0 <= i < opts.len() && #[trigger] opts[i] == Some(t);
        assert(opts[i] == resolved(cands, t, g[i]));
    }
}


/// An evaluation that lies inside a table is merged into that table: unless it
/// is itself a table path, it is no node of the schema graph.
pub proof fn law_table_evaluations_merged(
    keys: Seq<Seq<char>>,
    d: Map<Seq<char>, Seq<Seq<char>>>,
    tps: Seq<Seq<char>>,
    k: Seq<char>,
)
    requires
        owning_table(tps, k) is Some,
        !tps.contains(k),
    ensures
        !schema_graph(keys, d, tps).contains_key(k),
{
    if holds_evaluation(keys, tps, k) {
        let i = choose|i: int| 0 <= i < keys.len() && #[trigger] owning_table(tps, keys[i]) == Some(k);
        lemma_owning_in(tps, keys[i]);
    }
}

#[verifier::spinoff_prover]
#[verifier::rlimit(80)]
proof fn lemma_kept_member(keys: Seq<Seq<char>>, x: Seq<char>)
    requires
        kept(keys).contains(x),
    ensures
        keys.contains(x),
        keep_evaluation(x),
    decreases keys.len(),
{
    let r = kept(keys.drop_last());
    if keep_evaluation(keys.last()) && x == keys.last() {
        assert(keys[keys.len() - 1] == x);
    } else {
        if keep_evaluation(keys.last()) {
            let j = choose|j: int| 0 <= j < kept(keys).len() && kept(keys)[j] == x;
            assert(kept(keys) == r.push(keys.last()));
            assert(j < r.len());
            assert(r[j] == x);
        }
        lemma_kept_member(keys.drop_last(), x);
        let j = choose|j: int| 0 <= j < keys.drop_last().len() && keys.drop_last()[j] == x;
        assert(keys[j] == x);
    }
}

/// Only the evaluations the schema orders become nodes of its graph: a node that
/// is not a table path is one of the evaluation keys, starts with `#/$`, and is
/// not a layout, rule, dependent, option, condition, config, item or value
/// entry.
#[verifier::spinoff_prover]
#[verifier::rlimit(80)]
pub proof fn law_unordered_keys_are_not_nodes(
    keys: Seq<Seq<char>>,
    d: Map<Seq<char>, Seq<Seq<char>>>,
    tps: Seq<Seq<char>>,
    x: Seq<char>,
)
    requires
        schema_graph(keys, d, tps).contains_key(x),
        !tps.contains(x),
    ensures
        keys.contains(x),
        starts_with(x, "#/$"@),
        !contains_seq(x, "/$layout/"@),
        !contains_seq(x, "/rules/"@),
        !contains_seq(x, "/dependents/"@),
        !contains_seq(x, "/options/"@),
        !contains_seq(x, "/condition/"@),
        !contains_seq(x, "/config/"@),
        !contains_seq(x, "/items/"@),
        !contains_seq(x, "/value/"@),
        !ends_with(x, "/options"@),
        !ends_with(x, "/value"@),
{
    if holds_evaluation(keys, tps, x) {
        let i = choose|i: int| 0 <= i < keys.len() && #[trigger] owning_table(tps, keys[i]) == Some(x);
        lemma_owning_in(tps, keys[i]);
    }
    lemma_kept_member(keys, x);
}

/// The table that owns a key is the longest table path the key starts with:
/// one exists exactly when the key starts with some table path, and no table
/// path the key starts with is longer.
#[verifier::spinoff_prover]
#[verifier::rlimit(80)]
pub proof fn law_owning_table_is_longest_prefix(tps: Seq<Seq<char>>, k: Seq<char>)
    ensures
        owning_table(tps, k) is None <==> forall|q: int| 0 <= q < tps.len() ==> !starts_with(k, #[trigger] tps[q]),
        owning_table(tps, k) matches Some(t) ==> {
            &&& tps.contains(t)
            &&& starts_with(k, t)
            &&& forall|q: int| 0 <= q < tps.len() && starts_with(k, #[trigger] tps[q]) ==> tps[q].len() <= t.len()
        },
    decreases tps.len(),
{
    if tps.len() > 0 {
        let init = tps.drop_last();
        law_owning_table_is_longest_prefix(init, k);
        assert forall|q: int| 0 <= q < init.len() implies #[trigger] init[q] == tps[q] by {}
        assert(tps[tps.len() - 1] == tps.last());
        if let Some(t) = owning_table(init, k) {
            let j = choose|j: int| 0 <= j < init.len() && init[j] == t;
            assert(tps[j] == t);
        }
        if owning_table(tps, k) is None {
            assert forall|q: int| 0 <= q < tps.len() implies !starts_with(k, #[trigger] tps[q]) by {
                if q < tps.len() - 1 {
                    assert(init[q] == tps[q]);
                }
            }
        }
        if let Some(t) = owning_table(tps, k) {
            assert(tps.contains(t));
            assert forall|q: int| 0 <= q < tps.len() && starts_with(k, #[trigger] tps[q]) implies tps[q].len() <= t.len() by {
                if q < tps.len() - 1 {
                    assert(init[q] == tps[q]);
                    assert(init.contains(tps[q]));
                    assert(owning_table(init, k) is Some);
                }
            }
        }
    }
}

} // verus!
