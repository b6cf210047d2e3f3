//! The decisions of table evaluation: the plan of a table's rows and columns,
//! which columns wait on later rows, and the order in which cells are
//! evaluated and written, as a state machine driven by the evaluator's results.

use vstd::prelude::*;
use crate::analysis::{vars_of, strictly_sorted};
use crate::compiled::{LogicId, string_views};
use crate::forward::forward_ref;
use crate::json::{JsonValue, JsonView, entry_views};
use crate::logic_store::CompiledLogicStore;
use crate::path::{entry_lookup, lookup_entry};
use crate::paths::replace_char;
use crate::data_wrapper::{entry_set, set_entry};
use crate::text::{copy_string, lex_less, lemma_lex_irreflexive, lemma_lex_total, lemma_lex_transitive, starts_with, str_eq, to_chars, string_of};

verus! {

// ---------------------------------------------------------------------------
// Text of paths.

/// The decimal digit of `d` (below ten).
pub open spec fn digit_char(d: nat) -> char {
    if d == 0 { '0' } else if d == 1 { '1' } else if d == 2 { '2' } else if d == 3 { '3' } else if d == 4 { '4' }
    else if d == 5 { '5' } else if d == 6 { '6' } else if d == 7 { '7' } else if d == 8 { '8' } else { '9' }
}

/// The decimal text of `n`.
pub open spec fn decimal(n: nat) -> Seq<char>
    decreases n,
{
    if n < 10 { seq![digit_char(n)] } else { decimal(n / 10).push(digit_char(n % 10)) }
}

fn digit_of(d: usize) -> (res: char)
    requires
        d < 10,
    ensures
        res == digit_char(d as nat),
{
    if d == 0 { '0' } else if d == 1 { '1' } else if d == 2 { '2' } else if d == 3 { '3' } else if d == 4 { '4' }
    else if d == 5 { '5' } else if d == 6 { '6' } else if d == 7 { '7' } else if d == 8 { '8' } else { '9' }
}

fn decimal_chars(n: usize) -> (res: Vec<char>)
    ensures
        res@ == decimal(n as nat),
    decreases n,
{
    if n < 10 {
        let mut v: Vec<char> = Vec::new();
        v.push(digit_of(n));
        assert(v@ =~= seq![digit_char(n as nat)]);
        v
    } else {
        let mut v = decimal_chars(n / 10);
        v.push(digit_of(n % 10));
        v
    }
}

/// `a` followed by `b`.
fn concat(a: &Vec<char>, b: &Vec<char>) -> (res: Vec<char>)
    ensures
        res@ == a@ + b@,
{
    let mut out: Vec<char> = Vec::new();
    let mut i: usize = 0;
    while i < a.len()
        invariant
            i <= a@.len(),
            out@ == a@.take(i as int),
        decreases a@.len() - i,
    {
        out.push(a[i]);
        i = i + 1;
        assert(out@ =~= a@.take(i as int));
    }
    let mut j: usize = 0;
    while j < b.len()
        invariant
            i == a@.len(),
            j <= b@.len(),
            out@ == a@ + b@.take(j as int),
        decreases b@.len() - j,
    {
        out.push(b[j]);
        j = j + 1;
        assert(out@ =~= a@ + b@.take(j as int));
    }
    assert(a@.take(a@.len() as int) =~= a@);
    assert(b@.take(b@.len() as int) =~= b@);
    out
}

/// `s` without its leading `#/` prefixes, slashes turned into dots: where a
/// table's rows live in the data.
pub open spec fn table_data_path(s: Seq<char>) -> Seq<char> {
    replace_char(trim_hash_slash(s), '/', '.')
}

pub open spec fn trim_hash_slash(s: Seq<char>) -> Seq<char>
    decreases s.len(),
{
    if s.len() >= 2 && s[0] == '#' && s[1] == '/' { trim_hash_slash(s.skip(2)) } else { s }
}

/// The data path of the table evaluated under `eval_key`.
pub fn table_path_of(eval_key: &str) -> (res: String)
    ensures
        res@ == table_data_path(eval_key@),
{
    let cs = to_chars(eval_key);
    let mut i: usize = 0;
    assert(cs@.skip(0) =~= cs@);
    while cs.len() - i >= 2 && cs[i] == '#' && cs[i + 1] == '/'
        invariant
            i <= cs@.len(),
            trim_hash_slash(cs@) == trim_hash_slash(cs@.skip(i as int)),
        decreases cs@.len() - i,
    {
        assert(cs@.skip(i as int).skip(2) =~= cs@.skip(i + 2));
        i = i + 2;
    }
    assert(!(cs@.skip(i as int).len() >= 2 && cs@.skip(i as int)[0] == '#' && cs@.skip(i as int)[1] == '/'));
    let mut out: Vec<char> = Vec::new();
    let ghost rest = cs@.skip(i as int);
    let mut k: usize = i;
    while k < cs.len()
        invariant
            i <= k <= cs@.len(),
            rest == cs@.skip(i as int),
            out@ == replace_char(rest.take(k - i), '/', '.'),
        decreases cs@.len() - k,
    {
        let c = cs[k];
        out.push(if c == '/' { '.' } else { c });
        k = k + 1;
        assert(rest.take(k - i) =~= rest.take(k - i - 1).push(c));
        assert(out@ =~= replace_char(rest.take(k - i), '/', '.'));
    }
    assert(rest.take(k - i) =~= rest);
    string_of(&out)
}

// ---------------------------------------------------------------------------
// Looking things up.

/// The logic compiled for evaluation key `k` (the first entry for it).
pub open spec fn lookup_logic(evs: Seq<(Seq<char>, LogicId)>, k: Seq<char>) -> Option<LogicId>
    decreases evs.len(),
{
    if evs.len() == 0 { None } else if evs[0].0 == k { Some(evs[0].1) } else { lookup_logic(evs.drop_first(), k) }
}

pub open spec fn eval_views(evs: Seq<(String, LogicId)>) -> Seq<(Seq<char>, LogicId)> {
    Seq::new(evs.len(), |i: int| (evs[i].0@, evs[i].1))
}

fn find_logic(evs: &Vec<(String, LogicId)>, k: &Vec<char>) -> (res: Option<LogicId>)
    ensures
        res == lookup_logic(eval_views(evs@), k@),
{
    let ghost ev = eval_views(evs@);
    let mut i: usize = 0;
    assert(ev.skip(0) =~= ev);
    while i < evs.len()
        invariant
            i <= evs@.len(),
            ev == eval_views(evs@),
            lookup_logic(ev, k@) == lookup_logic(ev.skip(i as int), k@),
        decreases evs@.len() - i,
    {
        assert(ev.skip(i as int)[0] == ev[i as int]);
        assert(ev.skip(i as int).drop_first() =~= ev.skip(i + 1));
        let kc = to_chars(evs[i].0.as_str());
        if crate::text::chars_eq(&kc, k) {
            return Some(evs[i].1);
        }
        i = i + 1;
    }
    None
}

/// The member `k` of `v`, when `v` is an object that has one.
pub open spec fn member(v: JsonView, k: Seq<char>) -> Option<JsonView> {
    match v {
        JsonView::Object(es) => entry_lookup(es, k),
        _ => None,
    }
}

fn get_member<'a>(v: &'a JsonValue, k: &str) -> (res: Option<&'a JsonValue>)
    ensures
        match res {
            Some(r) => member(v@, k@) == Some(r@),
            None => member(v@, k@) is None,
        },
{
    match v {
        JsonValue::Object(es) => {
            let key = String::from_str(k);
            lookup_entry(es, &key)
        },
        _ => None,
    }
}


// ---------------------------------------------------------------------------
// The variables a column's logic reads.

/// The variables an expression reads, sorted and without repeats.
pub open spec fn sorted_vars(v: crate::compiled::LogicView) -> Seq<Seq<char>> {
    choose|s: Seq<Seq<char>>| strictly_sorted(s) && s.to_set() == vars_of(v).to_set()
}

/// Two strictly sorted sequences with the same items are equal.
pub proof fn lemma_sorted_unique(a: Seq<Seq<char>>, b: Seq<Seq<char>>)
    requires
        strictly_sorted(a),
        strictly_sorted(b),
        a.to_set() == b.to_set(),
    ensures
        a == b,
    decreases a.len(),
{
    if a.len() == 0 {
        assert(b.len() == 0) by {
            if b.len() > 0 {
                assert(b.to_set().contains(b[0]));
                assert(a.to_set().contains(b[0]));
                assert(a.contains(b[0]));
                let i = choose|i: int| 0 <= i < a.len() && a[i] == b[0];
                assert(false);
            }
        }
        assert(a =~= b);
    } else {
        assert(a.to_set().contains(a[0]));
        assert(b.len() > 0);
        assert(b.to_set().contains(b[0]));
        assert(b.to_set().contains(a[0]));
        assert(a.to_set().contains(b[0]));
        let j = choose|j: int| 0 <= j < b.len() && b[j] == a[0];
        let i = choose|i: int| 0 <= i < a.len() && a[i] == b[0];
        if j > 0 {
            assert(lex_less(b[0], b[j]));
            if i > 0 {
                assert(lex_less(a[0], a[i]));
                lemma_lex_transitive(a[0], b[0], a[0]);
                lemma_lex_irreflexive(a[0]);
            } else {
                lemma_lex_irreflexive(a[0]);
            }
        }
        assert(a[0] == b[0]);
        let a1 = a.drop_first();
        let b1 = b.drop_first();
        assert forall|x: Seq<char>| a1.to_set().contains(x) <==> b1.to_set().contains(x) by {
            if a1.to_set().contains(x) {
                let k = choose|k: int| 0 <= k < a1.len() && a1[k] == x;
                assert(a[k + 1] == x);
                assert(lex_less(a[0], a[k + 1]));
                lemma_lex_irreflexive(x);
                assert(b.to_set().contains(x));
                let m = choose|m: int| 0 <= m < b.len() && b[m] == x;
                assert(m != 0);
                assert(b1[m - 1] == x);
            }
            if b1.to_set().contains(x) {
                let k = choose|k: int| 0 <= k < b1.len() && b1[k] == x;
                assert(b[k + 1] == x);
                assert(lex_less(b[0], b[k + 1]));
                lemma_lex_irreflexive(x);
                assert(a.to_set().contains(x));
                let m = choose|m: int| 0 <= m < a.len() && a[m] == x;
                assert(m != 0);
                assert(a1[m - 1] == x);
            }
        }
        assert(a1.to_set() =~= b1.to_set());
        lemma_sorted_unique(a1, b1);
        assert(a.len() == b.len());
        assert forall|i: int| 0 <= i < a.len() implies a[i] == b[i] by {
            if i > 0 {
                assert(a[i] == a1[i - 1]);
                assert(b[i] == b1[i - 1]);
            }
        }
        assert(a =~= b);
    }
}

/// A variable a column depends on: one of the row's own `$` columns (not
/// `$iteration` or `$threshold`).
pub open spec fn column_dep(v: Seq<char>) -> bool {
    v.len() > 0 && v[0] == '$' && v != "$iteration"@ && v != "$threshold"@
}

pub open spec fn column_deps(s: Seq<Seq<char>>) -> Seq<Seq<char>>
    decreases s.len(),
{
    if s.len() == 0 {
        s
    } else {
        let r = column_deps(s.drop_last());
        if column_dep(s.last()) { r.push(s.last()) } else { r }
    }
}

fn column_deps_of(vars: &Vec<String>) -> (res: Vec<String>)
    ensures
        string_views(res@) == column_deps(string_views(vars@)),
{
    let ghost vs = string_views(vars@);
    let mut out: Vec<String> = Vec::new();
    let mut i: usize = 0;
    assert(string_views(out@) =~= column_deps(vs.take(0)));
    let it = String::from_str("$iteration");
    let th = String::from_str("$threshold");
    while i < vars.len()
        invariant
            i <= vars@.len(),
            vs == string_views(vars@),
            it@ == "$iteration"@,
            th@ == "$threshold"@,
            string_views(out@) == column_deps(vs.take(i as int)),
        decreases vars@.len() - i,
    {
        assert(vs.take(i + 1).drop_last() =~= vs.take(i as int));
        assert(vs.take(i + 1).last() == vars@[i as int]@);
        let cs = to_chars(vars[i].as_str());
        if cs.len() > 0 && cs[0] == '$' && !str_eq(vars[i].as_str(), it.as_str()) && !str_eq(vars[i].as_str(), th.as_str()) {
            let ghost prev = out@;
            out.push(copy_string(&vars[i]));
            assert(string_views(out@) =~= string_views(prev).push(vars@[i as int]@));
        }
        i = i + 1;
    }
    assert(vs.take(vars@.len() as int) =~= vs);
    out
}

// ---------------------------------------------------------------------------
// The plan.

/// How a column's value is had.
pub struct ColumnPlan {
    pub name: String,
    pub var_path: String,
    pub logic: Option<LogicId>,
    pub literal: Option<JsonValue>,
    pub dependencies: Vec<String>,
    pub has_forward_ref: bool,
}

pub struct ColumnView {
    pub name: Seq<char>,
    pub var_path: Seq<char>,
    pub logic: Option<LogicId>,
    pub literal: Option<JsonView>,
    pub dependencies: Seq<Seq<char>>,
    pub has_forward_ref: bool,
}

pub open spec fn opt_json_view(o: Option<JsonValue>) -> Option<JsonView> {
    match o {
        Some(v) => Some(v@),
        None => None,
    }
}

impl View for ColumnPlan {
    type V = ColumnView;

    open spec fn view(&self) -> ColumnView {
        ColumnView {
            name: self.name@,
            var_path: self.var_path@,
            logic: self.logic,
            literal: opt_json_view(self.literal),
            dependencies: string_views(self.dependencies@),
            has_forward_ref: self.has_forward_ref,
        }
    }
}

pub open spec fn column_views(s: Seq<ColumnPlan>) -> Seq<ColumnView> {
    Seq::new(s.len(), |i: int| s[i]@)
}

/// The plan of column `name`, whose logic is compiled under key `path` and
/// whose schema value is `val`.
pub open spec fn column_plan(
    evs: Seq<(Seq<char>, LogicId)>,
    store: CompiledLogicStore,
    path: Seq<char>,
    name: Seq<char>,
    val: JsonView,
) -> ColumnView {
    let logic = lookup_logic(evs, path);
    ColumnView {
        name,
        var_path: seq!['$'] + name,
        logic,
        literal: if logic is None { Some(val) } else { None },
        dependencies: match logic {
            Some(id) => if store.logic().contains_key(id) { column_deps(sorted_vars(store.logic()[id]@)) } else { seq![] },
            None => seq![],
        },
        has_forward_ref: match logic {
            Some(id) => store.logic().contains_key(id) && forward_ref(store.logic()[id]@),
            None => false,
        },
    }
}

fn plan_column(
    evs: &Vec<(String, LogicId)>,
    store: &CompiledLogicStore,
    path: &Vec<char>,
    name: &String,
    val: &JsonValue,
) -> (res: ColumnPlan)
    ensures
        res@ == column_plan(eval_views(evs@), *store, path@, name@, val@),
{
    let logic = find_logic(evs, path);
    let mut vp: Vec<char> = Vec::new();
    vp.push('$');
    let nc = to_chars(name.as_str());
    let vpc = concat(&vp, &nc);
    assert(vp@ =~= seq!['$']);
    let literal = if logic.is_none() { Some(val.clone()) } else { None };
    let (dependencies, has_forward_ref) = match logic {
        Some(id) => {
            let deps = match store.get_referenced_vars(&id) {
                Some(v) => {
                    proof {
                        let w = string_views(v@);
                        let lv = store.logic()[id]@;
                        assert(strictly_sorted(w) && w.to_set() == vars_of(lv).to_set());
                        let c = sorted_vars(lv);
                        assert(strictly_sorted(c) && c.to_set() == vars_of(lv).to_set());
                        lemma_sorted_unique(w, c);
                    }
                    column_deps_of(&v)
                },
                None => {
                    let e: Vec<String> = Vec::new();
                    assert(string_views(e@) =~= Seq::<Seq<char>>::empty());
                    e
                },
            };
            (deps, store.has_forward_reference(&id))
        },
        None => {
            let e: Vec<String> = Vec::new();
            assert(string_views(e@) =~= Seq::<Seq<char>>::empty());
            (e, false)
        },
    };
    ColumnPlan {
        name: copy_string(name),
        var_path: string_of(&vpc),
        logic,
        literal,
        dependencies,
        has_forward_ref,
    }
}


/// The columns of a row object (every member but `$repeat`), each planned
/// under `prefix` followed by its name.
pub open spec fn static_columns(
    evs: Seq<(Seq<char>, LogicId)>,
    store: CompiledLogicStore,
    prefix: Seq<char>,
    es: Seq<(Seq<char>, JsonView)>,
) -> Seq<ColumnView>
    decreases es.len(),
{
    if es.len() == 0 {
        seq![]
    } else {
        let r = static_columns(evs, store, prefix, es.drop_last());
        let e = es.last();
        if e.0 == "$repeat"@ { r } else { r.push(column_plan(evs, store, prefix + e.0, e.0, e.1)) }
    }
}

/// The columns of a repeat template, each planned under `prefix` followed by
/// its name.
pub open spec fn template_columns(
    evs: Seq<(Seq<char>, LogicId)>,
    store: CompiledLogicStore,
    prefix: Seq<char>,
    es: Seq<(Seq<char>, JsonView)>,
) -> Seq<ColumnView>
    decreases es.len(),
{
    if es.len() == 0 {
        seq![]
    } else {
        let r = template_columns(evs, store, prefix, es.drop_last());
        let e = es.last();
        r.push(column_plan(evs, store, prefix + e.0, e.0, e.1))
    }
}

fn plan_columns(
    evs: &Vec<(String, LogicId)>,
    store: &CompiledLogicStore,
    prefix: &Vec<char>,
    es: &Vec<(String, JsonValue)>,
    skip_repeat: bool,
) -> (res: Vec<ColumnPlan>)
    ensures
        column_views(res@) == (if skip_repeat {
            static_columns(eval_views(evs@), *store, prefix@, entry_views(es@))
        } else {
            template_columns(eval_views(evs@), *store, prefix@, entry_views(es@))
        }),
{
    let ghost ev = entry_views(es@);
    let ghost e = eval_views(evs@);
    let rep = String::from_str("$repeat");
    let mut out: Vec<ColumnPlan> = Vec::new();
    let mut i: usize = 0;
    assert(ev.take(0) =~= Seq::<(Seq<char>, JsonView)>::empty());
    assert(column_views(out@) =~= Seq::<ColumnView>::empty());
    while i < es.len()
        invariant
            i <= es@.len(),
            ev == entry_views(es@),
            e == eval_views(evs@),
            rep@ == "$repeat"@,
            column_views(out@) == (if skip_repeat {
                static_columns(e, *store, prefix@, ev.take(i as int))
            } else {
                template_columns(e, *store, prefix@, ev.take(i as int))
            }),
        decreases es@.len() - i,
    {
        assert(ev.take(i + 1).drop_last() =~= ev.take(i as int));
        assert(ev.take(i + 1).last() == ev[i as int]);
        assert(ev[i as int] == (es@[i as int].0@, es@[i as int].1@));
        if skip_repeat && str_eq(es[i].0.as_str(), rep.as_str()) {
        } else {
            let nc = to_chars(es[i].0.as_str());
            let path = concat(prefix, &nc);
            let c = plan_column(evs, store, &path, &es[i].0, &es[i].1);
            let ghost prev = out@;
            out.push(c);
            assert(column_views(out@) =~= column_views(prev).push(c@));
        }
        i = i + 1;
    }
    assert(ev.take(es@.len() as int) =~= ev);
    out
}

/// A bound of a repeated row: its logic, if any, and its schema value.
pub struct RepeatBound {
    pub logic: Option<LogicId>,
    pub literal: JsonValue,
}

/// A planned row: a static one, or a template repeated between two bounds.
pub enum RowPlan {
    Static { columns: Vec<ColumnPlan> },
    Repeat { start: RepeatBound, end: RepeatBound, columns: Vec<ColumnPlan> },
}

pub enum RowView {
    Static(Seq<ColumnView>),
    Repeat(Option<LogicId>, JsonView, Option<LogicId>, JsonView, Seq<ColumnView>),
}

impl View for RowPlan {
    type V = RowView;

    open spec fn view(&self) -> RowView {
        match self {
            RowPlan::Static { columns } => RowView::Static(column_views(columns@)),
            RowPlan::Repeat { start, end, columns } => RowView::Repeat(
                start.logic, start.literal@, end.logic, end.literal@, column_views(columns@)),
        }
    }
}

pub open spec fn row_views(s: Seq<RowPlan>) -> Seq<RowView> {
    Seq::new(s.len(), |i: int| s[i]@)
}

/// The `$repeat` of a row: its two bounds and its template object, when it
/// is a list of three whose last is an object.
pub open spec fn repeat_of(es: Seq<(Seq<char>, JsonView)>) -> Option<(JsonView, JsonView, Seq<(Seq<char>, JsonView)>)> {
    match entry_lookup(es, "$repeat"@) {
        Some(JsonView::Array(ra)) => if ra.len() == 3 && ra[2] is Object {
            Some((ra[0], ra[1], ra[2]->Object_0))
        } else {
            None
        },
        _ => None,
    }
}

/// The key prefix of row `ri` of the table under `key`.
pub open spec fn row_prefix(key: Seq<char>, ri: nat) -> Seq<char> {
    key + "/$table/"@ + decimal(ri) + "/"@
}

/// The plan of row `ri` (nothing for a row that is not an object).
pub open spec fn row_plan(
    evs: Seq<(Seq<char>, LogicId)>,
    store: CompiledLogicStore,
    key: Seq<char>,
    ri: nat,
    row: JsonView,
) -> Option<RowView> {
    let p = row_prefix(key, ri);
    match row {
        JsonView::Object(es) => Some(match repeat_of(es) {
            Some((sv, ev, tmpl)) => RowView::Repeat(
                lookup_logic(evs, p + "$repeat/0"@),
                sv,
                lookup_logic(evs, p + "$repeat/1"@),
                ev,
                template_columns(evs, store, p + "$repeat/2/"@, tmpl),
            ),
            None => RowView::Static(static_columns(evs, store, p, es)),
        }),
        _ => None,
    }
}

/// The plans of the first `n` rows.
pub open spec fn row_plans(
    evs: Seq<(Seq<char>, LogicId)>,
    store: CompiledLogicStore,
    key: Seq<char>,
    rows: Seq<JsonView>,
    n: nat,
) -> Seq<RowView>
    decreases n,
{
    if n == 0 {
        seq![]
    } else {
        let r = row_plans(evs, store, key, rows, (n - 1) as nat);
        match row_plan(evs, store, key, (n - 1) as nat, rows[n - 1]) {
            Some(p) => r.push(p),
            None => r,
        }
    }
}

/// A `$datas` entry: the name it is stored under, its logic and its value.
pub struct DataPlan {
    pub name: String,
    pub logic: Option<LogicId>,
    pub literal: Option<JsonValue>,
}

pub open spec fn data_views(s: Seq<DataPlan>) -> Seq<(Seq<char>, Option<LogicId>, Option<JsonView>)> {
    Seq::new(s.len(), |i: int| (s[i].name@, s[i].logic, opt_json_view(s[i].literal)))
}

/// The plans of the first `n` `$datas` entries (those with a text `name`).
pub open spec fn data_plans(
    evs: Seq<(Seq<char>, LogicId)>,
    key: Seq<char>,
    datas: Seq<JsonView>,
    n: nat,
) -> Seq<(Seq<char>, Option<LogicId>, Option<JsonView>)>
    decreases n,
{
    if n == 0 {
        seq![]
    } else {
        let r = data_plans(evs, key, datas, (n - 1) as nat);
        match member(datas[n - 1], "name"@) {
            Some(JsonView::String(nm)) => r.push((
                nm,
                lookup_logic(evs, key + "/$datas/"@ + decimal((n - 1) as nat) + "/data"@),
                member(datas[n - 1], "data"@),
            )),
            _ => r,
        }
    }
}

/// The plan of a table.
pub struct TablePlan {
    pub datas: Vec<DataPlan>,
    pub rows: Vec<RowPlan>,
    pub path: String,
    pub skip: bool,
    pub skip_logic: Option<LogicId>,
    pub clear: bool,
    pub clear_logic: Option<LogicId>,
}

pub struct TablePlanView {
    pub datas: Seq<(Seq<char>, Option<LogicId>, Option<JsonView>)>,
    pub rows: Seq<RowView>,
    pub path: Seq<char>,
    pub skip: bool,
    pub skip_logic: Option<LogicId>,
    pub clear: bool,
    pub clear_logic: Option<LogicId>,
}

impl View for TablePlan {
    type V = TablePlanView;

    open spec fn view(&self) -> TablePlanView {
        TablePlanView {
            datas: data_views(self.datas@),
            rows: row_views(self.rows@),
            path: self.path@,
            skip: self.skip,
            skip_logic: self.skip_logic,
            clear: self.clear,
            clear_logic: self.clear_logic,
        }
    }
}

/// The boolean member `k` of `t`, false if there is none.
pub open spec fn flag(t: JsonView, k: Seq<char>) -> bool {
    match member(t, k) {
        Some(JsonView::Bool(b)) => b,
        _ => false,
    }
}

/// The items of a member that is a list, if it is one.
pub open spec fn list_member(t: JsonView, k: Seq<char>) -> Option<Seq<JsonView>> {
    match member(t, k) {
        Some(JsonView::Array(xs)) => Some(xs),
        _ => None,
    }
}

/// The plan of the table `table` evaluated under `eval_key`, given the rows
/// it holds.
pub open spec fn spec_table_plan(
    key: Seq<char>,
    table: JsonView,
    evs: Seq<(Seq<char>, LogicId)>,
    store: CompiledLogicStore,
    rows: Seq<JsonView>,
) -> TablePlanView {
    let datas = match list_member(table, "datas"@) {
        Some(d) => d,
        None => seq![],
    };
    TablePlanView {
        datas: data_plans(evs, key, datas, datas.len()),
        rows: row_plans(evs, store, key, rows, rows.len()),
        path: table_data_path(key),
        skip: flag(table, "skip"@),
        skip_logic: lookup_logic(evs, key + "/$skip"@),
        clear: flag(table, "clear"@),
        clear_logic: lookup_logic(evs, key + "/$clear"@),
    }
}


fn text_of(s: &str) -> (res: Vec<char>)
    ensures
        res@ == s@,
{
    to_chars(s)
}

/// The key prefix of row `ri`.
fn row_prefix_of(key: &Vec<char>, ri: usize) -> (res: Vec<char>)
    ensures
        res@ == row_prefix(key@, ri as nat),
{
    let a = concat(key, &text_of("/$table/"));
    let b = concat(&a, &decimal_chars(ri));
    concat(&b, &text_of("/"))
}

fn plan_row(
    evs: &Vec<(String, LogicId)>,
    store: &CompiledLogicStore,
    key: &Vec<char>,
    ri: usize,
    row: &JsonValue,
) -> (res: Option<RowPlan>)
    ensures
        match res {
            Some(p) => row_plan(eval_views(evs@), *store, key@, ri as nat, row@) == Some(p@),
            None => row_plan(eval_views(evs@), *store, key@, ri as nat, row@) is None,
        },
{
    let prefix = row_prefix_of(key, ri);
    match row {
        JsonValue::Object(es) => {
            let rep = String::from_str("$repeat");
            match lookup_entry(es, &rep) {
                Some(JsonValue::Array(ra)) => {
                    if ra.len() == 3 {
                        match &ra[2] {
                            JsonValue::Object(tmpl) => {
                                assert(ra@[2]@ == JsonView::Object(entry_views(tmpl@)));
                                let start = RepeatBound {
                                    logic: find_logic(evs, &concat(&prefix, &text_of("$repeat/0"))),
                                    literal: ra[0].clone(),
                                };
                                let end = RepeatBound {
                                    logic: find_logic(evs, &concat(&prefix, &text_of("$repeat/1"))),
                                    literal: ra[1].clone(),
                                };
                                let columns = plan_columns(evs, store, &concat(&prefix, &text_of("$repeat/2/")), tmpl, false);
                                proof {
                                    let rv = crate::json::json_views(ra@);
                                    assert(rv[0] == ra@[0]@ && rv[1] == ra@[1]@ && rv[2] == ra@[2]@);
                                }
                                return Some(RowPlan::Repeat { start, end, columns });
                            },
                            _ => {
                                proof {
                                    let rv = crate::json::json_views(ra@);
                                    assert(rv[2] == ra@[2]@);
                                }
                            },
                        }
                    }
                },
                _ => {},
            }
            let columns = plan_columns(evs, store, &prefix, es, true);
            Some(RowPlan::Static { columns })
        },
        _ => None,
    }
}

/// Plan the table `table` evaluated under `eval_key`: its `$datas`, and for
/// each row object a static row or, for a `$repeat` of two bounds and a
/// template object, a repeated row; each column with the logic compiled for
/// it (found in `evaluations`), else its schema value, with the row's own
/// columns it reads and whether it refers to a later row. A table whose
/// `rows` is not a list is refused.
pub fn plan_table(
    eval_key: &str,
    table: &JsonValue,
    evaluations: &Vec<(String, LogicId)>,
    store: &CompiledLogicStore,
) -> (res: Result<TablePlan, String>)
    ensures
        res is Err <==> list_member(table@, "rows"@) is None,
        res matches Err(e) ==> e@ == "table missing rows"@,
        res matches Ok(p) ==> p@ == spec_table_plan(
            eval_key@, table@, eval_views(evaluations@), *store, list_member(table@, "rows"@)->Some_0),
{
    let ghost evs = eval_views(evaluations@);
    let rows = match get_member(table, "rows") {
        Some(JsonValue::Array(rs)) => rs,
        _ => {
            return Err(String::from_str("table missing rows"));
        },
    };
    let ghost rv = crate::json::json_views(rows@);
    assert(list_member(table@, "rows"@) == Some(rv));
    let key = to_chars(eval_key);
    let mut row_plans_v: Vec<RowPlan> = Vec::new();
    let mut i: usize = 0;
    assert(row_views(row_plans_v@) =~= Seq::<RowView>::empty());
    while i < rows.len()
        invariant
            i <= rows@.len(),
            rv == crate::json::json_views(rows@),
            evs == eval_views(evaluations@),
            key@ == eval_key@,
            row_views(row_plans_v@) == row_plans(evs, *store, key@, rv, i as nat),
        decreases rows@.len() - i,
    {
        assert(rv[i as int] == rows@[i as int]@);
        match plan_row(evaluations, store, &key, i, &rows[i]) {
            Some(p) => {
                let ghost prev = row_plans_v@;
                row_plans_v.push(p);
                assert(row_views(row_plans_v@) =~= row_views(prev).push(p@));
            },
            None => {},
        }
        i = i + 1;
    }
    let empty: Vec<JsonValue> = Vec::new();
    let datas = match get_member(table, "datas") {
        Some(JsonValue::Array(ds)) => ds,
        _ => &empty,
    };
    let ghost dv = crate::json::json_views(datas@);
    assert(dv == match list_member(table@, "datas"@) { Some(d) => d, None => seq![] }) by {
        assert(crate::json::json_views(empty@) =~= Seq::<JsonView>::empty());
    }
    let mut data_plans_v: Vec<DataPlan> = Vec::new();
    let mut j: usize = 0;
    assert(data_views(data_plans_v@) =~= data_plans(evs, key@, dv, 0));
    while j < datas.len()
        invariant
            j <= datas@.len(),
            dv == crate::json::json_views(datas@),
            evs == eval_views(evaluations@),
            key@ == eval_key@,
            data_views(data_plans_v@) == data_plans(evs, key@, dv, j as nat),
        decreases datas@.len() - j,
    {
        assert(dv[j as int] == datas@[j as int]@);
        match get_member(&datas[j], "name") {
            Some(JsonValue::String(nm)) => {
                let a = concat(&key, &text_of("/$datas/"));
                let b = concat(&a, &decimal_chars(j));
                let path = concat(&b, &text_of("/data"));
                let logic = find_logic(evaluations, &path);
                let literal = match get_member(&datas[j], "data") {
                    Some(d) => Some(d.clone()),
                    None => None,
                };
                let d = DataPlan { name: copy_string(nm), logic, literal };
                let ghost prev = data_plans_v@;
                data_plans_v.push(d);
                assert(data_views(data_plans_v@) =~= data_views(prev).push((nm@, logic, opt_json_view(literal))));
            },
            _ => {},
        }
        j = j + 1;
    }
    let skip = match get_member(table, "skip") {
        Some(JsonValue::Bool(b)) => *b,
        _ => false,
    };
    let clear = match get_member(table, "clear") {
        Some(JsonValue::Bool(b)) => *b,
        _ => false,
    };
    let skip_logic = find_logic(evaluations, &concat(&key, &text_of("/$skip")));
    let clear_logic = find_logic(evaluations, &concat(&key, &text_of("/$clear")));
    Ok(TablePlan {
        datas: data_plans_v,
        rows: row_plans_v,
        path: table_path_of(eval_key),
        skip,
        skip_logic,
        clear,
        clear_logic,
    })
}


// ---------------------------------------------------------------------------
// Columns that wait on later rows.

/// `s` without its leading `$` signs.
pub open spec fn trim_dollars(s: Seq<char>) -> Seq<char>
    decreases s.len(),
{
    if s.len() > 0 && s[0] == '$' { trim_dollars(s.skip(1)) } else { s }
}

fn trim_dollars_of(s: &String) -> (res: Vec<char>)
    ensures
        res@ == trim_dollars(s@),
{
    let cs = to_chars(s.as_str());
    let mut i: usize = 0;
    assert(cs@.skip(0) =~= cs@);
    while i < cs.len() && cs[i] == '$'
        invariant
            i <= cs@.len(),
            trim_dollars(s@) == trim_dollars(cs@.skip(i as int)),
            cs@ == s@,
        decreases cs@.len() - i,
    {
        assert(cs@.skip(i as int).skip(1) =~= cs@.skip(i + 1));
        i = i + 1;
    }
    let mut out: Vec<char> = Vec::new();
    let mut k: usize = i;
    while k < cs.len()
        invariant
            i <= k <= cs@.len(),
            out@ == cs@.subrange(i as int, k as int),
        decreases cs@.len() - k,
    {
        out.push(cs[k]);
        k = k + 1;
        assert(out@ =~= cs@.subrange(i as int, k as int));
    }
    assert(cs@.subrange(i as int, cs@.len() as int) =~= cs@.skip(i as int));
    out
}

/// Column `b` reads column `a`: one of its dependencies names `a`.
pub open spec fn feeds(cols: Seq<ColumnView>, a: int, b: int) -> bool {
    exists|k: int| 0 <= k < cols[b].dependencies.len() && #[trigger] trim_dollars(cols[b].dependencies[k]) == cols[a].name
}

/// `p` is a chain of columns from one that refers to a later row, each read
/// by the next.
pub open spec fn forward_chain(cols: Seq<ColumnView>, p: Seq<int>) -> bool {
    &&& p.len() >= 1
    &&& forall|j: int| 0 <= j < p.len() ==> 0 <= #[trigger] p[j] < cols.len()
    &&& cols[p[0]].has_forward_ref
    &&& forall|j: int| 1 <= j < p.len() ==> feeds(cols, #[trigger] p[j - 1], p[j])
}

/// Column `i` waits on later rows: a chain from a column that refers to a
/// later row ends at a column of its name.
pub open spec fn reaches_forward(cols: Seq<ColumnView>, i: int) -> bool {
    exists|p: Seq<int>| #[trigger] forward_chain(cols, p) && cols[p.last()].name == cols[i].name
}

/// Some chain ends at a column named `x`.
pub open spec fn name_reached(cols: Seq<ColumnView>, x: Seq<char>) -> bool {
    exists|p: Seq<int>| #[trigger] forward_chain(cols, p) && cols[p.last()].name == x
}

fn names_contain(names: &Vec<String>, x: &Vec<char>) -> (res: bool)
    ensures
        res == string_views(names@).contains(x@),
{
    let mut i: usize = 0;
    while i < names.len()
        invariant
            i <= names@.len(),
            forall|j: int| 0 <= j < i ==> names@[j]@ != x@,
        decreases names@.len() - i,
    {
        let c = to_chars(names[i].as_str());
        if crate::text::chars_eq(&c, x) {
            assert(string_views(names@)[i as int] == x@);
            return true;
        }
        i = i + 1;
    }
    assert forall|j: int| 0 <= j < string_views(names@).len() implies string_views(names@)[j] != x@ by {
        assert(names@[j]@ != x@);
    }
    false
}

/// Which columns wait on later rows: those that refer to a later row, and,
/// repeatedly, those that read a column named like one that waits.
pub fn forward_columns(cols: &Vec<ColumnPlan>) -> (res: Vec<bool>)
    ensures
        res@.len() == cols@.len(),
        forall|i: int| 0 <= i < cols@.len() ==> (#[trigger] res@[i] <==> reaches_forward(column_views(cols@), i)),
{
    let ghost cv = column_views(cols@);
    let mut names: Vec<String> = Vec::new();
    let mut i: usize = 0;
    assert(string_views(names@) =~= Seq::<Seq<char>>::empty());
    while i < cols.len()
        invariant
            i <= cols@.len(),
            cv == column_views(cols@),
            string_views(names@).no_duplicates(),
            forall|x: Seq<char>| #[trigger] string_views(names@).contains(x) ==> name_reached(cv, x),
            forall|j: int| 0 <= j < i && cv[j].has_forward_ref ==> string_views(names@).contains(#[trigger] cv[j].name),
        decreases cols@.len() - i,
    {
        assert(cv[i as int] == cols@[i as int]@);
        if cols[i].has_forward_ref {
            let nc = to_chars(cols[i].name.as_str());
            if !names_contain(&names, &nc) {
                let ghost prev = string_views(names@);
                names.push(copy_string(&cols[i].name));
                proof {
                    let sv = string_views(names@);
                    assert(sv =~= prev.push(cv[i as int].name));
                    let p = seq![i as int];
                    assert(forward_chain(cv, p));
                    assert(name_reached(cv, cv[i as int].name));
                    assert forall|a: int, b: int| 0 <= a < b < sv.len() implies sv[a] != sv[b] by {
                        if b == sv.len() - 1 {
                            assert(prev.contains(sv[a]) ==> true);
                            if sv[a] == sv[b] {
                                assert(prev[a] == sv[a]);
                            }
                        } else {
                            assert(prev[a] == sv[a] && prev[b] == sv[b]);
                        }
                    }
                    assert forall|x: Seq<char>| #[trigger] sv.contains(x) implies name_reached(cv, x) by {
                        let k = choose|k: int| 0 <= k < sv.len() && sv[k] == x;
                        if k < prev.len() {
                            assert(prev[k] == x);
                            assert(prev.contains(x));
                        } else {
                            assert(x == cv[i as int].name);
                        }
                    }
                    assert forall|j: int| 0 <= j < i + 1 && cv[j].has_forward_ref implies sv.contains(#[trigger] cv[j].name) by {
                        if j < i {
                            let k = choose|k: int| 0 <= k < prev.len() && prev[k] == cv[j].name;
                            assert(sv[k] == cv[j].name);
                        } else {
                            assert(sv[prev.len() as int] == cv[j].name);
                        }
                    }
                }
            }
        }
        i = i + 1;
    }
    proof {
        lemma_names_bounded(cv, string_views(names@));
    }
    let mut changed = true;
    while changed
        invariant
            cv == column_views(cols@),
            string_views(names@).no_duplicates(),
            string_views(names@).len() <= cv.len(),
            forall|x: Seq<char>| #[trigger] string_views(names@).contains(x) ==> name_reached(cv, x),
            forall|j: int| 0 <= j < cv.len() && cv[j].has_forward_ref ==> string_views(names@).contains(#[trigger] cv[j].name),
            !changed ==> closed_names(cv, string_views(names@)),
        decreases cv.len() - string_views(names@).len() + (if changed { 1int } else { 0int }),
    {
        changed = false;
        let ghost n0 = string_views(names@).len();
        let mut c: usize = 0;
        while c < cols.len()
            invariant
                c <= cols@.len(),
                cv == column_views(cols@),
                string_views(names@).no_duplicates(),
                forall|x: Seq<char>| #[trigger] string_views(names@).contains(x) ==> name_reached(cv, x),
                forall|j: int| 0 <= j < cv.len() && cv[j].has_forward_ref ==> string_views(names@).contains(#[trigger] cv[j].name),
                !changed ==> string_views(names@).len() == n0,
                changed ==> string_views(names@).len() > n0,
                !changed ==> forall|j: int| 0 <= j < c ==> #[trigger] closed_at(cv, string_views(names@), j),
            decreases cols@.len() - c,
        {
            assert(cv[c as int] == cols@[c as int]@);
            let nc = to_chars(cols[c].name.as_str());
            if !names_contain(&names, &nc) {
                let deps = &cols[c].dependencies;
                let ghost dv = string_views(deps@);
                assert(dv == cv[c as int].dependencies);
                let mut k: usize = 0;
                let mut hit = false;
                while k < deps.len()
                    invariant
                        k <= deps@.len(),
                        dv == string_views(deps@),
                        !hit ==> forall|q: int| 0 <= q < k ==> !string_views(names@).contains(#[trigger] trim_dollars(dv[q])),
                        hit ==> exists|q: int| 0 <= q < deps@.len() && string_views(names@).contains(#[trigger] trim_dollars(dv[q])),
                    ensures
                        !hit ==> forall|q: int| 0 <= q < deps@.len() ==> !string_views(names@).contains(#[trigger] trim_dollars(dv[q])),
                        hit ==> exists|q: int| 0 <= q < deps@.len() && string_views(names@).contains(#[trigger] trim_dollars(dv[q])),
                    decreases deps@.len() - k,
                {
                    let t = trim_dollars_of(&deps[k]);
                    assert(dv[k as int] == deps@[k as int]@);
                    if names_contain(&names, &t) {
                        hit = true;
                        break;
                    }
                    k = k + 1;
                }
                if hit {
                    let ghost prev = string_views(names@);
                    names.push(copy_string(&cols[c].name));
                    changed = true;
                    proof {
                        let sv = string_views(names@);
                        assert(sv =~= prev.push(cv[c as int].name));
                        let q = choose|q: int| 0 <= q < dv.len() && prev.contains(#[trigger] trim_dollars(dv[q]));
                        let x = trim_dollars(dv[q]);
                        assert(name_reached(cv, x));
                        let p = choose|p: Seq<int>| #[trigger] forward_chain(cv, p) && cv[p.last()].name == x;
                        let p2 = p.push(c as int);
                        assert(feeds(cv, p.last(), c as int));
                        assert forall|j: int| 1 <= j < p2.len() implies feeds(cv, #[trigger] p2[j - 1], p2[j]) by {
                            if j < p.len() {
                                assert(p2[j - 1] == p[j - 1] && p2[j] == p[j]);
                            }
                        }
                        assert forall|j: int| 0 <= j < p2.len() implies 0 <= #[trigger] p2[j] < cv.len() by {
                            if j < p.len() {
                                assert(p2[j] == p[j]);
                            }
                        }
                        assert(forward_chain(cv, p2));
                        assert(name_reached(cv, cv[c as int].name));
                        assert forall|a: int, b: int| 0 <= a < b < sv.len() implies sv[a] != sv[b] by {
                            if b == sv.len() - 1 {
                                if sv[a] == sv[b] {
                                    assert(prev[a] == sv[a]);
                                }
                            } else {
                                assert(prev[a] == sv[a] && prev[b] == sv[b]);
                            }
                        }
                        assert forall|y: Seq<char>| #[trigger] sv.contains(y) implies name_reached(cv, y) by {
                            let m = choose|m: int| 0 <= m < sv.len() && sv[m] == y;
                            if m < prev.len() {
                                assert(prev[m] == y);
                                assert(prev.contains(y));
                            } else {
                                assert(y == cv[c as int].name);
                            }
                        }
                        assert forall|j: int| 0 <= j < cv.len() && cv[j].has_forward_ref implies sv.contains(#[trigger] cv[j].name) by {
                            let m = choose|m: int| 0 <= m < prev.len() && prev[m] == cv[j].name;
                            assert(sv[m] == cv[j].name);
                        }
                    }
                } else {
                    proof {
                        assert(closed_at(cv, string_views(names@), c as int));
                    }
                }
            } else {
                proof {
                    assert(closed_at(cv, string_views(names@), c as int));
                }
            }
            c = c + 1;
        }
        proof {
            lemma_names_bounded(cv, string_views(names@));
            if !changed {
                assert forall|j: int| 0 <= j < cv.len() implies #[trigger] closed_at(cv, string_views(names@), j) by {}
            }
        }
    }
    let mut res: Vec<bool> = Vec::new();
    let mut i: usize = 0;
    while i < cols.len()
        invariant
            i <= cols@.len(),
            cv == column_views(cols@),
            res@.len() == i,
            forall|x: Seq<char>| #[trigger] string_views(names@).contains(x) ==> name_reached(cv, x),
            forall|j: int| 0 <= j < cv.len() && cv[j].has_forward_ref ==> string_views(names@).contains(#[trigger] cv[j].name),
            closed_names(cv, string_views(names@)),
            forall|j: int| 0 <= j < i ==> (#[trigger] res@[j] <==> reaches_forward(cv, j)),
        decreases cols@.len() - i,
    {
        assert(cv[i as int] == cols@[i as int]@);
        let nc = to_chars(cols[i].name.as_str());
        let b = names_contain(&names, &nc);
        proof {
            if b {
                assert(name_reached(cv, cv[i as int].name));
                let p = choose|p: Seq<int>| #[trigger] forward_chain(cv, p) && cv[p.last()].name == cv[i as int].name;
                assert(reaches_forward(cv, i as int));
            } else {
                if reaches_forward(cv, i as int) {
                    let p = choose|p: Seq<int>| #[trigger] forward_chain(cv, p) && cv[p.last()].name == cv[i as int].name;
                    lemma_chain_in_names(cv, string_views(names@), p, p.len() - 1);
                }
            }
        }
        res.push(b);
        i = i + 1;
    }
    res
}

/// Column `j` is in `names`, or none of its dependencies names a member.
pub open spec fn closed_at(cv: Seq<ColumnView>, names: Seq<Seq<char>>, j: int) -> bool {
    names.contains(cv[j].name)
        || forall|q: int| 0 <= q < cv[j].dependencies.len() ==> !names.contains(#[trigger] trim_dollars(cv[j].dependencies[q]))
}

pub open spec fn closed_names(cv: Seq<ColumnView>, names: Seq<Seq<char>>) -> bool {
    forall|j: int| 0 <= j < cv.len() ==> #[trigger] closed_at(cv, names, j)
}

proof fn lemma_chain_in_names(cv: Seq<ColumnView>, names: Seq<Seq<char>>, p: Seq<int>, m: int)
    requires
        forward_chain(cv, p),
        0 <= m < p.len(),
        closed_names(cv, names),
        forall|j: int| 0 <= j < cv.len() && cv[j].has_forward_ref ==> names.contains(#[trigger] cv[j].name),
    ensures
        names.contains(cv[p[m]].name),
    decreases m,
{
    assert(0 <= p[m] < cv.len());
    if m > 0 {
        lemma_chain_in_names(cv, names, p, m - 1);
        assert(feeds(cv, p[m - 1], p[m]));
        let k = choose|k: int| 0 <= k < cv[p[m]].dependencies.len() && #[trigger] trim_dollars(cv[p[m]].dependencies[k]) == cv[p[m - 1]].name;
        assert(closed_at(cv, names, p[m]));
    }
}

/// The reached names are names of columns, each once: no more of them than
/// columns.
proof fn lemma_names_bounded(cv: Seq<ColumnView>, names: Seq<Seq<char>>)
    requires
        names.no_duplicates(),
        forall|x: Seq<char>| #[trigger] names.contains(x) ==> name_reached(cv, x),
    ensures
        names.len() <= cv.len(),
{
    let all = Seq::new(cv.len(), |i: int| cv[i].name);
    assert(names.to_set().subset_of(all.to_set())) by {
        assert forall|x: Seq<char>| names.to_set().contains(x) implies all.to_set().contains(x) by {
            assert(names.contains(x));
            assert(name_reached(cv, x));
            let p = choose|p: Seq<int>| #[trigger] forward_chain(cv, p) && cv[p.last()].name == x;
            assert(0 <= p[p.len() - 1] < cv.len());
            assert(all[p.last()] == x);
        }
    }
    names.unique_seq_to_set();
    all.lemma_cardinality_of_set();
    vstd::seq_lib::seq_to_set_is_finite(all);
    vstd::set_lib::lemma_len_subset(names.to_set(), all.to_set());
}


// ---------------------------------------------------------------------------
// The order of evaluation: a state machine.

/// The next thing the evaluation of a table does.
#[derive(Clone, Copy, PartialEq, Eq, Structural)]
pub enum Cursor {
    /// Store `$datas` entry `k`.
    Data(usize),
    /// Start the table's rows afresh.
    Init,
    /// Decide whether the table is skipped.
    SkipCheck,
    /// Decide whether the table is cleared.
    ClearCheck,
    /// Start row plan `r`.
    RowStart(usize),
    /// Column `c` of static row `r`; past the last column, add the row.
    Cell(usize, usize),
    /// The bounds of repeated row `r`, then their numbers.
    StartBound(usize),
    EndBound(usize),
    StartNum(usize),
    EndNum(usize),
    /// Top to bottom: iteration `t` of row `r`, then its column `c` among
    /// those that do not wait on later rows.
    FwdRow(usize, u128),
    FwdCell(usize, u128, usize),
    /// Sweep `s` back and forth: step `t` of row `r`, then its column `c`
    /// among those that wait on later rows.
    BackRow(usize, u8, u128),
    BackCell(usize, u8, u128, usize),
    /// Done: the rows are ready.
    Finished,
    /// Done: the table is skipped.
    Skipped,
    /// Stopped by an error.
    Stopped,
}

/// The state of a table's evaluation.
pub struct TableState {
    pub cursor: Cursor,
    pub table_len: u128,
    pub row: Vec<(String, JsonValue)>,
    pub start_value: JsonValue,
    pub end_value: JsonValue,
    pub start: i64,
    pub end: i64,
    pub existing: u128,
    pub count: u128,
    pub normal: Vec<usize>,
    pub forward: Vec<usize>,
    pub error: String,
}

#[verifier::ext_equal]
pub struct StateView {
    pub cursor: Cursor,
    pub table_len: u128,
    pub row: Seq<(Seq<char>, JsonView)>,
    pub start_value: JsonView,
    pub end_value: JsonView,
    pub start: i64,
    pub end: i64,
    pub existing: u128,
    pub count: u128,
    pub normal: Seq<usize>,
    pub forward: Seq<usize>,
    pub error: Seq<char>,
}

impl View for TableState {
    type V = StateView;

    open spec fn view(&self) -> StateView {
        StateView {
            cursor: self.cursor,
            table_len: self.table_len,
            row: entry_views(self.row@),
            start_value: self.start_value@,
            end_value: self.end_value@,
            start: self.start,
            end: self.end,
            existing: self.existing,
            count: self.count,
            normal: self.normal@,
            forward: self.forward@,
            error: self.error@,
        }
    }
}

/// What the evaluator reports back.
pub enum TableEvent {
    /// The value of the logic it was asked to evaluate.
    Value(JsonValue),
    /// The evaluation failed.
    Failed(String),
    /// The number asked for.
    Integer(i64),
    /// Nothing was asked.
    Continue,
}

pub enum EventView {
    Value(JsonView),
    Failed(Seq<char>),
    Integer(i64),
    Continue,
}

impl View for TableEvent {
    type V = EventView;

    open spec fn view(&self) -> EventView {
        match self {
            TableEvent::Value(v) => EventView::Value(v@),
            TableEvent::Failed(e) => EventView::Failed(e@),
            TableEvent::Integer(i) => EventView::Integer(*i),
            TableEvent::Continue => EventView::Continue,
        }
    }
}

/// A change to the data the table is evaluated in.
pub enum TableWrite {
    /// Set the value at a path.
    Put(String, JsonValue),
    /// Set a whole number at a path.
    SetInt(String, i64),
    /// Add a row object at the end of the list at a path.
    PushRow(String, Vec<(String, JsonValue)>),
    /// Add that many empty row objects at the end of the list at a path.
    AppendRows(String, u128),
    /// Set a member of the row object at an index of the list at a path,
    /// without marking a change.
    SetCell(String, u128, String, JsonValue),
    /// Mark a path as changed.
    MarkModified(String),
    /// For each name that the row at an index of the list at a path holds,
    /// set `$name` to its value.
    Restore(String, u128, Vec<String>),
}

pub enum WriteView {
    Put(Seq<char>, JsonView),
    SetInt(Seq<char>, i64),
    PushRow(Seq<char>, Seq<(Seq<char>, JsonView)>),
    AppendRows(Seq<char>, u128),
    SetCell(Seq<char>, u128, Seq<char>, JsonView),
    MarkModified(Seq<char>),
    Restore(Seq<char>, u128, Seq<Seq<char>>),
}

impl View for TableWrite {
    type V = WriteView;

    open spec fn view(&self) -> WriteView {
        match self {
            TableWrite::Put(p, v) => WriteView::Put(p@, v@),
            TableWrite::SetInt(p, i) => WriteView::SetInt(p@, *i),
            TableWrite::PushRow(p, r) => WriteView::PushRow(p@, entry_views(r@)),
            TableWrite::AppendRows(p, n) => WriteView::AppendRows(p@, *n),
            TableWrite::SetCell(p, i, k, v) => WriteView::SetCell(p@, *i, k@, v@),
            TableWrite::MarkModified(p) => WriteView::MarkModified(p@),
            TableWrite::Restore(p, i, ns) => WriteView::Restore(p@, *i, string_views(ns@)),
        }
    }
}

pub open spec fn write_views(s: Seq<TableWrite>) -> Seq<WriteView> {
    Seq::new(s.len(), |i: int| s[i]@)
}

/// What the evaluator is asked next.
pub enum TableRequest {
    /// Evaluate the logic (through the cache or not) and report its value.
    Evaluate(LogicId, bool),
    /// Report the whole number of the value.
    ToInteger(JsonValue),
    /// Nothing to evaluate: report back at once.
    Continue,
    /// Finished: the result is the list at the table's path.
    FinishRows,
    /// Finished: the table is skipped, its result is empty.
    FinishEmpty,
    /// Stopped with this error.
    Fail(String),
}

pub enum RequestView {
    Evaluate(LogicId, bool),
    ToInteger(JsonView),
    Continue,
    FinishRows,
    FinishEmpty,
    Fail(Seq<char>),
}

impl View for TableRequest {
    type V = RequestView;

    open spec fn view(&self) -> RequestView {
        match self {
            TableRequest::Evaluate(id, c) => RequestView::Evaluate(*id, *c),
            TableRequest::ToInteger(v) => RequestView::ToInteger(v@),
            TableRequest::Continue => RequestView::Continue,
            TableRequest::FinishRows => RequestView::FinishRows,
            TableRequest::FinishEmpty => RequestView::FinishEmpty,
            TableRequest::Fail(e) => RequestView::Fail(e@),
        }
    }
}

/// The writes to make, then the request to answer.
pub struct TableAction {
    pub writes: Vec<TableWrite>,
    pub request: TableRequest,
}

#[verifier::ext_equal]
pub struct ActionView {
    pub writes: Seq<WriteView>,
    pub request: RequestView,
}

impl View for TableAction {
    type V = ActionView;

    open spec fn view(&self) -> ActionView {
        ActionView { writes: write_views(self.writes@), request: self.request@ }
    }
}


/// The columns of row plan `r`.
pub open spec fn row_columns(plan: TablePlanView, r: int) -> Seq<ColumnView> {
    match plan.rows[r] {
        RowView::Static(cs) => cs,
        RowView::Repeat(_, _, _, _, cs) => cs,
    }
}

/// Ask for the value of `logic`, or for nothing when there is none.
pub open spec fn logic_request(logic: Option<LogicId>, cached: bool) -> RequestView {
    match logic {
        Some(id) => RequestView::Evaluate(id, cached),
        None => RequestView::Continue,
    }
}

/// The value an answer gives: the value reported, else the schema value
/// (`null` without one).
pub open spec fn answer(ev: EventView, literal: Option<JsonView>) -> JsonView {
    match ev {
        EventView::Value(v) => v,
        _ => match literal {
            Some(x) => x,
            None => JsonView::Null,
        },
    }
}

/// The positions of the columns that wait on later rows (`want`) or do not,
/// among the first `n`.
pub open spec fn split_columns(cols: Seq<ColumnView>, want: bool, n: nat) -> Seq<usize>
    decreases n,
{
    if n == 0 {
        seq![]
    } else {
        let r = split_columns(cols, want, (n - 1) as nat);
        if reaches_forward(cols, n - 1) == want { r.push((n - 1) as usize) } else { r }
    }
}

pub open spec fn index_names(cols: Seq<ColumnView>, idx: Seq<usize>) -> Seq<Seq<char>> {
    Seq::new(idx.len(), |i: int| cols[idx[i] as int].name)
}

/// `a + b`, capped at the largest `u128`.
pub open spec fn capped(a: int) -> u128 {
    if a > u128::MAX { u128::MAX } else { a as u128 }
}

/// The iteration of step `t` of sweep `s`: even sweeps go bottom up, odd
/// ones top down.
pub open spec fn sweep_iteration(st: StateView, s: u8, t: u128) -> int {
    if s % 2 == 0 { st.end - t } else { st.start + t }
}

/// What is asked on reaching the state's cursor.
pub open spec fn request_for(plan: TablePlanView, st: StateView) -> RequestView {
    match st.cursor {
        Cursor::Data(k) => logic_request(plan.datas[k as int].1, true),
        Cursor::SkipCheck => if plan.skip { RequestView::Continue } else { logic_request(plan.skip_logic, true) },
        Cursor::ClearCheck => if plan.clear { RequestView::Continue } else { logic_request(plan.clear_logic, true) },
        Cursor::Cell(r, c) => if c < row_columns(plan, r as int).len() {
            logic_request(row_columns(plan, r as int)[c as int].logic, false)
        } else {
            RequestView::Continue
        },
        Cursor::StartBound(r) => match plan.rows[r as int] {
            RowView::Repeat(sl, _, _, _, _) => logic_request(sl, false),
            _ => RequestView::Continue,
        },
        Cursor::EndBound(r) => match plan.rows[r as int] {
            RowView::Repeat(_, _, el, _, _) => logic_request(el, false),
            _ => RequestView::Continue,
        },
        Cursor::StartNum(_) => RequestView::ToInteger(st.start_value),
        Cursor::EndNum(_) => RequestView::ToInteger(st.end_value),
        Cursor::FwdCell(r, _, c) => if c < st.normal.len() {
            logic_request(row_columns(plan, r as int)[st.normal[c as int] as int].logic, false)
        } else {
            RequestView::Continue
        },
        Cursor::BackCell(r, _, _, c) => if c < st.forward.len() {
            logic_request(row_columns(plan, r as int)[st.forward[c as int] as int].logic, false)
        } else {
            RequestView::Continue
        },
        Cursor::Finished => RequestView::FinishRows,
        Cursor::Skipped => RequestView::FinishEmpty,
        Cursor::Stopped => RequestView::Fail(st.error),
        _ => RequestView::Continue,
    }
}

pub open spec fn with_cursor(st: StateView, c: Cursor) -> StateView {
    StateView { cursor: c, ..st }
}

pub open spec fn stopped(st: StateView, e: Seq<char>) -> (StateView, Seq<WriteView>) {
    (StateView { cursor: Cursor::Stopped, error: e, ..st }, seq![])
}

/// Whether an evaluation that was asked for failed, and with what.
pub open spec fn failure(ev: EventView, logic: Option<LogicId>) -> Option<Seq<char>> {
    match (ev, logic) {
        (EventView::Failed(e), Some(_)) => Some(e),
        _ => None,
    }
}

/// What handling the answer at the state's cursor does: the state it leads
/// to and the writes it makes.
pub open spec fn spec_effect(plan: TablePlanView, st: StateView, ev: EventView) -> (StateView, Seq<WriteView>) {
    let path = plan.path;
    match st.cursor {
        Cursor::Data(k) => {
            let d = plan.datas[k as int];
            let v = answer(ev, d.2);
            let next = if k + 1 < plan.datas.len() { Cursor::Data((k + 1) as usize) } else { Cursor::Init };
            (with_cursor(st, next), seq![WriteView::Put(d.0, v)])
        },
        Cursor::Init => (
            StateView { cursor: Cursor::SkipCheck, table_len: 0, ..st },
            seq![WriteView::Put(path, JsonView::Array(seq![]))],
        ),
        Cursor::SkipCheck => if plan.skip {
            (with_cursor(st, Cursor::Skipped), seq![])
        } else {
            match failure(ev, plan.skip_logic) {
                Some(e) => stopped(st, e),
                None => if plan.skip_logic is Some && ev == EventView::Value(JsonView::Bool(true)) {
                    (with_cursor(st, Cursor::Skipped), seq![])
                } else {
                    (with_cursor(st, Cursor::ClearCheck), seq![])
                },
            }
        },
        Cursor::ClearCheck => {
            let fail = if plan.clear { None } else { failure(ev, plan.clear_logic) };
            match fail {
                Some(e) => stopped(st, e),
                None => if plan.clear || (plan.clear_logic is Some && ev == EventView::Value(JsonView::Bool(true))) {
                    (
                        StateView { cursor: Cursor::RowStart(0), table_len: 0, ..st },
                        seq![WriteView::Put(path, JsonView::Array(seq![]))],
                    )
                } else {
                    (with_cursor(st, Cursor::RowStart(0)), seq![])
                },
            }
        },
        Cursor::RowStart(r) => {
            let next = if r >= plan.rows.len() {
                Cursor::Finished
            } else {
                match plan.rows[r as int] {
                    RowView::Static(_) => Cursor::Cell(r, 0),
                    RowView::Repeat(_, _, _, _, _) => Cursor::StartBound(r),
                }
            };
            (StateView { cursor: next, row: seq![], ..st }, seq![])
        },
        Cursor::Cell(r, c) => {
            let cols = row_columns(plan, r as int);
            if c < cols.len() {
                let col = cols[c as int];
                match failure(ev, col.logic) {
                    Some(e) => stopped(st, e),
                    None => {
                        let v = answer(ev, col.literal);
                        (
                            StateView { cursor: Cursor::Cell(r, (c + 1) as usize), row: entry_set(st.row, col.name, v), ..st },
                            seq![WriteView::Put(col.var_path, v)],
                        )
                    },
                }
            } else {
                (
                    StateView {
                        cursor: Cursor::RowStart((r + 1) as usize),
                        row: seq![],
                        table_len: capped(st.table_len + 1),
                        ..st
                    },
                    seq![WriteView::PushRow(path, st.row)],
                )
            }
        },
        Cursor::StartBound(r) => match plan.rows[r as int] {
            RowView::Repeat(sl, sv, _, _, _) => match failure(ev, sl) {
                Some(e) => stopped(st, e),
                None => (StateView { cursor: Cursor::EndBound(r), start_value: answer(ev, Some(sv)), ..st }, seq![]),
            },
            _ => (st, seq![]),
        },
        Cursor::EndBound(r) => match plan.rows[r as int] {
            RowView::Repeat(_, _, el, evv, _) => match failure(ev, el) {
                Some(e) => stopped(st, e),
                None => (StateView { cursor: Cursor::StartNum(r), end_value: answer(ev, Some(evv)), ..st }, seq![]),
            },
            _ => (st, seq![]),
        },
        Cursor::StartNum(r) => {
            let i = match ev { EventView::Integer(i) => i, _ => 0 };
            (StateView { cursor: Cursor::EndNum(r), start: i, ..st }, seq![])
        },
        Cursor::EndNum(r) => {
            let j = match ev { EventView::Integer(j) => j, _ => 0 };
            if st.start > j {
                (StateView { cursor: Cursor::RowStart((r + 1) as usize), end: j, ..st }, seq![])
            } else {
                let cols = row_columns(plan, r as int);
                let count = (j - st.start + 1) as u128;
                (
                    StateView {
                        cursor: Cursor::FwdRow(r, 0),
                        end: j,
                        count,
                        existing: st.table_len,
                        table_len: capped(st.table_len + count),
                        normal: split_columns(cols, false, cols.len()),
                        forward: split_columns(cols, true, cols.len()),
                        ..st
                    },
                    seq![WriteView::AppendRows(path, count), WriteView::MarkModified(path)],
                )
            }
        },
        Cursor::FwdRow(r, t) => (
            with_cursor(st, Cursor::FwdCell(r, t, 0)),
            seq![
                WriteView::SetInt("$iteration"@, (st.start + t) as i64),
                WriteView::SetInt("$threshold"@, st.end),
            ],
        ),
        Cursor::FwdCell(r, t, c) => {
            let cols = row_columns(plan, r as int);
            if c < st.normal.len() {
                let col = cols[st.normal[c as int] as int];
                match failure(ev, col.logic) {
                    Some(e) => stopped(st, e),
                    None => {
                        let v = answer(ev, col.literal);
                        (
                            with_cursor(st, Cursor::FwdCell(r, t, (c + 1) as usize)),
                            seq![WriteView::SetCell(path, capped(st.existing + t), col.name, v), WriteView::Put(col.var_path, v)],
                        )
                    },
                }
            } else {
                let next = if t + 1 < st.count {
                    Cursor::FwdRow(r, (t + 1) as u128)
                } else if st.forward.len() > 0 {
                    Cursor::BackRow(r, 0, 0)
                } else {
                    Cursor::RowStart((r + 1) as usize)
                };
                (with_cursor(st, next), seq![WriteView::MarkModified(path)])
            }
        },
        Cursor::BackRow(r, s, t) => {
            let it = sweep_iteration(st, s, t);
            let cols = row_columns(plan, r as int);
            (
                with_cursor(st, Cursor::BackCell(r, s, t, 0)),
                seq![
                    WriteView::SetInt("$iteration"@, it as i64),
                    WriteView::SetInt("$threshold"@, st.end),
                    WriteView::Restore(path, capped(st.existing + (it - st.start)),
                        index_names(cols, st.normal) + index_names(cols, st.forward)),
                ],
            )
        },
        Cursor::BackCell(r, s, t, c) => {
            let cols = row_columns(plan, r as int);
            if c < st.forward.len() {
                let col = cols[st.forward[c as int] as int];
                match failure(ev, col.logic) {
                    Some(e) => stopped(st, e),
                    None => {
                        let it = sweep_iteration(st, s, t);
                        (
                            with_cursor(st, Cursor::BackCell(r, s, t, (c + 1) as usize)),
                            seq![WriteView::SetCell(path, capped(st.existing + (it - st.start)), col.name, answer(ev, col.literal))],
                        )
                    },
                }
            } else {
                let next = if t + 1 < st.count {
                    Cursor::BackRow(r, s, (t + 1) as u128)
                } else if s + 1 < 3 {
                    Cursor::BackRow(r, (s + 1) as u8, 0)
                } else {
                    Cursor::RowStart((r + 1) as usize)
                };
                (with_cursor(st, next), seq![WriteView::MarkModified(path)])
            }
        },
        _ => (st, seq![]),
    }
}

/// One step: handle the answer at the cursor, then ask what the next cursor
/// needs.
pub open spec fn spec_table_step(plan: TablePlanView, st: StateView, ev: EventView) -> (StateView, ActionView) {
    let (s2, writes) = spec_effect(plan, st, ev);
    (s2, ActionView { writes, request: request_for(plan, s2) })
}


/// A repeated row `r` is under way with bounds `start..=end`.
pub open spec fn repeat_ok(plan: TablePlanView, st: StateView, r: int) -> bool {
    &&& 0 <= r < plan.rows.len()
    &&& plan.rows[r] is Repeat
    &&& st.start <= st.end
    &&& st.count == st.end - st.start + 1
    &&& forall|i: int| 0 <= i < st.normal.len() ==> #[trigger] st.normal[i] < row_columns(plan, r).len()
    &&& forall|i: int| 0 <= i < st.forward.len() ==> #[trigger] st.forward[i] < row_columns(plan, r).len()
}

/// The state's cursor lies within the plan.
pub open spec fn state_ok(plan: TablePlanView, st: StateView) -> bool {
    match st.cursor {
        Cursor::Data(k) => k < plan.datas.len(),
        Cursor::RowStart(r) => r <= plan.rows.len(),
        Cursor::Cell(r, c) => r < plan.rows.len() && plan.rows[r as int] is Static && c <= row_columns(plan, r as int).len(),
        Cursor::StartBound(r) => r < plan.rows.len() && plan.rows[r as int] is Repeat,
        Cursor::EndBound(r) => r < plan.rows.len() && plan.rows[r as int] is Repeat,
        Cursor::StartNum(r) => r < plan.rows.len() && plan.rows[r as int] is Repeat,
        Cursor::EndNum(r) => r < plan.rows.len() && plan.rows[r as int] is Repeat,
        Cursor::FwdRow(r, t) => repeat_ok(plan, st, r as int) && t < st.count,
        Cursor::FwdCell(r, t, c) => repeat_ok(plan, st, r as int) && t < st.count && c <= st.normal.len(),
        Cursor::BackRow(r, s, t) => repeat_ok(plan, st, r as int) && t < st.count && s < 3 && st.forward.len() > 0,
        Cursor::BackCell(r, s, t, c) => repeat_ok(plan, st, r as int) && t < st.count && s < 3 && st.forward.len() > 0
            && c <= st.forward.len(),
        _ => true,
    }
}

fn logic_request_of(logic: Option<LogicId>, cached: bool) -> (res: TableRequest)
    ensures
        res@ == logic_request(logic, cached),
{
    match logic {
        Some(id) => TableRequest::Evaluate(id, cached),
        None => TableRequest::Continue,
    }
}

fn clone_opt(o: &Option<JsonValue>) -> (res: Option<JsonValue>)
    ensures
        opt_json_view(res) == opt_json_view(*o),
{
    match o {
        Some(v) => Some(v.clone()),
        None => None,
    }
}

fn answer_of(ev: &TableEvent, literal: &Option<JsonValue>) -> (res: JsonValue)
    ensures
        res@ == answer(ev@, opt_json_view(*literal)),
{
    match ev {
        TableEvent::Value(v) => v.clone(),
        _ => match literal {
            Some(x) => x.clone(),
            None => JsonValue::Null,
        },
    }
}

fn failure_of(ev: &TableEvent, logic: Option<LogicId>) -> (res: Option<String>)
    ensures
        match res {
            Some(e) => failure(ev@, logic) == Some(e@),
            None => failure(ev@, logic) is None,
        },
{
    match (ev, logic) {
        (TableEvent::Failed(e), Some(_)) => Some(copy_string(e)),
        _ => None,
    }
}

fn columns_of(plan: &TablePlan, r: usize) -> (res: &Vec<ColumnPlan>)
    requires
        r < plan.rows@.len(),
    ensures
        column_views(res@) == row_columns(plan@, r as int),
{
    assert(plan@.rows[r as int] == plan.rows@[r as int]@);
    match &plan.rows[r] {
        RowPlan::Static { columns } => columns,
        RowPlan::Repeat { columns, .. } => columns,
    }
}

fn is_true(ev: &TableEvent) -> (res: bool)
    ensures
        res == (ev@ == EventView::Value(JsonView::Bool(true))),
{
    match ev {
        TableEvent::Value(JsonValue::Bool(b)) => *b,
        _ => false,
    }
}

fn capped_add(a: u128, b: u128) -> (res: u128)
    ensures
        res == capped(a + b),
{
    if a <= u128::MAX - b { a + b } else { u128::MAX }
}

/// What is asked on reaching the state's cursor.
fn request_of(plan: &TablePlan, st: &TableState) -> (res: TableRequest)
    requires
        state_ok(plan@, st@),
    ensures
        res@ == request_for(plan@, st@),
{
    match st.cursor {
        Cursor::Data(k) => {
            assert(plan@.datas[k as int] == (plan.datas@[k as int].name@, plan.datas@[k as int].logic, opt_json_view(plan.datas@[k as int].literal)));
            logic_request_of(plan.datas[k].logic, true)
        },
        Cursor::SkipCheck => if plan.skip { TableRequest::Continue } else { logic_request_of(plan.skip_logic, true) },
        Cursor::ClearCheck => if plan.clear { TableRequest::Continue } else { logic_request_of(plan.clear_logic, true) },
        Cursor::Cell(r, c) => {
            let cols = columns_of(plan, r);
            if c < cols.len() {
                assert(column_views(cols@)[c as int] == cols@[c as int]@);
                logic_request_of(cols[c].logic, false)
            } else {
                TableRequest::Continue
            }
        },
        Cursor::StartBound(r) => {
            assert(plan@.rows[r as int] == plan.rows@[r as int]@);
            match &plan.rows[r] {
                RowPlan::Repeat { start, .. } => logic_request_of(start.logic, false),
                _ => TableRequest::Continue,
            }
        },
        Cursor::EndBound(r) => {
            assert(plan@.rows[r as int] == plan.rows@[r as int]@);
            match &plan.rows[r] {
                RowPlan::Repeat { end, .. } => logic_request_of(end.logic, false),
                _ => TableRequest::Continue,
            }
        },
        Cursor::StartNum(_) => TableRequest::ToInteger(st.start_value.clone()),
        Cursor::EndNum(_) => TableRequest::ToInteger(st.end_value.clone()),
        Cursor::FwdCell(r, _, c) => {
            if c < st.normal.len() {
                let cols = columns_of(plan, r);
                let j = st.normal[c];
                assert(column_views(cols@)[j as int] == cols@[j as int]@);
                logic_request_of(cols[j].logic, false)
            } else {
                TableRequest::Continue
            }
        },
        Cursor::BackCell(r, _, _, c) => {
            if c < st.forward.len() {
                let cols = columns_of(plan, r);
                let j = st.forward[c];
                assert(column_views(cols@)[j as int] == cols@[j as int]@);
                logic_request_of(cols[j].logic, false)
            } else {
                TableRequest::Continue
            }
        },
        Cursor::Finished => TableRequest::FinishRows,
        Cursor::Skipped => TableRequest::FinishEmpty,
        Cursor::Stopped => TableRequest::Fail(copy_string(&st.error)),
        _ => TableRequest::Continue,
    }
}

/// The positions of the columns that wait on later rows (`want`) or not.
fn split_of(flags: &Vec<bool>, want: bool, Ghost(cols): Ghost<Seq<ColumnView>>) -> (res: Vec<usize>)
    requires
        flags@.len() == cols.len(),
        forall|i: int| 0 <= i < cols.len() ==> (#[trigger] flags@[i] <==> reaches_forward(cols, i)),
    ensures
        res@ == split_columns(cols, want, cols.len()),
        forall|i: int| 0 <= i < res@.len() ==> #[trigger] res@[i] < cols.len(),
{
    let mut out: Vec<usize> = Vec::new();
    let mut i: usize = 0;
    while i < flags.len()
        invariant
            i <= flags@.len(),
            flags@.len() == cols.len(),
            forall|q: int| 0 <= q < cols.len() ==> (#[trigger] flags@[q] <==> reaches_forward(cols, q)),
            out@ == split_columns(cols, want, i as nat),
            forall|q: int| 0 <= q < out@.len() ==> #[trigger] out@[q] < i,
        decreases flags@.len() - i,
    {
        if flags[i] == want {
            out.push(i);
        }
        i = i + 1;
    }
    out
}

fn new_string(s: &str) -> (res: String)
    ensures
        res@ == s@,
{
    String::from_str(s)
}

fn one_write(w: TableWrite) -> (res: Vec<TableWrite>)
    ensures
        write_views(res@) == seq![w@],
{
    let mut v: Vec<TableWrite> = Vec::new();
    v.push(w);
    assert(write_views(v@) =~= seq![v@[0]@]);
    v
}

fn no_writes() -> (res: Vec<TableWrite>)
    ensures
        write_views(res@) == Seq::<WriteView>::empty(),
{
    let v: Vec<TableWrite> = Vec::new();
    assert(write_views(v@) =~= Seq::<WriteView>::empty());
    v
}

fn two_writes(a: TableWrite, b: TableWrite) -> (res: Vec<TableWrite>)
    ensures
        write_views(res@) == seq![a@, b@],
{
    let mut v: Vec<TableWrite> = Vec::new();
    v.push(a);
    v.push(b);
    assert(write_views(v@) =~= seq![v@[0]@, v@[1]@]);
    v
}

fn three_writes(a: TableWrite, b: TableWrite, c: TableWrite) -> (res: Vec<TableWrite>)
    ensures
        write_views(res@) == seq![a@, b@, c@],
{
    let mut v: Vec<TableWrite> = Vec::new();
    v.push(a);
    v.push(b);
    v.push(c);
    assert(write_views(v@) =~= seq![v@[0]@, v@[1]@, v@[2]@]);
    v
}

fn empty_entries() -> (res: Vec<(String, JsonValue)>)
    ensures
        entry_views(res@) == Seq::<(Seq<char>, JsonView)>::empty(),
{
    let v: Vec<(String, JsonValue)> = Vec::new();
    assert(entry_views(v@) =~= Seq::<(Seq<char>, JsonView)>::empty());
    v
}

fn clone_entries(es: &Vec<(String, JsonValue)>) -> (res: Vec<(String, JsonValue)>)
    ensures
        entry_views(res@) == entry_views(es@),
{
    let mut out: Vec<(String, JsonValue)> = Vec::new();
    let mut i: usize = 0;
    while i < es.len()
        invariant
            i <= es@.len(),
            entry_views(out@) == entry_views(es@).take(i as int),
        decreases es@.len() - i,
    {
        let e = (copy_string(&es[i].0), es[i].1.clone());
        let ghost prev = out@;
        out.push(e);
        assert(entry_views(out@) =~= entry_views(prev).push((es@[i as int].0@, es@[i as int].1@)));
        assert(entry_views(es@)[i as int] == (es@[i as int].0@, es@[i as int].1@));
        assert(entry_views(es@).take(i + 1) =~= entry_views(es@).take(i as int).push(entry_views(es@)[i as int]));
        i = i + 1;
    }
    assert(entry_views(es@).take(es@.len() as int) =~= entry_views(es@));
    out
}

fn names_at(cols: &Vec<ColumnPlan>, idx: &Vec<usize>, out: &mut Vec<String>)
    requires
        forall|i: int| 0 <= i < idx@.len() ==> #[trigger] idx@[i] < cols@.len(),
    ensures
        string_views(final(out)@) == string_views(old(out)@) + index_names(column_views(cols@), idx@),
{
    let ghost o0 = string_views(out@);
    let ghost cv = column_views(cols@);
    let mut i: usize = 0;
    while i < idx.len()
        invariant
            i <= idx@.len(),
            cv == column_views(cols@),
            forall|q: int| 0 <= q < idx@.len() ==> #[trigger] idx@[q] < cols@.len(),
            string_views(out@) == o0 + index_names(cv, idx@).take(i as int),
        decreases idx@.len() - i,
    {
        let j = idx[i];
        assert(cv[j as int] == cols@[j as int]@);
        let ghost prev = out@;
        out.push(copy_string(&cols[j].name));
        assert(string_views(out@) =~= string_views(prev).push(cols@[j as int].name@));
        assert(index_names(cv, idx@)[i as int] == cv[j as int].name);
        assert(index_names(cv, idx@).take(i + 1) =~= index_names(cv, idx@).take(i as int).push(cv[j as int].name));
        assert(string_views(out@) =~= o0 + index_names(cv, idx@).take(i + 1));
        i = i + 1;
    }
    assert(index_names(cv, idx@).take(idx@.len() as int) =~= index_names(cv, idx@));
}


fn stop_with(st: TableState, e: String) -> (res: (TableState, Vec<TableWrite>))
    ensures
        res.0@ == stopped(st@, e@).0,
        write_views(res.1@) == stopped(st@, e@).1,
{
    let mut st = st;
    let ghost s0 = st@;
    st.cursor = Cursor::Stopped;
    st.error = e;
    assert(st@ =~= stopped(s0, e@).0);
    (st, no_writes())
}

/// Handle the answer at the state's cursor (see `spec_effect`).
#[verifier::rlimit(50)]
fn effect(plan: &TablePlan, st: TableState, ev: &TableEvent) -> (res: (TableState, Vec<TableWrite>))
    requires
        state_ok(plan@, st@),
    ensures
        res.0@ == spec_effect(plan@, st@, ev@).0,
        write_views(res.1@) == spec_effect(plan@, st@, ev@).1,
{
    let mut st = st;
    let ghost s0 = st@;
    let ghost spec = spec_effect(plan@, s0, ev@);
    assert(plan@.datas.len() == plan.datas@.len());
    assert(plan@.rows.len() == plan.rows@.len());
    let nd = plan.datas.len();
    let nr = plan.rows.len();
    match st.cursor {
        Cursor::Data(k) => {
            assert(s0.cursor == Cursor::Data(k));
            assert(k < plan@.datas.len());
            assert(plan@.datas[k as int] == (plan.datas@[k as int].name@, plan.datas@[k as int].logic, opt_json_view(plan.datas@[k as int].literal)));
            let v = answer_of(ev, &plan.datas[k].literal);
            st.cursor = if k + 1 < plan.datas.len() { Cursor::Data(k + 1) } else { Cursor::Init };
            let w = one_write(TableWrite::Put(copy_string(&plan.datas[k].name), v));
            assert(st@ =~= spec.0);
            (st, w)
        },
        Cursor::Init => {
            st.cursor = Cursor::SkipCheck;
            st.table_len = 0;
            let empty: Vec<JsonValue> = Vec::new();
            assert(crate::json::json_views(empty@) =~= Seq::<JsonView>::empty());
            let w = one_write(TableWrite::Put(copy_string(&plan.path), JsonValue::Array(empty)));
            assert(st@ =~= spec.0);
            (st, w)
        },
        Cursor::SkipCheck => {
            if plan.skip {
                st.cursor = Cursor::Skipped;
                assert(st@ =~= spec.0);
                return (st, no_writes());
            }
            match failure_of(ev, plan.skip_logic) {
                Some(e) => stop_with(st, e),
                None => {
                    st.cursor = if plan.skip_logic.is_some() && is_true(ev) { Cursor::Skipped } else { Cursor::ClearCheck };
                    assert(st@ =~= spec.0);
                    (st, no_writes())
                },
            }
        },
        Cursor::ClearCheck => {
            let fail = if plan.clear { None } else { failure_of(ev, plan.clear_logic) };
            match fail {
                Some(e) => stop_with(st, e),
                None => {
                    if plan.clear || (plan.clear_logic.is_some() && is_true(ev)) {
                        st.cursor = Cursor::RowStart(0);
                        st.table_len = 0;
                        let empty: Vec<JsonValue> = Vec::new();
                        assert(crate::json::json_views(empty@) =~= Seq::<JsonView>::empty());
                        let w = one_write(TableWrite::Put(copy_string(&plan.path), JsonValue::Array(empty)));
                        assert(st@ =~= spec.0);
                        (st, w)
                    } else {
                        st.cursor = Cursor::RowStart(0);
                        assert(st@ =~= spec.0);
                        (st, no_writes())
                    }
                },
            }
        },
        Cursor::RowStart(r) => {
            st.cursor = if r >= plan.rows.len() {
                Cursor::Finished
            } else {
                assert(plan@.rows[r as int] == plan.rows@[r as int]@);
                match &plan.rows[r] {
                    RowPlan::Static { .. } => Cursor::Cell(r, 0),
                    RowPlan::Repeat { .. } => Cursor::StartBound(r),
                }
            };
            st.row = empty_entries();
            assert(st@ =~= spec.0);
            (st, no_writes())
        },
        Cursor::Cell(r, c) => {
            let cols = columns_of(plan, r);
            if c < cols.len() {
                assert(column_views(cols@)[c as int] == cols@[c as int]@);
                let col = &cols[c];
                match failure_of(ev, col.logic) {
                    Some(e) => stop_with(st, e),
                    None => {
                        let v = answer_of(ev, &col.literal);
                        let v2 = v.clone();
                        set_entry(&mut st.row, &col.name, v);
                        st.cursor = Cursor::Cell(r, c + 1);
                        let w = one_write(TableWrite::Put(copy_string(&col.var_path), v2));
                        assert(st@ =~= spec.0);
                        (st, w)
                    },
                }
            } else {
                let row = clone_entries(&st.row);
                st.cursor = Cursor::RowStart(r + 1);
                st.row = empty_entries();
                st.table_len = capped_add(st.table_len, 1);
                let w = one_write(TableWrite::PushRow(copy_string(&plan.path), row));
                assert(st@ =~= spec.0);
                (st, w)
            }
        },
        Cursor::StartBound(r) => {
            assert(plan@.rows[r as int] == plan.rows@[r as int]@);
            match &plan.rows[r] {
                RowPlan::Repeat { start, .. } => match failure_of(ev, start.logic) {
                    Some(e) => stop_with(st, e),
                    None => {
                        let lit = Some(start.literal.clone());
                        st.start_value = answer_of(ev, &lit);
                        st.cursor = Cursor::EndBound(r);
                        assert(st@ =~= spec.0);
                        (st, no_writes())
                    },
                },
                _ => (st, no_writes()),
            }
        },
        Cursor::EndBound(r) => {
            assert(plan@.rows[r as int] == plan.rows@[r as int]@);
            match &plan.rows[r] {
                RowPlan::Repeat { end, .. } => match failure_of(ev, end.logic) {
                    Some(e) => stop_with(st, e),
                    None => {
                        let lit = Some(end.literal.clone());
                        st.end_value = answer_of(ev, &lit);
                        st.cursor = Cursor::StartNum(r);
                        assert(st@ =~= spec.0);
                        (st, no_writes())
                    },
                },
                _ => (st, no_writes()),
            }
        },
        Cursor::StartNum(r) => {
            st.start = match ev { TableEvent::Integer(i) => *i, _ => 0 };
            st.cursor = Cursor::EndNum(r);
            assert(st@ =~= spec.0);
            (st, no_writes())
        },
        Cursor::EndNum(r) => {
            let j: i64 = match ev { TableEvent::Integer(j) => *j, _ => 0 };
            st.end = j;
            if st.start > j {
                st.cursor = Cursor::RowStart(r + 1);
                assert(st@ =~= spec.0);
                (st, no_writes())
            } else {
                let cols = columns_of(plan, r);
                let flags = forward_columns(cols);
                let count: u128 = (j as i128 - st.start as i128 + 1) as u128;
                st.count = count;
                st.existing = st.table_len;
                st.table_len = capped_add(st.table_len, count);
                st.normal = split_of(&flags, false, Ghost(column_views(cols@)));
                st.forward = split_of(&flags, true, Ghost(column_views(cols@)));
                st.cursor = Cursor::FwdRow(r, 0);
                let w = two_writes(
                    TableWrite::AppendRows(copy_string(&plan.path), count),
                    TableWrite::MarkModified(copy_string(&plan.path)),
                );
                assert(st@ =~= spec.0);
                (st, w)
            }
        },
        Cursor::FwdRow(r, t) => {
            let it: i64 = (st.start as i128 + t as i128) as i64;
            let w = two_writes(
                TableWrite::SetInt(new_string("$iteration"), it),
                TableWrite::SetInt(new_string("$threshold"), st.end),
            );
            st.cursor = Cursor::FwdCell(r, t, 0);
            assert(st@ =~= spec.0);
            (st, w)
        },
        Cursor::FwdCell(r, t, c) => {
            let cols = columns_of(plan, r);
            if c < st.normal.len() {
                let j = st.normal[c];
                assert(column_views(cols@)[j as int] == cols@[j as int]@);
                let col = &cols[j];
                match failure_of(ev, col.logic) {
                    Some(e) => stop_with(st, e),
                    None => {
                        let v = answer_of(ev, &col.literal);
                        let v2 = v.clone();
                        let w = two_writes(
                            TableWrite::SetCell(copy_string(&plan.path), capped_add(st.existing, t), copy_string(&col.name), v),
                            TableWrite::Put(copy_string(&col.var_path), v2),
                        );
                        st.cursor = Cursor::FwdCell(r, t, c + 1);
                        assert(st@ =~= spec.0);
                        (st, w)
                    },
                }
            } else {
                st.cursor = if t + 1 < st.count {
                    Cursor::FwdRow(r, t + 1)
                } else if st.forward.len() > 0 {
                    Cursor::BackRow(r, 0, 0)
                } else {
                    Cursor::RowStart(r + 1)
                };
                let w = one_write(TableWrite::MarkModified(copy_string(&plan.path)));
                assert(st@ =~= spec.0);
                (st, w)
            }
        },
        Cursor::BackRow(r, s, t) => {
            let cols = columns_of(plan, r);
            let it: i128 = if s % 2 == 0 { st.end as i128 - t as i128 } else { st.start as i128 + t as i128 };
            let off: u128 = (it - st.start as i128) as u128;
            let mut names: Vec<String> = Vec::new();
            assert(string_views(names@) =~= Seq::<Seq<char>>::empty());
            names_at(cols, &st.normal, &mut names);
            names_at(cols, &st.forward, &mut names);
            let w = three_writes(
                TableWrite::SetInt(new_string("$iteration"), it as i64),
                TableWrite::SetInt(new_string("$threshold"), st.end),
                TableWrite::Restore(copy_string(&plan.path), capped_add(st.existing, off), names),
            );
            st.cursor = Cursor::BackCell(r, s, t, 0);
            assert(st@ =~= spec.0);
            (st, w)
        },
        Cursor::BackCell(r, s, t, c) => {
            let cols = columns_of(plan, r);
            if c < st.forward.len() {
                let j = st.forward[c];
                assert(column_views(cols@)[j as int] == cols@[j as int]@);
                let col = &cols[j];
                match failure_of(ev, col.logic) {
                    Some(e) => stop_with(st, e),
                    None => {
                        let it: i128 = if s % 2 == 0 { st.end as i128 - t as i128 } else { st.start as i128 + t as i128 };
                        let off: u128 = (it - st.start as i128) as u128;
                        let v = answer_of(ev, &col.literal);
                        let w = one_write(
                            TableWrite::SetCell(copy_string(&plan.path), capped_add(st.existing, off), copy_string(&col.name), v),
                        );
                        st.cursor = Cursor::BackCell(r, s, t, c + 1);
                        assert(st@ =~= spec.0);
                        (st, w)
                    },
                }
            } else {
                st.cursor = if t + 1 < st.count {
                    Cursor::BackRow(r, s, t + 1)
                } else if s + 1 < 3 {
                    Cursor::BackRow(r, s + 1, 0)
                } else {
                    Cursor::RowStart(r + 1)
                };
                let w = one_write(TableWrite::MarkModified(copy_string(&plan.path)));
                assert(st@ =~= spec.0);
                (st, w)
            }
        },
        _ => {
            (st, no_writes())
        },
    }
}


proof fn lemma_split_bounded(cols: Seq<ColumnView>, want: bool, n: nat)
    ensures
        forall|i: int| 0 <= i < split_columns(cols, want, n).len() ==> #[trigger] split_columns(cols, want, n)[i] < n,
    decreases n,
{
    if n > 0 {
        lemma_split_bounded(cols, want, (n - 1) as nat);
        let r = split_columns(cols, want, (n - 1) as nat);
        let res = split_columns(cols, want, n);
        assert forall|i: int| 0 <= i < res.len() implies #[trigger] res[i] < n by {
            if i < r.len() {
                assert(res[i] == r[i]);
            }
        }
    }
}

/// A step keeps the cursor within the plan.
#[verifier::rlimit(100)]
#[verifier::spinoff_prover]
proof fn lemma_effect_ok(plan: TablePlanView, st: StateView, ev: EventView)
    requires
        state_ok(plan, st),
    ensures
        state_ok(plan, spec_effect(plan, st, ev).0),
{
    let e = spec_effect(plan, st, ev).0;
    match st.cursor {
        Cursor::EndNum(r) => {
            let cols = row_columns(plan, r as int);
            lemma_split_bounded(cols, false, cols.len());
            lemma_split_bounded(cols, true, cols.len());
            assert(state_ok(plan, e));
        },
        Cursor::FwdCell(r, t, c) => {
            assert(state_ok(plan, e));
        },
        Cursor::BackCell(r, s, t, c) => {
            assert(state_ok(plan, e));
        },
        Cursor::Cell(r, c) => {
            assert(state_ok(plan, e));
        },
        Cursor::RowStart(r) => {
            assert(state_ok(plan, e));
        },
        _ => {
            assert(state_ok(plan, e));
        },
    }
}

/// The state a table's evaluation starts in.
pub open spec fn initial_state(plan: TablePlanView) -> StateView {
    StateView {
        cursor: if plan.datas.len() > 0 { Cursor::Data(0) } else { Cursor::Init },
        table_len: 0,
        row: seq![],
        start_value: JsonView::Null,
        end_value: JsonView::Null,
        start: 0,
        end: 0,
        existing: 0,
        count: 0,
        normal: seq![],
        forward: seq![],
        error: seq![],
    }
}

/// Start the evaluation of a planned table: the first state, and what to
/// ask first.
pub fn table_begin(plan: &TablePlan) -> (res: (TableState, TableAction))
    ensures
        res.0@ == initial_state(plan@),
        res.1@ == (ActionView { writes: seq![], request: request_for(plan@, initial_state(plan@)) }),
        state_ok(plan@, res.0@),
{
    assert(plan@.datas.len() == plan.datas@.len());
    let st = TableState {
        cursor: if plan.datas.len() > 0 { Cursor::Data(0) } else { Cursor::Init },
        table_len: 0,
        row: empty_entries(),
        start_value: JsonValue::Null,
        end_value: JsonValue::Null,
        start: 0,
        end: 0,
        existing: 0,
        count: 0,
        normal: Vec::new(),
        forward: Vec::new(),
        error: String::new(),
    };
    assert(st@ =~= initial_state(plan@));
    let request = request_of(plan, &st);
    let act = TableAction { writes: no_writes(), request };
    assert(act@ =~= (ActionView { writes: seq![], request: request_for(plan@, initial_state(plan@)) }));
    (st, act)
}

/// One step of a table's evaluation: handle the evaluator's answer at the
/// state's cursor (storing values, adding rows, moving through the rows, the
/// iterations of a repeated row top to bottom and then its three alternating
/// sweeps over the columns that wait on later rows), and say which writes to
/// make and what to ask next.
pub fn table_step(plan: &TablePlan, state: TableState, event: TableEvent) -> (res: (TableState, TableAction))
    requires
        state_ok(plan@, state@),
    ensures
        res.0@ == spec_table_step(plan@, state@, event@).0,
        res.1@ == spec_table_step(plan@, state@, event@).1,
        state_ok(plan@, res.0@),
{
    let (st, writes) = effect(plan, state, &event);
    proof {
        lemma_effect_ok(plan@, state@, event@);
    }
    let request = request_of(plan, &st);
    let act = TableAction { writes, request };
    assert(act@ =~= spec_table_step(plan@, state@, event@).1);
    (st, act)
}

/// A `$repeat` row runs its iterations `start..=end`, both ends included: once
/// both bounds are known, `start <= end` appends `end - start + 1` rows (one row
/// when they are equal) and marks the table modified, and `start > end` adds no
/// row and goes on with the next row plan.
#[verifier::spinoff_prover]
#[verifier::rlimit(80)]
pub proof fn law_repeat_row_count(plan: TablePlanView, st: StateView, r: usize, end: i64)
    requires
        st.cursor == Cursor::EndNum(r),
        r < plan.rows.len(),
        plan.rows[r as int] is Repeat,
    ensures
        ({
            let step = spec_table_step(plan, st, EventView::Integer(end));
            &&& st.start <= end ==> {
                &&& step.1.writes == seq![
                    WriteView::AppendRows(plan.path, ((end as int) - (st.start as int) + 1) as u128),
                    WriteView::MarkModified(plan.path),
                ]
                &&& step.0.count == ((end as int) - (st.start as int) + 1)
                &&& step.0.start == st.start
                &&& step.0.end == end
            }
            &&& st.start > end ==> step.1.writes.len() == 0 && step.0.cursor == Cursor::RowStart((r + 1) as usize)
        }),
{
}

/// Iteration `t` of a repeated row sees `$iteration` set to `start + t`, and
/// `$threshold` set to the last iteration.
pub proof fn law_repeat_iteration_number(plan: TablePlanView, st: StateView, r: usize, t: u128, ev: EventView)
    requires
        st.cursor == Cursor::FwdRow(r, t),
    ensures
        spec_table_step(plan, st, ev).1.writes == seq![
            WriteView::SetInt("$iteration"@, ((st.start as int) + (t as int)) as i64),
            WriteView::SetInt("$threshold"@, st.end),
        ],
{
}

/// The skip check: a table marked skipped, or whose skip logic answers `true`,
/// is skipped with nothing written; any other answer goes on to the clear check,
/// also with nothing written. A failed skip logic stops the table with its error.
#[verifier::spinoff_prover]
#[verifier::rlimit(80)]
pub proof fn law_skip_check(plan: TablePlanView, st: StateView, ev: EventView)
    requires
        st.cursor == Cursor::SkipCheck,
    ensures
        ({
            let step = spec_table_step(plan, st, ev);
            &&& step.1.writes.len() == 0
            &&& plan.skip ==> step.0.cursor == Cursor::Skipped
            &&& !plan.skip && plan.skip_logic is Some && ev == EventView::Value(JsonView::Bool(true))
                ==> step.0.cursor == Cursor::Skipped
            &&& (!plan.skip && plan.skip_logic is Some && ev is Failed)
                ==> step.0.cursor == Cursor::Stopped && step.0.error == ev->Failed_0
            &&& !plan.skip && !(ev is Failed) && (plan.skip_logic is None || ev != EventView::Value(JsonView::Bool(true)))
                ==> step.0.cursor == Cursor::ClearCheck
        }),
{
}

/// The clear check: a table marked cleared, or whose clear logic answers
/// `true`, has its rows replaced by the empty array and counted as none; any
/// other answer keeps the rows. Either way the row plans start from the first.
#[verifier::spinoff_prover]
#[verifier::rlimit(80)]
pub proof fn law_clear_check(plan: TablePlanView, st: StateView, ev: EventView)
    requires
        st.cursor == Cursor::ClearCheck,
        plan.clear || !(ev is Failed),
    ensures
        ({
            let step = spec_table_step(plan, st, ev);
            let clears = plan.clear || (plan.clear_logic is Some && ev == EventView::Value(JsonView::Bool(true)));
            &&& step.0.cursor == Cursor::RowStart(0)
            &&& clears ==> step.1.writes == seq![WriteView::Put(plan.path, JsonView::Array(seq![]))] && step.0.table_len == 0
            &&& !clears ==> step.1.writes.len() == 0 && step.0.table_len == st.table_len
        }),
{
}

/// A static row: each column's value is put under the column's name in the row
/// being built (and into the column's variable); after the last column the row
/// is pushed onto the table, which then has one row more.
#[verifier::spinoff_prover]
#[verifier::rlimit(80)]
pub proof fn law_static_row(plan: TablePlanView, st: StateView, r: usize, c: usize, v: JsonView)
    requires
        st.cursor == Cursor::Cell(r, c),
        r < plan.rows.len(),
        plan.rows[r as int] is Static,
        c <= row_columns(plan, r as int).len(),
    ensures
        ({
            let cols = row_columns(plan, r as int);
            let step = spec_table_step(plan, st, EventView::Value(v));
            &&& c < cols.len() ==> {
                &&& entry_lookup(step.0.row, cols[c as int].name) == Some(v)
                &&& step.1.writes == seq![WriteView::Put(cols[c as int].var_path, v)]
                &&& step.0.cursor == Cursor::Cell(r, (c + 1) as usize)
            }
            &&& c == cols.len() ==> {
                &&& step.1.writes == seq![WriteView::PushRow(plan.path, st.row)]
                &&& step.0.table_len == capped(st.table_len + 1)
                &&& step.0.cursor == Cursor::RowStart((r + 1) as usize)
            }
        }),
{
    let cols = row_columns(plan, r as int);
    if c < cols.len() {
        crate::data_wrapper::lemma_entry_set_lookup(st.row, cols[c as int].name, v);
    }
}

/// In the top-down pass, iteration `t` of a repeated row writes its columns into
/// the table row `existing + t`, the rows before it being those the table had
/// when the repeat began.
pub proof fn law_forward_cell_row(plan: TablePlanView, st: StateView, r: usize, t: u128, c: usize, v: JsonView)
    requires
        st.cursor == Cursor::FwdCell(r, t, c),
        c < st.normal.len(),
    ensures
        ({
            let col = row_columns(plan, r as int)[st.normal[c as int] as int];
            spec_table_step(plan, st, EventView::Value(v)).1.writes == seq![
                WriteView::SetCell(plan.path, capped(st.existing + t), col.name, v),
                WriteView::Put(col.var_path, v),
            ]
        }),
{
}

/// The passes over the forward-referencing columns: three sweeps, the first
/// and third from the last iteration up, the second from the first down; step `t`
/// of a sweep sets `$iteration` to that iteration and restores the row of it,
/// `existing + (iteration - start)`.
#[verifier::spinoff_prover]
#[verifier::rlimit(80)]
pub proof fn law_backward_sweep_order(plan: TablePlanView, st: StateView, r: usize, s: u8, t: u128, ev: EventView)
    requires
        st.cursor == Cursor::BackRow(r, s, t),
    ensures
        ({
            let it: int = if s == 0 || s == 2 { st.end - t } else { st.start + t };
            let w = spec_table_step(plan, st, ev).1.writes;
            &&& s < 3 ==> w.len() == 3
            &&& s < 3 ==> w[0] == WriteView::SetInt("$iteration"@, it as i64)
            &&& s < 3 ==> (w[2] is Restore && w[2]->Restore_0 == plan.path
                && w[2]->Restore_1 == capped(st.existing + (it - st.start)))
        }),
{
}

/// After the last forward column of a sweep step, the sweep goes on to its next
/// step; after its last step the next sweep starts, and after the third sweep
/// the next row plan.
#[verifier::spinoff_prover]
#[verifier::rlimit(80)]
pub proof fn law_sweep_progression(plan: TablePlanView, st: StateView, r: usize, s: u8, t: u128, ev: EventView)
    requires
        st.cursor == Cursor::BackCell(r, s, t, st.forward.len() as usize),
        st.forward.len() <= usize::MAX,
    ensures
        ({
            let step = spec_table_step(plan, st, ev);
            &&& step.1.writes == seq![WriteView::MarkModified(plan.path)]
            &&& t + 1 < st.count ==> step.0.cursor == Cursor::BackRow(r, s, (t + 1) as u128)
            &&& t + 1 >= st.count && s + 1 < 3 ==> step.0.cursor == Cursor::BackRow(r, (s + 1) as u8, 0)
            &&& t + 1 >= st.count && s + 1 >= 3 ==> step.0.cursor == Cursor::RowStart((r + 1) as usize)
        }),
{
}

proof fn lemma_template_names(
    evs: Seq<(Seq<char>, LogicId)>,
    store: CompiledLogicStore,
    prefix: Seq<char>,
    es: Seq<(Seq<char>, JsonView)>,
)
    ensures
        template_columns(evs, store, prefix, es).len() == es.len(),
        forall|i: int| 0 <= i < es.len() ==> {
            let c = #[trigger] template_columns(evs, store, prefix, es)[i];
            &&& c.name == es[i].0
            &&& c.var_path == seq!['$'] + es[i].0
            &&& c.logic == lookup_logic(evs, prefix + es[i].0)
            &&& c.logic is None ==> c.literal == Some(es[i].1)
        },
    decreases es.len(),
{
    if es.len() > 0 {
        lemma_template_names(evs, store, prefix, es.drop_last());
        let r = template_columns(evs, store, prefix, es.drop_last());
        assert forall|i: int| 0 <= i < es.len() - 1 implies es.drop_last()[i] == #[trigger] es[i] by {}
        assert forall|i: int| 0 <= i < r.len() implies #[trigger] template_columns(evs, store, prefix, es)[i] == r[i] by {}
    }
}

proof fn lemma_static_names(
    evs: Seq<(Seq<char>, LogicId)>,
    store: CompiledLogicStore,
    prefix: Seq<char>,
    es: Seq<(Seq<char>, JsonView)>,
)
    ensures
        forall|i: int| 0 <= i < static_columns(evs, store, prefix, es).len() ==> {
            let c = #[trigger] static_columns(evs, store, prefix, es)[i];
            &&& c.name != "$repeat"@
            &&& exists|j: int| 0 <= j < es.len() && es[j].0 == c.name && c.var_path == seq!['$'] + es[j].0
                && c.logic == lookup_logic(evs, prefix + es[j].0)
        },
        forall|j: int| 0 <= j < es.len() && es[j].0 != "$repeat"@ ==> exists|i: int|
            0 <= i < static_columns(evs, store, prefix, es).len() && #[trigger] static_columns(evs, store, prefix, es)[i].name == #[trigger] es[j].0,
    decreases es.len(),
{
    if es.len() > 0 {
        let init = es.drop_last();
        lemma_static_names(evs, store, prefix, init);
        let r = static_columns(evs, store, prefix, init);
        let all = static_columns(evs, store, prefix, es);
        assert forall|i: int| 0 <= i < r.len() implies #[trigger] all[i] == r[i] by {}
        assert forall|i: int| 0 <= i < all.len() implies ({
            let c = #[trigger] all[i];
            &&& c.name != "$repeat"@
            &&& exists|j: int| 0 <= j < es.len() && es[j].0 == c.name && c.var_path == seq!['$'] + es[j].0
                && c.logic == lookup_logic(evs, prefix + es[j].0)
        }) by {
            if i < r.len() {
                let j = choose|j: int| 0 <= j < init.len() && init[j].0 == r[i].name && r[i].var_path == seq!['$'] + init[j].0
                    && r[i].logic == lookup_logic(evs, prefix + init[j].0);
                assert(es[j] == init[j]);
            } else {
                assert(es[es.len() - 1] == es.last());
            }
        }
        assert forall|j: int| 0 <= j < es.len() && es[j].0 != "$repeat"@ implies exists|i: int|
            0 <= i < all.len() && #[trigger] all[i].name == #[trigger] es[j].0 by {
            if j < es.len() - 1 {
                assert(init[j] == es[j]);
                let i = choose|i: int| 0 <= i < r.len() && #[trigger] r[i].name == #[trigger] init[j].0;
                assert(all[i] == r[i]);
            } else {
                assert(all[r.len() as int].name == es.last().0);
            }
        }
    }
}

/// How a table row is planned. A row that is not an object is left out. An
/// object with a `$repeat` of `[start, end, template]` (the template an object)
/// is a repeated row with those bounds and one column per template entry, in
/// order, each named by its key and bound to the variable `$key`, taking the
/// entry's value as a literal when no evaluation is registered for its path.
/// Any other object is a static row whose columns are its entries other than
/// `$repeat`, each named by its key.
#[verifier::spinoff_prover]
#[verifier::rlimit(80)]
pub proof fn law_row_plan_shape(
    evs: Seq<(Seq<char>, LogicId)>,
    store: CompiledLogicStore,
    key: Seq<char>,
    ri: nat,
    row: JsonView,
)
    ensures
        !(row is Object) ==> row_plan(evs, store, key, ri, row) is None,
        row matches JsonView::Object(es) ==> match entry_lookup(es, "$repeat"@) {
            Some(JsonView::Array(ra)) if ra.len() == 3 && ra[2] is Object => {
                let tmpl = ra[2]->Object_0;
                &&& row_plan(evs, store, key, ri, row) matches Some(RowView::Repeat(_, sv, _, ev, cols))
                &&& row_plan(evs, store, key, ri, row)->Some_0->Repeat_1 == ra[0]
                &&& row_plan(evs, store, key, ri, row)->Some_0->Repeat_3 == ra[1]
                &&& row_plan(evs, store, key, ri, row)->Some_0->Repeat_4.len() == tmpl.len()
                &&& forall|i: int| 0 <= i < tmpl.len() ==> {
                    let c = #[trigger] row_plan(evs, store, key, ri, row)->Some_0->Repeat_4[i];
                    &&& c.name == tmpl[i].0
                    &&& c.var_path == seq!['$'] + tmpl[i].0
                    &&& c.logic is None ==> c.literal == Some(tmpl[i].1)
                }
            },
            _ => {
                &&& row_plan(evs, store, key, ri, row) matches Some(RowView::Static(cols))
                &&& forall|i: int| 0 <= i < row_plan(evs, store, key, ri, row)->Some_0->Static_0.len()
                    ==> (#[trigger] row_plan(evs, store, key, ri, row)->Some_0->Static_0[i]).name != "$repeat"@
                &&& forall|j: int| 0 <= j < es.len() && es[j].0 != "$repeat"@ ==> exists|i: int|
                    0 <= i < row_plan(evs, store, key, ri, row)->Some_0->Static_0.len()
                    && #[trigger] row_plan(evs, store, key, ri, row)->Some_0->Static_0[i].name == #[trigger] es[j].0
            },
        },
{
    if let JsonView::Object(es) = row {
        let p = row_prefix(key, ri);
        lemma_static_names(evs, store, p, es);
        if let Some(JsonView::Array(ra)) = entry_lookup(es, "$repeat"@) {
            if ra.len() == 3 && ra[2] is Object {
                lemma_template_names(evs, store, p + "$repeat/2/"@, ra[2]->Object_0);
            }
        }
    }
}

/// Which columns wait on later rows: every column that refers to a later row
/// does, and so does every column that reads (as `$name`, any number of `$`) a
/// column that does.
pub proof fn law_forward_flag_spreads(cols: Seq<ColumnView>, a: int, b: int, k: int)
    requires
        0 <= a < cols.len(),
        0 <= b < cols.len(),
    ensures
        cols[a].has_forward_ref ==> reaches_forward(cols, a),
        reaches_forward(cols, a) && 0 <= k < cols[b].dependencies.len()
            && trim_dollars(cols[b].dependencies[k]) == cols[a].name ==> reaches_forward(cols, b),
{
    if cols[a].has_forward_ref {
        let p = seq![a];
        assert(forward_chain(cols, p));
        assert(p.last() == a);
    }
    if reaches_forward(cols, a) && 0 <= k < cols[b].dependencies.len() && trim_dollars(cols[b].dependencies[k]) == cols[a].name {
        let p = choose|p: Seq<int>| #[trigger] forward_chain(cols, p) && cols[p.last()].name == cols[a].name;
        let q = p.push(b);
        assert(q[q.len() - 2] == p.last());
        assert(feeds(cols, p.last(), b));
        assert forall|j: int| 1 <= j < q.len() implies feeds(cols, #[trigger] q[j - 1], q[j]) by {
            if j < p.len() {
                assert(q[j - 1] == p[j - 1]);
                assert(q[j] == p[j]);
            }
        }
        assert(forward_chain(cols, q));
        assert(q.last() == b);
    }
}

} // verus!
