use vstd::prelude::*;
use crate::json::{JsonValue, JsonView, json_views, entry_views};
use crate::compiled::{CompiledLogic, LogicView, Tag, logic_views};
use crate::path::digits_usize;
use crate::pointer::{pointer_get, pointer_lookup};
use crate::paths::{json_pointer_of, normalize_to_json_pointer};
use crate::data_wrapper::{json_equal, json_eq};
use crate::config::RLogicConfig;
use crate::logic_parts::{ref_views, item_views, parts, parts_ok, is_leaf};

verus! {

// ---------------------------------------------------------------------------
// The model.

/// What the evaluator asks of its caller: the result of an operator on the
/// values of its operands (the numeric, text, date and table operators, whose
/// work is done outside), or a count read from a value.
pub enum RequestView {
    Apply(Tag, Seq<Option<JsonView>>, Seq<JsonView>),
    Count(JsonView),
}

/// Where an evaluation stands: a value, a request whose answer is needed, or an
/// error.
pub enum OutcomeView {
    Value(JsonView),
    Need(RequestView),
    Failed(Seq<char>),
}

/// The digits of a number's text before its exponent are all zero.
pub open spec fn mantissa_zero(t: Seq<char>, i: nat) -> bool
    decreases t.len() - i,
{
    if i >= t.len() || t[i as int] == 'e' || t[i as int] == 'E' {
        true
    } else if '1' <= t[i as int] && t[i as int] <= '9' {
        false
    } else {
        mantissa_zero(t, i + 1)
    }
}

/// JSON Logic truthiness: `null`, `false`, zero, the empty string and the empty
/// array are false; everything else is true.
pub open spec fn truthy(v: JsonView) -> bool {
    match v {
        JsonView::Null => false,
        JsonView::Bool(b) => b,
        JsonView::Number(t) => !mantissa_zero(t, 0),
        JsonView::String(s) => s.len() > 0,
        JsonView::Array(xs) => xs.len() > 0,
        JsonView::Object(_) => true,
    }
}

/// `null` or the empty string.
pub open spec fn null_like(v: JsonView) -> bool {
    v is Null || v == JsonView::String(Seq::<char>::empty())
}

/// Key `k` is not missing from `data`: it is empty (or names the whole data), or
/// the value at its JSON pointer exists and is not `null`.
pub open spec fn present(data: JsonView, k: Seq<char>) -> bool {
    k.len() == 0 || json_pointer_of(k).len() == 0
        || (pointer_get(data, json_pointer_of(k)) matches Some(v) && !(v is Null))
}

/// The keys of `keys` that are not present in `data`, as strings, in order.
pub open spec fn missing_keys(data: JsonView, keys: Seq<Seq<char>>) -> Seq<JsonView>
    decreases keys.len(),
{
    if keys.len() == 0 {
        seq![]
    } else {
        missing_keys(data, keys.drop_last()) + if present(data, keys.last()) {
            Seq::<JsonView>::empty()
        } else {
            seq![JsonView::String(keys.last())]
        }
    }
}

/// How many of `keys` are present in `data`.
pub open spec fn present_count(data: JsonView, keys: Seq<Seq<char>>) -> nat
    decreases keys.len(),
{
    if keys.len() == 0 {
        0
    } else {
        present_count(data, keys.drop_last()) + if present(data, keys.last()) { 1nat } else { 0nat }
    }
}

/// The count an answer gives: a number's text of decimal digits, else zero.
pub open spec fn count_of(a: JsonView) -> nat {
    match a {
        JsonView::Number(t) => match digits_usize(t) {
            Some(n) => n as nat,
            None => 0,
        },
        _ => 0,
    }
}

/// The values of `vs` with each array replaced by its elements.
pub open spec fn flatten(vs: Seq<JsonView>) -> Seq<JsonView>
    decreases vs.len(),
{
    if vs.len() == 0 {
        seq![]
    } else {
        flatten(vs.drop_last()) + match vs.last() {
            JsonView::Array(xs) => xs,
            v => seq![v],
        }
    }
}

/// The answer at `pos`, taken as the value of `req`, or `req` asked when the
/// answers have run out.
pub open spec fn take_answer(req: RequestView, ans: Seq<JsonView>, pos: nat) -> (OutcomeView, nat) {
    if pos < ans.len() {
        (OutcomeView::Value(ans[pos as int]), pos + 1)
    } else {
        (OutcomeView::Need(req), pos)
    }
}

/// The object a `reduce` step sees.
pub open spec fn reduce_context(current: JsonView, acc: JsonView) -> JsonView {
    JsonView::Object(seq![("current"@, current), ("accumulator"@, acc)])
}

/// Evaluating `l` against `data` at recursion depth `depth` (with limit `limit`),
/// reading the answers `ans` from position `pos` on: the outcome and the position
/// of the next unread answer.
pub open spec fn ev(
    l: LogicView,
    data: JsonView,
    depth: nat,
    limit: nat,
    ans: Seq<JsonView>,
    pos: nat,
) -> (OutcomeView, nat)
    decreases l, 1nat, 0nat,
{
    if depth > limit {
        (OutcomeView::Failed("Recursion limit exceeded"@), pos)
    } else {
        let d1 = depth + 1;
        match l {
            LogicView::Null => (OutcomeView::Value(JsonView::Null), pos),
            LogicView::Bool(b) => (OutcomeView::Value(JsonView::Bool(b)), pos),
            LogicView::Number(t) => (OutcomeView::Value(JsonView::Number(t)), pos),
            LogicView::String(s) => (OutcomeView::Value(JsonView::String(s)), pos),
            LogicView::Var(n, d) | LogicView::Ref(n, d) => match pointer_get(data, n) {
                Some(v) if !(v is Null) => (OutcomeView::Value(v), pos),
                _ => match d {
                    Some(b) => ev(*b, data, d1, limit, ans, pos),
                    None => (OutcomeView::Value(JsonView::Null), pos),
                },
            },
            LogicView::Missing(keys) => (OutcomeView::Value(JsonView::Array(missing_keys(data, keys))), pos),
            LogicView::MissingSome(m, keys) => match ev(*m, data, d1, limit, ans, pos) {
                (OutcomeView::Value(mv), p) => if p < ans.len() {
                    if present_count(data, keys) >= count_of(ans[p as int]) {
                        (OutcomeView::Value(JsonView::Array(seq![])), p + 1)
                    } else {
                        (OutcomeView::Value(JsonView::Array(missing_keys(data, keys))), p + 1)
                    }
                } else {
                    (OutcomeView::Need(RequestView::Count(mv)), p)
                },
                r => r,
            },
            LogicView::Return(v) => (OutcomeView::Value(v), pos),
            LogicView::Op(_, _, _) => ev_op(l, data, d1, limit, ans, pos),
        }
    }
}

/// An operator node, its operands evaluated at depth `d1`.
pub open spec fn ev_op(
    l: LogicView,
    data: JsonView,
    d1: nat,
    limit: nat,
    ans: Seq<JsonView>,
    pos: nat,
) -> (OutcomeView, nat)
    decreases l, 0nat, 1nat,
{
    match l {
    LogicView::Op(tag, kids, items) => match tag {
        Tag::Array => match ev_list(items, items.len(), data, d1, limit, ans, pos) {
            (Ok(vs), p) => (OutcomeView::Value(JsonView::Array(vs)), p),
            (Err(o), p) => (o, p),
        },
        Tag::Merge => match ev_list(items, items.len(), data, d1, limit, ans, pos) {
            (Ok(vs), p) => (OutcomeView::Value(JsonView::Array(flatten(vs))), p),
            (Err(o), p) => (o, p),
        },
        Tag::And | Tag::Or => if items.len() == 0 {
            (OutcomeView::Value(JsonView::Bool(tag == Tag::And)), pos)
        } else {
            ev_and_or(items, 0, tag == Tag::And, JsonView::Null, data, d1, limit, ans, pos)
        },
        Tag::Not => match ev_kid(kids, 0, data, d1, limit, ans, pos) {
            (OutcomeView::Value(v), p) => (OutcomeView::Value(JsonView::Bool(!truthy(v))), p),
            r => r,
        },
        Tag::If => match ev_kid(kids, 0, data, d1, limit, ans, pos) {
            (OutcomeView::Value(c), p) => if truthy(c) {
                ev_kid(kids, 1, data, d1, limit, ans, p)
            } else {
                ev_kid(kids, 2, data, d1, limit, ans, p)
            },
            r => r,
        },
        Tag::StrictEqual | Tag::StrictNotEqual | Tag::Xor => match ev_kid(kids, 0, data, d1, limit, ans, pos) {
            (OutcomeView::Value(a), p) => match ev_kid(kids, 1, data, d1, limit, ans, p) {
                (OutcomeView::Value(b), q) => (OutcomeView::Value(JsonView::Bool(
                    if tag == Tag::Xor {
                        truthy(a) != truthy(b)
                    } else {
                        json_equal(a, b) == (tag == Tag::StrictEqual)
                    },
                )), q),
                r => r,
            },
            r => r,
        },
        Tag::IfNull => match ev_kid(kids, 0, data, d1, limit, ans, pos) {
            (OutcomeView::Value(v), p) => if null_like(v) {
                ev_kid(kids, 1, data, d1, limit, ans, p)
            } else {
                (OutcomeView::Value(v), p)
            },
            r => r,
        },
        Tag::IsEmpty => match ev_kid(kids, 0, data, d1, limit, ans, pos) {
            (OutcomeView::Value(v), p) => (OutcomeView::Value(JsonView::Bool(null_like(v))), p),
            r => r,
        },
        Tag::Empty => (OutcomeView::Value(JsonView::String(Seq::<char>::empty())), pos),
        Tag::MapEach | Tag::Filter => match ev_kid(kids, 0, data, d1, limit, ans, pos) {
            (OutcomeView::Value(JsonView::Array(xs)), p) =>
                ev_map(kids, xs, 0, tag == Tag::Filter, seq![], d1, limit, ans, p),
            (OutcomeView::Value(_), p) => (OutcomeView::Value(JsonView::Array(seq![])), p),
            r => r,
        },
        Tag::All | Tag::SomeOf | Tag::NoneOf => match ev_kid(kids, 0, data, d1, limit, ans, pos) {
            (OutcomeView::Value(JsonView::Array(xs)), p) => ev_quantifier(kids, xs, 0, tag, d1, limit, ans, p),
            (OutcomeView::Value(_), p) => (OutcomeView::Value(JsonView::Bool(tag == Tag::NoneOf)), p),
            r => r,
        },
        Tag::Reduce => match ev_kid(kids, 0, data, d1, limit, ans, pos) {
            (OutcomeView::Value(arr), p) => match ev_kid(kids, 2, data, d1, limit, ans, p) {
                (OutcomeView::Value(init), q) => match arr {
                    JsonView::Array(xs) => ev_fold(kids, xs, 0, init, d1, limit, ans, q),
                    _ => (OutcomeView::Value(init), q),
                },
                r => r,
            },
            r => r,
        },
        Tag::For => (OutcomeView::Failed("FOR is not evaluated here"@), pos),
        _ => ev_apply(l, data, d1, limit, ans, pos),
    },
    _ => (OutcomeView::Failed(Seq::<char>::empty()), pos),
    }
}

/// An operator whose work is done outside: its operands and items are evaluated
/// in order, then the result is asked for.
pub open spec fn ev_apply(
    l: LogicView,
    data: JsonView,
    d1: nat,
    limit: nat,
    ans: Seq<JsonView>,
    pos: nat,
) -> (OutcomeView, nat)
    decreases l, 0nat, 0nat,
{
    match l {
        LogicView::Op(tag, kids, items) => match ev_kids(kids, kids.len(), data, d1, limit, ans, pos) {
            (Ok(kv), p) => match ev_list(items, items.len(), data, d1, limit, ans, p) {
                (Ok(iv), q) => take_answer(RequestView::Apply(tag, kv, iv), ans, q),
                (Err(o), q) => (o, q),
            },
            (Err(o), p) => (o, p),
        },
        _ => (OutcomeView::Failed(Seq::<char>::empty()), pos),
    }
}

/// Operand `j` of `kids`, evaluated (an absent operand is `null`).
pub open spec fn ev_kid(
    kids: Seq<Option<LogicView>>,
    j: int,
    data: JsonView,
    d1: nat,
    limit: nat,
    ans: Seq<JsonView>,
    pos: nat,
) -> (OutcomeView, nat)
    decreases kids, 1nat, 0nat,
{
    if 0 <= j < kids.len() {
        proof {
            assert(decreases_to!(kids => kids[j]));
        }
        match kids[j] {
            Some(x) => ev(x, data, d1, limit, ans, pos),
            None => (OutcomeView::Value(JsonView::Null), pos),
        }
    } else {
        (OutcomeView::Value(JsonView::Null), pos)
    }
}

/// The first `n` operands of `kids`, evaluated in order; an absent one stays
/// absent. The first that does not give a value stops the rest.
pub open spec fn ev_kids(
    kids: Seq<Option<LogicView>>,
    n: nat,
    data: JsonView,
    d1: nat,
    limit: nat,
    ans: Seq<JsonView>,
    pos: nat,
) -> (Result<Seq<Option<JsonView>>, OutcomeView>, nat)
    decreases kids, 1nat, n,
{
    if n == 0 || n > kids.len() {
        (Ok(seq![]), pos)
    } else {
        match ev_kids(kids, (n - 1) as nat, data, d1, limit, ans, pos) {
            (Ok(vs), p) => match kids[n - 1] {
                None => (Ok(vs.push(None)), p),
                Some(_) => match ev_kid(kids, n - 1, data, d1, limit, ans, p) {
                    (OutcomeView::Value(v), q) => (Ok(vs.push(Some(v))), q),
                    (o, q) => (Err(o), q),
                },
            },
            r => r,
        }
    }
}

/// The first `n` of `items`, evaluated in order.
pub open spec fn ev_list(
    items: Seq<LogicView>,
    n: nat,
    data: JsonView,
    d1: nat,
    limit: nat,
    ans: Seq<JsonView>,
    pos: nat,
) -> (Result<Seq<JsonView>, OutcomeView>, nat)
    decreases items, 1nat, n,
{
    if n == 0 || n > items.len() {
        (Ok(seq![]), pos)
    } else {
        match ev_list(items, (n - 1) as nat, data, d1, limit, ans, pos) {
            (Ok(vs), p) => {
                proof {
                    assert(decreases_to!(items => items[n - 1]));
                }
                match ev(items[n - 1], data, d1, limit, ans, p) {
                    (OutcomeView::Value(v), q) => (Ok(vs.push(v)), q),
                    (o, q) => (Err(o), q),
                }
            },
            r => r,
        }
    }
}

/// `and` / `or` from item `i` on, `last` being the value of the item before:
/// the first value whose truth decides is the result, else the last value.
pub open spec fn ev_and_or(
    items: Seq<LogicView>,
    i: nat,
    is_and: bool,
    last: JsonView,
    data: JsonView,
    d1: nat,
    limit: nat,
    ans: Seq<JsonView>,
    pos: nat,
) -> (OutcomeView, nat)
    decreases items, 1nat, items.len() - i,
{
    if i >= items.len() {
        (OutcomeView::Value(last), pos)
    } else {
        proof {
            assert(decreases_to!(items => items[i as int]));
        }
        match ev(items[i as int], data, d1, limit, ans, pos) {
            (OutcomeView::Value(r), p) => if truthy(r) != is_and {
                (OutcomeView::Value(r), p)
            } else {
                ev_and_or(items, i + 1, is_and, r, data, d1, limit, ans, p)
            },
            r => r,
        }
    }
}

/// `map` (or `filter`) of operand 1 over `xs` from element `i` on, `acc` holding
/// what the elements before gave.
pub open spec fn ev_map(
    kids: Seq<Option<LogicView>>,
    xs: Seq<JsonView>,
    i: nat,
    keep: bool,
    acc: Seq<JsonView>,
    d1: nat,
    limit: nat,
    ans: Seq<JsonView>,
    pos: nat,
) -> (OutcomeView, nat)
    decreases kids, 1nat, xs.len() - i + 1,
{
    if i >= xs.len() {
        (OutcomeView::Value(JsonView::Array(acc)), pos)
    } else {
        match ev_kid(kids, 1, xs[i as int], d1, limit, ans, pos) {
            (OutcomeView::Value(r), p) => ev_map(
                kids,
                xs,
                i + 1,
                keep,
                if !keep { acc.push(r) } else if truthy(r) { acc.push(xs[i as int]) } else { acc },
                d1,
                limit,
                ans,
                p,
            ),
            r => r,
        }
    }
}

/// `all`, `some` or `none` of operand 1 over `xs` from element `i` on.
pub open spec fn ev_quantifier(
    kids: Seq<Option<LogicView>>,
    xs: Seq<JsonView>,
    i: nat,
    tag: Tag,
    d1: nat,
    limit: nat,
    ans: Seq<JsonView>,
    pos: nat,
) -> (OutcomeView, nat)
    decreases kids, 1nat, xs.len() - i + 1,
{
    if i >= xs.len() {
        (OutcomeView::Value(JsonView::Bool(tag != Tag::SomeOf)), pos)
    } else {
        match ev_kid(kids, 1, xs[i as int], d1, limit, ans, pos) {
            (OutcomeView::Value(r), p) => if truthy(r) == (tag != Tag::All) {
                (OutcomeView::Value(JsonView::Bool(tag == Tag::SomeOf)), p)
            } else {
                ev_quantifier(kids, xs, i + 1, tag, d1, limit, ans, p)
            },
            r => r,
        }
    }
}

/// `reduce` of operand 1 over `xs` from element `i` on, from accumulator `acc`.
pub open spec fn ev_fold(
    kids: Seq<Option<LogicView>>,
    xs: Seq<JsonView>,
    i: nat,
    acc: JsonView,
    d1: nat,
    limit: nat,
    ans: Seq<JsonView>,
    pos: nat,
) -> (OutcomeView, nat)
    decreases kids, 1nat, xs.len() - i + 1,
{
    if i >= xs.len() {
        (OutcomeView::Value(acc), pos)
    } else {
        match ev_kid(kids, 1, reduce_context(xs[i as int], acc), d1, limit, ans, pos) {
            (OutcomeView::Value(r), p) => ev_fold(kids, xs, i + 1, r, d1, limit, ans, p),
            r => r,
        }
    }
}


// ---------------------------------------------------------------------------
// The executable evaluator.

/// What the evaluator asks of its caller (see `RequestView`).
#[derive(Debug)]
pub enum EvalRequest {
    Apply(Tag, Vec<Option<JsonValue>>, Vec<JsonValue>),
    Count(JsonValue),
}

/// Where an evaluation stands (see `OutcomeView`).
#[derive(Debug)]
pub enum EvalOutcome {
    Value(JsonValue),
    Need(EvalRequest),
    Failed(String),
}

/// The models of a sequence of optional JSON values.
pub open spec fn opt_json_views(s: Seq<Option<JsonValue>>) -> Seq<Option<JsonView>> {
    Seq::new(s.len(), |i: int| match s[i] {
        Some(v) => Some(v@),
        None => None,
    })
}

impl View for EvalRequest {
    type V = RequestView;

    open spec fn view(&self) -> RequestView {
        match self {
            EvalRequest::Apply(t, k, i) => RequestView::Apply(*t, opt_json_views(k@), json_views(i@)),
            EvalRequest::Count(v) => RequestView::Count(v@),
        }
    }
}

impl View for EvalOutcome {
    type V = OutcomeView;

    open spec fn view(&self) -> OutcomeView {
        match self {
            EvalOutcome::Value(v) => OutcomeView::Value(v@),
            EvalOutcome::Need(r) => OutcomeView::Need(r@),
            EvalOutcome::Failed(m) => OutcomeView::Failed(m@),
        }
    }
}

/// Whether a value is true for JSON Logic (see `truthy`).
pub fn is_truthy(v: &JsonValue) -> (res: bool)
    ensures
        res == truthy(v@),
{
    match v {
        JsonValue::Null => false,
        JsonValue::Bool(b) => *b,
        JsonValue::Number(t) => {
            let cs = crate::text::to_chars(t.as_str());
            let mut i: usize = 0;
            while i < cs.len()
                invariant
                    i <= cs@.len(),
                    cs@ == t@,
                    v@ == JsonView::Number(t@),
                    mantissa_zero(t@, 0) == mantissa_zero(t@, i as nat),
                decreases cs@.len() - i,
            {
                let c = cs[i];
                if c == 'e' || c == 'E' {
                    return false;
                }
                if '1' <= c && c <= '9' {
                    return true;
                }
                i = i + 1;
            }
            false
        },
        JsonValue::String(s) => s.unicode_len() > 0,
        JsonValue::Array(xs) => xs.len() > 0,
        JsonValue::Object(_) => true,
    }
}

fn is_null_like(v: &JsonValue) -> (res: bool)
    ensures
        res == null_like(v@),
{
    match v {
        JsonValue::Null => true,
        JsonValue::String(s) => {
            let r = s.unicode_len() == 0;
            proof {
                if r {
                    assert(s@ =~= Seq::<char>::empty());
                }
            }
            r
        },
        _ => false,
    }
}

fn is_present(data: &JsonValue, k: &String) -> (res: bool)
    ensures
        res == present(data@, k@),
{
    if k.unicode_len() == 0 {
        return true;
    }
    let p = normalize_to_json_pointer(k.as_str());
    if p.unicode_len() == 0 {
        return true;
    }
    match pointer_lookup(data, p.as_str()) {
        Some(v) => !(match v {
            JsonValue::Null => true,
            _ => false,
        }),
        None => false,
    }
}

/// The keys that are missing from `data` (see `missing_keys`).
fn missing_of(data: &JsonValue, keys: &Vec<String>) -> (res: Vec<JsonValue>)
    ensures
        json_views(res@) == missing_keys(data@, crate::compiled::string_views(keys@)),
{
    let ghost ks = crate::compiled::string_views(keys@);
    let mut out: Vec<JsonValue> = Vec::new();
    let mut i: usize = 0;
    while i < keys.len()
        invariant
            i <= keys@.len(),
            ks == crate::compiled::string_views(keys@),
            json_views(out@) == missing_keys(data@, ks.take(i as int)),
        decreases keys@.len() - i,
    {
        let ghost before = json_views(out@);
        assert(ks.take(i + 1).drop_last() =~= ks.take(i as int));
        assert(ks.take(i + 1).last() == keys@[i as int]@);
        if !is_present(data, &keys[i]) {
            out.push(JsonValue::String(crate::text::copy_string(&keys[i])));
            assert(json_views(out@) =~= before + seq![JsonView::String(keys@[i as int]@)]);
        } else {
            assert(json_views(out@) =~= before + Seq::<JsonView>::empty());
        }
        i = i + 1;
    }
    assert(ks.take(i as int) =~= ks);
    out
}

fn count_present(data: &JsonValue, keys: &Vec<String>) -> (res: usize)
    ensures
        res as nat == present_count(data@, crate::compiled::string_views(keys@)),
{
    let ghost ks = crate::compiled::string_views(keys@);
    let mut n: usize = 0;
    let mut i: usize = 0;
    while i < keys.len()
        invariant
            i <= keys@.len(),
            n <= i,
            ks == crate::compiled::string_views(keys@),
            n as nat == present_count(data@, ks.take(i as int)),
        decreases keys@.len() - i,
    {
        assert(ks.take(i + 1).drop_last() =~= ks.take(i as int));
        assert(ks.take(i + 1).last() == keys@[i as int]@);
        if is_present(data, &keys[i]) {
            n = n + 1;
        }
        i = i + 1;
    }
    assert(ks.take(i as int) =~= ks);
    n
}

fn count_from(a: &JsonValue) -> (res: usize)
    ensures
        res as nat == count_of(a@),
{
    match a {
        JsonValue::Number(t) => {
            let cs = crate::text::to_chars(t.as_str());
            if cs.len() > 0 && cs[0] == '+' {
                proof {
                    assert(!crate::path::is_digit(cs@[0]));
                }
                return 0;
            }
            let r = crate::path::parse_usize(&cs, 0, cs.len());
            assert(cs@.subrange(0, cs@.len() as int) =~= cs@);
            match r {
                Some(n) => n,
                None => 0,
            }
        },
        _ => 0,
    }
}

fn flatten_values(vs: Vec<JsonValue>) -> (res: Vec<JsonValue>)
    ensures
        json_views(res@) == flatten(json_views(vs@)),
{
    let ghost xs = json_views(vs@);
    let mut out: Vec<JsonValue> = Vec::new();
    let mut i: usize = 0;
    while i < vs.len()
        invariant
            i <= vs@.len(),
            xs == json_views(vs@),
            json_views(out@) == flatten(xs.take(i as int)),
        decreases vs@.len() - i,
    {
        assert(xs.take(i + 1).drop_last() =~= xs.take(i as int));
        assert(xs.take(i + 1).last() == vs@[i as int]@);
        let ghost before = json_views(out@);
        match &vs[i] {
            JsonValue::Array(ys) => {
                let mut j: usize = 0;
                while j < ys.len()
                    invariant
                        j <= ys@.len(),
                        json_views(out@) == before + json_views(ys@).take(j as int),
                    decreases ys@.len() - j,
                {
                    let ghost ob = out@;
                    let x = ys[j].deep_clone();
                    out.push(x);
                    proof {
                        crate::json::lemma_json_views_push(ob, x);
                    }
                    assert(json_views(ys@)[j as int] == ys@[j as int]@);
                    j = j + 1;
                    assert(json_views(out@) =~= before + json_views(ys@).take(j as int));
                }
                assert(json_views(ys@).take(j as int) =~= json_views(ys@));
            },
            v => {
                out.push(v.deep_clone());
                assert(json_views(out@) =~= before + seq![vs@[i as int]@]);
            },
        }
        i = i + 1;
    }
    assert(xs.take(i as int) =~= xs);
    out
}

fn failed(m: &str) -> (res: EvalOutcome)
    ensures
        res@ == OutcomeView::Failed(m@),
{
    EvalOutcome::Failed(String::from_str(m))
}

/// Evaluate `l` against `data` at depth `depth`, reading the answers `ans` from
/// position `pos` on (see `ev`).
pub fn eval_node(
    l: &CompiledLogic,
    data: &JsonValue,
    depth: usize,
    limit: usize,
    ans: &Vec<JsonValue>,
    pos: usize,
) -> (res: (EvalOutcome, usize))
    requires
        limit < usize::MAX,
        pos <= ans@.len(),
    ensures
        res.0@ == ev(l@, data@, depth as nat, limit as nat, json_views(ans@), pos as nat).0,
        res.1 as nat == ev(l@, data@, depth as nat, limit as nat, json_views(ans@), pos as nat).1,
        res.1 <= ans@.len(),
    decreases *l, 4nat,
{
    if depth > limit {
        return (failed("Recursion limit exceeded"), pos);
    }
    let d1 = depth + 1;
    match parts(l) {
        Some(r) => {
            return eval_op(l, r.0, &r.1, &r.2, data, d1, limit, ans, pos);
        },
        None => {},
    }
    eval_leaf(l, data, depth, limit, ans, pos)
}

#[verifier::spinoff_prover]
#[verifier::rlimit(50)]
fn eval_leaf(
    l: &CompiledLogic,
    data: &JsonValue,
    depth: usize,
    limit: usize,
    ans: &Vec<JsonValue>,
    pos: usize,
) -> (res: (EvalOutcome, usize))
    requires
        limit < usize::MAX,
        pos <= ans@.len(),
        depth <= limit,
        is_leaf(*l),
    ensures
        res.0@ == ev(l@, data@, depth as nat, limit as nat, json_views(ans@), pos as nat).0,
        res.1 as nat == ev(l@, data@, depth as nat, limit as nat, json_views(ans@), pos as nat).1,
        res.1 <= ans@.len(),
    decreases *l, 3nat,
{
    let d1 = depth + 1;
    match l {
        CompiledLogic::Var(n, d) => {
            assert(l@ == LogicView::Var(n@, crate::compiled::opt_box_view(*d)));
            match pointer_lookup(data, n.as_str()) {
                Some(v) => {
                    match v {
                        JsonValue::Null => {},
                        _ => {
                            return (EvalOutcome::Value(v.deep_clone()), pos);
                        },
                    }
                },
                None => {},
            }
            match d {
                Some(b) => eval_node(&**b, data, d1, limit, ans, pos),
                None => (EvalOutcome::Value(JsonValue::Null), pos),
            }
        },
        CompiledLogic::Ref(n, d) => {
            assert(l@ == LogicView::Ref(n@, crate::compiled::opt_box_view(*d)));
            match pointer_lookup(data, n.as_str()) {
                Some(v) => {
                    match v {
                        JsonValue::Null => {},
                        _ => {
                            return (EvalOutcome::Value(v.deep_clone()), pos);
                        },
                    }
                },
                None => {},
            }
            match d {
                Some(b) => eval_node(&**b, data, d1, limit, ans, pos),
                None => (EvalOutcome::Value(JsonValue::Null), pos),
            }
        },
        CompiledLogic::Missing(keys) => (EvalOutcome::Value(JsonValue::Array(missing_of(data, keys))), pos),
        CompiledLogic::MissingSome(m, keys) => {
            let (o, p) = eval_node(&**m, data, d1, limit, ans, pos);
            match o {
                EvalOutcome::Value(mv) => {
                    if p < ans.len() {
                        let need = count_from(&ans[p]);
                        assert(json_views(ans@)[p as int] == ans@[p as int]@);
                        if count_present(data, keys) >= need {
                            let empty: Vec<JsonValue> = Vec::new();
                            assert(json_views(empty@) =~= Seq::<JsonView>::empty());
                            (EvalOutcome::Value(JsonValue::Array(empty)), p + 1)
                        } else {
                            (EvalOutcome::Value(JsonValue::Array(missing_of(data, keys))), p + 1)
                        }
                    } else {
                        (EvalOutcome::Need(EvalRequest::Count(mv)), p)
                    }
                },
                other => (other, p),
            }
        },
        CompiledLogic::Return(v) => (EvalOutcome::Value((**v).deep_clone()), pos),
        CompiledLogic::Null => (EvalOutcome::Value(JsonValue::Null), pos),
        CompiledLogic::Bool(b) => (EvalOutcome::Value(JsonValue::Bool(*b)), pos),
        CompiledLogic::Number(t) => (EvalOutcome::Value(JsonValue::Number(crate::text::copy_string(t))), pos),
        CompiledLogic::String(t) => (EvalOutcome::Value(JsonValue::String(crate::text::copy_string(t))), pos),
        _ => {
            assert(false);
            (failed(""), pos)
        },
    }
}

/// Operand `j` of `ks`, evaluated (see `ev_kid`).
fn eval_kid(
    l: &CompiledLogic,
    ks: &Vec<Option<&CompiledLogic>>,
    j: usize,
    data: &JsonValue,
    d1: usize,
    limit: usize,
    ans: &Vec<JsonValue>,
    pos: usize,
) -> (res: (EvalOutcome, usize))
    requires
        limit < usize::MAX,
        pos <= ans@.len(),
        forall|i: int| 0 <= i < ks@.len() && (#[trigger] ks@[i]) is Some ==> decreases_to!(*l => *ks@[i]->Some_0),
    ensures
        res.0@ == ev_kid(ref_views(ks@), j as int, data@, d1 as nat, limit as nat, json_views(ans@), pos as nat).0,
        res.1 as nat == ev_kid(ref_views(ks@), j as int, data@, d1 as nat, limit as nat, json_views(ans@), pos as nat).1,
        res.1 <= ans@.len(),
    decreases *l, 0nat,
{
    if j < ks.len() {
        match ks[j] {
            Some(r) => {
                assert(ks@[j as int] is Some);
                assert(ref_views(ks@)[j as int] == Some(r@));
                eval_node(r, data, d1, limit, ans, pos)
            },
            None => {
                assert(ref_views(ks@)[j as int] is None);
                (EvalOutcome::Value(JsonValue::Null), pos)
            },
        }
    } else {
        (EvalOutcome::Value(JsonValue::Null), pos)
    }
}

/// The operands `ks` evaluated in order (see `ev_kids`).
#[verifier::spinoff_prover]
#[verifier::rlimit(60)]
fn eval_kids(
    l: &CompiledLogic,
    ks: &Vec<Option<&CompiledLogic>>,
    data: &JsonValue,
    d1: usize,
    limit: usize,
    ans: &Vec<JsonValue>,
    pos: usize,
) -> (res: (Result<Vec<Option<JsonValue>>, EvalOutcome>, usize))
    requires
        limit < usize::MAX,
        pos <= ans@.len(),
        forall|i: int| 0 <= i < ks@.len() && (#[trigger] ks@[i]) is Some ==> decreases_to!(*l => *ks@[i]->Some_0),
    ensures
        ({
            let r = ev_kids(ref_views(ks@), ks@.len() as nat, data@, d1 as nat, limit as nat, json_views(ans@), pos as nat);
            &&& res.1 as nat == r.1
            &&& res.1 <= ans@.len()
            &&& match res.0 {
                Ok(vs) => r.0 == Ok::<Seq<Option<JsonView>>, OutcomeView>(opt_json_views(vs@)),
                Err(o) => r.0 == Err::<Seq<Option<JsonView>>, OutcomeView>(o@),
            }
        }),
    decreases *l, 1nat,
{
    let ghost kids = ref_views(ks@);
    let ghost a = json_views(ans@);
    let mut out: Vec<Option<JsonValue>> = Vec::new();
    let mut p: usize = pos;
    let mut i: usize = 0;
    assert(opt_json_views(out@) =~= Seq::<Option<JsonView>>::empty());
    while i < ks.len()
        invariant
            limit < usize::MAX,
            i <= ks@.len(),
            p <= ans@.len(),
            kids == ref_views(ks@),
            a == json_views(ans@),
            forall|j: int| 0 <= j < ks@.len() && (#[trigger] ks@[j]) is Some ==> decreases_to!(*l => *ks@[j]->Some_0),
            ev_kids(kids, i as nat, data@, d1 as nat, limit as nat, a, pos as nat)
                == (Ok::<Seq<Option<JsonView>>, OutcomeView>(opt_json_views(out@)), p as nat),
        decreases ks@.len() - i,
    {
        let ghost before = out@;
        if ks[i].is_none() {
            assert(kids[i as int] is None);
            out.push(None);
            assert(opt_json_views(out@) =~= opt_json_views(before).push(None));
        } else {
            assert(kids[i as int] is Some);
            let (o, q) = eval_kid(l, ks, i, data, d1, limit, ans, p);
            match o {
                EvalOutcome::Value(v) => {
                    out.push(Some(v));
                    assert(opt_json_views(out@) =~= opt_json_views(before).push(Some(out@[before.len() as int]->Some_0@)));
                    p = q;
                },
                other => {
                    proof {
                        lemma_kids_stop(kids, (i + 1) as nat, ks@.len() as nat, data@, d1 as nat, limit as nat, a, pos as nat);
                    }
                    return (Err(other), q);
                },
            }
        }
        i = i + 1;
    }
    (Ok(out), p)
}

/// The items evaluated in order (see `ev_list`).
#[verifier::spinoff_prover]
#[verifier::rlimit(60)]
fn eval_items(
    l: &CompiledLogic,
    is: &Vec<&CompiledLogic>,
    data: &JsonValue,
    d1: usize,
    limit: usize,
    ans: &Vec<JsonValue>,
    pos: usize,
) -> (res: (Result<Vec<JsonValue>, EvalOutcome>, usize))
    requires
        limit < usize::MAX,
        pos <= ans@.len(),
        forall|i: int| 0 <= i < is@.len() ==> decreases_to!(*l => *(#[trigger] is@[i])),
    ensures
        ({
            let r = ev_list(item_views(is@), is@.len() as nat, data@, d1 as nat, limit as nat, json_views(ans@), pos as nat);
            &&& res.1 as nat == r.1
            &&& res.1 <= ans@.len()
            &&& match res.0 {
                Ok(vs) => r.0 == Ok::<Seq<JsonView>, OutcomeView>(json_views(vs@)),
                Err(o) => r.0 == Err::<Seq<JsonView>, OutcomeView>(o@),
            }
        }),
    decreases *l, 1nat,
{
    let ghost xs = item_views(is@);
    let ghost a = json_views(ans@);
    let mut out: Vec<JsonValue> = Vec::new();
    let mut p: usize = pos;
    let mut i: usize = 0;
    assert(json_views(out@) =~= Seq::<JsonView>::empty());
    while i < is.len()
        invariant
            limit < usize::MAX,
            i <= is@.len(),
            p <= ans@.len(),
            xs == item_views(is@),
            a == json_views(ans@),
            forall|j: int| 0 <= j < is@.len() ==> decreases_to!(*l => *(#[trigger] is@[j])),
            ev_list(xs, i as nat, data@, d1 as nat, limit as nat, a, pos as nat)
                == (Ok::<Seq<JsonView>, OutcomeView>(json_views(out@)), p as nat),
        decreases is@.len() - i,
    {
        assert(xs[i as int] == is@[i as int]@);
        proof {
            lemma_list_step(xs, (i + 1) as nat, data@, d1 as nat, limit as nat, a, pos as nat);
        }
        let (o, q) = eval_node(is[i], data, d1, limit, ans, p);
        match o {
            EvalOutcome::Value(v) => {
                let ghost before = out@;
                out.push(v);
                proof {
                    crate::json::lemma_json_views_push(before, out@[before.len() as int]);
                }
                p = q;
            },
            other => {
                proof {
                    lemma_list_stop(xs, (i + 1) as nat, is@.len() as nat, data@, d1 as nat, limit as nat, a, pos as nat);
                }
                return (Err(other), q);
            },
        }
        i = i + 1;
    }
    (Ok(out), p)
}

/// An operator whose result is asked for (see `ev_apply`).
fn eval_apply(
    l: &CompiledLogic,
    tag: Tag,
    ks: &Vec<Option<&CompiledLogic>>,
    is: &Vec<&CompiledLogic>,
    data: &JsonValue,
    d1: usize,
    limit: usize,
    ans: &Vec<JsonValue>,
    pos: usize,
) -> (res: (EvalOutcome, usize))
    requires
        limit < usize::MAX,
        pos <= ans@.len(),
        parts_ok(l, (tag, *ks, *is)),
    ensures
        res.0@ == ev_apply(l@, data@, d1 as nat, limit as nat, json_views(ans@), pos as nat).0,
        res.1 as nat == ev_apply(l@, data@, d1 as nat, limit as nat, json_views(ans@), pos as nat).1,
        res.1 <= ans@.len(),
    decreases *l, 2nat,
{
    let (kr, p) = eval_kids(l, ks, data, d1, limit, ans, pos);
    match kr {
        Err(o) => (o, p),
        Ok(kv) => {
            let (ir, q) = eval_items(l, is, data, d1, limit, ans, p);
            match ir {
                Err(o) => (o, q),
                Ok(iv) => {
                    if q < ans.len() {
                        assert(json_views(ans@)[q as int] == ans@[q as int]@);
                        (EvalOutcome::Value(ans[q].deep_clone()), q + 1)
                    } else {
                        (EvalOutcome::Need(EvalRequest::Apply(tag, kv, iv)), q)
                    }
                },
            }
        },
    }
}

/// `and` / `or` over the items (see `ev_and_or`).
#[verifier::spinoff_prover]
#[verifier::rlimit(60)]
fn eval_and_or(
    l: &CompiledLogic,
    is: &Vec<&CompiledLogic>,
    is_and: bool,
    data: &JsonValue,
    d1: usize,
    limit: usize,
    ans: &Vec<JsonValue>,
    pos: usize,
) -> (res: (EvalOutcome, usize))
    requires
        limit < usize::MAX,
        pos <= ans@.len(),
        forall|i: int| 0 <= i < is@.len() ==> decreases_to!(*l => *(#[trigger] is@[i])),
    ensures
        res.0@ == ev_and_or(item_views(is@), 0, is_and, JsonView::Null, data@, d1 as nat, limit as nat, json_views(ans@), pos as nat).0,
        res.1 as nat == ev_and_or(item_views(is@), 0, is_and, JsonView::Null, data@, d1 as nat, limit as nat, json_views(ans@), pos as nat).1,
        res.1 <= ans@.len(),
    decreases *l, 1nat,
{
    let ghost xs = item_views(is@);
    let ghost a = json_views(ans@);
    let ghost whole = ev_and_or(xs, 0, is_and, JsonView::Null, data@, d1 as nat, limit as nat, a, pos as nat);
    let mut last = JsonValue::Null;
    let mut p: usize = pos;
    let mut i: usize = 0;
    while i < is.len()
        invariant
            limit < usize::MAX,
            i <= is@.len(),
            p <= ans@.len(),
            xs == item_views(is@),
            a == json_views(ans@),
            forall|j: int| 0 <= j < is@.len() ==> decreases_to!(*l => *(#[trigger] is@[j])),
            whole == ev_and_or(xs, 0, is_and, JsonView::Null, data@, d1 as nat, limit as nat, a, pos as nat),
            whole == ev_and_or(xs, i as nat, is_and, last@, data@, d1 as nat, limit as nat, a, p as nat),
        decreases is@.len() - i,
    {
        assert(xs[i as int] == is@[i as int]@);
        proof {
            lemma_and_or_step(xs, i as nat, is_and, last@, data@, d1 as nat, limit as nat, a, p as nat);
        }
        let (o, q) = eval_node(is[i], data, d1, limit, ans, p);
        match o {
            EvalOutcome::Value(r) => {
                if is_truthy(&r) != is_and {
                    return (EvalOutcome::Value(r), q);
                }
                last = r;
                p = q;
            },
            other => {
                return (other, q);
            },
        }
        i = i + 1;
    }
    (EvalOutcome::Value(last), p)
}

/// `map` or `filter` of operand 1 over `xs` (see `ev_map`).
#[verifier::spinoff_prover]
#[verifier::rlimit(60)]
fn eval_map(
    l: &CompiledLogic,
    ks: &Vec<Option<&CompiledLogic>>,
    xs: &Vec<JsonValue>,
    keep: bool,
    d1: usize,
    limit: usize,
    ans: &Vec<JsonValue>,
    pos: usize,
) -> (res: (EvalOutcome, usize))
    requires
        limit < usize::MAX,
        pos <= ans@.len(),
        forall|i: int| 0 <= i < ks@.len() && (#[trigger] ks@[i]) is Some ==> decreases_to!(*l => *ks@[i]->Some_0),
    ensures
        res.0@ == ev_map(ref_views(ks@), json_views(xs@), 0, keep, seq![], d1 as nat, limit as nat, json_views(ans@), pos as nat).0,
        res.1 as nat == ev_map(ref_views(ks@), json_views(xs@), 0, keep, seq![], d1 as nat, limit as nat, json_views(ans@), pos as nat).1,
        res.1 <= ans@.len(),
    decreases *l, 1nat,
{
    let ghost kids = ref_views(ks@);
    let ghost x = json_views(xs@);
    let ghost a = json_views(ans@);
    let ghost whole = ev_map(kids, x, 0, keep, seq![], d1 as nat, limit as nat, a, pos as nat);
    let mut acc: Vec<JsonValue> = Vec::new();
    let mut p: usize = pos;
    let mut i: usize = 0;
    assert(json_views(acc@) =~= Seq::<JsonView>::empty());
    while i < xs.len()
        invariant
            limit < usize::MAX,
            i <= xs@.len(),
            p <= ans@.len(),
            kids == ref_views(ks@),
            x == json_views(xs@),
            a == json_views(ans@),
            forall|j: int| 0 <= j < ks@.len() && (#[trigger] ks@[j]) is Some ==> decreases_to!(*l => *ks@[j]->Some_0),
            whole == ev_map(kids, x, 0, keep, seq![], d1 as nat, limit as nat, a, pos as nat),
            whole == ev_map(kids, x, i as nat, keep, json_views(acc@), d1 as nat, limit as nat, a, p as nat),
        decreases xs@.len() - i,
    {
        assert(x[i as int] == xs@[i as int]@);
        proof {
            lemma_map_step(kids, x, i as nat, keep, json_views(acc@), d1 as nat, limit as nat, a, p as nat);
        }
        let (o, q) = eval_kid(l, ks, 1, &xs[i], d1, limit, ans, p);
        assert(ev_kid(kids, 1, x[i as int], d1 as nat, limit as nat, a, p as nat) == (o@, q as nat));
        match o {
            EvalOutcome::Value(r) => {
                let ghost before = acc@;
                if !keep {
                    acc.push(r);
                    proof {
                        crate::json::lemma_json_views_push(before, acc@[before.len() as int]);
                    }
                } else if is_truthy(&r) {
                    acc.push(xs[i].deep_clone());
                    proof {
                        crate::json::lemma_json_views_push(before, acc@[before.len() as int]);
                    }
                }
                p = q;
            },
            other => {
                return (other, q);
            },
        }
        i = i + 1;
    }
    (EvalOutcome::Value(JsonValue::Array(acc)), p)
}

/// `all`, `some` or `none` of operand 1 over `xs` (see `ev_quantifier`).
#[verifier::spinoff_prover]
#[verifier::rlimit(60)]
fn eval_quantifier(
    l: &CompiledLogic,
    ks: &Vec<Option<&CompiledLogic>>,
    xs: &Vec<JsonValue>,
    tag: Tag,
    d1: usize,
    limit: usize,
    ans: &Vec<JsonValue>,
    pos: usize,
) -> (res: (EvalOutcome, usize))
    requires
        limit < usize::MAX,
        pos <= ans@.len(),
        forall|i: int| 0 <= i < ks@.len() && (#[trigger] ks@[i]) is Some ==> decreases_to!(*l => *ks@[i]->Some_0),
    ensures
        res.0@ == ev_quantifier(ref_views(ks@), json_views(xs@), 0, tag, d1 as nat, limit as nat, json_views(ans@), pos as nat).0,
        res.1 as nat == ev_quantifier(ref_views(ks@), json_views(xs@), 0, tag, d1 as nat, limit as nat, json_views(ans@), pos as nat).1,
        res.1 <= ans@.len(),
    decreases *l, 1nat,
{
    let ghost kids = ref_views(ks@);
    let ghost x = json_views(xs@);
    let ghost a = json_views(ans@);
    let ghost whole = ev_quantifier(kids, x, 0, tag, d1 as nat, limit as nat, a, pos as nat);
    let mut p: usize = pos;
    let mut i: usize = 0;
    while i < xs.len()
        invariant
            limit < usize::MAX,
            i <= xs@.len(),
            p <= ans@.len(),
            kids == ref_views(ks@),
            x == json_views(xs@),
            a == json_views(ans@),
            forall|j: int| 0 <= j < ks@.len() && (#[trigger] ks@[j]) is Some ==> decreases_to!(*l => *ks@[j]->Some_0),
            whole == ev_quantifier(kids, x, 0, tag, d1 as nat, limit as nat, a, pos as nat),
            whole == ev_quantifier(kids, x, i as nat, tag, d1 as nat, limit as nat, a, p as nat),
        decreases xs@.len() - i,
    {
        assert(x[i as int] == xs@[i as int]@);
        proof {
            lemma_quantifier_step(kids, x, i as nat, tag, d1 as nat, limit as nat, a, p as nat);
        }
        let (o, q) = eval_kid(l, ks, 1, &xs[i], d1, limit, ans, p);
        assert(ev_kid(kids, 1, x[i as int], d1 as nat, limit as nat, a, p as nat) == (o@, q as nat));
        match o {
            EvalOutcome::Value(r) => {
                if is_truthy(&r) == (tag != Tag::All) {
                    return (EvalOutcome::Value(JsonValue::Bool(tag == Tag::SomeOf)), q);
                }
                p = q;
            },
            other => {
                return (other, q);
            },
        }
        i = i + 1;
    }
    (EvalOutcome::Value(JsonValue::Bool(tag != Tag::SomeOf)), p)
}

/// `reduce` of operand 1 over `xs` from `init` (see `ev_fold`).
#[verifier::spinoff_prover]
#[verifier::rlimit(60)]
fn eval_fold(
    l: &CompiledLogic,
    ks: &Vec<Option<&CompiledLogic>>,
    xs: &Vec<JsonValue>,
    init: JsonValue,
    d1: usize,
    limit: usize,
    ans: &Vec<JsonValue>,
    pos: usize,
) -> (res: (EvalOutcome, usize))
    requires
        limit < usize::MAX,
        pos <= ans@.len(),
        forall|i: int| 0 <= i < ks@.len() && (#[trigger] ks@[i]) is Some ==> decreases_to!(*l => *ks@[i]->Some_0),
    ensures
        res.0@ == ev_fold(ref_views(ks@), json_views(xs@), 0, init@, d1 as nat, limit as nat, json_views(ans@), pos as nat).0,
        res.1 as nat == ev_fold(ref_views(ks@), json_views(xs@), 0, init@, d1 as nat, limit as nat, json_views(ans@), pos as nat).1,
        res.1 <= ans@.len(),
    decreases *l, 1nat,
{
    let ghost kids = ref_views(ks@);
    let ghost x = json_views(xs@);
    let ghost a = json_views(ans@);
    let ghost init_v = init@;
    let ghost whole = ev_fold(kids, x, 0, init_v, d1 as nat, limit as nat, a, pos as nat);
    let mut acc = init.deep_clone();
    let mut p: usize = pos;
    let mut i: usize = 0;
    while i < xs.len()
        invariant
            limit < usize::MAX,
            i <= xs@.len(),
            p <= ans@.len(),
            kids == ref_views(ks@),
            x == json_views(xs@),
            a == json_views(ans@),
            forall|j: int| 0 <= j < ks@.len() && (#[trigger] ks@[j]) is Some ==> decreases_to!(*l => *ks@[j]->Some_0),
            init_v == init@,
            whole == ev_fold(kids, x, 0, init_v, d1 as nat, limit as nat, a, pos as nat),
            whole == ev_fold(kids, x, i as nat, acc@, d1 as nat, limit as nat, a, p as nat),
        decreases xs@.len() - i,
    {
        assert(x[i as int] == xs@[i as int]@);
        let ghost acc_v = acc@;
        let mut es: Vec<(String, JsonValue)> = Vec::new();
        es.push((String::from_str("current"), xs[i].deep_clone()));
        es.push((String::from_str("accumulator"), acc));
        let ctx = JsonValue::Object(es);
        assert(entry_views(es@) =~= seq![("current"@, xs@[i as int]@), ("accumulator"@, acc_v)]);
        assert(ctx@ == reduce_context(x[i as int], acc_v));
        proof {
            lemma_fold_step(kids, x, i as nat, acc_v, d1 as nat, limit as nat, a, p as nat);
        }
        let (o, q) = eval_kid(l, ks, 1, &ctx, d1, limit, ans, p);
        assert(ev_kid(kids, 1, reduce_context(x[i as int], acc_v), d1 as nat, limit as nat, a, p as nat) == (o@, q as nat));
        match o {
            EvalOutcome::Value(r) => {
                acc = r;
                p = q;
            },
            other => {
                return (other, q);
            },
        }
        i = i + 1;
    }
    (EvalOutcome::Value(acc), p)
}

/// An operator node, from its parts (see `ev_op`).
#[verifier::spinoff_prover]
#[verifier::rlimit(100)]
fn eval_op(
    l: &CompiledLogic,
    tag: Tag,
    ks: &Vec<Option<&CompiledLogic>>,
    is: &Vec<&CompiledLogic>,
    data: &JsonValue,
    d1: usize,
    limit: usize,
    ans: &Vec<JsonValue>,
    pos: usize,
) -> (res: (EvalOutcome, usize))
    requires
        limit < usize::MAX,
        pos <= ans@.len(),
        parts_ok(l, (tag, *ks, *is)),
    ensures
        res.0@ == ev_op(l@, data@, d1 as nat, limit as nat, json_views(ans@), pos as nat).0,
        res.1 as nat == ev_op(l@, data@, d1 as nat, limit as nat, json_views(ans@), pos as nat).1,
        res.1 <= ans@.len(),
    decreases *l, 3nat,
{
    let ghost kids = ref_views(ks@);
    match tag {
        Tag::Array | Tag::Merge => {
            let (r, p) = eval_items(l, is, data, d1, limit, ans, pos);
            match r {
                Ok(vs) => {
                    if tag == Tag::Merge {
                        (EvalOutcome::Value(JsonValue::Array(flatten_values(vs))), p)
                    } else {
                        (EvalOutcome::Value(JsonValue::Array(vs)), p)
                    }
                },
                Err(o) => (o, p),
            }
        },
        Tag::And | Tag::Or => {
            if is.len() == 0 {
                (EvalOutcome::Value(JsonValue::Bool(tag == Tag::And)), pos)
            } else {
                eval_and_or(l, is, tag == Tag::And, data, d1, limit, ans, pos)
            }
        },
        Tag::Not | Tag::IsEmpty => {
            let (o, p) = eval_kid(l, ks, 0, data, d1, limit, ans, pos);
            match o {
                EvalOutcome::Value(v) => {
                    if tag == Tag::Not {
                        (EvalOutcome::Value(JsonValue::Bool(!is_truthy(&v))), p)
                    } else {
                        (EvalOutcome::Value(JsonValue::Bool(is_null_like(&v))), p)
                    }
                },
                other => (other, p),
            }
        },
        Tag::If => {
            let (o, p) = eval_kid(l, ks, 0, data, d1, limit, ans, pos);
            match o {
                EvalOutcome::Value(c) => {
                    if is_truthy(&c) {
                        eval_kid(l, ks, 1, data, d1, limit, ans, p)
                    } else {
                        eval_kid(l, ks, 2, data, d1, limit, ans, p)
                    }
                },
                other => (other, p),
            }
        },
        Tag::StrictEqual | Tag::StrictNotEqual | Tag::Xor => {
            let (o, p) = eval_kid(l, ks, 0, data, d1, limit, ans, pos);
            match o {
                EvalOutcome::Value(a) => {
                    let (o2, q) = eval_kid(l, ks, 1, data, d1, limit, ans, p);
                    match o2 {
                        EvalOutcome::Value(b) => {
                            let r = if tag == Tag::Xor {
                                is_truthy(&a) != is_truthy(&b)
                            } else {
                                json_eq(&a, &b) == (tag == Tag::StrictEqual)
                            };
                            (EvalOutcome::Value(JsonValue::Bool(r)), q)
                        },
                        other => (other, q),
                    }
                },
                other => (other, p),
            }
        },
        Tag::IfNull => {
            let (o, p) = eval_kid(l, ks, 0, data, d1, limit, ans, pos);
            match o {
                EvalOutcome::Value(v) => {
                    if is_null_like(&v) {
                        eval_kid(l, ks, 1, data, d1, limit, ans, p)
                    } else {
                        (EvalOutcome::Value(v), p)
                    }
                },
                other => (other, p),
            }
        },
        Tag::Empty => {
            let e = String::new();
            assert(e@ =~= Seq::<char>::empty());
            (EvalOutcome::Value(JsonValue::String(e)), pos)
        },
        Tag::MapEach | Tag::Filter | Tag::All | Tag::SomeOf | Tag::NoneOf => {
            let (o, p) = eval_kid(l, ks, 0, data, d1, limit, ans, pos);
            match o {
                EvalOutcome::Value(JsonValue::Array(xs)) => {
                    if tag == Tag::MapEach || tag == Tag::Filter {
                        eval_map(l, ks, &xs, tag == Tag::Filter, d1, limit, ans, p)
                    } else {
                        eval_quantifier(l, ks, &xs, tag, d1, limit, ans, p)
                    }
                },
                EvalOutcome::Value(_) => {
                    if tag == Tag::MapEach || tag == Tag::Filter {
                        let empty: Vec<JsonValue> = Vec::new();
                        assert(json_views(empty@) =~= Seq::<JsonView>::empty());
                        (EvalOutcome::Value(JsonValue::Array(empty)), p)
                    } else {
                        (EvalOutcome::Value(JsonValue::Bool(tag == Tag::NoneOf)), p)
                    }
                },
                other => (other, p),
            }
        },
        Tag::Reduce => {
            let (o, p) = eval_kid(l, ks, 0, data, d1, limit, ans, pos);
            match o {
                EvalOutcome::Value(arr) => {
                    let (o2, q) = eval_kid(l, ks, 2, data, d1, limit, ans, p);
                    match o2 {
                        EvalOutcome::Value(init) => match arr {
                            JsonValue::Array(xs) => eval_fold(l, ks, &xs, init, d1, limit, ans, q),
                            _ => (EvalOutcome::Value(init), q),
                        },
                        other => (other, q),
                    }
                },
                other => (other, p),
            }
        },
        Tag::For => (failed("FOR is not evaluated here"), pos),
        _ => eval_apply(l, tag, ks, is, data, d1, limit, ans, pos),
    }
}

/// The answers given so far to the requests of one evaluation, in order.
#[derive(Debug)]
pub struct EvalState {
    pub answers: Vec<JsonValue>,
}

impl View for EvalState {
    type V = Seq<JsonView>;

    open spec fn view(&self) -> Seq<JsonView> {
        json_views(self.answers@)
    }
}

/// What evaluating `l` against `data` (recursion limit `limit`) comes to when the
/// requests met on the way are answered by `answers`, in order.
pub open spec fn run_outcome(l: LogicView, data: JsonView, limit: nat, answers: Seq<JsonView>) -> OutcomeView {
    ev(l, data, 0, limit, answers, 0).0
}

/// Start evaluating `logic` against `data`: no answers yet, and the outcome that
/// gives, a value, an error, or the first request.
pub fn eval_begin(logic: &CompiledLogic, data: &JsonValue, cfg: &RLogicConfig) -> (res: (EvalState, EvalOutcome))
    requires
        cfg.recursion_limit < usize::MAX,
    ensures
        res.0@ == Seq::<JsonView>::empty(),
        res.1@ == run_outcome(logic@, data@, cfg.recursion_limit as nat, res.0@),
{
    let state = EvalState { answers: Vec::new() };
    assert(state@ =~= Seq::<JsonView>::empty());
    let (o, _) = eval_node(logic, data, 0, cfg.recursion_limit, &state.answers, 0);
    (state, o)
}

/// Go on with an evaluation: `answer` answers the request the last outcome made,
/// and the evaluation is run again with all the answers given so far.
pub fn eval_step(
    logic: &CompiledLogic,
    data: &JsonValue,
    cfg: &RLogicConfig,
    state: EvalState,
    answer: JsonValue,
) -> (res: (EvalState, EvalOutcome))
    requires
        cfg.recursion_limit < usize::MAX,
    ensures
        res.0@ == state@.push(answer@),
        res.1@ == run_outcome(logic@, data@, cfg.recursion_limit as nat, res.0@),
{
    let mut answers = state.answers;
    let ghost before = answers@;
    answers.push(answer);
    proof {
        crate::json::lemma_json_views_push(before, answers@[before.len() as int]);
    }
    let next = EvalState { answers };
    let (o, _) = eval_node(logic, data, 0, cfg.recursion_limit, &next.answers, 0);
    (next, o)
}

proof fn lemma_and_or_step(items: Seq<LogicView>, i: nat, is_and: bool, last: JsonView, data: JsonView, d1: nat, limit: nat, ans: Seq<JsonView>, pos: nat)
    requires
        i < items.len(),
    ensures
        ev_and_or(items, i, is_and, last, data, d1, limit, ans, pos) == match ev(items[i as int], data, d1, limit, ans, pos) {
            (OutcomeView::Value(r), p) => if truthy(r) != is_and {
                (OutcomeView::Value(r), p)
            } else {
                ev_and_or(items, i + 1, is_and, r, data, d1, limit, ans, p)
            },
            r => r,
        },
{
}

proof fn lemma_list_step(items: Seq<LogicView>, n: nat, data: JsonView, d1: nat, limit: nat, ans: Seq<JsonView>, pos: nat)
    requires
        0 < n <= items.len(),
    ensures
        ev_list(items, n, data, d1, limit, ans, pos) == match ev_list(items, (n - 1) as nat, data, d1, limit, ans, pos) {
            (Ok(vs), p) => match ev(items[n - 1], data, d1, limit, ans, p) {
                (OutcomeView::Value(v), q) => (Ok(vs.push(v)), q),
                (o, q) => (Err(o), q),
            },
            r => r,
        },
{
}

proof fn lemma_map_step(kids: Seq<Option<LogicView>>, xs: Seq<JsonView>, i: nat, keep: bool, acc: Seq<JsonView>, d1: nat, limit: nat, ans: Seq<JsonView>, pos: nat)
    requires
        i < xs.len(),
    ensures
        ev_map(kids, xs, i, keep, acc, d1, limit, ans, pos) == match ev_kid(kids, 1, xs[i as int], d1, limit, ans, pos) {
            (OutcomeView::Value(r), p) => ev_map(kids, xs, i + 1, keep,
                if !keep { acc.push(r) } else if truthy(r) { acc.push(xs[i as int]) } else { acc }, d1, limit, ans, p),
            r => r,
        },
{
}

proof fn lemma_quantifier_step(kids: Seq<Option<LogicView>>, xs: Seq<JsonView>, i: nat, tag: Tag, d1: nat, limit: nat, ans: Seq<JsonView>, pos: nat)
    requires
        i < xs.len(),
    ensures
        ev_quantifier(kids, xs, i, tag, d1, limit, ans, pos) == match ev_kid(kids, 1, xs[i as int], d1, limit, ans, pos) {
            (OutcomeView::Value(r), p) => if truthy(r) == (tag != Tag::All) {
                (OutcomeView::Value(JsonView::Bool(tag == Tag::SomeOf)), p)
            } else {
                ev_quantifier(kids, xs, i + 1, tag, d1, limit, ans, p)
            },
            r => r,
        },
{
}

proof fn lemma_fold_step(kids: Seq<Option<LogicView>>, xs: Seq<JsonView>, i: nat, acc: JsonView, d1: nat, limit: nat, ans: Seq<JsonView>, pos: nat)
    requires
        i < xs.len(),
    ensures
        ev_fold(kids, xs, i, acc, d1, limit, ans, pos) == match ev_kid(kids, 1, reduce_context(xs[i as int], acc), d1, limit, ans, pos) {
            (OutcomeView::Value(r), p) => ev_fold(kids, xs, i + 1, r, d1, limit, ans, p),
            r => r,
        },
{
}

proof fn lemma_kids_stop(
    kids: Seq<Option<LogicView>>,
    n: nat,
    m: nat,
    data: JsonView,
    d1: nat,
    limit: nat,
    ans: Seq<JsonView>,
    pos: nat,
)
    requires
        n <= m <= kids.len(),
        ev_kids(kids, n, data, d1, limit, ans, pos).0 is Err,
    ensures
        ev_kids(kids, m, data, d1, limit, ans, pos) == ev_kids(kids, n, data, d1, limit, ans, pos),
    decreases m - n,
{
    if n < m {
        lemma_kids_stop(kids, n, (m - 1) as nat, data, d1, limit, ans, pos);
    }
}

proof fn lemma_list_stop(
    items: Seq<LogicView>,
    n: nat,
    m: nat,
    data: JsonView,
    d1: nat,
    limit: nat,
    ans: Seq<JsonView>,
    pos: nat,
)
    requires
        n <= m <= items.len(),
        ev_list(items, n, data, d1, limit, ans, pos).0 is Err,
    ensures
        ev_list(items, m, data, d1, limit, ans, pos) == ev_list(items, n, data, d1, limit, ans, pos),
    decreases m - n,
{
    if n < m {
        lemma_list_stop(items, n, (m - 1) as nat, data, d1, limit, ans, pos);
    }
}

#[verifier::spinoff_prover]
#[verifier::rlimit(60)]
proof fn lemma_strict_step(
    tag: Tag,
    x: LogicView,
    y: LogicView,
    data: JsonView,
    depth: nat,
    limit: nat,
    ans: Seq<JsonView>,
    pos: nat,
)
    requires
        tag == Tag::StrictEqual || tag == Tag::StrictNotEqual,
        depth <= limit,
    ensures
        ({
            let rx = ev(x, data, depth + 1, limit, ans, pos);
            let ry = ev(y, data, depth + 1, limit, ans, rx.1);
            rx.0 is Value && ry.0 is Value ==>
            ev(LogicView::Op(tag, seq![Some(x), Some(y)], seq![]), data, depth, limit, ans, pos)
                == (OutcomeView::Value(JsonView::Bool(json_equal(rx.0->Value_0, ry.0->Value_0) == (tag == Tag::StrictEqual))), ry.1)
        }),
{
    let l = LogicView::Op(tag, seq![Some(x), Some(y)], seq![]);
    let kids = seq![Some(x), Some(y)];
    assert(kids[0] == Some(x));
    assert(kids[1] == Some(y));
    let rx = ev(x, data, depth + 1, limit, ans, pos);
    assert(ev_kid(kids, 0, data, depth + 1, limit, ans, pos) == rx);
    assert(ev_kid(kids, 1, data, depth + 1, limit, ans, rx.1) == ev(y, data, depth + 1, limit, ans, rx.1));
    assert(ev(l, data, depth, limit, ans, pos) == ev_op(l, data, depth + 1, limit, ans, pos));
}

/// `===` is true exactly when its two operands evaluate to equal JSON values, and
/// `!==` is its negation: whatever the operands, `!==` answers the opposite of
/// `===`, after evaluating both operands in order.
#[verifier::spinoff_prover]
#[verifier::rlimit(80)]
pub proof fn law_strict_equality(
    x: LogicView,
    y: LogicView,
    data: JsonView,
    depth: nat,
    limit: nat,
    ans: Seq<JsonView>,
    pos: nat,
)
    requires
        depth <= limit,
        ev(x, data, depth + 1, limit, ans, pos).0 is Value,
        ev(y, data, depth + 1, limit, ans, ev(x, data, depth + 1, limit, ans, pos).1).0 is Value,
    ensures
        ({
            let rx = ev(x, data, depth + 1, limit, ans, pos);
            let ry = ev(y, data, depth + 1, limit, ans, rx.1);
            let same = json_equal(rx.0->Value_0, ry.0->Value_0);
            &&& ev(LogicView::Op(Tag::StrictEqual, seq![Some(x), Some(y)], seq![]), data, depth, limit, ans, pos)
                == (OutcomeView::Value(JsonView::Bool(same)), ry.1)
            &&& ev(LogicView::Op(Tag::StrictNotEqual, seq![Some(x), Some(y)], seq![]), data, depth, limit, ans, pos)
                == (OutcomeView::Value(JsonView::Bool(!same)), ry.1)
        }),
{
    lemma_strict_step(Tag::StrictEqual, x, y, data, depth, limit, ans, pos);
    lemma_strict_step(Tag::StrictNotEqual, x, y, data, depth, limit, ans, pos);
}

/// `!` is the negation of its operand's truthiness, and `isempty` tells whether
/// its operand is `null` or the empty string.
#[verifier::spinoff_prover]
#[verifier::rlimit(60)]
pub proof fn law_not_and_isempty(x: LogicView, data: JsonView, depth: nat, limit: nat, ans: Seq<JsonView>, pos: nat)
    requires
        depth <= limit,
        ev(x, data, depth + 1, limit, ans, pos).0 is Value,
    ensures
        ({
            let rx = ev(x, data, depth + 1, limit, ans, pos);
            let v = rx.0->Value_0;
            &&& ev(LogicView::Op(Tag::Not, seq![Some(x)], seq![]), data, depth, limit, ans, pos)
                == (OutcomeView::Value(JsonView::Bool(!truthy(v))), rx.1)
            &&& ev(LogicView::Op(Tag::IsEmpty, seq![Some(x)], seq![]), data, depth, limit, ans, pos)
                == (OutcomeView::Value(JsonView::Bool(v is Null || v == JsonView::String(Seq::<char>::empty()))), rx.1)
        }),
{
    let kids = seq![Some(x)];
    assert(kids[0] == Some(x));
    let n = LogicView::Op(Tag::Not, kids, seq![]);
    let e = LogicView::Op(Tag::IsEmpty, kids, seq![]);
    assert(ev_kid(kids, 0, data, depth + 1, limit, ans, pos) == ev(x, data, depth + 1, limit, ans, pos));
    assert(ev(n, data, depth, limit, ans, pos) == ev_op(n, data, depth + 1, limit, ans, pos));
    assert(ev(e, data, depth, limit, ans, pos) == ev_op(e, data, depth + 1, limit, ans, pos));
}

/// `if` evaluates its condition, then exactly one branch: the second operand
/// when the condition is truthy, the third otherwise.
#[verifier::spinoff_prover]
#[verifier::rlimit(60)]
pub proof fn law_if_picks_one_branch(
    c: LogicView,
    a: LogicView,
    b: LogicView,
    data: JsonView,
    depth: nat,
    limit: nat,
    ans: Seq<JsonView>,
    pos: nat,
)
    requires
        depth <= limit,
        ev(c, data, depth + 1, limit, ans, pos).0 is Value,
    ensures
        ({
            let rc = ev(c, data, depth + 1, limit, ans, pos);
            ev(LogicView::Op(Tag::If, seq![Some(c), Some(a), Some(b)], seq![]), data, depth, limit, ans, pos)
                == if truthy(rc.0->Value_0) {
                    ev(a, data, depth + 1, limit, ans, rc.1)
                } else {
                    ev(b, data, depth + 1, limit, ans, rc.1)
                }
        }),
{
    let kids = seq![Some(c), Some(a), Some(b)];
    assert(kids[0] == Some(c));
    assert(kids[1] == Some(a));
    assert(kids[2] == Some(b));
    let l = LogicView::Op(Tag::If, kids, seq![]);
    let rc = ev(c, data, depth + 1, limit, ans, pos);
    assert(ev_kid(kids, 0, data, depth + 1, limit, ans, pos) == rc);
    assert(ev_kid(kids, 1, data, depth + 1, limit, ans, rc.1) == ev(a, data, depth + 1, limit, ans, rc.1));
    assert(ev_kid(kids, 2, data, depth + 1, limit, ans, rc.1) == ev(b, data, depth + 1, limit, ans, rc.1));
    assert(ev(l, data, depth, limit, ans, pos) == ev_op(l, data, depth + 1, limit, ans, pos));
}

/// `xor` is true exactly when one of its two operands is truthy and the other is
/// not.
#[verifier::spinoff_prover]
#[verifier::rlimit(60)]
pub proof fn law_xor(x: LogicView, y: LogicView, data: JsonView, depth: nat, limit: nat, ans: Seq<JsonView>, pos: nat)
    requires
        depth <= limit,
        ev(x, data, depth + 1, limit, ans, pos).0 is Value,
        ev(y, data, depth + 1, limit, ans, ev(x, data, depth + 1, limit, ans, pos).1).0 is Value,
    ensures
        ({
            let rx = ev(x, data, depth + 1, limit, ans, pos);
            let ry = ev(y, data, depth + 1, limit, ans, rx.1);
            ev(LogicView::Op(Tag::Xor, seq![Some(x), Some(y)], seq![]), data, depth, limit, ans, pos)
                == (OutcomeView::Value(JsonView::Bool(truthy(rx.0->Value_0) != truthy(ry.0->Value_0))), ry.1)
        }),
{
    let kids = seq![Some(x), Some(y)];
    assert(kids[0] == Some(x));
    assert(kids[1] == Some(y));
    let l = LogicView::Op(Tag::Xor, kids, seq![]);
    let rx = ev(x, data, depth + 1, limit, ans, pos);
    assert(ev_kid(kids, 0, data, depth + 1, limit, ans, pos) == rx);
    assert(ev_kid(kids, 1, data, depth + 1, limit, ans, rx.1) == ev(y, data, depth + 1, limit, ans, rx.1));
    assert(ev(l, data, depth, limit, ans, pos) == ev_op(l, data, depth + 1, limit, ans, pos));
}

/// `ifnull` gives its first operand unless that is `null` or the empty string,
/// and only then evaluates and gives its second.
#[verifier::spinoff_prover]
#[verifier::rlimit(60)]
pub proof fn law_ifnull(x: LogicView, y: LogicView, data: JsonView, depth: nat, limit: nat, ans: Seq<JsonView>, pos: nat)
    requires
        depth <= limit,
        ev(x, data, depth + 1, limit, ans, pos).0 is Value,
    ensures
        ({
            let rx = ev(x, data, depth + 1, limit, ans, pos);
            let v = rx.0->Value_0;
            ev(LogicView::Op(Tag::IfNull, seq![Some(x), Some(y)], seq![]), data, depth, limit, ans, pos)
                == if v is Null || v == JsonView::String(Seq::<char>::empty()) {
                    ev(y, data, depth + 1, limit, ans, rx.1)
                } else {
                    rx
                }
        }),
{
    let kids = seq![Some(x), Some(y)];
    assert(kids[0] == Some(x));
    assert(kids[1] == Some(y));
    let l = LogicView::Op(Tag::IfNull, kids, seq![]);
    let rx = ev(x, data, depth + 1, limit, ans, pos);
    assert(ev_kid(kids, 0, data, depth + 1, limit, ans, pos) == rx);
    assert(ev_kid(kids, 1, data, depth + 1, limit, ans, rx.1) == ev(y, data, depth + 1, limit, ans, rx.1));
    assert(ev(l, data, depth, limit, ans, pos) == ev_op(l, data, depth + 1, limit, ans, pos));
}

/// `and` of two operands gives the first when it is falsy (without evaluating
/// the second), else the second; `or` gives the first when it is truthy, else
/// the second.
#[verifier::spinoff_prover]
#[verifier::rlimit(60)]
pub proof fn law_and_or_short_circuit(x: LogicView, y: LogicView, data: JsonView, depth: nat, limit: nat, ans: Seq<JsonView>, pos: nat)
    requires
        depth <= limit,
        ev(x, data, depth + 1, limit, ans, pos).0 is Value,
    ensures
        ({
            let rx = ev(x, data, depth + 1, limit, ans, pos);
            let v = rx.0->Value_0;
            &&& ev(LogicView::Op(Tag::And, seq![], seq![x, y]), data, depth, limit, ans, pos)
                == if !truthy(v) { rx } else { ev(y, data, depth + 1, limit, ans, rx.1) }
            &&& ev(LogicView::Op(Tag::Or, seq![], seq![x, y]), data, depth, limit, ans, pos)
                == if truthy(v) { rx } else { ev(y, data, depth + 1, limit, ans, rx.1) }
        }),
{
    let items = seq![x, y];
    assert(items[0] == x);
    assert(items[1] == y);
    let rx = ev(x, data, depth + 1, limit, ans, pos);
    let ry = ev(y, data, depth + 1, limit, ans, rx.1);
    lemma_and_or_step(items, 0, true, JsonView::Null, data, depth + 1, limit, ans, pos);
    lemma_and_or_step(items, 0, false, JsonView::Null, data, depth + 1, limit, ans, pos);
    lemma_and_or_step(items, 1, true, rx.0->Value_0, data, depth + 1, limit, ans, rx.1);
    lemma_and_or_step(items, 1, false, rx.0->Value_0, data, depth + 1, limit, ans, rx.1);
    if ry.0 is Value {
        assert(ev_and_or(items, 2, true, ry.0->Value_0, data, depth + 1, limit, ans, ry.1) == (ry.0, ry.1));
        assert(ev_and_or(items, 2, false, ry.0->Value_0, data, depth + 1, limit, ans, ry.1) == (ry.0, ry.1));
    }
    let la = LogicView::Op(Tag::And, seq![], items);
    let lo = LogicView::Op(Tag::Or, seq![], items);
    assert(ev(la, data, depth, limit, ans, pos) == ev_op(la, data, depth + 1, limit, ans, pos));
    assert(ev(lo, data, depth, limit, ans, pos) == ev_op(lo, data, depth + 1, limit, ans, pos));
}

/// A variable (or reference) gives the value its pointer names in the data when
/// that value exists and is not `null`; otherwise it gives its default,
/// evaluated, or `null` when it has none.
#[verifier::spinoff_prover]
#[verifier::rlimit(60)]
pub proof fn law_variable_lookup(
    name: Seq<char>,
    default: Option<Box<LogicView>>,
    data: JsonView,
    depth: nat,
    limit: nat,
    ans: Seq<JsonView>,
    pos: nat,
)
    requires
        depth <= limit,
    ensures
        ({
            let missing = match default {
                Some(b) => ev(*b, data, depth + 1, limit, ans, pos),
                None => (OutcomeView::Value(JsonView::Null), pos),
            };
            let r = match pointer_get(data, name) {
                Some(v) => if v is Null { missing } else { (OutcomeView::Value(v), pos) },
                None => missing,
            };
            &&& ev(LogicView::Var(name, default), data, depth, limit, ans, pos) == r
            &&& ev(LogicView::Ref(name, default), data, depth, limit, ans, pos) == r
        }),
{
}

/// An operator evaluated outside the library is asked for with its operands'
/// values, in order, exactly when no answer is left; an answer given is its
/// value. `==` is one such operator.
#[verifier::spinoff_prover]
#[verifier::rlimit(60)]
pub proof fn law_outside_operator_is_asked(x: LogicView, y: LogicView, data: JsonView, depth: nat, limit: nat, ans: Seq<JsonView>, pos: nat)
    requires
        depth <= limit,
        ev(x, data, depth + 1, limit, ans, pos).0 is Value,
        ev(y, data, depth + 1, limit, ans, ev(x, data, depth + 1, limit, ans, pos).1).0 is Value,
    ensures
        ({
            let rx = ev(x, data, depth + 1, limit, ans, pos);
            let ry = ev(y, data, depth + 1, limit, ans, rx.1);
            let q = ry.1;
            ev(LogicView::Op(Tag::Equal, seq![Some(x), Some(y)], seq![]), data, depth, limit, ans, pos)
                == if q < ans.len() {
                    (OutcomeView::Value(ans[q as int]), q + 1)
                } else {
                    (OutcomeView::Need(RequestView::Apply(Tag::Equal, seq![Some(rx.0->Value_0), Some(ry.0->Value_0)], seq![])), q)
                }
        }),
{
    let kids = seq![Some(x), Some(y)];
    assert(kids[0] == Some(x));
    assert(kids[1] == Some(y));
    let l = LogicView::Op(Tag::Equal, kids, seq![]);
    let rx = ev(x, data, depth + 1, limit, ans, pos);
    let ry = ev(y, data, depth + 1, limit, ans, rx.1);
    assert(ev_kid(kids, 0, data, depth + 1, limit, ans, pos) == rx);
    assert(ev_kid(kids, 1, data, depth + 1, limit, ans, rx.1) == ry);
    assert(ev_kids(kids, 0, data, depth + 1, limit, ans, pos) == (Ok::<Seq<Option<JsonView>>, OutcomeView>(seq![]), pos));
    assert(ev_kids(kids, 1, data, depth + 1, limit, ans, pos) == (Ok::<Seq<Option<JsonView>>, OutcomeView>(seq![Some(rx.0->Value_0)]), rx.1));
    assert(seq![Some(rx.0->Value_0)].push(Some(ry.0->Value_0)) =~= seq![Some(rx.0->Value_0), Some(ry.0->Value_0)]);
    assert(ev_kids(kids, 2, data, depth + 1, limit, ans, pos) == (Ok::<Seq<Option<JsonView>>, OutcomeView>(seq![Some(rx.0->Value_0), Some(ry.0->Value_0)]), ry.1));
    assert(ev_list(seq![], 0, data, depth + 1, limit, ans, ry.1) == (Ok::<Seq<JsonView>, OutcomeView>(seq![]), ry.1));
    assert(ev(l, data, depth, limit, ans, pos) == ev_op(l, data, depth + 1, limit, ans, pos));
    assert(ev_op(l, data, depth + 1, limit, ans, pos) == ev_apply(l, data, depth + 1, limit, ans, pos));
}

/// Over a value that is not an array, `map` and `filter` give the empty array,
/// `all` and `some` give false and `none` gives true; over the empty array `all`
/// and `none` give true and `some` false. `reduce` over either gives its initial
/// value.
#[verifier::spinoff_prover]
#[verifier::rlimit(80)]
pub proof fn law_array_operators_on_empty_input(
    arr: LogicView,
    body: LogicView,
    init: LogicView,
    data: JsonView,
    depth: nat,
    limit: nat,
    ans: Seq<JsonView>,
    pos: nat,
)
    requires
        depth <= limit,
        ev(arr, data, depth + 1, limit, ans, pos).0 is Value,
    ensures
        ({
            let ra = ev(arr, data, depth + 1, limit, ans, pos);
            let a = ra.0->Value_0;
            let p = ra.1;
            let kids = seq![Some(arr), Some(body)];
            let not_array = !(a is Array);
            let empty = a == JsonView::Array(Seq::<JsonView>::empty());
            &&& not_array || empty ==> ev(LogicView::Op(Tag::MapEach, kids, seq![]), data, depth, limit, ans, pos)
                == (OutcomeView::Value(JsonView::Array(Seq::<JsonView>::empty())), p)
            &&& not_array || empty ==> ev(LogicView::Op(Tag::Filter, kids, seq![]), data, depth, limit, ans, pos)
                == (OutcomeView::Value(JsonView::Array(Seq::<JsonView>::empty())), p)
            &&& not_array || empty ==> ev(LogicView::Op(Tag::SomeOf, kids, seq![]), data, depth, limit, ans, pos)
                == (OutcomeView::Value(JsonView::Bool(false)), p)
            &&& not_array || empty ==> ev(LogicView::Op(Tag::NoneOf, kids, seq![]), data, depth, limit, ans, pos)
                == (OutcomeView::Value(JsonView::Bool(true)), p)
            &&& not_array ==> ev(LogicView::Op(Tag::All, kids, seq![]), data, depth, limit, ans, pos)
                == (OutcomeView::Value(JsonView::Bool(false)), p)
            &&& empty ==> ev(LogicView::Op(Tag::All, kids, seq![]), data, depth, limit, ans, pos)
                == (OutcomeView::Value(JsonView::Bool(true)), p)
            &&& (not_array || empty) && ev(init, data, depth + 1, limit, ans, p).0 is Value ==>
                ev(LogicView::Op(Tag::Reduce, seq![Some(arr), Some(body), Some(init)], seq![]), data, depth, limit, ans, pos)
                == ev(init, data, depth + 1, limit, ans, p)
        }),
{
    let kids = seq![Some(arr), Some(body)];
    let kids3 = seq![Some(arr), Some(body), Some(init)];
    assert(kids[0] == Some(arr));
    assert(kids3[0] == Some(arr));
    assert(kids3[2] == Some(init));
    let ra = ev(arr, data, depth + 1, limit, ans, pos);
    assert(ev_kid(kids, 0, data, depth + 1, limit, ans, pos) == ra);
    assert(ev_kid(kids3, 0, data, depth + 1, limit, ans, pos) == ra);
    assert(ev_kid(kids3, 2, data, depth + 1, limit, ans, ra.1) == ev(init, data, depth + 1, limit, ans, ra.1));
    let r = LogicView::Op(Tag::Reduce, kids3, seq![]);
    assert(ev(r, data, depth, limit, ans, pos) == ev_op(r, data, depth + 1, limit, ans, pos));
    let m = LogicView::Op(Tag::MapEach, kids, seq![]);
    assert(ev(m, data, depth, limit, ans, pos) == ev_op(m, data, depth + 1, limit, ans, pos));
    let f = LogicView::Op(Tag::Filter, kids, seq![]);
    assert(ev(f, data, depth, limit, ans, pos) == ev_op(f, data, depth + 1, limit, ans, pos));
    let so = LogicView::Op(Tag::SomeOf, kids, seq![]);
    assert(ev(so, data, depth, limit, ans, pos) == ev_op(so, data, depth + 1, limit, ans, pos));
    let no = LogicView::Op(Tag::NoneOf, kids, seq![]);
    assert(ev(no, data, depth, limit, ans, pos) == ev_op(no, data, depth + 1, limit, ans, pos));
    let al = LogicView::Op(Tag::All, kids, seq![]);
    assert(ev(al, data, depth, limit, ans, pos) == ev_op(al, data, depth + 1, limit, ans, pos));
}

#[verifier::spinoff_prover]
#[verifier::rlimit(80)]
proof fn lemma_map_shape(
    kids: Seq<Option<LogicView>>,
    xs: Seq<JsonView>,
    i: nat,
    keep: bool,
    acc: Seq<JsonView>,
    d1: nat,
    limit: nat,
    ans: Seq<JsonView>,
    pos: nat,
)
    requires
        i <= xs.len(),
    ensures
        ev_map(kids, xs, i, keep, acc, d1, limit, ans, pos).0 matches OutcomeView::Value(JsonView::Array(res)) ==> {
            &&& !keep ==> res.len() == acc.len() + xs.len() - i
            &&& keep ==> res.len() <= acc.len() + xs.len() - i
            &&& keep ==> forall|e: JsonView| #[trigger] res.contains(e) ==> acc.contains(e) || xs.subrange(i as int, xs.len() as int).contains(e)
        },
    decreases xs.len() - i,
{
    if i < xs.len() {
        lemma_map_step(kids, xs, i, keep, acc, d1, limit, ans, pos);
        let rk = ev_kid(kids, 1, xs[i as int], d1, limit, ans, pos);
        if let OutcomeView::Value(r) = rk.0 {
            let acc2 = if !keep { acc.push(r) } else if truthy(r) { acc.push(xs[i as int]) } else { acc };
            lemma_map_shape(kids, xs, i + 1, keep, acc2, d1, limit, ans, rk.1);
            if let OutcomeView::Value(JsonView::Array(res)) = ev_map(kids, xs, i, keep, acc, d1, limit, ans, pos).0 {
                if keep {
                    assert forall|e: JsonView| #[trigger] res.contains(e) implies acc.contains(e) || xs.subrange(i as int, xs.len() as int).contains(e) by {
                        let rest = xs.subrange((i + 1) as int, xs.len() as int);
                        let all = xs.subrange(i as int, xs.len() as int);
                        if rest.contains(e) {
                            let k = choose|k: int| 0 <= k < rest.len() && rest[k] == e;
                            assert(all[k + 1] == e);
                        }
                        if acc2.contains(e) && !acc.contains(e) {
                            let k = choose|k: int| 0 <= k < acc2.len() && acc2[k] == e;
                            if k < acc.len() {
                                assert(acc[k] == e);
                            }
                            assert(all[0] == xs[i as int]);
                        }
                    }
                }
            }
        }
    }
}

/// `map` gives one result per element of the array it runs over, and `filter`
/// keeps only elements of that array, never more of them than there are.
#[verifier::spinoff_prover]
#[verifier::rlimit(80)]
pub proof fn law_map_and_filter_shape(
    arr: LogicView,
    body: LogicView,
    data: JsonView,
    depth: nat,
    limit: nat,
    ans: Seq<JsonView>,
    pos: nat,
)
    requires
        depth <= limit,
        ev(arr, data, depth + 1, limit, ans, pos).0 matches OutcomeView::Value(JsonView::Array(_)),
    ensures
        ({
            let xs = ev(arr, data, depth + 1, limit, ans, pos).0->Value_0->Array_0;
            let kids = seq![Some(arr), Some(body)];
            &&& ev(LogicView::Op(Tag::MapEach, kids, seq![]), data, depth, limit, ans, pos).0
                matches OutcomeView::Value(JsonView::Array(res)) ==> res.len() == xs.len()
            &&& ev(LogicView::Op(Tag::Filter, kids, seq![]), data, depth, limit, ans, pos).0
                matches OutcomeView::Value(JsonView::Array(res)) ==> res.len() <= xs.len()
                    && forall|e: JsonView| #[trigger] res.contains(e) ==> xs.contains(e)
        }),
{
    let kids = seq![Some(arr), Some(body)];
    assert(kids[0] == Some(arr));
    let ra = ev(arr, data, depth + 1, limit, ans, pos);
    let xs = ra.0->Value_0->Array_0;
    assert(ev_kid(kids, 0, data, depth + 1, limit, ans, pos) == ra);
    let m = LogicView::Op(Tag::MapEach, kids, seq![]);
    let f = LogicView::Op(Tag::Filter, kids, seq![]);
    assert(ev(m, data, depth, limit, ans, pos) == ev_op(m, data, depth + 1, limit, ans, pos));
    assert(ev(f, data, depth, limit, ans, pos) == ev_op(f, data, depth + 1, limit, ans, pos));
    lemma_map_shape(kids, xs, 0, false, seq![], depth + 1, limit, ans, ra.1);
    lemma_map_shape(kids, xs, 0, true, seq![], depth + 1, limit, ans, ra.1);
    assert(xs.subrange(0, xs.len() as int) =~= xs);
}

/// Over a one-element array `[x]`, with the body giving `r` for `x`: `map` gives
/// `[r]`, `filter` gives `[x]` when `r` is truthy and `[]` otherwise, `all` and
/// `some` give whether `r` is truthy and `none` whether it is not; `reduce` gives
/// what the body gives for `{"current": x, "accumulator": initial}`.
#[verifier::spinoff_prover]
#[verifier::rlimit(100)]
pub proof fn law_array_operators_on_one_element(
    arr: LogicView,
    body: LogicView,
    init: LogicView,
    data: JsonView,
    depth: nat,
    limit: nat,
    ans: Seq<JsonView>,
    pos: nat,
)
    requires
        depth <= limit,
        ev(arr, data, depth + 1, limit, ans, pos).0 matches OutcomeView::Value(JsonView::Array(xs)) && xs.len() == 1,
    ensures
        ({
            let ra = ev(arr, data, depth + 1, limit, ans, pos);
            let x = ra.0->Value_0->Array_0[0];
            let rb = ev(body, x, depth + 1, limit, ans, ra.1);
            let kids = seq![Some(arr), Some(body)];
            &&& rb.0 matches OutcomeView::Value(r) ==> {
                &&& ev(LogicView::Op(Tag::MapEach, kids, seq![]), data, depth, limit, ans, pos)
                    == (OutcomeView::Value(JsonView::Array(seq![r])), rb.1)
                &&& ev(LogicView::Op(Tag::Filter, kids, seq![]), data, depth, limit, ans, pos)
                    == (OutcomeView::Value(JsonView::Array(if truthy(r) { seq![x] } else { seq![] })), rb.1)
                &&& ev(LogicView::Op(Tag::All, kids, seq![]), data, depth, limit, ans, pos)
                    == (OutcomeView::Value(JsonView::Bool(truthy(r))), rb.1)
                &&& ev(LogicView::Op(Tag::SomeOf, kids, seq![]), data, depth, limit, ans, pos)
                    == (OutcomeView::Value(JsonView::Bool(truthy(r))), rb.1)
                &&& ev(LogicView::Op(Tag::NoneOf, kids, seq![]), data, depth, limit, ans, pos)
                    == (OutcomeView::Value(JsonView::Bool(!truthy(r))), rb.1)
            }
            &&& ev(init, data, depth + 1, limit, ans, ra.1).0 matches OutcomeView::Value(iv) ==> {
                let ctx = JsonView::Object(seq![("current"@, x), ("accumulator"@, iv)]);
                ev(LogicView::Op(Tag::Reduce, seq![Some(arr), Some(body), Some(init)], seq![]), data, depth, limit, ans, pos)
                    == ev(body, ctx, depth + 1, limit, ans, ev(init, data, depth + 1, limit, ans, ra.1).1)
            }
        }),
{
    let kids = seq![Some(arr), Some(body)];
    let kids3 = seq![Some(arr), Some(body), Some(init)];
    assert(kids[0] == Some(arr));
    assert(kids[1] == Some(body));
    assert(kids3[0] == Some(arr));
    assert(kids3[1] == Some(body));
    assert(kids3[2] == Some(init));
    let ra = ev(arr, data, depth + 1, limit, ans, pos);
    let xs = ra.0->Value_0->Array_0;
    let x = xs[0];
    assert(ev_kid(kids, 0, data, depth + 1, limit, ans, pos) == ra);
    assert(ev_kid(kids3, 0, data, depth + 1, limit, ans, pos) == ra);
    let rb = ev(body, x, depth + 1, limit, ans, ra.1);
    assert(ev_kid(kids, 1, x, depth + 1, limit, ans, ra.1) == rb);
    lemma_map_step(kids, xs, 0, false, seq![], depth + 1, limit, ans, ra.1);
    lemma_map_step(kids, xs, 0, true, seq![], depth + 1, limit, ans, ra.1);
    lemma_quantifier_step(kids, xs, 0, Tag::All, depth + 1, limit, ans, ra.1);
    lemma_quantifier_step(kids, xs, 0, Tag::SomeOf, depth + 1, limit, ans, ra.1);
    lemma_quantifier_step(kids, xs, 0, Tag::NoneOf, depth + 1, limit, ans, ra.1);
    if let OutcomeView::Value(r) = rb.0 {
        assert(seq![].push(r) =~= seq![r]);
        assert(seq![].push(x) =~= seq![x]);
    }
    let m = LogicView::Op(Tag::MapEach, kids, seq![]);
    assert(ev(m, data, depth, limit, ans, pos) == ev_op(m, data, depth + 1, limit, ans, pos));
    let f = LogicView::Op(Tag::Filter, kids, seq![]);
    assert(ev(f, data, depth, limit, ans, pos) == ev_op(f, data, depth + 1, limit, ans, pos));
    let al = LogicView::Op(Tag::All, kids, seq![]);
    assert(ev(al, data, depth, limit, ans, pos) == ev_op(al, data, depth + 1, limit, ans, pos));
    let so = LogicView::Op(Tag::SomeOf, kids, seq![]);
    assert(ev(so, data, depth, limit, ans, pos) == ev_op(so, data, depth + 1, limit, ans, pos));
    let no = LogicView::Op(Tag::NoneOf, kids, seq![]);
    assert(ev(no, data, depth, limit, ans, pos) == ev_op(no, data, depth + 1, limit, ans, pos));
    let ri = ev(init, data, depth + 1, limit, ans, ra.1);
    assert(ev_kid(kids3, 2, data, depth + 1, limit, ans, ra.1) == ri);
    if let OutcomeView::Value(iv) = ri.0 {
        let ctx = reduce_context(x, iv);
        assert(ev_kid(kids3, 1, ctx, depth + 1, limit, ans, ri.1) == ev(body, ctx, depth + 1, limit, ans, ri.1));
        lemma_fold_step(kids3, xs, 0, iv, depth + 1, limit, ans, ri.1);
    }
    let r = LogicView::Op(Tag::Reduce, kids3, seq![]);
    assert(ev(r, data, depth, limit, ans, pos) == ev_op(r, data, depth + 1, limit, ans, pos));
}

/// The absent keys of `missing`: a key is absent when it names something (is not
/// empty and has a non-empty pointer form) and the data has no value other than
/// `null` at its pointer.
pub open spec fn key_absent(data: JsonView, k: Seq<char>) -> bool {
    k.len() > 0 && json_pointer_of(k).len() > 0
        && match pointer_get(data, json_pointer_of(k)) {
            Some(v) => v is Null,
            None => true,
        }
}

proof fn lemma_missing_keys_exact(data: JsonView, keys: Seq<Seq<char>>)
    ensures
        forall|i: int| 0 <= i < missing_keys(data, keys).len() ==> exists|j: int|
            0 <= j < keys.len() && #[trigger] missing_keys(data, keys)[i] == JsonView::String(#[trigger] keys[j])
                && key_absent(data, keys[j]),
        forall|j: int| 0 <= j < keys.len() && key_absent(data, #[trigger] keys[j]) ==>
            missing_keys(data, keys).contains(JsonView::String(keys[j])),
    decreases keys.len(),
{
    if keys.len() > 0 {
        let init = keys.drop_last();
        lemma_missing_keys_exact(data, init);
        let prev = missing_keys(data, init);
        let last = keys.last();
        let tail = if present(data, last) { Seq::<JsonView>::empty() } else { seq![JsonView::String(last)] };
        let all = missing_keys(data, keys);
        assert(all == prev + tail);
        assert forall|i: int| 0 <= i < all.len() implies exists|j: int|
            0 <= j < keys.len() && #[trigger] all[i] == JsonView::String(#[trigger] keys[j]) && key_absent(data, keys[j]) by {
            if i < prev.len() {
                assert(all[i] == prev[i]);
                let j = choose|j: int| 0 <= j < init.len() && #[trigger] prev[i] == JsonView::String(#[trigger] init[j])
                    && key_absent(data, init[j]);
                assert(keys[j] == init[j]);
            } else {
                assert(all[i] == JsonView::String(last));
                assert(keys[keys.len() - 1] == last);
            }
        }
        assert forall|j: int| 0 <= j < keys.len() && key_absent(data, #[trigger] keys[j]) implies
            all.contains(JsonView::String(keys[j])) by {
            if j < keys.len() - 1 {
                assert(init[j] == keys[j]);
                assert(prev.contains(JsonView::String(keys[j])));
                let q = choose|q: int| 0 <= q < prev.len() && prev[q] == JsonView::String(keys[j]);
                assert(all[q] == prev[q]);
            } else {
                assert(all[prev.len() as int] == JsonView::String(last));
            }
        }
    }
}

/// `missing` lists, in order, exactly the keys that are absent from the data:
/// every entry of its result is an absent key, and every absent key is in it.
#[verifier::spinoff_prover]
#[verifier::rlimit(80)]
pub proof fn law_missing_lists_absent_keys(keys: Seq<Seq<char>>, data: JsonView, depth: nat, limit: nat, ans: Seq<JsonView>, pos: nat)
    requires
        depth <= limit,
    ensures
        ev(LogicView::Missing(keys), data, depth, limit, ans, pos).0 matches OutcomeView::Value(JsonView::Array(res)) && {
            &&& forall|i: int| 0 <= i < res.len() ==> exists|j: int|
                0 <= j < keys.len() && #[trigger] res[i] == JsonView::String(#[trigger] keys[j]) && key_absent(data, keys[j])
            &&& forall|j: int| 0 <= j < keys.len() && key_absent(data, #[trigger] keys[j]) ==> res.contains(JsonView::String(keys[j]))
        },
{
    lemma_missing_keys_exact(data, keys);
}

/// `merge` of two operands gives the elements of each operand that is an array,
/// and each other operand as itself, in order.
#[verifier::spinoff_prover]
#[verifier::rlimit(80)]
pub proof fn law_merge_two(x: LogicView, y: LogicView, data: JsonView, depth: nat, limit: nat, ans: Seq<JsonView>, pos: nat)
    requires
        depth <= limit,
        ev(x, data, depth + 1, limit, ans, pos).0 is Value,
        ev(y, data, depth + 1, limit, ans, ev(x, data, depth + 1, limit, ans, pos).1).0 is Value,
    ensures
        ({
            let rx = ev(x, data, depth + 1, limit, ans, pos);
            let ry = ev(y, data, depth + 1, limit, ans, rx.1);
            let a = rx.0->Value_0;
            let b = ry.0->Value_0;
            let pa = match a { JsonView::Array(xs) => xs, _ => seq![a] };
            let pb = match b { JsonView::Array(xs) => xs, _ => seq![b] };
            ev(LogicView::Op(Tag::Merge, seq![], seq![x, y]), data, depth, limit, ans, pos)
                == (OutcomeView::Value(JsonView::Array(pa + pb)), ry.1)
        }),
{
    let items = seq![x, y];
    assert(items[0] == x);
    assert(items[1] == y);
    let rx = ev(x, data, depth + 1, limit, ans, pos);
    let ry = ev(y, data, depth + 1, limit, ans, rx.1);
    lemma_list_step(items, 1, data, depth + 1, limit, ans, pos);
    lemma_list_step(items, 2, data, depth + 1, limit, ans, pos);
    let vs = seq![rx.0->Value_0, ry.0->Value_0];
    assert(seq![].push(rx.0->Value_0).push(ry.0->Value_0) =~= vs);
    assert(vs.drop_last() =~= seq![rx.0->Value_0]);
    assert(vs.drop_last().drop_last() =~= Seq::<JsonView>::empty());
    let a = rx.0->Value_0;
    let b = ry.0->Value_0;
    let pa = match a { JsonView::Array(xs) => xs, _ => seq![a] };
    let pb = match b { JsonView::Array(xs) => xs, _ => seq![b] };
    let one = vs.drop_last();
    assert(one.len() == 1);
    assert(one.last() == a);
    assert(one.drop_last() =~= Seq::<JsonView>::empty());
    assert(flatten(one.drop_last()) == Seq::<JsonView>::empty());
    assert(flatten(one) == flatten(one.drop_last()) + pa);
    assert(flatten(one) =~= pa);
    assert(vs.last() == b);
    assert(flatten(vs) == flatten(one) + pb);
    assert(flatten(vs) =~= pa + pb);
    let l = LogicView::Op(Tag::Merge, seq![], items);
    assert(ev(l, data, depth, limit, ans, pos) == ev_op(l, data, depth + 1, limit, ans, pos));
}

proof fn lemma_present_count_bound(data: JsonView, keys: Seq<Seq<char>>)
    ensures
        present_count(data, keys) <= keys.len(),
    decreases keys.len(),
{
    if keys.len() > 0 {
        lemma_present_count_bound(data, keys.drop_last());
    }
}

/// `missing_some` asks for its minimum as a count; once answered, a minimum of
/// zero is always met (nothing is missing), and a minimum above the number of
/// keys never is (every absent key is listed, as `missing` lists them).
#[verifier::spinoff_prover]
#[verifier::rlimit(80)]
pub proof fn law_missing_some(m: LogicView, keys: Seq<Seq<char>>, data: JsonView, depth: nat, limit: nat, ans: Seq<JsonView>, pos: nat)
    requires
        depth <= limit,
        ev(m, data, depth + 1, limit, ans, pos).0 is Value,
    ensures
        ({
            let rm = ev(m, data, depth + 1, limit, ans, pos);
            let r = ev(LogicView::MissingSome(Box::new(m), keys), data, depth, limit, ans, pos);
            &&& rm.1 >= ans.len() ==> r == (OutcomeView::Need(RequestView::Count(rm.0->Value_0)), rm.1)
            &&& rm.1 < ans.len() && count_of(ans[rm.1 as int]) == 0 ==> r == (OutcomeView::Value(JsonView::Array(seq![])), rm.1 + 1)
            &&& rm.1 < ans.len() && count_of(ans[rm.1 as int]) > keys.len() ==> r == (
                ev(LogicView::Missing(keys), data, depth, limit, ans, pos).0, rm.1 + 1)
        }),
{
    lemma_present_count_bound(data, keys);
}

proof fn lemma_mantissa_zero(t: Seq<char>, i: nat)
    requires
        i <= t.len(),
        forall|j: int| 0 <= j < i ==> t[j] != 'e' && t[j] != 'E',
    ensures
        !mantissa_zero(t, i) <==> exists|k: int| i <= k < t.len() && '1' <= #[trigger] t[k] && t[k] <= '9'
            && forall|j: int| 0 <= j < k ==> t[j] != 'e' && t[j] != 'E',
    decreases t.len() - i,
{
    if i < t.len() && t[i as int] != 'e' && t[i as int] != 'E' {
        lemma_mantissa_zero(t, i + 1);
        if !mantissa_zero(t, i) && !('1' <= t[i as int] && t[i as int] <= '9') {
            let k = choose|k: int| i + 1 <= k < t.len() && '1' <= #[trigger] t[k] && t[k] <= '9'
                && forall|j: int| 0 <= j < k ==> t[j] != 'e' && t[j] != 'E';
            assert(i <= k);
        }
        if exists|k: int| i <= k < t.len() && '1' <= #[trigger] t[k] && t[k] <= '9'
            && forall|j: int| 0 <= j < k ==> t[j] != 'e' && t[j] != 'E' {
            let k = choose|k: int| i <= k < t.len() && '1' <= #[trigger] t[k] && t[k] <= '9'
                && forall|j: int| 0 <= j < k ==> t[j] != 'e' && t[j] != 'E';
            if k > i {
                assert(i + 1 <= k);
            }
        }
    } else if i < t.len() {
        if exists|k: int| i <= k < t.len() && '1' <= #[trigger] t[k] && t[k] <= '9'
            && forall|j: int| 0 <= j < k ==> t[j] != 'e' && t[j] != 'E' {
            let k = choose|k: int| i <= k < t.len() && '1' <= #[trigger] t[k] && t[k] <= '9'
                && forall|j: int| 0 <= j < k ==> t[j] != 'e' && t[j] != 'E';
            if k > i {
                assert(t[i as int] != 'e' && t[i as int] != 'E');
            }
        }
    }
}

/// JSON Logic truthiness: `null` is false, a boolean is itself, a string or an
/// array is true when not empty, an object is always true, and a number is true
/// exactly when a digit from 1 to 9 comes before any exponent mark in its text.
pub proof fn law_truthiness(v: JsonView)
    ensures
        v is Null ==> !truthy(v),
        v matches JsonView::Bool(b) ==> truthy(v) == b,
        v matches JsonView::String(s) ==> truthy(v) == (s.len() > 0),
        v matches JsonView::Array(xs) ==> truthy(v) == (xs.len() > 0),
        v is Object ==> truthy(v),
        v matches JsonView::Number(t) ==> (truthy(v) <==> exists|k: int| 0 <= k < t.len() && '1' <= #[trigger] t[k] && t[k] <= '9'
            && forall|j: int| 0 <= j < k ==> t[j] != 'e' && t[j] != 'E'),
{
    if let JsonView::Number(t) = v {
        lemma_mantissa_zero(t, 0);
    }
}

} // verus!
