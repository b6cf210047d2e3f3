use vstd::prelude::*;
use crate::json::{JsonValue, JsonView, json_views, entry_views};
use crate::paths::{json_pointer_of, dotted_ref_path, normalize_to_json_pointer};
use crate::text::{str_eq, copy_string};

verus! {

/// Unique identifier for compiled logic expressions.
#[derive(Debug, Clone, Copy, PartialEq, Eq, Structural, Hash)]
pub struct LogicId(pub u64);

/// Compiled JSON Logic expression.
#[derive(Debug)]
pub enum CompiledLogic {
    // Literal values
    Null,
    Bool(bool),
    /// A number literal, kept as its exact text.
    Number(String),
    String(String),
    // Variable access: name (JSON pointer form) and default.
    Var(String, Option<Box<CompiledLogic>>),
    /// JSON Schema reference path (JSON pointer form) and default.
    Ref(String, Option<Box<CompiledLogic>>),
    Missing(Vec<String>),
    /// minimum, keys
    MissingSome(Box<CompiledLogic>, Vec<String>),
    /// Raw value returned as-is.
    Return(Box<JsonValue>),
    /// array literal
    Array(Vec<CompiledLogic>),
    And(Vec<CompiledLogic>),
    Or(Vec<CompiledLogic>),
    Not(Box<CompiledLogic>),
    /// condition, then, else
    If(Box<CompiledLogic>, Box<CompiledLogic>, Box<CompiledLogic>),
    Equal(Box<CompiledLogic>, Box<CompiledLogic>),
    StrictEqual(Box<CompiledLogic>, Box<CompiledLogic>),
    NotEqual(Box<CompiledLogic>, Box<CompiledLogic>),
    StrictNotEqual(Box<CompiledLogic>, Box<CompiledLogic>),
    LessThan(Box<CompiledLogic>, Box<CompiledLogic>),
    LessThanOrEqual(Box<CompiledLogic>, Box<CompiledLogic>),
    GreaterThan(Box<CompiledLogic>, Box<CompiledLogic>),
    GreaterThanOrEqual(Box<CompiledLogic>, Box<CompiledLogic>),
    Add(Vec<CompiledLogic>),
    Subtract(Vec<CompiledLogic>),
    Multiply(Vec<CompiledLogic>),
    Divide(Vec<CompiledLogic>),
    Modulo(Box<CompiledLogic>, Box<CompiledLogic>),
    Power(Box<CompiledLogic>, Box<CompiledLogic>),
    /// array, logic (`map`)
    MapEach(Box<CompiledLogic>, Box<CompiledLogic>),
    /// array, logic
    Filter(Box<CompiledLogic>, Box<CompiledLogic>),
    /// array, logic, initial
    Reduce(Box<CompiledLogic>, Box<CompiledLogic>, Box<CompiledLogic>),
    /// array, logic
    All(Box<CompiledLogic>, Box<CompiledLogic>),
    /// array, logic (`some`)
    SomeOf(Box<CompiledLogic>, Box<CompiledLogic>),
    /// array, logic (`none`)
    NoneOf(Box<CompiledLogic>, Box<CompiledLogic>),
    Merge(Vec<CompiledLogic>),
    /// value, array
    In(Box<CompiledLogic>, Box<CompiledLogic>),
    Cat(Vec<CompiledLogic>),
    /// string, start, length
    Substr(Box<CompiledLogic>, Box<CompiledLogic>, Option<Box<CompiledLogic>>),
    Abs(Box<CompiledLogic>),
    Max(Vec<CompiledLogic>),
    Min(Vec<CompiledLogic>),
    Pow(Box<CompiledLogic>, Box<CompiledLogic>),
    Round(Box<CompiledLogic>),
    RoundUp(Box<CompiledLogic>),
    RoundDown(Box<CompiledLogic>),
    Length(Box<CompiledLogic>),
    /// find, within, start_num
    Search(Box<CompiledLogic>, Box<CompiledLogic>, Option<Box<CompiledLogic>>),
    /// text, num_chars
    Left(Box<CompiledLogic>, Option<Box<CompiledLogic>>),
    /// text, num_chars
    Right(Box<CompiledLogic>, Option<Box<CompiledLogic>>),
    /// text, start, num_chars
    Mid(Box<CompiledLogic>, Box<CompiledLogic>, Box<CompiledLogic>),
    Len(Box<CompiledLogic>),
    /// value, separator, index
    SplitText(Box<CompiledLogic>, Box<CompiledLogic>, Option<Box<CompiledLogic>>),
    Concat(Vec<CompiledLogic>),
    /// string, separator
    SplitValue(Box<CompiledLogic>, Box<CompiledLogic>),
    Xor(Box<CompiledLogic>, Box<CompiledLogic>),
    IfNull(Box<CompiledLogic>, Box<CompiledLogic>),
    IsEmpty(Box<CompiledLogic>),
    Empty,
    Today,
    Now,
    /// end_date, start_date
    Days(Box<CompiledLogic>, Box<CompiledLogic>),
    Year(Box<CompiledLogic>),
    Month(Box<CompiledLogic>),
    Day(Box<CompiledLogic>),
    /// year, month, day
    Date(Box<CompiledLogic>, Box<CompiledLogic>, Box<CompiledLogic>),
    /// array/value, field, index threshold
    Sum(Box<CompiledLogic>, Option<Box<CompiledLogic>>, Option<Box<CompiledLogic>>),
    /// start, end, logic
    For(Box<CompiledLogic>, Box<CompiledLogic>, Box<CompiledLogic>),
    /// table, row_idx, col_name
    ValueAt(Box<CompiledLogic>, Box<CompiledLogic>, Option<Box<CompiledLogic>>),
    /// table, col_name
    MaxAt(Box<CompiledLogic>, Box<CompiledLogic>),
    /// lookup_val, table, field, range
    IndexAt(Box<CompiledLogic>, Box<CompiledLogic>, Box<CompiledLogic>, Option<Box<CompiledLogic>>),
    /// table, conditions
    Match(Box<CompiledLogic>, Vec<CompiledLogic>),
    /// table, conditions
    MatchRange(Box<CompiledLogic>, Vec<CompiledLogic>),
    /// table, conditions
    Choose(Box<CompiledLogic>, Vec<CompiledLogic>),
    /// table, conditions
    FindIndex(Box<CompiledLogic>, Vec<CompiledLogic>),
    /// flatten and multiply
    Multiplies(Vec<CompiledLogic>),
    /// flatten and divide
    Divides(Vec<CompiledLogic>),
    /// start_date, end_date, basis
    YearFrac(Box<CompiledLogic>, Box<CompiledLogic>, Option<Box<CompiledLogic>>),
    /// start_date, end_date, unit
    DateDif(Box<CompiledLogic>, Box<CompiledLogic>, Box<CompiledLogic>),
    /// min, max
    RangeOptions(Box<CompiledLogic>, Box<CompiledLogic>),
    /// table, field_label, field_value
    MapOptions(Box<CompiledLogic>, Box<CompiledLogic>, Box<CompiledLogic>),
    /// table, field_label, field_value, conditions
    MapOptionsIf(Box<CompiledLogic>, Box<CompiledLogic>, Box<CompiledLogic>, Vec<CompiledLogic>),
}

/// The operator of a composite compiled expression.
#[derive(Debug, Clone, Copy, PartialEq, Eq, Structural)]
pub enum Tag {
    Array,
    And,
    Or,
    Not,
    If,
    Equal,
    StrictEqual,
    NotEqual,
    StrictNotEqual,
    LessThan,
    LessThanOrEqual,
    GreaterThan,
    GreaterThanOrEqual,
    Add,
    Subtract,
    Multiply,
    Divide,
    Modulo,
    Power,
    MapEach,
    Filter,
    Reduce,
    All,
    SomeOf,
    NoneOf,
    Merge,
    In,
    Cat,
    Substr,
    Abs,
    Max,
    Min,
    Pow,
    Round,
    RoundUp,
    RoundDown,
    Length,
    Search,
    Left,
    Right,
    Mid,
    Len,
    SplitText,
    Concat,
    SplitValue,
    Xor,
    IfNull,
    IsEmpty,
    Empty,
    Today,
    Now,
    Days,
    Year,
    Month,
    Day,
    Date,
    Sum,
    For,
    ValueAt,
    MaxAt,
    IndexAt,
    Match,
    MatchRange,
    Choose,
    FindIndex,
    Multiplies,
    Divides,
    YearFrac,
    DateDif,
    RangeOptions,
    MapOptions,
    MapOptionsIf,
}

/// The mathematical model of a compiled expression. Composite operators keep
/// their fixed operands (absent optional ones as `None`) and their operand lists.
pub enum LogicView {
    Null,
    Bool(bool),
    Number(Seq<char>),
    String(Seq<char>),
    Var(Seq<char>, Option<Box<LogicView>>),
    Ref(Seq<char>, Option<Box<LogicView>>),
    Missing(Seq<Seq<char>>),
    MissingSome(Box<LogicView>, Seq<Seq<char>>),
    Return(JsonView),
    Op(Tag, Seq<Option<LogicView>>, Seq<LogicView>),
}

/// The outcome of compiling: a compiled value, an error message, or a panic of the
/// compiler (indexing an empty argument list).
pub enum Compiled<T> {
    Done(T),
    Failed(Seq<char>),
    Aborted,
}

pub open spec fn map_done<A, B>(c: Compiled<A>, f: spec_fn(A) -> B) -> Compiled<B> {
    match c {
        Compiled::Done(a) => Compiled::Done(f(a)),
        Compiled::Failed(m) => Compiled::Failed(m),
        Compiled::Aborted => Compiled::Aborted,
    }
}

pub open spec fn string_views(s: Seq<String>) -> Seq<Seq<char>> {
    Seq::new(s.len(), |i: int| s[i]@)
}

impl CompiledLogic {
    pub open spec fn view_logic(self) -> LogicView
        decreases self,
    {
        match self {
            CompiledLogic::Null => LogicView::Null,
            CompiledLogic::Bool(b) => LogicView::Bool(b),
            CompiledLogic::Number(n) => LogicView::Number(n@),
            CompiledLogic::String(s) => LogicView::String(s@),
            CompiledLogic::Var(n, d) => LogicView::Var(n@, opt_box_view(d)),
            CompiledLogic::Ref(n, d) => LogicView::Ref(n@, opt_box_view(d)),
            CompiledLogic::Missing(ks) => LogicView::Missing(string_views(ks@)),
            CompiledLogic::MissingSome(m, ks) => LogicView::MissingSome(
                Box::new(m.view_logic()),
                string_views(ks@),
            ),
            CompiledLogic::Return(v) => LogicView::Return(v.view_json()),
            CompiledLogic::Array(v) => LogicView::Op(Tag::Array, seq![], logic_views(v@)),
            CompiledLogic::And(v) => LogicView::Op(Tag::And, seq![], logic_views(v@)),
            CompiledLogic::Or(v) => LogicView::Op(Tag::Or, seq![], logic_views(v@)),
            CompiledLogic::Not(a) => LogicView::Op(Tag::Not, seq![Some(a.view_logic())], seq![]),
            CompiledLogic::If(a, b, c) => LogicView::Op(Tag::If, seq![Some(a.view_logic()), Some(b.view_logic()), Some(c.view_logic())], seq![]),
            CompiledLogic::Equal(a, b) => LogicView::Op(Tag::Equal, seq![Some(a.view_logic()), Some(b.view_logic())], seq![]),
            CompiledLogic::StrictEqual(a, b) => LogicView::Op(Tag::StrictEqual, seq![Some(a.view_logic()), Some(b.view_logic())], seq![]),
            CompiledLogic::NotEqual(a, b) => LogicView::Op(Tag::NotEqual, seq![Some(a.view_logic()), Some(b.view_logic())], seq![]),
            CompiledLogic::StrictNotEqual(a, b) => LogicView::Op(Tag::StrictNotEqual, seq![Some(a.view_logic()), Some(b.view_logic())], seq![]),
            CompiledLogic::LessThan(a, b) => LogicView::Op(Tag::LessThan, seq![Some(a.view_logic()), Some(b.view_logic())], seq![]),
            CompiledLogic::LessThanOrEqual(a, b) => LogicView::Op(Tag::LessThanOrEqual, seq![Some(a.view_logic()), Some(b.view_logic())], seq![]),
            CompiledLogic::GreaterThan(a, b) => LogicView::Op(Tag::GreaterThan, seq![Some(a.view_logic()), Some(b.view_logic())], seq![]),
            CompiledLogic::GreaterThanOrEqual(a, b) => LogicView::Op(Tag::GreaterThanOrEqual, seq![Some(a.view_logic()), Some(b.view_logic())], seq![]),
            CompiledLogic::Add(v) => LogicView::Op(Tag::Add, seq![], logic_views(v@)),
            CompiledLogic::Subtract(v) => LogicView::Op(Tag::Subtract, seq![], logic_views(v@)),
            CompiledLogic::Multiply(v) => LogicView::Op(Tag::Multiply, seq![], logic_views(v@)),
            CompiledLogic::Divide(v) => LogicView::Op(Tag::Divide, seq![], logic_views(v@)),
            CompiledLogic::Modulo(a, b) => LogicView::Op(Tag::Modulo, seq![Some(a.view_logic()), Some(b.view_logic())], seq![]),
            CompiledLogic::Power(a, b) => LogicView::Op(Tag::Power, seq![Some(a.view_logic()), Some(b.view_logic())], seq![]),
            CompiledLogic::MapEach(a, b) => LogicView::Op(Tag::MapEach, seq![Some(a.view_logic()), Some(b.view_logic())], seq![]),
            CompiledLogic::Filter(a, b) => LogicView::Op(Tag::Filter, seq![Some(a.view_logic()), Some(b.view_logic())], seq![]),
            CompiledLogic::Reduce(a, b, c) => LogicView::Op(Tag::Reduce, seq![Some(a.view_logic()), Some(b.view_logic()), Some(c.view_logic())], seq![]),
            CompiledLogic::All(a, b) => LogicView::Op(Tag::All, seq![Some(a.view_logic()), Some(b.view_logic())], seq![]),
            CompiledLogic::SomeOf(a, b) => LogicView::Op(Tag::SomeOf, seq![Some(a.view_logic()), Some(b.view_logic())], seq![]),
            CompiledLogic::NoneOf(a, b) => LogicView::Op(Tag::NoneOf, seq![Some(a.view_logic()), Some(b.view_logic())], seq![]),
            CompiledLogic::Merge(v) => LogicView::Op(Tag::Merge, seq![], logic_views(v@)),
            CompiledLogic::In(a, b) => LogicView::Op(Tag::In, seq![Some(a.view_logic()), Some(b.view_logic())], seq![]),
            CompiledLogic::Cat(v) => LogicView::Op(Tag::Cat, seq![], logic_views(v@)),
            CompiledLogic::Substr(a, b, c) => LogicView::Op(Tag::Substr, seq![Some(a.view_logic()), Some(b.view_logic()), opt_logic_view(c)], seq![]),
            CompiledLogic::Abs(a) => LogicView::Op(Tag::Abs, seq![Some(a.view_logic())], seq![]),
            CompiledLogic::Max(v) => LogicView::Op(Tag::Max, seq![], logic_views(v@)),
            CompiledLogic::Min(v) => LogicView::Op(Tag::Min, seq![], logic_views(v@)),
            CompiledLogic::Pow(a, b) => LogicView::Op(Tag::Pow, seq![Some(a.view_logic()), Some(b.view_logic())], seq![]),
            CompiledLogic::Round(a) => LogicView::Op(Tag::Round, seq![Some(a.view_logic())], seq![]),
            CompiledLogic::RoundUp(a) => LogicView::Op(Tag::RoundUp, seq![Some(a.view_logic())], seq![]),
            CompiledLogic::RoundDown(a) => LogicView::Op(Tag::RoundDown, seq![Some(a.view_logic())], seq![]),
            CompiledLogic::Length(a) => LogicView::Op(Tag::Length, seq![Some(a.view_logic())], seq![]),
            CompiledLogic::Search(a, b, c) => LogicView::Op(Tag::Search, seq![Some(a.view_logic()), Some(b.view_logic()), opt_logic_view(c)], seq![]),
            CompiledLogic::Left(a, b) => LogicView::Op(Tag::Left, seq![Some(a.view_logic()), opt_logic_view(b)], seq![]),
            CompiledLogic::Right(a, b) => LogicView::Op(Tag::Right, seq![Some(a.view_logic()), opt_logic_view(b)], seq![]),
            CompiledLogic::Mid(a, b, c) => LogicView::Op(Tag::Mid, seq![Some(a.view_logic()), Some(b.view_logic()), Some(c.view_logic())], seq![]),
            CompiledLogic::Len(a) => LogicView::Op(Tag::Len, seq![Some(a.view_logic())], seq![]),
            CompiledLogic::SplitText(a, b, c) => LogicView::Op(Tag::SplitText, seq![Some(a.view_logic()), Some(b.view_logic()), opt_logic_view(c)], seq![]),
            CompiledLogic::Concat(v) => LogicView::Op(Tag::Concat, seq![], logic_views(v@)),
            CompiledLogic::SplitValue(a, b) => LogicView::Op(Tag::SplitValue, seq![Some(a.view_logic()), Some(b.view_logic())], seq![]),
            CompiledLogic::Xor(a, b) => LogicView::Op(Tag::Xor, seq![Some(a.view_logic()), Some(b.view_logic())], seq![]),
            CompiledLogic::IfNull(a, b) => LogicView::Op(Tag::IfNull, seq![Some(a.view_logic()), Some(b.view_logic())], seq![]),
            CompiledLogic::IsEmpty(a) => LogicView::Op(Tag::IsEmpty, seq![Some(a.view_logic())], seq![]),
            CompiledLogic::Empty => LogicView::Op(Tag::Empty, seq![], seq![]),
            CompiledLogic::Today => LogicView::Op(Tag::Today, seq![], seq![]),
            CompiledLogic::Now => LogicView::Op(Tag::Now, seq![], seq![]),
            CompiledLogic::Days(a, b) => LogicView::Op(Tag::Days, seq![Some(a.view_logic()), Some(b.view_logic())], seq![]),
            CompiledLogic::Year(a) => LogicView::Op(Tag::Year, seq![Some(a.view_logic())], seq![]),
            CompiledLogic::Month(a) => LogicView::Op(Tag::Month, seq![Some(a.view_logic())], seq![]),
            CompiledLogic::Day(a) => LogicView::Op(Tag::Day, seq![Some(a.view_logic())], seq![]),
            CompiledLogic::Date(a, b, c) => LogicView::Op(Tag::Date, seq![Some(a.view_logic()), Some(b.view_logic()), Some(c.view_logic())], seq![]),
            CompiledLogic::Sum(a, b, c) => LogicView::Op(Tag::Sum, seq![Some(a.view_logic()), opt_logic_view(b), opt_logic_view(c)], seq![]),
            CompiledLogic::For(a, b, c) => LogicView::Op(Tag::For, seq![Some(a.view_logic()), Some(b.view_logic()), Some(c.view_logic())], seq![]),
            CompiledLogic::ValueAt(a, b, c) => LogicView::Op(Tag::ValueAt, seq![Some(a.view_logic()), Some(b.view_logic()), opt_logic_view(c)], seq![]),
            CompiledLogic::MaxAt(a, b) => LogicView::Op(Tag::MaxAt, seq![Some(a.view_logic()), Some(b.view_logic())], seq![]),
            CompiledLogic::IndexAt(a, b, c, d) => LogicView::Op(Tag::IndexAt, seq![Some(a.view_logic()), Some(b.view_logic()), Some(c.view_logic()), opt_logic_view(d)], seq![]),
            CompiledLogic::Match(a, v) => LogicView::Op(Tag::Match, seq![Some(a.view_logic())], logic_views(v@)),
            CompiledLogic::MatchRange(a, v) => LogicView::Op(Tag::MatchRange, seq![Some(a.view_logic())], logic_views(v@)),
            CompiledLogic::Choose(a, v) => LogicView::Op(Tag::Choose, seq![Some(a.view_logic())], logic_views(v@)),
            CompiledLogic::FindIndex(a, v) => LogicView::Op(Tag::FindIndex, seq![Some(a.view_logic())], logic_views(v@)),
            CompiledLogic::Multiplies(v) => LogicView::Op(Tag::Multiplies, seq![], logic_views(v@)),
            CompiledLogic::Divides(v) => LogicView::Op(Tag::Divides, seq![], logic_views(v@)),
            CompiledLogic::YearFrac(a, b, c) => LogicView::Op(Tag::YearFrac, seq![Some(a.view_logic()), Some(b.view_logic()), opt_logic_view(c)], seq![]),
            CompiledLogic::DateDif(a, b, c) => LogicView::Op(Tag::DateDif, seq![Some(a.view_logic()), Some(b.view_logic()), Some(c.view_logic())], seq![]),
            CompiledLogic::RangeOptions(a, b) => LogicView::Op(Tag::RangeOptions, seq![Some(a.view_logic()), Some(b.view_logic())], seq![]),
            CompiledLogic::MapOptions(a, b, c) => LogicView::Op(Tag::MapOptions, seq![Some(a.view_logic()), Some(b.view_logic()), Some(c.view_logic())], seq![]),
            CompiledLogic::MapOptionsIf(a, b, c, v) => LogicView::Op(Tag::MapOptionsIf, seq![Some(a.view_logic()), Some(b.view_logic()), Some(c.view_logic())], logic_views(v@)),
        }
    }
}

impl View for CompiledLogic {
    type V = LogicView;

    open spec fn view(&self) -> LogicView {
        self.view_logic()
    }
}

/// The models of a sequence of compiled expressions.
pub open spec fn logic_views(s: Seq<CompiledLogic>) -> Seq<LogicView>
    decreases s,
{
    Seq::new(
        s.len(),
        |i: int|
            if 0 <= i < s.len() {
                s[i].view_logic()
            } else {
                LogicView::Null
            },
    )
}

pub open spec fn opt_logic_view(o: Option<Box<CompiledLogic>>) -> Option<LogicView>
    decreases o,
{
    match o {
        Some(b) => Some(b.view_logic()),
        None => None,
    }
}

pub open spec fn opt_box_view(o: Option<Box<CompiledLogic>>) -> Option<Box<LogicView>>
    decreases o,
{
    match o {
        Some(b) => Some(Box::new(b.view_logic())),
        None => None,
    }
}
// ---------------------------------------------------------------------------
// Measures used to show that compilation terminates.

/// Whether an object is exactly `{"var": <string>}`.
pub open spec fn is_var_string_object(es: Seq<(Seq<char>, JsonView)>) -> bool {
    es.len() == 1 && es[0].0 == "var"@ && es[0].1 is String
}

/// A size measure on JSON values under which table-condition preprocessing never grows a value.
pub open spec fn weight(v: JsonView) -> nat
    decreases v,
{
    match v {
        JsonView::Array(xs) => 1 + weight_seq(xs),
        JsonView::Object(es) => if is_var_string_object(es) {
            2
        } else {
            1 + weight_entries(es)
        },
        JsonView::String(_) => 2,
        _ => 1,
    }
}

pub open spec fn weight_seq(xs: Seq<JsonView>) -> nat
    decreases xs,
{
    if xs.len() == 0 {
        0
    } else {
        weight(xs[0]) + 1 + weight_seq(xs.subrange(1, xs.len() as int))
    }
}

pub open spec fn weight_entries(es: Seq<(Seq<char>, JsonView)>) -> nat
    decreases es,
{
    if es.len() == 0 {
        0
    } else {
        weight(es[0].1) + weight_entries(es.subrange(1, es.len() as int))
    }
}

pub proof fn lemma_weight_elem(xs: Seq<JsonView>, k: int)
    requires
        0 <= k < xs.len(),
    ensures
        weight(xs[k]) < weight_seq(xs),
    decreases k,
{
    if k > 0 {
        let rest = xs.subrange(1, xs.len() as int);
        lemma_weight_elem(rest, k - 1);
        assert(rest[k - 1] == xs[k]);
    }
}

pub proof fn lemma_weight_suffix(xs: Seq<JsonView>, k: int)
    requires
        0 <= k <= xs.len(),
    ensures
        weight_seq(xs.subrange(k, xs.len() as int)) <= weight_seq(xs),
        k > 0 ==> weight_seq(xs.subrange(k, xs.len() as int)) < weight_seq(xs),
    decreases k,
{
    if k > 0 {
        let rest = xs.subrange(1, xs.len() as int);
        lemma_weight_suffix(rest, k - 1);
        assert(rest.subrange(k - 1, rest.len() as int) =~= xs.subrange(k, xs.len() as int));
    } else {
        assert(xs.subrange(0, xs.len() as int) =~= xs);
    }
}

pub proof fn lemma_weight_single(x: JsonView)
    ensures
        weight_seq(seq![x]) == weight(x) + 1,
{
    assert(seq![x].subrange(1, 1) =~= Seq::<JsonView>::empty());
    assert(weight_seq(Seq::<JsonView>::empty()) == 0);
}

pub proof fn lemma_weight_entry_single(k: Seq<char>, x: JsonView)
    ensures
        weight_entries(seq![(k, x)]) == weight(x),
{
    assert(seq![(k, x)].subrange(1, 1) =~= Seq::<(Seq<char>, JsonView)>::empty());
    assert(weight_entries(Seq::<(Seq<char>, JsonView)>::empty()) == 0);
}

pub proof fn lemma_weight_entries_first(es: Seq<(Seq<char>, JsonView)>)
    requires
        es.len() > 0,
    ensures
        weight(es[0].1) <= weight_entries(es),
{
}

// ---------------------------------------------------------------------------
// Table-condition preprocessing.

/// `{"var": s}`.
pub open spec fn var_object(s: Seq<char>) -> JsonView {
    JsonView::Object(seq![("var"@, JsonView::String(s))])
}

pub open spec fn is_comparison_op(op: Seq<char>) -> bool {
    op == "=="@ || op == "!="@ || op == "==="@ || op == "!=="@ || op == "<"@ || op == ">"@ || op
        == "<="@ || op == ">="@
}

/// The canonical name of a logical operator written in array shorthand.
pub open spec fn canonical_logical_op(op: Seq<char>) -> Option<Seq<char>> {
    if op == "&&"@ {
        Some("and"@)
    } else if op == "||"@ {
        Some("or"@)
    } else if op == "and"@ || op == "or"@ || op == "!"@ || op == "not"@ || op == "if"@ {
        Some(op)
    } else {
        None
    }
}

/// Whether an object key keeps its value untouched during preprocessing.
pub open spec fn is_reference_key(k: Seq<char>) -> bool {
    k == "$ref"@ || k == "ref"@ || k == "var"@
}

/// Preprocessing of a table condition: bare strings become variable references,
/// `[op, value, col]` comparison triplets become `{op: [{"var": col}, value]}`,
/// `[logical_op, args...]` becomes `{op: [args...]}`, and everything else is
/// processed element by element (values under `$ref`, `ref` and `var` are kept).
pub open spec fn preprocess_spec(v: JsonView) -> JsonView
    decreases v,
{
    match v {
        JsonView::String(s) => var_object(s),
        JsonView::Array(arr) => if arr.len() > 0 && arr[0] is String {
            let op = arr[0]->String_0;
            if is_comparison_op(op) && arr.len() >= 3 {
                let col_arg = match arr[2] {
                    JsonView::String(c) => var_object(c),
                    _ => preprocess_spec(arr[2]),
                };
                JsonView::Object(seq![(op, JsonView::Array(seq![col_arg, arr[1]]))])
            } else if canonical_logical_op(op) is Some {
                JsonView::Object(
                    seq![
                        (
                            canonical_logical_op(op)->Some_0,
                            JsonView::Array(preprocess_seq(arr.subrange(1, arr.len() as int))),
                        ),
                    ],
                )
            } else {
                JsonView::Array(preprocess_seq(arr))
            }
        } else {
            JsonView::Array(preprocess_seq(arr))
        },
        JsonView::Object(es) => JsonView::Object(preprocess_entries(es)),
        _ => v,
    }
}

pub open spec fn preprocess_seq(s: Seq<JsonView>) -> Seq<JsonView>
    decreases s,
{
    Seq::new(
        s.len(),
        |i: int|
            if 0 <= i < s.len() {
                preprocess_spec(s[i])
            } else {
                JsonView::Null
            },
    )
}

pub open spec fn preprocess_entries(es: Seq<(Seq<char>, JsonView)>) -> Seq<(Seq<char>, JsonView)>
    decreases es,
{
    Seq::new(
        es.len(),
        |i: int|
            if 0 <= i < es.len() {
                (
                    es[i].0,
                    if is_reference_key(es[i].0) {
                        es[i].1
                    } else {
                        preprocess_spec(es[i].1)
                    },
                )
            } else {
                (Seq::empty(), JsonView::Null)
            },
    )
}

pub proof fn lemma_preprocess_weight(v: JsonView)
    ensures
        weight(preprocess_spec(v)) <= weight(v),
    decreases v, 0nat,
{
    match v {
        JsonView::Array(arr) => {
            lemma_preprocess_seq_weight(arr);
            if arr.len() > 0 && arr[0] is String {
                let op = arr[0]->String_0;
                if is_comparison_op(op) && arr.len() >= 3 {
                    lemma_weight_elem(arr, 1);
                    lemma_weight_elem(arr, 2);
                    let rest = arr.subrange(1, arr.len() as int);
                    let rest2 = rest.subrange(1, rest.len() as int);
                    assert(rest[0] == arr[1]);
                    assert(rest2[0] == arr[2]);
                    assert(weight_seq(rest2) >= weight(arr[2]) + 1);
                    match arr[2] {
                        JsonView::String(c) => {},
                        _ => {
                            lemma_preprocess_weight(arr[2]);
                        },
                    }
                    let col_arg = match arr[2] {
                        JsonView::String(c) => var_object(c),
                        _ => preprocess_spec(arr[2]),
                    };
                    let inner = seq![col_arg, arr[1]];
                    assert(inner.subrange(1, 2) =~= seq![arr[1]]);
                    assert(seq![arr[1]].subrange(1, 1) =~= Seq::<JsonView>::empty());
                    let es = seq![(op, JsonView::Array(inner))];
                    assert(es.subrange(1, 1) =~= Seq::<(Seq<char>, JsonView)>::empty());
                    assert(weight_seq(arr) == weight(arr[0]) + 1 + weight_seq(rest));
                    assert(weight_seq(rest) == weight(arr[1]) + 1 + weight_seq(rest2));
                    assert(weight(col_arg) <= weight(arr[2]));
                    lemma_weight_single(arr[1]);
                    lemma_weight_entry_single(op, JsonView::Array(inner));
                    assert(weight_seq(inner) == weight(col_arg) + 1 + weight_seq(seq![arr[1]]));
                    assert(weight_entries(es) == weight(JsonView::Array(inner)));
                    assert(!is_var_string_object(es));
                    assert(preprocess_spec(v) == JsonView::Object(es));
                } else if canonical_logical_op(op) is Some {
                    let rest = arr.subrange(1, arr.len() as int);
                    lemma_preprocess_seq_weight(rest);
                    let es = seq![(canonical_logical_op(op)->Some_0, JsonView::Array(preprocess_seq(rest)))];
                    assert(es.subrange(1, 1) =~= Seq::<(Seq<char>, JsonView)>::empty());
                    assert(weight_seq(arr) == weight(arr[0]) + 1 + weight_seq(rest));
                    lemma_weight_entry_single(canonical_logical_op(op)->Some_0, JsonView::Array(preprocess_seq(rest)));
                    assert(!is_var_string_object(es));
                    assert(preprocess_spec(v) == JsonView::Object(es));
                } else {
                    assert(preprocess_spec(v) == JsonView::Array(preprocess_seq(arr)));
                }
            } else {
                assert(preprocess_spec(v) == JsonView::Array(preprocess_seq(arr)));
            }
        },
        JsonView::Object(es) => {
            lemma_preprocess_entries_weight(es);
            if is_var_string_object(es) {
                assert(preprocess_entries(es) =~= es);
            }
            if is_var_string_object(preprocess_entries(es)) {
                assert(preprocess_entries(es)[0] == es[0]);
                assert(es.subrange(1, 1) =~= Seq::<(Seq<char>, JsonView)>::empty());
            }
        },
        JsonView::String(s) => {
            assert(is_var_string_object(seq![("var"@, JsonView::String(s))]));
        },
        _ => {},
    }
}

pub proof fn lemma_preprocess_seq_weight(s: Seq<JsonView>)
    ensures
        weight_seq(preprocess_seq(s)) <= weight_seq(s),
    decreases s, 1nat,
{
    if s.len() > 0 {
        let rest = s.subrange(1, s.len() as int);
        assert(preprocess_seq(s).subrange(1, s.len() as int) =~= preprocess_seq(rest));
        lemma_preprocess_seq_weight(rest);
        lemma_preprocess_weight(s[0]);
    }
}

pub proof fn lemma_preprocess_entries_weight(es: Seq<(Seq<char>, JsonView)>)
    ensures
        weight_entries(preprocess_entries(es)) <= weight_entries(es),
    decreases es, 1nat,
{
    if es.len() > 0 {
        let rest = es.subrange(1, es.len() as int);
        assert(preprocess_entries(es).subrange(1, es.len() as int) =~= preprocess_entries(rest));
        lemma_preprocess_entries_weight(rest);
        if !is_reference_key(es[0].0) {
            lemma_preprocess_weight(es[0].1);
        }
    }
}

// ---------------------------------------------------------------------------
// Flattening of nested associative operators.

/// `items` with each operand that is itself a `tag` list replaced by its own flattened operands.
pub open spec fn flatten_spec(tag: Tag, items: Seq<LogicView>) -> Seq<LogicView>
    decreases items,
{
    if items.len() == 0 {
        seq![]
    } else {
        let first = items[0];
        let head = match first {
            LogicView::Op(t, kids, sub) => if t == tag && kids.len() == 0 {
                flatten_spec(tag, sub)
            } else {
                seq![first]
            },
            _ => seq![first],
        };
        head + flatten_spec(tag, items.subrange(1, items.len() as int))
    }
}

/// Whether `l` is a `tag` operand list.
pub open spec fn is_list_of(l: LogicView, tag: Tag) -> bool {
    l matches LogicView::Op(t, kids, _) && t == tag && kids.len() == 0
}

// ---------------------------------------------------------------------------
// The compiler.

/// `{op: [value, field_var]}` for a `value, op, field` triplet of `MAPOPTIONSIF`.
pub open spec fn triplet_comparison(value: JsonView, op: Seq<char>, field: JsonView) -> JsonView {
    let field_var = match field {
        JsonView::String(f) => var_object(f),
        _ => field,
    };
    JsonView::Object(seq![(op, JsonView::Array(seq![value, field_var]))])
}

/// The strings of `xs`, if all of its elements are strings.
pub open spec fn string_list(xs: Seq<JsonView>) -> Option<Seq<Seq<char>>> {
    if forall|i: int| 0 <= i < xs.len() ==> #[trigger] xs[i] is String {
        Some(Seq::new(xs.len(), |i: int| xs[i]->String_0))
    } else {
        None
    }
}

/// Compilation of a JSON Logic expression.
pub open spec fn compile_spec(v: JsonView) -> Compiled<LogicView>
    decreases weight(v), 1nat, 0nat,
{
    match v {
        JsonView::Null => Compiled::Done(LogicView::Null),
        JsonView::Bool(b) => Compiled::Done(LogicView::Bool(b)),
        JsonView::Number(n) => Compiled::Done(LogicView::Number(n)),
        JsonView::String(s) => Compiled::Done(LogicView::String(s)),
        JsonView::Array(xs) => map_done(
            compile_seq(xs),
            |ls: Seq<LogicView>| LogicView::Op(Tag::Array, seq![], ls),
        ),
        JsonView::Object(es) => if es.len() == 0 {
            Compiled::Done(LogicView::Null)
        } else {
            proof {
                lemma_weight_entries_first(es);
            }
            if es[0].0 == "var"@ {
                compile_path_op(true, es[0].1)
            } else if es[0].0 == "$ref"@ || es[0].0 == "ref"@ {
                compile_path_op(false, es[0].1)
            } else {
                compile_operator_spec(es[0].0, es[0].1)
            }
        },
    }
}

/// Compilation of each element of `xs`, in order, stopping at the first failure.
pub open spec fn compile_seq(xs: Seq<JsonView>) -> Compiled<Seq<LogicView>>
    decreases weight_seq(xs), 0nat, 0nat,
{
    if xs.len() == 0 {
        Compiled::Done(seq![])
    } else {
        match compile_spec(xs[0]) {
            Compiled::Done(l) => map_done(
                compile_seq(xs.subrange(1, xs.len() as int)),
                |ls: Seq<LogicView>| seq![l] + ls,
            ),
            Compiled::Failed(m) => Compiled::Failed(m),
            Compiled::Aborted => Compiled::Aborted,
        }
    }
}

/// Compilation of `xs[idx[0]]`, `xs[idx[1]]`, ... in that order; an index out of
/// range panics.
pub open spec fn compile_picks(xs: Seq<JsonView>, idx: Seq<usize>) -> Compiled<Seq<LogicView>>
    decreases weight(JsonView::Array(xs)), 2nat, idx.len(),
{
    if idx.len() == 0 {
        Compiled::Done(seq![])
    } else if idx[0] < xs.len() {
        proof {
            lemma_weight_elem(xs, idx[0] as int);
        }
        match compile_spec(xs[idx[0] as int]) {
            Compiled::Done(l) => map_done(
                compile_picks(xs, idx.subrange(1, idx.len() as int)),
                |ls: Seq<LogicView>| seq![l] + ls,
            ),
            Compiled::Failed(m) => Compiled::Failed(m),
            Compiled::Aborted => Compiled::Aborted,
        }
    } else {
        Compiled::Aborted
    }
}

/// `var` (when `is_var`) and `$ref`/`ref` with their arguments.
pub open spec fn compile_path_op(is_var: bool, args: JsonView) -> Compiled<LogicView>
    decreases weight(args), 0nat, 0nat,
{
    match args {
        JsonView::String(name) => Compiled::Done(path_logic(is_var, json_pointer_of(name), None)),
        JsonView::Array(arr) => if arr.len() == 0 {
            Compiled::Failed(
                if is_var {
                    "var requires at least one argument"@
                } else {
                    "$ref requires at least one argument"@
                },
            )
        } else if !(arr[0] is String) {
            Compiled::Failed(
                if is_var {
                    "var name must be a string"@
                } else {
                    "$ref path must be a string"@
                },
            )
        } else if arr.len() > 1 {
            proof {
                lemma_weight_elem(arr, 1);
            }
            map_done(
                compile_spec(arr[1]),
                |d: LogicView|
                    path_logic(is_var, json_pointer_of(arr[0]->String_0), Some(Box::new(d))),
            )
        } else {
            Compiled::Done(path_logic(is_var, json_pointer_of(arr[0]->String_0), None))
        },
        _ => Compiled::Failed(
            if is_var {
                "var requires string or array"@
            } else {
                "$ref requires string or array"@
            },
        ),
    }
}

pub open spec fn path_logic(is_var: bool, path: Seq<char>, default: Option<Box<LogicView>>) -> LogicView {
    if is_var {
        LogicView::Var(path, default)
    } else {
        LogicView::Ref(path, default)
    }
}

/// An operator taking a list of operands (flattened for the associative ones).
pub open spec fn spec_list(tag: Tag, args: JsonView, msg: Seq<char>, flat: bool) -> Compiled<LogicView>
    decreases weight(args), 3nat, 0nat,
{
    match args {
        JsonView::Array(arr) => map_done(
            compile_seq(arr),
            |ls: Seq<LogicView>|
                LogicView::Op(
                    tag,
                    seq![],
                    if flat {
                        flatten_spec(tag, ls)
                    } else {
                        ls
                    },
                ),
        ),
        _ => Compiled::Failed(msg),
    }
}

/// An operator taking exactly two operands.
pub open spec fn spec_binary(tag: Tag, args: JsonView) -> Compiled<LogicView>
    decreases weight(args), 3nat, 0nat,
{
    match args {
        JsonView::Array(arr) => if arr.len() != 2 {
            Compiled::Failed("Binary operator requires exactly 2 arguments"@)
        } else {
            map_done(
                compile_picks(arr, seq![0usize, 1usize]),
                |ls: Seq<LogicView>| LogicView::Op(tag, seq![Some(ls[0]), Some(ls[1])], seq![]),
            )
        },
        _ => Compiled::Failed("Binary operator requires array"@),
    }
}

/// An operator applied to its (single) argument as a whole.
pub open spec fn spec_unary(tag: Tag, args: JsonView) -> Compiled<LogicView>
    decreases weight(args), 3nat, 0nat,
{
    map_done(compile_spec(args), |l: LogicView| LogicView::Op(tag, seq![Some(l)], seq![]))
}

/// An operator needing at least three operands (extra ones are ignored).
pub open spec fn spec_ternary(tag: Tag, args: JsonView, m1: Seq<char>, m2: Seq<char>) -> Compiled<
    LogicView,
>
    decreases weight(args), 3nat, 0nat,
{
    match args {
        JsonView::Array(arr) => if arr.len() < 3 {
            Compiled::Failed(m2)
        } else {
            map_done(
                compile_picks(arr, seq![0usize, 1usize, 2usize]),
                |ls: Seq<LogicView>|
                    LogicView::Op(tag, seq![Some(ls[0]), Some(ls[1]), Some(ls[2])], seq![]),
            )
        },
        _ => Compiled::Failed(m1),
    }
}

/// An operator with two operands and an optional third (compiled first when present).
pub open spec fn spec_opt_third(tag: Tag, args: JsonView, m1: Seq<char>, m2: Seq<char>) -> Compiled<
    LogicView,
>
    decreases weight(args), 3nat, 0nat,
{
    match args {
        JsonView::Array(arr) => if arr.len() < 2 {
            Compiled::Failed(m2)
        } else if arr.len() > 2 {
            map_done(
                compile_picks(arr, seq![2usize, 0usize, 1usize]),
                |ls: Seq<LogicView>|
                    LogicView::Op(tag, seq![Some(ls[1]), Some(ls[2]), Some(ls[0])], seq![]),
            )
        } else {
            map_done(
                compile_picks(arr, seq![0usize, 1usize]),
                |ls: Seq<LogicView>| LogicView::Op(tag, seq![Some(ls[0]), Some(ls[1]), None], seq![]),
            )
        },
        _ => Compiled::Failed(m1),
    }
}

/// `LEFT`/`RIGHT`: text and optional count (compiled first when present); an empty
/// argument list panics.
pub open spec fn spec_left_right(tag: Tag, args: JsonView) -> Compiled<LogicView>
    decreases weight(args), 3nat, 0nat,
{
    match args {
        JsonView::Array(arr) => if arr.len() > 1 {
            map_done(
                compile_picks(arr, seq![1usize, 0usize]),
                |ls: Seq<LogicView>| LogicView::Op(tag, seq![Some(ls[1]), Some(ls[0])], seq![]),
            )
        } else {
            map_done(
                compile_picks(arr, seq![0usize]),
                |ls: Seq<LogicView>| LogicView::Op(tag, seq![Some(ls[0]), None], seq![]),
            )
        },
        _ => map_done(compile_spec(args), |l: LogicView| LogicView::Op(tag, seq![Some(l), None], seq![])),
    }
}

/// `!`/`not`, with double negation removed.
pub open spec fn spec_not(args: JsonView) -> Compiled<LogicView>
    decreases weight(args), 3nat, 0nat,
{
    match args {
        JsonView::Array(arr) => if arr.len() == 0 {
            Compiled::Failed("! requires an argument"@)
        } else {
            proof {
                lemma_weight_elem(arr, 0);
            }
            map_done(compile_spec(arr[0]), |l: LogicView| negate(l))
        },
        _ => map_done(compile_spec(args), |l: LogicView| negate(l)),
    }
}

/// The negation of a compiled expression: the operand of a negation, or a new negation.
pub open spec fn negate(l: LogicView) -> LogicView {
    match l {
        LogicView::Op(Tag::Not, kids, items) => if kids.len() > 0 && kids[0] is Some {
            kids[0]->Some_0
        } else {
            LogicView::Op(Tag::Not, seq![Some(l)], seq![])
        },
        _ => LogicView::Op(Tag::Not, seq![Some(l)], seq![]),
    }
}

/// `missing`: a key list or a single key.
pub open spec fn spec_missing(args: JsonView) -> Compiled<LogicView> {
    match args {
        JsonView::Array(arr) => match string_list(arr) {
            Some(keys) => Compiled::Done(LogicView::Missing(keys)),
            None => Compiled::Failed("missing key must be string"@),
        },
        JsonView::String(s) => Compiled::Done(LogicView::Missing(seq![s])),
        _ => Compiled::Failed("missing requires string or array"@),
    }
}

/// `missing_some`: minimum, then a key list.
pub open spec fn spec_missing_some(args: JsonView) -> Compiled<LogicView>
    decreases weight(args), 3nat, 0nat,
{
    match args {
        JsonView::Array(arr) => if arr.len() < 2 {
            Compiled::Failed("missing_some requires at least 2 arguments"@)
        } else {
            proof {
                lemma_weight_elem(arr, 0);
            }
            match compile_spec(arr[0]) {
                Compiled::Done(m) => match arr[1] {
                    JsonView::Array(ks) => match string_list(ks) {
                        Some(keys) => Compiled::Done(LogicView::MissingSome(Box::new(m), keys)),
                        None => Compiled::Failed("key must be string"@),
                    },
                    _ => Compiled::Failed("missing_some keys must be array"@),
                },
                Compiled::Failed(e) => Compiled::Failed(e),
                Compiled::Aborted => Compiled::Aborted,
            }
        },
        _ => Compiled::Failed("missing_some requires array"@),
    }
}

/// `sum`/`SUM`: value, optional field, optional threshold (the optional ones compiled first).
pub open spec fn spec_sum(args: JsonView) -> Compiled<LogicView>
    decreases weight(args), 3nat, 0nat,
{
    match args {
        JsonView::Array(arr) => if arr.len() == 0 {
            Compiled::Failed("sum requires at least 1 argument"@)
        } else if arr.len() > 2 {
            map_done(
                compile_picks(arr, seq![1usize, 2usize, 0usize]),
                |ls: Seq<LogicView>|
                    LogicView::Op(Tag::Sum, seq![Some(ls[2]), Some(ls[0]), Some(ls[1])], seq![]),
            )
        } else if arr.len() == 2 {
            map_done(
                compile_picks(arr, seq![1usize, 0usize]),
                |ls: Seq<LogicView>| LogicView::Op(Tag::Sum, seq![Some(ls[1]), Some(ls[0]), None], seq![]),
            )
        } else {
            map_done(
                compile_picks(arr, seq![0usize]),
                |ls: Seq<LogicView>| LogicView::Op(Tag::Sum, seq![Some(ls[0]), None, None], seq![]),
            )
        },
        _ => map_done(
            compile_spec(args),
            |l: LogicView| LogicView::Op(Tag::Sum, seq![Some(l), None, None], seq![]),
        ),
    }
}

/// `INDEXAT`: lookup value, table, field and an optional range (compiled first).
pub open spec fn spec_index_at(args: JsonView) -> Compiled<LogicView>
    decreases weight(args), 3nat, 0nat,
{
    match args {
        JsonView::Array(arr) => if arr.len() < 3 {
            Compiled::Failed("INDEXAT requires at least 3 arguments"@)
        } else if arr.len() > 3 {
            map_done(
                compile_picks(arr, seq![3usize, 0usize, 1usize, 2usize]),
                |ls: Seq<LogicView>|
                    LogicView::Op(
                        Tag::IndexAt,
                        seq![Some(ls[1]), Some(ls[2]), Some(ls[3]), Some(ls[0])],
                        seq![],
                    ),
            )
        } else {
            map_done(
                compile_picks(arr, seq![0usize, 1usize, 2usize]),
                |ls: Seq<LogicView>|
                    LogicView::Op(Tag::IndexAt, seq![Some(ls[0]), Some(ls[1]), Some(ls[2]), None], seq![]),
            )
        },
        _ => Compiled::Failed("INDEXAT requires array"@),
    }
}

/// `MATCH`, `MATCHRANGE`, `CHOOSE`: a table followed by conditions.
pub open spec fn spec_table(tag: Tag, args: JsonView, m1: Seq<char>, m2: Seq<char>) -> Compiled<
    LogicView,
>
    decreases weight(args), 3nat, 0nat,
{
    match args {
        JsonView::Array(arr) => if arr.len() == 0 {
            Compiled::Failed(m2)
        } else {
            proof {
                lemma_weight_elem(arr, 0);
                lemma_weight_suffix(arr, 1);
            }
            match compile_spec(arr[0]) {
                Compiled::Done(t) => map_done(
                    compile_seq(arr.subrange(1, arr.len() as int)),
                    |cs: Seq<LogicView>| LogicView::Op(tag, seq![Some(t)], cs),
                ),
                Compiled::Failed(e) => Compiled::Failed(e),
                Compiled::Aborted => Compiled::Aborted,
            }
        },
        _ => Compiled::Failed(m1),
    }
}

/// `FINDINDEX`: a table followed by preprocessed conditions.
pub open spec fn spec_find_index(args: JsonView) -> Compiled<LogicView>
    decreases weight(args), 3nat, 0nat,
{
    match args {
        JsonView::Array(arr) => if arr.len() < 2 {
            Compiled::Failed("FINDINDEX requires at least 2 arguments"@)
        } else {
            proof {
                lemma_weight_elem(arr, 0);
                lemma_weight_suffix(arr, 1);
                lemma_preprocess_seq_weight(arr.subrange(1, arr.len() as int));
            }
            match compile_spec(arr[0]) {
                Compiled::Done(t) => map_done(
                    compile_seq(preprocess_seq(arr.subrange(1, arr.len() as int))),
                    |cs: Seq<LogicView>| LogicView::Op(Tag::FindIndex, seq![Some(t)], cs),
                ),
                Compiled::Failed(e) => Compiled::Failed(e),
                Compiled::Aborted => Compiled::Aborted,
            }
        },
        _ => Compiled::Failed("FINDINDEX requires array"@),
    }
}

/// `MAPOPTIONSIF`: table, label field, value field, then conditions.
pub open spec fn spec_map_options_if(args: JsonView) -> Compiled<LogicView>
    decreases weight(args), 3nat, 0nat,
{
    match args {
        JsonView::Array(arr) => if arr.len() < 4 {
            Compiled::Failed("MAPOPTIONSIF requires at least 4 arguments"@)
        } else {
            proof {
                lemma_weight_suffix(arr, 3);
            }
            match compile_picks(arr, seq![0usize, 1usize, 2usize]) {
                Compiled::Done(ls) => map_done(
                    option_conditions(arr.subrange(3, arr.len() as int)),
                    |cs: Seq<LogicView>|
                        LogicView::Op(Tag::MapOptionsIf, seq![Some(ls[0]), Some(ls[1]), Some(ls[2])], cs),
                ),
                Compiled::Failed(e) => Compiled::Failed(e),
                Compiled::Aborted => Compiled::Aborted,
            }
        },
        _ => Compiled::Failed("MAPOPTIONSIF requires array"@),
    }
}

pub proof fn lemma_triplet_weight(rest: Seq<JsonView>)
    requires
        rest.len() >= 3,
        rest[1] is String,
    ensures
        weight(triplet_comparison(rest[0], rest[1]->String_0, rest[2])) < weight_seq(rest),
{
    let r1 = rest.subrange(1, rest.len() as int);
    let r2 = r1.subrange(1, r1.len() as int);
    assert(r1[0] == rest[1]);
    assert(r2[0] == rest[2]);
    let value = rest[0];
    let field = rest[2];
    let field_var = match field {
        JsonView::String(f) => var_object(f),
        _ => field,
    };
    match field {
        JsonView::String(f) => {
            assert(is_var_string_object(seq![("var"@, JsonView::String(f))]));
        },
        _ => {},
    }
    let inner = seq![value, field_var];
    assert(inner.subrange(1, 2) =~= seq![field_var]);
    assert(seq![field_var].subrange(1, 1) =~= Seq::<JsonView>::empty());
    let es = seq![(rest[1]->String_0, JsonView::Array(inner))];
    assert(es.subrange(1, 1) =~= Seq::<(Seq<char>, JsonView)>::empty());
    assert(weight_seq(rest) == weight(rest[0]) + 1 + weight_seq(r1));
    assert(weight_seq(r1) == weight(rest[1]) + 1 + weight_seq(r2));
    assert(weight_seq(r2) >= weight(rest[2]) + 1);
    assert(weight(rest[1]) == 2);
    assert(weight(field_var) <= weight(field));
    lemma_weight_single(field_var);
    lemma_weight_entry_single(rest[1]->String_0, JsonView::Array(inner));
    assert(weight_seq(inner) == weight(value) + 1 + weight_seq(seq![field_var]));
    assert(weight_entries(es) == weight(JsonView::Array(inner)));
    assert(!is_var_string_object(es));
}

/// The conditions of `MAPOPTIONSIF`: leading `value, op, field` triplets become
/// comparisons (a triplet whose operator is not a string is skipped), the rest are
/// preprocessed conditions.
pub open spec fn option_conditions(rest: Seq<JsonView>) -> Compiled<Seq<LogicView>>
    decreases weight_seq(rest), 2nat, 0nat,
{
    if rest.len() >= 3 {
        proof {
            lemma_weight_suffix(rest, 3);
        }
        match rest[1] {
            JsonView::String(op) => {
                proof {
                    lemma_triplet_weight(rest);
                }
                match compile_spec(triplet_comparison(rest[0], op, rest[2])) {
                    Compiled::Done(c) => map_done(
                        option_conditions(rest.subrange(3, rest.len() as int)),
                        |cs: Seq<LogicView>| seq![c] + cs,
                    ),
                    Compiled::Failed(e) => Compiled::Failed(e),
                    Compiled::Aborted => Compiled::Aborted,
                }
            },
            _ => option_conditions(rest.subrange(3, rest.len() as int)),
        }
    } else {
        proof {
            lemma_preprocess_seq_weight(rest);
        }
        compile_seq(preprocess_seq(rest))
    }
}

/// Compilation of `{op: args}` for an operator other than `var`, `$ref` and `ref`.
pub open spec fn compile_operator_spec(op: Seq<char>, args: JsonView) -> Compiled<LogicView>
    decreases weight(args), 5nat, 0nat,
{
    if op_group_0(op) {
        compile_group_0_spec(op, args)
    }     else if op_group_1(op) {
        compile_group_1_spec(op, args)
    }     else if op_group_2(op) {
        compile_group_2_spec(op, args)
    }     else if op_group_3(op) {
        compile_group_3_spec(op, args)
    }     else if op_group_4(op) {
        compile_group_4_spec(op, args)
    }     else if op_group_5(op) {
        compile_group_5_spec(op, args)
    }     else if op_group_6(op) {
        compile_group_6_spec(op, args)
    }     else if op_group_7(op) {
        compile_group_7_spec(op, args)
    }     else if op_group_8(op) {
        compile_group_8_spec(op, args)
    }     else if op_group_9(op) {
        compile_group_9_spec(op, args)
    } else {
        Compiled::Failed("Unknown operator: "@ + op)
    }
}
pub open spec fn op_group_0(op: Seq<char>) -> bool {
    op == "and"@ || op == "or"@ || op == "!"@ || op == "not"@ || op == "if"@ || op == "=="@ || op == "==="@ || op == "!="@ || op == "!=="@
}

/// Compilation of the operators of group 0.
pub open spec fn compile_group_0_spec(op: Seq<char>, args: JsonView) -> Compiled<LogicView>
    decreases weight(args), 4nat, 0nat,
{
    if op == "and"@ {
        spec_list(Tag::And, args, "and requires array"@, true)
    }     else if op == "or"@ {
        spec_list(Tag::Or, args, "or requires array"@, true)
    }     else if op == "!"@ || op == "not"@ {
        spec_not(args)
    }     else if op == "if"@ {
        spec_ternary(Tag::If, args, "if requires array"@, "if requires at least 3 arguments"@)
    }     else if op == "=="@ {
        spec_binary(Tag::Equal, args)
    }     else if op == "==="@ {
        spec_binary(Tag::StrictEqual, args)
    }     else if op == "!="@ {
        spec_binary(Tag::NotEqual, args)
    }     else if op == "!=="@ {
        spec_binary(Tag::StrictNotEqual, args)
    } else {
        Compiled::Failed("Unknown operator: "@ + op)
    }
}

pub open spec fn op_group_1(op: Seq<char>) -> bool {
    op == "<"@ || op == "<="@ || op == ">"@ || op == ">="@ || op == "+"@ || op == "-"@ || op == "*"@ || op == "/"@
}

/// Compilation of the operators of group 1.
pub open spec fn compile_group_1_spec(op: Seq<char>, args: JsonView) -> Compiled<LogicView>
    decreases weight(args), 4nat, 0nat,
{
    if op == "<"@ {
        spec_binary(Tag::LessThan, args)
    }     else if op == "<="@ {
        spec_binary(Tag::LessThanOrEqual, args)
    }     else if op == ">"@ {
        spec_binary(Tag::GreaterThan, args)
    }     else if op == ">="@ {
        spec_binary(Tag::GreaterThanOrEqual, args)
    }     else if op == "+"@ {
        spec_list(Tag::Add, args, "+ requires array"@, true)
    }     else if op == "-"@ {
        spec_list(Tag::Subtract, args, "- requires array"@, false)
    }     else if op == "*"@ {
        spec_list(Tag::Multiply, args, "* requires array"@, true)
    }     else if op == "/"@ {
        spec_list(Tag::Divide, args, "/ requires array"@, false)
    } else {
        Compiled::Failed("Unknown operator: "@ + op)
    }
}

pub open spec fn op_group_2(op: Seq<char>) -> bool {
    op == "%"@ || op == "^"@ || op == "map"@ || op == "filter"@ || op == "reduce"@ || op == "all"@ || op == "some"@ || op == "none"@
}

/// Compilation of the operators of group 2.
pub open spec fn compile_group_2_spec(op: Seq<char>, args: JsonView) -> Compiled<LogicView>
    decreases weight(args), 4nat, 0nat,
{
    if op == "%"@ {
        spec_binary(Tag::Modulo, args)
    }     else if op == "^"@ {
        spec_binary(Tag::Power, args)
    }     else if op == "map"@ {
        spec_binary(Tag::MapEach, args)
    }     else if op == "filter"@ {
        spec_binary(Tag::Filter, args)
    }     else if op == "reduce"@ {
        spec_ternary(Tag::Reduce, args, "reduce requires array"@, "reduce requires 3 arguments"@)
    }     else if op == "all"@ {
        spec_binary(Tag::All, args)
    }     else if op == "some"@ {
        spec_binary(Tag::SomeOf, args)
    }     else if op == "none"@ {
        spec_binary(Tag::NoneOf, args)
    } else {
        Compiled::Failed("Unknown operator: "@ + op)
    }
}

pub open spec fn op_group_3(op: Seq<char>) -> bool {
    op == "merge"@ || op == "in"@ || op == "cat"@ || op == "substr"@ || op == "missing"@ || op == "missing_some"@ || op == "abs"@ || op == "max"@
}

/// Compilation of the operators of group 3.
pub open spec fn compile_group_3_spec(op: Seq<char>, args: JsonView) -> Compiled<LogicView>
    decreases weight(args), 4nat, 0nat,
{
    if op == "merge"@ {
        spec_list(Tag::Merge, args, "merge requires array"@, false)
    }     else if op == "in"@ {
        spec_binary(Tag::In, args)
    }     else if op == "cat"@ {
        spec_list(Tag::Cat, args, "cat requires array"@, true)
    }     else if op == "substr"@ {
        spec_opt_third(Tag::Substr, args, "substr requires array"@, "substr requires at least 2 arguments"@)
    }     else if op == "missing"@ {
        spec_missing(args)
    }     else if op == "missing_some"@ {
        spec_missing_some(args)
    }     else if op == "abs"@ {
        spec_unary(Tag::Abs, args)
    }     else if op == "max"@ {
        spec_list(Tag::Max, args, "max requires array"@, false)
    } else {
        Compiled::Failed("Unknown operator: "@ + op)
    }
}

pub open spec fn op_group_4(op: Seq<char>) -> bool {
    op == "min"@ || op == "pow"@ || op == "**"@ || op == "round"@ || op == "ROUND"@ || op == "roundup"@ || op == "ROUNDUP"@ || op == "rounddown"@ || op == "ROUNDDOWN"@ || op == "length"@ || op == "len"@ || op == "LEN"@ || op == "search"@ || op == "SEARCH"@
}

/// Compilation of the operators of group 4.
pub open spec fn compile_group_4_spec(op: Seq<char>, args: JsonView) -> Compiled<LogicView>
    decreases weight(args), 4nat, 0nat,
{
    if op == "min"@ {
        spec_list(Tag::Min, args, "min requires array"@, false)
    }     else if op == "pow"@ || op == "**"@ {
        spec_binary(Tag::Pow, args)
    }     else if op == "round"@ || op == "ROUND"@ {
        spec_unary(Tag::Round, args)
    }     else if op == "roundup"@ || op == "ROUNDUP"@ {
        spec_unary(Tag::RoundUp, args)
    }     else if op == "rounddown"@ || op == "ROUNDDOWN"@ {
        spec_unary(Tag::RoundDown, args)
    }     else if op == "length"@ {
        spec_unary(Tag::Length, args)
    }     else if op == "len"@ || op == "LEN"@ {
        spec_unary(Tag::Len, args)
    }     else if op == "search"@ || op == "SEARCH"@ {
        spec_opt_third(Tag::Search, args, "search requires array"@, "search requires at least 2 arguments"@)
    } else {
        Compiled::Failed("Unknown operator: "@ + op)
    }
}

pub open spec fn op_group_5(op: Seq<char>) -> bool {
    op == "left"@ || op == "LEFT"@ || op == "right"@ || op == "RIGHT"@ || op == "mid"@ || op == "MID"@ || op == "splittext"@ || op == "SPLITTEXT"@ || op == "concat"@ || op == "CONCAT"@ || op == "splitvalue"@ || op == "SPLITVALUE"@ || op == "xor"@ || op == "ifnull"@ || op == "IFNULL"@
}

/// Compilation of the operators of group 5.
pub open spec fn compile_group_5_spec(op: Seq<char>, args: JsonView) -> Compiled<LogicView>
    decreases weight(args), 4nat, 0nat,
{
    if op == "left"@ || op == "LEFT"@ {
        spec_left_right(Tag::Left, args)
    }     else if op == "right"@ || op == "RIGHT"@ {
        spec_left_right(Tag::Right, args)
    }     else if op == "mid"@ || op == "MID"@ {
        spec_ternary(Tag::Mid, args, "mid requires array"@, "mid requires 3 arguments"@)
    }     else if op == "splittext"@ || op == "SPLITTEXT"@ {
        spec_opt_third(Tag::SplitText, args, "splittext requires array"@, "splittext requires at least 2 arguments"@)
    }     else if op == "concat"@ || op == "CONCAT"@ {
        spec_list(Tag::Concat, args, "concat requires array"@, false)
    }     else if op == "splitvalue"@ || op == "SPLITVALUE"@ {
        spec_binary(Tag::SplitValue, args)
    }     else if op == "xor"@ {
        spec_binary(Tag::Xor, args)
    }     else if op == "ifnull"@ || op == "IFNULL"@ {
        spec_binary(Tag::IfNull, args)
    } else {
        Compiled::Failed("Unknown operator: "@ + op)
    }
}

pub open spec fn op_group_6(op: Seq<char>) -> bool {
    op == "isempty"@ || op == "ISEMPTY"@ || op == "empty"@ || op == "EMPTY"@ || op == "today"@ || op == "TODAY"@ || op == "now"@ || op == "NOW"@ || op == "days"@ || op == "DAYS"@ || op == "year"@ || op == "YEAR"@ || op == "month"@ || op == "MONTH"@ || op == "day"@ || op == "DAY"@
}

/// Compilation of the operators of group 6.
pub open spec fn compile_group_6_spec(op: Seq<char>, args: JsonView) -> Compiled<LogicView>
    decreases weight(args), 4nat, 0nat,
{
    if op == "isempty"@ || op == "ISEMPTY"@ {
        spec_unary(Tag::IsEmpty, args)
    }     else if op == "empty"@ || op == "EMPTY"@ {
        Compiled::Done(LogicView::Op(Tag::Empty, seq![], seq![]))
    }     else if op == "today"@ || op == "TODAY"@ {
        Compiled::Done(LogicView::Op(Tag::Today, seq![], seq![]))
    }     else if op == "now"@ || op == "NOW"@ {
        Compiled::Done(LogicView::Op(Tag::Now, seq![], seq![]))
    }     else if op == "days"@ || op == "DAYS"@ {
        spec_binary(Tag::Days, args)
    }     else if op == "year"@ || op == "YEAR"@ {
        spec_unary(Tag::Year, args)
    }     else if op == "month"@ || op == "MONTH"@ {
        spec_unary(Tag::Month, args)
    }     else if op == "day"@ || op == "DAY"@ {
        spec_unary(Tag::Day, args)
    } else {
        Compiled::Failed("Unknown operator: "@ + op)
    }
}

pub open spec fn op_group_7(op: Seq<char>) -> bool {
    op == "date"@ || op == "DATE"@ || op == "sum"@ || op == "SUM"@ || op == "FOR"@ || op == "VALUEAT"@ || op == "MAXAT"@ || op == "INDEXAT"@ || op == "MATCH"@ || op == "MATCHRANGE"@
}

/// Compilation of the operators of group 7.
pub open spec fn compile_group_7_spec(op: Seq<char>, args: JsonView) -> Compiled<LogicView>
    decreases weight(args), 4nat, 0nat,
{
    if op == "date"@ || op == "DATE"@ {
        spec_ternary(Tag::Date, args, "date requires array"@, "date requires 3 arguments"@)
    }     else if op == "sum"@ || op == "SUM"@ {
        spec_sum(args)
    }     else if op == "FOR"@ {
        spec_ternary(Tag::For, args, "FOR requires array"@, "FOR requires 3 arguments: start, end, logic"@)
    }     else if op == "VALUEAT"@ {
        spec_opt_third(Tag::ValueAt, args, "VALUEAT requires array"@, "VALUEAT requires at least 2 arguments"@)
    }     else if op == "MAXAT"@ {
        spec_binary(Tag::MaxAt, args)
    }     else if op == "INDEXAT"@ {
        spec_index_at(args)
    }     else if op == "MATCH"@ {
        spec_table(Tag::Match, args, "MATCH requires array"@, "MATCH requires at least 1 argument"@)
    }     else if op == "MATCHRANGE"@ {
        spec_table(Tag::MatchRange, args, "MATCHRANGE requires array"@, "MATCHRANGE requires at least 1 argument"@)
    } else {
        Compiled::Failed("Unknown operator: "@ + op)
    }
}

pub open spec fn op_group_8(op: Seq<char>) -> bool {
    op == "CHOOSE"@ || op == "FINDINDEX"@ || op == "MULTIPLIES"@ || op == "DIVIDES"@ || op == "YEARFRAC"@ || op == "DATEDIF"@ || op == "RANGEOPTIONS"@ || op == "MAPOPTIONS"@
}

/// Compilation of the operators of group 8.
pub open spec fn compile_group_8_spec(op: Seq<char>, args: JsonView) -> Compiled<LogicView>
    decreases weight(args), 4nat, 0nat,
{
    if op == "CHOOSE"@ {
        spec_table(Tag::Choose, args, "CHOOSE requires array"@, "CHOOSE requires at least 1 argument"@)
    }     else if op == "FINDINDEX"@ {
        spec_find_index(args)
    }     else if op == "MULTIPLIES"@ {
        spec_list(Tag::Multiplies, args, "MULTIPLIES requires array"@, false)
    }     else if op == "DIVIDES"@ {
        spec_list(Tag::Divides, args, "DIVIDES requires array"@, false)
    }     else if op == "YEARFRAC"@ {
        spec_opt_third(Tag::YearFrac, args, "YEARFRAC requires array"@, "YEARFRAC requires at least 2 arguments"@)
    }     else if op == "DATEDIF"@ {
        spec_ternary(Tag::DateDif, args, "DATEDIF requires array"@, "DATEDIF requires 3 arguments"@)
    }     else if op == "RANGEOPTIONS"@ {
        spec_binary(Tag::RangeOptions, args)
    }     else if op == "MAPOPTIONS"@ {
        spec_ternary(Tag::MapOptions, args, "MAPOPTIONS requires array"@, "MAPOPTIONS requires 3 arguments"@)
    } else {
        Compiled::Failed("Unknown operator: "@ + op)
    }
}

pub open spec fn op_group_9(op: Seq<char>) -> bool {
    op == "MAPOPTIONSIF"@ || op == "return"@
}

/// Compilation of the operators of group 9.
pub open spec fn compile_group_9_spec(op: Seq<char>, args: JsonView) -> Compiled<LogicView>
    decreases weight(args), 4nat, 0nat,
{
    if op == "MAPOPTIONSIF"@ {
        spec_map_options_if(args)
    }     else if op == "return"@ {
        Compiled::Done(LogicView::Return(args))
    } else {
        Compiled::Failed("Unknown operator: "@ + op)
    }
}
// ---------------------------------------------------------------------------
// Executable compiler.

/// The outcome of a compilation result.
pub open spec fn outcome(res: Result<CompiledLogic, Option<String>>) -> Compiled<LogicView> {
    match res {
        Ok(l) => Compiled::Done(l@),
        Err(Some(m)) => Compiled::Failed(m@),
        Err(None) => Compiled::Aborted,
    }
}

/// The outcome of a public compilation result.
pub open spec fn compile_result(res: Result<CompiledLogic, String>) -> Compiled<LogicView> {
    match res {
        Ok(l) => Compiled::Done(l@),
        Err(m) => Compiled::Failed(m@),
    }
}

/// The outcome of a compilation result holding a list.
pub open spec fn outcome_list(res: Result<Vec<CompiledLogic>, Option<String>>) -> Compiled<Seq<LogicView>> {
    match res {
        Ok(v) => Compiled::Done(logic_views(v@)),
        Err(Some(m)) => Compiled::Failed(m@),
        Err(None) => Compiled::Aborted,
    }
}

/// `c` with `done` put in front of its list.
pub open spec fn prepend(done: Seq<LogicView>, c: Compiled<Seq<LogicView>>) -> Compiled<Seq<LogicView>> {
    map_done(c, |ls: Seq<LogicView>| done + ls)
}

proof fn lemma_prepend_push(done: Seq<LogicView>, l: LogicView, c: Compiled<Seq<LogicView>>)
    ensures
        prepend(done, map_done(c, |ls: Seq<LogicView>| seq![l] + ls)) == prepend(done.push(l), c),
{
    match c {
        Compiled::Done(ls) => {
            assert(done + (seq![l] + ls) =~= done.push(l) + ls);
        },
        _ => {},
    }
}

proof fn lemma_prepend_empty(c: Compiled<Seq<LogicView>>)
    ensures
        prepend(seq![], c) == c,
{
    match c {
        Compiled::Done(ls) => {
            assert(Seq::<LogicView>::empty() + ls =~= ls);
        },
        _ => {},
    }
}

proof fn lemma_logic_views_push(s: Seq<CompiledLogic>, x: CompiledLogic)
    ensures
        logic_views(s.push(x)) == logic_views(s).push(x@),
{
    assert(logic_views(s.push(x)) =~= logic_views(s).push(x@));
}

proof fn lemma_picks_len(xs: Seq<JsonView>, idx: Seq<usize>)
    ensures
        compile_picks(xs, idx) matches Compiled::Done(ls) ==> ls.len() == idx.len(),
    decreases idx.len(),
{
    if idx.len() > 0 && idx[0] < xs.len() {
        lemma_picks_len(xs, idx.subrange(1, idx.len() as int));
    }
}

proof fn lemma_json_views_subrange(s: Seq<JsonValue>, i: int, j: int)
    requires
        0 <= i <= j <= s.len(),
    ensures
        json_views(s).subrange(i, j) == json_views(s.subrange(i, j)),
{
    assert(json_views(s).subrange(i, j) =~= json_views(s.subrange(i, j)));
}

fn single_index(k: usize) -> (res: Vec<usize>)
    ensures
        res@ == seq![k],
{
    let mut v: Vec<usize> = Vec::new();
    v.push(k);
    assert(v@ =~= seq![k]);
    v
}

fn err_text(msg: &str) -> (res: Option<String>)
    ensures
        res is Some,
        res->0@ == msg@,
{
    Some(String::from_str(msg))
}

/// `{"var": s}`.
fn var_json(s: &String) -> (res: JsonValue)
    ensures
        res@ == var_object(s@),
{
    let inner = JsonValue::String(copy_string(s));
    let v = vec![(String::from_str("var"), inner)];
    let res = JsonValue::Object(v);
    assert(entry_views(v@) =~= seq![("var"@, JsonView::String(s@))]);
    res
}

/// A two-element JSON array.
fn pair_json(a: JsonValue, b: JsonValue) -> (res: JsonValue)
    ensures
        res@ == JsonView::Array(seq![a@, b@]),
{
    let v = vec![a, b];
    assert(json_views(v@) =~= seq![a@, b@]);
    JsonValue::Array(v)
}

/// A one-entry JSON object.
fn single_entry_json(k: String, v: JsonValue) -> (res: JsonValue)
    ensures
        res@ == JsonView::Object(seq![(k@, v@)]),
{
    let e = vec![(k, v)];
    assert(entry_views(e@) =~= seq![(k@, v@)]);
    JsonValue::Object(e)
}

fn is_comparison_name(op: &str) -> (res: bool)
    ensures
        res == is_comparison_op(op@),
{
    str_eq(op, "==") || str_eq(op, "!=") || str_eq(op, "===") || str_eq(op, "!==") || str_eq(
        op,
        "<",
    ) || str_eq(op, ">") || str_eq(op, "<=") || str_eq(op, ">=")
}

fn canonical_logical_name(op: &String) -> (res: Option<String>)
    ensures
        match res {
            Some(n) => canonical_logical_op(op@) == Some(n@),
            None => canonical_logical_op(op@) is None,
        },
{
    if str_eq(op, "&&") {
        Some(String::from_str("and"))
    } else if str_eq(op, "||") {
        Some(String::from_str("or"))
    } else if str_eq(op, "and") || str_eq(op, "or") || str_eq(op, "!") || str_eq(op, "not")
        || str_eq(op, "if") {
        Some(copy_string(op))
    } else {
        None
    }
}

fn is_reference_name(k: &String) -> (res: bool)
    ensures
        res == is_reference_key(k@),
{
    str_eq(k, "$ref") || str_eq(k, "ref") || str_eq(k, "var")
}

pub open spec fn is_list_tag(tag: Tag) -> bool {
    tag == Tag::Array || tag == Tag::And || tag == Tag::Or || tag == Tag::Add || tag == Tag::Subtract || tag == Tag::Multiply || tag == Tag::Divide || tag == Tag::Merge || tag == Tag::Cat || tag == Tag::Max || tag == Tag::Min || tag == Tag::Concat || tag == Tag::Multiplies || tag == Tag::Divides
}

pub open spec fn is_k0_tag(tag: Tag) -> bool {
    tag == Tag::Empty || tag == Tag::Today || tag == Tag::Now
}

pub open spec fn is_k1_tag(tag: Tag) -> bool {
    tag == Tag::Not || tag == Tag::Abs || tag == Tag::Round || tag == Tag::RoundUp || tag == Tag::RoundDown || tag == Tag::Length || tag == Tag::Len || tag == Tag::IsEmpty || tag == Tag::Year || tag == Tag::Month || tag == Tag::Day
}

pub open spec fn is_k2_tag(tag: Tag) -> bool {
    tag == Tag::Equal || tag == Tag::StrictEqual || tag == Tag::NotEqual || tag == Tag::StrictNotEqual || tag == Tag::LessThan || tag == Tag::LessThanOrEqual || tag == Tag::GreaterThan || tag == Tag::GreaterThanOrEqual || tag == Tag::Modulo || tag == Tag::Power || tag == Tag::MapEach || tag == Tag::Filter || tag == Tag::All || tag == Tag::SomeOf || tag == Tag::NoneOf || tag == Tag::In || tag == Tag::Pow || tag == Tag::SplitValue || tag == Tag::Xor || tag == Tag::IfNull || tag == Tag::Days || tag == Tag::MaxAt || tag == Tag::RangeOptions
}

pub open spec fn is_k3_tag(tag: Tag) -> bool {
    tag == Tag::If || tag == Tag::Reduce || tag == Tag::Mid || tag == Tag::Date || tag == Tag::For || tag == Tag::DateDif || tag == Tag::MapOptions
}

pub open spec fn is_k2o_tag(tag: Tag) -> bool {
    tag == Tag::Substr || tag == Tag::Search || tag == Tag::SplitText || tag == Tag::ValueAt || tag == Tag::YearFrac
}

pub open spec fn is_k1o_tag(tag: Tag) -> bool {
    tag == Tag::Left || tag == Tag::Right
}

pub open spec fn is_k1l_tag(tag: Tag) -> bool {
    tag == Tag::Match || tag == Tag::MatchRange || tag == Tag::Choose || tag == Tag::FindIndex
}

fn build_list(tag: Tag, items: Vec<CompiledLogic>) -> (res: CompiledLogic)
    requires
        is_list_tag(tag),
    ensures
        res@ == LogicView::Op(tag, seq![], logic_views(items@)),
{
    match tag {
        Tag::Array => CompiledLogic::Array(items),
        Tag::And => CompiledLogic::And(items),
        Tag::Or => CompiledLogic::Or(items),
        Tag::Add => CompiledLogic::Add(items),
        Tag::Subtract => CompiledLogic::Subtract(items),
        Tag::Multiply => CompiledLogic::Multiply(items),
        Tag::Divide => CompiledLogic::Divide(items),
        Tag::Merge => CompiledLogic::Merge(items),
        Tag::Cat => CompiledLogic::Cat(items),
        Tag::Max => CompiledLogic::Max(items),
        Tag::Min => CompiledLogic::Min(items),
        Tag::Concat => CompiledLogic::Concat(items),
        Tag::Multiplies => CompiledLogic::Multiplies(items),
        Tag::Divides => CompiledLogic::Divides(items),
        _ => {
            assert(false);
            CompiledLogic::Null
        },
    }
}

fn build_k0(tag: Tag) -> (res: CompiledLogic)
    requires
        is_k0_tag(tag),
    ensures
        res@ == LogicView::Op(tag, seq![], seq![]),
{
    match tag {
        Tag::Empty => CompiledLogic::Empty,
        Tag::Today => CompiledLogic::Today,
        Tag::Now => CompiledLogic::Now,
        _ => {
            assert(false);
            CompiledLogic::Null
        },
    }
}

fn build_k1(tag: Tag, a: CompiledLogic) -> (res: CompiledLogic)
    requires
        is_k1_tag(tag),
    ensures
        res@ == LogicView::Op(tag, seq![Some(a@)], seq![]),
{
    match tag {
        Tag::Not => CompiledLogic::Not(Box::new(a)),
        Tag::Abs => CompiledLogic::Abs(Box::new(a)),
        Tag::Round => CompiledLogic::Round(Box::new(a)),
        Tag::RoundUp => CompiledLogic::RoundUp(Box::new(a)),
        Tag::RoundDown => CompiledLogic::RoundDown(Box::new(a)),
        Tag::Length => CompiledLogic::Length(Box::new(a)),
        Tag::Len => CompiledLogic::Len(Box::new(a)),
        Tag::IsEmpty => CompiledLogic::IsEmpty(Box::new(a)),
        Tag::Year => CompiledLogic::Year(Box::new(a)),
        Tag::Month => CompiledLogic::Month(Box::new(a)),
        Tag::Day => CompiledLogic::Day(Box::new(a)),
        _ => {
            assert(false);
            CompiledLogic::Null
        },
    }
}

fn build_k2(tag: Tag, a: CompiledLogic, b: CompiledLogic) -> (res: CompiledLogic)
    requires
        is_k2_tag(tag),
    ensures
        res@ == LogicView::Op(tag, seq![Some(a@), Some(b@)], seq![]),
{
    match tag {
        Tag::Equal => CompiledLogic::Equal(Box::new(a), Box::new(b)),
        Tag::StrictEqual => CompiledLogic::StrictEqual(Box::new(a), Box::new(b)),
        Tag::NotEqual => CompiledLogic::NotEqual(Box::new(a), Box::new(b)),
        Tag::StrictNotEqual => CompiledLogic::StrictNotEqual(Box::new(a), Box::new(b)),
        Tag::LessThan => CompiledLogic::LessThan(Box::new(a), Box::new(b)),
        Tag::LessThanOrEqual => CompiledLogic::LessThanOrEqual(Box::new(a), Box::new(b)),
        Tag::GreaterThan => CompiledLogic::GreaterThan(Box::new(a), Box::new(b)),
        Tag::GreaterThanOrEqual => CompiledLogic::GreaterThanOrEqual(Box::new(a), Box::new(b)),
        Tag::Modulo => CompiledLogic::Modulo(Box::new(a), Box::new(b)),
        Tag::Power => CompiledLogic::Power(Box::new(a), Box::new(b)),
        Tag::MapEach => CompiledLogic::MapEach(Box::new(a), Box::new(b)),
        Tag::Filter => CompiledLogic::Filter(Box::new(a), Box::new(b)),
        Tag::All => CompiledLogic::All(Box::new(a), Box::new(b)),
        Tag::SomeOf => CompiledLogic::SomeOf(Box::new(a), Box::new(b)),
        Tag::NoneOf => CompiledLogic::NoneOf(Box::new(a), Box::new(b)),
        Tag::In => CompiledLogic::In(Box::new(a), Box::new(b)),
        Tag::Pow => CompiledLogic::Pow(Box::new(a), Box::new(b)),
        Tag::SplitValue => CompiledLogic::SplitValue(Box::new(a), Box::new(b)),
        Tag::Xor => CompiledLogic::Xor(Box::new(a), Box::new(b)),
        Tag::IfNull => CompiledLogic::IfNull(Box::new(a), Box::new(b)),
        Tag::Days => CompiledLogic::Days(Box::new(a), Box::new(b)),
        Tag::MaxAt => CompiledLogic::MaxAt(Box::new(a), Box::new(b)),
        Tag::RangeOptions => CompiledLogic::RangeOptions(Box::new(a), Box::new(b)),
        _ => {
            assert(false);
            CompiledLogic::Null
        },
    }
}

fn build_k3(tag: Tag, a: CompiledLogic, b: CompiledLogic, c: CompiledLogic) -> (res: CompiledLogic)
    requires
        is_k3_tag(tag),
    ensures
        res@ == LogicView::Op(tag, seq![Some(a@), Some(b@), Some(c@)], seq![]),
{
    match tag {
        Tag::If => CompiledLogic::If(Box::new(a), Box::new(b), Box::new(c)),
        Tag::Reduce => CompiledLogic::Reduce(Box::new(a), Box::new(b), Box::new(c)),
        Tag::Mid => CompiledLogic::Mid(Box::new(a), Box::new(b), Box::new(c)),
        Tag::Date => CompiledLogic::Date(Box::new(a), Box::new(b), Box::new(c)),
        Tag::For => CompiledLogic::For(Box::new(a), Box::new(b), Box::new(c)),
        Tag::DateDif => CompiledLogic::DateDif(Box::new(a), Box::new(b), Box::new(c)),
        Tag::MapOptions => CompiledLogic::MapOptions(Box::new(a), Box::new(b), Box::new(c)),
        _ => {
            assert(false);
            CompiledLogic::Null
        },
    }
}

fn build_k2o(tag: Tag, a: CompiledLogic, b: CompiledLogic, c: Option<Box<CompiledLogic>>) -> (res: CompiledLogic)
    requires
        is_k2o_tag(tag),
    ensures
        res@ == LogicView::Op(tag, seq![Some(a@), Some(b@), opt_logic_view(c)], seq![]),
{
    match tag {
        Tag::Substr => CompiledLogic::Substr(Box::new(a), Box::new(b), c),
        Tag::Search => CompiledLogic::Search(Box::new(a), Box::new(b), c),
        Tag::SplitText => CompiledLogic::SplitText(Box::new(a), Box::new(b), c),
        Tag::ValueAt => CompiledLogic::ValueAt(Box::new(a), Box::new(b), c),
        Tag::YearFrac => CompiledLogic::YearFrac(Box::new(a), Box::new(b), c),
        _ => {
            assert(false);
            CompiledLogic::Null
        },
    }
}

fn build_k1o(tag: Tag, a: CompiledLogic, b: Option<Box<CompiledLogic>>) -> (res: CompiledLogic)
    requires
        is_k1o_tag(tag),
    ensures
        res@ == LogicView::Op(tag, seq![Some(a@), opt_logic_view(b)], seq![]),
{
    match tag {
        Tag::Left => CompiledLogic::Left(Box::new(a), b),
        Tag::Right => CompiledLogic::Right(Box::new(a), b),
        _ => {
            assert(false);
            CompiledLogic::Null
        },
    }
}

fn build_k1l(tag: Tag, a: CompiledLogic, v: Vec<CompiledLogic>) -> (res: CompiledLogic)
    requires
        is_k1l_tag(tag),
    ensures
        res@ == LogicView::Op(tag, seq![Some(a@)], logic_views(v@)),
{
    match tag {
        Tag::Match => CompiledLogic::Match(Box::new(a), v),
        Tag::MatchRange => CompiledLogic::MatchRange(Box::new(a), v),
        Tag::Choose => CompiledLogic::Choose(Box::new(a), v),
        Tag::FindIndex => CompiledLogic::FindIndex(Box::new(a), v),
        _ => {
            assert(false);
            CompiledLogic::Null
        },
    }
}


impl CompiledLogic {
    /// Preprocess a table condition (see `preprocess_spec`): bare strings become
    /// variable references and array shorthands become operator objects.
    fn preprocess_table_condition(value: &JsonValue) -> (res: JsonValue)
        ensures
            res@ == preprocess_spec(value@),
        decreases value, 1nat,
    {
        match value {
            JsonValue::String(s) => var_json(s),
            JsonValue::Array(arr) => {
                proof {
                    assert((*value)->Array_0 == *arr);
                    assert(decreases_to!(*value => (*value)->Array_0));
                    assert(decreases_to!(*arr => arr@));
                }
                if arr.len() > 0 {
                    if let JsonValue::String(op) = &arr[0] {
                        proof {
                            assert(json_views(arr@)[0] == arr@[0]@);
                        }
                        if is_comparison_name(op.as_str()) && arr.len() >= 3 {
                            proof {
                                assert(json_views(arr@)[1] == arr@[1]@);
                                assert(json_views(arr@)[2] == arr@[2]@);
                            }
                            let col_arg = match &arr[2] {
                                JsonValue::String(c) => var_json(c),
                                _ => {
                                    proof {
                                        assert(decreases_to!(arr@ => arr@[2]));
                                    }
                                    Self::preprocess_table_condition(&arr[2])
                                },
                            };
                            let value_arg = arr[1].deep_clone();
                            let inner = pair_json(col_arg, value_arg);
                            return single_entry_json(copy_string(op), inner);
                        }
                        let canon = canonical_logical_name(op);
                        if let Some(name) = canon {
                            let items = Self::preprocess_range(arr, 1);
                            proof {
                                lemma_json_views_subrange(arr@, 1, arr@.len() as int);
                            }
                            return single_entry_json(name, JsonValue::Array(items));
                        }
                    }
                }
                let items = Self::preprocess_range(arr, 0);
                proof {
                    lemma_json_views_subrange(arr@, 0, arr@.len() as int);
                    assert(arr@.subrange(0, arr@.len() as int) =~= arr@);
                }
                JsonValue::Array(items)
            },
            JsonValue::Object(es) => {
                proof {
                    assert((*value)->Object_0 == *es);
                    assert(decreases_to!(*value => (*value)->Object_0));
                    assert(decreases_to!(*es => es@));
                }
                let out = Self::preprocess_entry_list(es);
                JsonValue::Object(out)
            },
            _ => value.deep_clone(),
        }
    }

    fn preprocess_range(arr: &Vec<JsonValue>, from: usize) -> (res: Vec<JsonValue>)
        requires
            from <= arr@.len(),
        ensures
            json_views(res@) == preprocess_seq(json_views(arr@.subrange(from as int, arr@.len() as int))),
        decreases arr@, 0nat,
    {
        let mut out: Vec<JsonValue> = Vec::new();
        let mut i = from;
        while i < arr.len()
            invariant
                from <= i <= arr@.len(),
                json_views(out@) == preprocess_seq(json_views(arr@.subrange(from as int, i as int))),
            decreases arr@.len() - i,
        {
            proof {
                assert(decreases_to!(arr@ => arr@[i as int]));
            }
            let p = Self::preprocess_table_condition(&arr[i]);
            let ghost prev = out@;
            out.push(p);
            proof {
                crate::json::lemma_json_views_push(prev, p);
                assert(json_views(arr@.subrange(from as int, i + 1)) =~= json_views(
                    arr@.subrange(from as int, i as int),
                ).push(arr@[i as int]@));
                assert(preprocess_seq(json_views(arr@.subrange(from as int, i + 1))) =~= preprocess_seq(
                    json_views(arr@.subrange(from as int, i as int)),
                ).push(preprocess_spec(arr@[i as int]@)));
            }
            i = i + 1;
        }
        out
    }

    fn preprocess_entry_list(es: &Vec<(String, JsonValue)>) -> (res: Vec<(String, JsonValue)>)
        ensures
            entry_views(res@) == preprocess_entries(entry_views(es@)),
        decreases es@, 0nat,
    {
        let mut out: Vec<(String, JsonValue)> = Vec::new();
        let mut i: usize = 0;
        while i < es.len()
            invariant
                i <= es@.len(),
                entry_views(out@) == preprocess_entries(entry_views(es@)).take(i as int),
            decreases es@.len() - i,
        {
            let k = copy_string(&es[i].0);
            let v = if is_reference_name(&es[i].0) {
                es[i].1.deep_clone()
            } else {
                proof {
                    assert(decreases_to!(es@ => es@[i as int]));
                    assert(decreases_to!(es@[i as int] => es@[i as int].1));
                }
                Self::preprocess_table_condition(&es[i].1)
            };
            let ghost prev = out@;
            out.push((k, v));
            proof {
                crate::json::lemma_entry_views_push(prev, (k, v));
                assert(entry_views(out@) =~= preprocess_entries(entry_views(es@)).take(i + 1));
            }
            i = i + 1;
        }
        assert(preprocess_entries(entry_views(es@)).take(es@.len() as int) =~= preprocess_entries(
            entry_views(es@),
        ));
        out
    }

    /// Compile a JSON Logic expression. Succeeds or fails with a message exactly as
    /// `compile_spec` says; inputs on which compilation would index an empty
    /// argument list (a `LEFT`/`RIGHT` with `[]`) are excluded.
    pub fn compile(logic: &JsonValue) -> (res: Result<CompiledLogic, String>)
        requires
            compile_spec(logic@) != Compiled::<LogicView>::Aborted,
        ensures
            compile_result(res) == compile_spec(logic@),
    {
        match Self::compile_node(logic) {
            Ok(l) => Ok(l),
            Err(Some(m)) => Err(m),
            Err(None) => Err(String::new()),
        }
    }

    /// Compile a JSON Logic expression, reporting with `None` the inputs that
    /// `compile` excludes (compilation would index an empty argument list).
    pub fn try_compile(logic: &JsonValue) -> (res: Option<Result<CompiledLogic, String>>)
        ensures
            res is None <==> compile_spec(logic@) == Compiled::<LogicView>::Aborted,
            res matches Some(r) ==> compile_result(r) == compile_spec(logic@),
    {
        match Self::compile_node(logic) {
            Ok(l) => Some(Ok(l)),
            Err(Some(m)) => Some(Err(m)),
            Err(None) => None,
        }
    }

    /// The compilation of one JSON node; `Err(None)` where an argument list is
    /// indexed out of range.
    fn compile_node(logic: &JsonValue) -> (res: Result<CompiledLogic, Option<String>>)
        ensures
            outcome(res) == compile_spec(logic@),
        decreases weight(logic@), 1nat, 0nat,
    {
        match logic {
            JsonValue::Null => Ok(CompiledLogic::Null),
            JsonValue::Bool(b) => Ok(CompiledLogic::Bool(*b)),
            JsonValue::Number(n) => Ok(CompiledLogic::Number(copy_string(n))),
            JsonValue::String(s) => Ok(CompiledLogic::String(copy_string(s))),
            JsonValue::Array(arr) => {
                proof {
                    lemma_json_views_subrange(arr@, 0, arr@.len() as int);
                    assert(arr@.subrange(0, arr@.len() as int) =~= arr@);
                }
                let items = Self::compile_items(arr, 0)?;
                Ok(CompiledLogic::Array(items))
            },
            JsonValue::Object(es) => {
                if es.len() == 0 {
                    return Ok(CompiledLogic::Null);
                }
                let op = &es[0].0;
                let args = &es[0].1;
                proof {
                    assert(entry_views(es@)[0] == (op@, args@));
                    lemma_weight_entries_first(entry_views(es@));
                }
                if str_eq(op.as_str(), "var") {
                    Self::compile_path(true, args)
                } else if str_eq(op.as_str(), "$ref") || str_eq(op.as_str(), "ref") {
                    Self::compile_path(false, args)
                } else {
                    Self::compile_operator(op.as_str(), args)
                }
            },
        }
    }

    /// Compile `arr[from..]` in order, stopping at the first failure.
    fn compile_items(arr: &Vec<JsonValue>, from: usize) -> (res: Result<Vec<CompiledLogic>, Option<String>>)
        requires
            from <= arr@.len(),
        ensures
            outcome_list(res) == compile_seq(json_views(arr@).subrange(from as int, arr@.len() as int)),
        decreases weight_seq(json_views(arr@).subrange(from as int, arr@.len() as int)), 0nat, 0nat,
    {
        let ghost xs = json_views(arr@);
        let ghost whole = xs.subrange(from as int, arr@.len() as int);
        let mut out: Vec<CompiledLogic> = Vec::new();
        let mut i = from;
        proof {
            lemma_prepend_empty(compile_seq(whole));
        }
        while i < arr.len()
            invariant
                from <= i <= arr@.len(),
                xs == json_views(arr@),
                whole == xs.subrange(from as int, arr@.len() as int),
                compile_seq(whole) == prepend(
                    logic_views(out@),
                    compile_seq(xs.subrange(i as int, arr@.len() as int)),
                ),
            decreases arr@.len() - i,
        {
            let ghost cur = xs.subrange(i as int, arr@.len() as int);
            proof {
                lemma_weight_elem(whole, i - from);
                assert(whole[i - from] == arr@[i as int]@);
                assert(cur[0] == arr@[i as int]@);
                assert(cur.subrange(1, cur.len() as int) =~= xs.subrange(i + 1, arr@.len() as int));
            }
            let l = match Self::compile_node(&arr[i]) {
                Ok(l) => l,
                Err(m) => {
                    return Err(m);
                },
            };
            let ghost prev = out@;
            out.push(l);
            proof {
                lemma_logic_views_push(prev, l);
                lemma_prepend_push(
                    logic_views(prev),
                    l@,
                    compile_seq(xs.subrange(i + 1, arr@.len() as int)),
                );
            }
            i = i + 1;
        }
        proof {
            let e = xs.subrange(i as int, arr@.len() as int);
            assert(e.len() == 0);
            assert(logic_views(out@) + Seq::<LogicView>::empty() =~= logic_views(out@));
        }
        Ok(out)
    }

    /// Compile `arr[idx[0]]`, `arr[idx[1]]`, ... in that order.
    fn compile_picks(arr: &Vec<JsonValue>, idx: Vec<usize>) -> (res: Result<Vec<CompiledLogic>, Option<String>>)
        ensures
            outcome_list(res) == compile_picks(json_views(arr@), idx@),
        decreases weight(JsonView::Array(json_views(arr@))), 2nat, 0nat,
    {
        let ghost xs = json_views(arr@);
        let mut out: Vec<CompiledLogic> = Vec::new();
        let mut k: usize = 0;
        proof {
            lemma_prepend_empty(compile_picks(xs, idx@));
            assert(idx@.subrange(0, idx@.len() as int) =~= idx@);
        }
        while k < idx.len()
            invariant
                k <= idx@.len(),
                xs == json_views(arr@),
                compile_picks(xs, idx@) == prepend(
                    logic_views(out@),
                    compile_picks(xs, idx@.subrange(k as int, idx@.len() as int)),
                ),
            decreases idx@.len() - k,
        {
            let ghost cur = idx@.subrange(k as int, idx@.len() as int);
            assert(cur[0] == idx@[k as int]);
            assert(cur.subrange(1, cur.len() as int) =~= idx@.subrange(k + 1, idx@.len() as int));
            let j = idx[k];
            if j >= arr.len() {
                return Err(None);
            }
            proof {
                lemma_weight_elem(xs, j as int);
            }
            let l = match Self::compile_node(&arr[j]) {
                Ok(l) => l,
                Err(m) => {
                    return Err(m);
                },
            };
            let ghost prev = out@;
            out.push(l);
            proof {
                lemma_logic_views_push(prev, l);
                lemma_prepend_push(
                    logic_views(prev),
                    l@,
                    compile_picks(xs, idx@.subrange(k + 1, idx@.len() as int)),
                );
            }
            k = k + 1;
        }
        proof {
            assert(logic_views(out@) + Seq::<LogicView>::empty() =~= logic_views(out@));
        }
        Ok(out)
    }

    fn compile_path(is_var: bool, args: &JsonValue) -> (res: Result<CompiledLogic, Option<String>>)
        ensures
            outcome(res) == compile_path_op(is_var, args@),
        decreases weight(args@), 0nat, 0nat,
    {
        match args {
            JsonValue::String(name) => {
                let p = normalize_to_json_pointer(name.as_str());
                Ok(make_path(is_var, p, None))
            },
            JsonValue::Array(arr) => {
                if arr.len() == 0 {
                    return Err(
                        if is_var {
                            err_text("var requires at least one argument")
                        } else {
                            err_text("$ref requires at least one argument")
                        },
                    );
                }
                match &arr[0] {
                    JsonValue::String(name) => {
                        let p = normalize_to_json_pointer(name.as_str());
                        if arr.len() > 1 {
                            proof {
                                lemma_weight_elem(json_views(arr@), 1);
                            }
                            let d = Self::compile_node(&arr[1])?;
                            Ok(make_path(is_var, p, Some(Box::new(d))))
                        } else {
                            Ok(make_path(is_var, p, None))
                        }
                    },
                    _ => Err(
                        if is_var {
                            err_text("var name must be a string")
                        } else {
                            err_text("$ref path must be a string")
                        },
                    ),
                }
            },
            _ => Err(
                if is_var {
                    err_text("var requires string or array")
                } else {
                    err_text("$ref requires string or array")
                },
            ),
        }
    }

    fn compile_list(tag: Tag, args: &JsonValue, msg: &str, flat: bool) -> (res: Result<
        CompiledLogic,
        Option<String>,
    >)
        requires
            is_list_tag(tag),
            flat ==> is_flat_tag(tag),
        ensures
            outcome(res) == spec_list(tag, args@, msg@, flat),
        decreases weight(args@), 3nat, 0nat,
    {
        match args {
            JsonValue::Array(arr) => {
                proof {
                    lemma_json_views_subrange(arr@, 0, arr@.len() as int);
                    assert(arr@.subrange(0, arr@.len() as int) =~= arr@);
                    assert(json_views(arr@).subrange(0, arr@.len() as int) =~= json_views(arr@));
                }
                let items = Self::compile_items(arr, 0)?;
                if flat {
                    let f = Self::flatten(tag, items);
                    Ok(build_list(tag, f))
                } else {
                    Ok(build_list(tag, items))
                }
            },
            _ => Err(err_text(msg)),
        }
    }

    fn compile_binary(tag: Tag, args: &JsonValue) -> (res: Result<CompiledLogic, Option<String>>)
        requires
            is_k2_tag(tag),
        ensures
            outcome(res) == spec_binary(tag, args@),
        decreases weight(args@), 3nat, 0nat,
    {
        match args {
            JsonValue::Array(arr) => {
                if arr.len() != 2 {
                    return Err(err_text("Binary operator requires exactly 2 arguments"));
                }
                let mut ls = Self::compile_picks(arr, vec![0usize, 1usize])?;
                proof {
                    lemma_picks_len(json_views(arr@), seq![0usize, 1usize]);
                }
                let ghost vs = logic_views(ls@);
                let b = ls.pop().unwrap();
                let a = ls.pop().unwrap();
                assert(a@ == vs[0] && b@ == vs[1]);
                Ok(build_k2(tag, a, b))
            },
            _ => Err(err_text("Binary operator requires array")),
        }
    }

    fn compile_unary(tag: Tag, args: &JsonValue) -> (res: Result<CompiledLogic, Option<String>>)
        requires
            is_k1_tag(tag),
        ensures
            outcome(res) == spec_unary(tag, args@),
        decreases weight(args@), 3nat, 0nat,
    {
        let a = Self::compile_node(args)?;
        Ok(build_k1(tag, a))
    }

    fn compile_ternary(tag: Tag, args: &JsonValue, m1: &str, m2: &str) -> (res: Result<
        CompiledLogic,
        Option<String>,
    >)
        requires
            is_k3_tag(tag),
        ensures
            outcome(res) == spec_ternary(tag, args@, m1@, m2@),
        decreases weight(args@), 3nat, 0nat,
    {
        match args {
            JsonValue::Array(arr) => {
                if arr.len() < 3 {
                    return Err(err_text(m2));
                }
                let mut ls = Self::compile_picks(arr, vec![0usize, 1usize, 2usize])?;
                proof {
                    lemma_picks_len(json_views(arr@), seq![0usize, 1usize, 2usize]);
                }
                let ghost vs = logic_views(ls@);
                let c = ls.pop().unwrap();
                let b = ls.pop().unwrap();
                let a = ls.pop().unwrap();
                assert(a@ == vs[0] && b@ == vs[1] && c@ == vs[2]);
                Ok(build_k3(tag, a, b, c))
            },
            _ => Err(err_text(m1)),
        }
    }

    fn compile_opt_third(tag: Tag, args: &JsonValue, m1: &str, m2: &str) -> (res: Result<
        CompiledLogic,
        Option<String>,
    >)
        requires
            is_k2o_tag(tag),
        ensures
            outcome(res) == spec_opt_third(tag, args@, m1@, m2@),
        decreases weight(args@), 3nat, 0nat,
    {
        match args {
            JsonValue::Array(arr) => {
                if arr.len() < 2 {
                    return Err(err_text(m2));
                }
                if arr.len() > 2 {
                    let mut ls = Self::compile_picks(arr, vec![2usize, 0usize, 1usize])?;
                    proof {
                        lemma_picks_len(json_views(arr@), seq![2usize, 0usize, 1usize]);
                    }
                    let ghost vs = logic_views(ls@);
                    let b = ls.pop().unwrap();
                    let a = ls.pop().unwrap();
                    let c = ls.pop().unwrap();
                    assert(c@ == vs[0] && a@ == vs[1] && b@ == vs[2]);
                    Ok(build_k2o(tag, a, b, boxed(c)))
                } else {
                    let mut ls = Self::compile_picks(arr, vec![0usize, 1usize])?;
                    proof {
                        lemma_picks_len(json_views(arr@), seq![0usize, 1usize]);
                    }
                    let ghost vs = logic_views(ls@);
                    let b = ls.pop().unwrap();
                    let a = ls.pop().unwrap();
                    assert(a@ == vs[0] && b@ == vs[1]);
                    Ok(build_k2o(tag, a, b, None))
                }
            },
            _ => Err(err_text(m1)),
        }
    }

    fn compile_left_right(tag: Tag, args: &JsonValue) -> (res: Result<CompiledLogic, Option<String>>)
        requires
            is_k1o_tag(tag),
        ensures
            outcome(res) == spec_left_right(tag, args@),
        decreases weight(args@), 3nat, 0nat,
    {
        match args {
            JsonValue::Array(arr) => {
                if arr.len() > 1 {
                    let mut ls = Self::compile_picks(arr, vec![1usize, 0usize])?;
                    proof {
                        lemma_picks_len(json_views(arr@), seq![1usize, 0usize]);
                    }
                    let ghost vs = logic_views(ls@);
                    let a = ls.pop().unwrap();
                    let n = ls.pop().unwrap();
                    assert(n@ == vs[0] && a@ == vs[1]);
                    Ok(build_k1o(tag, a, boxed(n)))
                } else {
                    let mut ls = Self::compile_picks(arr, single_index(0))?;
                    proof {
                        lemma_picks_len(json_views(arr@), seq![0usize]);
                    }
                    let ghost vs = logic_views(ls@);
                    let a = ls.pop().unwrap();
                    assert(a@ == vs[0]);
                    Ok(build_k1o(tag, a, None))
                }
            },
            _ => {
                let a = Self::compile_node(args)?;
                Ok(build_k1o(tag, a, None))
            },
        }
    }

    fn compile_not(args: &JsonValue) -> (res: Result<CompiledLogic, Option<String>>)
        ensures
            outcome(res) == spec_not(args@),
        decreases weight(args@), 3nat, 0nat,
    {
        let inner = match args {
            JsonValue::Array(arr) => {
                if arr.len() == 0 {
                    return Err(err_text("! requires an argument"));
                }
                proof {
                    lemma_weight_elem(json_views(arr@), 0);
                }
                Self::compile_node(&arr[0])?
            },
            _ => Self::compile_node(args)?,
        };
        match inner {
            CompiledLogic::Not(e) => Ok(*e),
            other => Ok(CompiledLogic::Not(Box::new(other))),
        }
    }

    fn collect_strings(arr: &Vec<JsonValue>) -> (res: Option<Vec<String>>)
        ensures
            match res {
                Some(v) => string_list(json_views(arr@)) == Some(string_views(v@)),
                None => string_list(json_views(arr@)) is None,
            },
    {
        let ghost xs = json_views(arr@);
        let mut out: Vec<String> = Vec::new();
        let mut i: usize = 0;
        while i < arr.len()
            invariant
                i <= arr@.len(),
                xs == json_views(arr@),
                out@.len() == i,
                forall|j: int| 0 <= j < i ==> #[trigger] xs[j] is String && xs[j]->String_0 == out@[j]@,
            decreases arr@.len() - i,
        {
            match &arr[i] {
                JsonValue::String(s) => {
                    out.push(copy_string(s));
                },
                _ => {
                    assert(!(xs[i as int] is String));
                    return None;
                },
            }
            i = i + 1;
        }
        assert(string_views(out@) =~= Seq::new(xs.len(), |j: int| xs[j]->String_0));
        Some(out)
    }

    fn compile_missing(args: &JsonValue) -> (res: Result<CompiledLogic, Option<String>>)
        ensures
            outcome(res) == spec_missing(args@),
    {
        match args {
            JsonValue::Array(arr) => match Self::collect_strings(arr) {
                Some(keys) => Ok(CompiledLogic::Missing(keys)),
                None => Err(err_text("missing key must be string")),
            },
            JsonValue::String(s) => {
                let keys = vec![copy_string(s)];
                assert(string_views(keys@) =~= seq![s@]);
                Ok(CompiledLogic::Missing(keys))
            },
            _ => Err(err_text("missing requires string or array")),
        }
    }

    fn compile_missing_some(args: &JsonValue) -> (res: Result<CompiledLogic, Option<String>>)
        ensures
            outcome(res) == spec_missing_some(args@),
        decreases weight(args@), 3nat, 0nat,
    {
        match args {
            JsonValue::Array(arr) => {
                if arr.len() < 2 {
                    return Err(err_text("missing_some requires at least 2 arguments"));
                }
                proof {
                    lemma_weight_elem(json_views(arr@), 0);
                }
                let minimum = Self::compile_node(&arr[0])?;
                match &arr[1] {
                    JsonValue::Array(ks) => match Self::collect_strings(ks) {
                        Some(keys) => Ok(CompiledLogic::MissingSome(Box::new(minimum), keys)),
                        None => Err(err_text("key must be string")),
                    },
                    _ => Err(err_text("missing_some keys must be array")),
                }
            },
            _ => Err(err_text("missing_some requires array")),
        }
    }

    #[verifier::rlimit(60)]
    fn compile_sum(args: &JsonValue) -> (res: Result<CompiledLogic, Option<String>>)
        ensures
            outcome(res) == spec_sum(args@),
        decreases weight(args@), 3nat, 0nat,
    {
        match args {
            JsonValue::Array(arr) => {
                if arr.len() == 0 {
                    return Err(err_text("sum requires at least 1 argument"));
                }
                if arr.len() > 2 {
                    let mut ls = Self::compile_picks(arr, vec![1usize, 2usize, 0usize])?;
                    proof {
                        lemma_picks_len(json_views(arr@), seq![1usize, 2usize, 0usize]);
                    }
                    let ghost vs = logic_views(ls@);
                    let a = ls.pop().unwrap();
                    let t = ls.pop().unwrap();
                    let f = ls.pop().unwrap();
                    assert(f@ == vs[0] && t@ == vs[1] && a@ == vs[2]);
                    Ok(build_sum(a, boxed(f), boxed(t)))
                } else if arr.len() == 2 {
                    let mut ls = Self::compile_picks(arr, vec![1usize, 0usize])?;
                    proof {
                        lemma_picks_len(json_views(arr@), seq![1usize, 0usize]);
                    }
                    let ghost vs = logic_views(ls@);
                    let a = ls.pop().unwrap();
                    let f = ls.pop().unwrap();
                    assert(f@ == vs[0] && a@ == vs[1]);
                    Ok(build_sum(a, boxed(f), None))
                } else {
                    let mut ls = Self::compile_picks(arr, single_index(0))?;
                    proof {
                        lemma_picks_len(json_views(arr@), seq![0usize]);
                    }
                    let ghost vs = logic_views(ls@);
                    let a = ls.pop().unwrap();
                    assert(a@ == vs[0]);
                    Ok(build_sum(a, None, None))
                }
            },
            _ => {
                let a = Self::compile_node(args)?;
                Ok(build_sum(a, None, None))
            },
        }
    }

    fn compile_index_at(args: &JsonValue) -> (res: Result<CompiledLogic, Option<String>>)
        ensures
            outcome(res) == spec_index_at(args@),
        decreases weight(args@), 3nat, 0nat,
    {
        match args {
            JsonValue::Array(arr) => {
                if arr.len() < 3 {
                    return Err(err_text("INDEXAT requires at least 3 arguments"));
                }
                if arr.len() > 3 {
                    let mut ls = Self::compile_picks(arr, vec![3usize, 0usize, 1usize, 2usize])?;
                    proof {
                        lemma_picks_len(json_views(arr@), seq![3usize, 0usize, 1usize, 2usize]);
                    }
                    let ghost vs = logic_views(ls@);
                    let c = ls.pop().unwrap();
                    let b = ls.pop().unwrap();
                    let a = ls.pop().unwrap();
                    let r = ls.pop().unwrap();
                    assert(r@ == vs[0] && a@ == vs[1] && b@ == vs[2] && c@ == vs[3]);
                    Ok(build_index_at(a, b, c, boxed(r)))
                } else {
                    let mut ls = Self::compile_picks(arr, vec![0usize, 1usize, 2usize])?;
                    proof {
                        lemma_picks_len(json_views(arr@), seq![0usize, 1usize, 2usize]);
                    }
                    let ghost vs = logic_views(ls@);
                    let c = ls.pop().unwrap();
                    let b = ls.pop().unwrap();
                    let a = ls.pop().unwrap();
                    assert(a@ == vs[0] && b@ == vs[1] && c@ == vs[2]);
                    Ok(build_index_at(a, b, c, None))
                }
            },
            _ => Err(err_text("INDEXAT requires array")),
        }
    }

    fn compile_table(tag: Tag, args: &JsonValue, m1: &str, m2: &str) -> (res: Result<
        CompiledLogic,
        Option<String>,
    >)
        requires
            is_k1l_tag(tag),
        ensures
            outcome(res) == spec_table(tag, args@, m1@, m2@),
        decreases weight(args@), 3nat, 0nat,
    {
        match args {
            JsonValue::Array(arr) => {
                if arr.len() == 0 {
                    return Err(err_text(m2));
                }
                proof {
                    lemma_weight_elem(json_views(arr@), 0);
                    lemma_weight_suffix(json_views(arr@), 1);
                }
                let t = Self::compile_node(&arr[0])?;
                let conds = Self::compile_items(arr, 1)?;
                Ok(build_k1l(tag, t, conds))
            },
            _ => Err(err_text(m1)),
        }
    }

    fn compile_find_index(args: &JsonValue) -> (res: Result<CompiledLogic, Option<String>>)
        ensures
            outcome(res) == spec_find_index(args@),
        decreases weight(args@), 3nat, 0nat,
    {
        match args {
            JsonValue::Array(arr) => {
                if arr.len() < 2 {
                    return Err(err_text("FINDINDEX requires at least 2 arguments"));
                }
                proof {
                    lemma_weight_elem(json_views(arr@), 0);
                    lemma_weight_suffix(json_views(arr@), 1);
                    lemma_preprocess_seq_weight(json_views(arr@).subrange(1, arr@.len() as int));
                    lemma_json_views_subrange(arr@, 1, arr@.len() as int);
                }
                let t = Self::compile_node(&arr[0])?;
                let pre = Self::preprocess_range(arr, 1);
                proof {
                    lemma_json_views_subrange(pre@, 0, pre@.len() as int);
                    assert(pre@.subrange(0, pre@.len() as int) =~= pre@);
                }
                let conds = Self::compile_items(&pre, 0)?;
                Ok(CompiledLogic::FindIndex(Box::new(t), conds))
            },
            _ => Err(err_text("FINDINDEX requires array")),
        }
    }

    fn compile_map_options_if(args: &JsonValue) -> (res: Result<CompiledLogic, Option<String>>)
        ensures
            outcome(res) == spec_map_options_if(args@),
        decreases weight(args@), 3nat, 0nat,
    {
        match args {
            JsonValue::Array(arr) => {
                if arr.len() < 4 {
                    return Err(err_text("MAPOPTIONSIF requires at least 4 arguments"));
                }
                let mut ls = Self::compile_picks(arr, vec![0usize, 1usize, 2usize])?;
                proof {
                    lemma_picks_len(json_views(arr@), seq![0usize, 1usize, 2usize]);
                    lemma_weight_suffix(json_views(arr@), 3);
                }
                let ghost vs = logic_views(ls@);
                let c = ls.pop().unwrap();
                let b = ls.pop().unwrap();
                let a = ls.pop().unwrap();
                assert(a@ == vs[0] && b@ == vs[1] && c@ == vs[2]);
                let conds = Self::compile_option_conditions(arr)?;
                Ok(build_map_options_if(a, b, c, conds))
            },
            _ => Err(err_text("MAPOPTIONSIF requires array")),
        }
    }

    /// The conditions of `MAPOPTIONSIF`, from `arr[3..]` (see `option_conditions`).
    fn compile_option_conditions(arr: &Vec<JsonValue>) -> (res: Result<Vec<CompiledLogic>, Option<String>>)
        requires
            arr@.len() >= 3,
        ensures
            outcome_list(res) == option_conditions(json_views(arr@).subrange(3, arr@.len() as int)),
        decreases weight_seq(json_views(arr@).subrange(3, arr@.len() as int)), 2nat, 0nat,
    {
        let ghost xs = json_views(arr@);
        let ghost whole = xs.subrange(3, arr@.len() as int);
        let mut out: Vec<CompiledLogic> = Vec::new();
        let mut i: usize = 3;
        proof {
            lemma_prepend_empty(option_conditions(whole));
        }
        while arr.len() - i > 2
            invariant
                3 <= i <= arr@.len(),
                xs == json_views(arr@),
                whole == xs.subrange(3, arr@.len() as int),
                option_conditions(whole) == prepend(
                    logic_views(out@),
                    option_conditions(xs.subrange(i as int, arr@.len() as int)),
                ),
            decreases arr@.len() - i,
        {
            let ghost cur = xs.subrange(i as int, arr@.len() as int);
            proof {
                assert(cur[0] == arr@[i as int]@);
                assert(cur[1] == arr@[i + 1]@);
                assert(cur[2] == arr@[i + 2]@);
                assert(cur.subrange(3, cur.len() as int) =~= xs.subrange(i + 3, arr@.len() as int));
                lemma_weight_suffix(whole, i - 3);
                assert(whole.subrange(i - 3, whole.len() as int) =~= cur);
            }
            match &arr[i + 1] {
                JsonValue::String(op) => {
                    proof {
                        lemma_triplet_weight(cur);
                    }
                    let field_var = match &arr[i + 2] {
                        JsonValue::String(f) => var_json(f),
                        other => other.deep_clone(),
                    };
                    let inner = pair_json(arr[i].deep_clone(), field_var);
                    let comparison = single_entry_json(copy_string(op), inner);
                    assert(comparison@ == triplet_comparison(cur[0], op@, cur[2]));
                    let c = match Self::compile_node(&comparison) {
                        Ok(c) => c,
                        Err(m) => {
                            return Err(m);
                        },
                    };
                    let ghost prev = out@;
                    out.push(c);
                    proof {
                        lemma_logic_views_push(prev, c);
                        lemma_prepend_push(
                            logic_views(prev),
                            c@,
                            option_conditions(xs.subrange(i + 3, arr@.len() as int)),
                        );
                    }
                },
                _ => {},
            }
            i = i + 3;
        }
        let ghost cur = xs.subrange(i as int, arr@.len() as int);
        proof {
            lemma_weight_suffix(whole, i - 3);
            assert(whole.subrange(i - 3, whole.len() as int) =~= cur);
            lemma_preprocess_seq_weight(cur);
            lemma_json_views_subrange(arr@, i as int, arr@.len() as int);
        }
        let pre = Self::preprocess_range(arr, i);
        proof {
            lemma_json_views_subrange(pre@, 0, pre@.len() as int);
            assert(pre@.subrange(0, pre@.len() as int) =~= pre@);
        }
        let mut rest = Self::compile_items(&pre, 0)?;
        let ghost before = logic_views(out@);
        let ghost rv = logic_views(rest@);
        out.append(&mut rest);
        proof {
            assert(logic_views(out@) =~= before + rv);
        }
        Ok(out)
    }

    /// Flatten nested `tag` lists into one operand list (see `flatten_spec`).
    #[verifier::spinoff_prover]
    fn flatten(tag: Tag, items: Vec<CompiledLogic>) -> (res: Vec<CompiledLogic>)
        requires
            is_flat_tag(tag),
        ensures
            logic_views(res@) == flatten_spec(tag, logic_views(items@)),
        decreases list_size(logic_views(items@)),
    {
        if items.len() == 0 {
            return Vec::new();
        }
        let ghost iv = logic_views(items@);
        let mut rest = items;
        let first = rest.remove(0);
        proof {
            assert(iv[0] == first@);
            assert(logic_views(rest@) =~= iv.subrange(1, iv.len() as int));
            assert(list_size(iv) == node_size(first@) + 1 + list_size(logic_views(rest@)));
        }
        let ghost fv = first@;
        let mut head = match take_list_operands(tag, first) {
            Ok(sub) => {
                proof {
                    assert(fv == LogicView::Op(tag, seq![], logic_views(sub@)));
                    assert(node_size(fv) == 1 + list_size(logic_views(sub@)));
                }
                Self::flatten(tag, sub)
            },
            Err(e) => {
                let mut v: Vec<CompiledLogic> = Vec::new();
                v.push(e);
                assert(logic_views(v@) =~= seq![fv]);
                v
            },
        };
        let mut tail = Self::flatten(tag, rest);
        let ghost hv = logic_views(head@);
        let ghost tv = logic_views(tail@);
        head.append(&mut tail);
        proof {
            assert(logic_views(head@) =~= hv + tv);
        }
        head
    }

    fn compile_operator(op: &str, args: &JsonValue) -> (res: Result<CompiledLogic, Option<String>>)
        ensures
            outcome(res) == compile_operator_spec(op@, args@),
        decreases weight(args@), 5nat, 0nat,
    {
        if in_op_group_0(op) {
            Self::compile_group_0(op, args)
        }         else if in_op_group_1(op) {
            Self::compile_group_1(op, args)
        }         else if in_op_group_2(op) {
            Self::compile_group_2(op, args)
        }         else if in_op_group_3(op) {
            Self::compile_group_3(op, args)
        }         else if in_op_group_4(op) {
            Self::compile_group_4(op, args)
        }         else if in_op_group_5(op) {
            Self::compile_group_5(op, args)
        }         else if in_op_group_6(op) {
            Self::compile_group_6(op, args)
        }         else if in_op_group_7(op) {
            Self::compile_group_7(op, args)
        }         else if in_op_group_8(op) {
            Self::compile_group_8(op, args)
        }         else if in_op_group_9(op) {
            Self::compile_group_9(op, args)
        } else {
            let mut m = String::from_str("Unknown operator: ");
            m.append(op);
            Err(Some(m))
        }
    }
}

fn build_sum(a: CompiledLogic, f: Option<Box<CompiledLogic>>, t: Option<Box<CompiledLogic>>) -> (res:
    CompiledLogic)
    ensures
        res@ == LogicView::Op(Tag::Sum, seq![Some(a@), opt_logic_view(f), opt_logic_view(t)], seq![]),
{
    CompiledLogic::Sum(Box::new(a), f, t)
}

fn build_index_at(
    a: CompiledLogic,
    b: CompiledLogic,
    c: CompiledLogic,
    r: Option<Box<CompiledLogic>>,
) -> (res: CompiledLogic)
    ensures
        res@ == LogicView::Op(
            Tag::IndexAt,
            seq![Some(a@), Some(b@), Some(c@), opt_logic_view(r)],
            seq![],
        ),
{
    CompiledLogic::IndexAt(Box::new(a), Box::new(b), Box::new(c), r)
}

fn build_map_options_if(
    a: CompiledLogic,
    b: CompiledLogic,
    c: CompiledLogic,
    v: Vec<CompiledLogic>,
) -> (res: CompiledLogic)
    ensures
        res@ == LogicView::Op(Tag::MapOptionsIf, seq![Some(a@), Some(b@), Some(c@)], logic_views(v@)),
{
    CompiledLogic::MapOptionsIf(Box::new(a), Box::new(b), Box::new(c), v)
}

fn boxed(a: CompiledLogic) -> (res: Option<Box<CompiledLogic>>)
    ensures
        opt_logic_view(res) == Some(a@),
{
    Some(Box::new(a))
}

/// `Var` or `Ref` with a path and optional default.
fn make_path(is_var: bool, p: String, d: Option<Box<CompiledLogic>>) -> (res: CompiledLogic)
    ensures
        res@ == path_logic(is_var, p@, opt_box_view(d)),
{
    if is_var {
        CompiledLogic::Var(p, d)
    } else {
        CompiledLogic::Ref(p, d)
    }
}

/// The operands of `elem` when it is a `tag` list, or `elem` itself otherwise.
#[verifier::rlimit(40)]
fn take_list_operands(tag: Tag, elem: CompiledLogic) -> (res: Result<Vec<CompiledLogic>, CompiledLogic>)
    requires
        is_flat_tag(tag),
    ensures
        match res {
            Ok(v) => is_list_of(elem@, tag) && elem@ == LogicView::Op(tag, seq![], logic_views(v@))
                && decreases_to!(elem => v),
            Err(e) => e == elem && !is_list_of(elem@, tag),
        },
{
    match elem {
        CompiledLogic::And(v) => {
            if tag == Tag::And {
                proof {
                    assert(elem->And_0 == v);
                    assert(decreases_to!(elem => elem->And_0));
                }
                Ok(v)
            } else {
                Err(CompiledLogic::And(v))
            }
        },
        CompiledLogic::Or(v) => {
            if tag == Tag::Or {
                proof {
                    assert(elem->Or_0 == v);
                    assert(decreases_to!(elem => elem->Or_0));
                }
                Ok(v)
            } else {
                Err(CompiledLogic::Or(v))
            }
        },
        CompiledLogic::Add(v) => {
            if tag == Tag::Add {
                proof {
                    assert(elem->Add_0 == v);
                    assert(decreases_to!(elem => elem->Add_0));
                }
                Ok(v)
            } else {
                Err(CompiledLogic::Add(v))
            }
        },
        CompiledLogic::Multiply(v) => {
            if tag == Tag::Multiply {
                proof {
                    assert(elem->Multiply_0 == v);
                    assert(decreases_to!(elem => elem->Multiply_0));
                }
                Ok(v)
            } else {
                Err(CompiledLogic::Multiply(v))
            }
        },
        CompiledLogic::Cat(v) => {
            if tag == Tag::Cat {
                proof {
                    assert(elem->Cat_0 == v);
                    assert(decreases_to!(elem => elem->Cat_0));
                }
                Ok(v)
            } else {
                Err(CompiledLogic::Cat(v))
            }
        },
        other => Err(other),
    }
}

/// The number of list nodes in a compiled expression's operand lists (a measure for flattening).
pub open spec fn node_size(l: LogicView) -> nat
    decreases l,
{
    match l {
        LogicView::Op(_, _, items) => 1 + list_size(items),
        _ => 0,
    }
}

pub open spec fn list_size(s: Seq<LogicView>) -> nat
    decreases s,
{
    if s.len() == 0 {
        0
    } else {
        node_size(s[0]) + 1 + list_size(s.subrange(1, s.len() as int))
    }
}

pub open spec fn is_flat_tag(tag: Tag) -> bool {
    tag == Tag::And || tag == Tag::Or || tag == Tag::Add || tag == Tag::Multiply || tag == Tag::Cat
}
fn in_op_group_0(op: &str) -> (res: bool)
    ensures
        res == op_group_0(op@),
{
    str_eq(op, "and") || str_eq(op, "or") || str_eq(op, "!") || str_eq(op, "not") || str_eq(op, "if") || str_eq(op, "==") || str_eq(op, "===") || str_eq(op, "!=") || str_eq(op, "!==")
}

impl CompiledLogic {
    #[verifier::spinoff_prover]
    fn compile_group_0(op: &str, args: &JsonValue) -> (res: Result<CompiledLogic, Option<String>>)
        ensures
            outcome(res) == compile_group_0_spec(op@, args@),
        decreases weight(args@), 4nat, 0nat,
    {
        if str_eq(op, "and") {
            Self::compile_list(Tag::And, args, "and requires array", true)
        }         else if str_eq(op, "or") {
            Self::compile_list(Tag::Or, args, "or requires array", true)
        }         else if str_eq(op, "!") || str_eq(op, "not") {
            Self::compile_not(args)
        }         else if str_eq(op, "if") {
            Self::compile_ternary(Tag::If, args, "if requires array", "if requires at least 3 arguments")
        }         else if str_eq(op, "==") {
            Self::compile_binary(Tag::Equal, args)
        }         else if str_eq(op, "===") {
            Self::compile_binary(Tag::StrictEqual, args)
        }         else if str_eq(op, "!=") {
            Self::compile_binary(Tag::NotEqual, args)
        }         else if str_eq(op, "!==") {
            Self::compile_binary(Tag::StrictNotEqual, args)
        } else {
            let mut m = String::from_str("Unknown operator: ");
            m.append(op);
            Err(Some(m))
        }
    }
}

fn in_op_group_1(op: &str) -> (res: bool)
    ensures
        res == op_group_1(op@),
{
    str_eq(op, "<") || str_eq(op, "<=") || str_eq(op, ">") || str_eq(op, ">=") || str_eq(op, "+") || str_eq(op, "-") || str_eq(op, "*") || str_eq(op, "/")
}

impl CompiledLogic {
    #[verifier::spinoff_prover]
    fn compile_group_1(op: &str, args: &JsonValue) -> (res: Result<CompiledLogic, Option<String>>)
        ensures
            outcome(res) == compile_group_1_spec(op@, args@),
        decreases weight(args@), 4nat, 0nat,
    {
        if str_eq(op, "<") {
            Self::compile_binary(Tag::LessThan, args)
        }         else if str_eq(op, "<=") {
            Self::compile_binary(Tag::LessThanOrEqual, args)
        }         else if str_eq(op, ">") {
            Self::compile_binary(Tag::GreaterThan, args)
        }         else if str_eq(op, ">=") {
            Self::compile_binary(Tag::GreaterThanOrEqual, args)
        }         else if str_eq(op, "+") {
            Self::compile_list(Tag::Add, args, "+ requires array", true)
        }         else if str_eq(op, "-") {
            Self::compile_list(Tag::Subtract, args, "- requires array", false)
        }         else if str_eq(op, "*") {
            Self::compile_list(Tag::Multiply, args, "* requires array", true)
        }         else if str_eq(op, "/") {
            Self::compile_list(Tag::Divide, args, "/ requires array", false)
        } else {
            let mut m = String::from_str("Unknown operator: ");
            m.append(op);
            Err(Some(m))
        }
    }
}

fn in_op_group_2(op: &str) -> (res: bool)
    ensures
        res == op_group_2(op@),
{
    str_eq(op, "%") || str_eq(op, "^") || str_eq(op, "map") || str_eq(op, "filter") || str_eq(op, "reduce") || str_eq(op, "all") || str_eq(op, "some") || str_eq(op, "none")
}

impl CompiledLogic {
    #[verifier::spinoff_prover]
    fn compile_group_2(op: &str, args: &JsonValue) -> (res: Result<CompiledLogic, Option<String>>)
        ensures
            outcome(res) == compile_group_2_spec(op@, args@),
        decreases weight(args@), 4nat, 0nat,
    {
        if str_eq(op, "%") {
            Self::compile_binary(Tag::Modulo, args)
        }         else if str_eq(op, "^") {
            Self::compile_binary(Tag::Power, args)
        }         else if str_eq(op, "map") {
            Self::compile_binary(Tag::MapEach, args)
        }         else if str_eq(op, "filter") {
            Self::compile_binary(Tag::Filter, args)
        }         else if str_eq(op, "reduce") {
            Self::compile_ternary(Tag::Reduce, args, "reduce requires array", "reduce requires 3 arguments")
        }         else if str_eq(op, "all") {
            Self::compile_binary(Tag::All, args)
        }         else if str_eq(op, "some") {
            Self::compile_binary(Tag::SomeOf, args)
        }         else if str_eq(op, "none") {
            Self::compile_binary(Tag::NoneOf, args)
        } else {
            let mut m = String::from_str("Unknown operator: ");
            m.append(op);
            Err(Some(m))
        }
    }
}

fn in_op_group_3(op: &str) -> (res: bool)
    ensures
        res == op_group_3(op@),
{
    str_eq(op, "merge") || str_eq(op, "in") || str_eq(op, "cat") || str_eq(op, "substr") || str_eq(op, "missing") || str_eq(op, "missing_some") || str_eq(op, "abs") || str_eq(op, "max")
}

impl CompiledLogic {
    #[verifier::spinoff_prover]
    fn compile_group_3(op: &str, args: &JsonValue) -> (res: Result<CompiledLogic, Option<String>>)
        ensures
            outcome(res) == compile_group_3_spec(op@, args@),
        decreases weight(args@), 4nat, 0nat,
    {
        if str_eq(op, "merge") {
            Self::compile_list(Tag::Merge, args, "merge requires array", false)
        }         else if str_eq(op, "in") {
            Self::compile_binary(Tag::In, args)
        }         else if str_eq(op, "cat") {
            Self::compile_list(Tag::Cat, args, "cat requires array", true)
        }         else if str_eq(op, "substr") {
            Self::compile_opt_third(Tag::Substr, args, "substr requires array", "substr requires at least 2 arguments")
        }         else if str_eq(op, "missing") {
            Self::compile_missing(args)
        }         else if str_eq(op, "missing_some") {
            Self::compile_missing_some(args)
        }         else if str_eq(op, "abs") {
            Self::compile_unary(Tag::Abs, args)
        }         else if str_eq(op, "max") {
            Self::compile_list(Tag::Max, args, "max requires array", false)
        } else {
            let mut m = String::from_str("Unknown operator: ");
            m.append(op);
            Err(Some(m))
        }
    }
}

fn in_op_group_4(op: &str) -> (res: bool)
    ensures
        res == op_group_4(op@),
{
    str_eq(op, "min") || str_eq(op, "pow") || str_eq(op, "**") || str_eq(op, "round") || str_eq(op, "ROUND") || str_eq(op, "roundup") || str_eq(op, "ROUNDUP") || str_eq(op, "rounddown") || str_eq(op, "ROUNDDOWN") || str_eq(op, "length") || str_eq(op, "len") || str_eq(op, "LEN") || str_eq(op, "search") || str_eq(op, "SEARCH")
}

impl CompiledLogic {
    #[verifier::spinoff_prover]
    fn compile_group_4(op: &str, args: &JsonValue) -> (res: Result<CompiledLogic, Option<String>>)
        ensures
            outcome(res) == compile_group_4_spec(op@, args@),
        decreases weight(args@), 4nat, 0nat,
    {
        if str_eq(op, "min") {
            Self::compile_list(Tag::Min, args, "min requires array", false)
        }         else if str_eq(op, "pow") || str_eq(op, "**") {
            Self::compile_binary(Tag::Pow, args)
        }         else if str_eq(op, "round") || str_eq(op, "ROUND") {
            Self::compile_unary(Tag::Round, args)
        }         else if str_eq(op, "roundup") || str_eq(op, "ROUNDUP") {
            Self::compile_unary(Tag::RoundUp, args)
        }         else if str_eq(op, "rounddown") || str_eq(op, "ROUNDDOWN") {
            Self::compile_unary(Tag::RoundDown, args)
        }         else if str_eq(op, "length") {
            Self::compile_unary(Tag::Length, args)
        }         else if str_eq(op, "len") || str_eq(op, "LEN") {
            Self::compile_unary(Tag::Len, args)
        }         else if str_eq(op, "search") || str_eq(op, "SEARCH") {
            Self::compile_opt_third(Tag::Search, args, "search requires array", "search requires at least 2 arguments")
        } else {
            let mut m = String::from_str("Unknown operator: ");
            m.append(op);
            Err(Some(m))
        }
    }
}

fn in_op_group_5(op: &str) -> (res: bool)
    ensures
        res == op_group_5(op@),
{
    str_eq(op, "left") || str_eq(op, "LEFT") || str_eq(op, "right") || str_eq(op, "RIGHT") || str_eq(op, "mid") || str_eq(op, "MID") || str_eq(op, "splittext") || str_eq(op, "SPLITTEXT") || str_eq(op, "concat") || str_eq(op, "CONCAT") || str_eq(op, "splitvalue") || str_eq(op, "SPLITVALUE") || str_eq(op, "xor") || str_eq(op, "ifnull") || str_eq(op, "IFNULL")
}

impl CompiledLogic {
    #[verifier::spinoff_prover]
    fn compile_group_5(op: &str, args: &JsonValue) -> (res: Result<CompiledLogic, Option<String>>)
        ensures
            outcome(res) == compile_group_5_spec(op@, args@),
        decreases weight(args@), 4nat, 0nat,
    {
        if str_eq(op, "left") || str_eq(op, "LEFT") {
            Self::compile_left_right(Tag::Left, args)
        }         else if str_eq(op, "right") || str_eq(op, "RIGHT") {
            Self::compile_left_right(Tag::Right, args)
        }         else if str_eq(op, "mid") || str_eq(op, "MID") {
            Self::compile_ternary(Tag::Mid, args, "mid requires array", "mid requires 3 arguments")
        }         else if str_eq(op, "splittext") || str_eq(op, "SPLITTEXT") {
            Self::compile_opt_third(Tag::SplitText, args, "splittext requires array", "splittext requires at least 2 arguments")
        }         else if str_eq(op, "concat") || str_eq(op, "CONCAT") {
            Self::compile_list(Tag::Concat, args, "concat requires array", false)
        }         else if str_eq(op, "splitvalue") || str_eq(op, "SPLITVALUE") {
            Self::compile_binary(Tag::SplitValue, args)
        }         else if str_eq(op, "xor") {
            Self::compile_binary(Tag::Xor, args)
        }         else if str_eq(op, "ifnull") || str_eq(op, "IFNULL") {
            Self::compile_binary(Tag::IfNull, args)
        } else {
            let mut m = String::from_str("Unknown operator: ");
            m.append(op);
            Err(Some(m))
        }
    }
}

fn in_op_group_6(op: &str) -> (res: bool)
    ensures
        res == op_group_6(op@),
{
    str_eq(op, "isempty") || str_eq(op, "ISEMPTY") || str_eq(op, "empty") || str_eq(op, "EMPTY") || str_eq(op, "today") || str_eq(op, "TODAY") || str_eq(op, "now") || str_eq(op, "NOW") || str_eq(op, "days") || str_eq(op, "DAYS") || str_eq(op, "year") || str_eq(op, "YEAR") || str_eq(op, "month") || str_eq(op, "MONTH") || str_eq(op, "day") || str_eq(op, "DAY")
}

impl CompiledLogic {
    #[verifier::spinoff_prover]
    fn compile_group_6(op: &str, args: &JsonValue) -> (res: Result<CompiledLogic, Option<String>>)
        ensures
            outcome(res) == compile_group_6_spec(op@, args@),
        decreases weight(args@), 4nat, 0nat,
    {
        if str_eq(op, "isempty") || str_eq(op, "ISEMPTY") {
            Self::compile_unary(Tag::IsEmpty, args)
        }         else if str_eq(op, "empty") || str_eq(op, "EMPTY") {
            Ok(build_k0(Tag::Empty))
        }         else if str_eq(op, "today") || str_eq(op, "TODAY") {
            Ok(build_k0(Tag::Today))
        }         else if str_eq(op, "now") || str_eq(op, "NOW") {
            Ok(build_k0(Tag::Now))
        }         else if str_eq(op, "days") || str_eq(op, "DAYS") {
            Self::compile_binary(Tag::Days, args)
        }         else if str_eq(op, "year") || str_eq(op, "YEAR") {
            Self::compile_unary(Tag::Year, args)
        }         else if str_eq(op, "month") || str_eq(op, "MONTH") {
            Self::compile_unary(Tag::Month, args)
        }         else if str_eq(op, "day") || str_eq(op, "DAY") {
            Self::compile_unary(Tag::Day, args)
        } else {
            let mut m = String::from_str("Unknown operator: ");
            m.append(op);
            Err(Some(m))
        }
    }
}

fn in_op_group_7(op: &str) -> (res: bool)
    ensures
        res == op_group_7(op@),
{
    str_eq(op, "date") || str_eq(op, "DATE") || str_eq(op, "sum") || str_eq(op, "SUM") || str_eq(op, "FOR") || str_eq(op, "VALUEAT") || str_eq(op, "MAXAT") || str_eq(op, "INDEXAT") || str_eq(op, "MATCH") || str_eq(op, "MATCHRANGE")
}

impl CompiledLogic {
    #[verifier::spinoff_prover]
    fn compile_group_7(op: &str, args: &JsonValue) -> (res: Result<CompiledLogic, Option<String>>)
        ensures
            outcome(res) == compile_group_7_spec(op@, args@),
        decreases weight(args@), 4nat, 0nat,
    {
        if str_eq(op, "date") || str_eq(op, "DATE") {
            Self::compile_ternary(Tag::Date, args, "date requires array", "date requires 3 arguments")
        }         else if str_eq(op, "sum") || str_eq(op, "SUM") {
            Self::compile_sum(args)
        }         else if str_eq(op, "FOR") {
            Self::compile_ternary(Tag::For, args, "FOR requires array", "FOR requires 3 arguments: start, end, logic")
        }         else if str_eq(op, "VALUEAT") {
            Self::compile_opt_third(Tag::ValueAt, args, "VALUEAT requires array", "VALUEAT requires at least 2 arguments")
        }         else if str_eq(op, "MAXAT") {
            Self::compile_binary(Tag::MaxAt, args)
        }         else if str_eq(op, "INDEXAT") {
            Self::compile_index_at(args)
        }         else if str_eq(op, "MATCH") {
            Self::compile_table(Tag::Match, args, "MATCH requires array", "MATCH requires at least 1 argument")
        }         else if str_eq(op, "MATCHRANGE") {
            Self::compile_table(Tag::MatchRange, args, "MATCHRANGE requires array", "MATCHRANGE requires at least 1 argument")
        } else {
            let mut m = String::from_str("Unknown operator: ");
            m.append(op);
            Err(Some(m))
        }
    }
}

fn in_op_group_8(op: &str) -> (res: bool)
    ensures
        res == op_group_8(op@),
{
    str_eq(op, "CHOOSE") || str_eq(op, "FINDINDEX") || str_eq(op, "MULTIPLIES") || str_eq(op, "DIVIDES") || str_eq(op, "YEARFRAC") || str_eq(op, "DATEDIF") || str_eq(op, "RANGEOPTIONS") || str_eq(op, "MAPOPTIONS")
}

impl CompiledLogic {
    #[verifier::spinoff_prover]
    fn compile_group_8(op: &str, args: &JsonValue) -> (res: Result<CompiledLogic, Option<String>>)
        ensures
            outcome(res) == compile_group_8_spec(op@, args@),
        decreases weight(args@), 4nat, 0nat,
    {
        if str_eq(op, "CHOOSE") {
            Self::compile_table(Tag::Choose, args, "CHOOSE requires array", "CHOOSE requires at least 1 argument")
        }         else if str_eq(op, "FINDINDEX") {
            Self::compile_find_index(args)
        }         else if str_eq(op, "MULTIPLIES") {
            Self::compile_list(Tag::Multiplies, args, "MULTIPLIES requires array", false)
        }         else if str_eq(op, "DIVIDES") {
            Self::compile_list(Tag::Divides, args, "DIVIDES requires array", false)
        }         else if str_eq(op, "YEARFRAC") {
            Self::compile_opt_third(Tag::YearFrac, args, "YEARFRAC requires array", "YEARFRAC requires at least 2 arguments")
        }         else if str_eq(op, "DATEDIF") {
            Self::compile_ternary(Tag::DateDif, args, "DATEDIF requires array", "DATEDIF requires 3 arguments")
        }         else if str_eq(op, "RANGEOPTIONS") {
            Self::compile_binary(Tag::RangeOptions, args)
        }         else if str_eq(op, "MAPOPTIONS") {
            Self::compile_ternary(Tag::MapOptions, args, "MAPOPTIONS requires array", "MAPOPTIONS requires 3 arguments")
        } else {
            let mut m = String::from_str("Unknown operator: ");
            m.append(op);
            Err(Some(m))
        }
    }
}

fn in_op_group_9(op: &str) -> (res: bool)
    ensures
        res == op_group_9(op@),
{
    str_eq(op, "MAPOPTIONSIF") || str_eq(op, "return")
}

impl CompiledLogic {
    #[verifier::spinoff_prover]
    fn compile_group_9(op: &str, args: &JsonValue) -> (res: Result<CompiledLogic, Option<String>>)
        ensures
            outcome(res) == compile_group_9_spec(op@, args@),
        decreases weight(args@), 4nat, 0nat,
    {
        if str_eq(op, "MAPOPTIONSIF") {
            Self::compile_map_options_if(args)
        }         else if str_eq(op, "return") {
            Ok(CompiledLogic::Return(Box::new(args.deep_clone())))
        } else {
            let mut m = String::from_str("Unknown operator: ");
            m.append(op);
            Err(Some(m))
        }
    }
}

} // verus!
