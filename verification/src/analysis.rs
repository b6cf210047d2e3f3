use vstd::prelude::*;
use crate::compiled::{CompiledLogic, LogicView, Tag, logic_views, opt_logic_view, opt_box_view, string_views};
use crate::paths::{dotted_ref_path, ref_path_to_dotted, dotted_var_name, var_name_to_dotted};
use crate::text::{copy_string, str_eq, str_less, lex_less};

verus! {

// ---------------------------------------------------------------------------
// The variables a compiled expression reads.

/// The variables of an optional default value.
pub open spec fn default_vars(d: Option<Box<LogicView>>) -> Seq<Seq<char>>
    decreases d,
{
    match d {
        Some(b) => vars_of(*b),
        None => seq![],
    }
}

/// The variables of one operand slot.
pub open spec fn slot_vars(o: Option<LogicView>) -> Seq<Seq<char>>
    decreases o,
{
    match o {
        Some(k) => vars_of(k),
        None => seq![],
    }
}

/// The variables of the operand slots of a `tag` node, in slot order; the row
/// index of `VALUEAT` is not visited.
pub open spec fn kids_vars(tag: Tag, kids: Seq<Option<LogicView>>) -> Seq<Seq<char>>
    decreases kids,
{
    (if kids.len() > 0 { slot_vars(kids[0]) } else { seq![] })
        + (if kids.len() > 1 && tag != Tag::ValueAt { slot_vars(kids[1]) } else { seq![] })
        + (if kids.len() > 2 { slot_vars(kids[2]) } else { seq![] })
        + (if kids.len() > 3 { slot_vars(kids[3]) } else { seq![] })
}

/// The variables of an operand list, in order.
pub open spec fn list_vars(items: Seq<LogicView>) -> Seq<Seq<char>>
    decreases items,
{
    if items.len() == 0 {
        seq![]
    } else {
        list_vars(items.subrange(0, items.len() - 1)) + vars_of(items[items.len() - 1])
    }
}

/// The variables an expression reads, in traversal order and with repeats: the
/// dotted form of a `var` name, the dotted form of a `$ref` path, then those of its default; the
/// operands of every other node in order.
pub open spec fn vars_of(l: LogicView) -> Seq<Seq<char>>
    decreases l,
{
    match l {
        LogicView::Var(n, d) => seq![dotted_var_name(n)] + default_vars(d),
        LogicView::Ref(p, d) => seq![dotted_ref_path(p)] + default_vars(d),
        LogicView::MissingSome(m, _) => vars_of(*m),
        LogicView::Op(tag, kids, items) => kids_vars(tag, kids) + list_vars(items),
        _ => seq![],
    }
}

/// `s` is in strictly increasing order (so it holds nothing twice).
pub open spec fn strictly_sorted(s: Seq<Seq<char>>) -> bool {
    forall|i: int, j: int| 0 <= i < j < s.len() ==> lex_less(#[trigger] s[i], #[trigger] s[j])
}

proof fn lemma_vars_op(tag: Tag, kids: Seq<Option<LogicView>>, items: Seq<LogicView>)
    ensures
        vars_of(LogicView::Op(tag, kids, items)) == kids_vars(tag, kids) + list_vars(items),
{
}

proof fn lemma_list_vars_empty()
    ensures
        list_vars(Seq::<LogicView>::empty()) == Seq::<Seq<char>>::empty(),
{
}

proof fn lemma_vars_op_nolist(tag: Tag, kids: Seq<Option<LogicView>>)
    ensures
        vars_of(LogicView::Op(tag, kids, Seq::<LogicView>::empty())) == kids_vars(tag, kids),
{
    lemma_list_vars_empty();
    assert(kids_vars(tag, kids) + Seq::<Seq<char>>::empty() =~= kids_vars(tag, kids));
}

proof fn lemma_kids_vars_4(tag: Tag, a: Option<LogicView>, b: Option<LogicView>, c: Option<LogicView>, d: Option<LogicView>)
    requires
        tag != Tag::ValueAt,
    ensures
        kids_vars(tag, seq![a, b, c, d]) == slot_vars(a) + slot_vars(b) + slot_vars(c) + slot_vars(d),
{
    let k = seq![a, b, c, d];
    assert(k[0] == a && k[1] == b && k[2] == c && k[3] == d);
}

proof fn lemma_kids_vars_3(tag: Tag, a: Option<LogicView>, b: Option<LogicView>, c: Option<LogicView>)
    requires
        tag != Tag::ValueAt,
    ensures
        kids_vars(tag, seq![a, b, c]) == slot_vars(a) + slot_vars(b) + slot_vars(c),
{
    let k = seq![a, b, c];
    let e = Seq::<Seq<char>>::empty();
    assert(k[0] == a && k[1] == b && k[2] == c);
    assert(kids_vars(tag, k) == slot_vars(a) + slot_vars(b) + slot_vars(c) + e);
    assert(slot_vars(a) + slot_vars(b) + slot_vars(c) + e =~= slot_vars(a) + slot_vars(b) + slot_vars(c));
}

proof fn lemma_kids_vars_value_at(a: Option<LogicView>, b: Option<LogicView>, c: Option<LogicView>)
    ensures
        kids_vars(Tag::ValueAt, seq![a, b, c]) == slot_vars(a) + slot_vars(c),
{
    let k = seq![a, b, c];
    let e = Seq::<Seq<char>>::empty();
    assert(k[0] == a && k[1] == b && k[2] == c);
    assert(kids_vars(Tag::ValueAt, k) == slot_vars(a) + e + slot_vars(c) + e);
    assert(slot_vars(a) + e + slot_vars(c) + e =~= slot_vars(a) + slot_vars(c));
}

proof fn lemma_kids_vars_2(tag: Tag, a: Option<LogicView>, b: Option<LogicView>)
    requires
        tag != Tag::ValueAt,
    ensures
        kids_vars(tag, seq![a, b]) == slot_vars(a) + slot_vars(b),
{
    let k = seq![a, b];
    assert(k[0] == a && k[1] == b);
    let e = Seq::<Seq<char>>::empty();
    assert(kids_vars(tag, k) == slot_vars(a) + slot_vars(b) + e + e);
    assert(slot_vars(a) + slot_vars(b) + e + e =~= slot_vars(a) + slot_vars(b));
}

proof fn lemma_kids_vars_1(tag: Tag, a: Option<LogicView>)
    ensures
        kids_vars(tag, seq![a]) == slot_vars(a),
{
    let k = seq![a];
    assert(k[0] == a);
    let e = Seq::<Seq<char>>::empty();
    assert(kids_vars(tag, k) == slot_vars(a) + e + e + e);
    assert(slot_vars(a) + e + e + e =~= slot_vars(a));
}

proof fn lemma_kids_vars_0(tag: Tag)
    ensures
        kids_vars(tag, Seq::<Option<LogicView>>::empty()) == Seq::<Seq<char>>::empty(),
{
    let e = Seq::<Seq<char>>::empty();
    assert(kids_vars(tag, Seq::<Option<LogicView>>::empty()) == e + e + e + e);
    assert(e + e + e + e =~= e);
}

/// Appending `x` after `acc` keeps `vars == v0 + acc`.
proof fn lemma_append_step(v0: Seq<Seq<char>>, acc: Seq<Seq<char>>, x: Seq<Seq<char>>)
    ensures
        (v0 + acc) + x == v0 + (acc + x),
{
    assert((v0 + acc) + x =~= v0 + (acc + x));
}

proof fn lemma_slot_some(l: LogicView)
    ensures
        slot_vars(Some(l)) == vars_of(l),
{
}

proof fn lemma_string_views_push(s: Seq<String>, x: String)
    ensures
        string_views(s.push(x)) == string_views(s).push(x@),
{
    assert(string_views(s.push(x)) =~= string_views(s).push(x@));
}

impl CompiledLogic {
    /// Whether this is a bare `var` or `$ref` without a default.
    pub fn is_simple_ref(&self) -> (res: bool)
        ensures
            res == ((self@ matches LogicView::Var(_, None)) || (self@ matches LogicView::Ref(_, None))),
    {
        match self {
            CompiledLogic::Var(_, d) | CompiledLogic::Ref(_, d) => {
                assert(opt_box_view(*d) is None <==> d is None);
                d.is_none()
            },
            _ => false,
        }
    }

    /// Append the variables this expression reads to `vars` (see `vars_of`).
    pub fn collect_vars(&self, vars: &mut Vec<String>)
        ensures
            string_views(final(vars)@) == string_views(old(vars)@) + vars_of(self@),
        decreases self, 1nat,
    {
        let ghost v0 = string_views(vars@);
        match self {
            CompiledLogic::Var(name, d) => {
                let ghost prev = vars@;
                vars.push(var_name_to_dotted(name.as_str()));
                proof {
                    lemma_string_views_push(prev, vars@.last());
                }
                Self::collect_default(d, vars);
                assert(string_views(vars@) =~= v0 + vars_of(self@));
            },
            CompiledLogic::Ref(path, d) => {
                let ghost prev = vars@;
                vars.push(ref_path_to_dotted(path.as_str()));
                proof {
                    lemma_string_views_push(prev, vars@.last());
                }
                Self::collect_default(d, vars);
                assert(string_views(vars@) =~= v0 + vars_of(self@));
            },
            CompiledLogic::MissingSome(m, _) => {
                m.collect_vars(vars);
            },
            CompiledLogic::Null | CompiledLogic::Bool(_) | CompiledLogic::Number(_) | CompiledLogic::String(_)
            | CompiledLogic::Missing(_) | CompiledLogic::Return(_) => {
                assert(string_views(vars@) =~= v0 + vars_of(self@));
            },
            CompiledLogic::Array(v) | CompiledLogic::And(v) | CompiledLogic::Or(v) | CompiledLogic::Add(v) | CompiledLogic::Subtract(v) | CompiledLogic::Multiply(v) | CompiledLogic::Divide(v) | CompiledLogic::Merge(v) | CompiledLogic::Cat(v) | CompiledLogic::Max(v) | CompiledLogic::Min(v) | CompiledLogic::Concat(v) | CompiledLogic::Multiplies(v) | CompiledLogic::Divides(v) => {
                self.collect_shape_list(v, vars);
            },
            CompiledLogic::Empty | CompiledLogic::Today | CompiledLogic::Now => {
                self.collect_shape_k0( vars);
            },
            CompiledLogic::Not(a) | CompiledLogic::Abs(a) | CompiledLogic::Round(a) | CompiledLogic::RoundUp(a) | CompiledLogic::RoundDown(a) | CompiledLogic::Length(a) | CompiledLogic::Len(a) | CompiledLogic::IsEmpty(a) | CompiledLogic::Year(a) | CompiledLogic::Month(a) | CompiledLogic::Day(a) => {
                self.collect_shape_k1(&**a, vars);
            },
            CompiledLogic::Equal(a, b) | CompiledLogic::StrictEqual(a, b) | CompiledLogic::NotEqual(a, b) | CompiledLogic::StrictNotEqual(a, b) | CompiledLogic::LessThan(a, b) | CompiledLogic::LessThanOrEqual(a, b) | CompiledLogic::GreaterThan(a, b) | CompiledLogic::GreaterThanOrEqual(a, b) | CompiledLogic::Modulo(a, b) | CompiledLogic::Power(a, b) | CompiledLogic::MapEach(a, b) | CompiledLogic::Filter(a, b) | CompiledLogic::All(a, b) | CompiledLogic::SomeOf(a, b) | CompiledLogic::NoneOf(a, b) | CompiledLogic::In(a, b) | CompiledLogic::Pow(a, b) | CompiledLogic::SplitValue(a, b) | CompiledLogic::Xor(a, b) | CompiledLogic::IfNull(a, b) | CompiledLogic::Days(a, b) | CompiledLogic::MaxAt(a, b) | CompiledLogic::RangeOptions(a, b) => {
                self.collect_shape_k2(&**a, &**b, vars);
            },
            CompiledLogic::If(a, b, c) | CompiledLogic::Reduce(a, b, c) | CompiledLogic::Mid(a, b, c) | CompiledLogic::Date(a, b, c) | CompiledLogic::For(a, b, c) | CompiledLogic::DateDif(a, b, c) | CompiledLogic::MapOptions(a, b, c) => {
                self.collect_shape_k3(&**a, &**b, &**c, vars);
            },
            CompiledLogic::Substr(a, b, c) | CompiledLogic::Search(a, b, c) | CompiledLogic::SplitText(a, b, c) | CompiledLogic::YearFrac(a, b, c) => {
                self.collect_shape_k2o(&**a, &**b, c, vars);
            },
            CompiledLogic::ValueAt(a, b, c) => {
                self.collect_shape_value_at(&**a, &**b, c, vars);
            },
            CompiledLogic::Left(a, b) | CompiledLogic::Right(a, b) => {
                self.collect_shape_k1o(&**a, b, vars);
            },
            CompiledLogic::Sum(a, b, c) => {
                self.collect_shape_k1oo(&**a, b, c, vars);
            },
            CompiledLogic::IndexAt(a, b, c, d) => {
                self.collect_shape_k3o(&**a, &**b, &**c, d, vars);
            },
            CompiledLogic::Match(a, v) | CompiledLogic::MatchRange(a, v) | CompiledLogic::Choose(a, v) | CompiledLogic::FindIndex(a, v) => {
                self.collect_shape_k1l(&**a, v, vars);
            },
            CompiledLogic::MapOptionsIf(a, b, c, v) => {
                self.collect_shape_k3l(&**a, &**b, &**c, v, vars);
            },
        }
    }

    /// Append the variables of a default value, if there is one.
    fn collect_default(d: &Option<Box<CompiledLogic>>, vars: &mut Vec<String>)
        ensures
            string_views(final(vars)@) == string_views(old(vars)@) + default_vars(opt_box_view(*d)),
        decreases *d, 0nat,
    {
        match d {
            Some(x) => {
                x.collect_vars(vars);
            },
            None => {
                assert(string_views(vars@) =~= string_views(old(vars)@) + default_vars(opt_box_view(*d)));
            },
        }
    }

    /// Append the variables of an optional operand.
    fn collect_slot(o: &Option<Box<CompiledLogic>>, vars: &mut Vec<String>)
        ensures
            string_views(final(vars)@) == string_views(old(vars)@) + slot_vars(opt_logic_view(*o)),
        decreases *o, 0nat,
    {
        match o {
            Some(x) => {
                x.collect_vars(vars);
            },
            None => {
                assert(string_views(vars@) =~= string_views(old(vars)@) + slot_vars(opt_logic_view(*o)));
            },
        }
    }

    fn collect_shape_list(&self, v: &Vec<CompiledLogic>, vars: &mut Vec<String>)
        requires
            self@ == LogicView::Op(self@->Op_0, seq![], logic_views(v@)),
            self@->Op_0 != Tag::ValueAt,
            decreases_to!(*self => *v),
        ensures
            string_views(final(vars)@) == string_views(old(vars)@) + vars_of(self@),
        decreases self, 0nat,
    {
        let ghost v0 = string_views(vars@);
        proof {
            lemma_vars_op(self@->Op_0, self@->Op_1, self@->Op_2);
            lemma_kids_vars_0(self@->Op_0);
        }
        Self::collect_list(v, vars);
        let ghost acc = list_vars(logic_views(v@));
        assert(acc == vars_of(self@));
    }

    fn collect_shape_k0(&self, vars: &mut Vec<String>)
        requires
            self@ == LogicView::Op(self@->Op_0, seq![], Seq::<LogicView>::empty()),
            self@->Op_0 != Tag::ValueAt,
        ensures
            string_views(final(vars)@) == string_views(old(vars)@) + vars_of(self@),
        decreases self, 0nat,
    {
        let ghost v0 = string_views(vars@);
        proof {
            lemma_vars_op_nolist(self@->Op_0, self@->Op_1);
            lemma_kids_vars_0(self@->Op_0);
        }
        assert(string_views(vars@) =~= v0 + vars_of(self@));
    }

    fn collect_shape_k1(&self, a: &CompiledLogic, vars: &mut Vec<String>)
        requires
            self@ == LogicView::Op(self@->Op_0, seq![Some(a@)], Seq::<LogicView>::empty()),
            self@->Op_0 != Tag::ValueAt,
            decreases_to!(*self => *a),
        ensures
            string_views(final(vars)@) == string_views(old(vars)@) + vars_of(self@),
        decreases self, 0nat,
    {
        let ghost v0 = string_views(vars@);
        proof {
            lemma_vars_op_nolist(self@->Op_0, self@->Op_1);
            lemma_kids_vars_1(self@->Op_0, Some(a@));
        }
        a.collect_vars(vars);
        proof {
            lemma_slot_some(a@);
        }
        let ghost acc = slot_vars(Some(a@));
        assert(acc == vars_of(self@));
    }

    fn collect_shape_k2(&self, a: &CompiledLogic, b: &CompiledLogic, vars: &mut Vec<String>)
        requires
            self@ == LogicView::Op(self@->Op_0, seq![Some(a@), Some(b@)], Seq::<LogicView>::empty()),
            self@->Op_0 != Tag::ValueAt,
            decreases_to!(*self => *a),
            decreases_to!(*self => *b),
        ensures
            string_views(final(vars)@) == string_views(old(vars)@) + vars_of(self@),
        decreases self, 0nat,
    {
        let ghost v0 = string_views(vars@);
        proof {
            lemma_vars_op_nolist(self@->Op_0, self@->Op_1);
            lemma_kids_vars_2(self@->Op_0, Some(a@), Some(b@));
        }
        a.collect_vars(vars);
        proof {
            lemma_slot_some(a@);
        }
        let ghost acc = slot_vars(Some(a@));
        b.collect_vars(vars);
        proof {
            lemma_slot_some(b@);
        }
        proof {
            lemma_append_step(v0, acc, slot_vars(Some(b@)));
        }
        let ghost acc = acc + slot_vars(Some(b@));
        assert(acc == vars_of(self@));
    }

    fn collect_shape_k3(&self, a: &CompiledLogic, b: &CompiledLogic, c: &CompiledLogic, vars: &mut Vec<String>)
        requires
            self@ == LogicView::Op(self@->Op_0, seq![Some(a@), Some(b@), Some(c@)], Seq::<LogicView>::empty()),
            self@->Op_0 != Tag::ValueAt,
            decreases_to!(*self => *a),
            decreases_to!(*self => *b),
            decreases_to!(*self => *c),
        ensures
            string_views(final(vars)@) == string_views(old(vars)@) + vars_of(self@),
        decreases self, 0nat,
    {
        let ghost v0 = string_views(vars@);
        proof {
            lemma_vars_op_nolist(self@->Op_0, self@->Op_1);
            lemma_kids_vars_3(self@->Op_0, Some(a@), Some(b@), Some(c@));
        }
        a.collect_vars(vars);
        proof {
            lemma_slot_some(a@);
        }
        let ghost acc = slot_vars(Some(a@));
        b.collect_vars(vars);
        proof {
            lemma_slot_some(b@);
        }
        proof {
            lemma_append_step(v0, acc, slot_vars(Some(b@)));
        }
        let ghost acc = acc + slot_vars(Some(b@));
        c.collect_vars(vars);
        proof {
            lemma_slot_some(c@);
        }
        proof {
            lemma_append_step(v0, acc, slot_vars(Some(c@)));
        }
        let ghost acc = acc + slot_vars(Some(c@));
        assert(acc == vars_of(self@));
    }

    fn collect_shape_k2o(&self, a: &CompiledLogic, b: &CompiledLogic, c: &Option<Box<CompiledLogic>>, vars: &mut Vec<String>)
        requires
            self@ == LogicView::Op(self@->Op_0, seq![Some(a@), Some(b@), opt_logic_view(*c)], Seq::<LogicView>::empty()),
            self@->Op_0 != Tag::ValueAt,
            decreases_to!(*self => *a),
            decreases_to!(*self => *b),
            decreases_to!(*self => *c),
        ensures
            string_views(final(vars)@) == string_views(old(vars)@) + vars_of(self@),
        decreases self, 0nat,
    {
        let ghost v0 = string_views(vars@);
        proof {
            lemma_vars_op_nolist(self@->Op_0, self@->Op_1);
            lemma_kids_vars_3(self@->Op_0, Some(a@), Some(b@), opt_logic_view(*c));
        }
        a.collect_vars(vars);
        proof {
            lemma_slot_some(a@);
        }
        let ghost acc = slot_vars(Some(a@));
        b.collect_vars(vars);
        proof {
            lemma_slot_some(b@);
        }
        proof {
            lemma_append_step(v0, acc, slot_vars(Some(b@)));
        }
        let ghost acc = acc + slot_vars(Some(b@));
        Self::collect_slot(c, vars);
        proof {
            lemma_append_step(v0, acc, slot_vars(opt_logic_view(*c)));
        }
        let ghost acc = acc + slot_vars(opt_logic_view(*c));
        assert(acc == vars_of(self@));
    }

    fn collect_shape_value_at(&self, a: &CompiledLogic, b: &CompiledLogic, c: &Option<Box<CompiledLogic>>, vars: &mut Vec<String>)
        requires
            self@ == LogicView::Op(self@->Op_0, seq![Some(a@), Some(b@), opt_logic_view(*c)], Seq::<LogicView>::empty()),
            self@->Op_0 == Tag::ValueAt,
            decreases_to!(*self => *a),
            decreases_to!(*self => *b),
            decreases_to!(*self => *c),
        ensures
            string_views(final(vars)@) == string_views(old(vars)@) + vars_of(self@),
        decreases self, 0nat,
    {
        let ghost v0 = string_views(vars@);
        proof {
            lemma_vars_op_nolist(self@->Op_0, self@->Op_1);
            lemma_kids_vars_value_at(Some(a@), Some(b@), opt_logic_view(*c));
        }
        a.collect_vars(vars);
        proof {
            lemma_slot_some(a@);
        }
        let ghost acc = slot_vars(Some(a@));
        Self::collect_slot(c, vars);
        proof {
            lemma_append_step(v0, acc, slot_vars(opt_logic_view(*c)));
        }
        let ghost acc = acc + slot_vars(opt_logic_view(*c));
        assert(acc == vars_of(self@));
    }

    fn collect_shape_k1o(&self, a: &CompiledLogic, b: &Option<Box<CompiledLogic>>, vars: &mut Vec<String>)
        requires
            self@ == LogicView::Op(self@->Op_0, seq![Some(a@), opt_logic_view(*b)], Seq::<LogicView>::empty()),
            self@->Op_0 != Tag::ValueAt,
            decreases_to!(*self => *a),
            decreases_to!(*self => *b),
        ensures
            string_views(final(vars)@) == string_views(old(vars)@) + vars_of(self@),
        decreases self, 0nat,
    {
        let ghost v0 = string_views(vars@);
        proof {
            lemma_vars_op_nolist(self@->Op_0, self@->Op_1);
            lemma_kids_vars_2(self@->Op_0, Some(a@), opt_logic_view(*b));
        }
        a.collect_vars(vars);
        proof {
            lemma_slot_some(a@);
        }
        let ghost acc = slot_vars(Some(a@));
        Self::collect_slot(b, vars);
        proof {
            lemma_append_step(v0, acc, slot_vars(opt_logic_view(*b)));
        }
        let ghost acc = acc + slot_vars(opt_logic_view(*b));
        assert(acc == vars_of(self@));
    }

    fn collect_shape_k1oo(&self, a: &CompiledLogic, b: &Option<Box<CompiledLogic>>, c: &Option<Box<CompiledLogic>>, vars: &mut Vec<String>)
        requires
            self@ == LogicView::Op(self@->Op_0, seq![Some(a@), opt_logic_view(*b), opt_logic_view(*c)], Seq::<LogicView>::empty()),
            self@->Op_0 != Tag::ValueAt,
            decreases_to!(*self => *a),
            decreases_to!(*self => *b),
            decreases_to!(*self => *c),
        ensures
            string_views(final(vars)@) == string_views(old(vars)@) + vars_of(self@),
        decreases self, 0nat,
    {
        let ghost v0 = string_views(vars@);
        proof {
            lemma_vars_op_nolist(self@->Op_0, self@->Op_1);
            lemma_kids_vars_3(self@->Op_0, Some(a@), opt_logic_view(*b), opt_logic_view(*c));
        }
        a.collect_vars(vars);
        proof {
            lemma_slot_some(a@);
        }
        let ghost acc = slot_vars(Some(a@));
        Self::collect_slot(b, vars);
        proof {
            lemma_append_step(v0, acc, slot_vars(opt_logic_view(*b)));
        }
        let ghost acc = acc + slot_vars(opt_logic_view(*b));
        Self::collect_slot(c, vars);
        proof {
            lemma_append_step(v0, acc, slot_vars(opt_logic_view(*c)));
        }
        let ghost acc = acc + slot_vars(opt_logic_view(*c));
        assert(acc == vars_of(self@));
    }

    fn collect_shape_k3o(&self, a: &CompiledLogic, b: &CompiledLogic, c: &CompiledLogic, d: &Option<Box<CompiledLogic>>, vars: &mut Vec<String>)
        requires
            self@ == LogicView::Op(self@->Op_0, seq![Some(a@), Some(b@), Some(c@), opt_logic_view(*d)], Seq::<LogicView>::empty()),
            self@->Op_0 != Tag::ValueAt,
            decreases_to!(*self => *a),
            decreases_to!(*self => *b),
            decreases_to!(*self => *c),
            decreases_to!(*self => *d),
        ensures
            string_views(final(vars)@) == string_views(old(vars)@) + vars_of(self@),
        decreases self, 0nat,
    {
        let ghost v0 = string_views(vars@);
        proof {
            lemma_vars_op_nolist(self@->Op_0, self@->Op_1);
            lemma_kids_vars_4(self@->Op_0, Some(a@), Some(b@), Some(c@), opt_logic_view(*d));
        }
        a.collect_vars(vars);
        proof {
            lemma_slot_some(a@);
        }
        let ghost acc = slot_vars(Some(a@));
        b.collect_vars(vars);
        proof {
            lemma_slot_some(b@);
        }
        proof {
            lemma_append_step(v0, acc, slot_vars(Some(b@)));
        }
        let ghost acc = acc + slot_vars(Some(b@));
        c.collect_vars(vars);
        proof {
            lemma_slot_some(c@);
        }
        proof {
            lemma_append_step(v0, acc, slot_vars(Some(c@)));
        }
        let ghost acc = acc + slot_vars(Some(c@));
        Self::collect_slot(d, vars);
        proof {
            lemma_append_step(v0, acc, slot_vars(opt_logic_view(*d)));
        }
        let ghost acc = acc + slot_vars(opt_logic_view(*d));
        assert(acc == vars_of(self@));
    }

    fn collect_shape_k1l(&self, a: &CompiledLogic, v: &Vec<CompiledLogic>, vars: &mut Vec<String>)
        requires
            self@ == LogicView::Op(self@->Op_0, seq![Some(a@)], logic_views(v@)),
            self@->Op_0 != Tag::ValueAt,
            decreases_to!(*self => *a),
            decreases_to!(*self => *v),
        ensures
            string_views(final(vars)@) == string_views(old(vars)@) + vars_of(self@),
        decreases self, 0nat,
    {
        let ghost v0 = string_views(vars@);
        proof {
            lemma_vars_op(self@->Op_0, self@->Op_1, self@->Op_2);
            lemma_kids_vars_1(self@->Op_0, Some(a@));
        }
        a.collect_vars(vars);
        proof {
            lemma_slot_some(a@);
        }
        let ghost acc = slot_vars(Some(a@));
        Self::collect_list(v, vars);
        proof {
            lemma_append_step(v0, acc, list_vars(logic_views(v@)));
        }
        let ghost acc = acc + list_vars(logic_views(v@));
        assert(acc == vars_of(self@));
    }

    fn collect_shape_k3l(&self, a: &CompiledLogic, b: &CompiledLogic, c: &CompiledLogic, v: &Vec<CompiledLogic>, vars: &mut Vec<String>)
        requires
            self@ == LogicView::Op(self@->Op_0, seq![Some(a@), Some(b@), Some(c@)], logic_views(v@)),
            self@->Op_0 != Tag::ValueAt,
            decreases_to!(*self => *a),
            decreases_to!(*self => *b),
            decreases_to!(*self => *c),
            decreases_to!(*self => *v),
        ensures
            string_views(final(vars)@) == string_views(old(vars)@) + vars_of(self@),
        decreases self, 0nat,
    {
        let ghost v0 = string_views(vars@);
        proof {
            lemma_vars_op(self@->Op_0, self@->Op_1, self@->Op_2);
            lemma_kids_vars_3(self@->Op_0, Some(a@), Some(b@), Some(c@));
        }
        a.collect_vars(vars);
        proof {
            lemma_slot_some(a@);
        }
        let ghost acc = slot_vars(Some(a@));
        b.collect_vars(vars);
        proof {
            lemma_slot_some(b@);
        }
        proof {
            lemma_append_step(v0, acc, slot_vars(Some(b@)));
        }
        let ghost acc = acc + slot_vars(Some(b@));
        c.collect_vars(vars);
        proof {
            lemma_slot_some(c@);
        }
        proof {
            lemma_append_step(v0, acc, slot_vars(Some(c@)));
        }
        let ghost acc = acc + slot_vars(Some(c@));
        Self::collect_list(v, vars);
        proof {
            lemma_append_step(v0, acc, list_vars(logic_views(v@)));
        }
        let ghost acc = acc + list_vars(logic_views(v@));
        assert(acc == vars_of(self@));
    }

    /// Append the variables of `items`, in order.
    fn collect_list(items: &Vec<CompiledLogic>, vars: &mut Vec<String>)
        ensures
            string_views(final(vars)@) == string_views(old(vars)@) + list_vars(logic_views(items@)),
        decreases *items, 0nat,
    {
        let ghost v0 = string_views(vars@);
        let ghost xs = logic_views(items@);
        let mut i: usize = 0;
        while i < items.len()
            invariant
                i <= items@.len(),
                xs == logic_views(items@),
                string_views(vars@) == v0 + list_vars(xs.subrange(0, i as int)),
            decreases items@.len() - i,
        {
            proof {
                assert(decreases_to!(*items => items@));
                assert(decreases_to!(items@ => items@[i as int]));
                let t = xs.subrange(0, i + 1);
                assert(t.subrange(0, t.len() - 1) =~= xs.subrange(0, i as int));
                assert(t[t.len() - 1] == items@[i as int]@);
            }
            items[i].collect_vars(vars);
            i = i + 1;
            assert(string_views(vars@) =~= v0 + list_vars(xs.subrange(0, i as int)));
        }
        assert(xs.subrange(0, i as int) =~= xs);
    }

    /// The distinct variables this expression reads, in increasing order.
    pub fn referenced_vars(&self) -> (res: Vec<String>)
        ensures
            strictly_sorted(string_views(res@)),
            string_views(res@).to_set() == vars_of(self@).to_set(),
    {
        let mut vars: Vec<String> = Vec::new();
        self.collect_vars(&mut vars);
        assert(string_views(Seq::<String>::empty()) =~= Seq::<Seq<char>>::empty());
        assert(Seq::<Seq<char>>::empty() + vars_of(self@) =~= vars_of(self@));
        sorted_distinct(&vars)
    }
}

/// The distinct elements of `xs`, in increasing order.
pub fn sorted_distinct(xs: &Vec<String>) -> (res: Vec<String>)
    ensures
        strictly_sorted(string_views(res@)),
        string_views(res@).to_set() == string_views(xs@).to_set(),
{
    let mut out: Vec<String> = Vec::new();
    let mut i: usize = 0;
    proof {
        assert(string_views(out@).to_set() =~= string_views(xs@).subrange(0, 0).to_set());
    }
    while i < xs.len()
        invariant
            i <= xs@.len(),
            strictly_sorted(string_views(out@)),
            string_views(out@).to_set() == string_views(xs@).subrange(0, i as int).to_set(),
        decreases xs@.len() - i,
    {
        let ghost before = string_views(out@);
        insert_sorted(&mut out, &xs[i]);
        proof {
            let s = string_views(xs@);
            assert(s.subrange(0, i + 1) =~= s.subrange(0, i as int).push(s[i as int]));
            s.subrange(0, i as int).lemma_push_to_set_commute(s[i as int]);
        }
        i = i + 1;
    }
    assert(string_views(xs@).subrange(0, xs@.len() as int) =~= string_views(xs@));
    out
}

/// Insert `x` into the strictly increasing `out`, unless it is there already.
fn insert_sorted(out: &mut Vec<String>, x: &String)
    requires
        strictly_sorted(string_views(old(out)@)),
    ensures
        strictly_sorted(string_views(final(out)@)),
        string_views(final(out)@).to_set() == string_views(old(out)@).to_set().insert(x@),
{
    let ghost s0 = string_views(out@);
    let mut k: usize = 0;
    while k < out.len() && str_less(out[k].as_str(), x.as_str())
        invariant
            k <= out@.len(),
            s0 == string_views(out@),
            forall|j: int| 0 <= j < k ==> lex_less(#[trigger] s0[j], x@),
        decreases out@.len() - k,
    {
        k = k + 1;
    }
    if k < out.len() && str_eq(out[k].as_str(), x.as_str()) {
        assert(s0[k as int] == x@);
        assert(s0.to_set().insert(x@) =~= s0.to_set());
        return;
    }
    proof {
        if k < s0.len() {
            crate::text::lemma_lex_total(s0[k as int], x@);
        }
        assert forall|j: int| k <= j < s0.len() implies lex_less(x@, #[trigger] s0[j]) by {
            if j > k {
                crate::text::lemma_lex_transitive(x@, s0[k as int], s0[j]);
            }
        }
    }
    out.insert(k, copy_string(x));
    proof {
        let s1 = string_views(out@);
        assert(s1 =~= s0.insert(k as int, x@));
        assert forall|a: int, b: int| 0 <= a < b < s1.len() implies lex_less(#[trigger] s1[a], #[trigger] s1[b]) by {
            if b < k {
            } else if a < k && b == k {
            } else if a < k {
                crate::text::lemma_lex_transitive(s1[a], x@, s1[b]);
            } else if a == k {
            } else {
            }
        }
        assert(s1.to_set() =~= s0.to_set().insert(x@)) by {
            assert forall|y: Seq<char>| s1.to_set().contains(y) <==> s0.to_set().insert(x@).contains(y) by {
                if s1.to_set().contains(y) {
                    let j = choose|j: int| 0 <= j < s1.len() && s1[j] == y;
                    if j < k {
                        assert(s0[j] == y);
                    } else if j > k {
                        assert(s0[j - 1] == y);
                    }
                }
                if s0.to_set().contains(y) {
                    let j = choose|j: int| 0 <= j < s0.len() && s0[j] == y;
                    if j < k {
                        assert(s1[j] == y);
                    } else {
                        assert(s1[j + 1] == y);
                    }
                }
                if y == x@ {
                    assert(s1[k as int] == y);
                }
            }
        }
    }
}

} // verus!
