use vstd::prelude::*;
use crate::compiled::{CompiledLogic, LogicView, Tag, logic_views};

verus! {

/// The compiled forms that are not operator nodes.
pub open spec fn is_leaf(l: CompiledLogic) -> bool {
    match l {
        CompiledLogic::Null | CompiledLogic::Bool(_) | CompiledLogic::Number(_) | CompiledLogic::String(_)
        | CompiledLogic::Var(_, _) | CompiledLogic::Ref(_, _) | CompiledLogic::Missing(_)
        | CompiledLogic::MissingSome(_, _) | CompiledLogic::Return(_) => true,
        _ => false,
    }
}

/// The models of operands held by reference.
pub open spec fn ref_views(s: Seq<Option<&CompiledLogic>>) -> Seq<Option<LogicView>> {
    Seq::new(s.len(), |i: int| match s[i] {
        Some(r) => Some(r@),
        None => None,
    })
}

/// The models of items held by reference.
pub open spec fn item_views(s: Seq<&CompiledLogic>) -> Seq<LogicView> {
    Seq::new(s.len(), |i: int| s[i]@)
}

pub fn opt_ref<'a>(l: &'a CompiledLogic, o: &'a Option<Box<CompiledLogic>>) -> (res: Option<&'a CompiledLogic>)
    requires
        decreases_to!(*l => *o),
    ensures
        match res {
            Some(r) => crate::compiled::opt_logic_view(*o) == Some(r@) && decreases_to!(*l => *r),
            None => crate::compiled::opt_logic_view(*o) is None,
        },
{
    match o {
        Some(b) => {
            assert(decreases_to!(*o => **b));
            Some(&**b)
        },
        None => None,
    }
}

pub fn item_refs<'a>(l: &'a CompiledLogic, v: &'a Vec<CompiledLogic>) -> (res: Vec<&'a CompiledLogic>)
    requires
        decreases_to!(*l => *v),
    ensures
        item_views(res@) == logic_views(v@),
        forall|i: int| 0 <= i < res@.len() ==> decreases_to!(*l => *(#[trigger] res@[i])),
{
    let mut out: Vec<&CompiledLogic> = Vec::new();
    let mut i: usize = 0;
    while i < v.len()
        invariant
            i <= v@.len(),
            decreases_to!(*l => *v),
            item_views(out@) == logic_views(v@).take(i as int),
            forall|j: int| 0 <= j < out@.len() ==> decreases_to!(*l => *(#[trigger] out@[j])),
        decreases v@.len() - i,
    {
        proof {
            assert(decreases_to!(*v => v@));
            assert(decreases_to!(v@ => v@[i as int]));
        }
        let ghost prev = out@;
        out.push(&v[i]);
        assert(logic_views(v@)[i as int] == v@[i as int]@);
        assert(item_views(out@) =~= item_views(prev).push(v@[i as int]@));
        assert(logic_views(v@).take(i + 1) =~= logic_views(v@).take(i as int).push(logic_views(v@)[i as int]));
        i = i + 1;
    }
    assert(logic_views(v@).take(i as int) =~= logic_views(v@));
    out
}

/// The operator, operands and items of an operator node; `None` for the other
/// forms.
pub fn parts(l: &CompiledLogic) -> (res: Option<(Tag, Vec<Option<&CompiledLogic>>, Vec<&CompiledLogic>)>)
    ensures
        match res {
            Some(r) => parts_ok(l, r),
            None => is_leaf(*l),
        },
{
    match l {
        CompiledLogic::Null | CompiledLogic::Bool(_) | CompiledLogic::Number(_) | CompiledLogic::String(_)
        | CompiledLogic::Var(_, _) | CompiledLogic::Ref(_, _) | CompiledLogic::Missing(_)
        | CompiledLogic::MissingSome(_, _) | CompiledLogic::Return(_) => None,
        CompiledLogic::Array(..) | CompiledLogic::And(..) | CompiledLogic::Or(..) => parts_0(l),
        CompiledLogic::Add(..) | CompiledLogic::Subtract(..) | CompiledLogic::Multiply(..) => parts_1(l),
        CompiledLogic::Divide(..) | CompiledLogic::Merge(..) | CompiledLogic::Cat(..) => parts_2(l),
        CompiledLogic::Max(..) | CompiledLogic::Min(..) | CompiledLogic::Concat(..) => parts_3(l),
        CompiledLogic::Multiplies(..) | CompiledLogic::Divides(..) => parts_4(l),
        CompiledLogic::Not(..) | CompiledLogic::Abs(..) | CompiledLogic::Round(..) => parts_5(l),
        CompiledLogic::RoundUp(..) | CompiledLogic::RoundDown(..) | CompiledLogic::Length(..) => parts_6(l),
        CompiledLogic::Len(..) | CompiledLogic::IsEmpty(..) | CompiledLogic::Year(..) => parts_7(l),
        CompiledLogic::Month(..) | CompiledLogic::Day(..) => parts_8(l),
        CompiledLogic::If(..) | CompiledLogic::Reduce(..) | CompiledLogic::Mid(..) => parts_9(l),
        CompiledLogic::Date(..) | CompiledLogic::For(..) | CompiledLogic::DateDif(..) => parts_10(l),
        CompiledLogic::MapOptions(..) => parts_11(l),
        CompiledLogic::Equal(..) | CompiledLogic::StrictEqual(..) | CompiledLogic::NotEqual(..) => parts_12(l),
        CompiledLogic::StrictNotEqual(..) | CompiledLogic::LessThan(..) | CompiledLogic::LessThanOrEqual(..) => parts_13(l),
        CompiledLogic::GreaterThan(..) | CompiledLogic::GreaterThanOrEqual(..) | CompiledLogic::Modulo(..) => parts_14(l),
        CompiledLogic::Power(..) | CompiledLogic::MapEach(..) | CompiledLogic::Filter(..) => parts_15(l),
        CompiledLogic::All(..) | CompiledLogic::SomeOf(..) | CompiledLogic::NoneOf(..) => parts_16(l),
        CompiledLogic::In(..) | CompiledLogic::Pow(..) | CompiledLogic::SplitValue(..) => parts_17(l),
        CompiledLogic::Xor(..) | CompiledLogic::IfNull(..) | CompiledLogic::Days(..) => parts_18(l),
        CompiledLogic::MaxAt(..) | CompiledLogic::RangeOptions(..) => parts_19(l),
        CompiledLogic::Substr(..) | CompiledLogic::Search(..) | CompiledLogic::SplitText(..) => parts_20(l),
        CompiledLogic::ValueAt(..) | CompiledLogic::YearFrac(..) => parts_21(l),
        CompiledLogic::Left(..) | CompiledLogic::Right(..) => parts_22(l),
        CompiledLogic::Empty | CompiledLogic::Today | CompiledLogic::Now => parts_23(l),
        CompiledLogic::Sum(..) => parts_24(l),
        CompiledLogic::IndexAt(..) => parts_25(l),
        CompiledLogic::Match(..) | CompiledLogic::MatchRange(..) | CompiledLogic::Choose(..) => parts_26(l),
        CompiledLogic::FindIndex(..) => parts_27(l),
        CompiledLogic::MapOptionsIf(..) => parts_28(l),
    }
}

/// `r` holds the operator, operands and items of `l`, each a part of `l`.
pub open spec fn parts_ok(l: &CompiledLogic, r: (Tag, Vec<Option<&CompiledLogic>>, Vec<&CompiledLogic>)) -> bool {
    &&& l@ == LogicView::Op(r.0, ref_views(r.1@), item_views(r.2@))
    &&& forall|i: int| 0 <= i < r.1@.len() && (#[trigger] r.1@[i]) is Some ==> decreases_to!(*l => *r.1@[i]->Some_0)
    &&& forall|i: int| 0 <= i < r.2@.len() ==> decreases_to!(*l => *(#[trigger] r.2@[i]))
}

#[verifier::spinoff_prover]
fn parts_0(l: &CompiledLogic) -> (res: Option<(Tag, Vec<Option<&CompiledLogic>>, Vec<&CompiledLogic>)>)
    ensures
        res matches Some(r) ==> parts_ok(l, r),
        *l is Array || *l is And || *l is Or ==> res is Some,
{
    match l {
        CompiledLogic::Array(v) => {
            let mut ks: Vec<Option<&CompiledLogic>> = Vec::new();
            let is = item_refs(l, v);
            proof {
                assert(ref_views(ks@) =~= l@->Op_1);
                assert(item_views(is@) =~= l@->Op_2);
            }
            Some((Tag::Array, ks, is))
        },
        CompiledLogic::And(v) => {
            let mut ks: Vec<Option<&CompiledLogic>> = Vec::new();
            let is = item_refs(l, v);
            proof {
                assert(ref_views(ks@) =~= l@->Op_1);
                assert(item_views(is@) =~= l@->Op_2);
            }
            Some((Tag::And, ks, is))
        },
        CompiledLogic::Or(v) => {
            let mut ks: Vec<Option<&CompiledLogic>> = Vec::new();
            let is = item_refs(l, v);
            proof {
                assert(ref_views(ks@) =~= l@->Op_1);
                assert(item_views(is@) =~= l@->Op_2);
            }
            Some((Tag::Or, ks, is))
        },
        _ => None,
    }
}

#[verifier::spinoff_prover]
fn parts_1(l: &CompiledLogic) -> (res: Option<(Tag, Vec<Option<&CompiledLogic>>, Vec<&CompiledLogic>)>)
    ensures
        res matches Some(r) ==> parts_ok(l, r),
        *l is Add || *l is Subtract || *l is Multiply ==> res is Some,
{
    match l {
        CompiledLogic::Add(v) => {
            let mut ks: Vec<Option<&CompiledLogic>> = Vec::new();
            let is = item_refs(l, v);
            proof {
                assert(ref_views(ks@) =~= l@->Op_1);
                assert(item_views(is@) =~= l@->Op_2);
            }
            Some((Tag::Add, ks, is))
        },
        CompiledLogic::Subtract(v) => {
            let mut ks: Vec<Option<&CompiledLogic>> = Vec::new();
            let is = item_refs(l, v);
            proof {
                assert(ref_views(ks@) =~= l@->Op_1);
                assert(item_views(is@) =~= l@->Op_2);
            }
            Some((Tag::Subtract, ks, is))
        },
        CompiledLogic::Multiply(v) => {
            let mut ks: Vec<Option<&CompiledLogic>> = Vec::new();
            let is = item_refs(l, v);
            proof {
                assert(ref_views(ks@) =~= l@->Op_1);
                assert(item_views(is@) =~= l@->Op_2);
            }
            Some((Tag::Multiply, ks, is))
        },
        _ => None,
    }
}

#[verifier::spinoff_prover]
fn parts_2(l: &CompiledLogic) -> (res: Option<(Tag, Vec<Option<&CompiledLogic>>, Vec<&CompiledLogic>)>)
    ensures
        res matches Some(r) ==> parts_ok(l, r),
        *l is Divide || *l is Merge || *l is Cat ==> res is Some,
{
    match l {
        CompiledLogic::Divide(v) => {
            let mut ks: Vec<Option<&CompiledLogic>> = Vec::new();
            let is = item_refs(l, v);
            proof {
                assert(ref_views(ks@) =~= l@->Op_1);
                assert(item_views(is@) =~= l@->Op_2);
            }
            Some((Tag::Divide, ks, is))
        },
        CompiledLogic::Merge(v) => {
            let mut ks: Vec<Option<&CompiledLogic>> = Vec::new();
            let is = item_refs(l, v);
            proof {
                assert(ref_views(ks@) =~= l@->Op_1);
                assert(item_views(is@) =~= l@->Op_2);
            }
            Some((Tag::Merge, ks, is))
        },
        CompiledLogic::Cat(v) => {
            let mut ks: Vec<Option<&CompiledLogic>> = Vec::new();
            let is = item_refs(l, v);
            proof {
                assert(ref_views(ks@) =~= l@->Op_1);
                assert(item_views(is@) =~= l@->Op_2);
            }
            Some((Tag::Cat, ks, is))
        },
        _ => None,
    }
}

#[verifier::spinoff_prover]
fn parts_3(l: &CompiledLogic) -> (res: Option<(Tag, Vec<Option<&CompiledLogic>>, Vec<&CompiledLogic>)>)
    ensures
        res matches Some(r) ==> parts_ok(l, r),
        *l is Max || *l is Min || *l is Concat ==> res is Some,
{
    match l {
        CompiledLogic::Max(v) => {
            let mut ks: Vec<Option<&CompiledLogic>> = Vec::new();
            let is = item_refs(l, v);
            proof {
                assert(ref_views(ks@) =~= l@->Op_1);
                assert(item_views(is@) =~= l@->Op_2);
            }
            Some((Tag::Max, ks, is))
        },
        CompiledLogic::Min(v) => {
            let mut ks: Vec<Option<&CompiledLogic>> = Vec::new();
            let is = item_refs(l, v);
            proof {
                assert(ref_views(ks@) =~= l@->Op_1);
                assert(item_views(is@) =~= l@->Op_2);
            }
            Some((Tag::Min, ks, is))
        },
        CompiledLogic::Concat(v) => {
            let mut ks: Vec<Option<&CompiledLogic>> = Vec::new();
            let is = item_refs(l, v);
            proof {
                assert(ref_views(ks@) =~= l@->Op_1);
                assert(item_views(is@) =~= l@->Op_2);
            }
            Some((Tag::Concat, ks, is))
        },
        _ => None,
    }
}

#[verifier::spinoff_prover]
fn parts_4(l: &CompiledLogic) -> (res: Option<(Tag, Vec<Option<&CompiledLogic>>, Vec<&CompiledLogic>)>)
    ensures
        res matches Some(r) ==> parts_ok(l, r),
        *l is Multiplies || *l is Divides ==> res is Some,
{
    match l {
        CompiledLogic::Multiplies(v) => {
            let mut ks: Vec<Option<&CompiledLogic>> = Vec::new();
            let is = item_refs(l, v);
            proof {
                assert(ref_views(ks@) =~= l@->Op_1);
                assert(item_views(is@) =~= l@->Op_2);
            }
            Some((Tag::Multiplies, ks, is))
        },
        CompiledLogic::Divides(v) => {
            let mut ks: Vec<Option<&CompiledLogic>> = Vec::new();
            let is = item_refs(l, v);
            proof {
                assert(ref_views(ks@) =~= l@->Op_1);
                assert(item_views(is@) =~= l@->Op_2);
            }
            Some((Tag::Divides, ks, is))
        },
        _ => None,
    }
}

#[verifier::spinoff_prover]
fn parts_5(l: &CompiledLogic) -> (res: Option<(Tag, Vec<Option<&CompiledLogic>>, Vec<&CompiledLogic>)>)
    ensures
        res matches Some(r) ==> parts_ok(l, r),
        *l is Not || *l is Abs || *l is Round ==> res is Some,
{
    match l {
        CompiledLogic::Not(a) => {
            let mut ks: Vec<Option<&CompiledLogic>> = Vec::new();
            ks.push(Some(&**a));
            let is: Vec<&CompiledLogic> = Vec::new();
            proof {
                assert(ref_views(ks@) =~= l@->Op_1);
                assert(item_views(is@) =~= l@->Op_2);
            }
            Some((Tag::Not, ks, is))
        },
        CompiledLogic::Abs(a) => {
            let mut ks: Vec<Option<&CompiledLogic>> = Vec::new();
            ks.push(Some(&**a));
            let is: Vec<&CompiledLogic> = Vec::new();
            proof {
                assert(ref_views(ks@) =~= l@->Op_1);
                assert(item_views(is@) =~= l@->Op_2);
            }
            Some((Tag::Abs, ks, is))
        },
        CompiledLogic::Round(a) => {
            let mut ks: Vec<Option<&CompiledLogic>> = Vec::new();
            ks.push(Some(&**a));
            let is: Vec<&CompiledLogic> = Vec::new();
            proof {
                assert(ref_views(ks@) =~= l@->Op_1);
                assert(item_views(is@) =~= l@->Op_2);
            }
            Some((Tag::Round, ks, is))
        },
        _ => None,
    }
}

#[verifier::spinoff_prover]
fn parts_6(l: &CompiledLogic) -> (res: Option<(Tag, Vec<Option<&CompiledLogic>>, Vec<&CompiledLogic>)>)
    ensures
        res matches Some(r) ==> parts_ok(l, r),
        *l is RoundUp || *l is RoundDown || *l is Length ==> res is Some,
{
    match l {
        CompiledLogic::RoundUp(a) => {
            let mut ks: Vec<Option<&CompiledLogic>> = Vec::new();
            ks.push(Some(&**a));
            let is: Vec<&CompiledLogic> = Vec::new();
            proof {
                assert(ref_views(ks@) =~= l@->Op_1);
                assert(item_views(is@) =~= l@->Op_2);
            }
            Some((Tag::RoundUp, ks, is))
        },
        CompiledLogic::RoundDown(a) => {
            let mut ks: Vec<Option<&CompiledLogic>> = Vec::new();
            ks.push(Some(&**a));
            let is: Vec<&CompiledLogic> = Vec::new();
            proof {
                assert(ref_views(ks@) =~= l@->Op_1);
                assert(item_views(is@) =~= l@->Op_2);
            }
            Some((Tag::RoundDown, ks, is))
        },
        CompiledLogic::Length(a) => {
            let mut ks: Vec<Option<&CompiledLogic>> = Vec::new();
            ks.push(Some(&**a));
            let is: Vec<&CompiledLogic> = Vec::new();
            proof {
                assert(ref_views(ks@) =~= l@->Op_1);
                assert(item_views(is@) =~= l@->Op_2);
            }
            Some((Tag::Length, ks, is))
        },
        _ => None,
    }
}

#[verifier::spinoff_prover]
fn parts_7(l: &CompiledLogic) -> (res: Option<(Tag, Vec<Option<&CompiledLogic>>, Vec<&CompiledLogic>)>)
    ensures
        res matches Some(r) ==> parts_ok(l, r),
        *l is Len || *l is IsEmpty || *l is Year ==> res is Some,
{
    match l {
        CompiledLogic::Len(a) => {
            let mut ks: Vec<Option<&CompiledLogic>> = Vec::new();
            ks.push(Some(&**a));
            let is: Vec<&CompiledLogic> = Vec::new();
            proof {
                assert(ref_views(ks@) =~= l@->Op_1);
                assert(item_views(is@) =~= l@->Op_2);
            }
            Some((Tag::Len, ks, is))
        },
        CompiledLogic::IsEmpty(a) => {
            let mut ks: Vec<Option<&CompiledLogic>> = Vec::new();
            ks.push(Some(&**a));
            let is: Vec<&CompiledLogic> = Vec::new();
            proof {
                assert(ref_views(ks@) =~= l@->Op_1);
                assert(item_views(is@) =~= l@->Op_2);
            }
            Some((Tag::IsEmpty, ks, is))
        },
        CompiledLogic::Year(a) => {
            let mut ks: Vec<Option<&CompiledLogic>> = Vec::new();
            ks.push(Some(&**a));
            let is: Vec<&CompiledLogic> = Vec::new();
            proof {
                assert(ref_views(ks@) =~= l@->Op_1);
                assert(item_views(is@) =~= l@->Op_2);
            }
            Some((Tag::Year, ks, is))
        },
        _ => None,
    }
}

#[verifier::spinoff_prover]
fn parts_8(l: &CompiledLogic) -> (res: Option<(Tag, Vec<Option<&CompiledLogic>>, Vec<&CompiledLogic>)>)
    ensures
        res matches Some(r) ==> parts_ok(l, r),
        *l is Month || *l is Day ==> res is Some,
{
    match l {
        CompiledLogic::Month(a) => {
            let mut ks: Vec<Option<&CompiledLogic>> = Vec::new();
            ks.push(Some(&**a));
            let is: Vec<&CompiledLogic> = Vec::new();
            proof {
                assert(ref_views(ks@) =~= l@->Op_1);
                assert(item_views(is@) =~= l@->Op_2);
            }
            Some((Tag::Month, ks, is))
        },
        CompiledLogic::Day(a) => {
            let mut ks: Vec<Option<&CompiledLogic>> = Vec::new();
            ks.push(Some(&**a));
            let is: Vec<&CompiledLogic> = Vec::new();
            proof {
                assert(ref_views(ks@) =~= l@->Op_1);
                assert(item_views(is@) =~= l@->Op_2);
            }
            Some((Tag::Day, ks, is))
        },
        _ => None,
    }
}

#[verifier::spinoff_prover]
fn parts_9(l: &CompiledLogic) -> (res: Option<(Tag, Vec<Option<&CompiledLogic>>, Vec<&CompiledLogic>)>)
    ensures
        res matches Some(r) ==> parts_ok(l, r),
        *l is If || *l is Reduce || *l is Mid ==> res is Some,
{
    match l {
        CompiledLogic::If(a, b, c) => {
            let mut ks: Vec<Option<&CompiledLogic>> = Vec::new();
            ks.push(Some(&**a));
            ks.push(Some(&**b));
            ks.push(Some(&**c));
            let is: Vec<&CompiledLogic> = Vec::new();
            proof {
                assert(ref_views(ks@) =~= l@->Op_1);
                assert(item_views(is@) =~= l@->Op_2);
            }
            Some((Tag::If, ks, is))
        },
        CompiledLogic::Reduce(a, b, c) => {
            let mut ks: Vec<Option<&CompiledLogic>> = Vec::new();
            ks.push(Some(&**a));
            ks.push(Some(&**b));
            ks.push(Some(&**c));
            let is: Vec<&CompiledLogic> = Vec::new();
            proof {
                assert(ref_views(ks@) =~= l@->Op_1);
                assert(item_views(is@) =~= l@->Op_2);
            }
            Some((Tag::Reduce, ks, is))
        },
        CompiledLogic::Mid(a, b, c) => {
            let mut ks: Vec<Option<&CompiledLogic>> = Vec::new();
            ks.push(Some(&**a));
            ks.push(Some(&**b));
            ks.push(Some(&**c));
            let is: Vec<&CompiledLogic> = Vec::new();
            proof {
                assert(ref_views(ks@) =~= l@->Op_1);
                assert(item_views(is@) =~= l@->Op_2);
            }
            Some((Tag::Mid, ks, is))
        },
        _ => None,
    }
}

#[verifier::spinoff_prover]
fn parts_10(l: &CompiledLogic) -> (res: Option<(Tag, Vec<Option<&CompiledLogic>>, Vec<&CompiledLogic>)>)
    ensures
        res matches Some(r) ==> parts_ok(l, r),
        *l is Date || *l is For || *l is DateDif ==> res is Some,
{
    match l {
        CompiledLogic::Date(a, b, c) => {
            let mut ks: Vec<Option<&CompiledLogic>> = Vec::new();
            ks.push(Some(&**a));
            ks.push(Some(&**b));
            ks.push(Some(&**c));
            let is: Vec<&CompiledLogic> = Vec::new();
            proof {
                assert(ref_views(ks@) =~= l@->Op_1);
                assert(item_views(is@) =~= l@->Op_2);
            }
            Some((Tag::Date, ks, is))
        },
        CompiledLogic::For(a, b, c) => {
            let mut ks: Vec<Option<&CompiledLogic>> = Vec::new();
            ks.push(Some(&**a));
            ks.push(Some(&**b));
            ks.push(Some(&**c));
            let is: Vec<&CompiledLogic> = Vec::new();
            proof {
                assert(ref_views(ks@) =~= l@->Op_1);
                assert(item_views(is@) =~= l@->Op_2);
            }
            Some((Tag::For, ks, is))
        },
        CompiledLogic::DateDif(a, b, c) => {
            let mut ks: Vec<Option<&CompiledLogic>> = Vec::new();
            ks.push(Some(&**a));
            ks.push(Some(&**b));
            ks.push(Some(&**c));
            let is: Vec<&CompiledLogic> = Vec::new();
            proof {
                assert(ref_views(ks@) =~= l@->Op_1);
                assert(item_views(is@) =~= l@->Op_2);
            }
            Some((Tag::DateDif, ks, is))
        },
        _ => None,
    }
}

#[verifier::spinoff_prover]
fn parts_11(l: &CompiledLogic) -> (res: Option<(Tag, Vec<Option<&CompiledLogic>>, Vec<&CompiledLogic>)>)
    ensures
        res matches Some(r) ==> parts_ok(l, r),
        *l is MapOptions ==> res is Some,
{
    match l {
        CompiledLogic::MapOptions(a, b, c) => {
            let mut ks: Vec<Option<&CompiledLogic>> = Vec::new();
            ks.push(Some(&**a));
            ks.push(Some(&**b));
            ks.push(Some(&**c));
            let is: Vec<&CompiledLogic> = Vec::new();
            proof {
                assert(ref_views(ks@) =~= l@->Op_1);
                assert(item_views(is@) =~= l@->Op_2);
            }
            Some((Tag::MapOptions, ks, is))
        },
        _ => None,
    }
}

#[verifier::spinoff_prover]
fn parts_12(l: &CompiledLogic) -> (res: Option<(Tag, Vec<Option<&CompiledLogic>>, Vec<&CompiledLogic>)>)
    ensures
        res matches Some(r) ==> parts_ok(l, r),
        *l is Equal || *l is StrictEqual || *l is NotEqual ==> res is Some,
{
    match l {
        CompiledLogic::Equal(a, b) => {
            let mut ks: Vec<Option<&CompiledLogic>> = Vec::new();
            ks.push(Some(&**a));
            ks.push(Some(&**b));
            let is: Vec<&CompiledLogic> = Vec::new();
            proof {
                assert(ref_views(ks@) =~= l@->Op_1);
                assert(item_views(is@) =~= l@->Op_2);
            }
            Some((Tag::Equal, ks, is))
        },
        CompiledLogic::StrictEqual(a, b) => {
            let mut ks: Vec<Option<&CompiledLogic>> = Vec::new();
            ks.push(Some(&**a));
            ks.push(Some(&**b));
            let is: Vec<&CompiledLogic> = Vec::new();
            proof {
                assert(ref_views(ks@) =~= l@->Op_1);
                assert(item_views(is@) =~= l@->Op_2);
            }
            Some((Tag::StrictEqual, ks, is))
        },
        CompiledLogic::NotEqual(a, b) => {
            let mut ks: Vec<Option<&CompiledLogic>> = Vec::new();
            ks.push(Some(&**a));
            ks.push(Some(&**b));
            let is: Vec<&CompiledLogic> = Vec::new();
            proof {
                assert(ref_views(ks@) =~= l@->Op_1);
                assert(item_views(is@) =~= l@->Op_2);
            }
            Some((Tag::NotEqual, ks, is))
        },
        _ => None,
    }
}

#[verifier::spinoff_prover]
fn parts_13(l: &CompiledLogic) -> (res: Option<(Tag, Vec<Option<&CompiledLogic>>, Vec<&CompiledLogic>)>)
    ensures
        res matches Some(r) ==> parts_ok(l, r),
        *l is StrictNotEqual || *l is LessThan || *l is LessThanOrEqual ==> res is Some,
{
    match l {
        CompiledLogic::StrictNotEqual(a, b) => {
            let mut ks: Vec<Option<&CompiledLogic>> = Vec::new();
            ks.push(Some(&**a));
            ks.push(Some(&**b));
            let is: Vec<&CompiledLogic> = Vec::new();
            proof {
                assert(ref_views(ks@) =~= l@->Op_1);
                assert(item_views(is@) =~= l@->Op_2);
            }
            Some((Tag::StrictNotEqual, ks, is))
        },
        CompiledLogic::LessThan(a, b) => {
            let mut ks: Vec<Option<&CompiledLogic>> = Vec::new();
            ks.push(Some(&**a));
            ks.push(Some(&**b));
            let is: Vec<&CompiledLogic> = Vec::new();
            proof {
                assert(ref_views(ks@) =~= l@->Op_1);
                assert(item_views(is@) =~= l@->Op_2);
            }
            Some((Tag::LessThan, ks, is))
        },
        CompiledLogic::LessThanOrEqual(a, b) => {
            let mut ks: Vec<Option<&CompiledLogic>> = Vec::new();
            ks.push(Some(&**a));
            ks.push(Some(&**b));
            let is: Vec<&CompiledLogic> = Vec::new();
            proof {
                assert(ref_views(ks@) =~= l@->Op_1);
                assert(item_views(is@) =~= l@->Op_2);
            }
            Some((Tag::LessThanOrEqual, ks, is))
        },
        _ => None,
    }
}

#[verifier::spinoff_prover]
fn parts_14(l: &CompiledLogic) -> (res: Option<(Tag, Vec<Option<&CompiledLogic>>, Vec<&CompiledLogic>)>)
    ensures
        res matches Some(r) ==> parts_ok(l, r),
        *l is GreaterThan || *l is GreaterThanOrEqual || *l is Modulo ==> res is Some,
{
    match l {
        CompiledLogic::GreaterThan(a, b) => {
            let mut ks: Vec<Option<&CompiledLogic>> = Vec::new();
            ks.push(Some(&**a));
            ks.push(Some(&**b));
            let is: Vec<&CompiledLogic> = Vec::new();
            proof {
                assert(ref_views(ks@) =~= l@->Op_1);
                assert(item_views(is@) =~= l@->Op_2);
            }
            Some((Tag::GreaterThan, ks, is))
        },
        CompiledLogic::GreaterThanOrEqual(a, b) => {
            let mut ks: Vec<Option<&CompiledLogic>> = Vec::new();
            ks.push(Some(&**a));
            ks.push(Some(&**b));
            let is: Vec<&CompiledLogic> = Vec::new();
            proof {
                assert(ref_views(ks@) =~= l@->Op_1);
                assert(item_views(is@) =~= l@->Op_2);
            }
            Some((Tag::GreaterThanOrEqual, ks, is))
        },
        CompiledLogic::Modulo(a, b) => {
            let mut ks: Vec<Option<&CompiledLogic>> = Vec::new();
            ks.push(Some(&**a));
            ks.push(Some(&**b));
            let is: Vec<&CompiledLogic> = Vec::new();
            proof {
                assert(ref_views(ks@) =~= l@->Op_1);
                assert(item_views(is@) =~= l@->Op_2);
            }
            Some((Tag::Modulo, ks, is))
        },
        _ => None,
    }
}

#[verifier::spinoff_prover]
fn parts_15(l: &CompiledLogic) -> (res: Option<(Tag, Vec<Option<&CompiledLogic>>, Vec<&CompiledLogic>)>)
    ensures
        res matches Some(r) ==> parts_ok(l, r),
        *l is Power || *l is MapEach || *l is Filter ==> res is Some,
{
    match l {
        CompiledLogic::Power(a, b) => {
            let mut ks: Vec<Option<&CompiledLogic>> = Vec::new();
            ks.push(Some(&**a));
            ks.push(Some(&**b));
            let is: Vec<&CompiledLogic> = Vec::new();
            proof {
                assert(ref_views(ks@) =~= l@->Op_1);
                assert(item_views(is@) =~= l@->Op_2);
            }
            Some((Tag::Power, ks, is))
        },
        CompiledLogic::MapEach(a, b) => {
            let mut ks: Vec<Option<&CompiledLogic>> = Vec::new();
            ks.push(Some(&**a));
            ks.push(Some(&**b));
            let is: Vec<&CompiledLogic> = Vec::new();
            proof {
                assert(ref_views(ks@) =~= l@->Op_1);
                assert(item_views(is@) =~= l@->Op_2);
            }
            Some((Tag::MapEach, ks, is))
        },
        CompiledLogic::Filter(a, b) => {
            let mut ks: Vec<Option<&CompiledLogic>> = Vec::new();
            ks.push(Some(&**a));
            ks.push(Some(&**b));
            let is: Vec<&CompiledLogic> = Vec::new();
            proof {
                assert(ref_views(ks@) =~= l@->Op_1);
                assert(item_views(is@) =~= l@->Op_2);
            }
            Some((Tag::Filter, ks, is))
        },
        _ => None,
    }
}

#[verifier::spinoff_prover]
fn parts_16(l: &CompiledLogic) -> (res: Option<(Tag, Vec<Option<&CompiledLogic>>, Vec<&CompiledLogic>)>)
    ensures
        res matches Some(r) ==> parts_ok(l, r),
        *l is All || *l is SomeOf || *l is NoneOf ==> res is Some,
{
    match l {
        CompiledLogic::All(a, b) => {
            let mut ks: Vec<Option<&CompiledLogic>> = Vec::new();
            ks.push(Some(&**a));
            ks.push(Some(&**b));
            let is: Vec<&CompiledLogic> = Vec::new();
            proof {
                assert(ref_views(ks@) =~= l@->Op_1);
                assert(item_views(is@) =~= l@->Op_2);
            }
            Some((Tag::All, ks, is))
        },
        CompiledLogic::SomeOf(a, b) => {
            let mut ks: Vec<Option<&CompiledLogic>> = Vec::new();
            ks.push(Some(&**a));
            ks.push(Some(&**b));
            let is: Vec<&CompiledLogic> = Vec::new();
            proof {
                assert(ref_views(ks@) =~= l@->Op_1);
                assert(item_views(is@) =~= l@->Op_2);
            }
            Some((Tag::SomeOf, ks, is))
        },
        CompiledLogic::NoneOf(a, b) => {
            let mut ks: Vec<Option<&CompiledLogic>> = Vec::new();
            ks.push(Some(&**a));
            ks.push(Some(&**b));
            let is: Vec<&CompiledLogic> = Vec::new();
            proof {
                assert(ref_views(ks@) =~= l@->Op_1);
                assert(item_views(is@) =~= l@->Op_2);
            }
            Some((Tag::NoneOf, ks, is))
        },
        _ => None,
    }
}

#[verifier::spinoff_prover]
fn parts_17(l: &CompiledLogic) -> (res: Option<(Tag, Vec<Option<&CompiledLogic>>, Vec<&CompiledLogic>)>)
    ensures
        res matches Some(r) ==> parts_ok(l, r),
        *l is In || *l is Pow || *l is SplitValue ==> res is Some,
{
    match l {
        CompiledLogic::In(a, b) => {
            let mut ks: Vec<Option<&CompiledLogic>> = Vec::new();
            ks.push(Some(&**a));
            ks.push(Some(&**b));
            let is: Vec<&CompiledLogic> = Vec::new();
            proof {
                assert(ref_views(ks@) =~= l@->Op_1);
                assert(item_views(is@) =~= l@->Op_2);
            }
            Some((Tag::In, ks, is))
        },
        CompiledLogic::Pow(a, b) => {
            let mut ks: Vec<Option<&CompiledLogic>> = Vec::new();
            ks.push(Some(&**a));
            ks.push(Some(&**b));
            let is: Vec<&CompiledLogic> = Vec::new();
            proof {
                assert(ref_views(ks@) =~= l@->Op_1);
                assert(item_views(is@) =~= l@->Op_2);
            }
            Some((Tag::Pow, ks, is))
        },
        CompiledLogic::SplitValue(a, b) => {
            let mut ks: Vec<Option<&CompiledLogic>> = Vec::new();
            ks.push(Some(&**a));
            ks.push(Some(&**b));
            let is: Vec<&CompiledLogic> = Vec::new();
            proof {
                assert(ref_views(ks@) =~= l@->Op_1);
                assert(item_views(is@) =~= l@->Op_2);
            }
            Some((Tag::SplitValue, ks, is))
        },
        _ => None,
    }
}

#[verifier::spinoff_prover]
fn parts_18(l: &CompiledLogic) -> (res: Option<(Tag, Vec<Option<&CompiledLogic>>, Vec<&CompiledLogic>)>)
    ensures
        res matches Some(r) ==> parts_ok(l, r),
        *l is Xor || *l is IfNull || *l is Days ==> res is Some,
{
    match l {
        CompiledLogic::Xor(a, b) => {
            let mut ks: Vec<Option<&CompiledLogic>> = Vec::new();
            ks.push(Some(&**a));
            ks.push(Some(&**b));
            let is: Vec<&CompiledLogic> = Vec::new();
            proof {
                assert(ref_views(ks@) =~= l@->Op_1);
                assert(item_views(is@) =~= l@->Op_2);
            }
            Some((Tag::Xor, ks, is))
        },
        CompiledLogic::IfNull(a, b) => {
            let mut ks: Vec<Option<&CompiledLogic>> = Vec::new();
            ks.push(Some(&**a));
            ks.push(Some(&**b));
            let is: Vec<&CompiledLogic> = Vec::new();
            proof {
                assert(ref_views(ks@) =~= l@->Op_1);
                assert(item_views(is@) =~= l@->Op_2);
            }
            Some((Tag::IfNull, ks, is))
        },
        CompiledLogic::Days(a, b) => {
            let mut ks: Vec<Option<&CompiledLogic>> = Vec::new();
            ks.push(Some(&**a));
            ks.push(Some(&**b));
            let is: Vec<&CompiledLogic> = Vec::new();
            proof {
                assert(ref_views(ks@) =~= l@->Op_1);
                assert(item_views(is@) =~= l@->Op_2);
            }
            Some((Tag::Days, ks, is))
        },
        _ => None,
    }
}

#[verifier::spinoff_prover]
fn parts_19(l: &CompiledLogic) -> (res: Option<(Tag, Vec<Option<&CompiledLogic>>, Vec<&CompiledLogic>)>)
    ensures
        res matches Some(r) ==> parts_ok(l, r),
        *l is MaxAt || *l is RangeOptions ==> res is Some,
{
    match l {
        CompiledLogic::MaxAt(a, b) => {
            let mut ks: Vec<Option<&CompiledLogic>> = Vec::new();
            ks.push(Some(&**a));
            ks.push(Some(&**b));
            let is: Vec<&CompiledLogic> = Vec::new();
            proof {
                assert(ref_views(ks@) =~= l@->Op_1);
                assert(item_views(is@) =~= l@->Op_2);
            }
            Some((Tag::MaxAt, ks, is))
        },
        CompiledLogic::RangeOptions(a, b) => {
            let mut ks: Vec<Option<&CompiledLogic>> = Vec::new();
            ks.push(Some(&**a));
            ks.push(Some(&**b));
            let is: Vec<&CompiledLogic> = Vec::new();
            proof {
                assert(ref_views(ks@) =~= l@->Op_1);
                assert(item_views(is@) =~= l@->Op_2);
            }
            Some((Tag::RangeOptions, ks, is))
        },
        _ => None,
    }
}

#[verifier::spinoff_prover]
#[verifier::rlimit(60)]
fn parts_20(l: &CompiledLogic) -> (res: Option<(Tag, Vec<Option<&CompiledLogic>>, Vec<&CompiledLogic>)>)
    ensures
        res matches Some(r) ==> parts_ok(l, r),
        *l is Substr || *l is Search || *l is SplitText ==> res is Some,
{
    match l {
        CompiledLogic::Substr(a, b, c) => {
            let mut ks: Vec<Option<&CompiledLogic>> = Vec::new();
            ks.push(Some(&**a));
            ks.push(Some(&**b));
            ks.push(opt_ref(l, c));
            let is: Vec<&CompiledLogic> = Vec::new();
            proof {
                assert(ref_views(ks@) =~= l@->Op_1);
                assert(item_views(is@) =~= l@->Op_2);
            }
            Some((Tag::Substr, ks, is))
        },
        CompiledLogic::Search(a, b, c) => {
            let mut ks: Vec<Option<&CompiledLogic>> = Vec::new();
            ks.push(Some(&**a));
            ks.push(Some(&**b));
            ks.push(opt_ref(l, c));
            let is: Vec<&CompiledLogic> = Vec::new();
            proof {
                assert(ref_views(ks@) =~= l@->Op_1);
                assert(item_views(is@) =~= l@->Op_2);
            }
            Some((Tag::Search, ks, is))
        },
        CompiledLogic::SplitText(a, b, c) => {
            let mut ks: Vec<Option<&CompiledLogic>> = Vec::new();
            ks.push(Some(&**a));
            ks.push(Some(&**b));
            ks.push(opt_ref(l, c));
            let is: Vec<&CompiledLogic> = Vec::new();
            proof {
                assert(ref_views(ks@) =~= l@->Op_1);
                assert(item_views(is@) =~= l@->Op_2);
            }
            Some((Tag::SplitText, ks, is))
        },
        _ => None,
    }
}

#[verifier::spinoff_prover]
#[verifier::rlimit(60)]
fn parts_21(l: &CompiledLogic) -> (res: Option<(Tag, Vec<Option<&CompiledLogic>>, Vec<&CompiledLogic>)>)
    ensures
        res matches Some(r) ==> parts_ok(l, r),
        *l is ValueAt || *l is YearFrac ==> res is Some,
{
    match l {
        CompiledLogic::ValueAt(a, b, c) => {
            let mut ks: Vec<Option<&CompiledLogic>> = Vec::new();
            ks.push(Some(&**a));
            ks.push(Some(&**b));
            ks.push(opt_ref(l, c));
            let is: Vec<&CompiledLogic> = Vec::new();
            proof {
                assert(ref_views(ks@) =~= l@->Op_1);
                assert(item_views(is@) =~= l@->Op_2);
            }
            Some((Tag::ValueAt, ks, is))
        },
        CompiledLogic::YearFrac(a, b, c) => {
            let mut ks: Vec<Option<&CompiledLogic>> = Vec::new();
            ks.push(Some(&**a));
            ks.push(Some(&**b));
            ks.push(opt_ref(l, c));
            let is: Vec<&CompiledLogic> = Vec::new();
            proof {
                assert(ref_views(ks@) =~= l@->Op_1);
                assert(item_views(is@) =~= l@->Op_2);
            }
            Some((Tag::YearFrac, ks, is))
        },
        _ => None,
    }
}

#[verifier::spinoff_prover]
#[verifier::rlimit(60)]
fn parts_22(l: &CompiledLogic) -> (res: Option<(Tag, Vec<Option<&CompiledLogic>>, Vec<&CompiledLogic>)>)
    ensures
        res matches Some(r) ==> parts_ok(l, r),
        *l is Left || *l is Right ==> res is Some,
{
    match l {
        CompiledLogic::Left(a, b) => {
            let mut ks: Vec<Option<&CompiledLogic>> = Vec::new();
            ks.push(Some(&**a));
            ks.push(opt_ref(l, b));
            let is: Vec<&CompiledLogic> = Vec::new();
            proof {
                assert(ref_views(ks@) =~= l@->Op_1);
                assert(item_views(is@) =~= l@->Op_2);
            }
            Some((Tag::Left, ks, is))
        },
        CompiledLogic::Right(a, b) => {
            let mut ks: Vec<Option<&CompiledLogic>> = Vec::new();
            ks.push(Some(&**a));
            ks.push(opt_ref(l, b));
            let is: Vec<&CompiledLogic> = Vec::new();
            proof {
                assert(ref_views(ks@) =~= l@->Op_1);
                assert(item_views(is@) =~= l@->Op_2);
            }
            Some((Tag::Right, ks, is))
        },
        _ => None,
    }
}

#[verifier::spinoff_prover]
fn parts_23(l: &CompiledLogic) -> (res: Option<(Tag, Vec<Option<&CompiledLogic>>, Vec<&CompiledLogic>)>)
    ensures
        res matches Some(r) ==> parts_ok(l, r),
        *l is Empty || *l is Today || *l is Now ==> res is Some,
{
    match l {
        CompiledLogic::Empty => {
            let mut ks: Vec<Option<&CompiledLogic>> = Vec::new();
            let is: Vec<&CompiledLogic> = Vec::new();
            proof {
                assert(ref_views(ks@) =~= l@->Op_1);
                assert(item_views(is@) =~= l@->Op_2);
            }
            Some((Tag::Empty, ks, is))
        },
        CompiledLogic::Today => {
            let mut ks: Vec<Option<&CompiledLogic>> = Vec::new();
            let is: Vec<&CompiledLogic> = Vec::new();
            proof {
                assert(ref_views(ks@) =~= l@->Op_1);
                assert(item_views(is@) =~= l@->Op_2);
            }
            Some((Tag::Today, ks, is))
        },
        CompiledLogic::Now => {
            let mut ks: Vec<Option<&CompiledLogic>> = Vec::new();
            let is: Vec<&CompiledLogic> = Vec::new();
            proof {
                assert(ref_views(ks@) =~= l@->Op_1);
                assert(item_views(is@) =~= l@->Op_2);
            }
            Some((Tag::Now, ks, is))
        },
        _ => None,
    }
}

#[verifier::spinoff_prover]
fn parts_24(l: &CompiledLogic) -> (res: Option<(Tag, Vec<Option<&CompiledLogic>>, Vec<&CompiledLogic>)>)
    ensures
        res matches Some(r) ==> parts_ok(l, r),
        *l is Sum ==> res is Some,
{
    match l {
        CompiledLogic::Sum(a, b, c) => {
            let mut ks: Vec<Option<&CompiledLogic>> = Vec::new();
            ks.push(Some(&**a));
            ks.push(opt_ref(l, b));
            ks.push(opt_ref(l, c));
            let is: Vec<&CompiledLogic> = Vec::new();
            proof {
                assert(ref_views(ks@) =~= l@->Op_1);
                assert(item_views(is@) =~= l@->Op_2);
            }
            Some((Tag::Sum, ks, is))
        },
        _ => None,
    }
}

#[verifier::spinoff_prover]
fn parts_25(l: &CompiledLogic) -> (res: Option<(Tag, Vec<Option<&CompiledLogic>>, Vec<&CompiledLogic>)>)
    ensures
        res matches Some(r) ==> parts_ok(l, r),
        *l is IndexAt ==> res is Some,
{
    match l {
        CompiledLogic::IndexAt(a, b, c, d) => {
            let mut ks: Vec<Option<&CompiledLogic>> = Vec::new();
            ks.push(Some(&**a));
            ks.push(Some(&**b));
            ks.push(Some(&**c));
            ks.push(opt_ref(l, d));
            let is: Vec<&CompiledLogic> = Vec::new();
            proof {
                assert(ref_views(ks@) =~= l@->Op_1);
                assert(item_views(is@) =~= l@->Op_2);
            }
            Some((Tag::IndexAt, ks, is))
        },
        _ => None,
    }
}

#[verifier::spinoff_prover]
fn parts_26(l: &CompiledLogic) -> (res: Option<(Tag, Vec<Option<&CompiledLogic>>, Vec<&CompiledLogic>)>)
    ensures
        res matches Some(r) ==> parts_ok(l, r),
        *l is Match || *l is MatchRange || *l is Choose ==> res is Some,
{
    match l {
        CompiledLogic::Match(a, v) => {
            let mut ks: Vec<Option<&CompiledLogic>> = Vec::new();
            ks.push(Some(&**a));
            let is = item_refs(l, v);
            proof {
                assert(ref_views(ks@) =~= l@->Op_1);
                assert(item_views(is@) =~= l@->Op_2);
            }
            Some((Tag::Match, ks, is))
        },
        CompiledLogic::MatchRange(a, v) => {
            let mut ks: Vec<Option<&CompiledLogic>> = Vec::new();
            ks.push(Some(&**a));
            let is = item_refs(l, v);
            proof {
                assert(ref_views(ks@) =~= l@->Op_1);
                assert(item_views(is@) =~= l@->Op_2);
            }
            Some((Tag::MatchRange, ks, is))
        },
        CompiledLogic::Choose(a, v) => {
            let mut ks: Vec<Option<&CompiledLogic>> = Vec::new();
            ks.push(Some(&**a));
            let is = item_refs(l, v);
            proof {
                assert(ref_views(ks@) =~= l@->Op_1);
                assert(item_views(is@) =~= l@->Op_2);
            }
            Some((Tag::Choose, ks, is))
        },
        _ => None,
    }
}

#[verifier::spinoff_prover]
fn parts_27(l: &CompiledLogic) -> (res: Option<(Tag, Vec<Option<&CompiledLogic>>, Vec<&CompiledLogic>)>)
    ensures
        res matches Some(r) ==> parts_ok(l, r),
        *l is FindIndex ==> res is Some,
{
    match l {
        CompiledLogic::FindIndex(a, v) => {
            let mut ks: Vec<Option<&CompiledLogic>> = Vec::new();
            ks.push(Some(&**a));
            let is = item_refs(l, v);
            proof {
                assert(ref_views(ks@) =~= l@->Op_1);
                assert(item_views(is@) =~= l@->Op_2);
            }
            Some((Tag::FindIndex, ks, is))
        },
        _ => None,
    }
}

#[verifier::spinoff_prover]
fn parts_28(l: &CompiledLogic) -> (res: Option<(Tag, Vec<Option<&CompiledLogic>>, Vec<&CompiledLogic>)>)
    ensures
        res matches Some(r) ==> parts_ok(l, r),
        *l is MapOptionsIf ==> res is Some,
{
    match l {
        CompiledLogic::MapOptionsIf(a, b, c, v) => {
            let mut ks: Vec<Option<&CompiledLogic>> = Vec::new();
            ks.push(Some(&**a));
            ks.push(Some(&**b));
            ks.push(Some(&**c));
            let is = item_refs(l, v);
            proof {
                assert(ref_views(ks@) =~= l@->Op_1);
                assert(item_views(is@) =~= l@->Op_2);
            }
            Some((Tag::MapOptionsIf, ks, is))
        },
        _ => None,
    }
}

} // verus!
