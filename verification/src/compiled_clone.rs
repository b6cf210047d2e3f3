use vstd::prelude::*;
use crate::compiled::{CompiledLogic, LogicView, Tag, logic_views, opt_logic_view, string_views};
use crate::text::copy_string;

verus! {

impl CompiledLogic {
    /// A copy of this expression, node for node.
    pub fn deep_clone(&self) -> (res: CompiledLogic)
        ensures
            res@ == self@,
        decreases self, 1nat,
    {
        match self {
            CompiledLogic::Null => CompiledLogic::Null,
            CompiledLogic::Bool(b) => CompiledLogic::Bool(*b),
            CompiledLogic::Number(n) => CompiledLogic::Number(copy_string(n)),
            CompiledLogic::String(s) => CompiledLogic::String(copy_string(s)),
            CompiledLogic::Var(n, d) => CompiledLogic::Var(copy_string(n), Self::clone_default(d)),
            CompiledLogic::Ref(n, d) => CompiledLogic::Ref(copy_string(n), Self::clone_default(d)),
            CompiledLogic::Missing(ks) => CompiledLogic::Missing(clone_strings(ks)),
            CompiledLogic::MissingSome(m, ks) => CompiledLogic::MissingSome(Box::new(m.deep_clone()), clone_strings(ks)),
            CompiledLogic::Return(v) => CompiledLogic::Return(Box::new(v.deep_clone())),
            CompiledLogic::Array(..) | CompiledLogic::And(..) | CompiledLogic::Or(..) | CompiledLogic::Add(..) | CompiledLogic::Subtract(..) | CompiledLogic::Multiply(..) => self.clone_shape_list_0(),
            CompiledLogic::Divide(..) | CompiledLogic::Merge(..) | CompiledLogic::Cat(..) | CompiledLogic::Max(..) | CompiledLogic::Min(..) | CompiledLogic::Concat(..) => self.clone_shape_list_1(),
            CompiledLogic::Multiplies(..) | CompiledLogic::Divides(..) => self.clone_shape_list_2(),
            CompiledLogic::Empty | CompiledLogic::Today | CompiledLogic::Now => self.clone_shape_k0_0(),
            CompiledLogic::Not(..) | CompiledLogic::Abs(..) | CompiledLogic::Round(..) | CompiledLogic::RoundUp(..) | CompiledLogic::RoundDown(..) | CompiledLogic::Length(..) => self.clone_shape_k1_0(),
            CompiledLogic::Len(..) | CompiledLogic::IsEmpty(..) | CompiledLogic::Year(..) | CompiledLogic::Month(..) | CompiledLogic::Day(..) => self.clone_shape_k1_1(),
            CompiledLogic::Equal(..) | CompiledLogic::StrictEqual(..) => self.clone_shape_k2_0(),
            CompiledLogic::NotEqual(..) | CompiledLogic::StrictNotEqual(..) => self.clone_shape_k2_1(),
            CompiledLogic::LessThan(..) | CompiledLogic::LessThanOrEqual(..) => self.clone_shape_k2_2(),
            CompiledLogic::GreaterThan(..) | CompiledLogic::GreaterThanOrEqual(..) => self.clone_shape_k2_3(),
            CompiledLogic::Modulo(..) | CompiledLogic::Power(..) => self.clone_shape_k2_4(),
            CompiledLogic::MapEach(..) | CompiledLogic::Filter(..) => self.clone_shape_k2_5(),
            CompiledLogic::All(..) | CompiledLogic::SomeOf(..) => self.clone_shape_k2_6(),
            CompiledLogic::NoneOf(..) | CompiledLogic::In(..) => self.clone_shape_k2_7(),
            CompiledLogic::Pow(..) | CompiledLogic::SplitValue(..) => self.clone_shape_k2_8(),
            CompiledLogic::Xor(..) | CompiledLogic::IfNull(..) => self.clone_shape_k2_9(),
            CompiledLogic::Days(..) | CompiledLogic::MaxAt(..) => self.clone_shape_k2_10(),
            CompiledLogic::RangeOptions(..) => self.clone_shape_k2_11(),
            CompiledLogic::If(..) => self.clone_shape_k3_0(),
            CompiledLogic::Reduce(..) => self.clone_shape_k3_1(),
            CompiledLogic::Mid(..) => self.clone_shape_k3_2(),
            CompiledLogic::Date(..) => self.clone_shape_k3_3(),
            CompiledLogic::For(..) => self.clone_shape_k3_4(),
            CompiledLogic::DateDif(..) => self.clone_shape_k3_5(),
            CompiledLogic::MapOptions(..) => self.clone_shape_k3_6(),
            CompiledLogic::Substr(..) => self.clone_shape_k2o_0(),
            CompiledLogic::Search(..) => self.clone_shape_k2o_1(),
            CompiledLogic::SplitText(..) => self.clone_shape_k2o_2(),
            CompiledLogic::ValueAt(..) => self.clone_shape_k2o_3(),
            CompiledLogic::YearFrac(..) => self.clone_shape_k2o_4(),
            CompiledLogic::Left(..) | CompiledLogic::Right(..) => self.clone_shape_k1o_0(),
            CompiledLogic::Sum(..) => self.clone_shape_k1oo_0(),
            CompiledLogic::IndexAt(..) => self.clone_shape_k3o_0(),
            CompiledLogic::Match(..) | CompiledLogic::MatchRange(..) | CompiledLogic::Choose(..) | CompiledLogic::FindIndex(..) => self.clone_shape_k1l_0(),
            CompiledLogic::MapOptionsIf(..) => self.clone_shape_k3l_0(),
        }
    }

    fn clone_default(d: &Option<Box<CompiledLogic>>) -> (res: Option<Box<CompiledLogic>>)
        ensures
            crate::compiled::opt_box_view(res) == crate::compiled::opt_box_view(*d),
        decreases *d, 0nat,
    {
        match d {
            Some(x) => Some(Box::new(x.deep_clone())),
            None => None,
        }
    }

    fn clone_slot(o: &Option<Box<CompiledLogic>>) -> (res: Option<Box<CompiledLogic>>)
        ensures
            opt_logic_view(res) == opt_logic_view(*o),
        decreases *o, 0nat,
    {
        match o {
            Some(x) => Some(Box::new(x.deep_clone())),
            None => None,
        }
    }

    fn clone_list(items: &Vec<CompiledLogic>) -> (res: Vec<CompiledLogic>)
        ensures
            logic_views(res@) == logic_views(items@),
        decreases *items, 0nat,
    {
        let mut out: Vec<CompiledLogic> = Vec::new();
        let mut i: usize = 0;
        while i < items.len()
            invariant
                i <= items@.len(),
                logic_views(out@) == logic_views(items@).take(i as int),
            decreases items@.len() - i,
        {
            proof {
                assert(decreases_to!(*items => items@));
                assert(decreases_to!(items@ => items@[i as int]));
            }
            let c = items[i].deep_clone();
            let ghost prev = out@;
            out.push(c);
            assert(logic_views(out@) =~= logic_views(prev).push(c@));
            i = i + 1;
            assert(logic_views(out@) =~= logic_views(items@).take(i as int));
        }
        assert(logic_views(items@).take(items@.len() as int) =~= logic_views(items@));
        out
    }

    #[verifier::spinoff_prover]
    #[verifier::rlimit(30)]
    fn clone_shape_list_0(&self) -> (res: CompiledLogic)
        requires
            self@ is Op,
            self@->Op_0 == Tag::Array || self@->Op_0 == Tag::And || self@->Op_0 == Tag::Or || self@->Op_0 == Tag::Add || self@->Op_0 == Tag::Subtract || self@->Op_0 == Tag::Multiply,
        ensures
            res@ == self@,
        decreases self, 0nat,
    {
        match self {
            CompiledLogic::Array(v) => CompiledLogic::Array(Self::clone_list(v)),
            CompiledLogic::And(v) => CompiledLogic::And(Self::clone_list(v)),
            CompiledLogic::Or(v) => CompiledLogic::Or(Self::clone_list(v)),
            CompiledLogic::Add(v) => CompiledLogic::Add(Self::clone_list(v)),
            CompiledLogic::Subtract(v) => CompiledLogic::Subtract(Self::clone_list(v)),
            CompiledLogic::Multiply(v) => CompiledLogic::Multiply(Self::clone_list(v)),
            _ => {
                assert(false);
                CompiledLogic::Null
            },
        }
    }

    #[verifier::spinoff_prover]
    #[verifier::rlimit(30)]
    fn clone_shape_list_1(&self) -> (res: CompiledLogic)
        requires
            self@ is Op,
            self@->Op_0 == Tag::Divide || self@->Op_0 == Tag::Merge || self@->Op_0 == Tag::Cat || self@->Op_0 == Tag::Max || self@->Op_0 == Tag::Min || self@->Op_0 == Tag::Concat,
        ensures
            res@ == self@,
        decreases self, 0nat,
    {
        match self {
            CompiledLogic::Divide(v) => CompiledLogic::Divide(Self::clone_list(v)),
            CompiledLogic::Merge(v) => CompiledLogic::Merge(Self::clone_list(v)),
            CompiledLogic::Cat(v) => CompiledLogic::Cat(Self::clone_list(v)),
            CompiledLogic::Max(v) => CompiledLogic::Max(Self::clone_list(v)),
            CompiledLogic::Min(v) => CompiledLogic::Min(Self::clone_list(v)),
            CompiledLogic::Concat(v) => CompiledLogic::Concat(Self::clone_list(v)),
            _ => {
                assert(false);
                CompiledLogic::Null
            },
        }
    }

    #[verifier::spinoff_prover]
    #[verifier::rlimit(30)]
    fn clone_shape_list_2(&self) -> (res: CompiledLogic)
        requires
            self@ is Op,
            self@->Op_0 == Tag::Multiplies || self@->Op_0 == Tag::Divides,
        ensures
            res@ == self@,
        decreases self, 0nat,
    {
        match self {
            CompiledLogic::Multiplies(v) => CompiledLogic::Multiplies(Self::clone_list(v)),
            CompiledLogic::Divides(v) => CompiledLogic::Divides(Self::clone_list(v)),
            _ => {
                assert(false);
                CompiledLogic::Null
            },
        }
    }

    #[verifier::spinoff_prover]
    #[verifier::rlimit(30)]
    fn clone_shape_k0_0(&self) -> (res: CompiledLogic)
        requires
            self@ is Op,
            self@->Op_0 == Tag::Empty || self@->Op_0 == Tag::Today || self@->Op_0 == Tag::Now,
        ensures
            res@ == self@,
        decreases self, 0nat,
    {
        match self {
            CompiledLogic::Empty => CompiledLogic::Empty,
            CompiledLogic::Today => CompiledLogic::Today,
            CompiledLogic::Now => CompiledLogic::Now,
            _ => {
                assert(false);
                CompiledLogic::Null
            },
        }
    }

    #[verifier::spinoff_prover]
    #[verifier::rlimit(30)]
    fn clone_shape_k1_0(&self) -> (res: CompiledLogic)
        requires
            self@ is Op,
            self@->Op_0 == Tag::Not || self@->Op_0 == Tag::Abs || self@->Op_0 == Tag::Round || self@->Op_0 == Tag::RoundUp || self@->Op_0 == Tag::RoundDown || self@->Op_0 == Tag::Length,
        ensures
            res@ == self@,
        decreases self, 0nat,
    {
        match self {
            CompiledLogic::Not(a) => CompiledLogic::Not(Box::new(a.deep_clone())),
            CompiledLogic::Abs(a) => CompiledLogic::Abs(Box::new(a.deep_clone())),
            CompiledLogic::Round(a) => CompiledLogic::Round(Box::new(a.deep_clone())),
            CompiledLogic::RoundUp(a) => CompiledLogic::RoundUp(Box::new(a.deep_clone())),
            CompiledLogic::RoundDown(a) => CompiledLogic::RoundDown(Box::new(a.deep_clone())),
            CompiledLogic::Length(a) => CompiledLogic::Length(Box::new(a.deep_clone())),
            _ => {
                assert(false);
                CompiledLogic::Null
            },
        }
    }

    #[verifier::spinoff_prover]
    #[verifier::rlimit(30)]
    fn clone_shape_k1_1(&self) -> (res: CompiledLogic)
        requires
            self@ is Op,
            self@->Op_0 == Tag::Len || self@->Op_0 == Tag::IsEmpty || self@->Op_0 == Tag::Year || self@->Op_0 == Tag::Month || self@->Op_0 == Tag::Day,
        ensures
            res@ == self@,
        decreases self, 0nat,
    {
        match self {
            CompiledLogic::Len(a) => CompiledLogic::Len(Box::new(a.deep_clone())),
            CompiledLogic::IsEmpty(a) => CompiledLogic::IsEmpty(Box::new(a.deep_clone())),
            CompiledLogic::Year(a) => CompiledLogic::Year(Box::new(a.deep_clone())),
            CompiledLogic::Month(a) => CompiledLogic::Month(Box::new(a.deep_clone())),
            CompiledLogic::Day(a) => CompiledLogic::Day(Box::new(a.deep_clone())),
            _ => {
                assert(false);
                CompiledLogic::Null
            },
        }
    }

    #[verifier::spinoff_prover]
    #[verifier::rlimit(30)]
    fn clone_shape_k2_0(&self) -> (res: CompiledLogic)
        requires
            self@ is Op,
            self@->Op_0 == Tag::Equal || self@->Op_0 == Tag::StrictEqual,
        ensures
            res@ == self@,
        decreases self, 0nat,
    {
        match self {
            CompiledLogic::Equal(a, b) => CompiledLogic::Equal(Box::new(a.deep_clone()), Box::new(b.deep_clone())),
            CompiledLogic::StrictEqual(a, b) => CompiledLogic::StrictEqual(Box::new(a.deep_clone()), Box::new(b.deep_clone())),
            _ => {
                assert(false);
                CompiledLogic::Null
            },
        }
    }

    #[verifier::spinoff_prover]
    #[verifier::rlimit(30)]
    fn clone_shape_k2_1(&self) -> (res: CompiledLogic)
        requires
            self@ is Op,
            self@->Op_0 == Tag::NotEqual || self@->Op_0 == Tag::StrictNotEqual,
        ensures
            res@ == self@,
        decreases self, 0nat,
    {
        match self {
            CompiledLogic::NotEqual(a, b) => CompiledLogic::NotEqual(Box::new(a.deep_clone()), Box::new(b.deep_clone())),
            CompiledLogic::StrictNotEqual(a, b) => CompiledLogic::StrictNotEqual(Box::new(a.deep_clone()), Box::new(b.deep_clone())),
            _ => {
                assert(false);
                CompiledLogic::Null
            },
        }
    }

    #[verifier::spinoff_prover]
    #[verifier::rlimit(30)]
    fn clone_shape_k2_2(&self) -> (res: CompiledLogic)
        requires
            self@ is Op,
            self@->Op_0 == Tag::LessThan || self@->Op_0 == Tag::LessThanOrEqual,
        ensures
            res@ == self@,
        decreases self, 0nat,
    {
        match self {
            CompiledLogic::LessThan(a, b) => CompiledLogic::LessThan(Box::new(a.deep_clone()), Box::new(b.deep_clone())),
            CompiledLogic::LessThanOrEqual(a, b) => CompiledLogic::LessThanOrEqual(Box::new(a.deep_clone()), Box::new(b.deep_clone())),
            _ => {
                assert(false);
                CompiledLogic::Null
            },
        }
    }

    #[verifier::spinoff_prover]
    #[verifier::rlimit(30)]
    fn clone_shape_k2_3(&self) -> (res: CompiledLogic)
        requires
            self@ is Op,
            self@->Op_0 == Tag::GreaterThan || self@->Op_0 == Tag::GreaterThanOrEqual,
        ensures
            res@ == self@,
        decreases self, 0nat,
    {
        match self {
            CompiledLogic::GreaterThan(a, b) => CompiledLogic::GreaterThan(Box::new(a.deep_clone()), Box::new(b.deep_clone())),
            CompiledLogic::GreaterThanOrEqual(a, b) => CompiledLogic::GreaterThanOrEqual(Box::new(a.deep_clone()), Box::new(b.deep_clone())),
            _ => {
                assert(false);
                CompiledLogic::Null
            },
        }
    }

    #[verifier::spinoff_prover]
    #[verifier::rlimit(30)]
    fn clone_shape_k2_4(&self) -> (res: CompiledLogic)
        requires
            self@ is Op,
            self@->Op_0 == Tag::Modulo || self@->Op_0 == Tag::Power,
        ensures
            res@ == self@,
        decreases self, 0nat,
    {
        match self {
            CompiledLogic::Modulo(a, b) => CompiledLogic::Modulo(Box::new(a.deep_clone()), Box::new(b.deep_clone())),
            CompiledLogic::Power(a, b) => CompiledLogic::Power(Box::new(a.deep_clone()), Box::new(b.deep_clone())),
            _ => {
                assert(false);
                CompiledLogic::Null
            },
        }
    }

    #[verifier::spinoff_prover]
    #[verifier::rlimit(30)]
    fn clone_shape_k2_5(&self) -> (res: CompiledLogic)
        requires
            self@ is Op,
            self@->Op_0 == Tag::MapEach || self@->Op_0 == Tag::Filter,
        ensures
            res@ == self@,
        decreases self, 0nat,
    {
        match self {
            CompiledLogic::MapEach(a, b) => CompiledLogic::MapEach(Box::new(a.deep_clone()), Box::new(b.deep_clone())),
            CompiledLogic::Filter(a, b) => CompiledLogic::Filter(Box::new(a.deep_clone()), Box::new(b.deep_clone())),
            _ => {
                assert(false);
                CompiledLogic::Null
            },
        }
    }

    #[verifier::spinoff_prover]
    #[verifier::rlimit(30)]
    fn clone_shape_k2_6(&self) -> (res: CompiledLogic)
        requires
            self@ is Op,
            self@->Op_0 == Tag::All || self@->Op_0 == Tag::SomeOf,
        ensures
            res@ == self@,
        decreases self, 0nat,
    {
        match self {
            CompiledLogic::All(a, b) => CompiledLogic::All(Box::new(a.deep_clone()), Box::new(b.deep_clone())),
            CompiledLogic::SomeOf(a, b) => CompiledLogic::SomeOf(Box::new(a.deep_clone()), Box::new(b.deep_clone())),
            _ => {
                assert(false);
                CompiledLogic::Null
            },
        }
    }

    #[verifier::spinoff_prover]
    #[verifier::rlimit(30)]
    fn clone_shape_k2_7(&self) -> (res: CompiledLogic)
        requires
            self@ is Op,
            self@->Op_0 == Tag::NoneOf || self@->Op_0 == Tag::In,
        ensures
            res@ == self@,
        decreases self, 0nat,
    {
        match self {
            CompiledLogic::NoneOf(a, b) => CompiledLogic::NoneOf(Box::new(a.deep_clone()), Box::new(b.deep_clone())),
            CompiledLogic::In(a, b) => CompiledLogic::In(Box::new(a.deep_clone()), Box::new(b.deep_clone())),
            _ => {
                assert(false);
                CompiledLogic::Null
            },
        }
    }

    #[verifier::spinoff_prover]
    #[verifier::rlimit(30)]
    fn clone_shape_k2_8(&self) -> (res: CompiledLogic)
        requires
            self@ is Op,
            self@->Op_0 == Tag::Pow || self@->Op_0 == Tag::SplitValue,
        ensures
            res@ == self@,
        decreases self, 0nat,
    {
        match self {
            CompiledLogic::Pow(a, b) => CompiledLogic::Pow(Box::new(a.deep_clone()), Box::new(b.deep_clone())),
            CompiledLogic::SplitValue(a, b) => CompiledLogic::SplitValue(Box::new(a.deep_clone()), Box::new(b.deep_clone())),
            _ => {
                assert(false);
                CompiledLogic::Null
            },
        }
    }

    #[verifier::spinoff_prover]
    #[verifier::rlimit(30)]
    fn clone_shape_k2_9(&self) -> (res: CompiledLogic)
        requires
            self@ is Op,
            self@->Op_0 == Tag::Xor || self@->Op_0 == Tag::IfNull,
        ensures
            res@ == self@,
        decreases self, 0nat,
    {
        match self {
            CompiledLogic::Xor(a, b) => CompiledLogic::Xor(Box::new(a.deep_clone()), Box::new(b.deep_clone())),
            CompiledLogic::IfNull(a, b) => CompiledLogic::IfNull(Box::new(a.deep_clone()), Box::new(b.deep_clone())),
            _ => {
                assert(false);
                CompiledLogic::Null
            },
        }
    }

    #[verifier::spinoff_prover]
    #[verifier::rlimit(30)]
    fn clone_shape_k2_10(&self) -> (res: CompiledLogic)
        requires
            self@ is Op,
            self@->Op_0 == Tag::Days || self@->Op_0 == Tag::MaxAt,
        ensures
            res@ == self@,
        decreases self, 0nat,
    {
        match self {
            CompiledLogic::Days(a, b) => CompiledLogic::Days(Box::new(a.deep_clone()), Box::new(b.deep_clone())),
            CompiledLogic::MaxAt(a, b) => CompiledLogic::MaxAt(Box::new(a.deep_clone()), Box::new(b.deep_clone())),
            _ => {
                assert(false);
                CompiledLogic::Null
            },
        }
    }

    #[verifier::spinoff_prover]
    #[verifier::rlimit(30)]
    fn clone_shape_k2_11(&self) -> (res: CompiledLogic)
        requires
            self@ is Op,
            self@->Op_0 == Tag::RangeOptions,
        ensures
            res@ == self@,
        decreases self, 0nat,
    {
        match self {
            CompiledLogic::RangeOptions(a, b) => CompiledLogic::RangeOptions(Box::new(a.deep_clone()), Box::new(b.deep_clone())),
            _ => {
                assert(false);
                CompiledLogic::Null
            },
        }
    }

    #[verifier::spinoff_prover]
    #[verifier::rlimit(30)]
    fn clone_shape_k3_0(&self) -> (res: CompiledLogic)
        requires
            self@ is Op,
            self@->Op_0 == Tag::If,
        ensures
            res@ == self@,
        decreases self, 0nat,
    {
        match self {
            CompiledLogic::If(a, b, c) => CompiledLogic::If(Box::new(a.deep_clone()), Box::new(b.deep_clone()), Box::new(c.deep_clone())),
            _ => {
                assert(false);
                CompiledLogic::Null
            },
        }
    }

    #[verifier::spinoff_prover]
    #[verifier::rlimit(30)]
    fn clone_shape_k3_1(&self) -> (res: CompiledLogic)
        requires
            self@ is Op,
            self@->Op_0 == Tag::Reduce,
        ensures
            res@ == self@,
        decreases self, 0nat,
    {
        match self {
            CompiledLogic::Reduce(a, b, c) => CompiledLogic::Reduce(Box::new(a.deep_clone()), Box::new(b.deep_clone()), Box::new(c.deep_clone())),
            _ => {
                assert(false);
                CompiledLogic::Null
            },
        }
    }

    #[verifier::spinoff_prover]
    #[verifier::rlimit(30)]
    fn clone_shape_k3_2(&self) -> (res: CompiledLogic)
        requires
            self@ is Op,
            self@->Op_0 == Tag::Mid,
        ensures
            res@ == self@,
        decreases self, 0nat,
    {
        match self {
            CompiledLogic::Mid(a, b, c) => CompiledLogic::Mid(Box::new(a.deep_clone()), Box::new(b.deep_clone()), Box::new(c.deep_clone())),
            _ => {
                assert(false);
                CompiledLogic::Null
            },
        }
    }

    #[verifier::spinoff_prover]
    #[verifier::rlimit(30)]
    fn clone_shape_k3_3(&self) -> (res: CompiledLogic)
        requires
            self@ is Op,
            self@->Op_0 == Tag::Date,
        ensures
            res@ == self@,
        decreases self, 0nat,
    {
        match self {
            CompiledLogic::Date(a, b, c) => CompiledLogic::Date(Box::new(a.deep_clone()), Box::new(b.deep_clone()), Box::new(c.deep_clone())),
            _ => {
                assert(false);
                CompiledLogic::Null
            },
        }
    }

    #[verifier::spinoff_prover]
    #[verifier::rlimit(30)]
    fn clone_shape_k3_4(&self) -> (res: CompiledLogic)
        requires
            self@ is Op,
            self@->Op_0 == Tag::For,
        ensures
            res@ == self@,
        decreases self, 0nat,
    {
        match self {
            CompiledLogic::For(a, b, c) => CompiledLogic::For(Box::new(a.deep_clone()), Box::new(b.deep_clone()), Box::new(c.deep_clone())),
            _ => {
                assert(false);
                CompiledLogic::Null
            },
        }
    }

    #[verifier::spinoff_prover]
    #[verifier::rlimit(30)]
    fn clone_shape_k3_5(&self) -> (res: CompiledLogic)
        requires
            self@ is Op,
            self@->Op_0 == Tag::DateDif,
        ensures
            res@ == self@,
        decreases self, 0nat,
    {
        match self {
            CompiledLogic::DateDif(a, b, c) => CompiledLogic::DateDif(Box::new(a.deep_clone()), Box::new(b.deep_clone()), Box::new(c.deep_clone())),
            _ => {
                assert(false);
                CompiledLogic::Null
            },
        }
    }

    #[verifier::spinoff_prover]
    #[verifier::rlimit(30)]
    fn clone_shape_k3_6(&self) -> (res: CompiledLogic)
        requires
            self@ is Op,
            self@->Op_0 == Tag::MapOptions,
        ensures
            res@ == self@,
        decreases self, 0nat,
    {
        match self {
            CompiledLogic::MapOptions(a, b, c) => CompiledLogic::MapOptions(Box::new(a.deep_clone()), Box::new(b.deep_clone()), Box::new(c.deep_clone())),
            _ => {
                assert(false);
                CompiledLogic::Null
            },
        }
    }

    #[verifier::spinoff_prover]
    #[verifier::rlimit(30)]
    fn clone_shape_k2o_0(&self) -> (res: CompiledLogic)
        requires
            self@ is Op,
            self@->Op_0 == Tag::Substr,
        ensures
            res@ == self@,
        decreases self, 0nat,
    {
        match self {
            CompiledLogic::Substr(a, b, c) => CompiledLogic::Substr(Box::new(a.deep_clone()), Box::new(b.deep_clone()), Self::clone_slot(c)),
            _ => {
                assert(false);
                CompiledLogic::Null
            },
        }
    }

    #[verifier::spinoff_prover]
    #[verifier::rlimit(30)]
    fn clone_shape_k2o_1(&self) -> (res: CompiledLogic)
        requires
            self@ is Op,
            self@->Op_0 == Tag::Search,
        ensures
            res@ == self@,
        decreases self, 0nat,
    {
        match self {
            CompiledLogic::Search(a, b, c) => CompiledLogic::Search(Box::new(a.deep_clone()), Box::new(b.deep_clone()), Self::clone_slot(c)),
            _ => {
                assert(false);
                CompiledLogic::Null
            },
        }
    }

    #[verifier::spinoff_prover]
    #[verifier::rlimit(30)]
    fn clone_shape_k2o_2(&self) -> (res: CompiledLogic)
        requires
            self@ is Op,
            self@->Op_0 == Tag::SplitText,
        ensures
            res@ == self@,
        decreases self, 0nat,
    {
        match self {
            CompiledLogic::SplitText(a, b, c) => CompiledLogic::SplitText(Box::new(a.deep_clone()), Box::new(b.deep_clone()), Self::clone_slot(c)),
            _ => {
                assert(false);
                CompiledLogic::Null
            },
        }
    }

    #[verifier::spinoff_prover]
    #[verifier::rlimit(30)]
    fn clone_shape_k2o_3(&self) -> (res: CompiledLogic)
        requires
            self@ is Op,
            self@->Op_0 == Tag::ValueAt,
        ensures
            res@ == self@,
        decreases self, 0nat,
    {
        match self {
            CompiledLogic::ValueAt(a, b, c) => CompiledLogic::ValueAt(Box::new(a.deep_clone()), Box::new(b.deep_clone()), Self::clone_slot(c)),
            _ => {
                assert(false);
                CompiledLogic::Null
            },
        }
    }

    #[verifier::spinoff_prover]
    #[verifier::rlimit(30)]
    fn clone_shape_k2o_4(&self) -> (res: CompiledLogic)
        requires
            self@ is Op,
            self@->Op_0 == Tag::YearFrac,
        ensures
            res@ == self@,
        decreases self, 0nat,
    {
        match self {
            CompiledLogic::YearFrac(a, b, c) => CompiledLogic::YearFrac(Box::new(a.deep_clone()), Box::new(b.deep_clone()), Self::clone_slot(c)),
            _ => {
                assert(false);
                CompiledLogic::Null
            },
        }
    }

    #[verifier::spinoff_prover]
    #[verifier::rlimit(30)]
    fn clone_shape_k1o_0(&self) -> (res: CompiledLogic)
        requires
            self@ is Op,
            self@->Op_0 == Tag::Left || self@->Op_0 == Tag::Right,
        ensures
            res@ == self@,
        decreases self, 0nat,
    {
        match self {
            CompiledLogic::Left(a, b) => CompiledLogic::Left(Box::new(a.deep_clone()), Self::clone_slot(b)),
            CompiledLogic::Right(a, b) => CompiledLogic::Right(Box::new(a.deep_clone()), Self::clone_slot(b)),
            _ => {
                assert(false);
                CompiledLogic::Null
            },
        }
    }

    #[verifier::spinoff_prover]
    #[verifier::rlimit(30)]
    fn clone_shape_k1oo_0(&self) -> (res: CompiledLogic)
        requires
            self@ is Op,
            self@->Op_0 == Tag::Sum,
        ensures
            res@ == self@,
        decreases self, 0nat,
    {
        match self {
            CompiledLogic::Sum(a, b, c) => CompiledLogic::Sum(Box::new(a.deep_clone()), Self::clone_slot(b), Self::clone_slot(c)),
            _ => {
                assert(false);
                CompiledLogic::Null
            },
        }
    }

    #[verifier::spinoff_prover]
    #[verifier::rlimit(30)]
    fn clone_shape_k3o_0(&self) -> (res: CompiledLogic)
        requires
            self@ is Op,
            self@->Op_0 == Tag::IndexAt,
        ensures
            res@ == self@,
        decreases self, 0nat,
    {
        match self {
            CompiledLogic::IndexAt(a, b, c, d) => CompiledLogic::IndexAt(Box::new(a.deep_clone()), Box::new(b.deep_clone()), Box::new(c.deep_clone()), Self::clone_slot(d)),
            _ => {
                assert(false);
                CompiledLogic::Null
            },
        }
    }

    #[verifier::spinoff_prover]
    #[verifier::rlimit(30)]
    fn clone_shape_k1l_0(&self) -> (res: CompiledLogic)
        requires
            self@ is Op,
            self@->Op_0 == Tag::Match || self@->Op_0 == Tag::MatchRange || self@->Op_0 == Tag::Choose || self@->Op_0 == Tag::FindIndex,
        ensures
            res@ == self@,
        decreases self, 0nat,
    {
        match self {
            CompiledLogic::Match(a, v) => CompiledLogic::Match(Box::new(a.deep_clone()), Self::clone_list(v)),
            CompiledLogic::MatchRange(a, v) => CompiledLogic::MatchRange(Box::new(a.deep_clone()), Self::clone_list(v)),
            CompiledLogic::Choose(a, v) => CompiledLogic::Choose(Box::new(a.deep_clone()), Self::clone_list(v)),
            CompiledLogic::FindIndex(a, v) => CompiledLogic::FindIndex(Box::new(a.deep_clone()), Self::clone_list(v)),
            _ => {
                assert(false);
                CompiledLogic::Null
            },
        }
    }

    #[verifier::spinoff_prover]
    #[verifier::rlimit(30)]
    fn clone_shape_k3l_0(&self) -> (res: CompiledLogic)
        requires
            self@ is Op,
            self@->Op_0 == Tag::MapOptionsIf,
        ensures
            res@ == self@,
        decreases self, 0nat,
    {
        match self {
            CompiledLogic::MapOptionsIf(a, b, c, v) => CompiledLogic::MapOptionsIf(Box::new(a.deep_clone()), Box::new(b.deep_clone()), Box::new(c.deep_clone()), Self::clone_list(v)),
            _ => {
                assert(false);
                CompiledLogic::Null
            },
        }
    }

}

/// A copy of a list of strings.
fn clone_strings(ks: &Vec<String>) -> (res: Vec<String>)
    ensures
        string_views(res@) == string_views(ks@),
{
    let mut out: Vec<String> = Vec::new();
    let mut i: usize = 0;
    while i < ks.len()
        invariant
            i <= ks@.len(),
            string_views(out@) == string_views(ks@).take(i as int),
        decreases ks@.len() - i,
    {
        let c = copy_string(&ks[i]);
        let ghost prev = out@;
        out.push(c);
        assert(string_views(out@) =~= string_views(prev).push(c@));
        i = i + 1;
        assert(string_views(out@) =~= string_views(ks@).take(i as int));
    }
    assert(string_views(ks@).take(ks@.len() as int) =~= string_views(ks@));
    out
}

impl Clone for CompiledLogic {
    fn clone(&self) -> (res: Self)
        ensures
            res@ == self@,
    {
        self.deep_clone()
    }
}

} // verus!
