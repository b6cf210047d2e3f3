use vstd::prelude::*;
use crate::compiled::{CompiledLogic, LogicView, Tag, logic_views, opt_logic_view};
use crate::analysis::vars_of;
use crate::text::{to_chars, str_eq};

verus! {

// ---------------------------------------------------------------------------
// Number texts, as `str::parse::<f64>` reads them.

pub open spec fn is_digit_char(c: char) -> bool {
    '0' <= c && c <= '9'
}

/// ASCII lower case of `c`.
pub open spec fn lower(c: char) -> char {
    if 'A' <= c && c <= 'Z' {
        ((c as u8) + 32) as char
    } else {
        c
    }
}

/// `s` is `word` up to ASCII case.
pub open spec fn equals_ignoring_case(s: Seq<char>, word: Seq<char>) -> bool {
    s.len() == word.len() && forall|i: int| 0 <= i < s.len() ==> lower(#[trigger] s[i]) == word[i]
}

/// The first position at or after `i` holding `e` or `E`, or the length.
pub open spec fn exp_start(b: Seq<char>, i: int) -> int
    decreases b.len() - i,
{
    if i >= b.len() {
        b.len() as int
    } else if b[i] == 'e' || b[i] == 'E' {
        i
    } else {
        exp_start(b, i + 1)
    }
}

/// Digits with at most one `.`, and at least one digit.
pub open spec fn mantissa_ok(m: Seq<char>) -> bool {
    &&& forall|i: int| 0 <= i < m.len() ==> is_digit_char(#[trigger] m[i]) || m[i] == '.'
    &&& forall|i: int, j: int| 0 <= i < j < m.len() ==> !(#[trigger] m[i] == '.' && #[trigger] m[j] == '.')
    &&& exists|i: int| 0 <= i < m.len() && is_digit_char(#[trigger] m[i])
}

/// At least one character, all decimal digits.
pub open spec fn digits_only(d: Seq<char>) -> bool {
    &&& d.len() > 0
    &&& forall|i: int| 0 <= i < d.len() ==> is_digit_char(#[trigger] d[i])
}

/// Empty, or `e`/`E`, an optional sign and at least one digit.
pub open spec fn exponent_ok(e: Seq<char>) -> bool {
    e.len() == 0 || digits_only(if e.len() > 1 && (e[1] == '+' || e[1] == '-') { e.skip(2) } else { e.skip(1) })
}

/// Some digit before position `k` is not zero.
pub open spec fn nonzero_before(b: Seq<char>, k: int) -> bool {
    exists|i: int| 0 <= i < k && '1' <= #[trigger] b[i] && b[i] <= '9'
}

/// The text after its sign is `inf`, `infinity`, or a decimal number whose digits
/// before the exponent are not all zero.
pub open spec fn unsigned_text_positive(b: Seq<char>) -> bool {
    equals_ignoring_case(b, "inf"@) || equals_ignoring_case(b, "infinity"@) || {
        &&& mantissa_ok(b.take(exp_start(b, 0)))
        &&& exponent_ok(b.skip(exp_start(b, 0)))
        &&& nonzero_before(b, exp_start(b, 0))
    }
}

/// Whether `str::parse::<f64>` reads `s` as a number greater than zero: an
/// optional `+`, then `inf` or `infinity` in any case, or a decimal number whose
/// digits before the exponent are not all zero. (A text so small that it rounds
/// to zero, such as `1e-400`, counts here as positive.)
pub open spec fn number_text_positive(s: Seq<char>) -> bool {
    &&& !(s.len() > 0 && s[0] == '-')
    &&& unsigned_text_positive(if s.len() > 0 && s[0] == '+' { s.skip(1) } else { s })
}

proof fn lemma_exp_start(b: Seq<char>, i: int)
    requires
        0 <= i <= b.len(),
    ensures
        i <= exp_start(b, i) <= b.len(),
        i < b.len() && b[i] != 'e' && b[i] != 'E' ==> exp_start(b, i) == exp_start(b, i + 1),
        i < b.len() && (b[i] == 'e' || b[i] == 'E') ==> exp_start(b, i) == i,
    decreases b.len() - i,
{
    if i < b.len() {
        lemma_exp_start(b, i + 1);
    }
}

fn lower_char(c: char) -> (res: char)
    ensures
        res == lower(c),
{
    if 'A' <= c && c <= 'Z' {
        ((c as u8) + 32) as char
    } else {
        c
    }
}

fn chars_equal_ignoring_case(b: &Vec<char>, from: usize, word: &str) -> (res: bool)
    requires
        from <= b@.len(),
    ensures
        res == equals_ignoring_case(b@.skip(from as int), word@),
{
    let w = to_chars(word);
    let bl = b.len();
    if bl - from != w.len() {
        return false;
    }
    let mut i: usize = 0;
    while i < w.len()
        invariant
            i <= w@.len(),
            w@ == word@,
            from <= b@.len(),
            bl == b@.len(),
            b@.len() - from == w@.len(),
            forall|j: int| 0 <= j < i ==> lower(#[trigger] b@.skip(from as int)[j]) == w@[j],
        decreases w@.len() - i,
    {
        assert(b@.skip(from as int)[i as int] == b@[from + i]);
        if lower_char(b[from + i]) != w[i] {
            return false;
        }
        i = i + 1;
    }
    true
}

/// Whether `n` reads as a number greater than zero (see `number_text_positive`).
pub fn is_positive_number_text(n: &str) -> (res: bool)
    ensures
        res == number_text_positive(n@),
{
    let s = to_chars(n);
    if s.len() > 0 && s[0] == '-' {
        return false;
    }
    let from: usize = if s.len() > 0 && s[0] == '+' { 1 } else { 0 };
    let ghost b = s@.skip(from as int);
    assert(b =~= (if s@.len() > 0 && s@[0] == '+' { s@.skip(1) } else { s@ }));
    proof {
        reveal_strlit("inf");
        reveal_strlit("infinity");
    }
    if chars_equal_ignoring_case(&s, from, "inf") || chars_equal_ignoring_case(&s, from, "infinity") {
        return true;
    }
    // the mantissa: digits and at most one dot, up to the exponent mark
    let mut i = from;
    let mut dots: usize = 0;
    let mut digit = false;
    let mut nonzero = false;
    while i < s.len() && s[i] != 'e' && s[i] != 'E'
        invariant
            from <= i <= s@.len(),
            b == s@.skip(from as int),
            s@ == n@,
            b == (if s@.len() > 0 && s@[0] == '+' { s@.skip(1) } else { s@ }),
            !(s@.len() > 0 && s@[0] == '-'),
            !equals_ignoring_case(b, "inf"@),
            !equals_ignoring_case(b, "infinity"@),
            exp_start(b, 0) == exp_start(b, i - from),
            forall|j: int| 0 <= j < i - from ==> is_digit_char(#[trigger] b[j]) || b[j] == '.',
            forall|a: int, c2: int| 0 <= a < c2 < i - from ==> !(#[trigger] b[a] == '.' && #[trigger] b[c2] == '.'),
            dots <= 1,
            dots == 0 ==> forall|j: int| 0 <= j < i - from ==> #[trigger] b[j] != '.',
            dots == 1 ==> exists|j: int| 0 <= j < i - from && #[trigger] b[j] == '.',
            digit <==> exists|j: int| 0 <= j < i - from && is_digit_char(#[trigger] b[j]),
            nonzero <==> nonzero_before(b, i - from),
        decreases s@.len() - i,
    {
        let c = s[i];
        assert(b[i - from] == c);
        proof {
            lemma_exp_start(b, i - from);
            lemma_exp_start(b, i - from + 1);
        }
        if c == '.' {
            if dots == 1 {
                proof {
                    let j = choose|j: int| 0 <= j < i - from && #[trigger] b[j] == '.';
                    assert(!mantissa_ok(b.take(exp_start(b, 0)))) by {
                        assert(b.take(exp_start(b, 0))[j] == '.');
                        assert(b.take(exp_start(b, 0))[i - from] == '.');
                    }
                }
                return false;
            }
            dots = 1;
        } else if '0' <= c && c <= '9' {
            digit = true;
            if c != '0' {
                nonzero = true;
            }

        } else {
            proof {
                assert(!mantissa_ok(b.take(exp_start(b, 0)))) by {
                    assert(b.take(exp_start(b, 0))[i - from] == c);
                }
            }
            return false;
        }
        proof {
            if nonzero_before(b, i - from + 1) {
                let j = choose|j: int| 0 <= j < i - from + 1 && '1' <= #[trigger] b[j] && b[j] <= '9';
                if j < i - from {
                    assert(nonzero_before(b, i - from));
                }
            }
            if '1' <= b[i - from] && b[i - from] <= '9' {
                assert(nonzero_before(b, i - from + 1));
            }
            if nonzero_before(b, i - from) {
                let j = choose|j: int| 0 <= j < i - from && '1' <= #[trigger] b[j] && b[j] <= '9';
                assert(nonzero_before(b, i - from + 1));
            }
        }
        i = i + 1;
    }
    let k = i;
    proof {
        lemma_exp_start(b, k - from);
    }
    assert(exp_start(b, 0) == k - from);
    let ghost m = b.take(k - from);
    if !digit {
        assert(!mantissa_ok(m)) by {
            if mantissa_ok(m) {
                let j = choose|j: int| 0 <= j < m.len() && is_digit_char(#[trigger] m[j]);
                assert(is_digit_char(b[j]));
            }
        }
        return false;
    }
    assert(mantissa_ok(m)) by {
        assert forall|a: int, c2: int| 0 <= a < c2 < m.len() implies !(#[trigger] m[a] == '.' && #[trigger] m[c2] == '.') by {
            assert(m[a] == b[a] && m[c2] == b[c2]);
        }
        assert forall|a: int| 0 <= a < m.len() implies is_digit_char(#[trigger] m[a]) || m[a] == '.' by {
            assert(m[a] == b[a]);
        }
        let j = choose|j: int| 0 <= j < k - from && is_digit_char(#[trigger] b[j]);
        assert(is_digit_char(m[j]));
    }
    // the exponent
    let ghost e = b.skip(k - from);
    assert(e =~= s@.skip(k as int));
    let mut ok = true;
    if k < s.len() {
        let mut j = k + 1;
        if j < s.len() && (s[j] == '+' || s[j] == '-') {
            j = j + 1;
        }
        let ghost d = s@.skip(j as int);
        assert(d =~= (if e.len() > 1 && (e[1] == '+' || e[1] == '-') { e.skip(2) } else { e.skip(1) }));
        if j == s.len() {
            ok = false;
        }
        let start = j;
        while j < s.len()
            invariant
                start <= j <= s@.len(),
                d == s@.skip(start as int),
                e.len() > 0,
                d == (if e.len() > 1 && (e[1] == '+' || e[1] == '-') { e.skip(2) } else { e.skip(1) }),
                ok ==> forall|t: int| 0 <= t < j - start ==> is_digit_char(#[trigger] d[t]),
                ok ==> d.len() > 0,
                !ok ==> !exponent_ok(e),
                start == s@.len() ==> !ok,
            decreases s@.len() - j,
        {
            assert(d[j - start] == s@[j as int]);
            if !('0' <= s[j] && s[j] <= '9') {
                assert(!is_digit_char(d[j - start]));
                ok = false;
            }
            j = j + 1;
        }
    }
    if !ok {
        return false;
    }
    assert(exponent_ok(e));
    nonzero
}

// ---------------------------------------------------------------------------
// References to later rows of a table.

/// `l` is an `+` with an operand that reads `$iteration` and an operand that is a
/// positive number literal.
pub open spec fn iteration_plus_positive(l: LogicView) -> bool {
    &&& l is Op
    &&& l->Op_0 == Tag::Add
    &&& exists|i: int| 0 <= i < l->Op_2.len() && (#[trigger] vars_of(l->Op_2[i])).contains("$iteration"@)
    &&& exists|i: int| 0 <= i < l->Op_2.len() && positive_literal(#[trigger] l->Op_2[i])
}

/// `l` is a number literal greater than zero.
pub open spec fn positive_literal(l: LogicView) -> bool {
    l matches LogicView::Number(n) && number_text_positive(n)
}

/// Whether a slot holds an expression with a forward reference.
pub open spec fn slot_fwd(o: Option<LogicView>) -> bool
    decreases o,
{
    match o {
        Some(k) => forward_ref(k),
        None => false,
    }
}

pub open spec fn kids_fwd(kids: Seq<Option<LogicView>>) -> bool
    decreases kids,
{
    (kids.len() > 0 && slot_fwd(kids[0])) || (kids.len() > 1 && slot_fwd(kids[1])) || (kids.len() > 2
        && slot_fwd(kids[2])) || (kids.len() > 3 && slot_fwd(kids[3]))
}

pub open spec fn list_fwd(items: Seq<LogicView>) -> bool
    decreases items,
{
    items.len() > 0 && (list_fwd(items.subrange(0, items.len() - 1)) || forward_ref(items[items.len() - 1]))
}

/// Whether an expression refers to a later iteration of a table: a `VALUEAT`
/// whose row index is `$iteration` plus a positive number, anywhere inside.
pub open spec fn forward_ref(l: LogicView) -> bool
    decreases l,
{
    match l {
        LogicView::Op(tag, kids, items) => (tag == Tag::ValueAt && kids.len() > 1 && kids[1] is Some
            && iteration_plus_positive(kids[1]->Some_0)) || kids_fwd(kids) || list_fwd(items),
        LogicView::MissingSome(m, _) => forward_ref(*m),
        _ => false,
    }
}

proof fn lemma_fwd_op(tag: Tag, kids: Seq<Option<LogicView>>, items: Seq<LogicView>)
    ensures
        forward_ref(LogicView::Op(tag, kids, items)) == ((tag == Tag::ValueAt && kids.len() > 1 && kids[1] is Some
            && iteration_plus_positive(kids[1]->Some_0)) || kids_fwd(kids) || list_fwd(items)),
{
}

proof fn lemma_list_fwd_empty()
    ensures
        !list_fwd(Seq::<LogicView>::empty()),
{
}

proof fn lemma_kids_fwd_4(a: Option<LogicView>, b: Option<LogicView>, c: Option<LogicView>, d: Option<LogicView>)
    ensures
        kids_fwd(seq![a, b, c, d]) == (slot_fwd(a) || slot_fwd(b) || slot_fwd(c) || slot_fwd(d)),
{
    let k = seq![a, b, c, d];
    assert(k[0] == a && k[1] == b && k[2] == c && k[3] == d);
}

proof fn lemma_kids_fwd_3(a: Option<LogicView>, b: Option<LogicView>, c: Option<LogicView>)
    ensures
        kids_fwd(seq![a, b, c]) == (slot_fwd(a) || slot_fwd(b) || slot_fwd(c)),
{
    let k = seq![a, b, c];
    assert(k[0] == a && k[1] == b && k[2] == c);
}

proof fn lemma_kids_fwd_2(a: Option<LogicView>, b: Option<LogicView>)
    ensures
        kids_fwd(seq![a, b]) == (slot_fwd(a) || slot_fwd(b)),
{
    let k = seq![a, b];
    assert(k[0] == a && k[1] == b);
}

proof fn lemma_kids_fwd_1(a: Option<LogicView>)
    ensures
        kids_fwd(seq![a]) == slot_fwd(a),
{
    let k = seq![a];
    assert(k[0] == a);
}

proof fn lemma_kids_fwd_0()
    ensures
        !kids_fwd(Seq::<Option<LogicView>>::empty()),
{
}

proof fn lemma_slot_fwd_some(l: LogicView)
    ensures
        slot_fwd(Some(l)) == forward_ref(l),
{
}

impl CompiledLogic {
    /// Whether this expression refers to a later iteration of a table (see `forward_ref`).
    pub fn has_forward_reference(&self) -> (res: bool)
        ensures
            res == forward_ref(self@),
    {
        self.check_forward_reference()
    }

    #[verifier::spinoff_prover]
    #[verifier::rlimit(60)]
    fn check_forward_reference(&self) -> (res: bool)
        ensures
            res == forward_ref(self@),
        decreases self, 1nat,
    {
        match self {
            CompiledLogic::MissingSome(m, _) => m.check_forward_reference(),
            CompiledLogic::Null | CompiledLogic::Bool(_) | CompiledLogic::Number(_) | CompiledLogic::String(_)
            | CompiledLogic::Var(..) | CompiledLogic::Ref(..) | CompiledLogic::Missing(_) | CompiledLogic::Return(_) => false,
            CompiledLogic::Array(v) | CompiledLogic::And(v) | CompiledLogic::Or(v) | CompiledLogic::Add(v) | CompiledLogic::Subtract(v) | CompiledLogic::Multiply(v) | CompiledLogic::Divide(v) | CompiledLogic::Merge(v) | CompiledLogic::Cat(v) | CompiledLogic::Max(v) | CompiledLogic::Min(v) | CompiledLogic::Concat(v) | CompiledLogic::Multiplies(v) | CompiledLogic::Divides(v) => self.fwd_shape_list(v),
            CompiledLogic::Empty | CompiledLogic::Today | CompiledLogic::Now => self.fwd_shape_k0(),
            CompiledLogic::Not(a) | CompiledLogic::Abs(a) | CompiledLogic::Round(a) | CompiledLogic::RoundUp(a) | CompiledLogic::RoundDown(a) | CompiledLogic::Length(a) | CompiledLogic::Len(a) | CompiledLogic::IsEmpty(a) | CompiledLogic::Year(a) | CompiledLogic::Month(a) | CompiledLogic::Day(a) => self.fwd_shape_k1(&**a),
            CompiledLogic::Equal(a, b) | CompiledLogic::StrictEqual(a, b) | CompiledLogic::NotEqual(a, b) | CompiledLogic::StrictNotEqual(a, b) | CompiledLogic::LessThan(a, b) | CompiledLogic::LessThanOrEqual(a, b) | CompiledLogic::GreaterThan(a, b) | CompiledLogic::GreaterThanOrEqual(a, b) | CompiledLogic::Modulo(a, b) | CompiledLogic::Power(a, b) | CompiledLogic::MapEach(a, b) | CompiledLogic::Filter(a, b) | CompiledLogic::All(a, b) | CompiledLogic::SomeOf(a, b) | CompiledLogic::NoneOf(a, b) | CompiledLogic::In(a, b) | CompiledLogic::Pow(a, b) | CompiledLogic::SplitValue(a, b) | CompiledLogic::Xor(a, b) | CompiledLogic::IfNull(a, b) | CompiledLogic::Days(a, b) | CompiledLogic::MaxAt(a, b) | CompiledLogic::RangeOptions(a, b) => self.fwd_shape_k2(&**a, &**b),
            CompiledLogic::If(a, b, c) | CompiledLogic::Reduce(a, b, c) | CompiledLogic::Mid(a, b, c) | CompiledLogic::Date(a, b, c) | CompiledLogic::For(a, b, c) | CompiledLogic::DateDif(a, b, c) | CompiledLogic::MapOptions(a, b, c) => self.fwd_shape_k3(&**a, &**b, &**c),
            CompiledLogic::Substr(a, b, c) | CompiledLogic::Search(a, b, c) | CompiledLogic::SplitText(a, b, c) | CompiledLogic::YearFrac(a, b, c) => self.fwd_shape_k2o(&**a, &**b, c),
            CompiledLogic::ValueAt(a, b, c) => self.fwd_shape_value_at(&**a, &**b, c),
            CompiledLogic::Left(a, b) | CompiledLogic::Right(a, b) => self.fwd_shape_k1o(&**a, b),
            CompiledLogic::Sum(a, b, c) => self.fwd_shape_k1oo(&**a, b, c),
            CompiledLogic::IndexAt(a, b, c, d) => self.fwd_shape_k3o(&**a, &**b, &**c, d),
            CompiledLogic::Match(a, v) | CompiledLogic::MatchRange(a, v) | CompiledLogic::Choose(a, v) | CompiledLogic::FindIndex(a, v) => self.fwd_shape_k1l(&**a, v),
            CompiledLogic::MapOptionsIf(a, b, c, v) => self.fwd_shape_k3l(&**a, &**b, &**c, v),
        }
    }

    /// Whether an optional operand has a forward reference.
    fn slot_forward_reference(o: &Option<Box<CompiledLogic>>) -> (res: bool)
        ensures
            res == slot_fwd(opt_logic_view(*o)),
        decreases *o, 0nat,
    {
        match o {
            Some(x) => x.check_forward_reference(),
            None => false,
        }
    }

    /// Whether any expression of a list has a forward reference.
    fn any_forward_reference(items: &Vec<CompiledLogic>) -> (res: bool)
        ensures
            res == list_fwd(logic_views(items@)),
        decreases *items, 0nat,
    {
        let ghost xs = logic_views(items@);
        let mut i: usize = 0;
        assert(xs.subrange(0, 0) =~= Seq::<LogicView>::empty());
        while i < items.len()
            invariant
                i <= items@.len(),
                xs == logic_views(items@),
                !list_fwd(xs.subrange(0, i as int)),
            decreases items@.len() - i,
        {
            proof {
                assert(decreases_to!(*items => items@));
                assert(decreases_to!(items@ => items@[i as int]));
                let t = xs.subrange(0, i + 1);
                assert(t.subrange(0, t.len() - 1) =~= xs.subrange(0, i as int));
                assert(t[t.len() - 1] == items@[i as int]@);
            }
            if items[i].check_forward_reference() {
                proof {
                    lemma_list_fwd_prefix(xs, i + 1);
                }
                return true;
            }
            i = i + 1;
        }
        assert(xs.subrange(0, i as int) =~= xs);
        false
    }

    /// Whether this is an `+` with an operand reading `$iteration` and a positive
    /// number literal among its operands (see `iteration_plus_positive`).
    fn contains_iteration_plus_positive(&self) -> (res: bool)
        ensures
            res == iteration_plus_positive(self@),
    {
        match self {
            CompiledLogic::Add(items) => {
                let ghost xs = logic_views(items@);
                let mut has_iteration = false;
                let mut has_positive = false;
                let mut i: usize = 0;
                proof {
                    reveal_strlit("$iteration");
                }
                while i < items.len()
                    invariant
                        i <= items@.len(),
                        xs == logic_views(items@),
                        self@ == LogicView::Op(Tag::Add, seq![], xs),
                        has_iteration <==> exists|j: int| 0 <= j < i && (#[trigger] vars_of(xs[j])).contains("$iteration"@),
                        has_positive <==> exists|j: int| 0 <= j < i && positive_literal(#[trigger] xs[j]),
                    decreases items@.len() - i,
                {
                    assert(xs[i as int] == items@[i as int]@);
                    let vs = items[i].referenced_vars();
                    let mut k: usize = 0;
                    let mut found = false;
                    while k < vs.len()
                        invariant
                            k <= vs@.len(),
                            found <==> exists|t: int| 0 <= t < k && vs@[t]@ == "$iteration"@,
                        decreases vs@.len() - k,
                    {
                        if str_eq(vs[k].as_str(), "$iteration") {
                            found = true;
                        }
                        k = k + 1;
                    }
                    proof {
                        let sv = crate::compiled::string_views(vs@);
                        assert(found <==> sv.contains("$iteration"@)) by {
                            if found {
                                let t = choose|t: int| 0 <= t < k && vs@[t]@ == "$iteration"@;
                                assert(sv[t] == "$iteration"@);
                            }
                            if sv.contains("$iteration"@) {
                                let t = choose|t: int| 0 <= t < sv.len() && sv[t] == "$iteration"@;
                                assert(vs@[t]@ == "$iteration"@);
                            }
                        }
                        assert(sv.to_set().contains("$iteration"@) <==> sv.contains("$iteration"@));
                        assert(vars_of(xs[i as int]).to_set().contains("$iteration"@) <==> vars_of(xs[i as int]).contains("$iteration"@));
                    }
                    if found {
                        has_iteration = true;
                    }
                    match &items[i] {
                        CompiledLogic::Number(n) => {
                            if is_positive_number_text(n.as_str()) {
                                has_positive = true;
                            }
                        },
                        _ => {},
                    }
                    i = i + 1;
                }
                has_iteration && has_positive
            },
            _ => false,
        }
    }

    fn fwd_shape_list(&self, v: &Vec<CompiledLogic>) -> (res: bool)
        requires
            self@ == LogicView::Op(self@->Op_0, seq![], logic_views(v@)),
            self@->Op_0 != Tag::ValueAt,
            decreases_to!(*self => *v),
        ensures
            res == forward_ref(self@),
        decreases self, 0nat,
    {
        proof {
            lemma_fwd_op(self@->Op_0, self@->Op_1, self@->Op_2);
            lemma_kids_fwd_0();
        }
        Self::any_forward_reference(v)
    }

    fn fwd_shape_k0(&self) -> (res: bool)
        requires
            self@ == LogicView::Op(self@->Op_0, seq![], Seq::<LogicView>::empty()),
            self@->Op_0 != Tag::ValueAt,
        ensures
            res == forward_ref(self@),
        decreases self, 0nat,
    {
        proof {
            lemma_fwd_op(self@->Op_0, self@->Op_1, self@->Op_2);
            lemma_kids_fwd_0();
            lemma_list_fwd_empty();
        }
        false
    }

    fn fwd_shape_k1(&self, a: &CompiledLogic) -> (res: bool)
        requires
            self@ == LogicView::Op(self@->Op_0, seq![Some(a@)], Seq::<LogicView>::empty()),
            self@->Op_0 != Tag::ValueAt,
            decreases_to!(*self => *a),
        ensures
            res == forward_ref(self@),
        decreases self, 0nat,
    {
        proof {
            lemma_fwd_op(self@->Op_0, self@->Op_1, self@->Op_2);
            lemma_kids_fwd_1(Some(a@));
            lemma_slot_fwd_some(a@);
            lemma_list_fwd_empty();
        }
        a.check_forward_reference()
    }

    fn fwd_shape_k2(&self, a: &CompiledLogic, b: &CompiledLogic) -> (res: bool)
        requires
            self@ == LogicView::Op(self@->Op_0, seq![Some(a@), Some(b@)], Seq::<LogicView>::empty()),
            self@->Op_0 != Tag::ValueAt,
            decreases_to!(*self => *a),
            decreases_to!(*self => *b),
        ensures
            res == forward_ref(self@),
        decreases self, 0nat,
    {
        proof {
            lemma_fwd_op(self@->Op_0, self@->Op_1, self@->Op_2);
            lemma_kids_fwd_2(Some(a@), Some(b@));
            lemma_slot_fwd_some(a@);
            lemma_slot_fwd_some(b@);
            lemma_list_fwd_empty();
        }
        a.check_forward_reference() || b.check_forward_reference()
    }

    fn fwd_shape_k3(&self, a: &CompiledLogic, b: &CompiledLogic, c: &CompiledLogic) -> (res: bool)
        requires
            self@ == LogicView::Op(self@->Op_0, seq![Some(a@), Some(b@), Some(c@)], Seq::<LogicView>::empty()),
            self@->Op_0 != Tag::ValueAt,
            decreases_to!(*self => *a),
            decreases_to!(*self => *b),
            decreases_to!(*self => *c),
        ensures
            res == forward_ref(self@),
        decreases self, 0nat,
    {
        proof {
            lemma_fwd_op(self@->Op_0, self@->Op_1, self@->Op_2);
            lemma_kids_fwd_3(Some(a@), Some(b@), Some(c@));
            lemma_slot_fwd_some(a@);
            lemma_slot_fwd_some(b@);
            lemma_slot_fwd_some(c@);
            lemma_list_fwd_empty();
        }
        a.check_forward_reference() || b.check_forward_reference() || c.check_forward_reference()
    }

    fn fwd_shape_k2o(&self, a: &CompiledLogic, b: &CompiledLogic, c: &Option<Box<CompiledLogic>>) -> (res: bool)
        requires
            self@ == LogicView::Op(self@->Op_0, seq![Some(a@), Some(b@), opt_logic_view(*c)], Seq::<LogicView>::empty()),
            self@->Op_0 != Tag::ValueAt,
            decreases_to!(*self => *a),
            decreases_to!(*self => *b),
            decreases_to!(*self => *c),
        ensures
            res == forward_ref(self@),
        decreases self, 0nat,
    {
        proof {
            lemma_fwd_op(self@->Op_0, self@->Op_1, self@->Op_2);
            lemma_kids_fwd_3(Some(a@), Some(b@), opt_logic_view(*c));
            lemma_slot_fwd_some(a@);
            lemma_slot_fwd_some(b@);
            lemma_list_fwd_empty();
        }
        a.check_forward_reference() || b.check_forward_reference() || Self::slot_forward_reference(c)
    }

    fn fwd_shape_value_at(&self, a: &CompiledLogic, b: &CompiledLogic, c: &Option<Box<CompiledLogic>>) -> (res: bool)
        requires
            self@ == LogicView::Op(self@->Op_0, seq![Some(a@), Some(b@), opt_logic_view(*c)], Seq::<LogicView>::empty()),
            self@->Op_0 == Tag::ValueAt,
            decreases_to!(*self => *a),
            decreases_to!(*self => *b),
            decreases_to!(*self => *c),
        ensures
            res == forward_ref(self@),
        decreases self, 0nat,
    {
        proof {
            lemma_fwd_op(self@->Op_0, self@->Op_1, self@->Op_2);
            lemma_kids_fwd_3(Some(a@), Some(b@), opt_logic_view(*c));
            lemma_slot_fwd_some(a@);
            lemma_slot_fwd_some(b@);
            lemma_list_fwd_empty();
        }
        if b.contains_iteration_plus_positive() {
            return true;
        }
        a.check_forward_reference() || b.check_forward_reference() || Self::slot_forward_reference(c)
    }

    fn fwd_shape_k1o(&self, a: &CompiledLogic, b: &Option<Box<CompiledLogic>>) -> (res: bool)
        requires
            self@ == LogicView::Op(self@->Op_0, seq![Some(a@), opt_logic_view(*b)], Seq::<LogicView>::empty()),
            self@->Op_0 != Tag::ValueAt,
            decreases_to!(*self => *a),
            decreases_to!(*self => *b),
        ensures
            res == forward_ref(self@),
        decreases self, 0nat,
    {
        proof {
            lemma_fwd_op(self@->Op_0, self@->Op_1, self@->Op_2);
            lemma_kids_fwd_2(Some(a@), opt_logic_view(*b));
            lemma_slot_fwd_some(a@);
            lemma_list_fwd_empty();
        }
        a.check_forward_reference() || Self::slot_forward_reference(b)
    }

    fn fwd_shape_k1oo(&self, a: &CompiledLogic, b: &Option<Box<CompiledLogic>>, c: &Option<Box<CompiledLogic>>) -> (res: bool)
        requires
            self@ == LogicView::Op(self@->Op_0, seq![Some(a@), opt_logic_view(*b), opt_logic_view(*c)], Seq::<LogicView>::empty()),
            self@->Op_0 != Tag::ValueAt,
            decreases_to!(*self => *a),
            decreases_to!(*self => *b),
            decreases_to!(*self => *c),
        ensures
            res == forward_ref(self@),
        decreases self, 0nat,
    {
        proof {
            lemma_fwd_op(self@->Op_0, self@->Op_1, self@->Op_2);
            lemma_kids_fwd_3(Some(a@), opt_logic_view(*b), opt_logic_view(*c));
            lemma_slot_fwd_some(a@);
            lemma_list_fwd_empty();
        }
        a.check_forward_reference() || Self::slot_forward_reference(b) || Self::slot_forward_reference(c)
    }

    fn fwd_shape_k3o(&self, a: &CompiledLogic, b: &CompiledLogic, c: &CompiledLogic, d: &Option<Box<CompiledLogic>>) -> (res: bool)
        requires
            self@ == LogicView::Op(self@->Op_0, seq![Some(a@), Some(b@), Some(c@), opt_logic_view(*d)], Seq::<LogicView>::empty()),
            self@->Op_0 != Tag::ValueAt,
            decreases_to!(*self => *a),
            decreases_to!(*self => *b),
            decreases_to!(*self => *c),
            decreases_to!(*self => *d),
        ensures
            res == forward_ref(self@),
        decreases self, 0nat,
    {
        proof {
            lemma_fwd_op(self@->Op_0, self@->Op_1, self@->Op_2);
            lemma_kids_fwd_4(Some(a@), Some(b@), Some(c@), opt_logic_view(*d));
            lemma_slot_fwd_some(a@);
            lemma_slot_fwd_some(b@);
            lemma_slot_fwd_some(c@);
            lemma_list_fwd_empty();
        }
        a.check_forward_reference() || b.check_forward_reference() || c.check_forward_reference() || Self::slot_forward_reference(d)
    }

    fn fwd_shape_k1l(&self, a: &CompiledLogic, v: &Vec<CompiledLogic>) -> (res: bool)
        requires
            self@ == LogicView::Op(self@->Op_0, seq![Some(a@)], logic_views(v@)),
            self@->Op_0 != Tag::ValueAt,
            decreases_to!(*self => *a),
            decreases_to!(*self => *v),
        ensures
            res == forward_ref(self@),
        decreases self, 0nat,
    {
        proof {
            lemma_fwd_op(self@->Op_0, self@->Op_1, self@->Op_2);
            lemma_kids_fwd_1(Some(a@));
            lemma_slot_fwd_some(a@);
        }
        a.check_forward_reference() || Self::any_forward_reference(v)
    }

    fn fwd_shape_k3l(&self, a: &CompiledLogic, b: &CompiledLogic, c: &CompiledLogic, v: &Vec<CompiledLogic>) -> (res: bool)
        requires
            self@ == LogicView::Op(self@->Op_0, seq![Some(a@), Some(b@), Some(c@)], logic_views(v@)),
            self@->Op_0 != Tag::ValueAt,
            decreases_to!(*self => *a),
            decreases_to!(*self => *b),
            decreases_to!(*self => *c),
            decreases_to!(*self => *v),
        ensures
            res == forward_ref(self@),
        decreases self, 0nat,
    {
        proof {
            lemma_fwd_op(self@->Op_0, self@->Op_1, self@->Op_2);
            lemma_kids_fwd_3(Some(a@), Some(b@), Some(c@));
            lemma_slot_fwd_some(a@);
            lemma_slot_fwd_some(b@);
            lemma_slot_fwd_some(c@);
        }
        a.check_forward_reference() || b.check_forward_reference() || c.check_forward_reference() || Self::any_forward_reference(v)
    }

}

proof fn lemma_list_fwd_prefix(xs: Seq<LogicView>, n: int)
    requires
        0 < n <= xs.len(),
        forward_ref(xs[n - 1]),
    ensures
        list_fwd(xs),
    decreases xs.len() - n,
{
    if n < xs.len() {
        lemma_list_fwd_prefix(xs.subrange(0, xs.len() - 1), n);
        assert(xs.subrange(0, xs.len() - 1)[n - 1] == xs[n - 1]);
    } else {
        assert(xs[xs.len() - 1] == xs[n - 1]);
    }
}

} // verus!
