//! Properties of the compiler's rewriting of operand lists and negations.

use vstd::prelude::*;
use crate::compiled::{LogicView, Tag, Compiled, compile_spec, flatten_spec, is_list_of, negate};
use crate::json::JsonView;
use crate::analysis::{vars_of, default_vars};
use crate::forward::{forward_ref, iteration_plus_positive, number_text_positive, positive_literal, kids_fwd, list_fwd};
use crate::paths::{json_pointer_of, law_var_name_round_trip};

verus! {

/// Flattening leaves no operand that is itself a list of the same operator:
/// `{"and": [{"and": [a, b]}, c]}` has the operands `a, b, c`.
pub proof fn law_flatten_no_nested(tag: Tag, items: Seq<LogicView>)
    ensures
        forall|i: int| 0 <= i < flatten_spec(tag, items).len() ==> !is_list_of(#[trigger] flatten_spec(tag, items)[i], tag),
    decreases items,
{
    if items.len() > 0 {
        let first = items[0];
        let rest = items.subrange(1, items.len() as int);
        law_flatten_no_nested(tag, rest);
        let head = match first {
            LogicView::Op(t, kids, sub) => if t == tag && kids.len() == 0 {
                assert(decreases_to!(items => items[0]));
                assert(decreases_to!(items[0] => sub));
                law_flatten_no_nested(tag, sub);
                flatten_spec(tag, sub)
            } else {
                seq![first]
            },
            _ => seq![first],
        };
        assert(flatten_spec(tag, items) == head + flatten_spec(tag, rest));
        assert forall|i: int| 0 <= i < flatten_spec(tag, items).len() implies !is_list_of(#[trigger] flatten_spec(tag, items)[i], tag) by {
            if i < head.len() {
                assert(flatten_spec(tag, items)[i] == head[i]);
            } else {
                assert(flatten_spec(tag, items)[i] == flatten_spec(tag, rest)[i - head.len()]);
            }
        }
    }
}

/// Negating twice gives back any expression that is not itself a negation.
pub proof fn law_double_negation(l: LogicView)
    requires
        !(l matches LogicView::Op(Tag::Not, _, _)),
    ensures
        negate(negate(l)) == l,
{
    assert(negate(l) == LogicView::Op(Tag::Not, seq![Some(l)], seq![]));
    assert(seq![Some(l)][0] == Some(l));
}


/// A variable is reported under the dotted name it was written with: the
/// compiled `{"var": "a.b"}` (named `/a/b`) reads the variable `a.b`.
pub proof fn law_var_reported_as_written(s: Seq<char>)
    requires
        s.len() > 0,
        !s.contains('/'),
        s[0] != '#',
    ensures
        vars_of(LogicView::Var(json_pointer_of(s), None)) == seq![s],
{
    law_var_name_round_trip(s);
    assert(default_vars(None) =~= Seq::<Seq<char>>::empty());
    assert(vars_of(LogicView::Var(json_pointer_of(s), None)) == seq![s] + default_vars(None));
    assert(seq![s] + Seq::<Seq<char>>::empty() =~= seq![s]);
}

/// A `VALUEAT` whose row index is the compiled `$iteration + n`, with `n` a
/// positive number, refers to a later iteration.
pub proof fn law_value_at_next_iteration_is_forward(
    kids: Seq<Option<LogicView>>,
    add_kids: Seq<Option<LogicView>>,
    items: Seq<LogicView>,
    n: Seq<char>,
)
    requires
        kids.len() > 1,
        kids[1] == Some(LogicView::Op(Tag::Add, add_kids, seq![
            LogicView::Var(json_pointer_of("$iteration"@), None),
            LogicView::Number(n),
        ])),
        number_text_positive(n),
    ensures
        forward_ref(LogicView::Op(Tag::ValueAt, kids, items)),
{
    reveal_strlit("$iteration");
    let ops = seq![LogicView::Var(json_pointer_of("$iteration"@), None), LogicView::Number(n)];
    assert(ops[0] == LogicView::Var(json_pointer_of("$iteration"@), None));
    law_var_reported_as_written("$iteration"@);
    assert(vars_of(ops[0]).contains("$iteration"@)) by {
        assert(vars_of(ops[0])[0] == "$iteration"@);
    }
    assert(positive_literal(ops[1]));
    let l = LogicView::Op(Tag::Add, add_kids, ops);
    assert(l->Op_2 == ops);
    assert(vars_of(l->Op_2[0]).contains("$iteration"@));
    assert(positive_literal(l->Op_2[1]));
    assert(iteration_plus_positive(LogicView::Op(Tag::Add, add_kids, ops)));
}

/// The operator each comparison and equality name stands for.
pub open spec fn comparison_tag(op: Seq<char>) -> Option<Tag> {
    if op == "<"@ {
        Some(Tag::LessThan)
    } else if op == "<="@ {
        Some(Tag::LessThanOrEqual)
    } else if op == ">"@ {
        Some(Tag::GreaterThan)
    } else if op == ">="@ {
        Some(Tag::GreaterThanOrEqual)
    } else if op == "=="@ {
        Some(Tag::Equal)
    } else if op == "==="@ {
        Some(Tag::StrictEqual)
    } else if op == "!="@ {
        Some(Tag::NotEqual)
    } else if op == "!=="@ {
        Some(Tag::StrictNotEqual)
    } else {
        None
    }
}

#[verifier::spinoff_prover]
#[verifier::rlimit(80)]
proof fn lemma_binary_of_two(tag: Tag, x: JsonView, y: JsonView)
    requires
        compile_spec(x) is Done,
        compile_spec(y) is Done,
    ensures
        crate::compiled::spec_binary(tag, JsonView::Array(seq![x, y])) == Compiled::Done(LogicView::Op(
            tag,
            seq![Some(compile_spec(x)->Done_0), Some(compile_spec(y)->Done_0)],
            seq![],
        )),
{
    let arr = seq![x, y];
    assert(arr[0] == x);
    assert(arr[1] == y);
    let lx = compile_spec(x)->Done_0;
    let ly = compile_spec(y)->Done_0;
    let idx = seq![0usize, 1usize];
    assert(idx.subrange(1, 2) =~= seq![1usize]);
    assert(seq![1usize].subrange(1, 1) =~= Seq::<usize>::empty());
    assert(crate::compiled::compile_picks(arr, Seq::<usize>::empty()) == Compiled::Done(Seq::<LogicView>::empty()));
    assert(compile_spec(arr[1]) == Compiled::Done(ly));
    assert(seq![1usize][0] == 1usize);
    assert(seq![1usize].len() == 1);
    assert(crate::compiled::compile_picks(arr, seq![1usize]) == crate::compiled::map_done(
        crate::compiled::compile_picks(arr, Seq::<usize>::empty()),
        |ls: Seq<LogicView>| seq![ly] + ls,
    ));
    assert(crate::compiled::compile_picks(arr, seq![1usize]) == Compiled::Done(seq![ly] + Seq::<LogicView>::empty()));
    assert(idx[0] == 0usize);
    assert(compile_spec(arr[0]) == Compiled::Done(lx));
    assert(crate::compiled::compile_picks(arr, idx) == crate::compiled::map_done(
        crate::compiled::compile_picks(arr, seq![1usize]),
        |ls: Seq<LogicView>| seq![lx] + ls,
    ));
    assert(crate::compiled::compile_picks(arr, idx) == Compiled::Done(seq![lx] + (seq![ly] + Seq::<LogicView>::empty())));
    let ls = seq![lx] + (seq![ly] + Seq::<LogicView>::empty());
    assert(ls[0] == lx);
    assert(ls[1] == ly);
    assert(seq![x, y].len() == 2);
}

/// A comparison or equality `{op: [x, y]}` compiles to the node of that very
/// operator over the two compiled operands, in order: `"<"` is a strict
/// less-than, `"<="` a less-or-equal, `"!=="` a strict inequality, and so on.
#[verifier::spinoff_prover]
#[verifier::rlimit(80)]
pub proof fn law_comparison_compiles_to_its_operator(op: Seq<char>, x: JsonView, y: JsonView)
    requires
        comparison_tag(op) is Some,
        compile_spec(x) is Done,
        compile_spec(y) is Done,
    ensures
        compile_spec(JsonView::Object(seq![(op, JsonView::Array(seq![x, y]))])) == Compiled::Done(LogicView::Op(
            comparison_tag(op)->Some_0,
            seq![Some(compile_spec(x)->Done_0), Some(compile_spec(y)->Done_0)],
            seq![],
        )),
{
    reveal_strlit("<");
    assert("<"@ =~= seq!['<']);
    reveal_strlit("<=");
    assert("<="@ =~= seq!['<', '=']);
    reveal_strlit(">");
    assert(">"@ =~= seq!['>']);
    reveal_strlit(">=");
    assert(">="@ =~= seq!['>', '=']);
    reveal_strlit("==");
    assert("=="@ =~= seq!['=', '=']);
    reveal_strlit("===");
    assert("==="@ =~= seq!['=', '=', '=']);
    reveal_strlit("!=");
    assert("!="@ =~= seq!['!', '=']);
    reveal_strlit("!==");
    assert("!=="@ =~= seq!['!', '=', '=']);
    reveal_strlit("var");
    assert("var"@ =~= seq!['v', 'a', 'r']);
    reveal_strlit("$ref");
    assert("$ref"@ =~= seq!['$', 'r', 'e', 'f']);
    reveal_strlit("ref");
    assert("ref"@ =~= seq!['r', 'e', 'f']);
    reveal_strlit("and");
    assert("and"@ =~= seq!['a', 'n', 'd']);
    reveal_strlit("or");
    assert("or"@ =~= seq!['o', 'r']);
    reveal_strlit("!");
    assert("!"@ =~= seq!['!']);
    reveal_strlit("not");
    assert("not"@ =~= seq!['n', 'o', 't']);
    reveal_strlit("if");
    assert("if"@ =~= seq!['i', 'f']);
    let arr = JsonView::Array(seq![x, y]);
    let es = seq![(op, arr)];
    assert(es[0] == (op, arr));
    let tag = comparison_tag(op)->Some_0;
    lemma_binary_of_two(tag, x, y);
    assert(compile_spec(JsonView::Object(es)) == crate::compiled::compile_operator_spec(op, arr));
    if op == "<"@ || op == "<="@ || op == ">"@ || op == ">="@ {
        assert(op != "and"@) by {
            if op == "and"@ {
                assert(op.len() == "and"@.len());
                assert(op[0] == "and"@[0]);
            }
        }
        assert(op != "or"@) by {
            if op == "or"@ {
                assert(op.len() == "or"@.len());
                assert(op[0] == "or"@[0]);
            }
        }
        assert(op != "!"@) by {
            if op == "!"@ {
                assert(op.len() == "!"@.len());
                assert(op[0] == "!"@[0]);
            }
        }
        assert(op != "not"@) by {
            if op == "not"@ {
                assert(op.len() == "not"@.len());
                assert(op[0] == "not"@[0]);
            }
        }
        assert(op != "if"@) by {
            if op == "if"@ {
                assert(op.len() == "if"@.len());
                assert(op[0] == "if"@[0]);
            }
        }
        assert(op != "=="@) by {
            if op == "=="@ {
                assert(op.len() == "=="@.len());
                assert(op[0] == "=="@[0]);
            }
        }
        assert(op != "==="@) by {
            if op == "==="@ {
                assert(op.len() == "==="@.len());
                assert(op[0] == "==="@[0]);
            }
        }
        assert(op != "!="@) by {
            if op == "!="@ {
                assert(op.len() == "!="@.len());
                assert(op[0] == "!="@[0]);
            }
        }
        assert(op != "!=="@) by {
            if op == "!=="@ {
                assert(op.len() == "!=="@.len());
                assert(op[0] == "!=="@[0]);
            }
        }
        assert(!crate::compiled::op_group_0(op));
        assert(crate::compiled::op_group_1(op));
        assert(crate::compiled::compile_group_1_spec(op, arr) == crate::compiled::spec_binary(tag, arr));
    } else {
        assert(crate::compiled::op_group_0(op));
        assert(crate::compiled::compile_group_0_spec(op, arr) == crate::compiled::spec_binary(tag, arr));
    }
}

/// The operator each two-operand name stands for.
pub open spec fn binary_tag(op: Seq<char>) -> Option<Tag> {
    match comparison_tag(op) {
        Some(t) => Some(t),
        None => binary_tag_1(op),
    }
}

/// The two-operand names past the comparisons (part 1).
pub open spec fn binary_tag_1(op: Seq<char>) -> Option<Tag> {
    if op == "%"@ {
        Some(Tag::Modulo)
    } else if op == "^"@ {
        Some(Tag::Power)
    } else if op == "map"@ {
        Some(Tag::MapEach)
    } else if op == "filter"@ {
        Some(Tag::Filter)
    } else if op == "all"@ {
        Some(Tag::All)
    } else if op == "some"@ {
        Some(Tag::SomeOf)
    } else if op == "none"@ {
        Some(Tag::NoneOf)
    } else if op == "in"@ {
        Some(Tag::In)
    } else if op == "pow"@ {
        Some(Tag::Pow)
    } else if op == "**"@ {
        Some(Tag::Pow)
    } else {
        binary_tag_2(op)
    }
}

/// The two-operand names past the comparisons (part 2).
pub open spec fn binary_tag_2(op: Seq<char>) -> Option<Tag> {
    if op == "splitvalue"@ {
        Some(Tag::SplitValue)
    } else if op == "SPLITVALUE"@ {
        Some(Tag::SplitValue)
    } else if op == "xor"@ {
        Some(Tag::Xor)
    } else if op == "ifnull"@ {
        Some(Tag::IfNull)
    } else if op == "IFNULL"@ {
        Some(Tag::IfNull)
    } else if op == "days"@ {
        Some(Tag::Days)
    } else if op == "DAYS"@ {
        Some(Tag::Days)
    } else if op == "MAXAT"@ {
        Some(Tag::MaxAt)
    } else if op == "RANGEOPTIONS"@ {
        Some(Tag::RangeOptions)
    } else {
        None
    }
}

/// Every two-operand operator `{op: [x, y]}` compiles to the node of the
/// operator its name stands for, over the two compiled operands in order: `%` is
/// a modulo, `map` a map, `some` a some, `in` a membership test, and so on.
#[verifier::spinoff_prover]
#[verifier::rlimit(100)]
pub proof fn law_binary_operator_compiles_to_its_operator(op: Seq<char>, x: JsonView, y: JsonView)
    requires
        binary_tag(op) is Some,
        compile_spec(x) is Done,
        compile_spec(y) is Done,
    ensures
        compile_spec(JsonView::Object(seq![(op, JsonView::Array(seq![x, y]))])) == Compiled::Done(LogicView::Op(
            binary_tag(op)->Some_0,
            seq![Some(compile_spec(x)->Done_0), Some(compile_spec(y)->Done_0)],
            seq![],
        )),
{
    reveal_strlit("!");
    reveal_strlit("!=");
    reveal_strlit("!==");
    reveal_strlit("$ref");
    reveal_strlit("%");
    reveal_strlit("*");
    reveal_strlit("**");
    reveal_strlit("+");
    reveal_strlit("-");
    reveal_strlit("/");
    reveal_strlit("<");
    reveal_strlit("<=");
    reveal_strlit("==");
    reveal_strlit("===");
    reveal_strlit(">");
    reveal_strlit(">=");
    reveal_strlit("CHOOSE");
    reveal_strlit("CONCAT");
    reveal_strlit("DATE");
    reveal_strlit("DATEDIF");
    reveal_strlit("DAY");
    reveal_strlit("DAYS");
    reveal_strlit("DIVIDES");
    reveal_strlit("EMPTY");
    reveal_strlit("FINDINDEX");
    reveal_strlit("FOR");
    reveal_strlit("IFNULL");
    reveal_strlit("INDEXAT");
    reveal_strlit("ISEMPTY");
    reveal_strlit("LEFT");
    reveal_strlit("LEN");
    reveal_strlit("MAPOPTIONS");
    reveal_strlit("MAPOPTIONSIF");
    reveal_strlit("MATCH");
    reveal_strlit("MATCHRANGE");
    reveal_strlit("MAXAT");
    reveal_strlit("MID");
    reveal_strlit("MONTH");
    reveal_strlit("MULTIPLIES");
    reveal_strlit("NOW");
    reveal_strlit("RANGEOPTIONS");
    reveal_strlit("RIGHT");
    reveal_strlit("ROUND");
    reveal_strlit("ROUNDDOWN");
    reveal_strlit("ROUNDUP");
    reveal_strlit("SEARCH");
    reveal_strlit("SPLITTEXT");
    reveal_strlit("SPLITVALUE");
    reveal_strlit("SUM");
    reveal_strlit("TODAY");
    reveal_strlit("VALUEAT");
    reveal_strlit("YEAR");
    reveal_strlit("YEARFRAC");
    reveal_strlit("^");
    reveal_strlit("abs");
    reveal_strlit("all");
    reveal_strlit("and");
    reveal_strlit("cat");
    reveal_strlit("concat");
    reveal_strlit("date");
    reveal_strlit("day");
    reveal_strlit("days");
    reveal_strlit("empty");
    reveal_strlit("filter");
    reveal_strlit("if");
    reveal_strlit("ifnull");
    reveal_strlit("in");
    reveal_strlit("isempty");
    reveal_strlit("left");
    reveal_strlit("len");
    reveal_strlit("length");
    reveal_strlit("map");
    reveal_strlit("max");
    reveal_strlit("merge");
    reveal_strlit("mid");
    reveal_strlit("min");
    reveal_strlit("missing");
    reveal_strlit("missing_some");
    reveal_strlit("month");
    reveal_strlit("none");
    reveal_strlit("not");
    reveal_strlit("now");
    reveal_strlit("or");
    reveal_strlit("pow");
    reveal_strlit("reduce");
    reveal_strlit("ref");
    reveal_strlit("return");
    reveal_strlit("right");
    reveal_strlit("round");
    reveal_strlit("rounddown");
    reveal_strlit("roundup");
    reveal_strlit("search");
    reveal_strlit("some");
    reveal_strlit("splittext");
    reveal_strlit("splitvalue");
    reveal_strlit("substr");
    reveal_strlit("sum");
    reveal_strlit("today");
    reveal_strlit("var");
    reveal_strlit("xor");
    reveal_strlit("year");
    let arr = JsonView::Array(seq![x, y]);
    let es = seq![(op, arr)];
    assert(es[0] == (op, arr));
    let tag = binary_tag(op)->Some_0;
    lemma_binary_of_two(tag, x, y);
    if op == "=="@ {
        assert(op.len() == 2);
        assert(op[0] == '=');
        assert(op[1] == '=');
        assert(op != "var"@ && op != "$ref"@ && op != "ref"@);
        assert(crate::compiled::op_group_0(op));
        assert(crate::compiled::compile_group_0_spec(op, arr) == crate::compiled::spec_binary(Tag::Equal, arr));
        assert(tag == Tag::Equal);
    }
    if op == "==="@ {
        assert(op.len() == 3);
        assert(op[0] == '=');
        assert(op[1] == '=');
        assert(op[2] == '=');
        assert(op != "var"@ && op != "$ref"@ && op != "ref"@);
        assert(crate::compiled::op_group_0(op));
        assert(crate::compiled::compile_group_0_spec(op, arr) == crate::compiled::spec_binary(Tag::StrictEqual, arr));
        assert(tag == Tag::StrictEqual);
    }
    if op == "!="@ {
        assert(op.len() == 2);
        assert(op[0] == '!');
        assert(op[1] == '=');
        assert(op != "var"@ && op != "$ref"@ && op != "ref"@);
        assert(crate::compiled::op_group_0(op));
        assert(crate::compiled::compile_group_0_spec(op, arr) == crate::compiled::spec_binary(Tag::NotEqual, arr));
        assert(tag == Tag::NotEqual);
    }
    if op == "!=="@ {
        assert(op.len() == 3);
        assert(op[0] == '!');
        assert(op[1] == '=');
        assert(op[2] == '=');
        assert(op != "var"@ && op != "$ref"@ && op != "ref"@);
        assert(crate::compiled::op_group_0(op));
        assert(crate::compiled::compile_group_0_spec(op, arr) == crate::compiled::spec_binary(Tag::StrictNotEqual, arr));
        assert(tag == Tag::StrictNotEqual);
    }
    if op == "<"@ {
        assert(op.len() == 1);
        assert(op[0] == '<');
        assert(op != "var"@ && op != "$ref"@ && op != "ref"@);
        assert(!crate::compiled::op_group_0(op));
        assert(crate::compiled::op_group_1(op));
        assert(crate::compiled::compile_group_1_spec(op, arr) == crate::compiled::spec_binary(Tag::LessThan, arr));
        assert(tag == Tag::LessThan);
    }
    if op == "<="@ {
        assert(op.len() == 2);
        assert(op[0] == '<');
        assert(op[1] == '=');
        assert(op != "var"@ && op != "$ref"@ && op != "ref"@);
        assert(!crate::compiled::op_group_0(op));
        assert(crate::compiled::op_group_1(op));
        assert(crate::compiled::compile_group_1_spec(op, arr) == crate::compiled::spec_binary(Tag::LessThanOrEqual, arr));
        assert(tag == Tag::LessThanOrEqual);
    }
    if op == ">"@ {
        assert(op.len() == 1);
        assert(op[0] == '>');
        assert(op != "var"@ && op != "$ref"@ && op != "ref"@);
        assert(!crate::compiled::op_group_0(op));
        assert(crate::compiled::op_group_1(op));
        assert(crate::compiled::compile_group_1_spec(op, arr) == crate::compiled::spec_binary(Tag::GreaterThan, arr));
        assert(tag == Tag::GreaterThan);
    }
    if op == ">="@ {
        assert(op.len() == 2);
        assert(op[0] == '>');
        assert(op[1] == '=');
        assert(op != "var"@ && op != "$ref"@ && op != "ref"@);
        assert(!crate::compiled::op_group_0(op));
        assert(crate::compiled::op_group_1(op));
        assert(crate::compiled::compile_group_1_spec(op, arr) == crate::compiled::spec_binary(Tag::GreaterThanOrEqual, arr));
        assert(tag == Tag::GreaterThanOrEqual);
    }
    if op == "%"@ {
        assert(op.len() == 1);
        assert(op[0] == '%');
        assert(op != "var"@ && op != "$ref"@ && op != "ref"@);
        assert(!crate::compiled::op_group_0(op));
        assert(!crate::compiled::op_group_1(op));
        assert(crate::compiled::op_group_2(op));
        assert(crate::compiled::compile_group_2_spec(op, arr) == crate::compiled::spec_binary(Tag::Modulo, arr));
        assert(tag == Tag::Modulo);
    }
    if op == "^"@ {
        assert(op.len() == 1);
        assert(op[0] == '^');
        assert(op != "var"@ && op != "$ref"@ && op != "ref"@);
        assert(!crate::compiled::op_group_0(op));
        assert(!crate::compiled::op_group_1(op));
        assert(crate::compiled::op_group_2(op));
        assert(crate::compiled::compile_group_2_spec(op, arr) == crate::compiled::spec_binary(Tag::Power, arr));
        assert(tag == Tag::Power);
    }
    if op == "map"@ {
        assert(op.len() == 3);
        assert(op[0] == 'm');
        assert(op[1] == 'a');
        assert(op[2] == 'p');
        assert(op != "var"@ && op != "$ref"@ && op != "ref"@);
        assert(!crate::compiled::op_group_0(op));
        assert(!crate::compiled::op_group_1(op));
        assert(crate::compiled::op_group_2(op));
        assert(crate::compiled::compile_group_2_spec(op, arr) == crate::compiled::spec_binary(Tag::MapEach, arr));
        assert(tag == Tag::MapEach);
    }
    if op == "filter"@ {
        assert(op.len() == 6);
        assert(op[0] == 'f');
        assert(op[1] == 'i');
        assert(op[2] == 'l');
        assert(op[3] == 't');
        assert(op[4] == 'e');
        assert(op[5] == 'r');
        assert(op != "var"@ && op != "$ref"@ && op != "ref"@);
        assert(!crate::compiled::op_group_0(op));
        assert(!crate::compiled::op_group_1(op));
        assert(crate::compiled::op_group_2(op));
        assert(crate::compiled::compile_group_2_spec(op, arr) == crate::compiled::spec_binary(Tag::Filter, arr));
        assert(tag == Tag::Filter);
    }
    if op == "all"@ {
        assert(op.len() == 3);
        assert(op[0] == 'a');
        assert(op[1] == 'l');
        assert(op[2] == 'l');
        assert(op != "var"@ && op != "$ref"@ && op != "ref"@);
        assert(!crate::compiled::op_group_0(op));
        assert(!crate::compiled::op_group_1(op));
        assert(crate::compiled::op_group_2(op));
        assert(crate::compiled::compile_group_2_spec(op, arr) == crate::compiled::spec_binary(Tag::All, arr));
        assert(tag == Tag::All);
    }
    if op == "some"@ {
        assert(op.len() == 4);
        assert(op[0] == 's');
        assert(op[1] == 'o');
        assert(op[2] == 'm');
        assert(op[3] == 'e');
        assert(op != "var"@ && op != "$ref"@ && op != "ref"@);
        assert(!crate::compiled::op_group_0(op));
        assert(!crate::compiled::op_group_1(op));
        assert(crate::compiled::op_group_2(op));
        assert(crate::compiled::compile_group_2_spec(op, arr) == crate::compiled::spec_binary(Tag::SomeOf, arr));
        assert(tag == Tag::SomeOf);
    }
    if op == "none"@ {
        assert(op.len() == 4);
        assert(op[0] == 'n');
        assert(op[1] == 'o');
        assert(op[2] == 'n');
        assert(op[3] == 'e');
        assert(op != "var"@ && op != "$ref"@ && op != "ref"@);
        assert(!crate::compiled::op_group_0(op));
        assert(!crate::compiled::op_group_1(op));
        assert(crate::compiled::op_group_2(op));
        assert(crate::compiled::compile_group_2_spec(op, arr) == crate::compiled::spec_binary(Tag::NoneOf, arr));
        assert(tag == Tag::NoneOf);
    }
    if op == "in"@ {
        assert(op.len() == 2);
        assert(op[0] == 'i');
        assert(op[1] == 'n');
        assert(op != "var"@ && op != "$ref"@ && op != "ref"@);
        assert(!crate::compiled::op_group_0(op));
        assert(!crate::compiled::op_group_1(op));
        assert(!crate::compiled::op_group_2(op));
        assert(crate::compiled::op_group_3(op));
        assert(crate::compiled::compile_group_3_spec(op, arr) == crate::compiled::spec_binary(Tag::In, arr));
        assert(tag == Tag::In);
    }
    if op == "pow"@ {
        assert(op.len() == 3);
        assert(op[0] == 'p');
        assert(op[1] == 'o');
        assert(op[2] == 'w');
        assert(op != "var"@ && op != "$ref"@ && op != "ref"@);
        assert(!crate::compiled::op_group_0(op));
        assert(!crate::compiled::op_group_1(op));
        assert(!crate::compiled::op_group_2(op));
        assert(!crate::compiled::op_group_3(op));
        assert(crate::compiled::op_group_4(op));
        assert(crate::compiled::compile_group_4_spec(op, arr) == crate::compiled::spec_binary(Tag::Pow, arr));
        assert(tag == Tag::Pow);
    }
    if op == "**"@ {
        assert(op.len() == 2);
        assert(op[0] == '*');
        assert(op[1] == '*');
        assert(op != "var"@ && op != "$ref"@ && op != "ref"@);
        assert(!crate::compiled::op_group_0(op));
        assert(!crate::compiled::op_group_1(op));
        assert(!crate::compiled::op_group_2(op));
        assert(!crate::compiled::op_group_3(op));
        assert(crate::compiled::op_group_4(op));
        assert(crate::compiled::compile_group_4_spec(op, arr) == crate::compiled::spec_binary(Tag::Pow, arr));
        assert(tag == Tag::Pow);
    }
    if op == "splitvalue"@ {
        assert(op.len() == 10);
        assert(op[0] == 's');
        assert(op[1] == 'p');
        assert(op[2] == 'l');
        assert(op[3] == 'i');
        assert(op[4] == 't');
        assert(op[5] == 'v');
        assert(op[6] == 'a');
        assert(op[7] == 'l');
        assert(op[8] == 'u');
        assert(op[9] == 'e');
        assert(op != "var"@ && op != "$ref"@ && op != "ref"@);
        assert(!crate::compiled::op_group_0(op));
        assert(!crate::compiled::op_group_1(op));
        assert(!crate::compiled::op_group_2(op));
        assert(!crate::compiled::op_group_3(op));
        assert(!crate::compiled::op_group_4(op));
        assert(crate::compiled::op_group_5(op));
        assert(crate::compiled::compile_group_5_spec(op, arr) == crate::compiled::spec_binary(Tag::SplitValue, arr));
        assert(tag == Tag::SplitValue);
    }
    if op == "SPLITVALUE"@ {
        assert(op.len() == 10);
        assert(op[0] == 'S');
        assert(op[1] == 'P');
        assert(op[2] == 'L');
        assert(op[3] == 'I');
        assert(op[4] == 'T');
        assert(op[5] == 'V');
        assert(op[6] == 'A');
        assert(op[7] == 'L');
        assert(op[8] == 'U');
        assert(op[9] == 'E');
        assert(op != "var"@ && op != "$ref"@ && op != "ref"@);
        assert(!crate::compiled::op_group_0(op));
        assert(!crate::compiled::op_group_1(op));
        assert(!crate::compiled::op_group_2(op));
        assert(!crate::compiled::op_group_3(op));
        assert(!crate::compiled::op_group_4(op));
        assert(crate::compiled::op_group_5(op));
        assert(crate::compiled::compile_group_5_spec(op, arr) == crate::compiled::spec_binary(Tag::SplitValue, arr));
        assert(tag == Tag::SplitValue);
    }
    if op == "xor"@ {
        assert(op.len() == 3);
        assert(op[0] == 'x');
        assert(op[1] == 'o');
        assert(op[2] == 'r');
        assert(op != "var"@ && op != "$ref"@ && op != "ref"@);
        assert(!crate::compiled::op_group_0(op));
        assert(!crate::compiled::op_group_1(op));
        assert(!crate::compiled::op_group_2(op));
        assert(!crate::compiled::op_group_3(op));
        assert(!crate::compiled::op_group_4(op));
        assert(crate::compiled::op_group_5(op));
        assert(crate::compiled::compile_group_5_spec(op, arr) == crate::compiled::spec_binary(Tag::Xor, arr));
        assert(tag == Tag::Xor);
    }
    if op == "ifnull"@ {
        assert(op.len() == 6);
        assert(op[0] == 'i');
        assert(op[1] == 'f');
        assert(op[2] == 'n');
        assert(op[3] == 'u');
        assert(op[4] == 'l');
        assert(op[5] == 'l');
        assert(op != "var"@ && op != "$ref"@ && op != "ref"@);
        assert(!crate::compiled::op_group_0(op));
        assert(!crate::compiled::op_group_1(op));
        assert(!crate::compiled::op_group_2(op));
        assert(!crate::compiled::op_group_3(op));
        assert(!crate::compiled::op_group_4(op));
        assert(crate::compiled::op_group_5(op));
        assert(crate::compiled::compile_group_5_spec(op, arr) == crate::compiled::spec_binary(Tag::IfNull, arr));
        assert(tag == Tag::IfNull);
    }
    if op == "IFNULL"@ {
        assert(op.len() == 6);
        assert(op[0] == 'I');
        assert(op[1] == 'F');
        assert(op[2] == 'N');
        assert(op[3] == 'U');
        assert(op[4] == 'L');
        assert(op[5] == 'L');
        assert(op != "var"@ && op != "$ref"@ && op != "ref"@);
        assert(!crate::compiled::op_group_0(op));
        assert(!crate::compiled::op_group_1(op));
        assert(!crate::compiled::op_group_2(op));
        assert(!crate::compiled::op_group_3(op));
        assert(!crate::compiled::op_group_4(op));
        assert(crate::compiled::op_group_5(op));
        assert(crate::compiled::compile_group_5_spec(op, arr) == crate::compiled::spec_binary(Tag::IfNull, arr));
        assert(tag == Tag::IfNull);
    }
    if op == "days"@ {
        assert(op.len() == 4);
        assert(op[0] == 'd');
        assert(op[1] == 'a');
        assert(op[2] == 'y');
        assert(op[3] == 's');
        assert(op != "var"@ && op != "$ref"@ && op != "ref"@);
        assert(!crate::compiled::op_group_0(op));
        assert(!crate::compiled::op_group_1(op));
        assert(!crate::compiled::op_group_2(op));
        assert(!crate::compiled::op_group_3(op));
        assert(!crate::compiled::op_group_4(op));
        assert(!crate::compiled::op_group_5(op));
        assert(crate::compiled::op_group_6(op));
        assert(crate::compiled::compile_group_6_spec(op, arr) == crate::compiled::spec_binary(Tag::Days, arr));
        assert(tag == Tag::Days);
    }
    if op == "DAYS"@ {
        assert(op.len() == 4);
        assert(op[0] == 'D');
        assert(op[1] == 'A');
        assert(op[2] == 'Y');
        assert(op[3] == 'S');
        assert(op != "var"@ && op != "$ref"@ && op != "ref"@);
        assert(!crate::compiled::op_group_0(op));
        assert(!crate::compiled::op_group_1(op));
        assert(!crate::compiled::op_group_2(op));
        assert(!crate::compiled::op_group_3(op));
        assert(!crate::compiled::op_group_4(op));
        assert(!crate::compiled::op_group_5(op));
        assert(crate::compiled::op_group_6(op));
        assert(crate::compiled::compile_group_6_spec(op, arr) == crate::compiled::spec_binary(Tag::Days, arr));
        assert(tag == Tag::Days);
    }
    if op == "MAXAT"@ {
        assert(op.len() == 5);
        assert(op[0] == 'M');
        assert(op[1] == 'A');
        assert(op[2] == 'X');
        assert(op[3] == 'A');
        assert(op[4] == 'T');
        assert(op != "var"@ && op != "$ref"@ && op != "ref"@);
        assert(!crate::compiled::op_group_0(op));
        assert(!crate::compiled::op_group_1(op));
        assert(!crate::compiled::op_group_2(op));
        assert(!crate::compiled::op_group_3(op));
        assert(!crate::compiled::op_group_4(op));
        assert(!crate::compiled::op_group_5(op));
        assert(!crate::compiled::op_group_6(op));
        assert(crate::compiled::op_group_7(op));
        assert(crate::compiled::compile_group_7_spec(op, arr) == crate::compiled::spec_binary(Tag::MaxAt, arr));
        assert(tag == Tag::MaxAt);
    }
    if op == "RANGEOPTIONS"@ {
        assert(op.len() == 12);
        assert(op[0] == 'R');
        assert(op[1] == 'A');
        assert(op[2] == 'N');
        assert(op[3] == 'G');
        assert(op[4] == 'E');
        assert(op[5] == 'O');
        assert(op[6] == 'P');
        assert(op[7] == 'T');
        assert(op[8] == 'I');
        assert(op[9] == 'O');
        assert(op[10] == 'N');
        assert(op[11] == 'S');
        assert(op != "var"@ && op != "$ref"@ && op != "ref"@);
        assert(!crate::compiled::op_group_0(op));
        assert(!crate::compiled::op_group_1(op));
        assert(!crate::compiled::op_group_2(op));
        assert(!crate::compiled::op_group_3(op));
        assert(!crate::compiled::op_group_4(op));
        assert(!crate::compiled::op_group_5(op));
        assert(!crate::compiled::op_group_6(op));
        assert(!crate::compiled::op_group_7(op));
        assert(crate::compiled::op_group_8(op));
        assert(crate::compiled::compile_group_8_spec(op, arr) == crate::compiled::spec_binary(Tag::RangeOptions, arr));
        assert(tag == Tag::RangeOptions);
    }
    assert(compile_spec(JsonView::Object(es)) == crate::compiled::compile_operator_spec(op, arr));
}


/// The operator each operator name stands for (the names compiled to a node
/// of their own operator).
pub open spec fn op_tag(op: Seq<char>) -> Option<Tag> {
    op_tag_1(op)
}

/// Operator names, part 1.
pub open spec fn op_tag_1(op: Seq<char>) -> Option<Tag> {
    if op == "and"@ {
        Some(Tag::And)
    } else if op == "or"@ {
        Some(Tag::Or)
    } else if op == "if"@ {
        Some(Tag::If)
    } else if op == "=="@ {
        Some(Tag::Equal)
    } else if op == "==="@ {
        Some(Tag::StrictEqual)
    } else if op == "!="@ {
        Some(Tag::NotEqual)
    } else if op == "!=="@ {
        Some(Tag::StrictNotEqual)
    } else if op == "<"@ {
        Some(Tag::LessThan)
    } else if op == "<="@ {
        Some(Tag::LessThanOrEqual)
    } else if op == ">"@ {
        Some(Tag::GreaterThan)
    } else {
        op_tag_2(op)
    }
}

/// Operator names, part 2.
pub open spec fn op_tag_2(op: Seq<char>) -> Option<Tag> {
    if op == ">="@ {
        Some(Tag::GreaterThanOrEqual)
    } else if op == "+"@ {
        Some(Tag::Add)
    } else if op == "-"@ {
        Some(Tag::Subtract)
    } else if op == "*"@ {
        Some(Tag::Multiply)
    } else if op == "/"@ {
        Some(Tag::Divide)
    } else if op == "%"@ {
        Some(Tag::Modulo)
    } else if op == "^"@ {
        Some(Tag::Power)
    } else if op == "map"@ {
        Some(Tag::MapEach)
    } else if op == "filter"@ {
        Some(Tag::Filter)
    } else if op == "reduce"@ {
        Some(Tag::Reduce)
    } else {
        op_tag_3(op)
    }
}

/// Operator names, part 3.
pub open spec fn op_tag_3(op: Seq<char>) -> Option<Tag> {
    if op == "all"@ {
        Some(Tag::All)
    } else if op == "some"@ {
        Some(Tag::SomeOf)
    } else if op == "none"@ {
        Some(Tag::NoneOf)
    } else if op == "merge"@ {
        Some(Tag::Merge)
    } else if op == "in"@ {
        Some(Tag::In)
    } else if op == "cat"@ {
        Some(Tag::Cat)
    } else if op == "substr"@ {
        Some(Tag::Substr)
    } else if op == "abs"@ {
        Some(Tag::Abs)
    } else if op == "max"@ {
        Some(Tag::Max)
    } else if op == "min"@ {
        Some(Tag::Min)
    } else {
        op_tag_4(op)
    }
}

/// Operator names, part 4.
pub open spec fn op_tag_4(op: Seq<char>) -> Option<Tag> {
    if op == "pow"@ {
        Some(Tag::Pow)
    } else if op == "**"@ {
        Some(Tag::Pow)
    } else if op == "round"@ {
        Some(Tag::Round)
    } else if op == "ROUND"@ {
        Some(Tag::Round)
    } else if op == "roundup"@ {
        Some(Tag::RoundUp)
    } else if op == "ROUNDUP"@ {
        Some(Tag::RoundUp)
    } else if op == "rounddown"@ {
        Some(Tag::RoundDown)
    } else if op == "ROUNDDOWN"@ {
        Some(Tag::RoundDown)
    } else if op == "length"@ {
        Some(Tag::Length)
    } else if op == "len"@ {
        Some(Tag::Len)
    } else {
        op_tag_5(op)
    }
}

/// Operator names, part 5.
pub open spec fn op_tag_5(op: Seq<char>) -> Option<Tag> {
    if op == "LEN"@ {
        Some(Tag::Len)
    } else if op == "search"@ {
        Some(Tag::Search)
    } else if op == "SEARCH"@ {
        Some(Tag::Search)
    } else if op == "left"@ {
        Some(Tag::Left)
    } else if op == "LEFT"@ {
        Some(Tag::Left)
    } else if op == "right"@ {
        Some(Tag::Right)
    } else if op == "RIGHT"@ {
        Some(Tag::Right)
    } else if op == "mid"@ {
        Some(Tag::Mid)
    } else if op == "MID"@ {
        Some(Tag::Mid)
    } else if op == "splittext"@ {
        Some(Tag::SplitText)
    } else {
        op_tag_6(op)
    }
}

/// Operator names, part 6.
pub open spec fn op_tag_6(op: Seq<char>) -> Option<Tag> {
    if op == "SPLITTEXT"@ {
        Some(Tag::SplitText)
    } else if op == "concat"@ {
        Some(Tag::Concat)
    } else if op == "CONCAT"@ {
        Some(Tag::Concat)
    } else if op == "splitvalue"@ {
        Some(Tag::SplitValue)
    } else if op == "SPLITVALUE"@ {
        Some(Tag::SplitValue)
    } else if op == "xor"@ {
        Some(Tag::Xor)
    } else if op == "ifnull"@ {
        Some(Tag::IfNull)
    } else if op == "IFNULL"@ {
        Some(Tag::IfNull)
    } else if op == "isempty"@ {
        Some(Tag::IsEmpty)
    } else if op == "ISEMPTY"@ {
        Some(Tag::IsEmpty)
    } else {
        op_tag_7(op)
    }
}

/// Operator names, part 7.
pub open spec fn op_tag_7(op: Seq<char>) -> Option<Tag> {
    if op == "empty"@ {
        Some(Tag::Empty)
    } else if op == "EMPTY"@ {
        Some(Tag::Empty)
    } else if op == "today"@ {
        Some(Tag::Today)
    } else if op == "TODAY"@ {
        Some(Tag::Today)
    } else if op == "now"@ {
        Some(Tag::Now)
    } else if op == "NOW"@ {
        Some(Tag::Now)
    } else if op == "days"@ {
        Some(Tag::Days)
    } else if op == "DAYS"@ {
        Some(Tag::Days)
    } else if op == "year"@ {
        Some(Tag::Year)
    } else if op == "YEAR"@ {
        Some(Tag::Year)
    } else {
        op_tag_8(op)
    }
}

/// Operator names, part 8.
pub open spec fn op_tag_8(op: Seq<char>) -> Option<Tag> {
    if op == "month"@ {
        Some(Tag::Month)
    } else if op == "MONTH"@ {
        Some(Tag::Month)
    } else if op == "day"@ {
        Some(Tag::Day)
    } else if op == "DAY"@ {
        Some(Tag::Day)
    } else if op == "date"@ {
        Some(Tag::Date)
    } else if op == "DATE"@ {
        Some(Tag::Date)
    } else if op == "sum"@ {
        Some(Tag::Sum)
    } else if op == "SUM"@ {
        Some(Tag::Sum)
    } else if op == "FOR"@ {
        Some(Tag::For)
    } else if op == "VALUEAT"@ {
        Some(Tag::ValueAt)
    } else {
        op_tag_9(op)
    }
}

/// Operator names, part 9.
pub open spec fn op_tag_9(op: Seq<char>) -> Option<Tag> {
    if op == "MAXAT"@ {
        Some(Tag::MaxAt)
    } else if op == "INDEXAT"@ {
        Some(Tag::IndexAt)
    } else if op == "MATCH"@ {
        Some(Tag::Match)
    } else if op == "MATCHRANGE"@ {
        Some(Tag::MatchRange)
    } else if op == "CHOOSE"@ {
        Some(Tag::Choose)
    } else if op == "FINDINDEX"@ {
        Some(Tag::FindIndex)
    } else if op == "MULTIPLIES"@ {
        Some(Tag::Multiplies)
    } else if op == "DIVIDES"@ {
        Some(Tag::Divides)
    } else if op == "YEARFRAC"@ {
        Some(Tag::YearFrac)
    } else if op == "DATEDIF"@ {
        Some(Tag::DateDif)
    } else {
        op_tag_10(op)
    }
}

/// Operator names, part 10.
pub open spec fn op_tag_10(op: Seq<char>) -> Option<Tag> {
    if op == "RANGEOPTIONS"@ {
        Some(Tag::RangeOptions)
    } else if op == "MAPOPTIONS"@ {
        Some(Tag::MapOptions)
    } else if op == "MAPOPTIONSIF"@ {
        Some(Tag::MapOptionsIf)
    } else {
        None
    }
}

proof fn lemma_op_tag_cases(op: Seq<char>)
    requires
        op_tag(op) is Some,
    ensures
        op == "and"@ || op == "or"@ || op == "if"@ || op == "=="@ || op == "==="@ || op == "!="@ || op == "!=="@ || op == "<"@ || op == "<="@ || op == ">"@ || op == ">="@ || op == "+"@ || op == "-"@ || op == "*"@ || op == "/"@ || op == "%"@ || op == "^"@ || op == "map"@ || op == "filter"@ || op == "reduce"@ || op == "all"@ || op == "some"@ || op == "none"@ || op == "merge"@ || op == "in"@ || op == "cat"@ || op == "substr"@ || op == "abs"@ || op == "max"@ || op == "min"@ || op == "pow"@ || op == "**"@ || op == "round"@ || op == "ROUND"@ || op == "roundup"@ || op == "ROUNDUP"@ || op == "rounddown"@ || op == "ROUNDDOWN"@ || op == "length"@ || op == "len"@ || op == "LEN"@ || op == "search"@ || op == "SEARCH"@ || op == "left"@ || op == "LEFT"@ || op == "right"@ || op == "RIGHT"@ || op == "mid"@ || op == "MID"@ || op == "splittext"@ || op == "SPLITTEXT"@ || op == "concat"@ || op == "CONCAT"@ || op == "splitvalue"@ || op == "SPLITVALUE"@ || op == "xor"@ || op == "ifnull"@ || op == "IFNULL"@ || op == "isempty"@ || op == "ISEMPTY"@ || op == "empty"@ || op == "EMPTY"@ || op == "today"@ || op == "TODAY"@ || op == "now"@ || op == "NOW"@ || op == "days"@ || op == "DAYS"@ || op == "year"@ || op == "YEAR"@ || op == "month"@ || op == "MONTH"@ || op == "day"@ || op == "DAY"@ || op == "date"@ || op == "DATE"@ || op == "sum"@ || op == "SUM"@ || op == "FOR"@ || op == "VALUEAT"@ || op == "MAXAT"@ || op == "INDEXAT"@ || op == "MATCH"@ || op == "MATCHRANGE"@ || op == "CHOOSE"@ || op == "FINDINDEX"@ || op == "MULTIPLIES"@ || op == "DIVIDES"@ || op == "YEARFRAC"@ || op == "DATEDIF"@ || op == "RANGEOPTIONS"@ || op == "MAPOPTIONS"@ || op == "MAPOPTIONSIF"@,
{
}

#[verifier::spinoff_prover]
#[verifier::rlimit(100)]
proof fn lemma_tags_group_0(op: Seq<char>, args: JsonView)
    requires
        op == "and"@ || op == "or"@ || op == "if"@ || op == "=="@ || op == "==="@ || op == "!="@ || op == "!=="@,
        compile_spec(JsonView::Object(seq![(op, args)])) is Done,
    ensures
        compile_spec(JsonView::Object(seq![(op, args)]))->Done_0 is Op,
        compile_spec(JsonView::Object(seq![(op, args)]))->Done_0->Op_0 == op_tag(op)->Some_0,
{
    reveal_strlit("!");
    reveal_strlit("!=");
    reveal_strlit("!==");
    reveal_strlit("$ref");
    reveal_strlit("%");
    reveal_strlit("*");
    reveal_strlit("**");
    reveal_strlit("+");
    reveal_strlit("-");
    reveal_strlit("/");
    reveal_strlit("<");
    reveal_strlit("<=");
    reveal_strlit("==");
    reveal_strlit("===");
    reveal_strlit(">");
    reveal_strlit(">=");
    reveal_strlit("CHOOSE");
    reveal_strlit("CONCAT");
    reveal_strlit("DATE");
    reveal_strlit("DATEDIF");
    reveal_strlit("DAY");
    reveal_strlit("DAYS");
    reveal_strlit("DIVIDES");
    reveal_strlit("EMPTY");
    reveal_strlit("FINDINDEX");
    reveal_strlit("FOR");
    reveal_strlit("IFNULL");
    reveal_strlit("INDEXAT");
    reveal_strlit("ISEMPTY");
    reveal_strlit("LEFT");
    reveal_strlit("LEN");
    reveal_strlit("MAPOPTIONS");
    reveal_strlit("MAPOPTIONSIF");
    reveal_strlit("MATCH");
    reveal_strlit("MATCHRANGE");
    reveal_strlit("MAXAT");
    reveal_strlit("MID");
    reveal_strlit("MONTH");
    reveal_strlit("MULTIPLIES");
    reveal_strlit("NOW");
    reveal_strlit("RANGEOPTIONS");
    reveal_strlit("RIGHT");
    reveal_strlit("ROUND");
    reveal_strlit("ROUNDDOWN");
    reveal_strlit("ROUNDUP");
    reveal_strlit("SEARCH");
    reveal_strlit("SPLITTEXT");
    reveal_strlit("SPLITVALUE");
    reveal_strlit("SUM");
    reveal_strlit("TODAY");
    reveal_strlit("VALUEAT");
    reveal_strlit("YEAR");
    reveal_strlit("YEARFRAC");
    reveal_strlit("^");
    reveal_strlit("abs");
    reveal_strlit("all");
    reveal_strlit("and");
    reveal_strlit("cat");
    reveal_strlit("concat");
    reveal_strlit("date");
    reveal_strlit("day");
    reveal_strlit("days");
    reveal_strlit("empty");
    reveal_strlit("filter");
    reveal_strlit("if");
    reveal_strlit("ifnull");
    reveal_strlit("in");
    reveal_strlit("isempty");
    reveal_strlit("left");
    reveal_strlit("len");
    reveal_strlit("length");
    reveal_strlit("map");
    reveal_strlit("max");
    reveal_strlit("merge");
    reveal_strlit("mid");
    reveal_strlit("min");
    reveal_strlit("missing");
    reveal_strlit("missing_some");
    reveal_strlit("month");
    reveal_strlit("none");
    reveal_strlit("not");
    reveal_strlit("now");
    reveal_strlit("or");
    reveal_strlit("pow");
    reveal_strlit("reduce");
    reveal_strlit("ref");
    reveal_strlit("return");
    reveal_strlit("right");
    reveal_strlit("round");
    reveal_strlit("rounddown");
    reveal_strlit("roundup");
    reveal_strlit("search");
    reveal_strlit("some");
    reveal_strlit("splittext");
    reveal_strlit("splitvalue");
    reveal_strlit("substr");
    reveal_strlit("sum");
    reveal_strlit("today");
    reveal_strlit("var");
    reveal_strlit("xor");
    reveal_strlit("year");
    let es = seq![(op, args)];
    assert(es[0] == (op, args));
    if op == "and"@ {
        assert(op.len() == 3);
        assert(op[0] == 'a');
        assert(op[1] == 'n');
        assert(op[2] == 'd');
        assert(op != "var"@ && op != "$ref"@ && op != "ref"@);
        assert(crate::compiled::op_group_0(op));
        assert(op_tag(op) == Some(Tag::And));
    }
    if op == "or"@ {
        assert(op.len() == 2);
        assert(op[0] == 'o');
        assert(op[1] == 'r');
        assert(op != "var"@ && op != "$ref"@ && op != "ref"@);
        assert(crate::compiled::op_group_0(op));
        assert(op_tag(op) == Some(Tag::Or));
    }
    if op == "if"@ {
        assert(op.len() == 2);
        assert(op[0] == 'i');
        assert(op[1] == 'f');
        assert(op != "var"@ && op != "$ref"@ && op != "ref"@);
        assert(crate::compiled::op_group_0(op));
        assert(op_tag(op) == Some(Tag::If));
    }
    if op == "=="@ {
        assert(op.len() == 2);
        assert(op[0] == '=');
        assert(op[1] == '=');
        assert(op != "var"@ && op != "$ref"@ && op != "ref"@);
        assert(crate::compiled::op_group_0(op));
        assert(op_tag(op) == Some(Tag::Equal));
    }
    if op == "==="@ {
        assert(op.len() == 3);
        assert(op[0] == '=');
        assert(op[1] == '=');
        assert(op[2] == '=');
        assert(op != "var"@ && op != "$ref"@ && op != "ref"@);
        assert(crate::compiled::op_group_0(op));
        assert(op_tag(op) == Some(Tag::StrictEqual));
    }
    if op == "!="@ {
        assert(op.len() == 2);
        assert(op[0] == '!');
        assert(op[1] == '=');
        assert(op != "var"@ && op != "$ref"@ && op != "ref"@);
        assert(crate::compiled::op_group_0(op));
        assert(op_tag(op) == Some(Tag::NotEqual));
    }
    if op == "!=="@ {
        assert(op.len() == 3);
        assert(op[0] == '!');
        assert(op[1] == '=');
        assert(op[2] == '=');
        assert(op != "var"@ && op != "$ref"@ && op != "ref"@);
        assert(crate::compiled::op_group_0(op));
        assert(op_tag(op) == Some(Tag::StrictNotEqual));
    }
    assert(compile_spec(JsonView::Object(es)) == crate::compiled::compile_operator_spec(op, args));
}

#[verifier::spinoff_prover]
#[verifier::rlimit(100)]
proof fn lemma_tags_group_1(op: Seq<char>, args: JsonView)
    requires
        op == "<"@ || op == "<="@ || op == ">"@ || op == ">="@ || op == "+"@ || op == "-"@ || op == "*"@ || op == "/"@,
        compile_spec(JsonView::Object(seq![(op, args)])) is Done,
    ensures
        compile_spec(JsonView::Object(seq![(op, args)]))->Done_0 is Op,
        compile_spec(JsonView::Object(seq![(op, args)]))->Done_0->Op_0 == op_tag(op)->Some_0,
{
    reveal_strlit("!");
    reveal_strlit("!=");
    reveal_strlit("!==");
    reveal_strlit("$ref");
    reveal_strlit("%");
    reveal_strlit("*");
    reveal_strlit("**");
    reveal_strlit("+");
    reveal_strlit("-");
    reveal_strlit("/");
    reveal_strlit("<");
    reveal_strlit("<=");
    reveal_strlit("==");
    reveal_strlit("===");
    reveal_strlit(">");
    reveal_strlit(">=");
    reveal_strlit("CHOOSE");
    reveal_strlit("CONCAT");
    reveal_strlit("DATE");
    reveal_strlit("DATEDIF");
    reveal_strlit("DAY");
    reveal_strlit("DAYS");
    reveal_strlit("DIVIDES");
    reveal_strlit("EMPTY");
    reveal_strlit("FINDINDEX");
    reveal_strlit("FOR");
    reveal_strlit("IFNULL");
    reveal_strlit("INDEXAT");
    reveal_strlit("ISEMPTY");
    reveal_strlit("LEFT");
    reveal_strlit("LEN");
    reveal_strlit("MAPOPTIONS");
    reveal_strlit("MAPOPTIONSIF");
    reveal_strlit("MATCH");
    reveal_strlit("MATCHRANGE");
    reveal_strlit("MAXAT");
    reveal_strlit("MID");
    reveal_strlit("MONTH");
    reveal_strlit("MULTIPLIES");
    reveal_strlit("NOW");
    reveal_strlit("RANGEOPTIONS");
    reveal_strlit("RIGHT");
    reveal_strlit("ROUND");
    reveal_strlit("ROUNDDOWN");
    reveal_strlit("ROUNDUP");
    reveal_strlit("SEARCH");
    reveal_strlit("SPLITTEXT");
    reveal_strlit("SPLITVALUE");
    reveal_strlit("SUM");
    reveal_strlit("TODAY");
    reveal_strlit("VALUEAT");
    reveal_strlit("YEAR");
    reveal_strlit("YEARFRAC");
    reveal_strlit("^");
    reveal_strlit("abs");
    reveal_strlit("all");
    reveal_strlit("and");
    reveal_strlit("cat");
    reveal_strlit("concat");
    reveal_strlit("date");
    reveal_strlit("day");
    reveal_strlit("days");
    reveal_strlit("empty");
    reveal_strlit("filter");
    reveal_strlit("if");
    reveal_strlit("ifnull");
    reveal_strlit("in");
    reveal_strlit("isempty");
    reveal_strlit("left");
    reveal_strlit("len");
    reveal_strlit("length");
    reveal_strlit("map");
    reveal_strlit("max");
    reveal_strlit("merge");
    reveal_strlit("mid");
    reveal_strlit("min");
    reveal_strlit("missing");
    reveal_strlit("missing_some");
    reveal_strlit("month");
    reveal_strlit("none");
    reveal_strlit("not");
    reveal_strlit("now");
    reveal_strlit("or");
    reveal_strlit("pow");
    reveal_strlit("reduce");
    reveal_strlit("ref");
    reveal_strlit("return");
    reveal_strlit("right");
    reveal_strlit("round");
    reveal_strlit("rounddown");
    reveal_strlit("roundup");
    reveal_strlit("search");
    reveal_strlit("some");
    reveal_strlit("splittext");
    reveal_strlit("splitvalue");
    reveal_strlit("substr");
    reveal_strlit("sum");
    reveal_strlit("today");
    reveal_strlit("var");
    reveal_strlit("xor");
    reveal_strlit("year");
    let es = seq![(op, args)];
    assert(es[0] == (op, args));
    if op == "<"@ {
        assert(op.len() == 1);
        assert(op[0] == '<');
        assert(op != "var"@ && op != "$ref"@ && op != "ref"@);
        assert(!crate::compiled::op_group_0(op));
        assert(crate::compiled::op_group_1(op));
        assert(op_tag(op) == Some(Tag::LessThan));
    }
    if op == "<="@ {
        assert(op.len() == 2);
        assert(op[0] == '<');
        assert(op[1] == '=');
        assert(op != "var"@ && op != "$ref"@ && op != "ref"@);
        assert(!crate::compiled::op_group_0(op));
        assert(crate::compiled::op_group_1(op));
        assert(op_tag(op) == Some(Tag::LessThanOrEqual));
    }
    if op == ">"@ {
        assert(op.len() == 1);
        assert(op[0] == '>');
        assert(op != "var"@ && op != "$ref"@ && op != "ref"@);
        assert(!crate::compiled::op_group_0(op));
        assert(crate::compiled::op_group_1(op));
        assert(op_tag(op) == Some(Tag::GreaterThan));
    }
    if op == ">="@ {
        assert(op.len() == 2);
        assert(op[0] == '>');
        assert(op[1] == '=');
        assert(op != "var"@ && op != "$ref"@ && op != "ref"@);
        assert(!crate::compiled::op_group_0(op));
        assert(crate::compiled::op_group_1(op));
        assert(op_tag(op) == Some(Tag::GreaterThanOrEqual));
    }
    if op == "+"@ {
        assert(op.len() == 1);
        assert(op[0] == '+');
        assert(op != "var"@ && op != "$ref"@ && op != "ref"@);
        assert(!crate::compiled::op_group_0(op));
        assert(crate::compiled::op_group_1(op));
        assert(op_tag(op) == Some(Tag::Add));
    }
    if op == "-"@ {
        assert(op.len() == 1);
        assert(op[0] == '-');
        assert(op != "var"@ && op != "$ref"@ && op != "ref"@);
        assert(!crate::compiled::op_group_0(op));
        assert(crate::compiled::op_group_1(op));
        assert(op_tag(op) == Some(Tag::Subtract));
    }
    if op == "*"@ {
        assert(op.len() == 1);
        assert(op[0] == '*');
        assert(op != "var"@ && op != "$ref"@ && op != "ref"@);
        assert(!crate::compiled::op_group_0(op));
        assert(crate::compiled::op_group_1(op));
        assert(op_tag(op) == Some(Tag::Multiply));
    }
    if op == "/"@ {
        assert(op.len() == 1);
        assert(op[0] == '/');
        assert(op != "var"@ && op != "$ref"@ && op != "ref"@);
        assert(!crate::compiled::op_group_0(op));
        assert(crate::compiled::op_group_1(op));
        assert(op_tag(op) == Some(Tag::Divide));
    }
    assert(compile_spec(JsonView::Object(es)) == crate::compiled::compile_operator_spec(op, args));
}

#[verifier::spinoff_prover]
#[verifier::rlimit(100)]
proof fn lemma_tags_group_2(op: Seq<char>, args: JsonView)
    requires
        op == "%"@ || op == "^"@ || op == "map"@ || op == "filter"@ || op == "reduce"@ || op == "all"@ || op == "some"@ || op == "none"@,
        compile_spec(JsonView::Object(seq![(op, args)])) is Done,
    ensures
        compile_spec(JsonView::Object(seq![(op, args)]))->Done_0 is Op,
        compile_spec(JsonView::Object(seq![(op, args)]))->Done_0->Op_0 == op_tag(op)->Some_0,
{
    reveal_strlit("!");
    reveal_strlit("!=");
    reveal_strlit("!==");
    reveal_strlit("$ref");
    reveal_strlit("%");
    reveal_strlit("*");
    reveal_strlit("**");
    reveal_strlit("+");
    reveal_strlit("-");
    reveal_strlit("/");
    reveal_strlit("<");
    reveal_strlit("<=");
    reveal_strlit("==");
    reveal_strlit("===");
    reveal_strlit(">");
    reveal_strlit(">=");
    reveal_strlit("CHOOSE");
    reveal_strlit("CONCAT");
    reveal_strlit("DATE");
    reveal_strlit("DATEDIF");
    reveal_strlit("DAY");
    reveal_strlit("DAYS");
    reveal_strlit("DIVIDES");
    reveal_strlit("EMPTY");
    reveal_strlit("FINDINDEX");
    reveal_strlit("FOR");
    reveal_strlit("IFNULL");
    reveal_strlit("INDEXAT");
    reveal_strlit("ISEMPTY");
    reveal_strlit("LEFT");
    reveal_strlit("LEN");
    reveal_strlit("MAPOPTIONS");
    reveal_strlit("MAPOPTIONSIF");
    reveal_strlit("MATCH");
    reveal_strlit("MATCHRANGE");
    reveal_strlit("MAXAT");
    reveal_strlit("MID");
    reveal_strlit("MONTH");
    reveal_strlit("MULTIPLIES");
    reveal_strlit("NOW");
    reveal_strlit("RANGEOPTIONS");
    reveal_strlit("RIGHT");
    reveal_strlit("ROUND");
    reveal_strlit("ROUNDDOWN");
    reveal_strlit("ROUNDUP");
    reveal_strlit("SEARCH");
    reveal_strlit("SPLITTEXT");
    reveal_strlit("SPLITVALUE");
    reveal_strlit("SUM");
    reveal_strlit("TODAY");
    reveal_strlit("VALUEAT");
    reveal_strlit("YEAR");
    reveal_strlit("YEARFRAC");
    reveal_strlit("^");
    reveal_strlit("abs");
    reveal_strlit("all");
    reveal_strlit("and");
    reveal_strlit("cat");
    reveal_strlit("concat");
    reveal_strlit("date");
    reveal_strlit("day");
    reveal_strlit("days");
    reveal_strlit("empty");
    reveal_strlit("filter");
    reveal_strlit("if");
    reveal_strlit("ifnull");
    reveal_strlit("in");
    reveal_strlit("isempty");
    reveal_strlit("left");
    reveal_strlit("len");
    reveal_strlit("length");
    reveal_strlit("map");
    reveal_strlit("max");
    reveal_strlit("merge");
    reveal_strlit("mid");
    reveal_strlit("min");
    reveal_strlit("missing");
    reveal_strlit("missing_some");
    reveal_strlit("month");
    reveal_strlit("none");
    reveal_strlit("not");
    reveal_strlit("now");
    reveal_strlit("or");
    reveal_strlit("pow");
    reveal_strlit("reduce");
    reveal_strlit("ref");
    reveal_strlit("return");
    reveal_strlit("right");
    reveal_strlit("round");
    reveal_strlit("rounddown");
    reveal_strlit("roundup");
    reveal_strlit("search");
    reveal_strlit("some");
    reveal_strlit("splittext");
    reveal_strlit("splitvalue");
    reveal_strlit("substr");
    reveal_strlit("sum");
    reveal_strlit("today");
    reveal_strlit("var");
    reveal_strlit("xor");
    reveal_strlit("year");
    let es = seq![(op, args)];
    assert(es[0] == (op, args));
    if op == "%"@ {
        assert(op.len() == 1);
        assert(op[0] == '%');
        assert(op != "var"@ && op != "$ref"@ && op != "ref"@);
        assert(!crate::compiled::op_group_0(op));
        assert(!crate::compiled::op_group_1(op));
        assert(crate::compiled::op_group_2(op));
        assert(op_tag(op) == Some(Tag::Modulo));
    }
    if op == "^"@ {
        assert(op.len() == 1);
        assert(op[0] == '^');
        assert(op != "var"@ && op != "$ref"@ && op != "ref"@);
        assert(!crate::compiled::op_group_0(op));
        assert(!crate::compiled::op_group_1(op));
        assert(crate::compiled::op_group_2(op));
        assert(op_tag(op) == Some(Tag::Power));
    }
    if op == "map"@ {
        assert(op.len() == 3);
        assert(op[0] == 'm');
        assert(op[1] == 'a');
        assert(op[2] == 'p');
        assert(op != "var"@ && op != "$ref"@ && op != "ref"@);
        assert(!crate::compiled::op_group_0(op));
        assert(!crate::compiled::op_group_1(op));
        assert(crate::compiled::op_group_2(op));
        assert(op_tag(op) == Some(Tag::MapEach));
    }
    if op == "filter"@ {
        assert(op.len() == 6);
        assert(op[0] == 'f');
        assert(op[1] == 'i');
        assert(op[2] == 'l');
        assert(op[3] == 't');
        assert(op[4] == 'e');
        assert(op[5] == 'r');
        assert(op != "var"@ && op != "$ref"@ && op != "ref"@);
        assert(!crate::compiled::op_group_0(op));
        assert(!crate::compiled::op_group_1(op));
        assert(crate::compiled::op_group_2(op));
        assert(op_tag(op) == Some(Tag::Filter));
    }
    if op == "reduce"@ {
        assert(op.len() == 6);
        assert(op[0] == 'r');
        assert(op[1] == 'e');
        assert(op[2] == 'd');
        assert(op[3] == 'u');
        assert(op[4] == 'c');
        assert(op[5] == 'e');
        assert(op != "var"@ && op != "$ref"@ && op != "ref"@);
        assert(!crate::compiled::op_group_0(op));
        assert(!crate::compiled::op_group_1(op));
        assert(crate::compiled::op_group_2(op));
        assert(op_tag(op) == Some(Tag::Reduce));
    }
    if op == "all"@ {
        assert(op.len() == 3);
        assert(op[0] == 'a');
        assert(op[1] == 'l');
        assert(op[2] == 'l');
        assert(op != "var"@ && op != "$ref"@ && op != "ref"@);
        assert(!crate::compiled::op_group_0(op));
        assert(!crate::compiled::op_group_1(op));
        assert(crate::compiled::op_group_2(op));
        assert(op_tag(op) == Some(Tag::All));
    }
    if op == "some"@ {
        assert(op.len() == 4);
        assert(op[0] == 's');
        assert(op[1] == 'o');
        assert(op[2] == 'm');
        assert(op[3] == 'e');
        assert(op != "var"@ && op != "$ref"@ && op != "ref"@);
        assert(!crate::compiled::op_group_0(op));
        assert(!crate::compiled::op_group_1(op));
        assert(crate::compiled::op_group_2(op));
        assert(op_tag(op) == Some(Tag::SomeOf));
    }
    if op == "none"@ {
        assert(op.len() == 4);
        assert(op[0] == 'n');
        assert(op[1] == 'o');
        assert(op[2] == 'n');
        assert(op[3] == 'e');
        assert(op != "var"@ && op != "$ref"@ && op != "ref"@);
        assert(!crate::compiled::op_group_0(op));
        assert(!crate::compiled::op_group_1(op));
        assert(crate::compiled::op_group_2(op));
        assert(op_tag(op) == Some(Tag::NoneOf));
    }
    assert(compile_spec(JsonView::Object(es)) == crate::compiled::compile_operator_spec(op, args));
}

#[verifier::spinoff_prover]
#[verifier::rlimit(100)]
proof fn lemma_tags_group_3(op: Seq<char>, args: JsonView)
    requires
        op == "merge"@ || op == "in"@ || op == "cat"@ || op == "substr"@ || op == "abs"@ || op == "max"@,
        compile_spec(JsonView::Object(seq![(op, args)])) is Done,
    ensures
        compile_spec(JsonView::Object(seq![(op, args)]))->Done_0 is Op,
        compile_spec(JsonView::Object(seq![(op, args)]))->Done_0->Op_0 == op_tag(op)->Some_0,
{
    reveal_strlit("!");
    reveal_strlit("!=");
    reveal_strlit("!==");
    reveal_strlit("$ref");
    reveal_strlit("%");
    reveal_strlit("*");
    reveal_strlit("**");
    reveal_strlit("+");
    reveal_strlit("-");
    reveal_strlit("/");
    reveal_strlit("<");
    reveal_strlit("<=");
    reveal_strlit("==");
    reveal_strlit("===");
    reveal_strlit(">");
    reveal_strlit(">=");
    reveal_strlit("CHOOSE");
    reveal_strlit("CONCAT");
    reveal_strlit("DATE");
    reveal_strlit("DATEDIF");
    reveal_strlit("DAY");
    reveal_strlit("DAYS");
    reveal_strlit("DIVIDES");
    reveal_strlit("EMPTY");
    reveal_strlit("FINDINDEX");
    reveal_strlit("FOR");
    reveal_strlit("IFNULL");
    reveal_strlit("INDEXAT");
    reveal_strlit("ISEMPTY");
    reveal_strlit("LEFT");
    reveal_strlit("LEN");
    reveal_strlit("MAPOPTIONS");
    reveal_strlit("MAPOPTIONSIF");
    reveal_strlit("MATCH");
    reveal_strlit("MATCHRANGE");
    reveal_strlit("MAXAT");
    reveal_strlit("MID");
    reveal_strlit("MONTH");
    reveal_strlit("MULTIPLIES");
    reveal_strlit("NOW");
    reveal_strlit("RANGEOPTIONS");
    reveal_strlit("RIGHT");
    reveal_strlit("ROUND");
    reveal_strlit("ROUNDDOWN");
    reveal_strlit("ROUNDUP");
    reveal_strlit("SEARCH");
    reveal_strlit("SPLITTEXT");
    reveal_strlit("SPLITVALUE");
    reveal_strlit("SUM");
    reveal_strlit("TODAY");
    reveal_strlit("VALUEAT");
    reveal_strlit("YEAR");
    reveal_strlit("YEARFRAC");
    reveal_strlit("^");
    reveal_strlit("abs");
    reveal_strlit("all");
    reveal_strlit("and");
    reveal_strlit("cat");
    reveal_strlit("concat");
    reveal_strlit("date");
    reveal_strlit("day");
    reveal_strlit("days");
    reveal_strlit("empty");
    reveal_strlit("filter");
    reveal_strlit("if");
    reveal_strlit("ifnull");
    reveal_strlit("in");
    reveal_strlit("isempty");
    reveal_strlit("left");
    reveal_strlit("len");
    reveal_strlit("length");
    reveal_strlit("map");
    reveal_strlit("max");
    reveal_strlit("merge");
    reveal_strlit("mid");
    reveal_strlit("min");
    reveal_strlit("missing");
    reveal_strlit("missing_some");
    reveal_strlit("month");
    reveal_strlit("none");
    reveal_strlit("not");
    reveal_strlit("now");
    reveal_strlit("or");
    reveal_strlit("pow");
    reveal_strlit("reduce");
    reveal_strlit("ref");
    reveal_strlit("return");
    reveal_strlit("right");
    reveal_strlit("round");
    reveal_strlit("rounddown");
    reveal_strlit("roundup");
    reveal_strlit("search");
    reveal_strlit("some");
    reveal_strlit("splittext");
    reveal_strlit("splitvalue");
    reveal_strlit("substr");
    reveal_strlit("sum");
    reveal_strlit("today");
    reveal_strlit("var");
    reveal_strlit("xor");
    reveal_strlit("year");
    let es = seq![(op, args)];
    assert(es[0] == (op, args));
    if op == "merge"@ {
        assert(op.len() == 5);
        assert(op[0] == 'm');
        assert(op[1] == 'e');
        assert(op[2] == 'r');
        assert(op[3] == 'g');
        assert(op[4] == 'e');
        assert(op != "var"@ && op != "$ref"@ && op != "ref"@);
        assert(!crate::compiled::op_group_0(op));
        assert(!crate::compiled::op_group_1(op));
        assert(!crate::compiled::op_group_2(op));
        assert(crate::compiled::op_group_3(op));
        assert(op_tag(op) == Some(Tag::Merge));
    }
    if op == "in"@ {
        assert(op.len() == 2);
        assert(op[0] == 'i');
        assert(op[1] == 'n');
        assert(op != "var"@ && op != "$ref"@ && op != "ref"@);
        assert(!crate::compiled::op_group_0(op));
        assert(!crate::compiled::op_group_1(op));
        assert(!crate::compiled::op_group_2(op));
        assert(crate::compiled::op_group_3(op));
        assert(op_tag(op) == Some(Tag::In));
    }
    if op == "cat"@ {
        assert(op.len() == 3);
        assert(op[0] == 'c');
        assert(op[1] == 'a');
        assert(op[2] == 't');
        assert(op != "var"@ && op != "$ref"@ && op != "ref"@);
        assert(!crate::compiled::op_group_0(op));
        assert(!crate::compiled::op_group_1(op));
        assert(!crate::compiled::op_group_2(op));
        assert(crate::compiled::op_group_3(op));
        assert(op_tag(op) == Some(Tag::Cat));
    }
    if op == "substr"@ {
        assert(op.len() == 6);
        assert(op[0] == 's');
        assert(op[1] == 'u');
        assert(op[2] == 'b');
        assert(op[3] == 's');
        assert(op[4] == 't');
        assert(op[5] == 'r');
        assert(op != "var"@ && op != "$ref"@ && op != "ref"@);
        assert(!crate::compiled::op_group_0(op));
        assert(!crate::compiled::op_group_1(op));
        assert(!crate::compiled::op_group_2(op));
        assert(crate::compiled::op_group_3(op));
        assert(op_tag(op) == Some(Tag::Substr));
    }
    if op == "abs"@ {
        assert(op.len() == 3);
        assert(op[0] == 'a');
        assert(op[1] == 'b');
        assert(op[2] == 's');
        assert(op != "var"@ && op != "$ref"@ && op != "ref"@);
        assert(!crate::compiled::op_group_0(op));
        assert(!crate::compiled::op_group_1(op));
        assert(!crate::compiled::op_group_2(op));
        assert(crate::compiled::op_group_3(op));
        assert(op_tag(op) == Some(Tag::Abs));
    }
    if op == "max"@ {
        assert(op.len() == 3);
        assert(op[0] == 'm');
        assert(op[1] == 'a');
        assert(op[2] == 'x');
        assert(op != "var"@ && op != "$ref"@ && op != "ref"@);
        assert(!crate::compiled::op_group_0(op));
        assert(!crate::compiled::op_group_1(op));
        assert(!crate::compiled::op_group_2(op));
        assert(crate::compiled::op_group_3(op));
        assert(op_tag(op) == Some(Tag::Max));
    }
    assert(compile_spec(JsonView::Object(es)) == crate::compiled::compile_operator_spec(op, args));
}

#[verifier::spinoff_prover]
#[verifier::rlimit(100)]
proof fn lemma_tags_group_4(op: Seq<char>, args: JsonView)
    requires
        op == "min"@ || op == "pow"@ || op == "**"@ || op == "round"@ || op == "ROUND"@ || op == "roundup"@ || op == "ROUNDUP"@ || op == "rounddown"@ || op == "ROUNDDOWN"@ || op == "length"@ || op == "len"@ || op == "LEN"@ || op == "search"@ || op == "SEARCH"@,
        compile_spec(JsonView::Object(seq![(op, args)])) is Done,
    ensures
        compile_spec(JsonView::Object(seq![(op, args)]))->Done_0 is Op,
        compile_spec(JsonView::Object(seq![(op, args)]))->Done_0->Op_0 == op_tag(op)->Some_0,
{
    reveal_strlit("!");
    reveal_strlit("!=");
    reveal_strlit("!==");
    reveal_strlit("$ref");
    reveal_strlit("%");
    reveal_strlit("*");
    reveal_strlit("**");
    reveal_strlit("+");
    reveal_strlit("-");
    reveal_strlit("/");
    reveal_strlit("<");
    reveal_strlit("<=");
    reveal_strlit("==");
    reveal_strlit("===");
    reveal_strlit(">");
    reveal_strlit(">=");
    reveal_strlit("CHOOSE");
    reveal_strlit("CONCAT");
    reveal_strlit("DATE");
    reveal_strlit("DATEDIF");
    reveal_strlit("DAY");
    reveal_strlit("DAYS");
    reveal_strlit("DIVIDES");
    reveal_strlit("EMPTY");
    reveal_strlit("FINDINDEX");
    reveal_strlit("FOR");
    reveal_strlit("IFNULL");
    reveal_strlit("INDEXAT");
    reveal_strlit("ISEMPTY");
    reveal_strlit("LEFT");
    reveal_strlit("LEN");
    reveal_strlit("MAPOPTIONS");
    reveal_strlit("MAPOPTIONSIF");
    reveal_strlit("MATCH");
    reveal_strlit("MATCHRANGE");
    reveal_strlit("MAXAT");
    reveal_strlit("MID");
    reveal_strlit("MONTH");
    reveal_strlit("MULTIPLIES");
    reveal_strlit("NOW");
    reveal_strlit("RANGEOPTIONS");
    reveal_strlit("RIGHT");
    reveal_strlit("ROUND");
    reveal_strlit("ROUNDDOWN");
    reveal_strlit("ROUNDUP");
    reveal_strlit("SEARCH");
    reveal_strlit("SPLITTEXT");
    reveal_strlit("SPLITVALUE");
    reveal_strlit("SUM");
    reveal_strlit("TODAY");
    reveal_strlit("VALUEAT");
    reveal_strlit("YEAR");
    reveal_strlit("YEARFRAC");
    reveal_strlit("^");
    reveal_strlit("abs");
    reveal_strlit("all");
    reveal_strlit("and");
    reveal_strlit("cat");
    reveal_strlit("concat");
    reveal_strlit("date");
    reveal_strlit("day");
    reveal_strlit("days");
    reveal_strlit("empty");
    reveal_strlit("filter");
    reveal_strlit("if");
    reveal_strlit("ifnull");
    reveal_strlit("in");
    reveal_strlit("isempty");
    reveal_strlit("left");
    reveal_strlit("len");
    reveal_strlit("length");
    reveal_strlit("map");
    reveal_strlit("max");
    reveal_strlit("merge");
    reveal_strlit("mid");
    reveal_strlit("min");
    reveal_strlit("missing");
    reveal_strlit("missing_some");
    reveal_strlit("month");
    reveal_strlit("none");
    reveal_strlit("not");
    reveal_strlit("now");
    reveal_strlit("or");
    reveal_strlit("pow");
    reveal_strlit("reduce");
    reveal_strlit("ref");
    reveal_strlit("return");
    reveal_strlit("right");
    reveal_strlit("round");
    reveal_strlit("rounddown");
    reveal_strlit("roundup");
    reveal_strlit("search");
    reveal_strlit("some");
    reveal_strlit("splittext");
    reveal_strlit("splitvalue");
    reveal_strlit("substr");
    reveal_strlit("sum");
    reveal_strlit("today");
    reveal_strlit("var");
    reveal_strlit("xor");
    reveal_strlit("year");
    let es = seq![(op, args)];
    assert(es[0] == (op, args));
    if op == "min"@ {
        assert(op.len() == 3);
        assert(op[0] == 'm');
        assert(op[1] == 'i');
        assert(op[2] == 'n');
        assert(op != "var"@ && op != "$ref"@ && op != "ref"@);
        assert(!crate::compiled::op_group_0(op));
        assert(!crate::compiled::op_group_1(op));
        assert(!crate::compiled::op_group_2(op));
        assert(!crate::compiled::op_group_3(op));
        assert(crate::compiled::op_group_4(op));
        assert(op_tag(op) == Some(Tag::Min));
    }
    if op == "pow"@ {
        assert(op.len() == 3);
        assert(op[0] == 'p');
        assert(op[1] == 'o');
        assert(op[2] == 'w');
        assert(op != "var"@ && op != "$ref"@ && op != "ref"@);
        assert(!crate::compiled::op_group_0(op));
        assert(!crate::compiled::op_group_1(op));
        assert(!crate::compiled::op_group_2(op));
        assert(!crate::compiled::op_group_3(op));
        assert(crate::compiled::op_group_4(op));
        assert(op_tag(op) == Some(Tag::Pow));
    }
    if op == "**"@ {
        assert(op.len() == 2);
        assert(op[0] == '*');
        assert(op[1] == '*');
        assert(op != "var"@ && op != "$ref"@ && op != "ref"@);
        assert(!crate::compiled::op_group_0(op));
        assert(!crate::compiled::op_group_1(op));
        assert(!crate::compiled::op_group_2(op));
        assert(!crate::compiled::op_group_3(op));
        assert(crate::compiled::op_group_4(op));
        assert(op_tag(op) == Some(Tag::Pow));
    }
    if op == "round"@ {
        assert(op.len() == 5);
        assert(op[0] == 'r');
        assert(op[1] == 'o');
        assert(op[2] == 'u');
        assert(op[3] == 'n');
        assert(op[4] == 'd');
        assert(op != "var"@ && op != "$ref"@ && op != "ref"@);
        assert(!crate::compiled::op_group_0(op));
        assert(!crate::compiled::op_group_1(op));
        assert(!crate::compiled::op_group_2(op));
        assert(!crate::compiled::op_group_3(op));
        assert(crate::compiled::op_group_4(op));
        assert(op_tag(op) == Some(Tag::Round));
    }
    if op == "ROUND"@ {
        assert(op.len() == 5);
        assert(op[0] == 'R');
        assert(op[1] == 'O');
        assert(op[2] == 'U');
        assert(op[3] == 'N');
        assert(op[4] == 'D');
        assert(op != "var"@ && op != "$ref"@ && op != "ref"@);
        assert(!crate::compiled::op_group_0(op));
        assert(!crate::compiled::op_group_1(op));
        assert(!crate::compiled::op_group_2(op));
        assert(!crate::compiled::op_group_3(op));
        assert(crate::compiled::op_group_4(op));
        assert(op_tag(op) == Some(Tag::Round));
    }
    if op == "roundup"@ {
        assert(op.len() == 7);
        assert(op[0] == 'r');
        assert(op[1] == 'o');
        assert(op[2] == 'u');
        assert(op[3] == 'n');
        assert(op[4] == 'd');
        assert(op[5] == 'u');
        assert(op[6] == 'p');
        assert(op != "var"@ && op != "$ref"@ && op != "ref"@);
        assert(!crate::compiled::op_group_0(op));
        assert(!crate::compiled::op_group_1(op));
        assert(!crate::compiled::op_group_2(op));
        assert(!crate::compiled::op_group_3(op));
        assert(crate::compiled::op_group_4(op));
        assert(op_tag(op) == Some(Tag::RoundUp));
    }
    if op == "ROUNDUP"@ {
        assert(op.len() == 7);
        assert(op[0] == 'R');
        assert(op[1] == 'O');
        assert(op[2] == 'U');
        assert(op[3] == 'N');
        assert(op[4] == 'D');
        assert(op[5] == 'U');
        assert(op[6] == 'P');
        assert(op != "var"@ && op != "$ref"@ && op != "ref"@);
        assert(!crate::compiled::op_group_0(op));
        assert(!crate::compiled::op_group_1(op));
        assert(!crate::compiled::op_group_2(op));
        assert(!crate::compiled::op_group_3(op));
        assert(crate::compiled::op_group_4(op));
        assert(op_tag(op) == Some(Tag::RoundUp));
    }
    if op == "rounddown"@ {
        assert(op.len() == 9);
        assert(op[0] == 'r');
        assert(op[1] == 'o');
        assert(op[2] == 'u');
        assert(op[3] == 'n');
        assert(op[4] == 'd');
        assert(op[5] == 'd');
        assert(op[6] == 'o');
        assert(op[7] == 'w');
        assert(op[8] == 'n');
        assert(op != "var"@ && op != "$ref"@ && op != "ref"@);
        assert(!crate::compiled::op_group_0(op));
        assert(!crate::compiled::op_group_1(op));
        assert(!crate::compiled::op_group_2(op));
        assert(!crate::compiled::op_group_3(op));
        assert(crate::compiled::op_group_4(op));
        assert(op_tag(op) == Some(Tag::RoundDown));
    }
    if op == "ROUNDDOWN"@ {
        assert(op.len() == 9);
        assert(op[0] == 'R');
        assert(op[1] == 'O');
        assert(op[2] == 'U');
        assert(op[3] == 'N');
        assert(op[4] == 'D');
        assert(op[5] == 'D');
        assert(op[6] == 'O');
        assert(op[7] == 'W');
        assert(op[8] == 'N');
        assert(op != "var"@ && op != "$ref"@ && op != "ref"@);
        assert(!crate::compiled::op_group_0(op));
        assert(!crate::compiled::op_group_1(op));
        assert(!crate::compiled::op_group_2(op));
        assert(!crate::compiled::op_group_3(op));
        assert(crate::compiled::op_group_4(op));
        assert(op_tag(op) == Some(Tag::RoundDown));
    }
    if op == "length"@ {
        assert(op.len() == 6);
        assert(op[0] == 'l');
        assert(op[1] == 'e');
        assert(op[2] == 'n');
        assert(op[3] == 'g');
        assert(op[4] == 't');
        assert(op[5] == 'h');
        assert(op != "var"@ && op != "$ref"@ && op != "ref"@);
        assert(!crate::compiled::op_group_0(op));
        assert(!crate::compiled::op_group_1(op));
        assert(!crate::compiled::op_group_2(op));
        assert(!crate::compiled::op_group_3(op));
        assert(crate::compiled::op_group_4(op));
        assert(op_tag(op) == Some(Tag::Length));
    }
    if op == "len"@ {
        assert(op.len() == 3);
        assert(op[0] == 'l');
        assert(op[1] == 'e');
        assert(op[2] == 'n');
        assert(op != "var"@ && op != "$ref"@ && op != "ref"@);
        assert(!crate::compiled::op_group_0(op));
        assert(!crate::compiled::op_group_1(op));
        assert(!crate::compiled::op_group_2(op));
        assert(!crate::compiled::op_group_3(op));
        assert(crate::compiled::op_group_4(op));
        assert(op_tag(op) == Some(Tag::Len));
    }
    if op == "LEN"@ {
        assert(op.len() == 3);
        assert(op[0] == 'L');
        assert(op[1] == 'E');
        assert(op[2] == 'N');
        assert(op != "var"@ && op != "$ref"@ && op != "ref"@);
        assert(!crate::compiled::op_group_0(op));
        assert(!crate::compiled::op_group_1(op));
        assert(!crate::compiled::op_group_2(op));
        assert(!crate::compiled::op_group_3(op));
        assert(crate::compiled::op_group_4(op));
        assert(op_tag(op) == Some(Tag::Len));
    }
    if op == "search"@ {
        assert(op.len() == 6);
        assert(op[0] == 's');
        assert(op[1] == 'e');
        assert(op[2] == 'a');
        assert(op[3] == 'r');
        assert(op[4] == 'c');
        assert(op[5] == 'h');
        assert(op != "var"@ && op != "$ref"@ && op != "ref"@);
        assert(!crate::compiled::op_group_0(op));
        assert(!crate::compiled::op_group_1(op));
        assert(!crate::compiled::op_group_2(op));
        assert(!crate::compiled::op_group_3(op));
        assert(crate::compiled::op_group_4(op));
        assert(op_tag(op) == Some(Tag::Search));
    }
    if op == "SEARCH"@ {
        assert(op.len() == 6);
        assert(op[0] == 'S');
        assert(op[1] == 'E');
        assert(op[2] == 'A');
        assert(op[3] == 'R');
        assert(op[4] == 'C');
        assert(op[5] == 'H');
        assert(op != "var"@ && op != "$ref"@ && op != "ref"@);
        assert(!crate::compiled::op_group_0(op));
        assert(!crate::compiled::op_group_1(op));
        assert(!crate::compiled::op_group_2(op));
        assert(!crate::compiled::op_group_3(op));
        assert(crate::compiled::op_group_4(op));
        assert(op_tag(op) == Some(Tag::Search));
    }
    assert(compile_spec(JsonView::Object(es)) == crate::compiled::compile_operator_spec(op, args));
}

#[verifier::spinoff_prover]
#[verifier::rlimit(100)]
proof fn lemma_tags_group_5(op: Seq<char>, args: JsonView)
    requires
        op == "left"@ || op == "LEFT"@ || op == "right"@ || op == "RIGHT"@ || op == "mid"@ || op == "MID"@ || op == "splittext"@ || op == "SPLITTEXT"@ || op == "concat"@ || op == "CONCAT"@ || op == "splitvalue"@ || op == "SPLITVALUE"@ || op == "xor"@ || op == "ifnull"@ || op == "IFNULL"@,
        compile_spec(JsonView::Object(seq![(op, args)])) is Done,
    ensures
        compile_spec(JsonView::Object(seq![(op, args)]))->Done_0 is Op,
        compile_spec(JsonView::Object(seq![(op, args)]))->Done_0->Op_0 == op_tag(op)->Some_0,
{
    reveal_strlit("!");
    reveal_strlit("!=");
    reveal_strlit("!==");
    reveal_strlit("$ref");
    reveal_strlit("%");
    reveal_strlit("*");
    reveal_strlit("**");
    reveal_strlit("+");
    reveal_strlit("-");
    reveal_strlit("/");
    reveal_strlit("<");
    reveal_strlit("<=");
    reveal_strlit("==");
    reveal_strlit("===");
    reveal_strlit(">");
    reveal_strlit(">=");
    reveal_strlit("CHOOSE");
    reveal_strlit("CONCAT");
    reveal_strlit("DATE");
    reveal_strlit("DATEDIF");
    reveal_strlit("DAY");
    reveal_strlit("DAYS");
    reveal_strlit("DIVIDES");
    reveal_strlit("EMPTY");
    reveal_strlit("FINDINDEX");
    reveal_strlit("FOR");
    reveal_strlit("IFNULL");
    reveal_strlit("INDEXAT");
    reveal_strlit("ISEMPTY");
    reveal_strlit("LEFT");
    reveal_strlit("LEN");
    reveal_strlit("MAPOPTIONS");
    reveal_strlit("MAPOPTIONSIF");
    reveal_strlit("MATCH");
    reveal_strlit("MATCHRANGE");
    reveal_strlit("MAXAT");
    reveal_strlit("MID");
    reveal_strlit("MONTH");
    reveal_strlit("MULTIPLIES");
    reveal_strlit("NOW");
    reveal_strlit("RANGEOPTIONS");
    reveal_strlit("RIGHT");
    reveal_strlit("ROUND");
    reveal_strlit("ROUNDDOWN");
    reveal_strlit("ROUNDUP");
    reveal_strlit("SEARCH");
    reveal_strlit("SPLITTEXT");
    reveal_strlit("SPLITVALUE");
    reveal_strlit("SUM");
    reveal_strlit("TODAY");
    reveal_strlit("VALUEAT");
    reveal_strlit("YEAR");
    reveal_strlit("YEARFRAC");
    reveal_strlit("^");
    reveal_strlit("abs");
    reveal_strlit("all");
    reveal_strlit("and");
    reveal_strlit("cat");
    reveal_strlit("concat");
    reveal_strlit("date");
    reveal_strlit("day");
    reveal_strlit("days");
    reveal_strlit("empty");
    reveal_strlit("filter");
    reveal_strlit("if");
    reveal_strlit("ifnull");
    reveal_strlit("in");
    reveal_strlit("isempty");
    reveal_strlit("left");
    reveal_strlit("len");
    reveal_strlit("length");
    reveal_strlit("map");
    reveal_strlit("max");
    reveal_strlit("merge");
    reveal_strlit("mid");
    reveal_strlit("min");
    reveal_strlit("missing");
    reveal_strlit("missing_some");
    reveal_strlit("month");
    reveal_strlit("none");
    reveal_strlit("not");
    reveal_strlit("now");
    reveal_strlit("or");
    reveal_strlit("pow");
    reveal_strlit("reduce");
    reveal_strlit("ref");
    reveal_strlit("return");
    reveal_strlit("right");
    reveal_strlit("round");
    reveal_strlit("rounddown");
    reveal_strlit("roundup");
    reveal_strlit("search");
    reveal_strlit("some");
    reveal_strlit("splittext");
    reveal_strlit("splitvalue");
    reveal_strlit("substr");
    reveal_strlit("sum");
    reveal_strlit("today");
    reveal_strlit("var");
    reveal_strlit("xor");
    reveal_strlit("year");
    let es = seq![(op, args)];
    assert(es[0] == (op, args));
    if op == "left"@ {
        assert(op.len() == 4);
        assert(op[0] == 'l');
        assert(op[1] == 'e');
        assert(op[2] == 'f');
        assert(op[3] == 't');
        assert(op != "var"@ && op != "$ref"@ && op != "ref"@);
        assert(!crate::compiled::op_group_0(op));
        assert(!crate::compiled::op_group_1(op));
        assert(!crate::compiled::op_group_2(op));
        assert(!crate::compiled::op_group_3(op));
        assert(!crate::compiled::op_group_4(op));
        assert(crate::compiled::op_group_5(op));
        assert(op_tag(op) == Some(Tag::Left));
    }
    if op == "LEFT"@ {
        assert(op.len() == 4);
        assert(op[0] == 'L');
        assert(op[1] == 'E');
        assert(op[2] == 'F');
        assert(op[3] == 'T');
        assert(op != "var"@ && op != "$ref"@ && op != "ref"@);
        assert(!crate::compiled::op_group_0(op));
        assert(!crate::compiled::op_group_1(op));
        assert(!crate::compiled::op_group_2(op));
        assert(!crate::compiled::op_group_3(op));
        assert(!crate::compiled::op_group_4(op));
        assert(crate::compiled::op_group_5(op));
        assert(op_tag(op) == Some(Tag::Left));
    }
    if op == "right"@ {
        assert(op.len() == 5);
        assert(op[0] == 'r');
        assert(op[1] == 'i');
        assert(op[2] == 'g');
        assert(op[3] == 'h');
        assert(op[4] == 't');
        assert(op != "var"@ && op != "$ref"@ && op != "ref"@);
        assert(!crate::compiled::op_group_0(op));
        assert(!crate::compiled::op_group_1(op));
        assert(!crate::compiled::op_group_2(op));
        assert(!crate::compiled::op_group_3(op));
        assert(!crate::compiled::op_group_4(op));
        assert(crate::compiled::op_group_5(op));
        assert(op_tag(op) == Some(Tag::Right));
    }
    if op == "RIGHT"@ {
        assert(op.len() == 5);
        assert(op[0] == 'R');
        assert(op[1] == 'I');
        assert(op[2] == 'G');
        assert(op[3] == 'H');
        assert(op[4] == 'T');
        assert(op != "var"@ && op != "$ref"@ && op != "ref"@);
        assert(!crate::compiled::op_group_0(op));
        assert(!crate::compiled::op_group_1(op));
        assert(!crate::compiled::op_group_2(op));
        assert(!crate::compiled::op_group_3(op));
        assert(!crate::compiled::op_group_4(op));
        assert(crate::compiled::op_group_5(op));
        assert(op_tag(op) == Some(Tag::Right));
    }
    if op == "mid"@ {
        assert(op.len() == 3);
        assert(op[0] == 'm');
        assert(op[1] == 'i');
        assert(op[2] == 'd');
        assert(op != "var"@ && op != "$ref"@ && op != "ref"@);
        assert(!crate::compiled::op_group_0(op));
        assert(!crate::compiled::op_group_1(op));
        assert(!crate::compiled::op_group_2(op));
        assert(!crate::compiled::op_group_3(op));
        assert(!crate::compiled::op_group_4(op));
        assert(crate::compiled::op_group_5(op));
        assert(op_tag(op) == Some(Tag::Mid));
    }
    if op == "MID"@ {
        assert(op.len() == 3);
        assert(op[0] == 'M');
        assert(op[1] == 'I');
        assert(op[2] == 'D');
        assert(op != "var"@ && op != "$ref"@ && op != "ref"@);
        assert(!crate::compiled::op_group_0(op));
        assert(!crate::compiled::op_group_1(op));
        assert(!crate::compiled::op_group_2(op));
        assert(!crate::compiled::op_group_3(op));
        assert(!crate::compiled::op_group_4(op));
        assert(crate::compiled::op_group_5(op));
        assert(op_tag(op) == Some(Tag::Mid));
    }
    if op == "splittext"@ {
        assert(op.len() == 9);
        assert(op[0] == 's');
        assert(op[1] == 'p');
        assert(op[2] == 'l');
        assert(op[3] == 'i');
        assert(op[4] == 't');
        assert(op[5] == 't');
        assert(op[6] == 'e');
        assert(op[7] == 'x');
        assert(op[8] == 't');
        assert(op != "var"@ && op != "$ref"@ && op != "ref"@);
        assert(!crate::compiled::op_group_0(op));
        assert(!crate::compiled::op_group_1(op));
        assert(!crate::compiled::op_group_2(op));
        assert(!crate::compiled::op_group_3(op));
        assert(!crate::compiled::op_group_4(op));
        assert(crate::compiled::op_group_5(op));
        assert(op_tag(op) == Some(Tag::SplitText));
    }
    if op == "SPLITTEXT"@ {
        assert(op.len() == 9);
        assert(op[0] == 'S');
        assert(op[1] == 'P');
        assert(op[2] == 'L');
        assert(op[3] == 'I');
        assert(op[4] == 'T');
        assert(op[5] == 'T');
        assert(op[6] == 'E');
        assert(op[7] == 'X');
        assert(op[8] == 'T');
        assert(op != "var"@ && op != "$ref"@ && op != "ref"@);
        assert(!crate::compiled::op_group_0(op));
        assert(!crate::compiled::op_group_1(op));
        assert(!crate::compiled::op_group_2(op));
        assert(!crate::compiled::op_group_3(op));
        assert(!crate::compiled::op_group_4(op));
        assert(crate::compiled::op_group_5(op));
        assert(op_tag(op) == Some(Tag::SplitText));
    }
    if op == "concat"@ {
        assert(op.len() == 6);
        assert(op[0] == 'c');
        assert(op[1] == 'o');
        assert(op[2] == 'n');
        assert(op[3] == 'c');
        assert(op[4] == 'a');
        assert(op[5] == 't');
        assert(op != "var"@ && op != "$ref"@ && op != "ref"@);
        assert(!crate::compiled::op_group_0(op));
        assert(!crate::compiled::op_group_1(op));
        assert(!crate::compiled::op_group_2(op));
        assert(!crate::compiled::op_group_3(op));
        assert(!crate::compiled::op_group_4(op));
        assert(crate::compiled::op_group_5(op));
        assert(op_tag(op) == Some(Tag::Concat));
    }
    if op == "CONCAT"@ {
        assert(op.len() == 6);
        assert(op[0] == 'C');
        assert(op[1] == 'O');
        assert(op[2] == 'N');
        assert(op[3] == 'C');
        assert(op[4] == 'A');
        assert(op[5] == 'T');
        assert(op != "var"@ && op != "$ref"@ && op != "ref"@);
        assert(!crate::compiled::op_group_0(op));
        assert(!crate::compiled::op_group_1(op));
        assert(!crate::compiled::op_group_2(op));
        assert(!crate::compiled::op_group_3(op));
        assert(!crate::compiled::op_group_4(op));
        assert(crate::compiled::op_group_5(op));
        assert(op_tag(op) == Some(Tag::Concat));
    }
    if op == "splitvalue"@ {
        assert(op.len() == 10);
        assert(op[0] == 's');
        assert(op[1] == 'p');
        assert(op[2] == 'l');
        assert(op[3] == 'i');
        assert(op[4] == 't');
        assert(op[5] == 'v');
        assert(op[6] == 'a');
        assert(op[7] == 'l');
        assert(op[8] == 'u');
        assert(op[9] == 'e');
        assert(op != "var"@ && op != "$ref"@ && op != "ref"@);
        assert(!crate::compiled::op_group_0(op));
        assert(!crate::compiled::op_group_1(op));
        assert(!crate::compiled::op_group_2(op));
        assert(!crate::compiled::op_group_3(op));
        assert(!crate::compiled::op_group_4(op));
        assert(crate::compiled::op_group_5(op));
        assert(op_tag(op) == Some(Tag::SplitValue));
    }
    if op == "SPLITVALUE"@ {
        assert(op.len() == 10);
        assert(op[0] == 'S');
        assert(op[1] == 'P');
        assert(op[2] == 'L');
        assert(op[3] == 'I');
        assert(op[4] == 'T');
        assert(op[5] == 'V');
        assert(op[6] == 'A');
        assert(op[7] == 'L');
        assert(op[8] == 'U');
        assert(op[9] == 'E');
        assert(op != "var"@ && op != "$ref"@ && op != "ref"@);
        assert(!crate::compiled::op_group_0(op));
        assert(!crate::compiled::op_group_1(op));
        assert(!crate::compiled::op_group_2(op));
        assert(!crate::compiled::op_group_3(op));
        assert(!crate::compiled::op_group_4(op));
        assert(crate::compiled::op_group_5(op));
        assert(op_tag(op) == Some(Tag::SplitValue));
    }
    if op == "xor"@ {
        assert(op.len() == 3);
        assert(op[0] == 'x');
        assert(op[1] == 'o');
        assert(op[2] == 'r');
        assert(op != "var"@ && op != "$ref"@ && op != "ref"@);
        assert(!crate::compiled::op_group_0(op));
        assert(!crate::compiled::op_group_1(op));
        assert(!crate::compiled::op_group_2(op));
        assert(!crate::compiled::op_group_3(op));
        assert(!crate::compiled::op_group_4(op));
        assert(crate::compiled::op_group_5(op));
        assert(op_tag(op) == Some(Tag::Xor));
    }
    if op == "ifnull"@ {
        assert(op.len() == 6);
        assert(op[0] == 'i');
        assert(op[1] == 'f');
        assert(op[2] == 'n');
        assert(op[3] == 'u');
        assert(op[4] == 'l');
        assert(op[5] == 'l');
        assert(op != "var"@ && op != "$ref"@ && op != "ref"@);
        assert(!crate::compiled::op_group_0(op));
        assert(!crate::compiled::op_group_1(op));
        assert(!crate::compiled::op_group_2(op));
        assert(!crate::compiled::op_group_3(op));
        assert(!crate::compiled::op_group_4(op));
        assert(crate::compiled::op_group_5(op));
        assert(op_tag(op) == Some(Tag::IfNull));
    }
    if op == "IFNULL"@ {
        assert(op.len() == 6);
        assert(op[0] == 'I');
        assert(op[1] == 'F');
        assert(op[2] == 'N');
        assert(op[3] == 'U');
        assert(op[4] == 'L');
        assert(op[5] == 'L');
        assert(op != "var"@ && op != "$ref"@ && op != "ref"@);
        assert(!crate::compiled::op_group_0(op));
        assert(!crate::compiled::op_group_1(op));
        assert(!crate::compiled::op_group_2(op));
        assert(!crate::compiled::op_group_3(op));
        assert(!crate::compiled::op_group_4(op));
        assert(crate::compiled::op_group_5(op));
        assert(op_tag(op) == Some(Tag::IfNull));
    }
    assert(compile_spec(JsonView::Object(es)) == crate::compiled::compile_operator_spec(op, args));
}

#[verifier::spinoff_prover]
#[verifier::rlimit(100)]
proof fn lemma_tags_group_6(op: Seq<char>, args: JsonView)
    requires
        op == "isempty"@ || op == "ISEMPTY"@ || op == "empty"@ || op == "EMPTY"@ || op == "today"@ || op == "TODAY"@ || op == "now"@ || op == "NOW"@ || op == "days"@ || op == "DAYS"@ || op == "year"@ || op == "YEAR"@ || op == "month"@ || op == "MONTH"@ || op == "day"@ || op == "DAY"@,
        compile_spec(JsonView::Object(seq![(op, args)])) is Done,
    ensures
        compile_spec(JsonView::Object(seq![(op, args)]))->Done_0 is Op,
        compile_spec(JsonView::Object(seq![(op, args)]))->Done_0->Op_0 == op_tag(op)->Some_0,
{
    reveal_strlit("!");
    reveal_strlit("!=");
    reveal_strlit("!==");
    reveal_strlit("$ref");
    reveal_strlit("%");
    reveal_strlit("*");
    reveal_strlit("**");
    reveal_strlit("+");
    reveal_strlit("-");
    reveal_strlit("/");
    reveal_strlit("<");
    reveal_strlit("<=");
    reveal_strlit("==");
    reveal_strlit("===");
    reveal_strlit(">");
    reveal_strlit(">=");
    reveal_strlit("CHOOSE");
    reveal_strlit("CONCAT");
    reveal_strlit("DATE");
    reveal_strlit("DATEDIF");
    reveal_strlit("DAY");
    reveal_strlit("DAYS");
    reveal_strlit("DIVIDES");
    reveal_strlit("EMPTY");
    reveal_strlit("FINDINDEX");
    reveal_strlit("FOR");
    reveal_strlit("IFNULL");
    reveal_strlit("INDEXAT");
    reveal_strlit("ISEMPTY");
    reveal_strlit("LEFT");
    reveal_strlit("LEN");
    reveal_strlit("MAPOPTIONS");
    reveal_strlit("MAPOPTIONSIF");
    reveal_strlit("MATCH");
    reveal_strlit("MATCHRANGE");
    reveal_strlit("MAXAT");
    reveal_strlit("MID");
    reveal_strlit("MONTH");
    reveal_strlit("MULTIPLIES");
    reveal_strlit("NOW");
    reveal_strlit("RANGEOPTIONS");
    reveal_strlit("RIGHT");
    reveal_strlit("ROUND");
    reveal_strlit("ROUNDDOWN");
    reveal_strlit("ROUNDUP");
    reveal_strlit("SEARCH");
    reveal_strlit("SPLITTEXT");
    reveal_strlit("SPLITVALUE");
    reveal_strlit("SUM");
    reveal_strlit("TODAY");
    reveal_strlit("VALUEAT");
    reveal_strlit("YEAR");
    reveal_strlit("YEARFRAC");
    reveal_strlit("^");
    reveal_strlit("abs");
    reveal_strlit("all");
    reveal_strlit("and");
    reveal_strlit("cat");
    reveal_strlit("concat");
    reveal_strlit("date");
    reveal_strlit("day");
    reveal_strlit("days");
    reveal_strlit("empty");
    reveal_strlit("filter");
    reveal_strlit("if");
    reveal_strlit("ifnull");
    reveal_strlit("in");
    reveal_strlit("isempty");
    reveal_strlit("left");
    reveal_strlit("len");
    reveal_strlit("length");
    reveal_strlit("map");
    reveal_strlit("max");
    reveal_strlit("merge");
    reveal_strlit("mid");
    reveal_strlit("min");
    reveal_strlit("missing");
    reveal_strlit("missing_some");
    reveal_strlit("month");
    reveal_strlit("none");
    reveal_strlit("not");
    reveal_strlit("now");
    reveal_strlit("or");
    reveal_strlit("pow");
    reveal_strlit("reduce");
    reveal_strlit("ref");
    reveal_strlit("return");
    reveal_strlit("right");
    reveal_strlit("round");
    reveal_strlit("rounddown");
    reveal_strlit("roundup");
    reveal_strlit("search");
    reveal_strlit("some");
    reveal_strlit("splittext");
    reveal_strlit("splitvalue");
    reveal_strlit("substr");
    reveal_strlit("sum");
    reveal_strlit("today");
    reveal_strlit("var");
    reveal_strlit("xor");
    reveal_strlit("year");
    let es = seq![(op, args)];
    assert(es[0] == (op, args));
    if op == "isempty"@ {
        assert(op.len() == 7);
        assert(op[0] == 'i');
        assert(op[1] == 's');
        assert(op[2] == 'e');
        assert(op[3] == 'm');
        assert(op[4] == 'p');
        assert(op[5] == 't');
        assert(op[6] == 'y');
        assert(op != "var"@ && op != "$ref"@ && op != "ref"@);
        assert(!crate::compiled::op_group_0(op));
        assert(!crate::compiled::op_group_1(op));
        assert(!crate::compiled::op_group_2(op));
        assert(!crate::compiled::op_group_3(op));
        assert(!crate::compiled::op_group_4(op));
        assert(!crate::compiled::op_group_5(op));
        assert(crate::compiled::op_group_6(op));
        assert(op_tag(op) == Some(Tag::IsEmpty));
    }
    if op == "ISEMPTY"@ {
        assert(op.len() == 7);
        assert(op[0] == 'I');
        assert(op[1] == 'S');
        assert(op[2] == 'E');
        assert(op[3] == 'M');
        assert(op[4] == 'P');
        assert(op[5] == 'T');
        assert(op[6] == 'Y');
        assert(op != "var"@ && op != "$ref"@ && op != "ref"@);
        assert(!crate::compiled::op_group_0(op));
        assert(!crate::compiled::op_group_1(op));
        assert(!crate::compiled::op_group_2(op));
        assert(!crate::compiled::op_group_3(op));
        assert(!crate::compiled::op_group_4(op));
        assert(!crate::compiled::op_group_5(op));
        assert(crate::compiled::op_group_6(op));
        assert(op_tag(op) == Some(Tag::IsEmpty));
    }
    if op == "empty"@ {
        assert(op.len() == 5);
        assert(op[0] == 'e');
        assert(op[1] == 'm');
        assert(op[2] == 'p');
        assert(op[3] == 't');
        assert(op[4] == 'y');
        assert(op != "var"@ && op != "$ref"@ && op != "ref"@);
        assert(!crate::compiled::op_group_0(op));
        assert(!crate::compiled::op_group_1(op));
        assert(!crate::compiled::op_group_2(op));
        assert(!crate::compiled::op_group_3(op));
        assert(!crate::compiled::op_group_4(op));
        assert(!crate::compiled::op_group_5(op));
        assert(crate::compiled::op_group_6(op));
        assert(op_tag(op) == Some(Tag::Empty));
    }
    if op == "EMPTY"@ {
        assert(op.len() == 5);
        assert(op[0] == 'E');
        assert(op[1] == 'M');
        assert(op[2] == 'P');
        assert(op[3] == 'T');
        assert(op[4] == 'Y');
        assert(op != "var"@ && op != "$ref"@ && op != "ref"@);
        assert(!crate::compiled::op_group_0(op));
        assert(!crate::compiled::op_group_1(op));
        assert(!crate::compiled::op_group_2(op));
        assert(!crate::compiled::op_group_3(op));
        assert(!crate::compiled::op_group_4(op));
        assert(!crate::compiled::op_group_5(op));
        assert(crate::compiled::op_group_6(op));
        assert(op_tag(op) == Some(Tag::Empty));
    }
    if op == "today"@ {
        assert(op.len() == 5);
        assert(op[0] == 't');
        assert(op[1] == 'o');
        assert(op[2] == 'd');
        assert(op[3] == 'a');
        assert(op[4] == 'y');
        assert(op != "var"@ && op != "$ref"@ && op != "ref"@);
        assert(!crate::compiled::op_group_0(op));
        assert(!crate::compiled::op_group_1(op));
        assert(!crate::compiled::op_group_2(op));
        assert(!crate::compiled::op_group_3(op));
        assert(!crate::compiled::op_group_4(op));
        assert(!crate::compiled::op_group_5(op));
        assert(crate::compiled::op_group_6(op));
        assert(op_tag(op) == Some(Tag::Today));
    }
    if op == "TODAY"@ {
        assert(op.len() == 5);
        assert(op[0] == 'T');
        assert(op[1] == 'O');
        assert(op[2] == 'D');
        assert(op[3] == 'A');
        assert(op[4] == 'Y');
        assert(op != "var"@ && op != "$ref"@ && op != "ref"@);
        assert(!crate::compiled::op_group_0(op));
        assert(!crate::compiled::op_group_1(op));
        assert(!crate::compiled::op_group_2(op));
        assert(!crate::compiled::op_group_3(op));
        assert(!crate::compiled::op_group_4(op));
        assert(!crate::compiled::op_group_5(op));
        assert(crate::compiled::op_group_6(op));
        assert(op_tag(op) == Some(Tag::Today));
    }
    if op == "now"@ {
        assert(op.len() == 3);
        assert(op[0] == 'n');
        assert(op[1] == 'o');
        assert(op[2] == 'w');
        assert(op != "var"@ && op != "$ref"@ && op != "ref"@);
        assert(!crate::compiled::op_group_0(op));
        assert(!crate::compiled::op_group_1(op));
        assert(!crate::compiled::op_group_2(op));
        assert(!crate::compiled::op_group_3(op));
        assert(!crate::compiled::op_group_4(op));
        assert(!crate::compiled::op_group_5(op));
        assert(crate::compiled::op_group_6(op));
        assert(op_tag(op) == Some(Tag::Now));
    }
    if op == "NOW"@ {
        assert(op.len() == 3);
        assert(op[0] == 'N');
        assert(op[1] == 'O');
        assert(op[2] == 'W');
        assert(op != "var"@ && op != "$ref"@ && op != "ref"@);
        assert(!crate::compiled::op_group_0(op));
        assert(!crate::compiled::op_group_1(op));
        assert(!crate::compiled::op_group_2(op));
        assert(!crate::compiled::op_group_3(op));
        assert(!crate::compiled::op_group_4(op));
        assert(!crate::compiled::op_group_5(op));
        assert(crate::compiled::op_group_6(op));
        assert(op_tag(op) == Some(Tag::Now));
    }
    if op == "days"@ {
        assert(op.len() == 4);
        assert(op[0] == 'd');
        assert(op[1] == 'a');
        assert(op[2] == 'y');
        assert(op[3] == 's');
        assert(op != "var"@ && op != "$ref"@ && op != "ref"@);
        assert(!crate::compiled::op_group_0(op));
        assert(!crate::compiled::op_group_1(op));
        assert(!crate::compiled::op_group_2(op));
        assert(!crate::compiled::op_group_3(op));
        assert(!crate::compiled::op_group_4(op));
        assert(!crate::compiled::op_group_5(op));
        assert(crate::compiled::op_group_6(op));
        assert(op_tag(op) == Some(Tag::Days));
    }
    if op == "DAYS"@ {
        assert(op.len() == 4);
        assert(op[0] == 'D');
        assert(op[1] == 'A');
        assert(op[2] == 'Y');
        assert(op[3] == 'S');
        assert(op != "var"@ && op != "$ref"@ && op != "ref"@);
        assert(!crate::compiled::op_group_0(op));
        assert(!crate::compiled::op_group_1(op));
        assert(!crate::compiled::op_group_2(op));
        assert(!crate::compiled::op_group_3(op));
        assert(!crate::compiled::op_group_4(op));
        assert(!crate::compiled::op_group_5(op));
        assert(crate::compiled::op_group_6(op));
        assert(op_tag(op) == Some(Tag::Days));
    }
    if op == "year"@ {
        assert(op.len() == 4);
        assert(op[0] == 'y');
        assert(op[1] == 'e');
        assert(op[2] == 'a');
        assert(op[3] == 'r');
        assert(op != "var"@ && op != "$ref"@ && op != "ref"@);
        assert(!crate::compiled::op_group_0(op));
        assert(!crate::compiled::op_group_1(op));
        assert(!crate::compiled::op_group_2(op));
        assert(!crate::compiled::op_group_3(op));
        assert(!crate::compiled::op_group_4(op));
        assert(!crate::compiled::op_group_5(op));
        assert(crate::compiled::op_group_6(op));
        assert(op_tag(op) == Some(Tag::Year));
    }
    if op == "YEAR"@ {
        assert(op.len() == 4);
        assert(op[0] == 'Y');
        assert(op[1] == 'E');
        assert(op[2] == 'A');
        assert(op[3] == 'R');
        assert(op != "var"@ && op != "$ref"@ && op != "ref"@);
        assert(!crate::compiled::op_group_0(op));
        assert(!crate::compiled::op_group_1(op));
        assert(!crate::compiled::op_group_2(op));
        assert(!crate::compiled::op_group_3(op));
        assert(!crate::compiled::op_group_4(op));
        assert(!crate::compiled::op_group_5(op));
        assert(crate::compiled::op_group_6(op));
        assert(op_tag(op) == Some(Tag::Year));
    }
    if op == "month"@ {
        assert(op.len() == 5);
        assert(op[0] == 'm');
        assert(op[1] == 'o');
        assert(op[2] == 'n');
        assert(op[3] == 't');
        assert(op[4] == 'h');
        assert(op != "var"@ && op != "$ref"@ && op != "ref"@);
        assert(!crate::compiled::op_group_0(op));
        assert(!crate::compiled::op_group_1(op));
        assert(!crate::compiled::op_group_2(op));
        assert(!crate::compiled::op_group_3(op));
        assert(!crate::compiled::op_group_4(op));
        assert(!crate::compiled::op_group_5(op));
        assert(crate::compiled::op_group_6(op));
        assert(op_tag(op) == Some(Tag::Month));
    }
    if op == "MONTH"@ {
        assert(op.len() == 5);
        assert(op[0] == 'M');
        assert(op[1] == 'O');
        assert(op[2] == 'N');
        assert(op[3] == 'T');
        assert(op[4] == 'H');
        assert(op != "var"@ && op != "$ref"@ && op != "ref"@);
        assert(!crate::compiled::op_group_0(op));
        assert(!crate::compiled::op_group_1(op));
        assert(!crate::compiled::op_group_2(op));
        assert(!crate::compiled::op_group_3(op));
        assert(!crate::compiled::op_group_4(op));
        assert(!crate::compiled::op_group_5(op));
        assert(crate::compiled::op_group_6(op));
        assert(op_tag(op) == Some(Tag::Month));
    }
    if op == "day"@ {
        assert(op.len() == 3);
        assert(op[0] == 'd');
        assert(op[1] == 'a');
        assert(op[2] == 'y');
        assert(op != "var"@ && op != "$ref"@ && op != "ref"@);
        assert(!crate::compiled::op_group_0(op));
        assert(!crate::compiled::op_group_1(op));
        assert(!crate::compiled::op_group_2(op));
        assert(!crate::compiled::op_group_3(op));
        assert(!crate::compiled::op_group_4(op));
        assert(!crate::compiled::op_group_5(op));
        assert(crate::compiled::op_group_6(op));
        assert(op_tag(op) == Some(Tag::Day));
    }
    if op == "DAY"@ {
        assert(op.len() == 3);
        assert(op[0] == 'D');
        assert(op[1] == 'A');
        assert(op[2] == 'Y');
        assert(op != "var"@ && op != "$ref"@ && op != "ref"@);
        assert(!crate::compiled::op_group_0(op));
        assert(!crate::compiled::op_group_1(op));
        assert(!crate::compiled::op_group_2(op));
        assert(!crate::compiled::op_group_3(op));
        assert(!crate::compiled::op_group_4(op));
        assert(!crate::compiled::op_group_5(op));
        assert(crate::compiled::op_group_6(op));
        assert(op_tag(op) == Some(Tag::Day));
    }
    assert(compile_spec(JsonView::Object(es)) == crate::compiled::compile_operator_spec(op, args));
}

#[verifier::spinoff_prover]
#[verifier::rlimit(100)]
proof fn lemma_tags_group_7(op: Seq<char>, args: JsonView)
    requires
        op == "date"@ || op == "DATE"@ || op == "sum"@ || op == "SUM"@ || op == "FOR"@ || op == "VALUEAT"@ || op == "MAXAT"@ || op == "INDEXAT"@ || op == "MATCH"@ || op == "MATCHRANGE"@,
        compile_spec(JsonView::Object(seq![(op, args)])) is Done,
    ensures
        compile_spec(JsonView::Object(seq![(op, args)]))->Done_0 is Op,
        compile_spec(JsonView::Object(seq![(op, args)]))->Done_0->Op_0 == op_tag(op)->Some_0,
{
    reveal_strlit("!");
    reveal_strlit("!=");
    reveal_strlit("!==");
    reveal_strlit("$ref");
    reveal_strlit("%");
    reveal_strlit("*");
    reveal_strlit("**");
    reveal_strlit("+");
    reveal_strlit("-");
    reveal_strlit("/");
    reveal_strlit("<");
    reveal_strlit("<=");
    reveal_strlit("==");
    reveal_strlit("===");
    reveal_strlit(">");
    reveal_strlit(">=");
    reveal_strlit("CHOOSE");
    reveal_strlit("CONCAT");
    reveal_strlit("DATE");
    reveal_strlit("DATEDIF");
    reveal_strlit("DAY");
    reveal_strlit("DAYS");
    reveal_strlit("DIVIDES");
    reveal_strlit("EMPTY");
    reveal_strlit("FINDINDEX");
    reveal_strlit("FOR");
    reveal_strlit("IFNULL");
    reveal_strlit("INDEXAT");
    reveal_strlit("ISEMPTY");
    reveal_strlit("LEFT");
    reveal_strlit("LEN");
    reveal_strlit("MAPOPTIONS");
    reveal_strlit("MAPOPTIONSIF");
    reveal_strlit("MATCH");
    reveal_strlit("MATCHRANGE");
    reveal_strlit("MAXAT");
    reveal_strlit("MID");
    reveal_strlit("MONTH");
    reveal_strlit("MULTIPLIES");
    reveal_strlit("NOW");
    reveal_strlit("RANGEOPTIONS");
    reveal_strlit("RIGHT");
    reveal_strlit("ROUND");
    reveal_strlit("ROUNDDOWN");
    reveal_strlit("ROUNDUP");
    reveal_strlit("SEARCH");
    reveal_strlit("SPLITTEXT");
    reveal_strlit("SPLITVALUE");
    reveal_strlit("SUM");
    reveal_strlit("TODAY");
    reveal_strlit("VALUEAT");
    reveal_strlit("YEAR");
    reveal_strlit("YEARFRAC");
    reveal_strlit("^");
    reveal_strlit("abs");
    reveal_strlit("all");
    reveal_strlit("and");
    reveal_strlit("cat");
    reveal_strlit("concat");
    reveal_strlit("date");
    reveal_strlit("day");
    reveal_strlit("days");
    reveal_strlit("empty");
    reveal_strlit("filter");
    reveal_strlit("if");
    reveal_strlit("ifnull");
    reveal_strlit("in");
    reveal_strlit("isempty");
    reveal_strlit("left");
    reveal_strlit("len");
    reveal_strlit("length");
    reveal_strlit("map");
    reveal_strlit("max");
    reveal_strlit("merge");
    reveal_strlit("mid");
    reveal_strlit("min");
    reveal_strlit("missing");
    reveal_strlit("missing_some");
    reveal_strlit("month");
    reveal_strlit("none");
    reveal_strlit("not");
    reveal_strlit("now");
    reveal_strlit("or");
    reveal_strlit("pow");
    reveal_strlit("reduce");
    reveal_strlit("ref");
    reveal_strlit("return");
    reveal_strlit("right");
    reveal_strlit("round");
    reveal_strlit("rounddown");
    reveal_strlit("roundup");
    reveal_strlit("search");
    reveal_strlit("some");
    reveal_strlit("splittext");
    reveal_strlit("splitvalue");
    reveal_strlit("substr");
    reveal_strlit("sum");
    reveal_strlit("today");
    reveal_strlit("var");
    reveal_strlit("xor");
    reveal_strlit("year");
    let es = seq![(op, args)];
    assert(es[0] == (op, args));
    if op == "date"@ {
        assert(op.len() == 4);
        assert(op[0] == 'd');
        assert(op[1] == 'a');
        assert(op[2] == 't');
        assert(op[3] == 'e');
        assert(op != "var"@ && op != "$ref"@ && op != "ref"@);
        assert(!crate::compiled::op_group_0(op));
        assert(!crate::compiled::op_group_1(op));
        assert(!crate::compiled::op_group_2(op));
        assert(!crate::compiled::op_group_3(op));
        assert(!crate::compiled::op_group_4(op));
        assert(!crate::compiled::op_group_5(op));
        assert(!crate::compiled::op_group_6(op));
        assert(crate::compiled::op_group_7(op));
        assert(op_tag(op) == Some(Tag::Date));
    }
    if op == "DATE"@ {
        assert(op.len() == 4);
        assert(op[0] == 'D');
        assert(op[1] == 'A');
        assert(op[2] == 'T');
        assert(op[3] == 'E');
        assert(op != "var"@ && op != "$ref"@ && op != "ref"@);
        assert(!crate::compiled::op_group_0(op));
        assert(!crate::compiled::op_group_1(op));
        assert(!crate::compiled::op_group_2(op));
        assert(!crate::compiled::op_group_3(op));
        assert(!crate::compiled::op_group_4(op));
        assert(!crate::compiled::op_group_5(op));
        assert(!crate::compiled::op_group_6(op));
        assert(crate::compiled::op_group_7(op));
        assert(op_tag(op) == Some(Tag::Date));
    }
    if op == "sum"@ {
        assert(op.len() == 3);
        assert(op[0] == 's');
        assert(op[1] == 'u');
        assert(op[2] == 'm');
        assert(op != "var"@ && op != "$ref"@ && op != "ref"@);
        assert(!crate::compiled::op_group_0(op));
        assert(!crate::compiled::op_group_1(op));
        assert(!crate::compiled::op_group_2(op));
        assert(!crate::compiled::op_group_3(op));
        assert(!crate::compiled::op_group_4(op));
        assert(!crate::compiled::op_group_5(op));
        assert(!crate::compiled::op_group_6(op));
        assert(crate::compiled::op_group_7(op));
        assert(op_tag(op) == Some(Tag::Sum));
    }
    if op == "SUM"@ {
        assert(op.len() == 3);
        assert(op[0] == 'S');
        assert(op[1] == 'U');
        assert(op[2] == 'M');
        assert(op != "var"@ && op != "$ref"@ && op != "ref"@);
        assert(!crate::compiled::op_group_0(op));
        assert(!crate::compiled::op_group_1(op));
        assert(!crate::compiled::op_group_2(op));
        assert(!crate::compiled::op_group_3(op));
        assert(!crate::compiled::op_group_4(op));
        assert(!crate::compiled::op_group_5(op));
        assert(!crate::compiled::op_group_6(op));
        assert(crate::compiled::op_group_7(op));
        assert(op_tag(op) == Some(Tag::Sum));
    }
    if op == "FOR"@ {
        assert(op.len() == 3);
        assert(op[0] == 'F');
        assert(op[1] == 'O');
        assert(op[2] == 'R');
        assert(op != "var"@ && op != "$ref"@ && op != "ref"@);
        assert(!crate::compiled::op_group_0(op));
        assert(!crate::compiled::op_group_1(op));
        assert(!crate::compiled::op_group_2(op));
        assert(!crate::compiled::op_group_3(op));
        assert(!crate::compiled::op_group_4(op));
        assert(!crate::compiled::op_group_5(op));
        assert(!crate::compiled::op_group_6(op));
        assert(crate::compiled::op_group_7(op));
        assert(op_tag(op) == Some(Tag::For));
    }
    if op == "VALUEAT"@ {
        assert(op.len() == 7);
        assert(op[0] == 'V');
        assert(op[1] == 'A');
        assert(op[2] == 'L');
        assert(op[3] == 'U');
        assert(op[4] == 'E');
        assert(op[5] == 'A');
        assert(op[6] == 'T');
        assert(op != "var"@ && op != "$ref"@ && op != "ref"@);
        assert(!crate::compiled::op_group_0(op));
        assert(!crate::compiled::op_group_1(op));
        assert(!crate::compiled::op_group_2(op));
        assert(!crate::compiled::op_group_3(op));
        assert(!crate::compiled::op_group_4(op));
        assert(!crate::compiled::op_group_5(op));
        assert(!crate::compiled::op_group_6(op));
        assert(crate::compiled::op_group_7(op));
        assert(op_tag(op) == Some(Tag::ValueAt));
    }
    if op == "MAXAT"@ {
        assert(op.len() == 5);
        assert(op[0] == 'M');
        assert(op[1] == 'A');
        assert(op[2] == 'X');
        assert(op[3] == 'A');
        assert(op[4] == 'T');
        assert(op != "var"@ && op != "$ref"@ && op != "ref"@);
        assert(!crate::compiled::op_group_0(op));
        assert(!crate::compiled::op_group_1(op));
        assert(!crate::compiled::op_group_2(op));
        assert(!crate::compiled::op_group_3(op));
        assert(!crate::compiled::op_group_4(op));
        assert(!crate::compiled::op_group_5(op));
        assert(!crate::compiled::op_group_6(op));
        assert(crate::compiled::op_group_7(op));
        assert(op_tag(op) == Some(Tag::MaxAt));
    }
    if op == "INDEXAT"@ {
        assert(op.len() == 7);
        assert(op[0] == 'I');
        assert(op[1] == 'N');
        assert(op[2] == 'D');
        assert(op[3] == 'E');
        assert(op[4] == 'X');
        assert(op[5] == 'A');
        assert(op[6] == 'T');
        assert(op != "var"@ && op != "$ref"@ && op != "ref"@);
        assert(!crate::compiled::op_group_0(op));
        assert(!crate::compiled::op_group_1(op));
        assert(!crate::compiled::op_group_2(op));
        assert(!crate::compiled::op_group_3(op));
        assert(!crate::compiled::op_group_4(op));
        assert(!crate::compiled::op_group_5(op));
        assert(!crate::compiled::op_group_6(op));
        assert(crate::compiled::op_group_7(op));
        assert(op_tag(op) == Some(Tag::IndexAt));
    }
    if op == "MATCH"@ {
        assert(op.len() == 5);
        assert(op[0] == 'M');
        assert(op[1] == 'A');
        assert(op[2] == 'T');
        assert(op[3] == 'C');
        assert(op[4] == 'H');
        assert(op != "var"@ && op != "$ref"@ && op != "ref"@);
        assert(!crate::compiled::op_group_0(op));
        assert(!crate::compiled::op_group_1(op));
        assert(!crate::compiled::op_group_2(op));
        assert(!crate::compiled::op_group_3(op));
        assert(!crate::compiled::op_group_4(op));
        assert(!crate::compiled::op_group_5(op));
        assert(!crate::compiled::op_group_6(op));
        assert(crate::compiled::op_group_7(op));
        assert(op_tag(op) == Some(Tag::Match));
    }
    if op == "MATCHRANGE"@ {
        assert(op.len() == 10);
        assert(op[0] == 'M');
        assert(op[1] == 'A');
        assert(op[2] == 'T');
        assert(op[3] == 'C');
        assert(op[4] == 'H');
        assert(op[5] == 'R');
        assert(op[6] == 'A');
        assert(op[7] == 'N');
        assert(op[8] == 'G');
        assert(op[9] == 'E');
        assert(op != "var"@ && op != "$ref"@ && op != "ref"@);
        assert(!crate::compiled::op_group_0(op));
        assert(!crate::compiled::op_group_1(op));
        assert(!crate::compiled::op_group_2(op));
        assert(!crate::compiled::op_group_3(op));
        assert(!crate::compiled::op_group_4(op));
        assert(!crate::compiled::op_group_5(op));
        assert(!crate::compiled::op_group_6(op));
        assert(crate::compiled::op_group_7(op));
        assert(op_tag(op) == Some(Tag::MatchRange));
    }
    assert(compile_spec(JsonView::Object(es)) == crate::compiled::compile_operator_spec(op, args));
}

#[verifier::spinoff_prover]
#[verifier::rlimit(100)]
proof fn lemma_tags_group_8(op: Seq<char>, args: JsonView)
    requires
        op == "CHOOSE"@ || op == "FINDINDEX"@ || op == "MULTIPLIES"@ || op == "DIVIDES"@ || op == "YEARFRAC"@ || op == "DATEDIF"@ || op == "RANGEOPTIONS"@ || op == "MAPOPTIONS"@,
        compile_spec(JsonView::Object(seq![(op, args)])) is Done,
    ensures
        compile_spec(JsonView::Object(seq![(op, args)]))->Done_0 is Op,
        compile_spec(JsonView::Object(seq![(op, args)]))->Done_0->Op_0 == op_tag(op)->Some_0,
{
    reveal_strlit("!");
    reveal_strlit("!=");
    reveal_strlit("!==");
    reveal_strlit("$ref");
    reveal_strlit("%");
    reveal_strlit("*");
    reveal_strlit("**");
    reveal_strlit("+");
    reveal_strlit("-");
    reveal_strlit("/");
    reveal_strlit("<");
    reveal_strlit("<=");
    reveal_strlit("==");
    reveal_strlit("===");
    reveal_strlit(">");
    reveal_strlit(">=");
    reveal_strlit("CHOOSE");
    reveal_strlit("CONCAT");
    reveal_strlit("DATE");
    reveal_strlit("DATEDIF");
    reveal_strlit("DAY");
    reveal_strlit("DAYS");
    reveal_strlit("DIVIDES");
    reveal_strlit("EMPTY");
    reveal_strlit("FINDINDEX");
    reveal_strlit("FOR");
    reveal_strlit("IFNULL");
    reveal_strlit("INDEXAT");
    reveal_strlit("ISEMPTY");
    reveal_strlit("LEFT");
    reveal_strlit("LEN");
    reveal_strlit("MAPOPTIONS");
    reveal_strlit("MAPOPTIONSIF");
    reveal_strlit("MATCH");
    reveal_strlit("MATCHRANGE");
    reveal_strlit("MAXAT");
    reveal_strlit("MID");
    reveal_strlit("MONTH");
    reveal_strlit("MULTIPLIES");
    reveal_strlit("NOW");
    reveal_strlit("RANGEOPTIONS");
    reveal_strlit("RIGHT");
    reveal_strlit("ROUND");
    reveal_strlit("ROUNDDOWN");
    reveal_strlit("ROUNDUP");
    reveal_strlit("SEARCH");
    reveal_strlit("SPLITTEXT");
    reveal_strlit("SPLITVALUE");
    reveal_strlit("SUM");
    reveal_strlit("TODAY");
    reveal_strlit("VALUEAT");
    reveal_strlit("YEAR");
    reveal_strlit("YEARFRAC");
    reveal_strlit("^");
    reveal_strlit("abs");
    reveal_strlit("all");
    reveal_strlit("and");
    reveal_strlit("cat");
    reveal_strlit("concat");
    reveal_strlit("date");
    reveal_strlit("day");
    reveal_strlit("days");
    reveal_strlit("empty");
    reveal_strlit("filter");
    reveal_strlit("if");
    reveal_strlit("ifnull");
    reveal_strlit("in");
    reveal_strlit("isempty");
    reveal_strlit("left");
    reveal_strlit("len");
    reveal_strlit("length");
    reveal_strlit("map");
    reveal_strlit("max");
    reveal_strlit("merge");
    reveal_strlit("mid");
    reveal_strlit("min");
    reveal_strlit("missing");
    reveal_strlit("missing_some");
    reveal_strlit("month");
    reveal_strlit("none");
    reveal_strlit("not");
    reveal_strlit("now");
    reveal_strlit("or");
    reveal_strlit("pow");
    reveal_strlit("reduce");
    reveal_strlit("ref");
    reveal_strlit("return");
    reveal_strlit("right");
    reveal_strlit("round");
    reveal_strlit("rounddown");
    reveal_strlit("roundup");
    reveal_strlit("search");
    reveal_strlit("some");
    reveal_strlit("splittext");
    reveal_strlit("splitvalue");
    reveal_strlit("substr");
    reveal_strlit("sum");
    reveal_strlit("today");
    reveal_strlit("var");
    reveal_strlit("xor");
    reveal_strlit("year");
    let es = seq![(op, args)];
    assert(es[0] == (op, args));
    if op == "CHOOSE"@ {
        assert(op.len() == 6);
        assert(op[0] == 'C');
        assert(op[1] == 'H');
        assert(op[2] == 'O');
        assert(op[3] == 'O');
        assert(op[4] == 'S');
        assert(op[5] == 'E');
        assert(op != "var"@ && op != "$ref"@ && op != "ref"@);
        assert(!crate::compiled::op_group_0(op));
        assert(!crate::compiled::op_group_1(op));
        assert(!crate::compiled::op_group_2(op));
        assert(!crate::compiled::op_group_3(op));
        assert(!crate::compiled::op_group_4(op));
        assert(!crate::compiled::op_group_5(op));
        assert(!crate::compiled::op_group_6(op));
        assert(!crate::compiled::op_group_7(op));
        assert(crate::compiled::op_group_8(op));
        assert(op_tag(op) == Some(Tag::Choose));
    }
    if op == "FINDINDEX"@ {
        assert(op.len() == 9);
        assert(op[0] == 'F');
        assert(op[1] == 'I');
        assert(op[2] == 'N');
        assert(op[3] == 'D');
        assert(op[4] == 'I');
        assert(op[5] == 'N');
        assert(op[6] == 'D');
        assert(op[7] == 'E');
        assert(op[8] == 'X');
        assert(op != "var"@ && op != "$ref"@ && op != "ref"@);
        assert(!crate::compiled::op_group_0(op));
        assert(!crate::compiled::op_group_1(op));
        assert(!crate::compiled::op_group_2(op));
        assert(!crate::compiled::op_group_3(op));
        assert(!crate::compiled::op_group_4(op));
        assert(!crate::compiled::op_group_5(op));
        assert(!crate::compiled::op_group_6(op));
        assert(!crate::compiled::op_group_7(op));
        assert(crate::compiled::op_group_8(op));
        assert(op_tag(op) == Some(Tag::FindIndex));
    }
    if op == "MULTIPLIES"@ {
        assert(op.len() == 10);
        assert(op[0] == 'M');
        assert(op[1] == 'U');
        assert(op[2] == 'L');
        assert(op[3] == 'T');
        assert(op[4] == 'I');
        assert(op[5] == 'P');
        assert(op[6] == 'L');
        assert(op[7] == 'I');
        assert(op[8] == 'E');
        assert(op[9] == 'S');
        assert(op != "var"@ && op != "$ref"@ && op != "ref"@);
        assert(!crate::compiled::op_group_0(op));
        assert(!crate::compiled::op_group_1(op));
        assert(!crate::compiled::op_group_2(op));
        assert(!crate::compiled::op_group_3(op));
        assert(!crate::compiled::op_group_4(op));
        assert(!crate::compiled::op_group_5(op));
        assert(!crate::compiled::op_group_6(op));
        assert(!crate::compiled::op_group_7(op));
        assert(crate::compiled::op_group_8(op));
        assert(op_tag(op) == Some(Tag::Multiplies));
    }
    if op == "DIVIDES"@ {
        assert(op.len() == 7);
        assert(op[0] == 'D');
        assert(op[1] == 'I');
        assert(op[2] == 'V');
        assert(op[3] == 'I');
        assert(op[4] == 'D');
        assert(op[5] == 'E');
        assert(op[6] == 'S');
        assert(op != "var"@ && op != "$ref"@ && op != "ref"@);
        assert(!crate::compiled::op_group_0(op));
        assert(!crate::compiled::op_group_1(op));
        assert(!crate::compiled::op_group_2(op));
        assert(!crate::compiled::op_group_3(op));
        assert(!crate::compiled::op_group_4(op));
        assert(!crate::compiled::op_group_5(op));
        assert(!crate::compiled::op_group_6(op));
        assert(!crate::compiled::op_group_7(op));
        assert(crate::compiled::op_group_8(op));
        assert(op_tag(op) == Some(Tag::Divides));
    }
    if op == "YEARFRAC"@ {
        assert(op.len() == 8);
        assert(op[0] == 'Y');
        assert(op[1] == 'E');
        assert(op[2] == 'A');
        assert(op[3] == 'R');
        assert(op[4] == 'F');
        assert(op[5] == 'R');
        assert(op[6] == 'A');
        assert(op[7] == 'C');
        assert(op != "var"@ && op != "$ref"@ && op != "ref"@);
        assert(!crate::compiled::op_group_0(op));
        assert(!crate::compiled::op_group_1(op));
        assert(!crate::compiled::op_group_2(op));
        assert(!crate::compiled::op_group_3(op));
        assert(!crate::compiled::op_group_4(op));
        assert(!crate::compiled::op_group_5(op));
        assert(!crate::compiled::op_group_6(op));
        assert(!crate::compiled::op_group_7(op));
        assert(crate::compiled::op_group_8(op));
        assert(op_tag(op) == Some(Tag::YearFrac));
    }
    if op == "DATEDIF"@ {
        assert(op.len() == 7);
        assert(op[0] == 'D');
        assert(op[1] == 'A');
        assert(op[2] == 'T');
        assert(op[3] == 'E');
        assert(op[4] == 'D');
        assert(op[5] == 'I');
        assert(op[6] == 'F');
        assert(op != "var"@ && op != "$ref"@ && op != "ref"@);
        assert(!crate::compiled::op_group_0(op));
        assert(!crate::compiled::op_group_1(op));
        assert(!crate::compiled::op_group_2(op));
        assert(!crate::compiled::op_group_3(op));
        assert(!crate::compiled::op_group_4(op));
        assert(!crate::compiled::op_group_5(op));
        assert(!crate::compiled::op_group_6(op));
        assert(!crate::compiled::op_group_7(op));
        assert(crate::compiled::op_group_8(op));
        assert(op_tag(op) == Some(Tag::DateDif));
    }
    if op == "RANGEOPTIONS"@ {
        assert(op.len() == 12);
        assert(op[0] == 'R');
        assert(op[1] == 'A');
        assert(op[2] == 'N');
        assert(op[3] == 'G');
        assert(op[4] == 'E');
        assert(op[5] == 'O');
        assert(op[6] == 'P');
        assert(op[7] == 'T');
        assert(op[8] == 'I');
        assert(op[9] == 'O');
        assert(op[10] == 'N');
        assert(op[11] == 'S');
        assert(op != "var"@ && op != "$ref"@ && op != "ref"@);
        assert(!crate::compiled::op_group_0(op));
        assert(!crate::compiled::op_group_1(op));
        assert(!crate::compiled::op_group_2(op));
        assert(!crate::compiled::op_group_3(op));
        assert(!crate::compiled::op_group_4(op));
        assert(!crate::compiled::op_group_5(op));
        assert(!crate::compiled::op_group_6(op));
        assert(!crate::compiled::op_group_7(op));
        assert(crate::compiled::op_group_8(op));
        assert(op_tag(op) == Some(Tag::RangeOptions));
    }
    if op == "MAPOPTIONS"@ {
        assert(op.len() == 10);
        assert(op[0] == 'M');
        assert(op[1] == 'A');
        assert(op[2] == 'P');
        assert(op[3] == 'O');
        assert(op[4] == 'P');
        assert(op[5] == 'T');
        assert(op[6] == 'I');
        assert(op[7] == 'O');
        assert(op[8] == 'N');
        assert(op[9] == 'S');
        assert(op != "var"@ && op != "$ref"@ && op != "ref"@);
        assert(!crate::compiled::op_group_0(op));
        assert(!crate::compiled::op_group_1(op));
        assert(!crate::compiled::op_group_2(op));
        assert(!crate::compiled::op_group_3(op));
        assert(!crate::compiled::op_group_4(op));
        assert(!crate::compiled::op_group_5(op));
        assert(!crate::compiled::op_group_6(op));
        assert(!crate::compiled::op_group_7(op));
        assert(crate::compiled::op_group_8(op));
        assert(op_tag(op) == Some(Tag::MapOptions));
    }
    assert(compile_spec(JsonView::Object(es)) == crate::compiled::compile_operator_spec(op, args));
}

#[verifier::spinoff_prover]
#[verifier::rlimit(100)]
proof fn lemma_tags_group_9(op: Seq<char>, args: JsonView)
    requires
        op == "MAPOPTIONSIF"@,
        compile_spec(JsonView::Object(seq![(op, args)])) is Done,
    ensures
        compile_spec(JsonView::Object(seq![(op, args)]))->Done_0 is Op,
        compile_spec(JsonView::Object(seq![(op, args)]))->Done_0->Op_0 == op_tag(op)->Some_0,
{
    reveal_strlit("!");
    reveal_strlit("!=");
    reveal_strlit("!==");
    reveal_strlit("$ref");
    reveal_strlit("%");
    reveal_strlit("*");
    reveal_strlit("**");
    reveal_strlit("+");
    reveal_strlit("-");
    reveal_strlit("/");
    reveal_strlit("<");
    reveal_strlit("<=");
    reveal_strlit("==");
    reveal_strlit("===");
    reveal_strlit(">");
    reveal_strlit(">=");
    reveal_strlit("CHOOSE");
    reveal_strlit("CONCAT");
    reveal_strlit("DATE");
    reveal_strlit("DATEDIF");
    reveal_strlit("DAY");
    reveal_strlit("DAYS");
    reveal_strlit("DIVIDES");
    reveal_strlit("EMPTY");
    reveal_strlit("FINDINDEX");
    reveal_strlit("FOR");
    reveal_strlit("IFNULL");
    reveal_strlit("INDEXAT");
    reveal_strlit("ISEMPTY");
    reveal_strlit("LEFT");
    reveal_strlit("LEN");
    reveal_strlit("MAPOPTIONS");
    reveal_strlit("MAPOPTIONSIF");
    reveal_strlit("MATCH");
    reveal_strlit("MATCHRANGE");
    reveal_strlit("MAXAT");
    reveal_strlit("MID");
    reveal_strlit("MONTH");
    reveal_strlit("MULTIPLIES");
    reveal_strlit("NOW");
    reveal_strlit("RANGEOPTIONS");
    reveal_strlit("RIGHT");
    reveal_strlit("ROUND");
    reveal_strlit("ROUNDDOWN");
    reveal_strlit("ROUNDUP");
    reveal_strlit("SEARCH");
    reveal_strlit("SPLITTEXT");
    reveal_strlit("SPLITVALUE");
    reveal_strlit("SUM");
    reveal_strlit("TODAY");
    reveal_strlit("VALUEAT");
    reveal_strlit("YEAR");
    reveal_strlit("YEARFRAC");
    reveal_strlit("^");
    reveal_strlit("abs");
    reveal_strlit("all");
    reveal_strlit("and");
    reveal_strlit("cat");
    reveal_strlit("concat");
    reveal_strlit("date");
    reveal_strlit("day");
    reveal_strlit("days");
    reveal_strlit("empty");
    reveal_strlit("filter");
    reveal_strlit("if");
    reveal_strlit("ifnull");
    reveal_strlit("in");
    reveal_strlit("isempty");
    reveal_strlit("left");
    reveal_strlit("len");
    reveal_strlit("length");
    reveal_strlit("map");
    reveal_strlit("max");
    reveal_strlit("merge");
    reveal_strlit("mid");
    reveal_strlit("min");
    reveal_strlit("missing");
    reveal_strlit("missing_some");
    reveal_strlit("month");
    reveal_strlit("none");
    reveal_strlit("not");
    reveal_strlit("now");
    reveal_strlit("or");
    reveal_strlit("pow");
    reveal_strlit("reduce");
    reveal_strlit("ref");
    reveal_strlit("return");
    reveal_strlit("right");
    reveal_strlit("round");
    reveal_strlit("rounddown");
    reveal_strlit("roundup");
    reveal_strlit("search");
    reveal_strlit("some");
    reveal_strlit("splittext");
    reveal_strlit("splitvalue");
    reveal_strlit("substr");
    reveal_strlit("sum");
    reveal_strlit("today");
    reveal_strlit("var");
    reveal_strlit("xor");
    reveal_strlit("year");
    let es = seq![(op, args)];
    assert(es[0] == (op, args));
    if op == "MAPOPTIONSIF"@ {
        assert(op.len() == 12);
        assert(op[0] == 'M');
        assert(op[1] == 'A');
        assert(op[2] == 'P');
        assert(op[3] == 'O');
        assert(op[4] == 'P');
        assert(op[5] == 'T');
        assert(op[6] == 'I');
        assert(op[7] == 'O');
        assert(op[8] == 'N');
        assert(op[9] == 'S');
        assert(op[10] == 'I');
        assert(op[11] == 'F');
        assert(op != "var"@ && op != "$ref"@ && op != "ref"@);
        assert(!crate::compiled::op_group_0(op));
        assert(!crate::compiled::op_group_1(op));
        assert(!crate::compiled::op_group_2(op));
        assert(!crate::compiled::op_group_3(op));
        assert(!crate::compiled::op_group_4(op));
        assert(!crate::compiled::op_group_5(op));
        assert(!crate::compiled::op_group_6(op));
        assert(!crate::compiled::op_group_7(op));
        assert(!crate::compiled::op_group_8(op));
        assert(crate::compiled::op_group_9(op));
        assert(op_tag(op) == Some(Tag::MapOptionsIf));
    }
    assert(compile_spec(JsonView::Object(es)) == crate::compiled::compile_operator_spec(op, args));
}

/// Whenever an operator `{op: args}` compiles, the node it compiles to is one of
/// the operator its name stands for: `+` an addition, `map` a map, `MATCH` a
/// match, and so on, never another operator's node.
pub proof fn law_operator_compiles_to_its_tag(op: Seq<char>, args: JsonView)
    requires
        op_tag(op) is Some,
        compile_spec(JsonView::Object(seq![(op, args)])) is Done,
    ensures
        compile_spec(JsonView::Object(seq![(op, args)]))->Done_0 is Op,
        compile_spec(JsonView::Object(seq![(op, args)]))->Done_0->Op_0 == op_tag(op)->Some_0,
{
    lemma_op_tag_cases(op);
    if op == "and"@ || op == "or"@ || op == "if"@ || op == "=="@ || op == "==="@ || op == "!="@ || op == "!=="@ {
        lemma_tags_group_0(op, args);
    }
    if op == "<"@ || op == "<="@ || op == ">"@ || op == ">="@ || op == "+"@ || op == "-"@ || op == "*"@ || op == "/"@ {
        lemma_tags_group_1(op, args);
    }
    if op == "%"@ || op == "^"@ || op == "map"@ || op == "filter"@ || op == "reduce"@ || op == "all"@ || op == "some"@ || op == "none"@ {
        lemma_tags_group_2(op, args);
    }
    if op == "merge"@ || op == "in"@ || op == "cat"@ || op == "substr"@ || op == "abs"@ || op == "max"@ {
        lemma_tags_group_3(op, args);
    }
    if op == "min"@ || op == "pow"@ || op == "**"@ || op == "round"@ || op == "ROUND"@ || op == "roundup"@ || op == "ROUNDUP"@ || op == "rounddown"@ || op == "ROUNDDOWN"@ || op == "length"@ || op == "len"@ || op == "LEN"@ || op == "search"@ || op == "SEARCH"@ {
        lemma_tags_group_4(op, args);
    }
    if op == "left"@ || op == "LEFT"@ || op == "right"@ || op == "RIGHT"@ || op == "mid"@ || op == "MID"@ || op == "splittext"@ || op == "SPLITTEXT"@ || op == "concat"@ || op == "CONCAT"@ || op == "splitvalue"@ || op == "SPLITVALUE"@ || op == "xor"@ || op == "ifnull"@ || op == "IFNULL"@ {
        lemma_tags_group_5(op, args);
    }
    if op == "isempty"@ || op == "ISEMPTY"@ || op == "empty"@ || op == "EMPTY"@ || op == "today"@ || op == "TODAY"@ || op == "now"@ || op == "NOW"@ || op == "days"@ || op == "DAYS"@ || op == "year"@ || op == "YEAR"@ || op == "month"@ || op == "MONTH"@ || op == "day"@ || op == "DAY"@ {
        lemma_tags_group_6(op, args);
    }
    if op == "date"@ || op == "DATE"@ || op == "sum"@ || op == "SUM"@ || op == "FOR"@ || op == "VALUEAT"@ || op == "MAXAT"@ || op == "INDEXAT"@ || op == "MATCH"@ || op == "MATCHRANGE"@ {
        lemma_tags_group_7(op, args);
    }
    if op == "CHOOSE"@ || op == "FINDINDEX"@ || op == "MULTIPLIES"@ || op == "DIVIDES"@ || op == "YEARFRAC"@ || op == "DATEDIF"@ || op == "RANGEOPTIONS"@ || op == "MAPOPTIONS"@ {
        lemma_tags_group_8(op, args);
    }
    if op == "MAPOPTIONSIF"@ {
        lemma_tags_group_9(op, args);
    }
}

/// A `VALUEAT` whose row index is `$iteration` minus a number, or a plain
/// number, reads no later iteration: over a table and a column that refer to no
/// later iteration themselves, it is no forward reference.
pub proof fn law_value_at_earlier_row_is_not_forward(t: LogicView, c: Option<LogicView>, n: Seq<char>)
    requires
        !forward_ref(t),
        c matches Some(x) ==> !forward_ref(x),
    ensures
        !forward_ref(LogicView::Op(Tag::ValueAt, seq![Some(t), Some(LogicView::Op(Tag::Subtract, seq![], seq![
            LogicView::Var(json_pointer_of("$iteration"@), None),
            LogicView::Number(n),
        ])), c], seq![])),
        !forward_ref(LogicView::Op(Tag::ValueAt, seq![Some(t), Some(LogicView::Number(n)), c], seq![])),
{
    let ops = seq![LogicView::Var(json_pointer_of("$iteration"@), None), LogicView::Number(n)];
    let sub = LogicView::Op(Tag::Subtract, seq![], ops);
    assert(ops[0] == LogicView::Var(json_pointer_of("$iteration"@), None));
    assert(ops[1] == LogicView::Number(n));
    assert(!forward_ref(ops[0]));
    assert(!forward_ref(ops[1]));
    assert(!list_fwd(Seq::<LogicView>::empty()));
    let one = ops.subrange(0, 1);
    assert(one.subrange(0, 0) =~= Seq::<LogicView>::empty());
    assert(one.len() == 1);
    assert(one[0] == ops[0]);
    assert(one.subrange(0, one.len() - 1) =~= Seq::<LogicView>::empty());
    assert(ops.subrange(0, ops.len() - 1) =~= one);
    assert(!list_fwd(ops.subrange(0, 1)));
    assert(ops.subrange(0, 2) =~= ops);
    assert(!list_fwd(ops));
    assert(!kids_fwd(Seq::<Option<LogicView>>::empty()));
    assert(!list_fwd(Seq::<LogicView>::empty()));
    assert(!forward_ref(sub));
    let k1 = seq![Some(t), Some(sub), c];
    let k2 = seq![Some(t), Some(LogicView::Number(n)), c];
    assert(k1[0] == Some(t) && k1[1] == Some(sub) && k1[2] == c);
    assert(k2[0] == Some(t) && k2[1] == Some(LogicView::Number(n)) && k2[2] == c);
    assert(!iteration_plus_positive(sub));
    assert(!iteration_plus_positive(LogicView::Number(n)));
    assert(!kids_fwd(k1));
    assert(!kids_fwd(k2));
}

} // verus!
