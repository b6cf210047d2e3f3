use vstd::prelude::*;
use crate::json::{JsonValue, JsonView, json_views, entry_views};
use crate::path::{entry_lookup, digits_usize, usize_of_text, lookup_entry, parse_usize};
use crate::paths::{replace_all, replace_chars};
use crate::text::{to_chars, string_of};
use crate::path::{all_digits, digits_value, is_digit};
use crate::table_plan::{decimal, digit_char};

verus! {

/// The number of characters of `s` before its first `/` (all of them if none).
pub open spec fn slash_at(s: Seq<char>) -> nat
    decreases s.len(),
{
    if s.len() == 0 || s[0] == '/' {
        0
    } else {
        1 + slash_at(s.drop_first())
    }
}

/// A pointer token with its escapes undone: `~1` stands for `/`, then `~0` for `~`.
pub open spec fn unescape_token(t: Seq<char>) -> Seq<char> {
    replace_all(replace_all(t, seq!['~', '1'], seq!['/']), seq!['~', '0'], seq!['~'])
}

/// A token read as an array index: decimal digits, without a leading zero
/// (but for `0` itself), that fit in `usize`.
pub open spec fn index_token(t: Seq<char>) -> Option<usize> {
    if t.len() > 0 && (t[0] != '0' || t.len() == 1) {
        digits_usize(t)
    } else {
        None
    }
}

/// One step of a pointer: the entry of an object under the token, or the element
/// of an array at the token's index.
pub open spec fn pointer_step(v: JsonView, tok: Seq<char>) -> Option<JsonView> {
    match v {
        JsonView::Object(es) => entry_lookup(es, tok),
        JsonView::Array(xs) => match index_token(tok) {
            Some(i) => if i < xs.len() { Some(xs[i as int]) } else { None },
            None => None,
        },
        _ => None,
    }
}

/// The value reached from `v` along the `/`-separated tokens of `rest`.
pub open spec fn pointer_walk(v: JsonView, rest: Seq<char>) -> Option<JsonView>
    decreases rest.len(),
{
    let k = slash_at(rest);
    match pointer_step(v, unescape_token(rest.take(k as int))) {
        None => None,
        Some(w) => if k >= rest.len() {
            Some(w)
        } else {
            pointer_walk(w, rest.skip((k + 1) as int))
        },
    }
}

/// The value a JSON pointer names in `v`: `v` itself for the empty pointer, nothing
/// for a pointer that does not start with `/`.
pub open spec fn pointer_get(v: JsonView, p: Seq<char>) -> Option<JsonView> {
    if p.len() == 0 {
        Some(v)
    } else if p[0] != '/' {
        None
    } else {
        pointer_walk(v, p.drop_first())
    }
}

proof fn lemma_slash_at(s: Seq<char>, i: int, j: int)
    requires
        0 <= i <= j <= s.len(),
        forall|m: int| i <= m < j ==> s[m] != '/',
        j == s.len() || s[j] == '/',
    ensures
        slash_at(s.skip(i)) == j - i,
    decreases j - i,
{
    if i < j {
        lemma_slash_at(s, i + 1, j);
        assert(s.skip(i).drop_first() =~= s.skip(i + 1));
    }
}

/// One pointer step on a value, with the token's characters.
fn step_token<'a>(v: &'a JsonValue, tok: &Vec<char>) -> (res: Option<&'a JsonValue>)
    ensures
        match res {
            Some(r) => pointer_step(v@, tok@) == Some(r@),
            None => pointer_step(v@, tok@) is None,
        },
{
    match v {
        JsonValue::Object(es) => {
            let k = string_of(tok);
            lookup_entry(es, &k)
        },
        JsonValue::Array(xs) => {
            if tok.len() > 0 && tok[0] != '+' && (tok[0] != '0' || tok.len() == 1) {
                let r = parse_usize(tok, 0, tok.len());
                assert(tok@.subrange(0, tok@.len() as int) =~= tok@);
                assert(usize_of_text(tok@) == digits_usize(tok@));
                match r {
                    Some(i) => {
                        if i < xs.len() {
                            assert(json_views(xs@)[i as int] == xs@[i as int]@);
                            Some(&xs[i])
                        } else {
                            None
                        }
                    },
                    None => None,
                }
            } else {
                proof {
                    if tok@.len() > 0 && tok@[0] == '+' {
                        assert(!crate::path::is_digit(tok@[0]));
                    }
                }
                None
            }
        },
        _ => None,
    }
}

/// The value that the JSON pointer `p` names in `v` (see `pointer_get`).
pub fn pointer_lookup<'a>(v: &'a JsonValue, p: &str) -> (res: Option<&'a JsonValue>)
    ensures
        match res {
            Some(r) => pointer_get(v@, p@) == Some(r@),
            None => pointer_get(v@, p@) is None,
        },
{
    let cs = to_chars(p);
    if cs.len() == 0 {
        return Some(v);
    }
    if cs[0] != '/' {
        return None;
    }
    let mut cur: &JsonValue = v;
    let mut i: usize = 1;
    while i <= cs.len()
        invariant
            1 <= i <= cs@.len(),
            cs@ == p@,
            cs@[0] == '/',
            pointer_walk(cur@, cs@.skip(i as int)) == pointer_walk(v@, cs@.skip(1)),
        decreases cs@.len() - i,
    {
        let mut j: usize = i;
        while j < cs.len() && cs[j] != '/'
            invariant
                i <= j <= cs@.len(),
                forall|m: int| i <= m < j ==> cs@[m] != '/',
            decreases cs@.len() - j,
        {
            j = j + 1;
        }
        proof {
            lemma_slash_at(cs@, i as int, j as int);
            assert(cs@.skip(i as int).take((j - i) as int) =~= cs@.subrange(i as int, j as int));
            if j < cs@.len() {
                assert(cs@.skip(i as int).skip((j - i) + 1) =~= cs@.skip(j + 1));
            }
        }
        let raw = slice_chars(&cs, i, j);
        let tilde_one = vec!['~', '1'];
        let slash = vec!['/'];
        let tilde_zero = vec!['~', '0'];
        let tilde = vec!['~'];
        let once = replace_chars(&raw, &tilde_one, &slash);
        let tok = replace_chars(&once, &tilde_zero, &tilde);
        assert(tilde_one@ =~= seq!['~', '1']);
        assert(slash@ =~= seq!['/']);
        assert(tilde_zero@ =~= seq!['~', '0']);
        assert(tilde@ =~= seq!['~']);
        match step_token(cur, &tok) {
            None => {
                return None;
            },
            Some(w) => {
                if j == cs.len() {
                    return Some(w);
                }
                cur = w;
                i = j + 1;
            },
        }
    }
    None
}

fn slice_chars(cs: &Vec<char>, from: usize, to: usize) -> (res: Vec<char>)
    requires
        from <= to <= cs@.len(),
    ensures
        res@ == cs@.subrange(from as int, to as int),
{
    let mut res: Vec<char> = Vec::new();
    let mut k: usize = from;
    while k < to
        invariant
            from <= k <= to,
            to <= cs@.len(),
            res@ == cs@.subrange(from as int, k as int),
        decreases to - k,
    {
        res.push(cs[k]);
        k = k + 1;
        assert(res@ =~= cs@.subrange(from as int, k as int));
    }
    res
}

proof fn lemma_digit_char(d: nat)
    requires
        d < 10,
    ensures
        is_digit(digit_char(d)),
        (digit_char(d) as int) - ('0' as int) == d,
        d > 0 ==> digit_char(d) != '0',
        digit_char(d) != '/' && digit_char(d) != '~',
{
}

proof fn lemma_decimal(n: nat)
    ensures
        decimal(n).len() > 0,
        all_digits(decimal(n)),
        digits_value(decimal(n)) == n,
        n > 0 ==> decimal(n)[0] != '0',
        !decimal(n).contains('/'),
        !decimal(n).contains('~'),
    decreases n,
{
    if n < 10 {
        lemma_digit_char(n);
        let d = decimal(n);
        assert(d == seq![digit_char(n)]);
        assert(d.drop_last() =~= Seq::<char>::empty());
        assert(d.last() == digit_char(n));
        assert(digits_value(d.drop_last()) == 0);
        assert(digits_value(d) == digits_value(d.drop_last()) * 10 + ((d.last() as int) - ('0' as int)) as nat);
        assert(!d.contains('/')) by {
            if d.contains('/') {
                let j = choose|j: int| 0 <= j < d.len() && d[j] == '/';
                assert(d[j] == digit_char(n));
            }
        }
        assert(!d.contains('~')) by {
            if d.contains('~') {
                let j = choose|j: int| 0 <= j < d.len() && d[j] == '~';
                assert(d[j] == digit_char(n));
            }
        }
    } else {
        let m = n / 10;
        let r = n % 10;
        lemma_decimal(m);
        lemma_digit_char(r as nat);
        let d = decimal(n);
        let dm = decimal(m);
        assert(d == dm.push(digit_char(r as nat)));
        assert(d.drop_last() =~= dm);
        assert(d.last() == digit_char(r as nat));
        assert(digits_value(d) == digits_value(d.drop_last()) * 10 + ((d.last() as int) - ('0' as int)) as nat);
        assert(n == m * 10 + r);
        assert(d[0] == dm[0]);
        assert forall|j: int| 0 <= j < d.len() implies is_digit(#[trigger] d[j]) by {
            if j < dm.len() {
                assert(d[j] == dm[j]);
            }
        }
        assert(!d.contains('/')) by {
            if d.contains('/') {
                let j = choose|j: int| 0 <= j < d.len() && d[j] == '/';
                if j < dm.len() {
                    assert(d[j] == dm[j]);
                }
            }
        }
        assert(!d.contains('~')) by {
            if d.contains('~') {
                let j = choose|j: int| 0 <= j < d.len() && d[j] == '~';
                if j < dm.len() {
                    assert(d[j] == dm[j]);
                }
            }
        }
    }
}

proof fn lemma_slash_free(k: Seq<char>, q: Seq<char>)
    requires
        !k.contains('/'),
        q.len() == 0 || q[0] == '/',
    ensures
        slash_at(k + q) == k.len(),
    decreases k.len(),
{
    if k.len() > 0 {
        assert(k[0] != '/') by {
            if k[0] == '/' {
                assert(k.contains('/'));
            }
        }
        assert(!k.drop_first().contains('/')) by {
            if k.drop_first().contains('/') {
                let j = choose|j: int| 0 <= j < k.drop_first().len() && k.drop_first()[j] == '/';
                assert(k[j + 1] == '/');
            }
        }
        lemma_slash_free(k.drop_first(), q);
        assert((k + q).drop_first() =~= k.drop_first() + q);
        assert((k + q)[0] == k[0]);
    } else {
        assert(k + q =~= q);
    }
}

proof fn lemma_replace_absent(s: Seq<char>, pat: Seq<char>, rep: Seq<char>)
    requires
        pat.len() > 0,
        !s.contains(pat[0]),
    ensures
        replace_all(s, pat, rep) == s,
    decreases s.len(),
{
    if s.len() >= pat.len() {
        assert(s.take(pat.len() as int) != pat) by {
            if s.take(pat.len() as int) == pat {
                assert(s[0] == pat[0]);
            }
        }
        assert(!s.skip(1).contains(pat[0])) by {
            if s.skip(1).contains(pat[0]) {
                let j = choose|j: int| 0 <= j < s.skip(1).len() && s.skip(1)[j] == pat[0];
                assert(s[j + 1] == pat[0]);
            }
        }
        lemma_replace_absent(s.skip(1), pat, rep);
        assert(seq![s[0]] + s.skip(1) =~= s);
    }
}

proof fn lemma_plain_token(k: Seq<char>)
    requires
        !k.contains('~'),
    ensures
        unescape_token(k) == k,
{
    assert(seq!['~', '1'][0] == '~');
    assert(seq!['~', '0'][0] == '~');
    lemma_replace_absent(k, seq!['~', '1'], seq!['/']);
    lemma_replace_absent(k, seq!['~', '0'], seq!['~']);
}

/// A pointer is followed one token at a time: `/k` followed by the rest `q` (a
/// pointer itself) names in `v` what `q` names in the value that `/k` names, for
/// any token `k` without `/` or `~`.
pub proof fn law_pointer_step_by_step(v: JsonView, k: Seq<char>, q: Seq<char>)
    requires
        !k.contains('/'),
        !k.contains('~'),
        q.len() == 0 || q[0] == '/',
    ensures
        pointer_get(v, seq!['/'] + k + q) == match pointer_get(v, seq!['/'] + k) {
            Some(w) => pointer_get(w, q),
            None => None,
        },
{
    let p = seq!['/'] + k + q;
    let p1 = seq!['/'] + k;
    assert(p.drop_first() =~= k + q);
    assert(p1.drop_first() =~= k + Seq::<char>::empty());
    assert(p[0] == '/');
    assert(p1[0] == '/');
    lemma_slash_free(k, q);
    lemma_slash_free(k, Seq::<char>::empty());
    lemma_plain_token(k);
    assert((k + q).take(k.len() as int) =~= k);
    assert((k + Seq::<char>::empty()).take(k.len() as int) =~= k);
    assert((k + Seq::<char>::empty()).len() == k.len());
    if q.len() > 0 {
        assert((k + q).skip((k.len() + 1) as int) =~= q.drop_first());
    } else {
        assert(k + q =~= k + Seq::<char>::empty());
    }
}

/// One token names a member: `/k` names in an object the value under key `k`
/// (for `k` without `/` or `~`), and `/n` in an array its element at index `n`,
/// written in decimal (an index that fits in `usize`).
pub proof fn law_pointer_token(es: Seq<(Seq<char>, JsonView)>, xs: Seq<JsonView>, k: Seq<char>, n: nat)
    requires
        !k.contains('/'),
        !k.contains('~'),
    ensures
        pointer_get(JsonView::Object(es), seq!['/'] + k) == entry_lookup(es, k),
        n < xs.len() && n <= usize::MAX ==> pointer_get(JsonView::Array(xs), seq!['/'] + decimal(n)) == Some(xs[n as int]),
{
    let p1 = seq!['/'] + k;
    assert(p1.drop_first() =~= k + Seq::<char>::empty());
    assert(p1[0] == '/');
    lemma_slash_free(k, Seq::<char>::empty());
    lemma_plain_token(k);
    assert((k + Seq::<char>::empty()) =~= k);
    assert(k.take(k.len() as int) =~= k);
    if n < xs.len() && n <= usize::MAX {
        let d = decimal(n);
        lemma_decimal(n);
        let p2 = seq!['/'] + d;
        assert(p2.drop_first() =~= d + Seq::<char>::empty());
        assert(p2[0] == '/');
        lemma_slash_free(d, Seq::<char>::empty());
        lemma_plain_token(d);
        assert((d + Seq::<char>::empty()) =~= d);
        assert(d.take(d.len() as int) =~= d);
        assert(index_token(d) == Some(n as usize));
    }
}

} // verus!
