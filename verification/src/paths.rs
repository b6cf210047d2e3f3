use vstd::prelude::*;
use crate::text::{to_chars, string_from_chars, string_of, chars_occur_at, starts_with};

verus! {

/// `s` with every occurrence of `from` replaced by `to`.
pub open spec fn replace_char(s: Seq<char>, from: char, to: char) -> Seq<char> {
    s.map_values(|c: char| if c == from { to } else { c })
}

/// `s` with the non-overlapping occurrences of `pat`, found left to right, replaced by `rep`.
pub open spec fn replace_all(s: Seq<char>, pat: Seq<char>, rep: Seq<char>) -> Seq<char>
    recommends
        pat.len() > 0,
    decreases s.len(),
{
    if pat.len() == 0 || s.len() < pat.len() {
        s
    } else if s.take(pat.len() as int) == pat {
        rep + replace_all(s.skip(pat.len() as int), pat, rep)
    } else {
        seq![s[0]] + replace_all(s.skip(1), pat, rep)
    }
}

/// `s` with every run of two or more dots shrunk to a single dot.
pub open spec fn squeeze_dots(s: Seq<char>) -> Seq<char>
    decreases s.len(),
{
    if s.len() == 0 {
        s
    } else if s.len() >= 2 && s[0] == '.' && s[1] == '.' {
        squeeze_dots(s.skip(1))
    } else {
        seq![s[0]] + squeeze_dots(s.skip(1))
    }
}

/// `s` without its leading dots.
pub open spec fn trim_leading_dots(s: Seq<char>) -> Seq<char>
    decreases s.len(),
{
    if s.len() > 0 && s[0] == '.' {
        trim_leading_dots(s.skip(1))
    } else {
        s
    }
}

/// `s` without its trailing dots.
pub open spec fn trim_trailing_dots(s: Seq<char>) -> Seq<char>
    decreases s.len(),
{
    if s.len() > 0 && s.last() == '.' {
        trim_trailing_dots(s.drop_last())
    } else {
        s
    }
}

/// The JSON pointer form of a variable path: empty stays empty, `#/a/b` and
/// `/a/b` become `/a/b`, and a dotted path `a.b` becomes `/a/b`.
pub open spec fn json_pointer_of(s: Seq<char>) -> Seq<char> {
    if s.len() == 0 {
        s
    } else if starts_with(s, seq!['#', '/']) {
        s.skip(1)
    } else if s[0] == '/' {
        s
    } else {
        seq!['/'] + replace_char(s, '.', '/')
    }
}

/// The dotted form of a schema reference path: the leading `#/` or `/` is dropped,
/// slashes become dots, `properties.` and `.properties.` segments are removed,
/// runs of dots are squeezed and outer dots trimmed.
pub open spec fn dotted_ref_path(s: Seq<char>) -> Seq<char> {
    let a = if starts_with(s, seq!['#', '/']) {
        s.skip(2)
    } else if s.len() > 0 && s[0] == '/' {
        s.skip(1)
    } else {
        s
    };
    let b = replace_char(a, '/', '.');
    let c = replace_all(b, seq!['p', 'r', 'o', 'p', 'e', 'r', 't', 'i', 'e', 's', '.'], seq![]);
    let d = replace_all(
        c,
        seq!['.', 'p', 'r', 'o', 'p', 'e', 'r', 't', 'i', 'e', 's', '.'],
        seq!['.'],
    );
    trim_trailing_dots(trim_leading_dots(squeeze_dots(d)))
}

fn map_char(cs: &Vec<char>, from: char, to: char) -> (res: Vec<char>)
    ensures
        res@ == replace_char(cs@, from, to),
{
    let mut res: Vec<char> = Vec::new();
    let mut i: usize = 0;
    while i < cs.len()
        invariant
            i <= cs@.len(),
            res@ == replace_char(cs@.take(i as int), from, to),
        decreases cs@.len() - i,
    {
        let c = cs[i];
        res.push(if c == from { to } else { c });
        i = i + 1;
        assert(cs@.take(i as int) =~= cs@.take(i - 1).push(c));
        assert(res@ =~= replace_char(cs@.take(i as int), from, to));
    }
    assert(cs@.take(cs@.len() as int) =~= cs@);
    res
}

proof fn lemma_replace_all_step(s: Seq<char>, pat: Seq<char>, rep: Seq<char>, i: int)
    requires
        pat.len() > 0,
        0 <= i <= s.len(),
    ensures
        i + pat.len() <= s.len() && s.subrange(i, i + pat.len()) == pat ==> replace_all(
            s.skip(i),
            pat,
            rep,
        ) == rep + replace_all(s.skip(i + pat.len()), pat, rep),
        i < s.len() && !(i + pat.len() <= s.len() && s.subrange(i, i + pat.len()) == pat)
            ==> replace_all(s.skip(i), pat, rep) == seq![s[i]] + replace_all(s.skip(i + 1), pat, rep),
        i + pat.len() > s.len() ==> replace_all(s.skip(i), pat, rep) == s.skip(i),
{
    let t = s.skip(i);
    if i + pat.len() <= s.len() {
        assert(t.skip(pat.len() as int) =~= s.skip(i + pat.len()));
        assert(t.take(pat.len() as int) =~= s.subrange(i, i + pat.len()));
    }
    if i < s.len() {
        assert(t.skip(1) =~= s.skip(i + 1));
    }
}

pub(crate) fn replace_chars(cs: &Vec<char>, pat: &Vec<char>, rep: &Vec<char>) -> (res: Vec<char>)
    requires
        pat@.len() > 0,
    ensures
        res@ == replace_all(cs@, pat@, rep@),
{
    let mut res: Vec<char> = Vec::new();
    let mut i: usize = 0;
    assert(cs@.skip(0) =~= cs@);
    while i < cs.len()
        invariant
            pat@.len() > 0,
            i <= cs@.len(),
            res@ + replace_all(cs@.skip(i as int), pat@, rep@) == replace_all(cs@, pat@, rep@),
        decreases cs@.len() - i,
    {
        proof {
            lemma_replace_all_step(cs@, pat@, rep@, i as int);
        }
        if chars_occur_at(cs, pat, i) {
            let mut k: usize = 0;
            let ghost before = res@;
            while k < rep.len()
                invariant
                    k <= rep@.len(),
                    res@ == before + rep@.take(k as int),
                decreases rep@.len() - k,
            {
                res.push(rep[k]);
                k = k + 1;
                assert(res@ =~= before + rep@.take(k as int));
            }
            assert(rep@.take(rep@.len() as int) =~= rep@);
            assert(res@ + replace_all(cs@.skip(i + pat@.len()), pat@, rep@) =~= before + (rep@
                + replace_all(cs@.skip(i + pat@.len()), pat@, rep@)));
            i = i + pat.len();
        } else if pat.len() > cs.len() - i {
            assert(replace_all(cs@.skip(i as int), pat@, rep@) == cs@.skip(i as int));
            while i < cs.len()
                invariant
                    i <= cs@.len(),
                    res@ + cs@.skip(i as int) == replace_all(cs@, pat@, rep@),
                decreases cs@.len() - i,
            {
                res.push(cs[i]);
                i = i + 1;
                assert(res@ + cs@.skip(i as int) =~= res@.drop_last() + cs@.skip(i - 1));
            }
            assert(cs@.skip(i as int) =~= Seq::<char>::empty());
            assert(res@ =~= res@ + cs@.skip(i as int));
            assert(replace_all(cs@.skip(i as int), pat@, rep@) =~= Seq::<char>::empty());
        } else {
            let ghost before = res@;
            res.push(cs[i]);
            assert(res@ + replace_all(cs@.skip(i + 1), pat@, rep@) =~= before + (seq![cs@[i as int]]
                + replace_all(cs@.skip(i + 1), pat@, rep@)));
            i = i + 1;
        }
    }
    assert(cs@.skip(i as int) =~= Seq::<char>::empty());
    assert(res@ + Seq::<char>::empty() =~= res@);
    res
}

fn squeeze_dot_chars(cs: &Vec<char>) -> (res: Vec<char>)
    ensures
        res@ == squeeze_dots(cs@),
{
    let mut res: Vec<char> = Vec::new();
    let mut i: usize = 0;
    assert(cs@.skip(0) =~= cs@);
    while i < cs.len()
        invariant
            i <= cs@.len(),
            res@ + squeeze_dots(cs@.skip(i as int)) == squeeze_dots(cs@),
        decreases cs@.len() - i,
    {
        let t = Ghost(cs@.skip(i as int));
        assert(t@.skip(1) =~= cs@.skip(i + 1));
        if i + 1 < cs.len() && cs[i] == '.' && cs[i + 1] == '.' {
        } else {
            let ghost before = res@;
            res.push(cs[i]);
            assert(res@ + squeeze_dots(cs@.skip(i + 1)) =~= before + (seq![cs@[i as int]]
                + squeeze_dots(cs@.skip(i + 1))));
        }
        i = i + 1;
    }
    assert(cs@.skip(i as int) =~= Seq::<char>::empty());
    assert(res@ + Seq::<char>::empty() =~= res@);
    res
}

fn trim_dot_chars(cs: &Vec<char>) -> (res: Vec<char>)
    ensures
        res@ == trim_trailing_dots(trim_leading_dots(cs@)),
{
    let mut lo: usize = 0;
    assert(cs@.skip(0) =~= cs@);
    while lo < cs.len() && cs[lo] == '.'
        invariant
            lo <= cs@.len(),
            trim_leading_dots(cs@.skip(lo as int)) == trim_leading_dots(cs@),
        decreases cs@.len() - lo,
    {
        assert(cs@.skip(lo as int).skip(1) =~= cs@.skip(lo + 1));
        lo = lo + 1;
    }
    let ghost t = cs@.skip(lo as int);
    assert(trim_leading_dots(cs@) == t);
    let mut hi: usize = cs.len();
    assert(t.take(t.len() as int) =~= t);
    while hi > lo && cs[hi - 1] == '.'
        invariant
            lo <= hi <= cs@.len(),
            t == cs@.skip(lo as int),
            trim_trailing_dots(cs@.subrange(lo as int, hi as int)) == trim_trailing_dots(t),
        decreases hi,
    {
        assert(cs@.subrange(lo as int, hi as int).drop_last() =~= cs@.subrange(lo as int, hi - 1));
        hi = hi - 1;
    }
    assert(cs@.subrange(lo as int, cs@.len() as int) =~= t);
    let mut res: Vec<char> = Vec::new();
    let mut k = lo;
    while k < hi
        invariant
            lo <= k <= hi <= cs@.len(),
            res@ == cs@.subrange(lo as int, k as int),
        decreases hi - k,
    {
        res.push(cs[k]);
        k = k + 1;
        assert(res@ =~= cs@.subrange(lo as int, k as int));
    }
    res
}

/// Normalize a variable or reference path to JSON pointer form
/// (`a.b`, `/a/b` and `#/a/b` all become `/a/b`; the empty path stays empty).
pub fn normalize_to_json_pointer(path: &str) -> (res: String)
    ensures
        res@ == json_pointer_of(path@),
{
    let cs = to_chars(path);
    if cs.len() == 0 {
        return String::new();
    }
    if cs.len() >= 2 && cs[0] == '#' && cs[1] == '/' {
        assert(starts_with(cs@, seq!['#', '/'])) by {
            assert(cs@.take(2) =~= seq!['#', '/']);
        }
        return string_from_chars(&cs, 1, cs.len());
    }
    assert(!starts_with(cs@, seq!['#', '/'])) by {
        if starts_with(cs@, seq!['#', '/']) {
            assert(cs@.take(2)[0] == '#' && cs@.take(2)[1] == '/');
        }
    }
    if cs[0] == '/' {
        let r = string_of(&cs);
        return r;
    }
    let mapped = map_char(&cs, '.', '/');
    let mut out: Vec<char> = Vec::new();
    out.push('/');
    let mut i: usize = 0;
    while i < mapped.len()
        invariant
            i <= mapped@.len(),
            out@ == seq!['/'] + mapped@.take(i as int),
        decreases mapped@.len() - i,
    {
        out.push(mapped[i]);
        i = i + 1;
        assert(out@ =~= seq!['/'] + mapped@.take(i as int));
    }
    assert(mapped@.take(mapped@.len() as int) =~= mapped@);
    string_of(&out)
}

/// Normalize a `$ref`/`var` path to JSON pointer form (see `normalize_to_json_pointer`).
pub fn normalize_ref_path(path: &str) -> (res: String)
    ensures
        res@ == json_pointer_of(path@),
{
    normalize_to_json_pointer(path)
}

/// The dotted form of a schema reference path (see `dotted_ref_path`).
pub fn ref_path_to_dotted(path: &str) -> (res: String)
    ensures
        res@ == dotted_ref_path(path@),
{
    let cs = to_chars(path);
    let a: Vec<char>;
    if cs.len() >= 2 && cs[0] == '#' && cs[1] == '/' {
        assert(starts_with(cs@, seq!['#', '/'])) by {
            assert(cs@.take(2) =~= seq!['#', '/']);
        }
        let s = string_from_chars(&cs, 2, cs.len());
        a = to_chars(s.as_str());
        assert(cs@.subrange(2, cs@.len() as int) =~= cs@.skip(2));
    } else {
        assert(!starts_with(cs@, seq!['#', '/'])) by {
            if starts_with(cs@, seq!['#', '/']) {
                assert(cs@.take(2)[0] == '#' && cs@.take(2)[1] == '/');
            }
        }
        if cs.len() > 0 && cs[0] == '/' {
            let s = string_from_chars(&cs, 1, cs.len());
            a = to_chars(s.as_str());
            assert(cs@.subrange(1, cs@.len() as int) =~= cs@.skip(1));
        } else {
            a = cs;
        }
    }
    let b = map_char(&a, '/', '.');
    let pat1: Vec<char> = vec!['p', 'r', 'o', 'p', 'e', 'r', 't', 'i', 'e', 's', '.'];
    let empty: Vec<char> = Vec::new();
    let c = replace_chars(&b, &pat1, &empty);
    let pat2: Vec<char> = vec!['.', 'p', 'r', 'o', 'p', 'e', 'r', 't', 'i', 'e', 's', '.'];
    let dot: Vec<char> = vec!['.'];
    let d = replace_chars(&c, &pat2, &dot);
    assert(pat1@ =~= seq!['p', 'r', 'o', 'p', 'e', 'r', 't', 'i', 'e', 's', '.']);
    assert(pat2@ =~= seq!['.', 'p', 'r', 'o', 'p', 'e', 'r', 't', 'i', 'e', 's', '.']);
    assert(dot@ =~= seq!['.']);
    assert(empty@ =~= Seq::<char>::empty());
    let e = squeeze_dot_chars(&d);
    let f = trim_dot_chars(&e);
    string_of(&f)
}


/// The dotted form of a variable's name as compiled: a leading `/` is dropped
/// and the other slashes become dots (`/user/age` becomes `user.age`).
pub open spec fn dotted_var_name(s: Seq<char>) -> Seq<char> {
    if s.len() > 0 && s[0] == '/' {
        replace_char(s.skip(1), '/', '.')
    } else {
        replace_char(s, '/', '.')
    }
}

/// The dotted form of a compiled variable name (see `dotted_var_name`).
pub fn var_name_to_dotted(name: &str) -> (res: String)
    ensures
        res@ == dotted_var_name(name@),
{
    let cs = to_chars(name);
    if cs.len() > 0 && cs[0] == '/' {
        let rest = to_chars(string_from_chars(&cs, 1, cs.len()).as_str());
        assert(cs@.subrange(1, cs@.len() as int) =~= cs@.skip(1));
        string_of(&map_char(&rest, '/', '.'))
    } else {
        string_of(&map_char(&cs, '/', '.'))
    }
}

/// A dotted variable name (not empty, without slashes, not starting with `#`)
/// comes back unchanged from its JSON pointer form: `a.b` compiles to `/a/b`
/// and is reported as `a.b`.
pub proof fn law_var_name_round_trip(s: Seq<char>)
    requires
        s.len() > 0,
        !s.contains('/'),
        s[0] != '#',
    ensures
        dotted_var_name(json_pointer_of(s)) == s,
{
    assert(!starts_with(s, seq!['#', '/'])) by {
        if starts_with(s, seq!['#', '/']) {
            assert(s.take(2)[0] == '#');
        }
    }
    assert(s[0] != '/') by {
        if s[0] == '/' {
            assert(s.contains(s[0]));
        }
    }
    let p = seq!['/'] + replace_char(s, '.', '/');
    assert(json_pointer_of(s) == p);
    assert(p[0] == '/');
    assert(p.skip(1) =~= replace_char(s, '.', '/'));
    assert forall|i: int| 0 <= i < s.len() implies #[trigger] s[i] != '/' by {
        if s[i] == '/' {
            assert(s.contains(s[i]));
        }
    }
    assert(replace_char(replace_char(s, '.', '/'), '/', '.') =~= s);
}

/// The three ways of writing a variable path name one pointer: for a dotted
/// name `s` with pointer form `p`, the pointer `p` and the fragment `#p` both
/// have the pointer form `p` again, and `p` starts with `/`.
pub proof fn law_path_forms_agree(s: Seq<char>)
    requires
        s.len() > 0,
        !s.contains('/'),
        s[0] != '#',
    ensures
        json_pointer_of(s).len() > 0 && json_pointer_of(s)[0] == '/',
        json_pointer_of(json_pointer_of(s)) == json_pointer_of(s),
        json_pointer_of(seq!['#'] + json_pointer_of(s)) == json_pointer_of(s),
{
    assert(!starts_with(s, seq!['#', '/'])) by {
        if starts_with(s, seq!['#', '/']) {
            assert(s.take(2)[0] == '#');
        }
    }
    assert(s[0] != '/') by {
        if s[0] == '/' {
            assert(s.contains(s[0]));
        }
    }
    let p = seq!['/'] + replace_char(s, '.', '/');
    assert(json_pointer_of(s) == p);
    assert(p[0] == '/');
    assert(!starts_with(p, seq!['#', '/'])) by {
        if starts_with(p, seq!['#', '/']) {
            assert(p.take(2)[0] == '#');
        }
    }
    let h = seq!['#'] + p;
    assert(h.take(2) =~= seq!['#', '/']);
    assert(starts_with(h, seq!['#', '/']));
    assert(h.skip(1) =~= p);
}

} // verus!
