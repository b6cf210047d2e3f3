//! Dotted data paths (`a.b.0.c`) and lookups along them.

use vstd::prelude::*;
use crate::json::{JsonValue, JsonView, json_views, entry_views};
use crate::text::{to_chars, string_from_chars};

verus! {

/// One step of a path: an object key or an array index.
#[derive(Debug, Clone, PartialEq, Eq, Hash)]
pub enum PathSegment {
    Key(String),
    Index(usize),
}

/// The model of a path step.
pub enum SegmentView {
    Key(Seq<char>),
    Index(usize),
}

impl View for PathSegment {
    type V = SegmentView;

    open spec fn view(&self) -> SegmentView {
        match self {
            PathSegment::Key(k) => SegmentView::Key(k@),
            PathSegment::Index(i) => SegmentView::Index(*i),
        }
    }
}

/// The models of a sequence of path steps.
pub open spec fn segment_views(s: Seq<PathSegment>) -> Seq<SegmentView> {
    Seq::new(s.len(), |i: int| s[i]@)
}

pub open spec fn is_digit(c: char) -> bool {
    '0' <= c && c <= '9'
}

/// The number written by the decimal digits `d`.
pub open spec fn digits_value(d: Seq<char>) -> nat
    decreases d.len(),
{
    if d.len() == 0 {
        0
    } else {
        digits_value(d.drop_last()) * 10 + ((d.last() as int) - ('0' as int)) as nat
    }
}

/// What `str::parse::<usize>` gives: an optional `+`, then at least one decimal
/// digit and nothing else, with a value that fits in `usize`.
pub open spec fn usize_of_text(t: Seq<char>) -> Option<usize> {
    digits_usize(if t.len() > 0 && t[0] == '+' { t.skip(1) } else { t })
}

/// Every character of `d` is a decimal digit.
pub open spec fn all_digits(d: Seq<char>) -> bool {
    forall|i: int| 0 <= i < d.len() ==> is_digit(#[trigger] d[i])
}

/// The value of a non-empty run of digits, if it fits in `usize`.
pub open spec fn digits_usize(d: Seq<char>) -> Option<usize> {
    if d.len() > 0 && all_digits(d) && digits_value(d) <= usize::MAX {
        Some(digits_value(d) as usize)
    } else {
        None
    }
}

/// After reading `s[..n]`: the non-empty dot-separated parts finished so far,
/// and the part being read.
pub open spec fn parts_upto(s: Seq<char>, n: nat) -> (Seq<Seq<char>>, Seq<char>)
    decreases n,
{
    if n == 0 || n > s.len() {
        (seq![], seq![])
    } else {
        let (ps, cur) = parts_upto(s, (n - 1) as nat);
        if s[n - 1] == '.' {
            (if cur.len() > 0 { ps.push(cur) } else { ps }, seq![])
        } else {
            (ps, cur.push(s[n - 1]))
        }
    }
}

/// The non-empty parts of `s` between dots, in order.
pub open spec fn path_parts(s: Seq<char>) -> Seq<Seq<char>> {
    let (ps, cur) = parts_upto(s, s.len());
    if cur.len() > 0 { ps.push(cur) } else { ps }
}

/// The step a part stands for: an index where it parses as `usize`, a key otherwise.
pub open spec fn segment_of(part: Seq<char>) -> SegmentView {
    match usize_of_text(part) {
        Some(i) => SegmentView::Index(i),
        None => SegmentView::Key(part),
    }
}

/// The steps of a dotted path.
pub open spec fn path_segments(s: Seq<char>) -> Seq<SegmentView> {
    path_parts(s).map_values(|p: Seq<char>| segment_of(p))
}

proof fn lemma_digits_value_prefix(d: Seq<char>, i: int)
    requires
        0 <= i <= d.len(),
        all_digits(d),
    ensures
        digits_value(d.take(i)) <= digits_value(d),
    decreases d.len() - i,
{
    if i < d.len() {
        lemma_digits_value_prefix(d, i + 1);
        assert(d.take(i + 1).drop_last() =~= d.take(i));
        assert(d.take(i + 1).last() == d[i]);
        assert(is_digit(d[i]));
        assert(digits_value(d.take(i + 1)) == digits_value(d.take(i)) * 10 + ((d[i] as int) - ('0' as int)) as nat);
    } else {
        assert(d.take(i) =~= d);
    }
}

/// `str::parse::<usize>` of `cs[from..to]` (see `usize_of_text`).
pub(crate) fn parse_usize(cs: &Vec<char>, from: usize, to: usize) -> (res: Option<usize>)
    requires
        from <= to <= cs@.len(),
    ensures
        res == usize_of_text(cs@.subrange(from as int, to as int)),
{
    let ghost t = cs@.subrange(from as int, to as int);
    let mut i = from;
    if i < to && cs[i] == '+' {
        i = i + 1;
    }
    let ghost d = cs@.subrange(i as int, to as int);
    assert(d =~= (if t.len() > 0 && t[0] == '+' { t.skip(1) } else { t }));
    if i == to {
        return None;
    }
    let start = i;
    let mut v: usize = 0;
    assert(d.take(0) =~= Seq::<char>::empty());
    while i < to
        invariant
            start <= i <= to <= cs@.len(),
            t == cs@.subrange(from as int, to as int),
            d == (if t.len() > 0 && t[0] == '+' { t.skip(1) } else { t }),
            d.len() > 0,
            d == cs@.subrange(start as int, to as int),
            forall|j: int| 0 <= j < i - start ==> is_digit(#[trigger] d[j]),
            v == digits_value(d.take(i - start)),
        decreases to - i,
    {
        let c = cs[i];
        if !('0' <= c && c <= '9') {
            assert(!is_digit(d[i - start]));
            return None;
        }
        let digit = (c as u32 - '0' as u32) as usize;
        assert(d.take(i - start + 1).drop_last() =~= d.take(i - start));
        assert(d.take(i - start + 1).last() == c);
        if v > (usize::MAX - digit) / 10 {
            proof {
                assert(v * 10 + digit > usize::MAX) by (nonlinear_arith)
                    requires
                        v > (usize::MAX - digit) / 10,
                        digit <= 9,
                ;
                if all_digits(d) {
                    lemma_digits_value_prefix(d, i - start + 1);
                }
            }
            return None;
        }
        proof {
            assert(v * 10 + digit <= usize::MAX) by (nonlinear_arith)
                requires
                    v <= (usize::MAX - digit) / 10,
                    digit <= 9,
            ;
        }
        v = v * 10 + digit;
        i = i + 1;
    }
    assert(d.take(d.len() as int) =~= d);
    Some(v)
}

/// Split a dotted path into steps: empty parts are skipped, a part that parses
/// as `usize` is an index, any other part a key.
pub fn parse_path(path: &str) -> (res: Vec<PathSegment>)
    ensures
        segment_views(res@) == path_segments(path@),
{
    let cs = to_chars(path);
    let mut out: Vec<PathSegment> = Vec::new();
    let mut start: usize = 0;
    let mut i: usize = 0;
    while i < cs.len()
        invariant
            cs@ == path@,
            start <= i <= cs@.len(),
            parts_upto(cs@, i as nat).1 == cs@.subrange(start as int, i as int),
            segment_views(out@) == parts_upto(cs@, i as nat).0.map_values(|p: Seq<char>| segment_of(p)),
        decreases cs@.len() - i,
    {
        if cs[i] == '.' {
            if start < i {
                let seg = match parse_usize(&cs, start, i) {
                    Some(n) => PathSegment::Index(n),
                    None => PathSegment::Key(string_from_chars(&cs, start, i)),
                };
                let ghost prev = out@;
                out.push(seg);
                proof {
                    assert(segment_views(out@) =~= segment_views(prev).push(seg@));
                    let ps = parts_upto(cs@, i as nat).0;
                    let cur = parts_upto(cs@, i as nat).1;
                    assert(ps.push(cur).map_values(|p: Seq<char>| segment_of(p))
                        =~= ps.map_values(|p: Seq<char>| segment_of(p)).push(segment_of(cur)));
                }
            }
            start = i + 1;
        } else {
            proof {
                assert(cs@.subrange(start as int, i + 1) =~= cs@.subrange(start as int, i as int).push(cs@[i as int]));
            }
        }
        i = i + 1;
        proof {
            assert(parts_upto(cs@, i as nat).1 =~= cs@.subrange(start as int, i as int));
        }
    }
    if start < cs.len() {
        let seg = match parse_usize(&cs, start, cs.len()) {
            Some(n) => PathSegment::Index(n),
            None => PathSegment::Key(string_from_chars(&cs, start, cs.len())),
        };
        let ghost prev = out@;
        out.push(seg);
        proof {
            assert(segment_views(out@) =~= segment_views(prev).push(seg@));
            let ps = parts_upto(cs@, cs@.len()).0;
            let cur = parts_upto(cs@, cs@.len()).1;
            assert(ps.push(cur).map_values(|p: Seq<char>| segment_of(p))
                =~= ps.map_values(|p: Seq<char>| segment_of(p)).push(segment_of(cur)));
        }
    }
    out
}

/// The value of the first entry of `es` under key `k`.
pub open spec fn entry_lookup(es: Seq<(Seq<char>, JsonView)>, k: Seq<char>) -> Option<JsonView>
    decreases es.len(),
{
    if es.len() == 0 {
        None
    } else if es[0].0 == k {
        Some(es[0].1)
    } else {
        entry_lookup(es.drop_first(), k)
    }
}

/// One step down from `v`: a key of an object or an index of an array.
pub open spec fn step(v: JsonView, s: SegmentView) -> Option<JsonView> {
    match (s, v) {
        (SegmentView::Key(k), JsonView::Object(es)) => entry_lookup(es, k),
        (SegmentView::Index(i), JsonView::Array(xs)) => if i < xs.len() { Some(xs[i as int]) } else { None },
        _ => None,
    }
}

/// The value reached from `v` along `segs`, if every step exists.
pub open spec fn walk(v: JsonView, segs: Seq<SegmentView>) -> Option<JsonView>
    decreases segs.len(),
{
    if segs.len() == 0 {
        Some(v)
    } else {
        match step(v, segs[0]) {
            Some(w) => walk(w, segs.drop_first()),
            None => None,
        }
    }
}

/// The value stored under key `k` in `es`, found as `entry_lookup` finds it.
pub(crate) fn lookup_entry<'a>(es: &'a Vec<(String, JsonValue)>, k: &String) -> (res: Option<&'a JsonValue>)
    ensures
        match res {
            Some(r) => entry_lookup(entry_views(es@), k@) == Some(r@),
            None => entry_lookup(entry_views(es@), k@) is None,
        },
{
    let ghost ev = entry_views(es@);
    let mut i: usize = 0;
    assert(ev.skip(0) =~= ev);
    while i < es.len()
        invariant
            i <= es@.len(),
            ev == entry_views(es@),
            entry_lookup(ev, k@) == entry_lookup(ev.skip(i as int), k@),
        decreases es@.len() - i,
    {
        assert(ev.skip(i as int)[0] == ev[i as int]);
        assert(ev.skip(i as int).drop_first() =~= ev.skip(i + 1));
        if crate::text::str_eq(es[i].0.as_str(), k.as_str()) {
            return Some(&es[i].1);
        }
        i = i + 1;
    }
    None
}

/// Follow `segments` down from `value` (see `walk`).
pub fn traverse<'a>(value: &'a JsonValue, segments: &[PathSegment]) -> (res: Option<&'a JsonValue>)
    ensures
        match res {
            Some(r) => walk(value@, segment_views(segments@)) == Some(r@),
            None => walk(value@, segment_views(segments@)) is None,
        },
{
    let ghost sv = segment_views(segments@);
    let mut current = value;
    let mut i: usize = 0;
    assert(sv.skip(0) =~= sv);
    while i < segments.len()
        invariant
            i <= segments@.len(),
            sv == segment_views(segments@),
            walk(value@, sv) == walk(current@, sv.skip(i as int)),
        decreases segments@.len() - i,
    {
        let ghost rest = sv.skip(i as int);
        assert(rest[0] == segments@[i as int]@);
        assert(rest.drop_first() =~= sv.skip(i + 1));
        let next = match (&segments[i], current) {
            (PathSegment::Key(key), JsonValue::Object(map)) => lookup_entry(map, key),
            (PathSegment::Index(index), JsonValue::Array(arr)) => {
                if *index < arr.len() {
                    Some(&arr[*index])
                } else {
                    None
                }
            },
            _ => None,
        };
        match next {
            Some(n) => {
                current = n;
            },
            None => {
                return None;
            },
        }
        i = i + 1;
    }
    assert(sv.skip(i as int).len() == 0);
    Some(current)
}

/// The position of the first entry of `es` under key `k`.
pub open spec fn key_position(es: Seq<(Seq<char>, JsonView)>, k: Seq<char>) -> Option<nat>
    decreases es.len(),
{
    if es.len() == 0 {
        None
    } else if es[0].0 == k {
        Some(0)
    } else {
        match key_position(es.drop_first(), k) {
            Some(j) => Some(j + 1),
            None => None,
        }
    }
}

pub proof fn lemma_key_position(es: Seq<(Seq<char>, JsonView)>, k: Seq<char>)
    ensures
        match key_position(es, k) {
            Some(j) => j < es.len() && es[j as int].0 == k && entry_lookup(es, k) == Some(es[j as int].1)
                && forall|i: int| 0 <= i < j ==> #[trigger] es[i].0 != k,
            None => entry_lookup(es, k) is None && forall|i: int| 0 <= i < es.len() ==> #[trigger] es[i].0 != k,
        },
    decreases es.len(),
{
    if es.len() > 0 && es[0].0 != k {
        lemma_key_position(es.drop_first(), k);
        match key_position(es.drop_first(), k) {
            Some(j) => {
                assert forall|i: int| 0 <= i < j + 1 implies #[trigger] es[i].0 != k by {
                    if i > 0 {
                        assert(es[i] == es.drop_first()[i - 1]);
                    }
                }
            },
            None => {
                assert forall|i: int| 0 <= i < es.len() implies #[trigger] es[i].0 != k by {
                    if i > 0 {
                        assert(es[i] == es.drop_first()[i - 1]);
                    }
                }
            },
        }
    }
}

/// The position of the first entry of `es` under key `k` (see `key_position`).
pub fn find_key(es: &Vec<(String, JsonValue)>, k: &str) -> (res: Option<usize>)
    ensures
        match res {
            Some(j) => key_position(entry_views(es@), k@) == Some(j as nat),
            None => key_position(entry_views(es@), k@) is None,
        },
{
    let ghost ev = entry_views(es@);
    let mut i: usize = 0;
    proof {
        lemma_key_position(ev, k@);
    }
    while i < es.len()
        invariant
            i <= es@.len(),
            ev == entry_views(es@),
            forall|j: int| 0 <= j < i ==> #[trigger] ev[j].0 != k@,
        decreases es@.len() - i,
    {
        if crate::text::str_eq(es[i].0.as_str(), k) {
            assert(ev[i as int].0 == k@);
            proof {
                lemma_key_position(ev, k@);
                match key_position(ev, k@) {
                    Some(j) => {
                        if j < i {
                            assert(ev[j as int].0 != k@);
                        }
                        if j > i {
                            assert(ev[i as int].0 != k@);
                        }
                    },
                    None => {
                        assert(ev[i as int].0 != k@);
                    },
                }
            }
            return Some(i);
        }
        i = i + 1;
    }
    proof {
        lemma_key_position(ev, k@);
        if key_position(ev, k@) is Some {
            let j = key_position(ev, k@)->0;
            assert(ev[j as int].0 != k@);
        }
    }
    None
}

} // verus!
