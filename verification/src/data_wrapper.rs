//! Data with version tracking: every write bumps a version counter and records,
//! per written path, the version at which it was written, so that cached results
//! can tell whether the fields they read have changed.

use vstd::prelude::*;
use rustc_hash::{FxBuildHasher, FxHashMap};
use std::collections::HashMap;
use crate::json::{JsonValue, JsonView, json_views, entry_views, lemma_json_views_push, lemma_entry_views_push};
use crate::path::{
    PathSegment, SegmentView, segment_views, path_segments, parse_path, traverse, walk, entry_lookup, step,
    key_position, lemma_key_position, find_key,
};
use crate::text::copy_string;

verus! {

#[verifier::external_type_specification]
#[verifier::external_body]
pub struct ExFxBuildHasher(FxBuildHasher);

/// Version tracker for data mutations.
#[derive(Debug, Clone, Copy, PartialEq, Eq, Structural, Hash)]
pub struct DataVersion(pub u64);

/// What a table of field versions holds, by path.
pub uninterp spec fn version_table(m: HashMap<String, u64, FxBuildHasher>) -> Map<Seq<char>, u64>;

/// No path has a version.
pub open spec fn no_versions() -> Map<Seq<char>, u64> {
    Map::empty()
}

/// `FxHashMap::default()`: an empty table.
#[verifier::external_body]
fn versions_new() -> (res: FxHashMap<String, u64>)
    ensures
        version_table(res) == no_versions(),
{
    FxHashMap::default()
}

/// `HashMap::get` by a path, copying the version out.
#[verifier::external_body]
fn versions_get(m: &FxHashMap<String, u64>, path: &str) -> (res: Option<u64>)
    ensures
        res == (if version_table(*m).contains_key(path@) { Some(version_table(*m)[path@]) } else { None }),
{
    m.get(path).copied()
}

/// `HashMap::insert`: `path` now has version `v`, the other paths keep theirs.
#[verifier::external_body]
fn versions_insert(m: &mut FxHashMap<String, u64>, path: String, v: u64)
    ensures
        version_table(*final(m)) == version_table(*old(m)).insert(path@, v),
{
    m.insert(path, v);
}

/// `HashMap::clone`: a table with the same contents.
#[verifier::external_body]
fn versions_clone(m: &FxHashMap<String, u64>) -> (res: FxHashMap<String, u64>)
    ensures
        version_table(res) == version_table(*m),
{
    m.clone()
}

// ---------------------------------------------------------------------------
// Writing along a path.

/// `es` with key `k` set to `v`: the first entry under `k` is replaced in place,
/// or a new entry is appended.
pub open spec fn entry_set(es: Seq<(Seq<char>, JsonView)>, k: Seq<char>, v: JsonView) -> Seq<(Seq<char>, JsonView)> {
    match key_position(es, k) {
        Some(j) => es.update(j as int, (k, v)),
        None => es.push((k, v)),
    }
}

/// `xs` extended with `fill` until it has more than `i` elements.
pub open spec fn pad(xs: Seq<JsonView>, i: nat, fill: JsonView) -> Seq<JsonView> {
    if xs.len() > i {
        xs
    } else {
        xs + Seq::new((i + 1 - xs.len()) as nat, |j: int| fill)
    }
}

pub open spec fn empty_object() -> JsonView {
    JsonView::Object(seq![])
}

/// `v` with the value at `segs` set to `new`. Missing keys and indices on the way
/// are created (as objects, or `null`s padding an array before the last step); a
/// step into a value of the wrong kind stops the write there.
pub open spec fn set_at(v: JsonView, segs: Seq<SegmentView>, new: JsonView) -> JsonView
    decreases segs.len(),
{
    if segs.len() == 0 {
        v
    } else if segs.len() == 1 {
        match (segs[0], v) {
            (SegmentView::Key(k), JsonView::Object(es)) => JsonView::Object(entry_set(es, k, new)),
            (SegmentView::Index(i), JsonView::Array(xs)) => JsonView::Array(pad(xs, i as nat, JsonView::Null).update(i as int, new)),
            _ => v,
        }
    } else {
        match (segs[0], v) {
            (SegmentView::Key(k), JsonView::Object(es)) => {
                let child = match entry_lookup(es, k) {
                    Some(c) => c,
                    None => empty_object(),
                };
                JsonView::Object(entry_set(es, k, set_at(child, segs.drop_first(), new)))
            },
            (SegmentView::Index(i), JsonView::Array(xs)) => {
                let p = pad(xs, i as nat, empty_object());
                JsonView::Array(p.update(i as int, set_at(p[i as int], segs.drop_first(), new)))
            },
            _ => v,
        }
    }
}

/// `v` with `x` appended to the array at `segs`, if there is an array there.
pub open spec fn append_at(v: JsonView, segs: Seq<SegmentView>, x: JsonView) -> JsonView
    decreases segs.len(),
{
    if segs.len() == 0 {
        match v {
            JsonView::Array(xs) => JsonView::Array(xs.push(x)),
            _ => v,
        }
    } else {
        match (segs[0], v) {
            (SegmentView::Key(k), JsonView::Object(es)) => match key_position(es, k) {
                Some(j) => JsonView::Object(es.update(j as int, (k, append_at(es[j as int].1, segs.drop_first(), x)))),
                None => v,
            },
            (SegmentView::Index(i), JsonView::Array(xs)) => if i < xs.len() {
                JsonView::Array(xs.update(i as int, append_at(xs[i as int], segs.drop_first(), x)))
            } else {
                v
            },
            _ => v,
        }
    }
}

/// Replace the entry at `j` of `es` by `(k, v)`.
fn replace_entry(es: &mut Vec<(String, JsonValue)>, j: usize, k: String, v: JsonValue)
    requires
        j < old(es)@.len(),
    ensures
        entry_views(final(es)@) == entry_views(old(es)@).update(j as int, (k@, v@)),
{
    es.set(j, (k, v));
    assert(entry_views(es@) =~= entry_views(old(es)@).update(j as int, (k@, v@)));
}

/// Set key `k` of the entries to `v` (see `entry_set`).
pub(crate) fn set_entry(es: &mut Vec<(String, JsonValue)>, k: &String, v: JsonValue)
    ensures
        entry_views(final(es)@) == entry_set(entry_views(old(es)@), k@, v@),
{
    match find_key(es, k.as_str()) {
        Some(j) => {
            proof {
                lemma_key_position(entry_views(es@), k@);
            }
            replace_entry(es, j, copy_string(k), v);
        },
        None => {
            let ghost prev = es@;
            let e = (copy_string(k), v);
            es.push(e);
            proof {
                lemma_entry_views_push(prev, e);
            }
        },
    }
}

/// Push `fill` onto `arr` until it has more than `i` elements.
fn pad_array(arr: &mut Vec<JsonValue>, i: usize, fill: &JsonValue)
    requires
        i < usize::MAX,
    ensures
        json_views(final(arr)@) == pad(json_views(old(arr)@), i as nat, fill@),
        final(arr)@.len() > i,
{
    let ghost x0 = json_views(arr@);
    while arr.len() <= i
        invariant
            i < usize::MAX,
            x0.len() <= arr@.len(),
            json_views(arr@) == x0 + Seq::new((arr@.len() - x0.len()) as nat, |j: int| fill@),
            x0.len() <= i ==> arr@.len() <= i + 1,
            x0.len() > i ==> arr@.len() == x0.len(),
        decreases i + 1 - arr@.len(),
    {
        let ghost prev = arr@;
        let f = fill.deep_clone();
        arr.push(f);
        proof {
            lemma_json_views_push(prev, f);
            assert(json_views(arr@) =~= x0 + Seq::new((arr@.len() - x0.len()) as nat, |j: int| fill@));
        }
    }
    assert(json_views(arr@) =~= pad(x0, i as nat, fill@));
}

/// The value of entry `j` of `es`, taken out (a `null` is left in its place).
fn take_entry_value(es: &mut Vec<(String, JsonValue)>, j: usize) -> (res: JsonValue)
    requires
        j < old(es)@.len(),
    ensures
        res@ == entry_views(old(es)@)[j as int].1,
        entry_views(final(es)@) == entry_views(old(es)@).update(j as int, (entry_views(old(es)@)[j as int].0, JsonView::Null)),
        final(es)@.len() == old(es)@.len(),
{
    let mut slot = (String::new(), JsonValue::Null);
    es.set_and_swap(j, &mut slot);
    let (k, v) = slot;
    let ghost kv = k@;
    es.set(j, (k, JsonValue::Null));
    assert(entry_views(old(es)@)[j as int] == (old(es)@[j as int].0@, old(es)@[j as int].1@));
    assert(entry_views(es@) =~= entry_views(old(es)@).update(j as int, (kv, JsonView::Null)));
    v
}

/// No step of the path is the index `usize::MAX` (an array cannot be padded to it).
pub open spec fn indices_bounded(segs: Seq<SegmentView>) -> bool {
    forall|j: int| 0 <= j < segs.len() ==> #[trigger] segs[j] != SegmentView::Index(usize::MAX)
}

/// `v` with the value at `segs[i..]` set to `new` (see `set_at`).
fn set_owned(v: JsonValue, segs: &[PathSegment], i: usize, new: JsonValue) -> (res: JsonValue)
    requires
        i <= segs@.len(),
        indices_bounded(segment_views(segs@)),
    ensures
        res@ == set_at(v@, segment_views(segs@).skip(i as int), new@),
    decreases segs@.len() - i,
{
    let ghost sv = segment_views(segs@).skip(i as int);
    if i == segs.len() {
        return v;
    }
    assert(sv[0] == segs@[i as int]@);
    assert(sv.drop_first() =~= segment_views(segs@).skip(i + 1));
    let last = i + 1 == segs.len();
    match (&segs[i], v) {
        (PathSegment::Key(k), JsonValue::Object(mut es)) => {
            if last {
                set_entry(&mut es, k, new);
                JsonValue::Object(es)
            } else {
                let ghost ev = entry_views(es@);
                proof {
                    lemma_key_position(ev, k@);
                }
                match find_key(&es, k.as_str()) {
                    Some(j) => {
                        let child = take_entry_value(&mut es, j);
                        let c2 = set_owned(child, segs, i + 1, new);
                        replace_entry(&mut es, j, copy_string(k), c2);
                        assert(entry_views(es@) =~= entry_set(ev, k@, c2@));
                        JsonValue::Object(es)
                    },
                    None => {
                        let fresh = JsonValue::Object(Vec::new());
                        assert(fresh@ == empty_object()) by {
                            assert(entry_views(Seq::<(String, JsonValue)>::empty()) =~= Seq::<(Seq<char>, JsonView)>::empty());
                        }
                        let c2 = set_owned(fresh, segs, i + 1, new);
                        let ghost prev = es@;
                        let e = (copy_string(k), c2);
                        es.push(e);
                        proof {
                            lemma_entry_views_push(prev, e);
                        }
                        JsonValue::Object(es)
                    },
                }
            }
        },
        (PathSegment::Index(idx), JsonValue::Array(mut arr)) => {
            let index = *idx;
            assert(sv[0] != SegmentView::Index(usize::MAX));
            if last {
                pad_array(&mut arr, index, &JsonValue::Null);
                let ghost p = json_views(arr@);
                let n = new;
                let ghost nv = n@;
                arr.set(index, n);
                assert(json_views(arr@) =~= p.update(index as int, nv));
                JsonValue::Array(arr)
            } else {
                let fill = JsonValue::Object(Vec::new());
                assert(fill@ == empty_object()) by {
                    assert(entry_views(Seq::<(String, JsonValue)>::empty()) =~= Seq::<(Seq<char>, JsonView)>::empty());
                }
                pad_array(&mut arr, index, &fill);
                let ghost p = json_views(arr@);
                let mut child = JsonValue::Null;
                arr.set_and_swap(index, &mut child);
                assert(child@ == p[index as int]);
                let c2 = set_owned(child, segs, i + 1, new);
                let ghost cv = c2@;
                arr.set(index, c2);
                assert(json_views(arr@) =~= p.update(index as int, cv));
                JsonValue::Array(arr)
            }
        },
        (_, other) => other,
    }
}

/// `v` with `x` appended to the array at `segs[i..]` (see `append_at`).
fn append_owned(v: JsonValue, segs: &[PathSegment], i: usize, x: JsonValue) -> (res: JsonValue)
    requires
        i <= segs@.len(),
    ensures
        res@ == append_at(v@, segment_views(segs@).skip(i as int), x@),
    decreases segs@.len() - i,
{
    let ghost sv = segment_views(segs@).skip(i as int);
    if i == segs.len() {
        match v {
            JsonValue::Array(mut arr) => {
                let ghost prev = arr@;
                let xv = x;
                let ghost xw = xv@;
                arr.push(xv);
                proof {
                    assert(json_views(arr@) =~= json_views(prev).push(xw));
                }
                return JsonValue::Array(arr);
            },
            other => {
                return other;
            },
        }
    }
    assert(sv[0] == segs@[i as int]@);
    assert(sv.drop_first() =~= segment_views(segs@).skip(i + 1));
    match (&segs[i], v) {
        (PathSegment::Key(k), JsonValue::Object(mut es)) => {
            let ghost ev = entry_views(es@);
            proof {
                lemma_key_position(ev, k@);
            }
            match find_key(&es, k.as_str()) {
                Some(j) => {
                    let child = take_entry_value(&mut es, j);
                    let c2 = append_owned(child, segs, i + 1, x);
                    replace_entry(&mut es, j, copy_string(k), c2);
                    assert(entry_views(es@) =~= ev.update(j as int, (k@, c2@)));
                    JsonValue::Object(es)
                },
                None => JsonValue::Object(es),
            }
        },
        (PathSegment::Index(idx), JsonValue::Array(mut arr)) => {
            let index = *idx;
            if index < arr.len() {
                let ghost p = json_views(arr@);
                let mut child = JsonValue::Null;
                arr.set_and_swap(index, &mut child);
                assert(child@ == p[index as int]);
                let c2 = append_owned(child, segs, i + 1, x);
                let ghost cv = c2@;
                arr.set(index, c2);
                assert(json_views(arr@) =~= p.update(index as int, cv));
                JsonValue::Array(arr)
            } else {
                JsonValue::Array(arr)
            }
        },
        (_, other) => other,
    }
}

// ---------------------------------------------------------------------------
// Equality of JSON values, as `serde_json::Value`'s `==`: arrays element by
// element, objects as maps (same size, and every key of one maps in the other to
// an equal value), numbers by their text.

pub open spec fn json_equal(a: JsonView, b: JsonView) -> bool
    decreases a, 0nat,
{
    match (a, b) {
        (JsonView::Null, JsonView::Null) => true,
        (JsonView::Bool(x), JsonView::Bool(y)) => x == y,
        (JsonView::Number(x), JsonView::Number(y)) => x == y,
        (JsonView::String(x), JsonView::String(y)) => x == y,
        (JsonView::Array(xs), JsonView::Array(ys)) => xs.len() == ys.len() && arrays_equal_from(xs, ys, 0),
        (JsonView::Object(xe), JsonView::Object(ye)) => xe.len() == ye.len() && entries_equal_from(xe, ye, 0),
        _ => false,
    }
}

/// `xs[i..]` and `ys[i..]` are equal element by element.
pub open spec fn arrays_equal_from(xs: Seq<JsonView>, ys: Seq<JsonView>, i: nat) -> bool
    decreases xs, xs.len() - i,
{
    if i >= xs.len() {
        true
    } else {
        (i < ys.len() && json_equal(xs[i as int], ys[i as int])) && arrays_equal_from(xs, ys, i + 1)
    }
}

/// Every entry of `xe[i..]` has its key in `ye`, under an equal value.
pub open spec fn entries_equal_from(xe: Seq<(Seq<char>, JsonView)>, ye: Seq<(Seq<char>, JsonView)>, i: nat) -> bool
    decreases xe, xe.len() - i,
{
    if i >= xe.len() {
        true
    } else {
        proof {
            assert(decreases_to!(xe => xe[i as int]));
            assert(decreases_to!(xe[i as int] => xe[i as int].1));
        }
        (match entry_lookup(ye, xe[i as int].0) {
            Some(w) => json_equal(xe[i as int].1, w),
            None => false,
        }) && entries_equal_from(xe, ye, i + 1)
    }
}

/// Whether `a == b` as `serde_json::Value`s (see `json_equal`).
pub fn json_eq(a: &JsonValue, b: &JsonValue) -> (res: bool)
    ensures
        res == json_equal(a@, b@),
    decreases a,
{
    match (a, b) {
        (JsonValue::Null, JsonValue::Null) => true,
        (JsonValue::Bool(x), JsonValue::Bool(y)) => *x == *y,
        (JsonValue::Number(x), JsonValue::Number(y)) => crate::text::str_eq(x.as_str(), y.as_str()),
        (JsonValue::String(x), JsonValue::String(y)) => crate::text::str_eq(x.as_str(), y.as_str()),
        (JsonValue::Array(xs), JsonValue::Array(ys)) => {
            let ghost xv = json_views(xs@);
            let ghost yv = json_views(ys@);
            if xs.len() != ys.len() {
                return false;
            }
            let mut i: usize = 0;
            while i < xs.len()
                invariant
                    *a == JsonValue::Array(*xs),
                    *b == JsonValue::Array(*ys),
                    a@ == JsonView::Array(xv),
                    b@ == JsonView::Array(yv),
                    i <= xs@.len(),
                    xs@.len() == ys@.len(),
                    xv == json_views(xs@),
                    yv == json_views(ys@),
                    arrays_equal_from(xv, yv, 0) == arrays_equal_from(xv, yv, i as nat),
                decreases xs@.len() - i,
            {
                proof {
                    assert((*a)->Array_0 == *xs);
                    assert(decreases_to!(*a => (*a)->Array_0));
                    assert(decreases_to!(*xs => xs@));
                    assert(decreases_to!(xs@ => xs@[i as int]));
                }
                assert(xv[i as int] == xs@[i as int]@ && yv[i as int] == ys@[i as int]@);
                if !json_eq(&xs[i], &ys[i]) {
                    assert(!arrays_equal_from(xv, yv, i as nat));
                    return false;
                }
                i = i + 1;
            }
            assert(arrays_equal_from(xv, yv, i as nat));
            true
        },
        (JsonValue::Object(xe), JsonValue::Object(ye)) => {
            let ghost xv = entry_views(xe@);
            let ghost yv = entry_views(ye@);
            if xe.len() != ye.len() {
                return false;
            }
            let mut i: usize = 0;
            while i < xe.len()
                invariant
                    *a == JsonValue::Object(*xe),
                    *b == JsonValue::Object(*ye),
                    a@ == JsonView::Object(xv),
                    b@ == JsonView::Object(yv),
                    i <= xe@.len(),
                    xe@.len() == ye@.len(),
                    xv == entry_views(xe@),
                    yv == entry_views(ye@),
                    entries_equal_from(xv, yv, 0) == entries_equal_from(xv, yv, i as nat),
                decreases xe@.len() - i,
            {
                proof {
                    assert((*a)->Object_0 == *xe);
                    assert(decreases_to!(*a => (*a)->Object_0));
                    assert(decreases_to!(*xe => xe@));
                    assert(decreases_to!(xe@ => xe@[i as int]));
                    assert(decreases_to!(xe@[i as int] => xe@[i as int].1));
                    lemma_key_position(yv, xv[i as int].0);
                }
                assert(xv[i as int] == (xe@[i as int].0@, xe@[i as int].1@));
                match find_key(ye, xe[i].0.as_str()) {
                    Some(j) => {
                        assert(yv[j as int] == (ye@[j as int].0@, ye@[j as int].1@));
                        if !json_eq(&xe[i].1, &ye[j].1) {
                            assert(!entries_equal_from(xv, yv, i as nat));
                            return false;
                        }
                    },
                    None => {
                        assert(!entries_equal_from(xv, yv, i as nat));
                        return false;
                    },
                }
                i = i + 1;
            }
            assert(entries_equal_from(xv, yv, i as nat));
            true
        },
        _ => false,
    }
}

// ---------------------------------------------------------------------------
// Deep merge.

/// The dotted path of key `k` below `path`.
pub open spec fn child_path(path: Seq<char>, k: Seq<char>) -> Seq<char> {
    if path.len() == 0 {
        k
    } else {
        path + seq!['.'] + k
    }
}

/// Merging `s` into `t` found at `path`: the merged value, the number of changes,
/// and the paths whose version is bumped, in order. Objects merge key by key (a
/// missing key is appended); any other pair is replaced by `s` when the two differ
/// (the root path gets no version).
pub open spec fn merge(t: JsonView, s: JsonView, path: Seq<char>) -> (JsonView, nat, Seq<Seq<char>>)
    decreases s, 0nat, 0nat,
{
    match (t, s) {
        (JsonView::Object(te), JsonView::Object(se)) => {
            let r = merge_entries(te, se, path, se.len());
            (JsonView::Object(r.0), r.1, r.2)
        },
        _ => if json_equal(t, s) {
            (t, 0, seq![])
        } else {
            (s, 1, if path.len() > 0 { seq![path] } else { seq![] })
        },
    }
}

/// The merge of the first `n` entries of `se` into the entries `te`.
pub open spec fn merge_entries(
    te: Seq<(Seq<char>, JsonView)>,
    se: Seq<(Seq<char>, JsonView)>,
    path: Seq<char>,
    n: nat,
) -> (Seq<(Seq<char>, JsonView)>, nat, Seq<Seq<char>>)
    decreases se, 1nat, n,
{
    if n == 0 || n > se.len() {
        (te, 0, seq![])
    } else {
        let prev = merge_entries(te, se, path, (n - 1) as nat);
        let k = se[n - 1].0;
        let np = child_path(path, k);
        proof {
            assert(decreases_to!(se => se[n - 1]));
            assert(decreases_to!(se[n - 1] => se[n - 1].1));
        }
        match key_position(prev.0, k) {
            Some(j) => {
                let m = merge(prev.0[j as int].1, se[n - 1].1, np);
                (prev.0.update(j as int, (k, m.0)), prev.1 + m.1, prev.2 + m.2)
            },
            None => (prev.0.push((k, se[n - 1].1)), prev.1 + 1, prev.2.push(np)),
        }
    }
}

/// The version table after bumping the version once per path of `log`, starting
/// from version `v0`.
pub open spec fn apply_log(fv: Map<Seq<char>, u64>, v0: int, log: Seq<Seq<char>>) -> Map<Seq<char>, u64>
    decreases log.len(),
{
    if log.len() == 0 {
        fv
    } else {
        apply_log(fv, v0, log.drop_last()).insert(log.last(), (v0 + log.len()) as u64)
    }
}

proof fn lemma_apply_log_concat(fv: Map<Seq<char>, u64>, v0: int, a: Seq<Seq<char>>, b: Seq<Seq<char>>)
    ensures
        apply_log(fv, v0, a + b) == apply_log(apply_log(fv, v0, a), v0 + a.len(), b),
    decreases b.len(),
{
    if b.len() == 0 {
        assert(a + b =~= a);
    } else {
        lemma_apply_log_concat(fv, v0, a, b.drop_last());
        assert((a + b).drop_last() =~= a + b.drop_last());
        assert((a + b).last() == b.last());
    }
}

proof fn lemma_merge_entries_mono(
    te: Seq<(Seq<char>, JsonView)>,
    se: Seq<(Seq<char>, JsonView)>,
    path: Seq<char>,
    n: nat,
    m: nat,
)
    requires
        n <= m <= se.len(),
    ensures
        merge_entries(te, se, path, n).1 <= merge_entries(te, se, path, m).1,
        merge_entries(te, se, path, n).2.len() <= merge_entries(te, se, path, m).2.len(),
    decreases m - n,
{
    if n < m {
        lemma_merge_entries_mono(te, se, path, n, (m - 1) as nat);
    }
}

/// `path` followed by a dot and `k` (or `k` alone under the root).
fn child_path_string(path: &String, k: &String) -> (res: String)
    ensures
        res@ == child_path(path@, k@),
{
    if path.as_str().unicode_len() == 0 {
        assert(path@.len() == 0);
        copy_string(k)
    } else {
        assert(path@.len() > 0);
        let mut r = copy_string(path);
        crate::text::push_char(&mut r, '.');
        r.append(k.as_str());
        r
    }
}

/// Merge `source` into `target` found at `path` (see `merge`), counting changes
/// and bumping versions.
fn merge_into(
    target: JsonValue,
    source: &JsonValue,
    path: &String,
    changes: &mut usize,
    fv: &mut FxHashMap<String, u64>,
    version: &mut u64,
) -> (res: JsonValue)
    requires
        *old(changes) + merge(target@, source@, path@).1 <= usize::MAX,
        *old(version) + merge(target@, source@, path@).2.len() <= u64::MAX,
    ensures
        res@ == merge(target@, source@, path@).0,
        *final(changes) == *old(changes) + merge(target@, source@, path@).1,
        *final(version) == *old(version) + merge(target@, source@, path@).2.len(),
        version_table(*final(fv)) == apply_log(version_table(*old(fv)), *old(version) as int, merge(target@, source@, path@).2),
    decreases source,
{
    let ghost tv = target@;
    let ghost r = merge(target@, source@, path@);
    match (target, source) {
        (JsonValue::Object(mut te), JsonValue::Object(se)) => {
            let ghost te0 = entry_views(te@);
            let ghost sev = entry_views(se@);
            let ghost c0 = *changes;
            let ghost v0 = *version;
            let ghost fv0 = version_table(*fv);
            assert(r == (JsonView::Object(merge_entries(te0, sev, path@, sev.len()).0),
                merge_entries(te0, sev, path@, sev.len()).1, merge_entries(te0, sev, path@, sev.len()).2));
            let mut i: usize = 0;
            while i < se.len()
                invariant
                    *source == JsonValue::Object(*se),
                    i <= se@.len(),
                    sev == entry_views(se@),
                    sev.len() == se@.len(),
                    r == (JsonView::Object(merge_entries(te0, sev, path@, sev.len()).0),
                        merge_entries(te0, sev, path@, sev.len()).1, merge_entries(te0, sev, path@, sev.len()).2),
                    c0 + r.1 <= usize::MAX,
                    v0 + r.2.len() <= u64::MAX,
                    entry_views(te@) == merge_entries(te0, sev, path@, i as nat).0,
                    *changes == c0 + merge_entries(te0, sev, path@, i as nat).1,
                    *version == v0 + merge_entries(te0, sev, path@, i as nat).2.len(),
                    version_table(*fv) == apply_log(fv0, v0 as int, merge_entries(te0, sev, path@, i as nat).2),
                decreases se@.len() - i,
            {
                let ghost prev = merge_entries(te0, sev, path@, i as nat);
                let ghost next = merge_entries(te0, sev, path@, (i + 1) as nat);
                proof {
                    lemma_merge_entries_mono(te0, sev, path@, (i + 1) as nat, sev.len());
                    assert(sev[i as int] == (se@[i as int].0@, se@[i as int].1@));
                    assert((*source)->Object_0 == *se);
                    assert(decreases_to!(*source => (*source)->Object_0));
                    assert(decreases_to!(*se => se@));
                    assert(decreases_to!(se@ => se@[i as int]));
                    assert(decreases_to!(se@[i as int] => se@[i as int].1));
                    lemma_key_position(entry_views(te@), sev[i as int].0);
                }
                let k = &se[i].0;
                let np = child_path_string(path, k);
                match find_key(&te, k.as_str()) {
                    Some(j) => {
                        let child = take_entry_value(&mut te, j);
                        let m = merge_into(child, &se[i].1, &np, changes, fv, version);
                        replace_entry(&mut te, j, copy_string(k), m);
                        proof {
                            assert(entry_views(te@) =~= next.0);
                            lemma_apply_log_concat(fv0, v0 as int, prev.2, merge(prev.0[j as int].1, sev[i as int].1, np@).2);
                        }
                    },
                    None => {
                        let e = (copy_string(k), se[i].1.deep_clone());
                        let ghost pe = te@;
                        te.push(e);
                        proof {
                            lemma_entry_views_push(pe, e);
                        }
                        *changes = *changes + 1;
                        *version = *version + 1;
                        versions_insert(fv, np, *version);
                        proof {
                            assert(prev.2.push(np@).drop_last() =~= prev.2);
                        }
                    },
                }
                i = i + 1;
            }
            JsonValue::Object(te)
        },
        (t, s) => {
            assert(r == (if json_equal(tv, s@) {
                (tv, 0nat, Seq::<Seq<char>>::empty())
            } else {
                (s@, 1nat, if path@.len() > 0 { seq![path@] } else { Seq::<Seq<char>>::empty() })
            }));
            if json_eq(&t, s) {
                proof {
                    assert(apply_log(version_table(*fv), *version as int, Seq::<Seq<char>>::empty()) == version_table(*fv));
                }
                t
            } else {
                let ghost fv1 = version_table(*fv);
                let ghost v1 = *version;
                *changes = *changes + 1;
                if path.as_str().unicode_len() > 0 {
                    *version = *version + 1;
                    versions_insert(fv, copy_string(path), *version);
                    proof {
                        let l = seq![path@];
                        assert(l.drop_last() =~= Seq::<Seq<char>>::empty());
                        assert(apply_log(fv1, v1 as int, l.drop_last()) == fv1);
                        assert(apply_log(fv1, v1 as int, l) == fv1.insert(path@, (v1 + 1) as u64));
                    }
                } else {
                    assert(apply_log(fv1, v1 as int, Seq::<Seq<char>>::empty()) == fv1);
                }
                s.deep_clone()
            }
        },
    }
}

// ---------------------------------------------------------------------------
// The tracked data.

/// A JSON value with a version counter and, per written path, the version at
/// which it was last written.
pub struct TrackedData {
    instance_id: u64,
    data: JsonValue,
    version: u64,
    field_versions: FxHashMap<String, u64>,
}

/// The version recorded for `path`, 0 for a path never written.
pub open spec fn version_of(fv: Map<Seq<char>, u64>, path: Seq<char>) -> u64 {
    if fv.contains_key(path) { fv[path] } else { 0 }
}

impl TrackedData {
    pub closed spec fn id(self) -> u64 {
        self.instance_id
    }

    /// The data.
    pub closed spec fn value(self) -> JsonView {
        self.data@
    }

    /// The version counter.
    pub closed spec fn current_version(self) -> u64 {
        self.version
    }

    /// The version at which each written path was last written.
    pub closed spec fn versions(self) -> Map<Seq<char>, u64> {
        version_table(self.field_versions)
    }

    /// Wrap `data`, at version 0 with no path written; `instance_id` tells this
    /// instance apart (the program draws it from a process-wide counter).
    pub fn new(data: JsonValue, instance_id: u64) -> (res: Self)
        ensures
            res.id() == instance_id,
            res.value() == data@,
            res.current_version() == 0,
            res.versions() == no_versions(),
    {
        TrackedData { instance_id, data, version: 0, field_versions: versions_new() }
    }

    /// The unique instance id.
    pub fn instance_id(&self) -> (res: u64)
        ensures
            res == self.id(),
    {
        self.instance_id
    }

    /// The current version.
    pub fn version(&self) -> (res: u64)
        ensures
            res == self.current_version(),
    {
        self.version
    }

    /// The underlying data (read-only).
    pub fn data(&self) -> (res: &JsonValue)
        ensures
            res@ == self.value(),
    {
        &self.data
    }

    /// Set the value at a dotted path (see `set_at`) and bump the version, which
    /// becomes the path's version and is returned.
    pub fn set(&mut self, path: &str, value: JsonValue) -> (res: u64)
        requires
            old(self).current_version() < u64::MAX,
            indices_bounded(path_segments(path@)),
        ensures
            final(self).value() == set_at(old(self).value(), path_segments(path@), value@),
            res == old(self).current_version() + 1,
            final(self).current_version() == res,
            final(self).versions() == old(self).versions().insert(path@, res),
            final(self).id() == old(self).id(),
    {
        let segments = parse_path(path);
        assert(segment_views(segments@).skip(0) =~= segment_views(segments@));
        let mut d = JsonValue::Null;
        std::mem::swap(&mut d, &mut self.data);
        self.data = set_owned(d, segments.as_slice(), 0, value);
        self.version = self.version + 1;
        versions_insert(&mut self.field_versions, String::from_str(path), self.version);
        self.version
    }

    /// Append to the array at a dotted path, if there is one there (see
    /// `append_at`); the version is bumped either way.
    pub fn push_to_array(&mut self, path: &str, value: JsonValue) -> (res: u64)
        requires
            old(self).current_version() < u64::MAX,
        ensures
            final(self).value() == append_at(old(self).value(), path_segments(path@), value@),
            res == old(self).current_version() + 1,
            final(self).current_version() == res,
            final(self).versions() == old(self).versions().insert(path@, res),
            final(self).id() == old(self).id(),
    {
        let segments = parse_path(path);
        assert(segment_views(segments@).skip(0) =~= segment_views(segments@));
        let mut d = JsonValue::Null;
        std::mem::swap(&mut d, &mut self.data);
        self.data = append_owned(d, segments.as_slice(), 0, value);
        self.version = self.version + 1;
        versions_insert(&mut self.field_versions, String::from_str(path), self.version);
        self.version
    }

    /// The value at a dotted path, if there is one (see `walk`).
    pub fn get(&self, path: &str) -> (res: Option<&JsonValue>)
        ensures
            match res {
                Some(r) => walk(self.value(), path_segments(path@)) == Some(r@),
                None => walk(self.value(), path_segments(path@)) is None,
            },
    {
        let segments = parse_path(path);
        traverse(&self.data, segments.as_slice())
    }

    /// Bump the version after a change made elsewhere; it becomes the path's version.
    pub fn mark_modified(&mut self, path: &str) -> (res: u64)
        requires
            old(self).current_version() < u64::MAX,
        ensures
            final(self).value() == old(self).value(),
            res == old(self).current_version() + 1,
            final(self).current_version() == res,
            final(self).versions() == old(self).versions().insert(path@, res),
            final(self).id() == old(self).id(),
    {
        self.version = self.version + 1;
        versions_insert(&mut self.field_versions, String::from_str(path), self.version);
        self.version
    }

    /// The values at several paths, `null` where there is none.
    pub fn get_values(&self, paths: &[String]) -> (res: Vec<JsonValue>)
        ensures
            res@.len() == paths@.len(),
            forall|i: int| 0 <= i < paths@.len() ==> #[trigger] res@[i]@ == (match walk(self.value(), path_segments(paths@[i]@)) {
                Some(v) => v,
                None => JsonView::Null,
            }),
    {
        let mut out: Vec<JsonValue> = Vec::new();
        let mut i: usize = 0;
        while i < paths.len()
            invariant
                i <= paths@.len(),
                out@.len() == i,
                forall|j: int| 0 <= j < i ==> #[trigger] out@[j]@ == (match walk(self.value(), path_segments(paths@[j]@)) {
                    Some(v) => v,
                    None => JsonView::Null,
                }),
            decreases paths@.len() - i,
        {
            let v = match self.get(paths[i].as_str()) {
                Some(r) => r.deep_clone(),
                None => JsonValue::Null,
            };
            out.push(v);
            i = i + 1;
        }
        out
    }

    /// The version of each path, 0 for a path never written.
    pub fn dependency_versions(&self, paths: &[String]) -> (res: Vec<u64>)
        ensures
            res@.len() == paths@.len(),
            forall|i: int| 0 <= i < paths@.len() ==> #[trigger] res@[i] == version_of(self.versions(), paths@[i]@),
    {
        let mut out: Vec<u64> = Vec::new();
        let mut i: usize = 0;
        while i < paths.len()
            invariant
                i <= paths@.len(),
                out@.len() == i,
                forall|j: int| 0 <= j < i ==> #[trigger] out@[j] == version_of(self.versions(), paths@[j]@),
            decreases paths@.len() - i,
        {
            let v = match versions_get(&self.field_versions, paths[i].as_str()) {
                Some(v) => v,
                None => 0,
            };
            out.push(v);
            i = i + 1;
        }
        out
    }

    /// Whether `path` was written after `version`.
    pub fn field_modified_since(&self, path: &str, version: u64) -> (res: bool)
        ensures
            res == (self.versions().contains_key(path@) && self.versions()[path@] > version),
    {
        match versions_get(&self.field_versions, path) {
            Some(v) => v > version,
            None => false,
        }
    }

    /// Deep merge `other` into the data (see `merge`): returns the number of
    /// changes; each change below the root bumps the version and records it for
    /// its dotted path.
    pub fn deep_merge(&mut self, other: &JsonValue) -> (res: usize)
        requires
            merge(old(self).value(), other@, seq![]).1 <= usize::MAX,
            old(self).current_version() + merge(old(self).value(), other@, seq![]).2.len() <= u64::MAX,
        ensures
            final(self).value() == merge(old(self).value(), other@, seq![]).0,
            res == merge(old(self).value(), other@, seq![]).1,
            final(self).current_version() == old(self).current_version() + merge(old(self).value(), other@, seq![]).2.len(),
            final(self).versions() == apply_log(old(self).versions(), old(self).current_version() as int,
                merge(old(self).value(), other@, seq![]).2),
            final(self).id() == old(self).id(),
    {
        let mut changes: usize = 0;
        let root = String::new();
        let mut d = JsonValue::Null;
        std::mem::swap(&mut d, &mut self.data);
        let ghost dv = d@;
        assert(root@ =~= Seq::<char>::empty());
        self.data = merge_into(d, other, &root, &mut changes, &mut self.field_versions, &mut self.version);
        changes
    }
}

impl Clone for TrackedData {
    /// A copy with the same id, data, version and field versions.
    fn clone(&self) -> (res: Self)
        ensures
            res.id() == self.id(),
            res.value() == self.value(),
            res.current_version() == self.current_version(),
            res.versions() == self.versions(),
    {
        TrackedData {
            instance_id: self.instance_id,
            data: self.data.deep_clone(),
            version: self.version,
            field_versions: versions_clone(&self.field_versions),
        }
    }
}

/// Builder for tracked data.
pub struct TrackedDataBuilder {
    data: JsonValue,
}

impl TrackedDataBuilder {
    pub closed spec fn value(self) -> JsonView {
        self.data@
    }

    /// Start from an empty object.
    pub fn new() -> (res: Self)
        ensures
            res.value() == empty_object(),
    {
        let res = TrackedDataBuilder { data: JsonValue::Object(Vec::new()) };
        assert(entry_views(Seq::<(String, JsonValue)>::empty()) =~= Seq::<(Seq<char>, JsonView)>::empty());
        res
    }

    /// Start from `value`.
    pub fn from_value(value: JsonValue) -> (res: Self)
        ensures
            res.value() == value@,
    {
        TrackedDataBuilder { data: value }
    }

    /// Set top-level key `key` to `value`, when the data is an object.
    pub fn set(self, key: &str, value: JsonValue) -> (res: Self)
        ensures
            res.value() == (match self.value() {
                JsonView::Object(es) => JsonView::Object(entry_set(es, key@, value@)),
                other => other,
            }),
    {
        match self.data {
            JsonValue::Object(mut es) => {
                let k = String::from_str(key);
                set_entry(&mut es, &k, value);
                TrackedDataBuilder { data: JsonValue::Object(es) }
            },
            other => TrackedDataBuilder { data: other },
        }
    }

    /// Wrap the data (see `TrackedData::new`).
    pub fn build(self, instance_id: u64) -> (res: TrackedData)
        ensures
            res.id() == instance_id,
            res.value() == self.value(),
            res.current_version() == 0,
            res.versions() == no_versions(),
    {
        TrackedData::new(self.data, instance_id)
    }
}

// ---------------------------------------------------------------------------
// Laws.

/// Whether a write along `segs` reaches its end in `v`: every step but the last
/// lands on an object (for a key) or an array (for an index), existing or created.
pub open spec fn writable(v: JsonView, segs: Seq<SegmentView>) -> bool
    decreases segs.len(),
{
    if segs.len() == 0 {
        true
    } else {
        match (segs[0], v) {
            (SegmentView::Key(k), JsonView::Object(es)) => segs.len() == 1 || writable(
                match entry_lookup(es, k) {
                    Some(c) => c,
                    None => empty_object(),
                },
                segs.drop_first(),
            ),
            (SegmentView::Index(i), JsonView::Array(xs)) => segs.len() == 1 || writable(
                pad(xs, i as nat, empty_object())[i as int],
                segs.drop_first(),
            ),
            _ => false,
        }
    }
}

proof fn lemma_lookup_first(es: Seq<(Seq<char>, JsonView)>, k: Seq<char>, j: int)
    requires
        0 <= j < es.len(),
        es[j].0 == k,
        forall|i: int| 0 <= i < j ==> #[trigger] es[i].0 != k,
    ensures
        entry_lookup(es, k) == Some(es[j].1),
    decreases j,
{
    if j > 0 {
        assert forall|i: int| 0 <= i < j - 1 implies #[trigger] es.drop_first()[i].0 != k by {
            assert(es.drop_first()[i] == es[i + 1]);
        }
        assert(es[0].0 != k);
        lemma_lookup_first(es.drop_first(), k, j - 1);
    }
}

/// After setting key `k` to `x`, looking `k` up gives `x`.
pub proof fn lemma_entry_set_lookup(es: Seq<(Seq<char>, JsonView)>, k: Seq<char>, x: JsonView)
    ensures
        entry_lookup(entry_set(es, k, x), k) == Some(x),
{
    lemma_key_position(es, k);
    let e2 = entry_set(es, k, x);
    match key_position(es, k) {
        Some(j) => {
            assert forall|i: int| 0 <= i < j implies #[trigger] e2[i].0 != k by {
                assert(e2[i] == es[i]);
            }
            lemma_lookup_first(e2, k, j as int);
        },
        None => {
            assert forall|i: int| 0 <= i < es.len() implies #[trigger] e2[i].0 != k by {
                assert(e2[i] == es[i]);
            }
            lemma_lookup_first(e2, k, es.len() as int);
        },
    }
}

/// A read gives back what a write wrote: after setting the value at `segs` to
/// `new`, the value at `segs` is `new`, wherever the write can reach its end.
pub proof fn law_get_after_set(v: JsonView, segs: Seq<SegmentView>, new: JsonView)
    requires
        segs.len() > 0,
        writable(v, segs),
    ensures
        walk(set_at(v, segs, new), segs) == Some(new),
    decreases segs.len(),
{
    let rest = segs.drop_first();
    let w = set_at(v, segs, new);
    match (segs[0], v) {
        (SegmentView::Key(k), JsonView::Object(es)) => {
            if segs.len() == 1 {
                lemma_entry_set_lookup(es, k, new);
                assert(w == JsonView::Object(entry_set(es, k, new)));
                assert(step(w, segs[0]) == Some(new));
                assert(walk(new, rest) == Some(new));
            } else {
                let child = match entry_lookup(es, k) {
                    Some(c) => c,
                    None => empty_object(),
                };
                law_get_after_set(child, rest, new);
                lemma_entry_set_lookup(es, k, set_at(child, rest, new));
                assert(w == JsonView::Object(entry_set(es, k, set_at(child, rest, new))));
                assert(step(w, segs[0]) == Some(set_at(child, rest, new)));
            }
        },
        (SegmentView::Index(i), JsonView::Array(xs)) => {
            if segs.len() == 1 {
                let p = pad(xs, i as nat, JsonView::Null);
                assert(p.len() > i);
                assert(w == JsonView::Array(p.update(i as int, new)));
                assert(step(w, segs[0]) == Some(new));
                assert(walk(new, rest) == Some(new));
            } else {
                let p = pad(xs, i as nat, empty_object());
                assert(p.len() > i);
                law_get_after_set(p[i as int], rest, new);
                assert(w == JsonView::Array(p.update(i as int, set_at(p[i as int], rest, new))));
                assert(step(w, segs[0]) == Some(set_at(p[i as int], rest, new)));
            }
        },
        _ => {},
    }
}

/// Every object in `v`, at any depth, has distinct keys (as `serde_json` values do).
pub open spec fn well_keyed(v: JsonView) -> bool
    decreases v,
{
    match v {
        JsonView::Array(xs) => forall|i: int| 0 <= i < xs.len() ==> well_keyed(#[trigger] xs[i]),
        JsonView::Object(es) => {
            &&& forall|i: int, j: int| 0 <= i < j < es.len() ==> #[trigger] es[i].0 != #[trigger] es[j].0
            &&& forall|i: int| 0 <= i < es.len() ==> well_keyed(#[trigger] es[i].1)
        },
        _ => true,
    }
}

proof fn lemma_unique_lookup(es: Seq<(Seq<char>, JsonView)>, i: int)
    requires
        0 <= i < es.len(),
        forall|a: int, b: int| 0 <= a < b < es.len() ==> #[trigger] es[a].0 != #[trigger] es[b].0,
    ensures
        entry_lookup(es, es[i].0) == Some(es[i].1),
        key_position(es, es[i].0) == Some(i as nat),
{
    assert forall|a: int| 0 <= a < i implies #[trigger] es[a].0 != es[i].0 by {
        assert(es[a].0 != es[i].0);
    }
    lemma_lookup_first(es, es[i].0, i);
    lemma_key_position(es, es[i].0);
    match key_position(es, es[i].0) {
        Some(j) => {
            if (j as int) < i {
                assert(es[j as int].0 != es[i].0);
            }
        },
        None => {},
    }
}

/// A well-keyed value equals itself under `serde_json`'s equality.
pub proof fn lemma_json_equal_refl(v: JsonView)
    requires
        well_keyed(v),
    ensures
        json_equal(v, v),
    decreases v,
{
    match v {
        JsonView::Array(xs) => {
            lemma_arrays_equal_refl(xs, 0);
        },
        JsonView::Object(es) => {
            lemma_entries_equal_refl(es, 0);
        },
        _ => {},
    }
}

proof fn lemma_arrays_equal_refl(xs: Seq<JsonView>, i: nat)
    requires
        forall|j: int| 0 <= j < xs.len() ==> well_keyed(#[trigger] xs[j]),
    ensures
        arrays_equal_from(xs, xs, i),
    decreases xs, xs.len() - i,
{
    if i < xs.len() {
        lemma_json_equal_refl(xs[i as int]);
        lemma_arrays_equal_refl(xs, i + 1);
    }
}

proof fn lemma_entries_equal_refl(es: Seq<(Seq<char>, JsonView)>, i: nat)
    requires
        forall|a: int, b: int| 0 <= a < b < es.len() ==> #[trigger] es[a].0 != #[trigger] es[b].0,
        forall|j: int| 0 <= j < es.len() ==> well_keyed(#[trigger] es[j].1),
    ensures
        entries_equal_from(es, es, i),
    decreases es, es.len() - i,
{
    if i < es.len() {
        assert(decreases_to!(es => es[i as int]));
        assert(decreases_to!(es[i as int] => es[i as int].1));
        lemma_unique_lookup(es, i as int);
        lemma_json_equal_refl(es[i as int].1);
        lemma_entries_equal_refl(es, i + 1);
    }
}

/// Merging a well-keyed value into an identical one changes nothing: no change is
/// counted, no version is bumped, the value stays.
pub proof fn law_merge_same_changes_nothing(v: JsonView, path: Seq<char>)
    requires
        well_keyed(v),
    ensures
        merge(v, v, path) == (v, 0nat, Seq::<Seq<char>>::empty()),
    decreases v, 1nat, 0nat,
{
    match v {
        JsonView::Object(es) => {
            lemma_merge_entries_same(es, path, es.len());
            assert(es.subrange(0, es.len() as int) =~= es);
        },
        _ => {
            lemma_json_equal_refl(v);
        },
    }
}

proof fn lemma_merge_entries_same(es: Seq<(Seq<char>, JsonView)>, path: Seq<char>, n: nat)
    requires
        n <= es.len(),
        forall|a: int, b: int| 0 <= a < b < es.len() ==> #[trigger] es[a].0 != #[trigger] es[b].0,
        forall|j: int| 0 <= j < es.len() ==> well_keyed(#[trigger] es[j].1),
    ensures
        merge_entries(es, es, path, n) == (es, 0nat, Seq::<Seq<char>>::empty()),
    decreases es, 0nat, n,
{
    if n > 0 {
        lemma_merge_entries_same(es, path, (n - 1) as nat);
        let k = es[n - 1].0;
        lemma_unique_lookup(es, n - 1);
        assert(decreases_to!(es => es[n - 1]));
        assert(decreases_to!(es[n - 1] => es[n - 1].1));
        law_merge_same_changes_nothing(es[n - 1].1, child_path(path, k));
        assert(es.update(n - 1, (k, es[n - 1].1)) =~= es);
        assert(Seq::<Seq<char>>::empty() + Seq::<Seq<char>>::empty() =~= Seq::<Seq<char>>::empty());
    }
}

/// The value that one merge leaves at key `k` when `v` is merged there into the
/// entries `te`: the merge of `v` into the entry already there, or `v` itself.
pub open spec fn merged_at(te: Seq<(Seq<char>, JsonView)>, k: Seq<char>, v: JsonView, path: Seq<char>) -> JsonView {
    match key_position(te, k) {
        Some(p) => merge(te[p as int].1, v, child_path(path, k)).0,
        None => v,
    }
}

proof fn lemma_position_update(s: Seq<(Seq<char>, JsonView)>, j: int, v: JsonView, k: Seq<char>)
    requires
        0 <= j < s.len(),
    ensures
        key_position(s.update(j, (s[j].0, v)), k) == key_position(s, k),
    decreases s.len(),
{
    let u = s.update(j, (s[j].0, v));
    if j > 0 {
        assert(u.drop_first() =~= s.drop_first().update(j - 1, (s.drop_first()[j - 1].0, v)));
        lemma_position_update(s.drop_first(), j - 1, v, k);
    } else {
        assert(u.drop_first() =~= s.drop_first());
    }
}

proof fn lemma_position_push(s: Seq<(Seq<char>, JsonView)>, e: (Seq<char>, JsonView), k: Seq<char>)
    ensures
        key_position(s.push(e), k) == match key_position(s, k) {
            Some(p) => Some(p),
            None => if e.0 == k { Some(s.len()) } else { None },
        },
    decreases s.len(),
{
    if s.len() > 0 {
        assert(s.push(e).drop_first() =~= s.drop_first().push(e));
        lemma_position_push(s.drop_first(), e, k);
    } else {
        assert(s.push(e).drop_first() =~= s);
    }
}

/// A key that none of the first `n` entries of `se` names keeps its place and its
/// entry.
proof fn lemma_merge_untouched(
    te: Seq<(Seq<char>, JsonView)>,
    se: Seq<(Seq<char>, JsonView)>,
    path: Seq<char>,
    n: nat,
    k: Seq<char>,
)
    requires
        n <= se.len(),
        forall|i: int| 0 <= i < n ==> #[trigger] se[i].0 != k,
    ensures
        key_position(merge_entries(te, se, path, n).0, k) == key_position(te, k),
        key_position(te, k) matches Some(j) ==> j < merge_entries(te, se, path, n).0.len()
            && merge_entries(te, se, path, n).0[j as int] == te[j as int],
    decreases n,
{
    lemma_key_position(te, k);
    if n > 0 {
        lemma_merge_untouched(te, se, path, (n - 1) as nat, k);
        let prev = merge_entries(te, se, path, (n - 1) as nat).0;
        let k2 = se[n - 1].0;
        assert(k2 != k);
        lemma_key_position(prev, k2);
        lemma_key_position(prev, k);
        lemma_key_position(te, k);
        match key_position(prev, k2) {
            Some(j2) => {
                let m = merge(prev[j2 as int].1, se[n - 1].1, child_path(path, k2));
                lemma_position_update(prev, j2 as int, m.0, k);
                assert(prev.update(j2 as int, (k2, m.0)) == prev.update(j2 as int, (prev[j2 as int].0, m.0)));
                if let Some(j) = key_position(te, k) {
                    assert(prev[j as int].0 == k);
                    assert(j != j2);
                    assert(prev.update(j2 as int, (k2, m.0))[j as int] == prev[j as int]);
                }
            },
            None => {
                lemma_position_push(prev, (k2, se[n - 1].1), k);
                if let Some(j) = key_position(te, k) {
                    assert(prev.push((k2, se[n - 1].1))[j as int] == prev[j as int]);
                }
            },
        }
    }
}

/// After merging the first `n` entries of `se` (whose keys are distinct), the key
/// of entry `i` is found holding `merged_at`.
proof fn lemma_merge_touched(
    te: Seq<(Seq<char>, JsonView)>,
    se: Seq<(Seq<char>, JsonView)>,
    path: Seq<char>,
    n: nat,
    i: int,
)
    requires
        0 <= i < n <= se.len(),
        forall|a: int, b: int| 0 <= a < b < se.len() ==> #[trigger] se[a].0 != #[trigger] se[b].0,
    ensures
        key_position(merge_entries(te, se, path, n).0, se[i].0) matches Some(j)
            && j < merge_entries(te, se, path, n).0.len()
            && merge_entries(te, se, path, n).0[j as int].1 == merged_at(te, se[i].0, se[i].1, path),
    decreases n,
{
    let prev = merge_entries(te, se, path, (n - 1) as nat).0;
    let k = se[i].0;
    let k2 = se[n - 1].0;
    lemma_key_position(prev, k2);
    if i == n - 1 {
        assert forall|a: int| 0 <= a < n - 1 implies #[trigger] se[a].0 != k by {
            assert(se[a].0 != se[n - 1].0);
        }
        lemma_merge_untouched(te, se, path, (n - 1) as nat, k);
        match key_position(prev, k2) {
            Some(j2) => {
                let m = merge(prev[j2 as int].1, se[n - 1].1, child_path(path, k2));
                lemma_position_update(prev, j2 as int, m.0, k);
                assert(prev.update(j2 as int, (k2, m.0)) == prev.update(j2 as int, (prev[j2 as int].0, m.0)));
            },
            None => {
                lemma_position_push(prev, (k2, se[n - 1].1), k);
            },
        }
    } else {
        lemma_merge_touched(te, se, path, (n - 1) as nat, i);
        assert(se[i].0 != se[n - 1].0);
        lemma_key_position(prev, k);
        match key_position(prev, k2) {
            Some(j2) => {
                let m = merge(prev[j2 as int].1, se[n - 1].1, child_path(path, k2));
                lemma_position_update(prev, j2 as int, m.0, k);
                assert(prev.update(j2 as int, (k2, m.0)) == prev.update(j2 as int, (prev[j2 as int].0, m.0)));
            },
            None => {
                lemma_position_push(prev, (k2, se[n - 1].1), k);
            },
        }
    }
}

/// Merging a value a second time changes nothing: the merged value stays, no
/// change is counted and no version is bumped.
pub proof fn law_merge_twice_changes_nothing(t: JsonView, s: JsonView, path: Seq<char>)
    requires
        well_keyed(t),
        well_keyed(s),
    ensures
        merge(merge(t, s, path).0, s, path) == (merge(t, s, path).0, 0nat, Seq::<Seq<char>>::empty()),
    decreases s, 1nat, 0nat,
{
    match (t, s) {
        (JsonView::Object(te), JsonView::Object(se)) => {
            lemma_merge_again(te, se, path, se.len());
        },
        _ => {
            if !json_equal(t, s) {
                law_merge_same_changes_nothing(s, path);
            }
        },
    }
}

proof fn lemma_merge_again(
    te: Seq<(Seq<char>, JsonView)>,
    se: Seq<(Seq<char>, JsonView)>,
    path: Seq<char>,
    n: nat,
)
    requires
        n <= se.len(),
        forall|a: int, b: int| 0 <= a < b < te.len() ==> #[trigger] te[a].0 != #[trigger] te[b].0,
        forall|j: int| 0 <= j < te.len() ==> well_keyed(#[trigger] te[j].1),
        forall|a: int, b: int| 0 <= a < b < se.len() ==> #[trigger] se[a].0 != #[trigger] se[b].0,
        forall|j: int| 0 <= j < se.len() ==> well_keyed(#[trigger] se[j].1),
    ensures
        merge_entries(merge_entries(te, se, path, se.len()).0, se, path, n)
            == (merge_entries(te, se, path, se.len()).0, 0nat, Seq::<Seq<char>>::empty()),
    decreases se, 0nat, n,
{
    if n > 0 {
        let r = merge_entries(te, se, path, se.len()).0;
        lemma_merge_again(te, se, path, (n - 1) as nat);
        let k = se[n - 1].0;
        let np = child_path(path, k);
        lemma_merge_touched(te, se, path, se.len(), n - 1);
        lemma_key_position(r, k);
        lemma_key_position(te, k);
        assert(decreases_to!(se => se[n - 1]));
        assert(decreases_to!(se[n - 1] => se[n - 1].1));
        match key_position(r, k) {
            Some(j) => {
                match key_position(te, k) {
                    Some(p) => {
                        law_merge_twice_changes_nothing(te[p as int].1, se[n - 1].1, np);
                    },
                    None => {
                        law_merge_same_changes_nothing(se[n - 1].1, np);
                    },
                }
                assert(r.update(j as int, (k, r[j as int].1)) =~= r);
                assert(Seq::<Seq<char>>::empty() + Seq::<Seq<char>>::empty() =~= Seq::<Seq<char>>::empty());
            },
            None => {},
        }
    }
}

} // verus!

