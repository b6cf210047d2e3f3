use vstd::prelude::*;
use crate::text::copy_string;

verus! {

/// A JSON value. Numbers keep their exact text; object entries keep their order.
#[derive(Debug)]
pub enum JsonValue {
    Null,
    Bool(bool),
    Number(String),
    String(String),
    Array(Vec<JsonValue>),
    Object(Vec<(String, JsonValue)>),
}

/// The mathematical model of a JSON value.
pub enum JsonView {
    Null,
    Bool(bool),
    Number(Seq<char>),
    String(Seq<char>),
    Array(Seq<JsonView>),
    Object(Seq<(Seq<char>, JsonView)>),
}

impl JsonValue {
    pub open spec fn view_json(self) -> JsonView
        decreases self,
    {
        match self {
            JsonValue::Null => JsonView::Null,
            JsonValue::Bool(b) => JsonView::Bool(b),
            JsonValue::Number(n) => JsonView::Number(n@),
            JsonValue::String(s) => JsonView::String(s@),
            JsonValue::Array(a) => JsonView::Array(json_views(a@)),
            JsonValue::Object(o) => JsonView::Object(entry_views(o@)),
        }
    }
}

/// The models of a sequence of JSON values.
pub open spec fn json_views(s: Seq<JsonValue>) -> Seq<JsonView>
    decreases s,
{
    Seq::new(
        s.len(),
        |i: int|
            if 0 <= i < s.len() {
                s[i].view_json()
            } else {
                JsonView::Null
            },
    )
}

/// The models of a sequence of object entries.
pub open spec fn entry_views(s: Seq<(String, JsonValue)>) -> Seq<(Seq<char>, JsonView)>
    decreases s,
{
    Seq::new(
        s.len(),
        |i: int|
            if 0 <= i < s.len() {
                (s[i].0@, s[i].1.view_json())
            } else {
                (Seq::empty(), JsonView::Null)
            },
    )
}

pub proof fn lemma_json_views_push(s: Seq<JsonValue>, x: JsonValue)
    ensures
        json_views(s.push(x)) == json_views(s).push(x.view_json()),
{
    assert(json_views(s.push(x)) =~= json_views(s).push(x.view_json()));
}

pub proof fn lemma_entry_views_push(s: Seq<(String, JsonValue)>, x: (String, JsonValue))
    ensures
        entry_views(s.push(x)) == entry_views(s).push((x.0@, x.1.view_json())),
{
    assert(entry_views(s.push(x)) =~= entry_views(s).push((x.0@, x.1.view_json())));
}

impl View for JsonValue {
    type V = JsonView;

    open spec fn view(&self) -> JsonView {
        self.view_json()
    }
}

impl JsonValue {
    /// A copy of this value.
    pub fn deep_clone(&self) -> (res: JsonValue)
        ensures
            res@ == self@,
        decreases self,
    {
        match self {
            JsonValue::Null => JsonValue::Null,
            JsonValue::Bool(b) => JsonValue::Bool(*b),
            JsonValue::Number(n) => JsonValue::Number(copy_string(n)),
            JsonValue::String(s) => JsonValue::String(copy_string(s)),
            JsonValue::Array(a) => {
                let mut out: Vec<JsonValue> = Vec::new();
                let mut i: usize = 0;
                while i < a.len()
                    invariant
                        *self == JsonValue::Array(*a),
                        i <= a@.len(),
                        json_views(out@) == json_views(a@).take(i as int),
                    decreases a@.len() - i,
                {
                    proof {
                        assert((*self)->Array_0 == *a);
                        assert(decreases_to!(*self => (*self)->Array_0));
                        assert(decreases_to!(*a => a@));
                        assert(decreases_to!(a@ => a@[i as int]));
                    }
                    let c = a[i].deep_clone();
                    let ghost prev = out@;
                    out.push(c);
                    proof {
                        lemma_json_views_push(prev, c);
                    }
                    i = i + 1;
                    assert(json_views(out@) =~= json_views(a@).take(i as int));
                }
                assert(json_views(a@).take(a@.len() as int) =~= json_views(a@));
                JsonValue::Array(out)
            },
            JsonValue::Object(o) => {
                let mut out: Vec<(String, JsonValue)> = Vec::new();
                let mut i: usize = 0;
                while i < o.len()
                    invariant
                        *self == JsonValue::Object(*o),
                        i <= o@.len(),
                        entry_views(out@) == entry_views(o@).take(i as int),
                    decreases o@.len() - i,
                {
                    let k = copy_string(&o[i].0);
                    proof {
                        assert((*self)->Object_0 == *o);
                        assert(decreases_to!(*self => (*self)->Object_0));
                        assert(decreases_to!(*o => o@));
                        assert(decreases_to!(o@ => o@[i as int]));
                        assert(decreases_to!(o@[i as int] => o@[i as int].1));
                    }
                    let c = o[i].1.deep_clone();
                    let ghost prev = out@;
                    out.push((k, c));
                    proof {
                        lemma_entry_views_push(prev, (k, c));
                    }
                    i = i + 1;
                    assert(entry_views(out@) =~= entry_views(o@).take(i as int));
                }
                assert(entry_views(o@).take(o@.len() as int) =~= entry_views(o@));
                JsonValue::Object(out)
            },
        }
    }
}

impl Clone for JsonValue {
    fn clone(&self) -> (res: Self)
        ensures
            res@ == self@,
    {
        self.deep_clone()
    }
}

} // verus!
