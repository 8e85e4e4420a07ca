//! JSON documents as the webhook reads them.
//!
//! `JsonValue` holds, as plain values, what the matching and mutation logic
//! reads of a JSON document.  Numbers keep the three representations that
//! serde_json distinguishes (a non-negative integer, a negative integer, a
//! finite float kept by its bit pattern with `-0.0` folded into `0.0`), so
//! that two numbers are equal exactly when serde_json calls them equal.
//! Object members keep the order in which the document lists them; documents
//! read through serde_json list them in ascending key order, so comparing two
//! such objects member by member is comparing them as maps.
use vstd::prelude::*;

verus! {

/// A JSON number, in the representation that decides its equality.
#[derive(PartialEq, Eq, Structural, Clone, Copy, Debug)]
pub enum JsonNumber {
    PosInt(u64),
    NegInt(i64),
    Float(u64),
}

/// A JSON document.
#[derive(Debug)]
pub enum JsonValue {
    Null,
    Bool(bool),
    Number(JsonNumber),
    String(String),
    Array(Vec<JsonValue>),
    Object(Vec<(String, JsonValue)>),
}

/// The mathematical model of a JSON document.
pub enum JsonView {
    Null,
    Bool(bool),
    Number(JsonNumber),
    Str(Seq<char>),
    Array(Seq<JsonView>),
    Object(Seq<(Seq<char>, JsonView)>),
}

impl JsonValue {
    /// The model of a document: strings by their characters, arrays and
    /// objects member by member.
    pub open spec fn model(&self) -> JsonView
        decreases self,
    {
        match self {
            JsonValue::Null => JsonView::Null,
            JsonValue::Bool(b) => JsonView::Bool(*b),
            JsonValue::Number(n) => JsonView::Number(*n),
            JsonValue::String(s) => JsonView::Str(s@),
            JsonValue::Array(a) => JsonView::Array(
                Seq::new(
                    a@.len(),
                    |i: int|
                        if 0 <= i < a@.len() {
                            a@[i].model()
                        } else {
                            JsonView::Null
                        },
                ),
            ),
            JsonValue::Object(o) => JsonView::Object(
                Seq::new(
                    o@.len(),
                    |i: int|
                        if 0 <= i < o@.len() {
                            (o@[i].0@, o@[i].1.model())
                        } else {
                            (Seq::empty(), JsonView::Null)
                        },
                ),
            ),
        }
    }
}

impl View for JsonValue {
    type V = JsonView;

    open spec fn view(&self) -> JsonView {
        self.model()
    }
}

/// The models of a sequence of documents.
pub open spec fn models(s: Seq<JsonValue>) -> Seq<JsonView> {
    Seq::new(s.len(), |i: int| s[i]@)
}

impl JsonView {
    pub open spec fn is_array(self) -> bool {
        self is Array
    }

    /// The elements of an array (empty for any other document).
    pub open spec fn elements(self) -> Seq<JsonView> {
        match self {
            JsonView::Array(a) => a,
            _ => Seq::empty(),
        }
    }
}

/// The model of an array is the sequence of the models of its elements.
pub proof fn lemma_array_model(v: &JsonValue)
    ensures
        v is Array ==> v@->Array_0 == models(v->Array_0@),
{
    if let JsonValue::Array(a) = v {
        assert(v@->Array_0 =~= models(a@));
    }
}

/// Every element of `a` occurs in `b`.
pub open spec fn included(a: Seq<JsonView>, b: Seq<JsonView>) -> bool {
    forall|i: int| 0 <= i < a.len() ==> #[trigger] b.contains(a[i])
}

/// Some element occurs in both `a` and `b`.
pub open spec fn overlap(a: Seq<JsonView>, b: Seq<JsonView>) -> bool {
    exists|i: int| 0 <= i < a.len() && #[trigger] b.contains(a[i])
}

impl JsonValue {
    pub fn is_array(&self) -> (r: bool)
        ensures
            r == self@ is Array,
    {
        match self {
            JsonValue::Array(_) => true,
            _ => false,
        }
    }

    pub fn is_null(&self) -> (r: bool)
        ensures
            r == self@ is Null,
    {
        match self {
            JsonValue::Null => true,
            _ => false,
        }
    }

    /// A copy of the document.
    pub fn duplicate(&self) -> (r: JsonValue)
        ensures
            r@ == self@,
    {
        copy_of(self)
    }
}

fn copy_of(v: &JsonValue) -> (r: JsonValue)
    ensures
        r@ == v@,
    decreases v,
{
    match v {
        JsonValue::Null => JsonValue::Null,
        JsonValue::Bool(b) => JsonValue::Bool(*b),
        JsonValue::Number(n) => JsonValue::Number(*n),
        JsonValue::String(s) => JsonValue::String(s.clone()),
        JsonValue::Array(a) => {
            let mut out: Vec<JsonValue> = Vec::new();
            let mut i: usize = 0;
            while i < a.len()
                invariant
                    i <= a.len(),
                    out.len() == i,
                    *v == JsonValue::Array(*a),
                    forall|j: int| 0 <= j < i ==> #[trigger] out@[j]@ == a@[j]@,
                decreases a.len() - i,
            {
                assert(decreases_to!(v => v->Array_0));
                assert(decreases_to!(v->Array_0 => v->Array_0@));
                assert(decreases_to!(v => a@[i as int]));
                out.push(copy_of(&a[i]));
                i = i + 1;
            }
            let r = JsonValue::Array(out);
            assert forall|j: int| 0 <= j < a.len() implies r@->Array_0[j] == v@->Array_0[j] by {
                assert(out@[j]@ == a@[j]@);
            }
            assert(r@->Array_0 =~= v@->Array_0);
            r
        },
        JsonValue::Object(o) => {
            let mut out: Vec<(String, JsonValue)> = Vec::new();
            let mut i: usize = 0;
            while i < o.len()
                invariant
                    i <= o.len(),
                    out.len() == i,
                    *v == JsonValue::Object(*o),
                    forall|j: int|
                        #![trigger out@[j]]
                        0 <= j < i ==> out@[j].0@ == o@[j].0@ && out@[j].1@ == o@[j].1@,
                decreases o.len() - i,
            {
                let k = o[i].0.clone();
                assert(decreases_to!(v => v->Object_0));
                assert(decreases_to!(v->Object_0 => v->Object_0@));
                assert(decreases_to!(v->Object_0@ => v->Object_0@[i as int]));
                assert(decreases_to!(v => o@[i as int].1));
                let w = copy_of(&o[i].1);
                out.push((k, w));
                i = i + 1;
            }
            let r = JsonValue::Object(out);
            assert forall|j: int| 0 <= j < o.len() implies r@->Object_0[j] == v@->Object_0[j] by {
                assert(out@[j].0@ == o@[j].0@ && out@[j].1@ == o@[j].1@);
            }
            assert(r@->Object_0 =~= v@->Object_0);
            r
        },
    }
}

/// Whether two documents are equal.
pub fn json_eq(a: &JsonValue, b: &JsonValue) -> (r: bool)
    ensures
        r == (a@ == b@),
    decreases a,
{
    match (a, b) {
        (JsonValue::Null, JsonValue::Null) => true,
        (JsonValue::Bool(x), JsonValue::Bool(y)) => *x == *y,
        (JsonValue::Number(x), JsonValue::Number(y)) => *x == *y,
        (JsonValue::String(x), JsonValue::String(y)) => *x == *y,
        (JsonValue::Array(x), JsonValue::Array(y)) => {
            if x.len() != y.len() {
                assert(a@->Array_0.len() != b@->Array_0.len());
                return false;
            }
            let mut i: usize = 0;
            while i < x.len()
                invariant
                    x.len() == y.len(),
                    i <= x.len(),
                    *a == JsonValue::Array(*x),
                    *b == JsonValue::Array(*y),
                    forall|j: int| 0 <= j < i ==> #[trigger] x@[j]@ == y@[j]@,
                decreases x.len() - i,
            {
                assert(decreases_to!(a => x@[i as int]));
                if !json_eq(&x[i], &y[i]) {
                    assert(a@->Array_0[i as int] != b@->Array_0[i as int]);
                    return false;
                }
                i = i + 1;
            }
            assert forall|j: int| 0 <= j < x.len() implies a@->Array_0[j] == b@->Array_0[j] by {
                assert(x@[j]@ == y@[j]@);
            }
            assert(a@->Array_0 =~= b@->Array_0);
            true
        },
        (JsonValue::Object(x), JsonValue::Object(y)) => {
            if x.len() != y.len() {
                assert(a@->Object_0.len() != b@->Object_0.len());
                return false;
            }
            let mut i: usize = 0;
            while i < x.len()
                invariant
                    x.len() == y.len(),
                    i <= x.len(),
                    *a == JsonValue::Object(*x),
                    *b == JsonValue::Object(*y),
                    forall|j: int|
                        #![trigger x@[j]]
                        0 <= j < i ==> x@[j].0@ == y@[j].0@ && x@[j].1@ == y@[j].1@,
                decreases x.len() - i,
            {
                assert(decreases_to!(a => x@[i as int].1));
                let same_key = x[i].0 == y[i].0;
                if !same_key {
                    assert(a@->Object_0[i as int] != b@->Object_0[i as int]);
                    return false;
                }
                if !json_eq(&x[i].1, &y[i].1) {
                    assert(a@->Object_0[i as int] != b@->Object_0[i as int]);
                    return false;
                }
                i = i + 1;
            }
            assert forall|j: int| 0 <= j < x.len() implies a@->Object_0[j] == b@->Object_0[j] by {
                assert(x@[j].0@ == y@[j].0@ && x@[j].1@ == y@[j].1@);
            }
            assert(a@->Object_0 =~= b@->Object_0);
            true
        },
        _ => false,
    }
}

/// Whether `x` is one of the documents in `items`.
pub fn contains_value(items: &Vec<JsonValue>, x: &JsonValue) -> (r: bool)
    ensures
        r == models(items@).contains(x@),
{
    let mut i: usize = 0;
    while i < items.len()
        invariant
            i <= items.len(),
            forall|j: int| 0 <= j < i ==> #[trigger] items@[j]@ != x@,
        decreases items.len() - i,
    {
        if json_eq(&items[i], x) {
            assert(models(items@)[i as int] == x@);
            return true;
        }
        i = i + 1;
    }
    assert forall|j: int| 0 <= j < models(items@).len() implies #[trigger] models(items@)[j]
        != x@ by {
        assert(items@[j]@ != x@);
    }
    false
}

/// Whether every document of `a` occurs in `b`.
pub fn all_contained(a: &Vec<JsonValue>, b: &Vec<JsonValue>) -> (r: bool)
    ensures
        r == included(models(a@), models(b@)),
{
    let mut i: usize = 0;
    while i < a.len()
        invariant
            i <= a.len(),
            forall|j: int| 0 <= j < i ==> #[trigger] models(b@).contains(models(a@)[j]),
        decreases a.len() - i,
    {
        if !contains_value(b, &a[i]) {
            assert(!models(b@).contains(models(a@)[i as int]));
            return false;
        }
        i = i + 1;
    }
    true
}

/// Whether some document occurs both in `a` and in `b`.
pub fn any_shared(a: &Vec<JsonValue>, b: &Vec<JsonValue>) -> (r: bool)
    ensures
        r == overlap(models(a@), models(b@)),
{
    let mut i: usize = 0;
    while i < a.len()
        invariant
            i <= a.len(),
            forall|j: int| 0 <= j < i ==> !#[trigger] models(b@).contains(models(a@)[j]),
        decreases a.len() - i,
    {
        if contains_value(b, &a[i]) {
            assert(models(b@).contains(models(a@)[i as int]));
            return true;
        }
        i = i + 1;
    }
    false
}

} // verus!
