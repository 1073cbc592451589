//! The crate's JSON value model: the wire encoder, the diff engine and the
//! strip pass all work on these values. An object is a sequence of key-value
//! entries; entry order is a representation detail of this model, and two
//! objects are compared entry for entry.

use vstd::prelude::*;

verus! {

/// Mathematical value of a [`Json`] value.
#[verifier::ext_equal]
pub enum JsonV {
    /// The JSON null.
    Null,
    /// A boolean.
    Bool(bool),
    /// A non-negative integer; the wire format uses no other numbers.
    Num(u64),
    /// A string.
    Text(Seq<char>),
    /// An array.
    Arr(Seq<JsonV>),
    /// An object: key-value entries in order.
    Obj(Seq<(Seq<char>, JsonV)>),
}

/// A JSON value.
#[derive(Debug, PartialEq, Eq)]
pub enum Json {
    /// The JSON null.
    Null,
    /// A boolean.
    Bool(bool),
    /// A non-negative integer; the wire format uses no other numbers.
    Num(u64),
    /// A string.
    Text(String),
    /// An array.
    Arr(Vec<Json>),
    /// An object: key-value entries in order.
    Obj(Vec<(String, Json)>),
}

/// The mathematical value of a JSON value.
pub open spec fn json_dv(j: Json) -> JsonV
    decreases j,
{
    match j {
        Json::Null => JsonV::Null,
        Json::Bool(b) => JsonV::Bool(b),
        Json::Num(n) => JsonV::Num(n),
        Json::Text(s) => JsonV::Text(s@),
        Json::Arr(a) => JsonV::Arr(json_seq_dv(a@)),
        Json::Obj(o) => JsonV::Obj(entries_dv(o@)),
    }
}

/// The mathematical value of a sequence of JSON values.
pub open spec fn json_seq_dv(s: Seq<Json>) -> Seq<JsonV>
    decreases s, s.len(),
{
    if s.len() == 0 {
        Seq::empty()
    } else {
        json_seq_dv(s.drop_last()).push(json_dv(s.last()))
    }
}

/// The mathematical value of a sequence of object entries.
pub open spec fn entries_dv(s: Seq<(String, Json)>) -> Seq<(Seq<char>, JsonV)>
    decreases s, s.len(),
{
    if s.len() == 0 {
        Seq::empty()
    } else {
        entries_dv(s.drop_last()).push((s.last().0@, json_dv(s.last().1)))
    }
}

impl DeepView for Json {
    type V = JsonV;

    open spec fn deep_view(&self) -> JsonV {
        json_dv(*self)
    }
}

/// Relates the element-wise view of a vector of values to its sequence view.
pub broadcast proof fn lemma_json_seq_dv_len_index(s: Seq<Json>)
    ensures
        (#[trigger] json_seq_dv(s)).len() == s.len(),
        forall|i: int| 0 <= i < s.len() ==> json_seq_dv(s)[i] == json_dv(s[i]),
    decreases s.len(),
{
    if s.len() > 0 {
        lemma_json_seq_dv_len_index(s.drop_last());
    }
}

/// Relates the entry-wise view of an object to its sequence view.
pub broadcast proof fn lemma_entries_dv_len_index(s: Seq<(String, Json)>)
    ensures
        (#[trigger] entries_dv(s)).len() == s.len(),
        forall|i: int|
            0 <= i < s.len() ==> entries_dv(s)[i] == (s[i].0@, json_dv(s[i].1)),
    decreases s.len(),
{
    if s.len() > 0 {
        lemma_entries_dv_len_index(s.drop_last());
    }
}

/// Appending a value commutes with taking views.
pub broadcast proof fn lemma_json_seq_dv_push(s: Seq<Json>, j: Json)
    ensures
        #[trigger] json_seq_dv(s.push(j)) == json_seq_dv(s).push(json_dv(j)),
{
    assert(s.push(j).drop_last() =~= s);
    assert(s.push(j).last() == j);
}

/// Appending an entry commutes with taking views.
pub broadcast proof fn lemma_entries_dv_push(s: Seq<(String, Json)>, e: (String, Json))
    ensures
        #[trigger] entries_dv(s.push(e)) == entries_dv(s).push((e.0@, json_dv(e.1))),
{
    assert(s.push(e).drop_last() =~= s);
    assert(s.push(e).last() == e);
}

/// Structural equality of two JSON values.
pub fn json_eq(a: &Json, b: &Json) -> (r: bool)
    ensures
        r == (a.deep_view() == b.deep_view()),
    decreases a,
{
    match (a, b) {
        (Json::Null, Json::Null) => true,
        (Json::Bool(x), Json::Bool(y)) => x == y,
        (Json::Num(x), Json::Num(y)) => x == y,
        (Json::Text(x), Json::Text(y)) => x.eq(y),
        (Json::Arr(x), Json::Arr(y)) => {
            proof {
                lemma_json_seq_dv_len_index(x@);
                lemma_json_seq_dv_len_index(y@);
            }
            if x.len() != y.len() {
                return false;
            }
            let n = x.len();
            let mut i: usize = 0;
            while i < n
                invariant
                    n == x@.len() && n == y@.len(),
                    i <= n,
                    *a == Json::Arr(*x) && *b == Json::Arr(*y),
                    forall|k: int| 0 <= k < i ==> json_dv(x@[k]) == json_dv(y@[k]),
                decreases n - i,
            {
                proof {
                    assert(decreases_to!(*a => a->Arr_0));
                    assert(decreases_to!(a->Arr_0 => a->Arr_0@));
                    assert(decreases_to!(a->Arr_0@ => a->Arr_0@[i as int]));
                    assert(decreases_to!(*a => x@[i as int]));
                }
                if !json_eq(&x[i], &y[i]) {
                    proof {
                        lemma_json_seq_dv_len_index(x@);
                        lemma_json_seq_dv_len_index(y@);
                        assert(json_seq_dv(x@)[i as int] == json_dv(x@[i as int]));
                        assert(json_seq_dv(y@)[i as int] == json_dv(y@[i as int]));
                        assert(json_seq_dv(x@) != json_seq_dv(y@));
                    }
                    return false;
                }
                i = i + 1;
            }
            proof {
                lemma_json_seq_dv_len_index(x@);
                lemma_json_seq_dv_len_index(y@);
                assert(json_seq_dv(x@) =~= json_seq_dv(y@));
            }
            true
        },
        (Json::Obj(x), Json::Obj(y)) => {
            proof {
                lemma_entries_dv_len_index(x@);
                lemma_entries_dv_len_index(y@);
            }
            if x.len() != y.len() {
                return false;
            }
            let n = x.len();
            let mut i: usize = 0;
            while i < n
                invariant
                    n == x@.len() && n == y@.len(),
                    i <= n,
                    *a == Json::Obj(*x) && *b == Json::Obj(*y),
                    forall|k: int|
                        0 <= k < i ==> x@[k].0@ == y@[k].0@ && json_dv(x@[k].1) == json_dv(
                            y@[k].1,
                        ),
                decreases n - i,
            {
                if !x[i].0.eq(&y[i].0) {
                    proof {
                        lemma_entries_dv_len_index(x@);
                        lemma_entries_dv_len_index(y@);
                        assert(entries_dv(x@)[i as int] == (x@[i as int].0@, json_dv(
                            x@[i as int].1,
                        )));
                        assert(entries_dv(y@)[i as int] == (y@[i as int].0@, json_dv(
                            y@[i as int].1,
                        )));
                        assert(entries_dv(x@) != entries_dv(y@));
                    }
                    return false;
                }
                proof {
                    assert(decreases_to!(*a => a->Obj_0));
                    assert(decreases_to!(a->Obj_0 => a->Obj_0@));
                    assert(decreases_to!(a->Obj_0@ => a->Obj_0@[i as int]));
                    assert(decreases_to!(a->Obj_0@[i as int] => a->Obj_0@[i as int].1));
                    assert(decreases_to!(*a => x@[i as int].1));
                }
                if !json_eq(&x[i].1, &y[i].1) {
                    proof {
                        lemma_entries_dv_len_index(x@);
                        lemma_entries_dv_len_index(y@);
                        assert(entries_dv(x@)[i as int] == (x@[i as int].0@, json_dv(
                            x@[i as int].1,
                        )));
                        assert(entries_dv(y@)[i as int] == (y@[i as int].0@, json_dv(
                            y@[i as int].1,
                        )));
                        assert(entries_dv(x@) != entries_dv(y@));
                    }
                    return false;
                }
                i = i + 1;
            }
            proof {
                lemma_entries_dv_len_index(x@);
                lemma_entries_dv_len_index(y@);
                assert(entries_dv(x@) =~= entries_dv(y@));
            }
            true
        },
        _ => {
            proof {
                assert(a.deep_view() != b.deep_view());
            }
            false
        },
    }
}


/// A structural copy of a JSON value.
#[verifier::loop_isolation(false)]
pub fn json_clone(v: &Json) -> (r: Json)
    ensures
        r.deep_view() == v.deep_view(),
    decreases v,
{
    match v {
        Json::Null => Json::Null,
        Json::Bool(b) => Json::Bool(*b),
        Json::Num(n) => Json::Num(*n),
        Json::Text(s) => Json::Text(s.clone()),
        Json::Arr(x) => {
            let n = x.len();
            let mut out: Vec<Json> = Vec::new();
            let mut i: usize = 0;
            while i < n
                invariant
                    i <= n,
                    out@.len() == i,
                    forall|k: int| 0 <= k < i ==> json_dv(out@[k]) == json_dv(x@[k]),
                decreases n - i,
            {
                proof {
                    assert(decreases_to!(*v => v->Arr_0));
                    assert(decreases_to!(v->Arr_0 => v->Arr_0@));
                    assert(decreases_to!(v->Arr_0@ => v->Arr_0@[i as int]));
                    assert(decreases_to!(*v => x@[i as int]));
                }
                let c = json_clone(&x[i]);
                out.push(c);
                i = i + 1;
            }
            proof {
                lemma_json_seq_dv_len_index(out@);
                lemma_json_seq_dv_len_index(x@);
                assert(json_seq_dv(out@) =~= json_seq_dv(x@));
            }
            Json::Arr(out)
        },
        Json::Obj(x) => {
            let n = x.len();
            let mut out: Vec<(String, Json)> = Vec::new();
            let mut i: usize = 0;
            while i < n
                invariant
                    i <= n,
                    out@.len() == i,
                    forall|k: int|
                        0 <= k < i ==> out@[k].0@ == x@[k].0@ && json_dv(out@[k].1) == json_dv(
                            x@[k].1,
                        ),
                decreases n - i,
            {
                proof {
                    assert(decreases_to!(*v => v->Obj_0));
                    assert(decreases_to!(v->Obj_0 => v->Obj_0@));
                    assert(decreases_to!(v->Obj_0@ => v->Obj_0@[i as int]));
                    assert(decreases_to!(v->Obj_0@[i as int] => v->Obj_0@[i as int].1));
                    assert(decreases_to!(*v => x@[i as int].1));
                }
                let key = x[i].0.clone();
                let c = json_clone(&x[i].1);
                out.push((key, c));
                i = i + 1;
            }
            proof {
                lemma_entries_dv_len_index(out@);
                lemma_entries_dv_len_index(x@);
                assert(entries_dv(out@) =~= entries_dv(x@));
            }
            Json::Obj(out)
        },
    }
}

} // verus!
