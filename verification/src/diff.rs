//! The generic JSON diff: the difference between an old and a new value,
//! as the minimal patch the client needs.
//!
//! Arrays are replaced wholesale on any change; objects are compared key by
//! key, with deleted keys patched to null and new keys included whole; a
//! scalar change to the empty string becomes an empty-rows marker, because
//! the client reads it as "this conditional now renders nothing".

use vstd::prelude::*;

use crate::json::{entries_dv, json_dv, json_eq, json_seq_dv, Json, JsonV};
use crate::strip::{spec_strip, Strip};

verus! {

/// The value the object holds at the first occurrence of `k`.
pub open spec fn obj_lookup(es: Seq<(Seq<char>, JsonV)>, k: Seq<char>) -> Option<JsonV>
    decreases es,
{
    if es.len() == 0 {
        None
    } else if es.first().0 == k {
        Some(es.first().1)
    } else {
        obj_lookup(es.drop_first(), k)
    }
}

/// Whether the object holds the key `k`.
pub open spec fn obj_has(es: Seq<(Seq<char>, JsonV)>, k: Seq<char>) -> bool {
    obj_lookup(es, k) is Some
}

/// What the diff of two values is: `None` means no visible change.
pub open spec fn spec_diff(old: JsonV, new: JsonV) -> Option<JsonV>
    decreases old, new, 0nat,
{
    match old {
        JsonV::Null => spec_strip(true, true, new),
        JsonV::Arr(o) => match new {
            JsonV::Arr(n) => spec_diff_array(o, n),
            _ => Some(JsonV::Arr(Seq::empty())),
        },
        JsonV::Obj(o) => if new is Obj {
            spec_diff_map(o, new->Obj_0)
        } else {
            spec_diff_leaf(old, new)
        },
        _ => spec_diff_leaf(old, new),
    }
}

/// The diff at a leaf position: the new value when it changed, with a
/// change to empty text encoded as an empty-rows marker.
pub open spec fn spec_diff_leaf(old: JsonV, new: JsonV) -> Option<JsonV> {
    if old != new {
        if new == JsonV::Text(Seq::empty()) {
            Some(JsonV::Obj(seq![(seq!['d'], JsonV::Arr(Seq::empty()))]))
        } else {
            Some(new)
        }
    } else {
        None
    }
}

/// The diff of two arrays: the whole new array on any difference.
pub open spec fn spec_diff_array(o: Seq<JsonV>, n: Seq<JsonV>) -> Option<JsonV> {
    if o == n {
        None
    } else {
        Some(JsonV::Arr(n))
    }
}

/// The diff of two objects.
pub open spec fn spec_diff_map(
    o: Seq<(Seq<char>, JsonV)>,
    n: Seq<(Seq<char>, JsonV)>,
) -> Option<JsonV>
    decreases o, n, 2nat,
{
    if o.len() == 0 {
        Some(JsonV::Obj(n))
    } else if n.len() == 0 {
        Some(JsonV::Obj(Seq::new(o.len(), |i: int| (o[i].0, JsonV::Null))))
    } else {
        let r = spec_diff_pass1(o, n) + spec_new_keys(o, n);
        if r.len() == 0 {
            None
        } else {
            Some(JsonV::Obj(r))
        }
    }
}

/// The first pass over the old object's entries: a changed value
/// contributes its recursive diff, an unchanged one nothing, and a deleted
/// key contributes null.
pub open spec fn spec_diff_pass1(
    o: Seq<(Seq<char>, JsonV)>,
    n: Seq<(Seq<char>, JsonV)>,
) -> Seq<(Seq<char>, JsonV)>
    decreases o, n, 1nat,
{
    if o.len() == 0 {
        Seq::empty()
    } else {
        let rest = spec_diff_pass1(o.drop_first(), n);
        match obj_lookup(n, o.first().0) {
            Some(nv) => match spec_diff(o.first().1, nv) {
                Some(c) => seq![(o.first().0, c)] + rest,
                None => rest,
            },
            None => seq![(o.first().0, JsonV::Null)] + rest,
        }
    }
}

/// The second pass: the new object's entries whose key the old object does
/// not hold, included whole.
pub open spec fn spec_new_keys(
    o: Seq<(Seq<char>, JsonV)>,
    n: Seq<(Seq<char>, JsonV)>,
) -> Seq<(Seq<char>, JsonV)>
    decreases n,
{
    if n.len() == 0 {
        Seq::empty()
    } else {
        let rest = spec_new_keys(o, n.drop_first());
        if obj_has(o, n.first().0) {
            rest
        } else {
            seq![n.first()] + rest
        }
    }
}

/// A key found at `j`, with no occurrence before `j`, is where lookup ends.
proof fn lemma_obj_lookup_at(es: Seq<(Seq<char>, JsonV)>, k: Seq<char>, j: int)
    requires
        0 <= j <= es.len(),
        forall|i: int| 0 <= i < j ==> es[i].0 != k,
        j < es.len() ==> es[j].0 == k,
    ensures
        j < es.len() ==> obj_lookup(es, k) == Some(es[j].1),
        j == es.len() ==> obj_lookup(es, k) is None,
    decreases j,
{
    if j > 0 {
        lemma_obj_lookup_at(es.drop_first(), k, j - 1);
        assert(forall|i: int| 0 <= i < j - 1 ==> es.drop_first()[i] == es[i + 1]);
        if j < es.len() {
            assert(es.drop_first()[j - 1] == es[j]);
        }
    }
}

/// Finds the position of the first entry with the given key.
#[verifier::loop_isolation(false)]
pub fn obj_find(entries: &Vec<(String, Json)>, key: &String) -> (r: Option<usize>)
    ensures
        match r {
            Some(j) => j < entries@.len() && entries@[j as int].0@ == key@ && obj_lookup(
                entries_dv(entries@),
                key@,
            ) == Some(json_dv(entries@[j as int].1)),
            None => obj_lookup(entries_dv(entries@), key@) is None,
        },
{
    proof {
        crate::json::lemma_entries_dv_len_index(entries@);
    }
    let n = entries.len();
    let mut i: usize = 0;
    while i < n
        invariant
            i <= n,
            forall|k: int| 0 <= k < i ==> entries@[k].0@ != key@,
        decreases n - i,
    {
        if entries[i].0.eq(key) {
            proof {
                lemma_obj_lookup_at(entries_dv(entries@), key@, i as int);
            }
            return Some(i);
        }
        i = i + 1;
    }
    proof {
        lemma_obj_lookup_at(entries_dv(entries@), key@, n as int);
    }
    None
}

/// Building the first pass one old entry at a time.
proof fn lemma_pass1_take_step(
    o: Seq<(Seq<char>, JsonV)>,
    n: Seq<(Seq<char>, JsonV)>,
    i: int,
)
    requires
        0 <= i < o.len(),
    ensures
        spec_diff_pass1(o.take(i + 1), n) =~= spec_diff_pass1(o.take(i), n) + ({
            match obj_lookup(n, o[i].0) {
                Some(nv) => match spec_diff(o[i].1, nv) {
                    Some(c) => seq![(o[i].0, c)],
                    None => Seq::empty(),
                },
                None => seq![(o[i].0, JsonV::Null)],
            }
        }),
    decreases i,
{
    if i == 0 {
        assert(o.take(1).first() == o[0]);
        assert(o.take(1).drop_first() =~= Seq::empty());
        assert(o.take(0) =~= Seq::empty());
    } else {
        lemma_pass1_take_step(o.drop_first(), n, i - 1);
        assert(o.take(i + 1).first() == o[0]);
        assert(o.take(i + 1).drop_first() =~= o.drop_first().take(i));
        assert(o.take(i).first() == o[0]);
        assert(o.take(i).drop_first() =~= o.drop_first().take(i - 1));
        assert(o.drop_first()[i - 1] == o[i]);
    }
}

/// Building the second pass one new entry at a time.
proof fn lemma_new_keys_take_step(
    o: Seq<(Seq<char>, JsonV)>,
    n: Seq<(Seq<char>, JsonV)>,
    j: int,
)
    requires
        0 <= j < n.len(),
    ensures
        spec_new_keys(o, n.take(j + 1)) =~= spec_new_keys(o, n.take(j)) + ({
            if obj_has(o, n[j].0) {
                Seq::empty()
            } else {
                seq![n[j]]
            }
        }),
    decreases j,
{
    if j == 0 {
        assert(n.take(1).first() == n[0]);
        assert(n.take(1).drop_first() =~= Seq::empty());
        assert(n.take(0) =~= Seq::empty());
    } else {
        lemma_new_keys_take_step(o, n.drop_first(), j - 1);
        assert(n.take(j + 1).first() == n[0]);
        assert(n.take(j + 1).drop_first() =~= n.drop_first().take(j));
        assert(n.take(j).first() == n[0]);
        assert(n.take(j).drop_first() =~= n.drop_first().take(j - 1));
        assert(n.drop_first()[j - 1] == n[j]);
    }
}

/// The diff of two JSON values: `None` means no visible change.
#[verifier::loop_isolation(false)]
pub fn diff(old: &Json, new: &Json) -> (r: Option<Json>)
    ensures
        r.deep_view() == spec_diff(old.deep_view(), new.deep_view()),
    decreases old, new, 1nat,
{
    match old {
        Json::Null => crate::strip::strip(
            Strip::Nulls.and(Strip::Empties),
            crate::json::json_clone(new),
        ),
        Json::Arr(o) => {
            match new {
                Json::Arr(n) => {
                    proof {
                        crate::json::lemma_json_seq_dv_len_index(o@);
                        crate::json::lemma_json_seq_dv_len_index(n@);
                    }
                    if o.len() != n.len() {
                        return Some(crate::json::json_clone(new));
                    }
                    let len = o.len();
                    let mut i: usize = 0;
                    while i < len
                        invariant
                            i <= len,
                            forall|k: int| 0 <= k < i ==> json_dv(o@[k]) == json_dv(n@[k]),
                        decreases len - i,
                    {
                        if !json_eq(&o[i], &n[i]) {
                            proof {
                                assert(json_seq_dv(o@)[i as int] != json_seq_dv(n@)[i as int]);
                            }
                            return Some(crate::json::json_clone(new));
                        }
                        i = i + 1;
                    }
                    proof {
                        assert(json_seq_dv(o@) =~= json_seq_dv(n@));
                    }
                    None
                },
                _ => {
                    let empty: Vec<Json> = Vec::new();
                    proof {
                        assert(json_seq_dv(empty@) =~= Seq::<JsonV>::empty());
                    }
                    Some(Json::Arr(empty))
                },
            }
        },
        Json::Obj(o) => {
            match new {
                Json::Obj(n) => diff_map(old, o, new, n),
                _ => diff_leaf(old, new),
            }
        },
        _ => diff_leaf(old, new),
    }
}

/// The diff at a leaf position.
fn diff_leaf(old: &Json, new: &Json) -> (r: Option<Json>)
    ensures
        r.deep_view() == spec_diff_leaf(old.deep_view(), new.deep_view()),
{
    if json_eq(old, new) {
        None
    } else {
        let is_empty_text = match new {
            Json::Text(t) => t.as_str().is_empty(),
            _ => false,
        };
        if is_empty_text {
            let mut entries: Vec<(String, Json)> = Vec::new();
            let empty_rows: Vec<Json> = Vec::new();
            entries.push(("d".to_owned(), Json::Arr(empty_rows)));
            proof {
                crate::json::lemma_entries_dv_len_index(entries@);
                reveal_strlit("d");
                assert("d"@ =~= seq!['d']);
                assert(entries_dv(entries@) =~= seq![
                    (seq!['d'], JsonV::Arr(Seq::<JsonV>::empty())),
                ]);
                assert(new.deep_view() == JsonV::Text(Seq::<char>::empty()));
            }
            Some(Json::Obj(entries))
        } else {
            proof {
                if new.deep_view() == JsonV::Text(Seq::<char>::empty()) {
                    assert(new is Text);
                }
            }
            Some(crate::json::json_clone(new))
        }
    }
}

/// The diff of two objects, key by key.
#[verifier::loop_isolation(false)]
fn diff_map(
    old: &Json,
    o: &Vec<(String, Json)>,
    new: &Json,
    n: &Vec<(String, Json)>,
) -> (r: Option<Json>)
    requires
        *old == Json::Obj(*o),
        *new == Json::Obj(*n),
    ensures
        r.deep_view() == spec_diff_map(entries_dv(o@), entries_dv(n@)),
    decreases old, new, 0nat,
{
    proof {
        crate::json::lemma_entries_dv_len_index(o@);
        crate::json::lemma_entries_dv_len_index(n@);
    }
    let ghost odv = entries_dv(o@);
    let ghost ndv = entries_dv(n@);
    if o.len() == 0 {
        return Some(crate::json::json_clone(new));
    }
    if n.len() == 0 {
        let mut nulls: Vec<(String, Json)> = Vec::new();
        let olen = o.len();
        let mut i: usize = 0;
        while i < olen
            invariant
                i <= olen,
                nulls@.len() == i,
                forall|k: int|
                    0 <= k < i ==> nulls@[k].0@ == o@[k].0@ && json_dv(nulls@[k].1)
                        == JsonV::Null,
            decreases olen - i,
        {
            nulls.push((o[i].0.clone(), Json::Null));
            i = i + 1;
        }
        proof {
            crate::json::lemma_entries_dv_len_index(nulls@);
            assert(entries_dv(nulls@) =~= Seq::new(odv.len(), |i: int| (odv[i].0, JsonV::Null)));
        }
        return Some(Json::Obj(nulls));
    }
    let mut result: Vec<(String, Json)> = Vec::new();
    let olen = o.len();
    let mut i: usize = 0;
    proof {
        assert(odv.take(0) =~= Seq::empty());
        assert(entries_dv(result@) =~= spec_diff_pass1(odv.take(0), ndv));
    }
    while i < olen
        invariant
            i <= olen,
            entries_dv(result@) =~~= spec_diff_pass1(odv.take(i as int), ndv),
        decreases olen - i,
    {
        let ghost pre = result@;
        match obj_find(n, &o[i].0) {
            Some(j) => {
                proof {
                    assert(decreases_to!(*old => old->Obj_0));
                    assert(decreases_to!(old->Obj_0 => old->Obj_0@));
                    assert(decreases_to!(old->Obj_0@ => old->Obj_0@[i as int]));
                    assert(decreases_to!(old->Obj_0@[i as int] => old->Obj_0@[i as int].1));
                    assert(decreases_to!(*old => o@[i as int].1));
                }
                match diff(&o[i].1, &n[j].1) {
                    Some(c) => {
                        proof {
                            crate::json::lemma_entries_dv_push(result@, (o@[i as int].0, c));
                        }
                        let key = o[i].0.clone();
                        result.push((key, c));
                    },
                    None => {},
                }
            },
            None => {
                proof {
                    crate::json::lemma_entries_dv_push(result@, (o@[i as int].0, Json::Null));
                }
                let key = o[i].0.clone();
                result.push((key, Json::Null));
            },
        }
        proof {
            lemma_pass1_take_step(odv, ndv, i as int);
        }
        i = i + 1;
    }
    proof {
        assert(odv.take(olen as int) =~= odv);
    }
    let nlen = n.len();
    let mut j: usize = 0;
    proof {
        assert(ndv.take(0) =~= Seq::empty());
        assert(entries_dv(result@) =~~= spec_diff_pass1(odv, ndv) + spec_new_keys(
            odv,
            ndv.take(0),
        ));
    }
    while j < nlen
        invariant
            j <= nlen,
            entries_dv(result@) =~~= spec_diff_pass1(odv, ndv) + spec_new_keys(
                odv,
                ndv.take(j as int),
            ),
        decreases nlen - j,
    {
        match obj_find(o, &n[j].0) {
            Some(_) => {},
            None => {
                let key = n[j].0.clone();
                let v = crate::json::json_clone(&n[j].1);
                proof {
                    crate::json::lemma_entries_dv_push(result@, (key, v));
                }
                result.push((key, v));
            },
        }
        proof {
            lemma_new_keys_take_step(odv, ndv, j as int);
        }
        j = j + 1;
    }
    proof {
        assert(ndv.take(nlen as int) =~= ndv);
        crate::json::lemma_entries_dv_len_index(result@);
    }
    if result.len() == 0 {
        None
    } else {
        Some(Json::Obj(result))
    }
}


/// A value whose objects are all non-empty and have pairwise distinct keys.
///
/// Every tree encoding that actually renders something has this shape; an
/// empty object can only stand for a node that renders nothing at all.
pub open spec fn self_clean(v: JsonV) -> bool
    decreases v, 0nat,
{
    match v {
        JsonV::Obj(es) => es.len() > 0 && keys_unique(es) && entries_clean(es),
        _ => true,
    }
}

/// Whether every value of an entry sequence is clean.
pub open spec fn entries_clean(es: Seq<(Seq<char>, JsonV)>) -> bool
    decreases es, 1nat,
{
    if es.len() == 0 {
        true
    } else {
        self_clean(es.first().1) && entries_clean(es.drop_first())
    }
}

/// Whether an entry sequence has pairwise distinct keys.
pub open spec fn keys_unique(es: Seq<(Seq<char>, JsonV)>) -> bool {
    forall|i: int, j: int| 0 <= i < j < es.len() ==> es[i].0 != es[j].0
}

/// With distinct keys, looking an entry's own key up finds that entry.
proof fn lemma_unique_lookup(es: Seq<(Seq<char>, JsonV)>)
    requires
        keys_unique(es),
    ensures
        forall|i: int| 0 <= i < es.len() ==> obj_lookup(es, #[trigger] es[i].0) == Some(es[i].1),
    decreases es.len(),
{
    if es.len() > 0 {
        assert(keys_unique(es.drop_first())) by {
            assert(forall|i: int, j: int|
                0 <= i < j < es.drop_first().len() ==> es.drop_first()[i] == es[i + 1]
                    && es.drop_first()[j] == es[j + 1]);
        }
        lemma_unique_lookup(es.drop_first());
        assert forall|i: int|
            0 <= i < es.len() implies obj_lookup(es, #[trigger] es[i].0) == Some(es[i].1) by {
            if i > 0 {
                assert(es[0].0 != es[i].0);
                assert(es.drop_first()[i - 1] == es[i]);
            }
        }
    }
}

/// The first diff pass of a clean object against itself contributes
/// nothing.
proof fn lemma_pass1_self(o: Seq<(Seq<char>, JsonV)>, n: Seq<(Seq<char>, JsonV)>)
    requires
        entries_clean(o),
        forall|i: int| 0 <= i < o.len() ==> obj_lookup(n, #[trigger] o[i].0) == Some(o[i].1),
    ensures
        spec_diff_pass1(o, n) == Seq::<(Seq<char>, JsonV)>::empty(),
    decreases o, 1nat,
{
    if o.len() > 0 {
        assert(obj_lookup(n, o[0].0) == Some(o[0].1));
        lemma_diff_self(o.first().1);
        assert(forall|i: int|
            0 <= i < o.drop_first().len() ==> o.drop_first()[i] == o[i + 1]);
        lemma_pass1_self(o.drop_first(), n);
    }
}

/// The second diff pass of an object against itself contributes nothing.
proof fn lemma_new_keys_self(o: Seq<(Seq<char>, JsonV)>, n: Seq<(Seq<char>, JsonV)>)
    requires
        forall|j: int| 0 <= j < n.len() ==> obj_has(o, #[trigger] n[j].0),
    ensures
        spec_new_keys(o, n) == Seq::<(Seq<char>, JsonV)>::empty(),
    decreases n,
{
    if n.len() > 0 {
        assert(obj_has(o, n[0].0));
        assert(forall|j: int|
            0 <= j < n.drop_first().len() ==> n.drop_first()[j] == n[j + 1]);
        lemma_new_keys_self(o, n.drop_first());
    }
}

/// Diffing a clean value with itself yields no patch: the diff engine is
/// idempotent on every value without empty-object subvalues.
pub proof fn lemma_diff_self(v: JsonV)
    requires
        self_clean(v),
    ensures
        spec_diff(v, v) is None,
    decreases v, 0nat,
{
    match v {
        JsonV::Obj(es) => {
            lemma_unique_lookup(es);
            assert forall|i: int|
                0 <= i < es.len() implies self_clean(#[trigger] es[i].1) by {
                lemma_entries_clean_index(es, i);
            }
            lemma_pass1_self(es, es);
            lemma_new_keys_self(es, es);
            assert(spec_diff_pass1(es, es) + spec_new_keys(es, es) =~= Seq::<(
                Seq<char>,
                JsonV,
            )>::empty());
        },
        _ => {},
    }
}

/// Each entry of a clean entry sequence holds a clean value.
proof fn lemma_entries_clean_index(es: Seq<(Seq<char>, JsonV)>, i: int)
    requires
        entries_clean(es),
        0 <= i < es.len(),
    ensures
        self_clean(es[i].1),
    decreases i,
{
    if i > 0 {
        lemma_entries_clean_index(es.drop_first(), i - 1);
        assert(es.drop_first()[i - 1] == es[i]);
    }
}


/// Cleanliness of an entry sequence, entry by entry.
pub proof fn lemma_entries_clean_index_iff(es: Seq<(Seq<char>, JsonV)>)
    ensures
        entries_clean(es) <==> (forall|i: int|
            0 <= i < es.len() ==> self_clean(#[trigger] es[i].1)),
    decreases es.len(),
{
    if es.len() > 0 {
        lemma_entries_clean_index_iff(es.drop_first());
        assert(forall|i: int|
            0 <= i < es.drop_first().len() ==> es.drop_first()[i] == es[i + 1]);
        if entries_clean(es) {
            assert forall|i: int| 0 <= i < es.len() implies self_clean(#[trigger] es[i].1) by {
                if i > 0 {
                    assert(es.drop_first()[i - 1] == es[i]);
                }
            }
        }
        if forall|i: int| 0 <= i < es.len() ==> self_clean(#[trigger] es[i].1) {
            assert(self_clean(es[0].1));
            assert forall|i: int|
                0 <= i < es.drop_first().len() implies self_clean(
                #[trigger] es.drop_first()[i].1,
            ) by {
                assert(es.drop_first()[i] == es[i + 1]);
            }
        }
    }
}

} // verus!
