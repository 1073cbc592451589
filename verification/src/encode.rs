//! The wire encoder: a rendered tree as compact JSON.
//!
//! Statics go under `"s"`, the template table under `"p"` keyed by
//! stringified id, each ordinary dynamic slot under its stringified
//! position, and loop rows under `"d"` as an array of per-row arrays.

use vstd::prelude::*;

use crate::json::{Json, JsonV};
use crate::rendered::{
    Dynamic, DynamicV, Dynamics, DynamicsV, ListDynamic, ListDynamicV, ListItemV, Rendered,
    RenderedListItem, RenderedV,
};

verus! {

/// The decimal digit character for `d`.
pub open spec fn dec_digit(d: nat) -> char {
    if d == 0 {
        '0'
    } else if d == 1 {
        '1'
    } else if d == 2 {
        '2'
    } else if d == 3 {
        '3'
    } else if d == 4 {
        '4'
    } else if d == 5 {
        '5'
    } else if d == 6 {
        '6'
    } else if d == 7 {
        '7'
    } else if d == 8 {
        '8'
    } else {
        '9'
    }
}

/// The decimal text of a non-negative number.
pub open spec fn dec_str(n: nat) -> Seq<char>
    decreases n,
{
    if n < 10 {
        seq![dec_digit(n)]
    } else {
        dec_str(n / 10).push(dec_digit(n % 10))
    }
}

/// The decimal text of a single digit.
fn digit_string(d: usize) -> (r: String)
    requires
        d < 10,
    ensures
        r@ == seq![dec_digit(d as nat)],
{
    let r: &str = if d == 0 {
        "0"
    } else if d == 1 {
        "1"
    } else if d == 2 {
        "2"
    } else if d == 3 {
        "3"
    } else if d == 4 {
        "4"
    } else if d == 5 {
        "5"
    } else if d == 6 {
        "6"
    } else if d == 7 {
        "7"
    } else if d == 8 {
        "8"
    } else {
        "9"
    };
    proof {
        reveal_strlit("0");
        reveal_strlit("1");
        reveal_strlit("2");
        reveal_strlit("3");
        reveal_strlit("4");
        reveal_strlit("5");
        reveal_strlit("6");
        reveal_strlit("7");
        reveal_strlit("8");
        reveal_strlit("9");
        assert(r@ =~= seq![dec_digit(d as nat)]);
    }
    r.to_owned()
}

/// The decimal text of a number.
pub fn usize_to_string(n: usize) -> (r: String)
    ensures
        r@ == dec_str(n as nat),
    decreases n,
{
    if n < 10 {
        digit_string(n)
    } else {
        let mut s = usize_to_string(n / 10);
        let digit = digit_string(n % 10);
        s.append(digit.as_str());
        proof {
            assert(s@ =~= dec_str((n / 10) as nat).push(dec_digit((n % 10) as nat)));
        }
        s
    }
}

/// Strings as JSON text values, position by position.
pub open spec fn texts(ss: Seq<Seq<char>>) -> Seq<JsonV> {
    Seq::new(ss.len(), |i: int| JsonV::Text(ss[i]))
}

/// The `"s"` entry: the statics array, present only when there are
/// statics.
pub open spec fn statics_entries(statics: Seq<Seq<char>>) -> Seq<(Seq<char>, JsonV)> {
    if statics.len() > 0 {
        seq![(seq!['s'], JsonV::Arr(texts(statics)))]
    } else {
        Seq::empty()
    }
}

/// The `"p"` entry: the template table as an object keyed by stringified
/// id, present only when the table is non-empty.
pub open spec fn templates_entries(templates: Seq<Seq<Seq<char>>>) -> Seq<(Seq<char>, JsonV)> {
    if templates.len() > 0 {
        seq![
            (
                seq!['p'],
                JsonV::Obj(
                    Seq::new(
                        templates.len(),
                        |i: int| (dec_str(i as nat), JsonV::Arr(texts(templates[i]))),
                    ),
                ),
            ),
        ]
    } else {
        Seq::empty()
    }
}

/// The whole encoding of a tree.
pub open spec fn spec_encode(r: RenderedV) -> JsonV
    decreases r, 3nat,
{
    JsonV::Obj(
        statics_entries(r.statics) + templates_entries(r.templates) + dynamics_entries(
            r.dynamics,
        ),
    )
}

/// The entries a node's dynamic part contributes.
pub open spec fn dynamics_entries(d: DynamicsV) -> Seq<(Seq<char>, JsonV)>
    decreases d, 2nat,
{
    match d {
        DynamicsV::Items(items) => items_entries(items),
        DynamicsV::List(rows) => {
            if any_nonempty_row(rows) {
                seq![(seq!['d'], JsonV::Arr(rows_arr(rows)))]
            } else {
                Seq::empty()
            }
        },
    }
}

/// Ordinary slots, each under its stringified position.
pub open spec fn items_entries(items: Seq<DynamicV>) -> Seq<(Seq<char>, JsonV)>
    decreases items, 1nat,
{
    if items.len() == 0 {
        Seq::empty()
    } else {
        items_entries(items.drop_last()).push(
            (dec_str((items.len() - 1) as nat), encode_dyn(items.last())),
        )
    }
}

/// The encoding of one ordinary slot.
pub open spec fn encode_dyn(d: DynamicV) -> JsonV
    decreases d, 4nat,
{
    match d {
        DynamicV::Text(s) => JsonV::Text(s),
        DynamicV::Nested(r) => spec_encode(r),
    }
}

/// Whether any row holds a slot.
pub open spec fn any_nonempty_row(rows: Seq<Seq<ListDynamicV>>) -> bool {
    exists|i: int| 0 <= i < rows.len() && rows[i].len() > 0
}

/// Loop rows as an array of per-row arrays.
pub open spec fn rows_arr(rows: Seq<Seq<ListDynamicV>>) -> Seq<JsonV>
    decreases rows, 1nat,
{
    if rows.len() == 0 {
        Seq::empty()
    } else {
        rows_arr(rows.drop_last()).push(JsonV::Arr(row_vals(rows.last())))
    }
}

/// One row's slot values in order.
pub open spec fn row_vals(row: Seq<ListDynamicV>) -> Seq<JsonV>
    decreases row, 1nat,
{
    if row.len() == 0 {
        Seq::empty()
    } else {
        row_vals(row.drop_last()).push(encode_list_dyn(row.last()))
    }
}

/// The encoding of one loop-row slot.
pub open spec fn encode_list_dyn(d: ListDynamicV) -> JsonV
    decreases d, 4nat,
{
    match d {
        ListDynamicV::Text(s) => JsonV::Text(s),
        ListDynamicV::Nested(item) => encode_list_item(item),
    }
}

/// The encoding of a loop-row item: its template id under `"s"`, each
/// ordinary group under its position among the ordinary groups, and all
/// row groups' rows concatenated under `"d"`, where a group none of whose
/// rows holds a slot contributes nothing.
pub open spec fn encode_list_item(item: ListItemV) -> JsonV
    decreases item, 3nat,
{
    let rows = list_groups_rows(item.dynamics);
    JsonV::Obj(
        seq![(seq!['s'], JsonV::Num(item.statics as u64))] + item_groups_entries(item.dynamics)
            + (if rows.len() > 0 {
            seq![(seq!['d'], JsonV::Arr(rows))]
        } else {
            Seq::<(Seq<char>, JsonV)>::empty()
        }),
    )
}

/// How many ordinary groups a group sequence holds.
pub open spec fn items_group_count(groups: Seq<DynamicsV>) -> int
    decreases groups,
{
    if groups.len() == 0 {
        0
    } else {
        items_group_count(groups.drop_last()) + if groups.last() is Items {
            1int
        } else {
            0int
        }
    }
}

/// Ordinary groups of a loop-row item, each numbered by its position among
/// the ordinary groups; row groups contribute nothing here.
pub open spec fn item_groups_entries(groups: Seq<DynamicsV>) -> Seq<(Seq<char>, JsonV)>
    decreases groups, 2nat,
{
    if groups.len() == 0 {
        Seq::empty()
    } else {
        let rest = item_groups_entries(groups.drop_last());
        match groups.last() {
            DynamicsV::Items(items) => rest.push(
                (
                    dec_str(items_group_count(groups.drop_last()) as nat),
                    JsonV::Obj(items_entries(items)),
                ),
            ),
            DynamicsV::List(_) => rest,
        }
    }
}

/// The concatenated rows of a loop-row item's row groups; a group none of
/// whose rows holds a slot is skipped whole.
pub open spec fn list_groups_rows(groups: Seq<DynamicsV>) -> Seq<JsonV>
    decreases groups, 2nat,
{
    if groups.len() == 0 {
        Seq::empty()
    } else {
        list_groups_rows(groups.drop_last()) + (match groups.last() {
            DynamicsV::List(rows) => if any_nonempty_row(rows) {
                rows_arr(rows)
            } else {
                Seq::<JsonV>::empty()
            },
            DynamicsV::Items(_) => Seq::<JsonV>::empty(),
        })
    }
}


/// How two trees differ on the wire: the diff of their encodings, stripped
/// of nulls; anything but an object patch means no change to send.
pub open spec fn spec_rendered_diff(a: RenderedV, b: RenderedV) -> Option<JsonV> {
    match crate::diff::spec_diff(spec_encode(a), spec_encode(b)) {
        Some(d) => if d is Obj {
            crate::strip::spec_strip(true, false, d)
        } else {
            None
        },
        None => None,
    }
}

/// Diffing a tree with itself yields no patch, for every tree whose
/// encoding has no empty-object subvalue — that is, for every tree that
/// renders anything at all.
pub proof fn lemma_rendered_diff_self(t: RenderedV)
    requires
        crate::diff::self_clean(spec_encode(t)),
    ensures
        spec_rendered_diff(t, t) is None,
{
    crate::diff::lemma_diff_self(spec_encode(t));
}

/// Encodes one ordinary slot.
fn encode_dyn_exec(d: &Dynamic) -> (r: Json)
    ensures
        r.deep_view() == encode_dyn(d.deep_view()),
    decreases d, 4nat,
{
    match d {
        Dynamic::Text(s) => Json::Text(s.clone()),
        Dynamic::Nested(t) => t.into_json(),
    }
}

/// Encodes one loop-row slot.
fn encode_list_dyn_exec(d: &ListDynamic) -> (r: Json)
    ensures
        r.deep_view() == encode_list_dyn(d.deep_view()),
    decreases d, 4nat,
{
    match d {
        ListDynamic::Text(s) => Json::Text(s.clone()),
        ListDynamic::Nested(item) => encode_list_item_exec(item),
    }
}

/// Encodes one row of slots.
#[verifier::loop_isolation(false)]
fn encode_row_exec(row: &Vec<ListDynamic>) -> (r: Json)
    ensures
        r.deep_view() == JsonV::Arr(row_vals(crate::rendered::list_dyn_seq_dv(row@))),
    decreases row, 5nat,
{
    proof {
        crate::rendered::lemma_list_dyn_seq_dv_len_index(row@);
    }
    let ghost rdv = crate::rendered::list_dyn_seq_dv(row@);
    let mut vals: Vec<Json> = Vec::new();
    let n = row.len();
    let mut i: usize = 0;
    proof {
        assert(rdv.take(0) =~= Seq::empty());
        assert(crate::json::json_seq_dv(vals@) =~= row_vals(rdv.take(0)));
    }
    while i < n
        invariant
            i <= n,
            crate::json::json_seq_dv(vals@) =~~= row_vals(rdv.take(i as int)),
        decreases n - i,
    {
        proof {
            assert(decreases_to!(*row => row@));
            assert(decreases_to!(row@ => row@[i as int]));
            assert(decreases_to!(*row => row@[i as int]));
            crate::json::lemma_json_seq_dv_push(
                vals@,
                arbitrary(),
            );
        }
        let v = encode_list_dyn_exec(&row[i]);
        proof {
            crate::json::lemma_json_seq_dv_push(vals@, v);
        }
        vals.push(v);
        proof {
            assert(rdv.take(i + 1).drop_last() =~= rdv.take(i as int));
            assert(rdv.take(i + 1).last() == rdv[i as int]);
        }
        i = i + 1;
    }
    proof {
        assert(rdv.take(n as int) =~= rdv);
    }
    Json::Arr(vals)
}

/// Encodes a loop-row item.
#[verifier::loop_isolation(false)]
#[verifier::rlimit(30)]
fn encode_list_item_exec(item: &RenderedListItem) -> (r: Json)
    ensures
        r.deep_view() == encode_list_item(item.deep_view()),
    decreases item, 3nat,
{
    proof {
        crate::rendered::lemma_dynamics_seq_dv_len_index(item.dynamics@);
    }
    let ghost gdv = crate::rendered::dynamics_seq_dv(item.dynamics@);
    let mut entries: Vec<(String, Json)> = Vec::new();
    entries.push(("s".to_owned(), Json::Num(item.statics as u64)));
    proof {
        reveal_strlit("s");
        crate::json::lemma_entries_dv_len_index(entries@);
        assert("s"@ =~= seq!['s']);
        assert(gdv.take(0) =~= Seq::empty());
        assert(crate::json::entries_dv(entries@) =~~= seq![
            (seq!['s'], JsonV::Num(item.deep_view().statics as u64)),
        ] + item_groups_entries(gdv.take(0)));
        assert(crate::json::json_seq_dv(Seq::<Json>::empty()) =~= list_groups_rows(
            gdv.take(0),
        ));
    }
    let mut rows_acc: Vec<Json> = Vec::new();
    let mut items_seen: usize = 0;
    let n = item.dynamics.len();
    let mut i: usize = 0;
    while i < n
        invariant
            i <= n,
            items_seen <= i,
            items_seen as int == items_group_count(gdv.take(i as int)),
            crate::json::entries_dv(entries@) =~~= seq![
                (seq!['s'], JsonV::Num(item.deep_view().statics as u64)),
            ] + item_groups_entries(gdv.take(i as int)),
            crate::json::json_seq_dv(rows_acc@) =~~= list_groups_rows(gdv.take(i as int)),
        decreases n - i,
    {
        proof {
            assert(gdv.take(i + 1).drop_last() =~= gdv.take(i as int));
            assert(gdv.take(i + 1).last() == gdv[i as int]);
            assert(decreases_to!(*item => item.dynamics));
            assert(decreases_to!(item.dynamics => item.dynamics@));
            assert(decreases_to!(item.dynamics@ => item.dynamics@[i as int]));
            assert(decreases_to!(*item => item.dynamics@[i as int]));
        }
        match &item.dynamics[i] {
            Dynamics::Items(items) => {
                proof {
                    crate::rendered::lemma_dyn_seq_dv_len_index(items@);
                }
                let ghost idv = crate::rendered::dyn_seq_dv(items@);
                let key = usize_to_string(items_seen);
                let mut group: Vec<(String, Json)> = Vec::new();
                let m = items.len();
                let mut j: usize = 0;
                proof {
                    assert(idv.take(0) =~= Seq::empty());
                    assert(crate::json::entries_dv(group@) =~= items_entries(idv.take(0)));
                }
                while j < m
                    invariant
                        j <= m,
                        crate::json::entries_dv(group@) =~~= items_entries(idv.take(j as int)),
                    decreases m - j,
                {
                    proof {
                        assert(decreases_to!(
                            item.dynamics@[i as int] => item.dynamics@[i as int]->Items_0
                        ));
                        assert(decreases_to!(
                            item.dynamics@[i as int]->Items_0
                                => item.dynamics@[i as int]->Items_0@
                        ));
                        assert(decreases_to!(
                            item.dynamics@[i as int]->Items_0@
                                => item.dynamics@[i as int]->Items_0@[j as int]
                        ));
                        assert(decreases_to!(*item => items@[j as int]));
                    }
                    let jkey = usize_to_string(j);
                    let v = encode_dyn_exec(&items[j]);
                    proof {
                        crate::json::lemma_entries_dv_push(group@, (jkey, v));
                        assert(idv.take(j + 1).drop_last() =~= idv.take(j as int));
                        assert(idv.take(j + 1).last() == idv[j as int]);
                    }
                    group.push((jkey, v));
                    j = j + 1;
                }
                proof {
                    assert(idv.take(m as int) =~= idv);
                    crate::json::lemma_entries_dv_push(
                        entries@,
                        (key, Json::Obj(group)),
                    );
                }
                entries.push((key, Json::Obj(group)));
                items_seen = items_seen + 1;
            },
            Dynamics::List(rows) => {
                proof {
                    crate::rendered::lemma_row_seq_dv_len_index(rows@);
                }
                let ghost rowsdv = crate::rendered::row_seq_dv(rows@);
                let mut any = false;
                let m = rows.len();
                let mut j: usize = 0;
                while j < m
                    invariant
                        j <= m,
                        any == exists|k: int| 0 <= k < j && rowsdv[k].len() > 0,
                    decreases m - j,
                {
                    proof {
                        crate::rendered::lemma_list_dyn_seq_dv_len_index(rows@[j as int]@);
                        assert(rowsdv[j as int].len() == rows@[j as int]@.len());
                    }
                    if rows[j].len() > 0 {
                        proof {
                            assert(0 <= j < j + 1 && rowsdv[j as int].len() > 0);
                        }
                        any = true;
                    }
                    j = j + 1;
                }
                proof {
                    assert(any == any_nonempty_row(rowsdv));
                }
                if any {
                    let m2 = rows.len();
                    let mut j: usize = 0;
                    proof {
                        assert(rowsdv.take(0) =~= Seq::empty());
                    }
                    while j < m2
                        invariant
                            j <= m2,
                            crate::json::json_seq_dv(rows_acc@) =~~= list_groups_rows(
                                gdv.take(i as int),
                            ) + rows_arr(rowsdv.take(j as int)),
                        decreases m2 - j,
                    {
                        proof {
                            assert(decreases_to!(
                                item.dynamics@[i as int] => item.dynamics@[i as int]->List_0
                            ));
                            assert(decreases_to!(
                                item.dynamics@[i as int]->List_0
                                    => item.dynamics@[i as int]->List_0@
                            ));
                            assert(decreases_to!(
                                item.dynamics@[i as int]->List_0@
                                    => item.dynamics@[i as int]->List_0@[j as int]
                            ));
                            assert(decreases_to!(*item => rows@[j as int]));
                        }
                        let v = encode_row_exec(&rows[j]);
                        proof {
                            crate::json::lemma_json_seq_dv_push(rows_acc@, v);
                            assert(rowsdv.take(j + 1).drop_last() =~= rowsdv.take(j as int));
                            assert(rowsdv.take(j + 1).last() == rowsdv[j as int]);
                        }
                        rows_acc.push(v);
                        j = j + 1;
                    }
                    proof {
                        assert(rowsdv.take(m2 as int) =~= rowsdv);
                    }
                }
            },
        }
        i = i + 1;
    }
    proof {
        assert(gdv.take(n as int) =~= gdv);
        crate::json::lemma_json_seq_dv_len_index(rows_acc@);
    }
    if rows_acc.len() > 0 {
        let d_key = "d".to_owned();
        proof {
            reveal_strlit("d");
            assert(d_key@ =~= seq!['d']);
            crate::json::lemma_entries_dv_push(entries@, (d_key, Json::Arr(rows_acc)));
        }
        entries.push((d_key, Json::Arr(rows_acc)));
    }
    proof {
        assert(crate::json::entries_dv(entries@) =~~= encode_list_item(
            item.deep_view(),
        )->Obj_0);
    }
    Json::Obj(entries)
}

impl Rendered {
    /// Encodes the tree to its wire JSON.
    #[verifier::loop_isolation(false)]
    pub fn into_json(&self) -> (r: Json)
        ensures
            r.deep_view() == spec_encode(self.deep_view()),
        decreases self, 3nat,
    {
        let mut entries: Vec<(String, Json)> = Vec::new();
        let ghost sdv = self.statics.deep_view();
        if self.statics.len() > 0 {
            let mut arr: Vec<Json> = Vec::new();
            let n = self.statics.len();
            let mut i: usize = 0;
            while i < n
                invariant
                    i <= n,
                    arr@.len() == i,
                    forall|k: int|
                        0 <= k < i ==> crate::json::json_dv(arr@[k]) == JsonV::Text(sdv[k]),
                decreases n - i,
            {
                arr.push(Json::Text(self.statics[i].clone()));
                i = i + 1;
            }
            let s_key = "s".to_owned();
            proof {
                reveal_strlit("s");
                assert(s_key@ =~= seq!['s']);
                crate::json::lemma_json_seq_dv_len_index(arr@);
                assert(crate::json::json_seq_dv(arr@) =~= texts(sdv));
                crate::json::lemma_entries_dv_push(entries@, (s_key, Json::Arr(arr)));
            }
            entries.push((s_key, Json::Arr(arr)));
        }
        proof {
            assert(crate::json::entries_dv(entries@) =~~= statics_entries(sdv));
        }
        let ghost tdv = self.templates.deep_view();
        if self.templates.len() > 0 {
            let mut tentries: Vec<(String, Json)> = Vec::new();
            let n = self.templates.len();
            let mut i: usize = 0;
            while i < n
                invariant
                    i <= n,
                    tentries@.len() == i,
                    forall|k: int| 0 <= k < i ==> (#[trigger] tentries@[k]).0@ == dec_str(
                        k as nat,
                    ),
                    forall|k: int|
                        0 <= k < i ==> crate::json::json_dv((#[trigger] tentries@[k]).1)
                            == JsonV::Arr(texts(tdv[k])),
                decreases n - i,
            {
                let key = usize_to_string(i);
                let mut arr: Vec<Json> = Vec::new();
                let m = self.templates[i].len();
                let mut j: usize = 0;
                while j < m
                    invariant
                        j <= m,
                        arr@.len() == j,
                        forall|k: int|
                            0 <= k < j ==> crate::json::json_dv(arr@[k]) == JsonV::Text(
                                tdv[i as int][k],
                            ),
                    decreases m - j,
                {
                    arr.push(Json::Text(self.templates[i][j].clone()));
                    j = j + 1;
                }
                proof {
                    crate::json::lemma_json_seq_dv_len_index(arr@);
                    assert(crate::json::json_seq_dv(arr@) =~= texts(tdv[i as int]));
                }
                tentries.push((key, Json::Arr(arr)));
                proof {
                    assert(tentries@[i as int].0@ == dec_str(i as nat));
                    assert(crate::json::json_dv(tentries@[i as int].1) == JsonV::Arr(
                        texts(tdv[i as int]),
                    ));
                }
                i = i + 1;
            }
            let p_key = "p".to_owned();
            proof {
                reveal_strlit("p");
                assert(p_key@ =~= seq!['p']);
                crate::json::lemma_entries_dv_len_index(tentries@);
                assert(crate::json::entries_dv(tentries@) =~= Seq::new(
                    tdv.len(),
                    |i: int| (dec_str(i as nat), JsonV::Arr(texts(tdv[i]))),
                ));
                crate::json::lemma_entries_dv_push(entries@, (p_key, Json::Obj(tentries)));
            }
            entries.push((p_key, Json::Obj(tentries)));
        }
        proof {
            assert(crate::json::entries_dv(entries@) =~~= statics_entries(sdv)
                + templates_entries(tdv));
        }
        match &self.dynamics {
            Dynamics::Items(items) => {
                proof {
                    crate::rendered::lemma_dyn_seq_dv_len_index(items@);
                }
                let ghost idv = crate::rendered::dyn_seq_dv(items@);
                let n = items.len();
                let mut i: usize = 0;
                proof {
                    assert(idv.take(0) =~= Seq::empty());
                    assert(crate::json::entries_dv(entries@) =~~= statics_entries(sdv)
                        + templates_entries(tdv) + items_entries(idv.take(0)));
                }
                while i < n
                    invariant
                        i <= n,
                        crate::json::entries_dv(entries@) =~~= statics_entries(sdv)
                            + templates_entries(tdv) + items_entries(idv.take(i as int)),
                    decreases n - i,
                {
                    proof {
                        assert(decreases_to!(*self => self.dynamics));
                        assert(decreases_to!(self.dynamics => self.dynamics->Items_0));
                        assert(decreases_to!(
                            self.dynamics->Items_0 => self.dynamics->Items_0@
                        ));
                        assert(decreases_to!(
                            self.dynamics->Items_0@ => self.dynamics->Items_0@[i as int]
                        ));
                        assert(decreases_to!(*self => items@[i as int]));
                    }
                    let key = usize_to_string(i);
                    let v = encode_dyn_exec(&items[i]);
                    proof {
                        crate::json::lemma_entries_dv_push(entries@, (key, v));
                        assert(idv.take(i + 1).drop_last() =~= idv.take(i as int));
                        assert(idv.take(i + 1).last() == idv[i as int]);
                    }
                    entries.push((key, v));
                    i = i + 1;
                }
                proof {
                    assert(idv.take(n as int) =~= idv);
                    assert(crate::json::entries_dv(entries@) =~~= spec_encode(
                        self.deep_view(),
                    )->Obj_0);
                }
            },
            Dynamics::List(rows) => {
                proof {
                    crate::rendered::lemma_row_seq_dv_len_index(rows@);
                }
                let ghost rowsdv = crate::rendered::row_seq_dv(rows@);
                let mut any = false;
                let n = rows.len();
                let mut i: usize = 0;
                while i < n
                    invariant
                        i <= n,
                        any == exists|k: int| 0 <= k < i && rowsdv[k].len() > 0,
                    decreases n - i,
                {
                    proof {
                        crate::rendered::lemma_list_dyn_seq_dv_len_index(rows@[i as int]@);
                        assert(rowsdv[i as int].len() == rows@[i as int]@.len());
                    }
                    if rows[i].len() > 0 {
                        proof {
                            assert(0 <= i < i + 1 && rowsdv[i as int].len() > 0);
                        }
                        any = true;
                    }
                    i = i + 1;
                }
                proof {
                    assert(any == any_nonempty_row(rowsdv));
                }
                if any {
                    let mut arr: Vec<Json> = Vec::new();
                    let n2 = rows.len();
                    let mut i: usize = 0;
                    proof {
                        assert(rowsdv.take(0) =~= Seq::empty());
                        assert(crate::json::json_seq_dv(arr@) =~= rows_arr(rowsdv.take(0)));
                    }
                    while i < n2
                        invariant
                            i <= n2,
                            crate::json::json_seq_dv(arr@) =~~= rows_arr(
                                rowsdv.take(i as int),
                            ),
                        decreases n2 - i,
                    {
                        proof {
                            assert(decreases_to!(*self => self.dynamics));
                            assert(decreases_to!(self.dynamics => self.dynamics->List_0));
                            assert(decreases_to!(
                                self.dynamics->List_0 => self.dynamics->List_0@
                            ));
                            assert(decreases_to!(
                                self.dynamics->List_0@ => self.dynamics->List_0@[i as int]
                            ));
                            assert(decreases_to!(*self => rows@[i as int]));
                        }
                        let v = encode_row_exec(&rows[i]);
                        proof {
                            crate::json::lemma_json_seq_dv_push(arr@, v);
                            assert(rowsdv.take(i + 1).drop_last() =~= rowsdv.take(i as int));
                            assert(rowsdv.take(i + 1).last() == rowsdv[i as int]);
                        }
                        arr.push(v);
                        i = i + 1;
                    }
                    let d_key = "d".to_owned();
                    proof {
                        assert(rowsdv.take(n2 as int) =~= rowsdv);
                        reveal_strlit("d");
                        assert(d_key@ =~= seq!['d']);
                        crate::json::lemma_entries_dv_push(
                            entries@,
                            (d_key, Json::Arr(arr)),
                        );
                    }
                    entries.push((d_key, Json::Arr(arr)));
                }
                proof {
                    assert(crate::json::entries_dv(entries@) =~~= spec_encode(
                        self.deep_view(),
                    )->Obj_0);
                }
            },
        }
        Json::Obj(entries)
    }

    /// Diffs this tree against a newer one and returns the minimal patch to
    /// send, or `None` when nothing visible changed.
    pub fn diff(&self, other: &Rendered) -> (r: Option<Json>)
        ensures
            r.deep_view() == spec_rendered_diff(self.deep_view(), other.deep_view()),
    {
        let a = self.into_json();
        let b = other.into_json();
        match crate::diff::diff(&a, &b) {
            Some(d) => {
                let is_obj = match &d {
                    Json::Obj(_) => true,
                    _ => false,
                };
                if is_obj {
                    crate::strip::strip(crate::strip::Strip::Nulls.mask(), d)
                } else {
                    None
                }
            },
            None => None,
        }
    }
}


// ---------------------------------------------------------------------------
// Distinctness of encoder keys.
// ---------------------------------------------------------------------------

/// Whether a character is a decimal digit.
pub open spec fn is_dec_digit(c: char) -> bool {
    '0' <= c && c <= '9'
}

/// Decimal texts consist of digits and are never empty.
proof fn lemma_dec_str_digits(n: nat)
    ensures
        dec_str(n).len() >= 1,
        forall|i: int| 0 <= i < dec_str(n).len() ==> is_dec_digit(#[trigger] dec_str(n)[i]),
    decreases n,
{
    if n >= 10 {
        lemma_dec_str_digits(n / 10);
    }
}

/// Different numbers have different decimal texts.
proof fn lemma_dec_str_injective(a: nat, b: nat)
    requires
        dec_str(a) == dec_str(b),
    ensures
        a == b,
    decreases a,
{
    lemma_dec_str_digits(a);
    lemma_dec_str_digits(b);
    if a < 10 && b < 10 {
        assert(dec_str(a)[0] == dec_digit(a));
        assert(dec_str(b)[0] == dec_digit(b));
    } else if a < 10 {
        lemma_dec_str_digits(b / 10);
        assert(dec_str(b).len() >= 2);
    } else if b < 10 {
        lemma_dec_str_digits(a / 10);
        assert(dec_str(a).len() >= 2);
    } else {
        assert(dec_str(a).last() == dec_digit(a % 10));
        assert(dec_str(b).last() == dec_digit(b % 10));
        assert(a % 10 == b % 10);
        assert(dec_str(a).drop_last() =~= dec_str(a / 10));
        assert(dec_str(b).drop_last() =~= dec_str(b / 10));
        lemma_dec_str_injective(a / 10, b / 10);
    }
}

/// Decimal texts differ from the fixed letter keys.
proof fn lemma_dec_str_not_letter(n: nat)
    ensures
        dec_str(n) != "s"@,
        dec_str(n) != "p"@,
        dec_str(n) != "d"@,
{
    lemma_dec_str_digits(n);
    reveal_strlit("s");
    reveal_strlit("p");
    reveal_strlit("d");
    assert(is_dec_digit(dec_str(n)[0]));
    if dec_str(n) == "s"@ {
        assert(dec_str(n)[0] == 's');
    }
    if dec_str(n) == "p"@ {
        assert(dec_str(n)[0] == 'p');
    }
    if dec_str(n) == "d"@ {
        assert(dec_str(n)[0] == 'd');
    }
}

/// The letter keys differ from one another.
proof fn lemma_letter_keys_distinct()
    ensures
        "s"@ != "p"@,
        "s"@ != "d"@,
        "p"@ != "d"@,
{
    reveal_strlit("s");
    reveal_strlit("p");
    reveal_strlit("d");
    assert("s"@[0] == 's' && "p"@[0] == 'p' && "d"@[0] == 'd');
}

/// The numbered slot entries: one per slot, keyed by its position.
proof fn lemma_items_entries_shape(items: Seq<DynamicV>)
    ensures
        items_entries(items).len() == items.len(),
        forall|k: int|
            0 <= k < items.len() ==> (#[trigger] items_entries(items)[k]) == (
            dec_str(k as nat),
            encode_dyn(items[k]),
        ),
    decreases items,
{
    if items.len() > 0 {
        lemma_items_entries_shape(items.drop_last());
    }
}

/// The numbered group entries of a row item: one per ordinary group, keyed
/// by its position among the ordinary groups.
proof fn lemma_item_groups_entries_shape(groups: Seq<DynamicsV>)
    ensures
        item_groups_entries(groups).len() == items_group_count(groups),
        0 <= items_group_count(groups) <= groups.len(),
        forall|k: int|
            0 <= k < item_groups_entries(groups).len() ==> (#[trigger] item_groups_entries(
                groups,
            )[k]).0 == dec_str(k as nat),
    decreases groups,
{
    if groups.len() > 0 {
        lemma_item_groups_entries_shape(groups.drop_last());
    }
}


// ---------------------------------------------------------------------------
// Clean encodings.
// ---------------------------------------------------------------------------

/// A tree that renders something, with every conditional subtree doing the
/// same: its encoding and all object values inside it are non-empty
/// objects. The builder produces only such trees for any input that emits
/// at least one fragment or slot, because it collapses frames that
/// produced nothing to empty text.
pub open spec fn tree_clean(r: RenderedV) -> bool
    decreases r, 2nat,
{
    match r.dynamics {
        DynamicsV::Items(ds) => (r.statics.len() > 0 || r.templates.len() > 0 || ds.len() > 0)
            && items_clean(ds),
        DynamicsV::List(rows) => r.statics.len() > 0 || r.templates.len() > 0
            || any_nonempty_row(rows),
    }
}

/// Whether every ordinary slot of a node is clean.
pub open spec fn items_clean(ds: Seq<DynamicV>) -> bool
    decreases ds, 1nat,
{
    if ds.len() == 0 {
        true
    } else {
        items_clean(ds.drop_last()) && dyn_clean(ds.last())
    }
}

/// Whether one ordinary slot is clean: a nested subtree must itself be
/// clean; loop rows sit inside arrays, which the diff replaces wholesale,
/// so nothing is required of them.
pub open spec fn dyn_clean(d: DynamicV) -> bool
    decreases d, 3nat,
{
    match d {
        DynamicV::Text(_) => true,
        DynamicV::Nested(r) => tree_clean(r),
    }
}

/// Slot cleanliness, slot by slot.
proof fn lemma_items_clean_index(ds: Seq<DynamicV>)
    requires
        items_clean(ds),
    ensures
        forall|k: int| 0 <= k < ds.len() ==> dyn_clean(#[trigger] ds[k]),
    decreases ds.len(),
{
    if ds.len() > 0 {
        lemma_items_clean_index(ds.drop_last());
        assert(forall|k: int| 0 <= k < ds.len() - 1 ==> ds.drop_last()[k] == ds[k]);
    }
}

/// A clean tree encodes to a clean value: its encoding has no empty-object
/// subvalue reachable through object entries, and all its keys are
/// distinct.
pub proof fn lemma_encode_clean(r: RenderedV)
    requires
        tree_clean(r),
    ensures
        crate::diff::self_clean(spec_encode(r)),
    decreases r,
{
    let se = statics_entries(r.statics);
    let te = templates_entries(r.templates);
    let de = dynamics_entries(r.dynamics);
    let es = se + te + de;
    lemma_letter_keys_distinct();
    // The whole object is non-empty: something rendered.
    match r.dynamics {
        DynamicsV::Items(ds) => {
            lemma_items_entries_shape(ds);
            assert(es.len() > 0);
        },
        DynamicsV::List(rows) => {
            assert(es.len() > 0);
        },
    }
    // Keys are pairwise distinct: "s", "p", then either the numbered slots
    // or "d".
    assert forall|i: int, j: int| 0 <= i < j < es.len() implies es[i].0 != es[j].0 by {
        lemma_es_key(r, i);
        lemma_es_key(r, j);
        match r.dynamics {
            DynamicsV::Items(ds) => {
                lemma_dec_str_not_letter((i - se.len() - te.len()) as nat);
                lemma_dec_str_not_letter((j - se.len() - te.len()) as nat);
                if i >= se.len() + te.len() && j >= se.len() + te.len() {
                    if dec_str((i - se.len() - te.len()) as nat) == dec_str(
                        (j - se.len() - te.len()) as nat,
                    ) {
                        lemma_dec_str_injective(
                            (i - se.len() - te.len()) as nat,
                            (j - se.len() - te.len()) as nat,
                        );
                    }
                }
            },
            DynamicsV::List(_) => {},
        }
    }
    // Every object value is itself clean.
    crate::diff::lemma_entries_clean_index_iff(es);
    assert forall|i: int| 0 <= i < es.len() implies crate::diff::self_clean(
        #[trigger] es[i].1,
    ) by {
        lemma_es_key(r, i);
        if se.len() <= i < se.len() + te.len() {
            lemma_templates_value_clean(r.templates);
        }
        match r.dynamics {
            DynamicsV::Items(ds) => {
                if i >= se.len() + te.len() {
                    lemma_items_entries_shape(ds);
                    lemma_items_clean_index(ds);
                    let k = i - se.len() - te.len();
                    match ds[k] {
                        DynamicV::Text(_) => {},
                        DynamicV::Nested(sub) => {
                            assert(decreases_to!(r => r.dynamics));
                            assert(decreases_to!(r.dynamics => r.dynamics->Items_0));
                            assert(decreases_to!(
                                r.dynamics->Items_0 => r.dynamics->Items_0[k]
                            ));
                            assert(decreases_to!(
                                r.dynamics->Items_0[k] => r.dynamics->Items_0[k]->Nested_0
                            ));
                            assert(decreases_to!(r => sub));
                            lemma_encode_clean(sub);
                        },
                    }
                }
            },
            DynamicsV::List(_) => {},
        }
    }
}

/// The key and value shape of each top-level entry of an encoding.
proof fn lemma_es_key(r: RenderedV, i: int)
    requires
        0 <= i < (statics_entries(r.statics) + templates_entries(r.templates)
            + dynamics_entries(r.dynamics)).len(),
    ensures
        ({
            let se = statics_entries(r.statics);
            let te = templates_entries(r.templates);
            let de = dynamics_entries(r.dynamics);
            let es = se + te + de;
            &&& (i < se.len() ==> es[i].0 == "s"@ && es[i].1 is Arr)
            &&& (se.len() <= i < se.len() + te.len() ==> es[i].0 == "p"@ && es[i].1 == te[0].1)
            &&& (i >= se.len() + te.len() ==> match r.dynamics {
                DynamicsV::Items(ds) => {
                    &&& i - se.len() - te.len() < ds.len()
                    &&& es[i].0 == dec_str((i - se.len() - te.len()) as nat)
                    &&& es[i].1 == encode_dyn(ds[i - se.len() - te.len()])
                },
                DynamicsV::List(_) => es[i].0 == "d"@ && es[i].1 is Arr,
            })
        }),
{
    let se = statics_entries(r.statics);
    let te = templates_entries(r.templates);
    let de = dynamics_entries(r.dynamics);
    let es = se + te + de;
    reveal_strlit("s");
    reveal_strlit("p");
    reveal_strlit("d");
    assert(seq!['s'] =~= "s"@);
    assert(seq!['p'] =~= "p"@);
    assert(seq!['d'] =~= "d"@);
    if i < se.len() {
        assert(es[i] == se[0]);
    } else if i < se.len() + te.len() {
        assert(es[i] == te[i - se.len()]);
        assert(te.len() == 1 && i - se.len() == 0);
    } else {
        assert(es[i] == de[i - se.len() - te.len()]);
        match r.dynamics {
            DynamicsV::Items(ds) => {
                lemma_items_entries_shape(ds);
            },
            DynamicsV::List(_) => {},
        }
    }
}

/// The template table entry's value is a clean object: non-empty, with
/// distinct stringified ids, and array values.
proof fn lemma_templates_value_clean(templates: Seq<Seq<Seq<char>>>)
    requires
        templates.len() > 0,
    ensures
        crate::diff::self_clean(templates_entries(templates)[0].1),
{
    let tobj = Seq::new(
        templates.len(),
        |i: int| (dec_str(i as nat), JsonV::Arr(texts(templates[i]))),
    );
    assert forall|i: int, j: int| 0 <= i < j < tobj.len() implies tobj[i].0 != tobj[j].0 by {
        if dec_str(i as nat) == dec_str(j as nat) {
            lemma_dec_str_injective(i as nat, j as nat);
        }
    }
    crate::diff::lemma_entries_clean_index_iff(tobj);
}

/// Diffing a clean tree with itself yields no patch: the wire diff of any
/// tree that renders something, against itself, is no change at all.
pub proof fn lemma_tree_diff_self(t: RenderedV)
    requires
        tree_clean(t),
    ensures
        spec_rendered_diff(t, t) is None,
{
    lemma_encode_clean(t);
    lemma_rendered_diff_self(t);
}

} // verus!
