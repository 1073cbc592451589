//! Stripping a JSON value of nulls and of empty containers: the final pass
//! of the diff engine, so that unchanged branches contribute nothing to a
//! patch.
//!
//! Nulls inside arrays are kept unless every element of the array strips
//! away, because array positions carry meaning.

use vstd::prelude::*;

use crate::json::{Json, JsonV};

verus! {

/// One kind of value to strip.
#[derive(Clone, Copy, Debug, PartialEq, Eq, Structural)]
pub enum Strip {
    /// Strip JSON nulls.
    Nulls,
    /// Strip empty objects and arrays.
    Empties,
}

/// A set of [`Strip`] kinds.
#[derive(Clone, Copy, Debug, PartialEq, Eq, Structural)]
pub struct StripMask {
    /// Whether nulls are stripped.
    pub nulls: bool,
    /// Whether empty containers are stripped.
    pub empties: bool,
}

impl Strip {
    /// The mask holding only this kind.
    pub fn mask(self) -> (r: StripMask)
        ensures
            r.nulls == (self == Strip::Nulls),
            r.empties == (self == Strip::Empties),
    {
        StripMask { nulls: self == Strip::Nulls, empties: self == Strip::Empties }
    }

    /// The mask holding this kind and another.
    pub fn and(self, other: Strip) -> (r: StripMask)
        ensures
            r.nulls == (self == Strip::Nulls || other == Strip::Nulls),
            r.empties == (self == Strip::Empties || other == Strip::Empties),
    {
        StripMask {
            nulls: self == Strip::Nulls || other == Strip::Nulls,
            empties: self == Strip::Empties || other == Strip::Empties,
        }
    }
}

/// What stripping leaves of a value: `None` when the value itself strips
/// away.
pub open spec fn spec_strip(nulls: bool, empties: bool, v: JsonV) -> Option<JsonV>
    decreases v,
{
    match v {
        JsonV::Null => if nulls {
            None
        } else {
            Some(JsonV::Null)
        },
        JsonV::Obj(es) => {
            let kept = spec_strip_entries(nulls, empties, es);
            if kept.len() == 0 && empties {
                None
            } else {
                Some(JsonV::Obj(kept))
            }
        },
        JsonV::Arr(a) => {
            let elems = if spec_all_removed(nulls, empties, a) {
                Seq::empty()
            } else {
                spec_strip_elems(nulls, empties, a)
            };
            if elems.len() == 0 && empties {
                None
            } else {
                Some(JsonV::Arr(elems))
            }
        },
        _ => Some(v),
    }
}

/// The entries an object keeps: each value is stripped recursively, and an
/// entry whose value strips away is dropped.
pub open spec fn spec_strip_entries(
    nulls: bool,
    empties: bool,
    es: Seq<(Seq<char>, JsonV)>,
) -> Seq<(Seq<char>, JsonV)>
    decreases es,
{
    if es.len() == 0 {
        Seq::empty()
    } else {
        let rest = spec_strip_entries(nulls, empties, es.drop_first());
        match spec_strip(nulls, empties, es.first().1) {
            Some(c) => seq![(es.first().0, c)] + rest,
            None => rest,
        }
    }
}

/// Whether every element of an array strips away.
pub open spec fn spec_all_removed(nulls: bool, empties: bool, a: Seq<JsonV>) -> bool
    decreases a,
{
    if a.len() == 0 {
        true
    } else {
        spec_strip(nulls, empties, a.first()) is None && spec_all_removed(
            nulls,
            empties,
            a.drop_first(),
        )
    }
}

/// The elements an array keeps: an element that strips away becomes null,
/// so positions keep their meaning.
pub open spec fn spec_strip_elems(nulls: bool, empties: bool, a: Seq<JsonV>) -> Seq<JsonV>
    decreases a,
{
    if a.len() == 0 {
        Seq::empty()
    } else {
        let head = match spec_strip(nulls, empties, a.first()) {
            Some(c) => c,
            None => JsonV::Null,
        };
        seq![head] + spec_strip_elems(nulls, empties, a.drop_first())
    }
}

/// Strips the value of the kinds in the mask; `None` means the whole value
/// stripped away.
#[verifier::loop_isolation(false)]
pub fn strip(mask: StripMask, value: Json) -> (r: Option<Json>)
    ensures
        r.deep_view() == spec_strip(mask.nulls, mask.empties, value.deep_view()),
    decreases value,
{
    let ghost value0 = value;
    match value {
        Json::Null => {
            if mask.nulls {
                None
            } else {
                Some(Json::Null)
            }
        },
        Json::Bool(b) => Some(Json::Bool(b)),
        Json::Num(n) => Some(Json::Num(n)),
        Json::Text(s) => Some(Json::Text(s)),
        Json::Obj(entries) => {
            let ghost entries0 = entries@;
            let ghost entries_vec = entries;
            proof {
                crate::json::lemma_entries_dv_len_index(entries0);
            }
            let mut rest = entries;
            let mut kept: Vec<(String, Json)> = Vec::new();
            let n = rest.len();
            let mut i: usize = 0;
            proof {
                let full = crate::json::entries_dv(entries0);
                assert(full.skip(0) =~= full);
                assert(crate::json::entries_dv(kept@) + spec_strip_entries(
                    mask.nulls,
                    mask.empties,
                    full.skip(0),
                ) =~~= spec_strip_entries(mask.nulls, mask.empties, full));
            }
            while i < n
                invariant
                    n == entries0.len(),
                    i <= n,
                    rest@ =~= entries0.subrange(i as int, n as int),
                    value0 == Json::Obj(entries_vec) && entries_vec@ == entries0,
                    crate::json::entries_dv(kept@) + spec_strip_entries(
                        mask.nulls,
                        mask.empties,
                        crate::json::entries_dv(entries0).skip(i as int),
                    ) =~~= spec_strip_entries(
                        mask.nulls,
                        mask.empties,
                        crate::json::entries_dv(entries0),
                    ),
                decreases n - i,
            {
                let e = rest.remove(0);
                proof {
                    assert(e == entries0[i as int]);
                    assert(rest@ =~= entries0.subrange(i + 1, n as int));
                    assert(decreases_to!(value0 => value0->Obj_0));
                    assert(decreases_to!(value0->Obj_0 => value0->Obj_0@));
                    assert(decreases_to!(value0->Obj_0@ => value0->Obj_0@[i as int]));
                    assert(decreases_to!(
                        value0->Obj_0@[i as int] => value0->Obj_0@[i as int].1
                    ));
                    assert(decreases_to!(value0 => entries0[i as int].1));
                }
                let (k, v) = e;
                let ghost pre_kept = kept@;
                match strip(mask, v) {
                    Some(c) => {
                        proof {
                            crate::json::lemma_entries_dv_push(kept@, (k, c));
                        }
                        kept.push((k, c));
                    },
                    None => {},
                }
                proof {
                    crate::json::lemma_entries_dv_len_index(entries0);
                    let full = crate::json::entries_dv(entries0);
                    assert(full.skip(i as int).first() == full[i as int]);
                    assert(full.skip(i as int).drop_first() =~= full.skip(i + 1));
                }
                i = i + 1;
            }
            proof {
                let full = crate::json::entries_dv(entries0);
                assert(full.skip(n as int) =~= Seq::empty());
                assert(crate::json::entries_dv(kept@) =~~= spec_strip_entries(
                    mask.nulls,
                    mask.empties,
                    full,
                ));
            }
            let empty = kept.len() == 0;
            proof {
                crate::json::lemma_entries_dv_len_index(kept@);
            }
            if empty && mask.empties {
                None
            } else {
                Some(Json::Obj(kept))
            }
        },
        Json::Arr(elems) => {
            let ghost elems0 = elems@;
            let ghost elems_vec = elems;
            proof {
                crate::json::lemma_json_seq_dv_len_index(elems0);
            }
            let mut rest = elems;
            let mut out: Vec<Json> = Vec::new();
            let mut any_kept = false;
            let n = rest.len();
            let mut i: usize = 0;
            proof {
                let full = crate::json::json_seq_dv(elems0);
                assert(full.take(0) =~= Seq::<JsonV>::empty());
                assert(crate::json::json_seq_dv(out@) =~~= spec_strip_elems(
                    mask.nulls,
                    mask.empties,
                    full.take(0),
                ));
            }
            while i < n
                invariant
                    n == elems0.len(),
                    i <= n,
                    rest@ =~= elems0.subrange(i as int, n as int),
                    out@.len() == i,
                    value0 == Json::Arr(elems_vec) && elems_vec@ == elems0,
                    any_kept == !spec_all_removed(
                        mask.nulls,
                        mask.empties,
                        crate::json::json_seq_dv(elems0).take(i as int),
                    ),
                    crate::json::json_seq_dv(out@) =~~= spec_strip_elems(
                        mask.nulls,
                        mask.empties,
                        crate::json::json_seq_dv(elems0).take(i as int),
                    ),
                decreases n - i,
            {
                let e = rest.remove(0);
                proof {
                    assert(e == elems0[i as int]);
                    assert(rest@ =~= elems0.subrange(i + 1, n as int));
                    assert(decreases_to!(value0 => value0->Arr_0));
                    assert(decreases_to!(value0->Arr_0 => value0->Arr_0@));
                    assert(decreases_to!(value0->Arr_0@ => value0->Arr_0@[i as int]));
                    assert(decreases_to!(value0 => elems0[i as int]));
                }
                let ghost pre_out = out@;
                match strip(mask, e) {
                    Some(c) => {
                        proof {
                            crate::json::lemma_json_seq_dv_push(out@, c);
                        }
                        out.push(c);
                        any_kept = true;
                    },
                    None => {
                        proof {
                            crate::json::lemma_json_seq_dv_push(out@, Json::Null);
                        }
                        out.push(Json::Null);
                    },
                }
                proof {
                    crate::json::lemma_json_seq_dv_len_index(elems0);
                    let full = crate::json::json_seq_dv(elems0);
                    lemma_take_step(mask.nulls, mask.empties, full, i as int);
                }
                i = i + 1;
            }
            proof {
                let full = crate::json::json_seq_dv(elems0);
                assert(full.take(n as int) =~= full);
            }
            if !any_kept {
                let out_empty: Vec<Json> = Vec::new();
                if mask.empties {
                    None
                } else {
                    proof {
                        assert(crate::json::json_seq_dv(out_empty@) =~= Seq::<JsonV>::empty());
                    }
                    Some(Json::Arr(out_empty))
                }
            } else {
                proof {
                    crate::json::lemma_json_seq_dv_len_index(out@);
                    assert(crate::json::json_seq_dv(out@).len() == elems0.len());
                    if elems0.len() == 0 {
                        assert(spec_all_removed(
                            mask.nulls,
                            mask.empties,
                            crate::json::json_seq_dv(elems0),
                        ));
                    }
                }
                Some(Json::Arr(out))
            }
        },
    }
}

/// In a loop over an array, taking one more element extends the stripped
/// prefix by that element's result.
proof fn lemma_take_step(nulls: bool, empties: bool, full: Seq<JsonV>, i: int)
    requires
        0 <= i < full.len(),
    ensures
        spec_strip_elems(nulls, empties, full.take(i + 1)) =~= spec_strip_elems(
            nulls,
            empties,
            full.take(i),
        ) + seq![
            match spec_strip(nulls, empties, full[i]) {
                Some(c) => c,
                None => JsonV::Null,
            },
        ],
        spec_all_removed(nulls, empties, full.take(i + 1)) == (spec_all_removed(
            nulls,
            empties,
            full.take(i),
        ) && spec_strip(nulls, empties, full[i]) is None),
    decreases i,
{
    if i == 0 {
        assert(full.take(1).first() == full[0]);
        assert(full.take(1).drop_first() =~= Seq::empty());
        assert(full.take(0) =~= Seq::empty());
    } else {
        lemma_take_step(nulls, empties, full.drop_first(), i - 1);
        assert(full.take(i + 1).first() == full[0]);
        assert(full.take(i + 1).drop_first() =~= full.drop_first().take(i));
        assert(full.take(i).first() == full[0]);
        assert(full.take(i).drop_first() =~= full.drop_first().take(i - 1));
        assert(full.drop_first()[i - 1] == full[i]);
    }
}

} // verus!
