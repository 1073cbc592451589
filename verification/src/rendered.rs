//! The render-tree model: the immutable result of one template evaluation,
//! split into literal ("static") text and computed ("dynamic") slots, with a
//! deduplicated template table for repeated loop-row structure.

use vstd::prelude::*;

verus! {

// ---------------------------------------------------------------------------
// Ghost mirrors: the mathematical value of a render tree, used by every
// contract in this crate.
// ---------------------------------------------------------------------------

/// Mathematical value of a [`Rendered`] tree.
#[verifier::ext_equal]
pub struct RenderedV {
    /// Literal text fragments, in order.
    pub statics: Seq<Seq<char>>,
    /// The dynamic slots.
    pub dynamics: DynamicsV,
    /// Deduplicated statics shapes referenced by loop rows.
    pub templates: Seq<Seq<Seq<char>>>,
}

/// Mathematical value of the dynamic part of a node.
#[verifier::ext_equal]
pub enum DynamicsV {
    /// Ordinary content: one slot per position.
    Items(Seq<DynamicV>),
    /// Loop content: one inner sequence of slots per row.
    List(Seq<Seq<ListDynamicV>>),
}

/// Mathematical value of one ordinary dynamic slot.
#[verifier::ext_equal]
pub enum DynamicV {
    /// Computed text.
    Text(Seq<char>),
    /// A nested subtree.
    Nested(RenderedV),
}

/// Mathematical value of one dynamic slot inside a loop row.
#[verifier::ext_equal]
pub enum ListDynamicV {
    /// Computed text.
    Text(Seq<char>),
    /// Nested row structure referencing a shared template.
    Nested(ListItemV),
}

/// Mathematical value of a [`RenderedListItem`].
#[verifier::ext_equal]
pub struct ListItemV {
    /// Index into the enclosing loop's template table.
    pub statics: int,
    /// The item's dynamic groups.
    pub dynamics: Seq<DynamicsV>,
}

// ---------------------------------------------------------------------------
// The executable tree.
// ---------------------------------------------------------------------------

/// A rendered tree: statics, dynamics and templates.
///
/// Produced by [`crate::builder::RenderedBuilder`].
#[derive(Debug, PartialEq, Eq)]
pub struct Rendered {
    /// Literal text fragments, in order.
    pub statics: Vec<String>,
    /// The dynamic slots.
    pub dynamics: Dynamics,
    /// Deduplicated statics shapes referenced by loop rows.
    pub templates: Vec<Vec<String>>,
}

/// The dynamic part of a node: ordinary slots, or loop rows.
#[derive(Debug, PartialEq, Eq)]
pub enum Dynamics {
    /// Ordinary content: one slot per position.
    Items(Vec<Dynamic>),
    /// Loop content: one inner vector of slots per row.
    List(Vec<Vec<ListDynamic>>),
}

/// One ordinary dynamic slot.
#[derive(Debug, PartialEq, Eq)]
pub enum Dynamic {
    /// Computed text.
    Text(String),
    /// A nested subtree.
    Nested(Rendered),
}

/// One dynamic slot inside a loop row.
#[derive(Debug, PartialEq, Eq)]
pub enum ListDynamic {
    /// Computed text.
    Text(String),
    /// Nested row structure referencing a shared template.
    Nested(RenderedListItem),
}

/// Repeated loop-row structure: a reference into the enclosing loop's
/// template table plus this row's own dynamic groups.
#[derive(Debug, PartialEq, Eq)]
pub struct RenderedListItem {
    /// Index into the enclosing loop's template table.
    pub statics: usize,
    /// The item's dynamic groups.
    pub dynamics: Vec<Dynamics>,
}

// ---------------------------------------------------------------------------
// Deep views.
// ---------------------------------------------------------------------------

/// The mathematical value of a tree.
pub open spec fn rendered_dv(r: Rendered) -> RenderedV
    decreases r,
{
    RenderedV {
        statics: r.statics.deep_view(),
        dynamics: dynamics_dv(r.dynamics),
        templates: r.templates.deep_view(),
    }
}

/// The mathematical value of a node's dynamic part.
pub open spec fn dynamics_dv(d: Dynamics) -> DynamicsV
    decreases d,
{
    match d {
        Dynamics::Items(items) => DynamicsV::Items(dyn_seq_dv(items@)),
        Dynamics::List(rows) => DynamicsV::List(row_seq_dv(rows@)),
    }
}

/// The mathematical value of a sequence of ordinary slots.
pub open spec fn dyn_seq_dv(s: Seq<Dynamic>) -> Seq<DynamicV>
    decreases s, s.len(),
{
    if s.len() == 0 {
        Seq::empty()
    } else {
        dyn_seq_dv(s.drop_last()).push(dyn_dv(s.last()))
    }
}

/// The mathematical value of one ordinary slot.
pub open spec fn dyn_dv(d: Dynamic) -> DynamicV
    decreases d,
{
    match d {
        Dynamic::Text(s) => DynamicV::Text(s@),
        Dynamic::Nested(r) => DynamicV::Nested(rendered_dv(r)),
    }
}

/// The mathematical value of a sequence of loop rows.
pub open spec fn row_seq_dv(rows: Seq<Vec<ListDynamic>>) -> Seq<Seq<ListDynamicV>>
    decreases rows, rows.len(),
{
    if rows.len() == 0 {
        Seq::empty()
    } else {
        row_seq_dv(rows.drop_last()).push(list_dyn_seq_dv(rows.last()@))
    }
}

/// The mathematical value of one loop row.
pub open spec fn list_dyn_seq_dv(s: Seq<ListDynamic>) -> Seq<ListDynamicV>
    decreases s, s.len(),
{
    if s.len() == 0 {
        Seq::empty()
    } else {
        list_dyn_seq_dv(s.drop_last()).push(list_dyn_dv(s.last()))
    }
}

/// The mathematical value of one loop-row slot.
pub open spec fn list_dyn_dv(d: ListDynamic) -> ListDynamicV
    decreases d,
{
    match d {
        ListDynamic::Text(s) => ListDynamicV::Text(s@),
        ListDynamic::Nested(item) => ListDynamicV::Nested(list_item_dv(item)),
    }
}

/// The mathematical value of a loop-row item.
pub open spec fn list_item_dv(item: RenderedListItem) -> ListItemV
    decreases item,
{
    ListItemV {
        statics: item.statics as int,
        dynamics: dynamics_seq_dv(item.dynamics@),
    }
}

/// The mathematical value of a sequence of dynamic groups.
pub open spec fn dynamics_seq_dv(s: Seq<Dynamics>) -> Seq<DynamicsV>
    decreases s, s.len(),
{
    if s.len() == 0 {
        Seq::empty()
    } else {
        dynamics_seq_dv(s.drop_last()).push(dynamics_dv(s.last()))
    }
}

impl DeepView for Rendered {
    type V = RenderedV;

    open spec fn deep_view(&self) -> RenderedV {
        rendered_dv(*self)
    }
}

impl DeepView for Dynamics {
    type V = DynamicsV;

    open spec fn deep_view(&self) -> DynamicsV {
        dynamics_dv(*self)
    }
}

impl DeepView for Dynamic {
    type V = DynamicV;

    open spec fn deep_view(&self) -> DynamicV {
        dyn_dv(*self)
    }
}

impl DeepView for ListDynamic {
    type V = ListDynamicV;

    open spec fn deep_view(&self) -> ListDynamicV {
        list_dyn_dv(*self)
    }
}

impl DeepView for RenderedListItem {
    type V = ListItemV;

    open spec fn deep_view(&self) -> ListItemV {
        list_item_dv(*self)
    }
}

/// Relates the element-wise view of a vector of slots to its sequence view:
/// each position's value is the view of the vector's element there.
pub broadcast proof fn lemma_dyn_seq_dv_len_index(s: Seq<Dynamic>)
    ensures
        (#[trigger] dyn_seq_dv(s)).len() == s.len(),
        forall|i: int| 0 <= i < s.len() ==> dyn_seq_dv(s)[i] == dyn_dv(s[i]),
    decreases s.len(),
{
    if s.len() > 0 {
        lemma_dyn_seq_dv_len_index(s.drop_last());
    }
}

/// Relates the row-wise view of loop rows to its sequence view.
pub broadcast proof fn lemma_row_seq_dv_len_index(rows: Seq<Vec<ListDynamic>>)
    ensures
        (#[trigger] row_seq_dv(rows)).len() == rows.len(),
        forall|i: int| 0 <= i < rows.len() ==> row_seq_dv(rows)[i] == list_dyn_seq_dv(rows[i]@),
    decreases rows.len(),
{
    if rows.len() > 0 {
        lemma_row_seq_dv_len_index(rows.drop_last());
    }
}

/// Relates the element-wise view of one loop row to its sequence view.
pub broadcast proof fn lemma_list_dyn_seq_dv_len_index(s: Seq<ListDynamic>)
    ensures
        (#[trigger] list_dyn_seq_dv(s)).len() == s.len(),
        forall|i: int| 0 <= i < s.len() ==> list_dyn_seq_dv(s)[i] == list_dyn_dv(s[i]),
    decreases s.len(),
{
    if s.len() > 0 {
        lemma_list_dyn_seq_dv_len_index(s.drop_last());
    }
}

/// Appending a slot commutes with taking views.
pub broadcast proof fn lemma_dyn_seq_dv_push(s: Seq<Dynamic>, d: Dynamic)
    ensures
        #[trigger] dyn_seq_dv(s.push(d)) == dyn_seq_dv(s).push(dyn_dv(d)),
{
    assert(s.push(d).drop_last() =~= s);
    assert(s.push(d).last() == d);
}

/// Appending a row slot commutes with taking views.
pub broadcast proof fn lemma_list_dyn_seq_dv_push(s: Seq<ListDynamic>, d: ListDynamic)
    ensures
        #[trigger] list_dyn_seq_dv(s.push(d)) == list_dyn_seq_dv(s).push(list_dyn_dv(d)),
{
    assert(s.push(d).drop_last() =~= s);
    assert(s.push(d).last() == d);
}

/// Appending a row commutes with taking views.
pub broadcast proof fn lemma_row_seq_dv_push(rows: Seq<Vec<ListDynamic>>, r: Vec<ListDynamic>)
    ensures
        #[trigger] row_seq_dv(rows.push(r)) == row_seq_dv(rows).push(list_dyn_seq_dv(r@)),
{
    assert(rows.push(r).drop_last() =~= rows);
    assert(rows.push(r).last() == r);
}

/// Appending a dynamic group commutes with taking views.
pub broadcast proof fn lemma_dynamics_seq_dv_push(s: Seq<Dynamics>, d: Dynamics)
    ensures
        #[trigger] dynamics_seq_dv(s.push(d)) == dynamics_seq_dv(s).push(dynamics_dv(d)),
{
    assert(s.push(d).drop_last() =~= s);
    assert(s.push(d).last() == d);
}

/// Relates the element-wise view of a vector of dynamic groups to its
/// sequence view.
pub broadcast proof fn lemma_dynamics_seq_dv_len_index(s: Seq<Dynamics>)
    ensures
        (#[trigger] dynamics_seq_dv(s)).len() == s.len(),
        forall|i: int| 0 <= i < s.len() ==> dynamics_seq_dv(s)[i] == dynamics_dv(s[i]),
    decreases s.len(),
{
    if s.len() > 0 {
        lemma_dynamics_seq_dv_len_index(s.drop_last());
    }
}


// ---------------------------------------------------------------------------
// Flattened text: statics interleaved with dynamics.
// ---------------------------------------------------------------------------

/// The concatenation of a sequence of texts.
pub open spec fn cat_texts(ss: Seq<Seq<char>>) -> Seq<char>
    decreases ss,
{
    if ss.len() == 0 {
        Seq::empty()
    } else {
        cat_texts(ss.drop_last()) + ss.last()
    }
}

/// The fragment at position `i`, empty when the statics run short.
pub open spec fn static_at(statics: Seq<Seq<char>>, i: int) -> Seq<char> {
    if 0 <= i < statics.len() {
        statics[i]
    } else {
        Seq::empty()
    }
}

/// The fragments left over after the interleaving.
pub open spec fn statics_tail(statics: Seq<Seq<char>>, from: int) -> Seq<Seq<char>> {
    if 0 <= from < statics.len() {
        statics.skip(from)
    } else {
        Seq::empty()
    }
}

/// The interleaving of fragments and slot texts: each slot's text follows
/// its fragment.
pub open spec fn flatten_pairs(statics: Seq<Seq<char>>, dynamics: Seq<DynamicV>) -> Seq<char>
    decreases dynamics, 1nat,
{
    if dynamics.len() == 0 {
        Seq::empty()
    } else {
        flatten_pairs(statics, dynamics.drop_last()) + static_at(statics, dynamics.len() - 1)
            + dyn_text(dynamics.last())
    }
}

/// The full text of an ordinary node: the interleaving, then the leftover
/// fragments.
pub open spec fn flatten_node(statics: Seq<Seq<char>>, dynamics: Seq<DynamicV>) -> Seq<char>
    decreases dynamics, 2nat,
{
    flatten_pairs(statics, dynamics) + cat_texts(statics_tail(statics, dynamics.len() as int))
}

/// The text of one ordinary slot.
pub open spec fn dyn_text(d: DynamicV) -> Seq<char>
    decreases d, 3nat,
{
    match d {
        DynamicV::Text(s) => s,
        DynamicV::Nested(r) => flatten_rendered(r),
    }
}

/// The flattened text of a whole tree: statics interleaved with dynamics;
/// each loop row interleaves the loop's statics with its own slots.
pub open spec fn flatten_rendered(r: RenderedV) -> Seq<char>
    decreases r, 4nat,
{
    match r.dynamics {
        DynamicsV::Items(ds) => flatten_node(r.statics, ds),
        DynamicsV::List(rows) => flatten_rows(r.statics, rows, r.templates),
    }
}

/// The text of all rows of a loop node.
pub open spec fn flatten_rows(
    statics: Seq<Seq<char>>,
    rows: Seq<Seq<ListDynamicV>>,
    templates: Seq<Seq<Seq<char>>>,
) -> Seq<char>
    decreases rows, 3nat,
{
    if rows.len() == 0 {
        Seq::empty()
    } else {
        flatten_rows(statics, rows.drop_last(), templates) + flatten_row(
            statics,
            rows.last(),
            templates,
        )
    }
}

/// The text of one loop row: the loop's statics interleaved with the row's
/// slots.
pub open spec fn flatten_row(
    statics: Seq<Seq<char>>,
    row: Seq<ListDynamicV>,
    templates: Seq<Seq<Seq<char>>>,
) -> Seq<char>
    decreases row, 2nat,
{
    flatten_row_pairs(statics, row, templates) + cat_texts(
        statics_tail(statics, row.len() as int),
    )
}

/// The interleaving of a row's slots with the loop's statics.
pub open spec fn flatten_row_pairs(
    statics: Seq<Seq<char>>,
    row: Seq<ListDynamicV>,
    templates: Seq<Seq<Seq<char>>>,
) -> Seq<char>
    decreases row, 1nat,
{
    if row.len() == 0 {
        Seq::empty()
    } else {
        flatten_row_pairs(statics, row.drop_last(), templates) + static_at(
            statics,
            row.len() - 1,
        ) + list_dyn_text(row.last(), templates)
    }
}

/// The text of one row slot; a nested row item renders through its shared
/// template.
pub open spec fn list_dyn_text(d: ListDynamicV, templates: Seq<Seq<Seq<char>>>) -> Seq<char>
    decreases d, 3nat,
{
    match d {
        ListDynamicV::Text(s) => s,
        ListDynamicV::Nested(item) => {
            let tstatics = if 0 <= item.statics < templates.len() {
                templates[item.statics]
            } else {
                Seq::empty()
            };
            flatten_item_groups(tstatics, item.dynamics, templates)
        },
    }
}

/// The text of a row item: its template's fragments interleaved with its
/// dynamic groups.
pub open spec fn flatten_item_groups(
    tstatics: Seq<Seq<char>>,
    groups: Seq<DynamicsV>,
    templates: Seq<Seq<Seq<char>>>,
) -> Seq<char>
    decreases groups, 2nat,
{
    flatten_group_pairs(tstatics, groups, templates) + cat_texts(
        statics_tail(tstatics, groups.len() as int),
    )
}

/// The interleaving of a row item's groups with its template's fragments.
pub open spec fn flatten_group_pairs(
    tstatics: Seq<Seq<char>>,
    groups: Seq<DynamicsV>,
    templates: Seq<Seq<Seq<char>>>,
) -> Seq<char>
    decreases groups, 1nat,
{
    if groups.len() == 0 {
        Seq::empty()
    } else {
        flatten_group_pairs(tstatics, groups.drop_last(), templates) + static_at(
            tstatics,
            groups.len() - 1,
        ) + group_text(groups.last(), templates)
    }
}

/// The text of one dynamic group of a row item.
pub open spec fn group_text(g: DynamicsV, templates: Seq<Seq<Seq<char>>>) -> Seq<char>
    decreases g, 0nat,
{
    match g {
        DynamicsV::Items(ds) => flatten_pairs(Seq::empty(), ds),
        DynamicsV::List(rows) => group_rows_text(rows, templates),
    }
}

/// The text of a group's rows.
pub open spec fn group_rows_text(
    rows: Seq<Seq<ListDynamicV>>,
    templates: Seq<Seq<Seq<char>>>,
) -> Seq<char>
    decreases rows, 3nat,
{
    if rows.len() == 0 {
        Seq::empty()
    } else {
        group_rows_text(rows.drop_last(), templates) + flatten_row_pairs(
            Seq::empty(),
            rows.last(),
            templates,
        )
    }
}


/// The text of one ordinary slot.
fn dyn_text_exec(d: &Dynamic) -> (r: String)
    ensures
        r@ == dyn_text(dyn_dv(*d)),
    decreases d, 3nat,
{
    match d {
        Dynamic::Text(s) => s.clone(),
        Dynamic::Nested(t) => t.to_text(),
    }
}

/// The text of one row slot.
fn list_dyn_text_exec(d: &ListDynamic, templates: &Vec<Vec<String>>) -> (r: String)
    ensures
        r@ == list_dyn_text(list_dyn_dv(*d), templates.deep_view()),
    decreases d, 3nat,
{
    match d {
        ListDynamic::Text(s) => s.clone(),
        ListDynamic::Nested(item) => item_text_exec(item, templates),
    }
}

/// The text of a row item, through its shared template.
#[verifier::loop_isolation(false)]
fn item_text_exec(item: &RenderedListItem, templates: &Vec<Vec<String>>) -> (r: String)
    ensures
        r@ == list_dyn_text(ListDynamicV::Nested(list_item_dv(*item)), templates.deep_view()),
    decreases item, 2nat,
{
    proof {
        lemma_dynamics_seq_dv_len_index(item.dynamics@);
    }
    let ghost gdv = dynamics_seq_dv(item.dynamics@);
    let empty_statics: Vec<String> = Vec::new();
    let tstatics: &Vec<String> = if item.statics < templates.len() {
        &templates[item.statics]
    } else {
        &empty_statics
    };
    let ghost tsdv = if 0 <= item.statics < templates.deep_view().len() {
        templates.deep_view()[item.statics as int]
    } else {
        Seq::<Seq<char>>::empty()
    };
    proof {
        assert(tstatics.deep_view() =~= tsdv);
    }
    let mut out = String::new();
    let n = item.dynamics.len();
    let mut i: usize = 0;
    proof {
        assert(gdv.take(0) =~= Seq::empty());
        assert(out@ =~= flatten_group_pairs(tsdv, gdv.take(0), templates.deep_view()));
    }
    while i < n
        invariant
            i <= n,
            out@ =~~= flatten_group_pairs(tsdv, gdv.take(i as int), templates.deep_view()),
        decreases n - i,
    {
        if i < tstatics.len() {
            out.append(tstatics[i].as_str());
        }
        proof {
            assert(decreases_to!(*item => item.dynamics));
            assert(decreases_to!(item.dynamics => item.dynamics@));
            assert(decreases_to!(item.dynamics@ => item.dynamics@[i as int]));
            assert(decreases_to!(*item => item.dynamics@[i as int]));
        }
        let g = group_text_exec(&item.dynamics[i], templates);
        out.append(g.as_str());
        proof {
            assert(gdv.take(i + 1).drop_last() =~= gdv.take(i as int));
            assert(gdv.take(i + 1).last() == gdv[i as int]);
            assert(static_at(tsdv, i as int) =~= if i < tstatics@.len() {
                tstatics@[i as int]@
            } else {
                Seq::<char>::empty()
            });
        }
        i = i + 1;
    }
    proof {
        assert(gdv.take(n as int) =~= gdv);
    }
    append_statics_tail(&mut out, tstatics, n);
    proof {
        assert(out@ =~~= flatten_item_groups(tsdv, gdv, templates.deep_view()));
    }
    out
}

/// The text of one dynamic group of a row item.
#[verifier::loop_isolation(false)]
fn group_text_exec(g: &Dynamics, templates: &Vec<Vec<String>>) -> (r: String)
    ensures
        r@ == group_text(dynamics_dv(*g), templates.deep_view()),
    decreases g, 1nat,
{
    match g {
        Dynamics::Items(ds) => {
            proof {
                lemma_dyn_seq_dv_len_index(ds@);
            }
            let ghost ddv = dyn_seq_dv(ds@);
            let mut out = String::new();
            let n = ds.len();
            let mut i: usize = 0;
            proof {
                assert(ddv.take(0) =~= Seq::empty());
                assert(out@ =~= flatten_pairs(Seq::empty(), ddv.take(0)));
            }
            while i < n
                invariant
                    i <= n,
                    out@ =~~= flatten_pairs(Seq::empty(), ddv.take(i as int)),
                decreases n - i,
            {
                proof {
                    assert(decreases_to!(*g => g->Items_0));
                    assert(decreases_to!(g->Items_0 => g->Items_0@));
                    assert(decreases_to!(g->Items_0@ => g->Items_0@[i as int]));
                    assert(decreases_to!(*g => ds@[i as int]));
                }
                let d = dyn_text_exec(&ds[i]);
                out.append(d.as_str());
                proof {
                    assert(ddv.take(i + 1).drop_last() =~= ddv.take(i as int));
                    assert(ddv.take(i + 1).last() == ddv[i as int]);
                    assert(static_at(Seq::empty(), i as int) =~= Seq::<char>::empty());
                }
                i = i + 1;
            }
            proof {
                assert(ddv.take(n as int) =~= ddv);
            }
            out
        },
        Dynamics::List(rows) => {
            proof {
                lemma_row_seq_dv_len_index(rows@);
            }
            let ghost rdv = row_seq_dv(rows@);
            let mut out = String::new();
            let n = rows.len();
            let mut i: usize = 0;
            proof {
                assert(rdv.take(0) =~= Seq::empty());
                assert(out@ =~= group_rows_text(rdv.take(0), templates.deep_view()));
            }
            while i < n
                invariant
                    i <= n,
                    out@ =~~= group_rows_text(rdv.take(i as int), templates.deep_view()),
                decreases n - i,
            {
                proof {
                    lemma_list_dyn_seq_dv_len_index(rows@[i as int]@);
                }
                let ghost rowdv = rdv[i as int];
                let row = &rows[i];
                let m = row.len();
                let mut k: usize = 0;
                let ghost out_before = out@;
                proof {
                    assert(rowdv.take(0) =~= Seq::empty());
                    assert(out@ =~~= out_before + flatten_row_pairs(
                        Seq::empty(),
                        rowdv.take(0),
                        templates.deep_view(),
                    ));
                }
                while k < m
                    invariant
                        k <= m,
                        m == rows@[i as int]@.len(),
                        rowdv == rdv[i as int] && rowdv.len() == m,
                        forall|x: int|
                            0 <= x < m ==> rowdv[x] == list_dyn_dv(rows@[i as int]@[x]),
                        out@ =~~= out_before + flatten_row_pairs(
                            Seq::empty(),
                            rowdv.take(k as int),
                            templates.deep_view(),
                        ),
                    decreases m - k,
                {
                    proof {
                        assert(decreases_to!(*g => g->List_0));
                        assert(decreases_to!(g->List_0 => g->List_0@));
                        assert(decreases_to!(g->List_0@ => g->List_0@[i as int]));
                        assert(decreases_to!(
                            g->List_0@[i as int] => g->List_0@[i as int]@
                        ));
                        assert(decreases_to!(
                            g->List_0@[i as int]@ => g->List_0@[i as int]@[k as int]
                        ));
                        assert(decreases_to!(*g => rows@[i as int]@[k as int]));
                    }
                    let d = list_dyn_text_exec(&row[k], templates);
                    out.append(d.as_str());
                    proof {
                        assert(rowdv.take(k + 1).drop_last() =~= rowdv.take(k as int));
                        assert(rowdv.take(k + 1).last() == rowdv[k as int]);
                        assert(static_at(Seq::empty(), k as int) =~= Seq::<char>::empty());
                    }
                    k = k + 1;
                }
                proof {
                    assert(rowdv.take(m as int) =~= rowdv);
                    assert(rdv.take(i + 1).drop_last() =~= rdv.take(i as int));
                    assert(rdv.take(i + 1).last() == rdv[i as int]);
                }
                i = i + 1;
            }
            proof {
                assert(rdv.take(n as int) =~= rdv);
            }
            out
        },
    }
}

impl Rendered {
    /// The flattened text of the tree: literal fragments interleaved with
    /// the dynamic slots' texts, as the initial page load embeds it.
    #[verifier::loop_isolation(false)]
    #[verifier::rlimit(30)]
    pub fn to_text(&self) -> (r: String)
        ensures
            r@ == flatten_rendered(self.deep_view()),
        decreases self, 4nat,
    {
        let ghost sdv = self.statics.deep_view();
        match &self.dynamics {
            Dynamics::Items(ds) => {
                proof {
                    lemma_dyn_seq_dv_len_index(ds@);
                }
                let ghost ddv = dyn_seq_dv(ds@);
                let mut out = String::new();
                let n = ds.len();
                let mut i: usize = 0;
                proof {
                    assert(ddv.take(0) =~= Seq::empty());
                    assert(out@ =~= flatten_pairs(sdv, ddv.take(0)));
                }
                while i < n
                    invariant
                        i <= n,
                        out@ =~~= flatten_pairs(sdv, ddv.take(i as int)),
                    decreases n - i,
                {
                    if i < self.statics.len() {
                        out.append(self.statics[i].as_str());
                    }
                    proof {
                        assert(decreases_to!(*self => self.dynamics));
                        assert(decreases_to!(self.dynamics => self.dynamics->Items_0));
                        assert(decreases_to!(
                            self.dynamics->Items_0 => self.dynamics->Items_0@
                        ));
                        assert(decreases_to!(
                            self.dynamics->Items_0@ => self.dynamics->Items_0@[i as int]
                        ));
                        assert(decreases_to!(*self => ds@[i as int]));
                    }
                    let d = dyn_text_exec(&ds[i]);
                    out.append(d.as_str());
                    proof {
                        assert(ddv.take(i + 1).drop_last() =~= ddv.take(i as int));
                        assert(ddv.take(i + 1).last() == ddv[i as int]);
                        assert(static_at(sdv, i as int) =~= if i < self.statics@.len() {
                            self.statics@[i as int]@
                        } else {
                            Seq::<char>::empty()
                        });
                    }
                    i = i + 1;
                }
                proof {
                    assert(ddv.take(n as int) =~= ddv);
                }
                append_statics_tail(&mut out, &self.statics, n);
                proof {
                    assert(out@ =~~= flatten_node(sdv, ddv));
                }
                out
            },
            Dynamics::List(rows) => {
                proof {
                    lemma_row_seq_dv_len_index(rows@);
                }
                let ghost rdv = row_seq_dv(rows@);
                let mut out = String::new();
                let n = rows.len();
                let mut i: usize = 0;
                proof {
                    assert(rdv.take(0) =~= Seq::empty());
                    assert(out@ =~= flatten_rows(sdv, rdv.take(0), self.templates.deep_view()));
                }
                while i < n
                    invariant
                        i <= n,
                        out@ =~~= flatten_rows(sdv, rdv.take(i as int), self.templates.deep_view()),
                    decreases n - i,
                {
                    proof {
                        lemma_list_dyn_seq_dv_len_index(rows@[i as int]@);
                    }
                    let ghost rowdv = rdv[i as int];
                    let row = &rows[i];
                    let m = row.len();
                    let mut k: usize = 0;
                    let ghost out_before = out@;
                    proof {
                        assert(rowdv.take(0) =~= Seq::empty());
                        assert(out@ =~~= out_before + flatten_row_pairs(
                            sdv,
                            rowdv.take(0),
                            self.templates.deep_view(),
                        ));
                    }
                    while k < m
                        invariant
                            k <= m,
                            m == rows@[i as int]@.len(),
                            rowdv == rdv[i as int] && rowdv.len() == m,
                            forall|x: int|
                                0 <= x < m ==> rowdv[x] == list_dyn_dv(rows@[i as int]@[x]),
                            out@ =~~= out_before + flatten_row_pairs(
                                sdv,
                                rowdv.take(k as int),
                                self.templates.deep_view(),
                            ),
                        decreases m - k,
                    {
                        if k < self.statics.len() {
                            out.append(self.statics[k].as_str());
                        }
                        proof {
                            assert(decreases_to!(*self => self.dynamics));
                            assert(decreases_to!(self.dynamics => self.dynamics->List_0));
                            assert(decreases_to!(
                                self.dynamics->List_0 => self.dynamics->List_0@
                            ));
                            assert(decreases_to!(
                                self.dynamics->List_0@ => self.dynamics->List_0@[i as int]
                            ));
                            assert(decreases_to!(
                                self.dynamics->List_0@[i as int]
                                    => self.dynamics->List_0@[i as int]@
                            ));
                            assert(decreases_to!(
                                self.dynamics->List_0@[i as int]@
                                    => self.dynamics->List_0@[i as int]@[k as int]
                            ));
                            assert(decreases_to!(*self => rows@[i as int]@[k as int]));
                        }
                        let d = list_dyn_text_exec(&row[k], &self.templates);
                        out.append(d.as_str());
                        proof {
                            assert(rowdv.take(k + 1).drop_last() =~= rowdv.take(k as int));
                            assert(rowdv.take(k + 1).last() == rowdv[k as int]);
                            assert(static_at(sdv, k as int) =~= if k < self.statics@.len() {
                                self.statics@[k as int]@
                            } else {
                                Seq::<char>::empty()
                            });
                        }
                        k = k + 1;
                    }
                    proof {
                        assert(rowdv.take(m as int) =~= rowdv);
                    }
                    append_statics_tail(&mut out, &self.statics, m);
                    proof {
                        assert(out@ =~~= out_before + flatten_row(
                            sdv,
                            rowdv,
                            self.templates.deep_view(),
                        ));
                        assert(rdv.take(i + 1).drop_last() =~= rdv.take(i as int));
                        assert(rdv.take(i + 1).last() == rdv[i as int]);
                    }
                    i = i + 1;
                }
                proof {
                    assert(rdv.take(n as int) =~= rdv);
                }
                out
            },
        }
    }
}

/// Appends the fragments left over after the interleaving.
#[verifier::loop_isolation(false)]
fn append_statics_tail(out: &mut String, statics: &Vec<String>, from: usize)
    ensures
        final(out)@ == old(out)@ + cat_texts(
            statics_tail(statics.deep_view(), from as int),
        ),
{
    let m = statics.len();
    let ghost tail = statics_tail(statics.deep_view(), from as int);
    let mut j: usize = from;
    proof {
        if from < m {
            assert(tail.take(0) =~= Seq::<Seq<char>>::empty());
        } else {
            assert(tail =~= Seq::<Seq<char>>::empty());
        }
        assert(out@ =~~= old(out)@ + cat_texts(tail.take(if from < m {
            0
        } else {
            tail.len() as int
        })));
    }
    while j < m
        invariant
            from <= j <= m || (j == from && m <= from),
            m == statics@.len(),
            tail == statics_tail(statics.deep_view(), from as int),
            from < m ==> out@ =~~= old(out)@ + cat_texts(tail.take(j - from)),
            from >= m ==> out@ == old(out)@,
        decreases m - j,
    {
        out.append(statics[j].as_str());
        proof {
            assert(tail.take(j - from + 1).drop_last() =~= tail.take(j - from));
            assert(tail.take(j - from + 1).last() == tail[j - from]);
        }
        j = j + 1;
    }
    proof {
        if from < m {
            assert(tail.take(m - from) =~= tail);
        }
    }
}

} // verus!
