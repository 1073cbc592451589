//! Builder that accumulates one linear pass of template-evaluation events
//! (static text, dynamic text, conditional frames, loop frames and rows)
//! into an immutable [`Rendered`] tree.
//!
//! The builder keeps a stack of open accumulator frames. The innermost open
//! frame receives every push. Closing a frame finalizes it into one dynamic
//! slot of its parent; loop-row structure is deduplicated into a template
//! table shared by the whole enclosing loop subtree.

use vstd::prelude::*;

use crate::rendered::{
    Dynamic, DynamicV, Dynamics, DynamicsV, ListDynamic, ListDynamicV, ListItemV, Rendered,
    RenderedListItem, RenderedV,
};

verus! {

// ---------------------------------------------------------------------------
// Frames.
// ---------------------------------------------------------------------------

/// An open accumulator frame.
#[derive(Debug)]
pub struct Node {
    /// The frame's accumulator.
    pub value: NodeValue,
}

/// The kind of an open accumulator frame.
#[derive(Debug)]
#[verifier::ext_equal]
pub enum NodeValue {
    /// Ordinary content outside any loop.
    Items(ItemsNode),
    /// Ordinary content inside a loop subtree (a conditional in a row).
    RowItems(RowItemsNode),
    /// A loop.
    List(ListNode),
}

/// Accumulator for ordinary content outside any loop.
#[derive(Debug)]
pub struct ItemsNode {
    /// Literal fragments seen so far.
    pub statics: Vec<String>,
    /// Finalized dynamic slots seen so far.
    pub dynamics: Vec<Dynamic>,
}

/// Accumulator for ordinary content inside a loop subtree.
#[derive(Debug)]
pub struct RowItemsNode {
    /// Literal fragments seen so far.
    pub statics: Vec<String>,
    /// Finalized row slots seen so far.
    pub dynamics: Vec<ListDynamic>,
}

/// Accumulator for a loop.
#[derive(Debug)]
pub struct ListNode {
    /// Literal fragments, recorded from the first row only.
    pub statics: Vec<String>,
    /// One inner vector of finalized slots per row.
    pub dynamics: Vec<Vec<ListDynamic>>,
    /// How many rows were opened with [`RenderedBuilder::push_for_item`].
    pub iteration: usize,
}

// ---------------------------------------------------------------------------
// Ghost mirrors of the frames and the builder.
// ---------------------------------------------------------------------------

/// Mathematical value of an open frame.
#[verifier::ext_equal]
pub enum NodeV {
    /// Ordinary content outside any loop.
    Items { statics: Seq<Seq<char>>, dynamics: Seq<DynamicV> },
    /// Ordinary content inside a loop subtree.
    RowItems { statics: Seq<Seq<char>>, dynamics: Seq<ListDynamicV> },
    /// A loop.
    List { statics: Seq<Seq<char>>, dynamics: Seq<Seq<ListDynamicV>>, iteration: nat },
}

/// Mathematical value of the whole builder.
#[verifier::ext_equal]
pub struct BuilderV {
    /// The open frames; the first is the root, the last is current.
    pub stack: Seq<NodeV>,
    /// The active template table of the open loop subtree, if any.
    pub templates: Seq<Seq<Seq<char>>>,
}

/// The mathematical value of one frame.
pub open spec fn node_dv(n: Node) -> NodeV
    decreases n,
{
    match n.value {
        NodeValue::Items(f) => NodeV::Items {
            statics: f.statics.deep_view(),
            dynamics: crate::rendered::dyn_seq_dv(f.dynamics@),
        },
        NodeValue::RowItems(f) => NodeV::RowItems {
            statics: f.statics.deep_view(),
            dynamics: crate::rendered::list_dyn_seq_dv(f.dynamics@),
        },
        NodeValue::List(f) => NodeV::List {
            statics: f.statics.deep_view(),
            dynamics: crate::rendered::row_seq_dv(f.dynamics@),
            iteration: f.iteration as nat,
        },
    }
}

/// The mathematical value of the frame stack.
pub open spec fn node_seq_dv(s: Seq<Node>) -> Seq<NodeV>
    decreases s, s.len(),
{
    if s.len() == 0 {
        Seq::empty()
    } else {
        node_seq_dv(s.drop_last()).push(node_dv(s.last()))
    }
}

/// Appending a frame commutes with taking views.
pub broadcast proof fn lemma_node_seq_dv_push(s: Seq<Node>, n: Node)
    ensures
        #[trigger] node_seq_dv(s.push(n)) == node_seq_dv(s).push(node_dv(n)),
{
    assert(s.push(n).drop_last() =~= s);
    assert(s.push(n).last() == n);
}

/// Relates the frame-stack view to its elements.
pub broadcast proof fn lemma_node_seq_dv_len_index(s: Seq<Node>)
    ensures
        (#[trigger] node_seq_dv(s)).len() == s.len(),
        forall|i: int| 0 <= i < s.len() ==> node_seq_dv(s)[i] == node_dv(s[i]),
    decreases s.len(),
{
    if s.len() > 0 {
        lemma_node_seq_dv_len_index(s.drop_last());
    }
}

// ---------------------------------------------------------------------------
// Well-formedness.
// ---------------------------------------------------------------------------

/// Whether some frame strictly below position `i` is a loop frame, which
/// makes position `i` part of a loop subtree ("row mode").
pub open spec fn row_mode(stack: Seq<NodeV>, i: int) -> bool {
    exists|j: int| 0 <= j < i && stack[j] is List
}

/// The per-frame length invariant: a frame never holds more than one literal
/// fragment beyond its dynamic slots.
pub open spec fn frame_wf(f: NodeV) -> bool {
    match f {
        NodeV::Items { statics, dynamics } => statics.len() <= dynamics.len() + 1,
        NodeV::RowItems { statics, dynamics } => statics.len() <= dynamics.len() + 1,
        NodeV::List { statics, dynamics, iteration } => {
            &&& (dynamics.len() == 0 ==> statics.len() == 0)
            &&& (dynamics.len() > 0 ==> statics.len() <= dynamics[0].len() + 1)
            &&& iteration <= dynamics.len()
        },
    }
}

/// Well-formedness of the whole builder: a root frame exists, frame kinds
/// agree with their position's mode, frames obey the length invariant, and
/// the template table is empty while no loop is open.
pub open spec fn builder_wf(b: BuilderV) -> bool {
    &&& b.stack.len() >= 1
    &&& b.stack[0] is Items
    &&& forall|i: int|
        0 <= i < b.stack.len() ==> ((#[trigger] b.stack[i]) is Items ==> !row_mode(b.stack, i))
    &&& forall|i: int|
        0 <= i < b.stack.len() ==> ((#[trigger] b.stack[i]) is RowItems ==> row_mode(b.stack, i))
    &&& forall|i: int| 0 <= i < b.stack.len() ==> frame_wf(#[trigger] b.stack[i])
    &&& (forall|i: int| 0 <= i < b.stack.len() ==> !((#[trigger] b.stack[i]) is List))
        ==> b.templates.len() == 0
}

// ---------------------------------------------------------------------------
// Spec-level transitions: what each builder event does to the open frames.
// ---------------------------------------------------------------------------

/// What a literal fragment does to a frame's statics: it extends the last
/// fragment when no dynamic slot followed it, else it opens a new fragment.
pub open spec fn push_or_extend_t(statics: Seq<Seq<char>>, dlen: int, s: Seq<char>) -> Seq<
    Seq<char>,
> {
    if statics.len() > dlen {
        statics.update(statics.len() - 1, statics.last() + s)
    } else {
        statics.push(s)
    }
}

/// What [`RenderedBuilder::push_static`] does to the current frame.
pub open spec fn push_static_t(f: NodeV, s: Seq<char>) -> NodeV {
    match f {
        NodeV::Items { statics, dynamics } => NodeV::Items {
            statics: push_or_extend_t(statics, dynamics.len() as int, s),
            dynamics,
        },
        NodeV::RowItems { statics, dynamics } => NodeV::RowItems {
            statics: push_or_extend_t(statics, dynamics.len() as int, s),
            dynamics,
        },
        NodeV::List { statics, dynamics, iteration } => {
            if iteration == 1 {
                let dlen = if dynamics.len() > 0 {
                    dynamics[0].len() as int
                } else {
                    0
                };
                NodeV::List {
                    statics: push_or_extend_t(statics, dlen, s),
                    dynamics,
                    iteration,
                }
            } else {
                f
            }
        },
    }
}

/// What [`RenderedBuilder::push_dynamic`] does to the current frame.
pub open spec fn push_dynamic_t(f: NodeV, s: Seq<char>) -> NodeV {
    match f {
        NodeV::Items { statics, dynamics } => NodeV::Items {
            statics: if statics.len() == 0 {
                statics.push(Seq::empty())
            } else {
                statics
            },
            dynamics: dynamics.push(DynamicV::Text(s)),
        },
        NodeV::RowItems { statics, dynamics } => NodeV::RowItems {
            statics: if statics.len() == 0 {
                statics.push(Seq::empty())
            } else {
                statics
            },
            dynamics: dynamics.push(ListDynamicV::Text(s)),
        },
        NodeV::List { statics, dynamics, iteration } => NodeV::List {
            statics,
            dynamics: dynamics.update(
                dynamics.len() - 1,
                dynamics.last().push(ListDynamicV::Text(s)),
            ),
            iteration,
        },
    }
}

/// What [`RenderedBuilder::push_for_item`] does to the current loop frame:
/// it opens a new, empty row.
pub open spec fn push_for_item_t(f: NodeV) -> NodeV {
    match f {
        NodeV::List { statics, dynamics, iteration } => NodeV::List {
            statics,
            dynamics: dynamics.push(Seq::empty()),
            iteration: iteration + 1,
        },
        _ => f,
    }
}

/// A sequence of `n` empty text fragments.
pub open spec fn empties(n: nat) -> Seq<Seq<char>> {
    Seq::new(n, |i: int| Seq::<char>::empty())
}

/// Padding a statics sequence so that, when any dynamic slot exists, it has
/// exactly one more fragment than there are dynamic slots.
pub open spec fn pad_t(statics: Seq<Seq<char>>, dlen: int) -> Seq<Seq<char>> {
    if dlen > 0 && statics.len() < dlen + 1 {
        statics + empties((dlen + 1 - statics.len()) as nat)
    } else {
        statics
    }
}

/// The first position at or after `i` where the table holds `key`.
pub open spec fn template_find_from(
    ts: Seq<Seq<Seq<char>>>,
    key: Seq<Seq<char>>,
    i: int,
) -> Option<int>
    decreases ts.len() - i,
{
    if i < 0 || i >= ts.len() {
        None
    } else if ts[i] == key {
        Some(i)
    } else {
        template_find_from(ts, key, i + 1)
    }
}

/// The first position where the table holds `key`.
pub open spec fn template_find_t(ts: Seq<Seq<Seq<char>>>, key: Seq<Seq<char>>) -> Option<int> {
    template_find_from(ts, key, 0)
}

/// Template deduplication: the id assigned to `key` and the table afterwards.
/// An existing structurally equal entry is reused; otherwise `key` is
/// appended.
pub open spec fn dedup_t(ts: Seq<Seq<Seq<char>>>, key: Seq<Seq<char>>) -> (Seq<Seq<Seq<char>>>, int) {
    match template_find_t(ts, key) {
        Some(j) => (ts, j),
        None => (ts.push(key), ts.len() as int),
    }
}

/// The length of the longest row.
pub open spec fn max_row_len_t(rows: Seq<Seq<ListDynamicV>>) -> int
    decreases rows.len(),
{
    if rows.len() == 0 {
        0
    } else {
        let rest = max_row_len_t(rows.drop_last());
        if rows.last().len() > rest {
            rows.last().len() as int
        } else {
            rest
        }
    }
}

/// Finalizing a closed conditional frame outside any loop: an empty frame
/// collapses to empty text; otherwise it becomes a nested subtree with
/// padded statics and no templates of its own.
pub open spec fn finalize_items_t(statics: Seq<Seq<char>>, dynamics: Seq<DynamicV>) -> DynamicV {
    if statics.len() == 0 && dynamics.len() == 0 {
        DynamicV::Text(Seq::empty())
    } else {
        DynamicV::Nested(
            RenderedV {
                statics: pad_t(statics, dynamics.len() as int),
                dynamics: DynamicsV::Items(dynamics),
                templates: Seq::empty(),
            },
        )
    }
}

/// Finalizing a closed conditional frame inside a loop subtree: an empty
/// frame collapses to empty text; otherwise its padded statics are
/// deduplicated into the loop's template table and it becomes a row item
/// holding one single-row group.
pub open spec fn finalize_row_items_t(
    statics: Seq<Seq<char>>,
    dynamics: Seq<ListDynamicV>,
    ts: Seq<Seq<Seq<char>>>,
) -> (ListDynamicV, Seq<Seq<Seq<char>>>) {
    if statics.len() == 0 && dynamics.len() == 0 {
        (ListDynamicV::Text(Seq::empty()), ts)
    } else {
        let padded = pad_t(statics, dynamics.len() as int);
        let (ts1, id) = dedup_t(ts, padded);
        (
            ListDynamicV::Nested(
                ListItemV { statics: id, dynamics: seq![DynamicsV::List(seq![dynamics])] },
            ),
            ts1,
        )
    }
}

/// Finalizing a closed loop frame whose parent is outside any loop: the loop
/// becomes a nested subtree owning the template table accumulated while it
/// was open; with no statics and an empty (or absent) first row it collapses
/// to empty text.
pub open spec fn finalize_top_list_t(
    statics: Seq<Seq<char>>,
    rows: Seq<Seq<ListDynamicV>>,
    ts: Seq<Seq<Seq<char>>>,
) -> DynamicV {
    let dlen = if rows.len() > 0 {
        rows[0].len() as int
    } else {
        0
    };
    if statics.len() == 0 && dlen == 0 {
        DynamicV::Text(Seq::empty())
    } else {
        DynamicV::Nested(
            RenderedV {
                statics: pad_t(statics, dlen),
                dynamics: DynamicsV::List(rows),
                templates: ts,
            },
        )
    }
}

/// Finalizing a closed loop frame nested inside an enclosing loop: its
/// statics are deduplicated into the shared table, the table's last entry is
/// padded against the longest row, and each row becomes its own single-row
/// group of the resulting row item.
pub open spec fn finalize_nested_list_t(
    statics: Seq<Seq<char>>,
    rows: Seq<Seq<ListDynamicV>>,
    ts: Seq<Seq<Seq<char>>>,
) -> (ListDynamicV, Seq<Seq<Seq<char>>>) {
    let (ts1, id) = dedup_t(ts, statics);
    let ts2 = ts1.update(ts1.len() - 1, pad_t(ts1.last(), max_row_len_t(rows)));
    let groups = Seq::new(rows.len(), |i: int| DynamicsV::List(seq![rows[i]]));
    (ListDynamicV::Nested(ListItemV { statics: id, dynamics: groups }), ts2)
}

/// A parent frame outside any loop receiving a finalized child slot.
pub open spec fn items_receive_t(f: NodeV, v: DynamicV) -> NodeV {
    match f {
        NodeV::Items { statics, dynamics } => NodeV::Items {
            statics: statics.push(Seq::empty()),
            dynamics: dynamics.push(v),
        },
        _ => f,
    }
}

/// A parent frame inside a loop subtree receiving a finalized child slot.
/// A loop frame without an open row opens one implicitly.
pub open spec fn row_receive_t(f: NodeV, v: ListDynamicV) -> NodeV {
    match f {
        NodeV::RowItems { statics, dynamics } => NodeV::RowItems {
            statics: statics.push(Seq::empty()),
            dynamics: dynamics.push(v),
        },
        NodeV::List { statics, dynamics, iteration } => {
            if dynamics.len() == 0 {
                NodeV::List {
                    statics: statics.push(Seq::empty()),
                    dynamics: seq![seq![v]],
                    iteration,
                }
            } else {
                NodeV::List {
                    statics,
                    dynamics: dynamics.update(dynamics.len() - 1, dynamics.last().push(v)),
                    iteration,
                }
            }
        },
        NodeV::Items { .. } => f,
    }
}

/// Closing the innermost open frame: the frame is finalized into one dynamic
/// slot of its parent, according to the two frames' kinds.
pub open spec fn close_frame_t(b: BuilderV) -> BuilderV {
    let child = b.stack.last();
    let parent = b.stack[b.stack.len() - 2];
    let rest = b.stack.drop_last();
    let top = b.stack.len() - 2;
    match child {
        NodeV::Items { statics, dynamics } => BuilderV {
            stack: rest.update(top, items_receive_t(parent, finalize_items_t(statics, dynamics))),
            templates: b.templates,
        },
        NodeV::RowItems { statics, dynamics } => {
            let (v, ts) = finalize_row_items_t(statics, dynamics, b.templates);
            BuilderV { stack: rest.update(top, row_receive_t(parent, v)), templates: ts }
        },
        NodeV::List { statics, dynamics, .. } => {
            if parent is Items {
                BuilderV {
                    stack: rest.update(
                        top,
                        items_receive_t(
                            parent,
                            finalize_top_list_t(statics, dynamics, b.templates),
                        ),
                    ),
                    templates: Seq::empty(),
                }
            } else {
                let (v, ts) = finalize_nested_list_t(statics, dynamics, b.templates);
                BuilderV { stack: rest.update(top, row_receive_t(parent, v)), templates: ts }
            }
        },
    }
}

/// The tree that the root frame finalizes to.
pub open spec fn root_build_t(f: NodeV) -> RenderedV {
    match f {
        NodeV::Items { statics, dynamics } => RenderedV {
            statics: pad_t(statics, dynamics.len() as int),
            dynamics: DynamicsV::Items(dynamics),
            templates: Seq::empty(),
        },
        _ => arbitrary(),
    }
}

/// The tree that [`RenderedBuilder::build`] produces: every open frame is
/// closed bottom-up, then the root frame is finalized.
pub open spec fn build_t(b: BuilderV) -> RenderedV
    decreases b.stack.len(),
{
    if b.stack.len() <= 1 {
        root_build_t(b.stack[0])
    } else {
        build_t(close_frame_t(b))
    }
}

// ---------------------------------------------------------------------------
// Whole-builder transitions.
// ---------------------------------------------------------------------------

/// What [`RenderedBuilder::push_static`] does to the builder.
pub open spec fn push_static_b(b: BuilderV, s: Seq<char>) -> BuilderV {
    BuilderV {
        stack: b.stack.update(b.stack.len() - 1, push_static_t(b.stack.last(), s)),
        templates: b.templates,
    }
}

/// What [`RenderedBuilder::push_dynamic`] does to the builder.
pub open spec fn push_dynamic_b(b: BuilderV, s: Seq<char>) -> BuilderV {
    BuilderV {
        stack: b.stack.update(b.stack.len() - 1, push_dynamic_t(b.stack.last(), s)),
        templates: b.templates,
    }
}

/// What [`RenderedBuilder::push_nested`] does to the builder: the already
/// built tree becomes one dynamic slot of the current frame.
pub open spec fn push_nested_b(b: BuilderV, r: RenderedV) -> BuilderV {
    BuilderV {
        stack: b.stack.update(
            b.stack.len() - 1,
            items_receive_t(b.stack.last(), DynamicV::Nested(r)),
        ),
        templates: b.templates,
    }
}

/// What [`RenderedBuilder::push_if_frame`] does to the builder: a new empty
/// accumulator opens, in row mode exactly when the current frame is part of
/// a loop subtree.
pub open spec fn push_if_frame_b(b: BuilderV) -> BuilderV {
    let f = if b.stack.last() is Items {
        NodeV::Items { statics: Seq::empty(), dynamics: Seq::empty() }
    } else {
        NodeV::RowItems { statics: Seq::empty(), dynamics: Seq::empty() }
    };
    BuilderV { stack: b.stack.push(f), templates: b.templates }
}

/// What [`RenderedBuilder::push_for_frame`] does to the builder: a new empty
/// loop accumulator opens.
pub open spec fn push_for_frame_b(b: BuilderV) -> BuilderV {
    BuilderV {
        stack: b.stack.push(
            NodeV::List { statics: Seq::empty(), dynamics: Seq::empty(), iteration: 0 },
        ),
        templates: b.templates,
    }
}

/// What [`RenderedBuilder::push_for_item`] does to the builder.
pub open spec fn push_for_item_b(b: BuilderV) -> BuilderV {
    BuilderV {
        stack: b.stack.update(b.stack.len() - 1, push_for_item_t(b.stack.last())),
        templates: b.templates,
    }
}

// ---------------------------------------------------------------------------
// Well-formedness preservation helpers.
// ---------------------------------------------------------------------------

/// Replacing the current frame by one of the same kind that satisfies the
/// frame invariant preserves builder well-formedness.
proof fn lemma_wf_update_last(b: BuilderV, g: NodeV)
    requires
        builder_wf(b),
        frame_wf(g),
        g is Items <==> b.stack.last() is Items,
        g is RowItems <==> b.stack.last() is RowItems,
        g is List <==> b.stack.last() is List,
    ensures
        builder_wf(BuilderV { stack: b.stack.update(b.stack.len() - 1, g), templates: b.templates }),
{
    let s2 = b.stack.update(b.stack.len() - 1, g);
    assert forall|i: int| 0 <= i < s2.len() implies row_mode(s2, i) == row_mode(b.stack, i) by {
        if row_mode(s2, i) {
            let j = choose|j: int| 0 <= j < i && s2[j] is List;
            assert(b.stack[j] is List);
        }
        if row_mode(b.stack, i) {
            let j = choose|j: int| 0 <= j < i && b.stack[j] is List;
            assert(s2[j] is List);
        }
    }
    if forall|i: int| 0 <= i < s2.len() ==> !((#[trigger] s2[i]) is List) {
        assert forall|i: int| 0 <= i < b.stack.len() implies !((#[trigger] b.stack[i]) is List) by {
            assert(!(s2[i] is List));
        }
    }
}

/// Opening a new frame whose kind agrees with the current mode preserves
/// builder well-formedness.
proof fn lemma_wf_push_frame(b: BuilderV, g: NodeV)
    requires
        builder_wf(b),
        frame_wf(g),
        g is Items ==> b.stack.last() is Items,
        g is RowItems ==> (b.stack.last() is RowItems || b.stack.last() is List),
    ensures
        builder_wf(BuilderV { stack: b.stack.push(g), templates: b.templates }),
{
    let s2 = b.stack.push(g);
    let n = b.stack.len() as int;
    assert forall|i: int| 0 <= i < n implies row_mode(s2, i) == row_mode(b.stack, i) by {
        if row_mode(s2, i) {
            let j = choose|j: int| 0 <= j < i && s2[j] is List;
            assert(b.stack[j] is List);
        }
        if row_mode(b.stack, i) {
            let j = choose|j: int| 0 <= j < i && b.stack[j] is List;
            assert(s2[j] is List);
        }
    }
    if g is Items {
        // The current frame is an ordinary one, so by well-formedness no
        // loop frame is open anywhere below, nor is it a loop itself.
        assert(!row_mode(b.stack, n - 1));
        assert forall|j: int| 0 <= j < n implies !((#[trigger] s2[j]) is List) by {
            if j < n - 1 {
                assert(!(b.stack[j] is List));
            }
        }
        assert(!row_mode(s2, n));
    }
    if g is RowItems {
        if b.stack.last() is RowItems {
            assert(row_mode(b.stack, n - 1));
            let j = choose|j: int| 0 <= j < n - 1 && b.stack[j] is List;
            assert(s2[j] is List);
            assert(row_mode(s2, n));
        } else {
            assert(b.stack[n - 1] is List);
            assert(s2[n - 1] == b.stack[n - 1]);
            assert(s2[n - 1] is List);
            assert(row_mode(s2, n));
        }
    }
    if forall|i: int| 0 <= i < s2.len() ==> !((#[trigger] s2[i]) is List) {
        assert forall|i: int| 0 <= i < b.stack.len() implies !((#[trigger] b.stack[i]) is List) by {
            assert(!(s2[i] is List));
        }
    }
}

// ---------------------------------------------------------------------------
// Executable helpers.
// ---------------------------------------------------------------------------

/// Appends empty fragments so that, when any dynamic slot exists, the
/// statics hold exactly one more fragment than there are dynamic slots.
fn insert_empty_strings(statics: &mut Vec<String>, dynamics_len: usize)
    ensures
        final(statics).deep_view() =~~= pad_t(old(statics).deep_view(), dynamics_len as int),
{
    if dynamics_len > 0 {
        proof {
            assert(statics.deep_view() =~~= old(statics).deep_view() + empties(0));
        }
        while statics.len() <= dynamics_len
            invariant
                old(statics)@.len() <= statics@.len(),
                statics@.len() <= dynamics_len + 1 || statics@.len() == old(statics)@.len(),
                statics.deep_view() =~~= old(statics).deep_view() + empties(
                    (statics@.len() - old(statics)@.len()) as nat,
                ),
            decreases dynamics_len + 1 - statics@.len(),
        {
            let ghost pre = statics.deep_view();
            statics.push(String::new());
            proof {
                assert(statics.deep_view() =~~= pre.push(Seq::<char>::empty()));
                assert(pre.push(Seq::<char>::empty()) =~~= old(statics).deep_view() + empties(
                    (statics@.len() - old(statics)@.len()) as nat,
                ));
            }
        }
        proof {
            assert(statics.deep_view() =~~= pad_t(old(statics).deep_view(), dynamics_len as int));
        }
    }
}

/// Extends the last fragment when no dynamic slot followed it, else opens a
/// new fragment.
fn push_or_extend_static(statics: &mut Vec<String>, dynamics_len: usize, s: &str)
    ensures
        final(statics).deep_view() =~~= push_or_extend_t(
            old(statics).deep_view(),
            dynamics_len as int,
            s@,
        ),
{
    if statics.len() > dynamics_len {
        let mut last_s = statics.pop().unwrap();
        last_s.append(s);
        statics.push(last_s);
        proof {
            assert(statics.deep_view() =~~= old(statics).deep_view().update(
                old(statics)@.len() - 1,
                old(statics).deep_view().last() + s@,
            ));
        }
    } else {
        statics.push(s.to_owned());
        proof {
            assert(statics.deep_view() =~~= old(statics).deep_view().push(s@));
        }
    }
}

/// Structural equality of two statics sequences.
fn statics_eq(a: &Vec<String>, b: &Vec<String>) -> (r: bool)
    ensures
        r == (a.deep_view() == b.deep_view()),
{
    if a.len() != b.len() {
        proof {
            assert(a.deep_view().len() == a@.len());
            assert(b.deep_view().len() == b@.len());
        }
        return false;
    }
    let n = a.len();
    let mut i: usize = 0;
    while i < n
        invariant
            n == a@.len() && n == b@.len(),
            i <= n,
            forall|j: int| 0 <= j < i ==> a.deep_view()[j] == b.deep_view()[j],
        decreases n - i,
    {
        if !a[i].eq(&b[i]) {
            proof {
                assert(a.deep_view()[i as int] != b.deep_view()[i as int]);
            }
            return false;
        }
        i = i + 1;
    }
    proof {
        assert(a.deep_view() =~~= b.deep_view());
    }
    true
}

/// A key found at `j`, with no occurrence before `j`, is the first
/// occurrence.
proof fn lemma_template_find_first(ts: Seq<Seq<Seq<char>>>, key: Seq<Seq<char>>, j: int)
    requires
        0 <= j <= ts.len(),
        forall|k: int| 0 <= k < j ==> ts[k] != key,
        j < ts.len() ==> ts[j] == key,
    ensures
        j < ts.len() ==> template_find_t(ts, key) == Some(j),
        j == ts.len() ==> template_find_t(ts, key) is None,
{
    let mut i: int = 0;
    assert forall|i: int| 0 <= i <= j implies template_find_from(ts, key, i) == template_find_from(
        ts,
        key,
        j,
    ) by {
        lemma_template_find_step(ts, key, i, j);
    }
}

/// Helper induction for [`lemma_template_find_first`].
proof fn lemma_template_find_step(ts: Seq<Seq<Seq<char>>>, key: Seq<Seq<char>>, i: int, j: int)
    requires
        0 <= i <= j <= ts.len(),
        forall|k: int| 0 <= k < j ==> ts[k] != key,
    ensures
        template_find_from(ts, key, i) == template_find_from(ts, key, j),
    decreases j - i,
{
    if i < j {
        lemma_template_find_step(ts, key, i + 1, j);
    }
}

/// Looks `statics` up in the template table by structural equality and
/// returns its id: the position of the first equal entry, else the position
/// where `statics` was appended. The table keeps every id it ever assigned.
fn find_or_insert_template(templates: &mut Vec<Vec<String>>, statics: Vec<String>) -> (r: usize)
    ensures
        (final(templates).deep_view(), r as int) == dedup_t(
            old(templates).deep_view(),
            statics.deep_view(),
        ),
        final(templates)@.len() >= 1,
        r < final(templates)@.len(),
{
    let n = templates.len();
    let mut i: usize = 0;
    while i < n
        invariant
            n == templates@.len(),
            i <= n,
            *templates == *old(templates),
            forall|k: int| 0 <= k < i ==> templates.deep_view()[k] != statics.deep_view(),
        decreases n - i,
    {
        if statics_eq(&templates[i], &statics) {
            proof {
                assert(templates.deep_view()[i as int] == templates@[i as int].deep_view());
                lemma_template_find_first(templates.deep_view(), statics.deep_view(), i as int);
            }
            return i;
        }
        proof {
            assert(templates.deep_view()[i as int] == templates@[i as int].deep_view());
        }
        i = i + 1;
    }
    proof {
        lemma_template_find_first(templates.deep_view(), statics.deep_view(), n as int);
    }
    templates.push(statics);
    proof {
        assert(templates.deep_view() =~~= old(templates).deep_view().push(statics.deep_view()));
    }
    n
}

/// The length of the longest row.
fn max_row_len(rows: &Vec<Vec<ListDynamic>>) -> (r: usize)
    ensures
        r as int == max_row_len_t(crate::rendered::row_seq_dv(rows@)),
{
    proof {
        crate::rendered::lemma_row_seq_dv_len_index(rows@);
    }
    let mut longest: usize = 0;
    let mut i: usize = 0;
    let n = rows.len();
    while i < n
        invariant
            n == rows@.len(),
            i <= n,
            longest as int == max_row_len_t(
                crate::rendered::row_seq_dv(rows@).subrange(0, i as int),
            ),
        decreases n - i,
    {
        proof {
            crate::rendered::lemma_row_seq_dv_len_index(rows@);
            crate::rendered::lemma_list_dyn_seq_dv_len_index(rows@[i as int]@);
            let rs = crate::rendered::row_seq_dv(rows@);
            assert(rs.subrange(0, i + 1).drop_last() =~= rs.subrange(0, i as int));
            assert(rs.subrange(0, i + 1).last() == rs[i as int]);
        }
        let row_len = rows[i].len();
        if row_len > longest {
            longest = row_len;
        }
        i = i + 1;
    }
    proof {
        let rs = crate::rendered::row_seq_dv(rows@);
        assert(rs.subrange(0, n as int) =~= rs);
    }
    longest
}


/// Finalizing a conditional frame outside any loop.
fn finalize_items_node(f: ItemsNode) -> (r: Dynamic)
    ensures
        r.deep_view() == finalize_items_t(
            f.statics.deep_view(),
            crate::rendered::dyn_seq_dv(f.dynamics@),
        ),
{
    proof {
        crate::rendered::lemma_dyn_seq_dv_len_index(f.dynamics@);
    }
    if f.statics.len() == 0 && f.dynamics.len() == 0 {
        let r = Dynamic::Text(String::new());
        proof {
            assert(r.deep_view() =~~= finalize_items_t(
                f.statics.deep_view(),
                crate::rendered::dyn_seq_dv(f.dynamics@),
            ));
        }
        r
    } else {
        let dlen = f.dynamics.len();
        let mut statics = f.statics;
        let ghost statics0 = statics.deep_view();
        insert_empty_strings(&mut statics, dlen);
        let r = Dynamic::Nested(
            Rendered { statics, dynamics: Dynamics::Items(f.dynamics), templates: Vec::new() },
        );
        proof {
            let tgt = finalize_items_t(statics0, crate::rendered::dyn_seq_dv(f.dynamics@));
            assert(r.deep_view() is Nested && tgt is Nested);
            assert(r.deep_view()->Nested_0 =~~= tgt->Nested_0);
            assert(r.deep_view() =~~= tgt);
        }
        r
    }
}

/// Finalizing a conditional frame inside a loop subtree, against the shared
/// template table.
fn finalize_row_items_node(f: RowItemsNode, templates: &mut Vec<Vec<String>>) -> (r: ListDynamic)
    ensures
        (r.deep_view(), final(templates).deep_view()) == finalize_row_items_t(
            f.statics.deep_view(),
            crate::rendered::list_dyn_seq_dv(f.dynamics@),
            old(templates).deep_view(),
        ),
{
    proof {
        crate::rendered::lemma_list_dyn_seq_dv_len_index(f.dynamics@);
    }
    if f.statics.len() == 0 && f.dynamics.len() == 0 {
        let r = ListDynamic::Text(String::new());
        proof {
            assert(r.deep_view() =~~= finalize_row_items_t(
                f.statics.deep_view(),
                crate::rendered::list_dyn_seq_dv(f.dynamics@),
                old(templates).deep_view(),
            ).0);
        }
        r
    } else {
        let dlen = f.dynamics.len();
        let mut statics = f.statics;
        let ghost statics0 = statics.deep_view();
        insert_empty_strings(&mut statics, dlen);
        let id = find_or_insert_template(templates, statics);
        let mut one_row: Vec<Vec<ListDynamic>> = Vec::new();
        one_row.push(f.dynamics);
        let ghost one_row_snapshot = one_row@;
        let mut groups: Vec<Dynamics> = Vec::new();
        groups.push(Dynamics::List(one_row));
        let r = ListDynamic::Nested(RenderedListItem { statics: id, dynamics: groups });
        proof {
            crate::rendered::lemma_row_seq_dv_len_index(one_row_snapshot);
            crate::rendered::lemma_dynamics_seq_dv_len_index(groups@);
            assert(crate::rendered::row_seq_dv(one_row_snapshot) =~~= seq![
                crate::rendered::list_dyn_seq_dv(f.dynamics@),
            ]);
            assert(crate::rendered::dynamics_seq_dv(groups@) =~~= seq![
                DynamicsV::List(seq![crate::rendered::list_dyn_seq_dv(f.dynamics@)]),
            ]);
            assert(r.deep_view() =~~= finalize_row_items_t(
                statics0,
                crate::rendered::list_dyn_seq_dv(f.dynamics@),
                old(templates).deep_view(),
            ).0);
        }
        r
    }
}

/// Finalizing a loop frame whose parent is outside any loop; `table` is the
/// template table the loop accumulated while open.
fn finalize_top_list_node(f: ListNode, table: Vec<Vec<String>>) -> (r: Dynamic)
    ensures
        r.deep_view() == finalize_top_list_t(
            f.statics.deep_view(),
            crate::rendered::row_seq_dv(f.dynamics@),
            table.deep_view(),
        ),
{
    proof {
        crate::rendered::lemma_row_seq_dv_len_index(f.dynamics@);
        if f.dynamics@.len() > 0 {
            crate::rendered::lemma_list_dyn_seq_dv_len_index(f.dynamics@[0]@);
        }
    }
    let dlen: usize = if f.dynamics.len() > 0 {
        f.dynamics[0].len()
    } else {
        0
    };
    if f.statics.len() == 0 && dlen == 0 {
        let r = Dynamic::Text(String::new());
        proof {
            assert(r.deep_view() =~~= finalize_top_list_t(
                f.statics.deep_view(),
                crate::rendered::row_seq_dv(f.dynamics@),
                table.deep_view(),
            ));
        }
        r
    } else {
        let mut statics = f.statics;
        let ghost statics0 = statics.deep_view();
        insert_empty_strings(&mut statics, dlen);
        let r = Dynamic::Nested(
            Rendered { statics, dynamics: Dynamics::List(f.dynamics), templates: table },
        );
        proof {
            assert(r.deep_view() =~~= finalize_top_list_t(
                statics0,
                crate::rendered::row_seq_dv(f.dynamics@),
                table.deep_view(),
            ));
        }
        r
    }
}

/// Finalizing a loop frame nested inside an enclosing loop, against the
/// shared template table.
fn finalize_nested_list_node(f: ListNode, templates: &mut Vec<Vec<String>>) -> (r: ListDynamic)
    ensures
        (r.deep_view(), final(templates).deep_view()) == finalize_nested_list_t(
            f.statics.deep_view(),
            crate::rendered::row_seq_dv(f.dynamics@),
            old(templates).deep_view(),
        ),
{
    proof {
        crate::rendered::lemma_row_seq_dv_len_index(f.dynamics@);
    }
    let ghost statics_dv = f.statics.deep_view();
    let id = find_or_insert_template(templates, f.statics);
    let ghost ts1 = templates.deep_view();
    let longest = max_row_len(&f.dynamics);
    let mut last_t = templates.pop().unwrap();
    let ghost prefix = templates.deep_view();
    proof {
        assert(prefix =~= ts1.drop_last());
        assert(last_t.deep_view() == ts1.last());
    }
    insert_empty_strings(&mut last_t, longest);
    templates.push(last_t);
    proof {
        assert(templates.deep_view() =~~= ts1.update(
            ts1.len() - 1,
            pad_t(ts1.last(), max_row_len_t(crate::rendered::row_seq_dv(f.dynamics@))),
        ));
    }
    let ghost rows0 = f.dynamics@;
    let mut rows = f.dynamics;
    let mut groups: Vec<Dynamics> = Vec::new();
    let n = rows.len();
    let mut i: usize = 0;
    while i < n
        invariant
            n == rows0.len(),
            i <= n,
            rows@ =~= rows0.subrange(i as int, n as int),
            crate::rendered::dynamics_seq_dv(groups@) =~~= Seq::new(
                i as nat,
                |k: int| DynamicsV::List(seq![crate::rendered::row_seq_dv(rows0)[k]]),
            ),
        decreases n - i,
    {
        proof {
            crate::rendered::lemma_row_seq_dv_len_index(rows0);
            crate::rendered::lemma_row_seq_dv_len_index(rows@);
        }
        let row = rows.remove(0);
        proof {
            assert(row == rows0[i as int]);
            assert(rows@ =~= rows0.subrange(i + 1, n as int));
        }
        let mut one: Vec<Vec<ListDynamic>> = Vec::new();
        one.push(row);
        let ghost one_snapshot = one@;
        let ghost groups_pre = groups@;
        proof {
            crate::rendered::lemma_dynamics_seq_dv_push(groups@, Dynamics::List(one));
        }
        groups.push(Dynamics::List(one));
        proof {
            crate::rendered::lemma_row_seq_dv_len_index(rows0);
            assert(crate::rendered::row_seq_dv(one_snapshot) =~~= seq![
                crate::rendered::list_dyn_seq_dv(rows0[i as int]@),
            ]);
            assert(crate::rendered::dynamics_seq_dv(groups@) =~~= Seq::new(
                (i + 1) as nat,
                |k: int| DynamicsV::List(seq![crate::rendered::row_seq_dv(rows0)[k]]),
            ));
        }
        i = i + 1;
    }
    let r = ListDynamic::Nested(RenderedListItem { statics: id, dynamics: groups });
    proof {
        let tgt = finalize_nested_list_t(
            statics_dv,
            crate::rendered::row_seq_dv(rows0),
            old(templates).deep_view(),
        );
        assert(crate::rendered::dynamics_seq_dv(groups@) =~~= tgt.0->Nested_0.dynamics);
        assert(r.deep_view() =~~= tgt.0);
        assert(templates.deep_view() =~~= tgt.1);
    }
    r
}

/// Closing the innermost frame preserves well-formedness.
proof fn lemma_wf_close(b: BuilderV)
    requires
        builder_wf(b),
        b.stack.len() >= 2,
    ensures
        builder_wf(close_frame_t(b)),
{
    let n = b.stack.len() as int;
    let child = b.stack.last();
    let parent = b.stack[n - 2];
    let b2 = close_frame_t(b);
    assert(frame_wf(child));
    assert(frame_wf(parent));
    assert(b2.stack.len() == n - 1);
    assert(forall|j: int| 0 <= j < n - 2 ==> b2.stack[j] == b.stack[j]);
    // The replaced parent keeps its kind.
    assert(b2.stack[n - 2] is Items <==> parent is Items);
    assert(b2.stack[n - 2] is RowItems <==> parent is RowItems);
    assert(b2.stack[n - 2] is List <==> parent is List);
    assert forall|i: int| 0 <= i < n - 1 implies row_mode(b2.stack, i) == row_mode(b.stack, i) by {
        if row_mode(b2.stack, i) {
            let j = choose|j: int| 0 <= j < i && b2.stack[j] is List;
            assert(b.stack[j] is List);
        }
        if row_mode(b.stack, i) {
            let j = choose|j: int| 0 <= j < i && b.stack[j] is List;
            assert(b2.stack[j] is List);
        }
    }
    assert(frame_wf(b2.stack[n - 2]));
    // The template table stays empty while no loop frame is open.
    if forall|i: int| 0 <= i < b2.stack.len() ==> !((#[trigger] b2.stack[i]) is List) {
        if child is RowItems {
            assert(row_mode(b.stack, n - 1));
            let j = choose|j: int| 0 <= j < n - 1 && b.stack[j] is List;
            assert(b2.stack[j] is List);
            assert(false);
        } else if child is List && !(parent is Items) {
            if parent is List {
                assert(b2.stack[n - 2] is List);
                assert(false);
            } else {
                assert(row_mode(b.stack, n - 2));
                let j = choose|j: int| 0 <= j < n - 2 && b.stack[j] is List;
                assert(b2.stack[j] is List);
                assert(false);
            }
        } else if child is Items {
            assert forall|i: int| 0 <= i < b.stack.len() implies !((#[trigger] b.stack[i]) is List)
                by {
                if i < n - 1 {
                    assert(!(b2.stack[i] is List));
                }
            }
        }
    }
}


/// A row-mode parent frame receiving one finalized slot.
fn receive_row_slot(parent: &mut Node, v: ListDynamic)
    ensures
        node_dv(*final(parent)) == row_receive_t(node_dv(*old(parent)), v.deep_view()),
{
    let ghost p0 = node_dv(*parent);
    let mut value = NodeValue::Items(ItemsNode { statics: Vec::new(), dynamics: Vec::new() });
    std::mem::swap(&mut value, &mut parent.value);
    let new_value = match value {
        NodeValue::RowItems(mut pf) => {
            pf.statics.push(String::new());
            proof {
                crate::rendered::lemma_list_dyn_seq_dv_push(pf.dynamics@, v);
            }
            pf.dynamics.push(v);
            NodeValue::RowItems(pf)
        },
        NodeValue::List(mut pf) => {
            if pf.dynamics.len() == 0 {
                pf.statics.push(String::new());
                let mut row: Vec<ListDynamic> = Vec::new();
                proof {
                    crate::rendered::lemma_list_dyn_seq_dv_push(row@, v);
                }
                row.push(v);
                proof {
                    crate::rendered::lemma_row_seq_dv_push(pf.dynamics@, row);
                }
                pf.dynamics.push(row);
                proof {
                    crate::rendered::lemma_row_seq_dv_len_index(pf.dynamics@);
                }
                NodeValue::List(pf)
            } else {
                let ghost rows0 = pf.dynamics@;
                proof {
                    crate::rendered::lemma_row_seq_dv_len_index(pf.dynamics@);
                }
                let mut row = pf.dynamics.pop().unwrap();
                proof {
                    crate::rendered::lemma_list_dyn_seq_dv_push(row@, v);
                }
                row.push(v);
                proof {
                    assert(pf.dynamics@ =~= rows0.drop_last());
                    crate::rendered::lemma_row_seq_dv_push(pf.dynamics@, row);
                }
                pf.dynamics.push(row);
                proof {
                    let rs0 = crate::rendered::row_seq_dv(rows0);
                    assert(rs0.update(
                        rs0.len() - 1,
                        rs0.last().push(crate::rendered::list_dyn_dv(v)),
                    ) =~= crate::rendered::row_seq_dv(rows0.drop_last()).push(
                        crate::rendered::list_dyn_seq_dv(row@),
                    ));
                }
                NodeValue::List(pf)
            }
        },
        NodeValue::Items(pf) => NodeValue::Items(pf),
    };
    parent.value = new_value;
    proof {
        assert(node_dv(*parent) =~~= row_receive_t(p0, v.deep_view()));
    }
}

// ---------------------------------------------------------------------------
// The builder.
// ---------------------------------------------------------------------------

/// Accumulates builder events into a [`Rendered`] tree.
#[derive(Debug)]
pub struct RenderedBuilder {
    /// The open frames; the first is the root, the last is current.
    pub stack: Vec<Node>,
    /// The template table of the currently open loop subtree.
    pub templates: Vec<Vec<String>>,
}

impl DeepView for RenderedBuilder {
    type V = BuilderV;

    open spec fn deep_view(&self) -> BuilderV {
        BuilderV { stack: node_seq_dv(self.stack@), templates: self.templates.deep_view() }
    }
}

impl RenderedBuilder {
    /// Creates a builder holding one empty root frame.
    pub fn new() -> (r: RenderedBuilder)
        ensures
            builder_wf(r.deep_view()),
            r.deep_view().stack =~~= seq![
                NodeV::Items { statics: Seq::empty(), dynamics: Seq::empty() },
            ],
            r.deep_view().templates =~~= Seq::<Seq<Seq<char>>>::empty(),
    {
        let root = Node {
            value: NodeValue::Items(ItemsNode { statics: Vec::new(), dynamics: Vec::new() }),
        };
        let mut stack: Vec<Node> = Vec::new();
        stack.push(root);
        let r = RenderedBuilder { stack, templates: Vec::new() };
        proof {
            lemma_node_seq_dv_len_index(r.stack@);
            assert(r.deep_view().stack =~~= seq![
                NodeV::Items { statics: Seq::empty(), dynamics: Seq::empty() },
            ]);
            assert(r.templates.deep_view() =~~= Seq::<Seq<Seq<char>>>::empty());
        }
        r
    }

    /// Extends the last literal fragment of the current frame, or opens a
    /// new one if a dynamic slot followed it; inside a loop, literal text is
    /// recorded from the first row only.
    pub fn push_static(&mut self, s: &str)
        requires
            builder_wf(old(self).deep_view()),
        ensures
            builder_wf(final(self).deep_view()),
            final(self).deep_view() =~~= push_static_b(old(self).deep_view(), s@),
    {
        proof {
            lemma_node_seq_dv_len_index(self.stack@);
        }
        let ghost b0 = self.deep_view();
        let mut top = self.stack.pop().unwrap();
        let ghost top0 = node_dv(top);
        let new_value = match top.value {
            NodeValue::Items(mut f) => {
                proof {
                    crate::rendered::lemma_dyn_seq_dv_len_index(f.dynamics@);
                }
                push_or_extend_static(&mut f.statics, f.dynamics.len(), s);
                NodeValue::Items(f)
            },
            NodeValue::RowItems(mut f) => {
                proof {
                    crate::rendered::lemma_list_dyn_seq_dv_len_index(f.dynamics@);
                }
                push_or_extend_static(&mut f.statics, f.dynamics.len(), s);
                NodeValue::RowItems(f)
            },
            NodeValue::List(mut f) => {
                if f.iteration == 1 {
                    proof {
                        assert(frame_wf(b0.stack.last()));
                        crate::rendered::lemma_row_seq_dv_len_index(f.dynamics@);
                        crate::rendered::lemma_list_dyn_seq_dv_len_index(f.dynamics@[0]@);
                    }
                    let dlen: usize = if f.dynamics.len() > 0 {
                        f.dynamics[0].len()
                    } else {
                        0
                    };
                    push_or_extend_static(&mut f.statics, dlen, s);
                }
                NodeValue::List(f)
            },
        };
        let node = Node { value: new_value };
        proof {
            assert(node_dv(node) =~~= push_static_t(top0, s@));
            assert(self.stack@ =~= old(self).stack@.drop_last());
            lemma_node_seq_dv_push(self.stack@, node);
        }
        self.stack.push(node);
        proof {
            assert(self.deep_view().stack =~~= b0.stack.update(
                b0.stack.len() - 1,
                push_static_t(top0, s@),
            ));
            assert(top0 == b0.stack[b0.stack.len() - 1]);
            assert(frame_wf(top0));
            assert(frame_wf(push_static_t(top0, s@)));
            lemma_wf_update_last(b0, push_static_t(top0, s@));
            assert(builder_wf(self.deep_view()));
        }
    }

    /// Appends one computed-text slot to the current frame; outside a loop a
    /// leading empty literal fragment is kept so that fragments always start
    /// the interleaving.
    pub fn push_dynamic(&mut self, s: String)
        requires
            builder_wf(old(self).deep_view()),
            old(self).deep_view().stack.last() matches NodeV::List { dynamics, .. }
                ==> dynamics.len() > 0,
        ensures
            builder_wf(final(self).deep_view()),
            final(self).deep_view() =~~= push_dynamic_b(old(self).deep_view(), s@),
    {
        proof {
            lemma_node_seq_dv_len_index(self.stack@);
        }
        let ghost b0 = self.deep_view();
        let mut top = self.stack.pop().unwrap();
        let ghost top0 = node_dv(top);
        let new_value = match top.value {
            NodeValue::Items(mut f) => {
                if f.statics.len() == 0 {
                    f.statics.push(String::new());
                }
                proof {
                    crate::rendered::lemma_dyn_seq_dv_push(f.dynamics@, Dynamic::Text(s));
                }
                f.dynamics.push(Dynamic::Text(s));
                NodeValue::Items(f)
            },
            NodeValue::RowItems(mut f) => {
                if f.statics.len() == 0 {
                    f.statics.push(String::new());
                }
                proof {
                    crate::rendered::lemma_list_dyn_seq_dv_push(f.dynamics@, ListDynamic::Text(s));
                }
                f.dynamics.push(ListDynamic::Text(s));
                NodeValue::RowItems(f)
            },
            NodeValue::List(mut f) => {
                let ghost rows0 = f.dynamics@;
                proof {
                    crate::rendered::lemma_row_seq_dv_len_index(f.dynamics@);
                }
                let mut row = f.dynamics.pop().unwrap();
                proof {
                    crate::rendered::lemma_list_dyn_seq_dv_push(row@, ListDynamic::Text(s));
                }
                row.push(ListDynamic::Text(s));
                proof {
                    assert(f.dynamics@ =~= rows0.drop_last());
                    crate::rendered::lemma_row_seq_dv_push(f.dynamics@, row);
                }
                f.dynamics.push(row);
                proof {
                    let rs0 = crate::rendered::row_seq_dv(rows0);
                    assert(crate::rendered::row_seq_dv(f.dynamics@) == crate::rendered::row_seq_dv(
                        rows0.drop_last(),
                    ).push(crate::rendered::list_dyn_seq_dv(row@)));
                    assert(rs0.update(
                        rs0.len() - 1,
                        rs0.last().push(crate::rendered::ListDynamicV::Text(s@)),
                    ) =~= crate::rendered::row_seq_dv(rows0.drop_last()).push(
                        crate::rendered::list_dyn_seq_dv(row@),
                    ));
                }
                NodeValue::List(f)
            },
        };
        let node = Node { value: new_value };
        proof {
            assert(node_dv(node) =~~= push_dynamic_t(top0, s@));
            assert(self.stack@ =~= old(self).stack@.drop_last());
            lemma_node_seq_dv_push(self.stack@, node);
        }
        self.stack.push(node);
        proof {
            assert(self.deep_view().stack =~~= b0.stack.update(
                b0.stack.len() - 1,
                push_dynamic_t(top0, s@),
            ));
            assert(frame_wf(push_dynamic_t(top0, s@)));
            lemma_wf_update_last(b0, push_dynamic_t(top0, s@));
        }
    }

    /// Splices an already built tree in as one dynamic slot of the current
    /// frame, which must be an ordinary frame outside any loop.
    pub fn push_nested(&mut self, other: Rendered)
        requires
            builder_wf(old(self).deep_view()),
            old(self).deep_view().stack.last() is Items,
        ensures
            builder_wf(final(self).deep_view()),
            final(self).deep_view() =~~= push_nested_b(
                old(self).deep_view(),
                other.deep_view(),
            ),
    {
        proof {
            lemma_node_seq_dv_len_index(self.stack@);
        }
        let ghost b0 = self.deep_view();
        let mut top = self.stack.pop().unwrap();
        let ghost top0 = node_dv(top);
        let ghost rv = other.deep_view();
        let new_value = match top.value {
            NodeValue::Items(mut f) => {
                f.statics.push(String::new());
                proof {
                    crate::rendered::lemma_dyn_seq_dv_push(f.dynamics@, Dynamic::Nested(other));
                }
                f.dynamics.push(Dynamic::Nested(other));
                NodeValue::Items(f)
            },
            NodeValue::RowItems(f) => NodeValue::RowItems(f),
            NodeValue::List(f) => NodeValue::List(f),
        };
        let node = Node { value: new_value };
        proof {
            assert(node_dv(node) =~~= items_receive_t(top0, DynamicV::Nested(rv)));
            assert(self.stack@ =~= old(self).stack@.drop_last());
            lemma_node_seq_dv_push(self.stack@, node);
        }
        self.stack.push(node);
        proof {
            assert(self.deep_view().stack =~~= b0.stack.update(
                b0.stack.len() - 1,
                items_receive_t(top0, DynamicV::Nested(rv)),
            ));
            assert(frame_wf(items_receive_t(top0, DynamicV::Nested(rv))));
            lemma_wf_update_last(b0, items_receive_t(top0, DynamicV::Nested(rv)));
        }
    }

    /// Opens a conditional frame as the next dynamic slot of the current
    /// frame; further pushes go to the new frame until it is popped.
    pub fn push_if_frame(&mut self)
        requires
            builder_wf(old(self).deep_view()),
        ensures
            builder_wf(final(self).deep_view()),
            final(self).deep_view() =~~= push_if_frame_b(old(self).deep_view()),
    {
        proof {
            lemma_node_seq_dv_len_index(self.stack@);
        }
        let ghost b0 = self.deep_view();
        let n = self.stack.len();
        let in_items = match &self.stack[n - 1].value {
            NodeValue::Items(_) => true,
            _ => false,
        };
        let node = if in_items {
            Node { value: NodeValue::Items(ItemsNode { statics: Vec::new(), dynamics: Vec::new() }) }
        } else {
            Node {
                value: NodeValue::RowItems(
                    RowItemsNode { statics: Vec::new(), dynamics: Vec::new() },
                ),
            }
        };
        let ghost g = node_dv(node);
        proof {
            lemma_node_seq_dv_push(self.stack@, node);
        }
        self.stack.push(node);
        proof {
            assert(self.deep_view().stack =~~= b0.stack.push(g));
            assert(g =~~= (if b0.stack.last() is Items {
                NodeV::Items { statics: Seq::empty(), dynamics: Seq::empty() }
            } else {
                NodeV::RowItems { statics: Seq::empty(), dynamics: Seq::empty() }
            }));
            lemma_wf_push_frame(b0, g);
        }
    }

    /// Opens a loop frame as the next dynamic slot of the current frame;
    /// rows are then started with [`RenderedBuilder::push_for_item`].
    pub fn push_for_frame(&mut self)
        requires
            builder_wf(old(self).deep_view()),
        ensures
            builder_wf(final(self).deep_view()),
            final(self).deep_view() =~~= push_for_frame_b(old(self).deep_view()),
    {
        proof {
            lemma_node_seq_dv_len_index(self.stack@);
        }
        let ghost b0 = self.deep_view();
        let node = Node {
            value: NodeValue::List(
                ListNode { statics: Vec::new(), dynamics: Vec::new(), iteration: 0 },
            ),
        };
        let ghost g = node_dv(node);
        proof {
            lemma_node_seq_dv_push(self.stack@, node);
        }
        self.stack.push(node);
        proof {
            assert(self.deep_view().stack =~~= b0.stack.push(g));
            assert(g =~~= NodeV::List {
                statics: Seq::empty(),
                dynamics: Seq::empty(),
                iteration: 0,
            });
            lemma_wf_push_frame(b0, g);
        }
    }

    /// Starts a new row of the current loop frame.
    pub fn push_for_item(&mut self)
        requires
            builder_wf(old(self).deep_view()),
            old(self).deep_view().stack.last() is List,
        ensures
            builder_wf(final(self).deep_view()),
            final(self).deep_view() =~~= push_for_item_b(old(self).deep_view()),
    {
        proof {
            lemma_node_seq_dv_len_index(self.stack@);
        }
        let ghost b0 = self.deep_view();
        let mut top = self.stack.pop().unwrap();
        let ghost top0 = node_dv(top);
        let new_value = match top.value {
            NodeValue::List(mut f) => {
                let empty_row: Vec<ListDynamic> = Vec::new();
                proof {
                    assert(frame_wf(top0));
                    crate::rendered::lemma_row_seq_dv_push(f.dynamics@, empty_row);
                }
                f.dynamics.push(empty_row);
                let rows = f.dynamics.len();
                proof {
                    crate::rendered::lemma_row_seq_dv_len_index(f.dynamics@);
                    assert(f.iteration < rows);
                }
                f.iteration = f.iteration + 1;
                NodeValue::List(f)
            },
            NodeValue::Items(f) => NodeValue::Items(f),
            NodeValue::RowItems(f) => NodeValue::RowItems(f),
        };
        let node = Node { value: new_value };
        proof {
            assert(crate::rendered::list_dyn_seq_dv(Seq::empty()) =~= Seq::<ListDynamicV>::empty());
            assert(node_dv(node) =~~= push_for_item_t(top0));
            assert(self.stack@ =~= old(self).stack@.drop_last());
            lemma_node_seq_dv_push(self.stack@, node);
        }
        self.stack.push(node);
        proof {
            assert(self.deep_view().stack =~~= b0.stack.update(
                b0.stack.len() - 1,
                push_for_item_t(top0),
            ));
            assert(frame_wf(push_for_item_t(top0)));
            lemma_wf_update_last(b0, push_for_item_t(top0));
        }
    }


    /// Closes the innermost open frame, finalizing it into one dynamic slot
    /// of its parent.
    pub fn pop_frame(&mut self)
        requires
            builder_wf(old(self).deep_view()),
            old(self).deep_view().stack.len() >= 2,
        ensures
            builder_wf(final(self).deep_view()),
            final(self).deep_view() =~~= close_frame_t(old(self).deep_view()),
    {
        proof {
            lemma_node_seq_dv_len_index(self.stack@);
        }
        let ghost b0 = self.deep_view();
        let child = self.stack.pop().unwrap();
        let ghost child0 = node_dv(child);
        let mut parent = self.stack.pop().unwrap();
        let ghost parent0 = node_dv(parent);
        proof {
            assert(child0 == b0.stack[b0.stack.len() - 1]);
            assert(parent0 == b0.stack[b0.stack.len() - 2]);
        }
        let new_parent_value = match child.value {
            NodeValue::Items(f) => {
                let v = finalize_items_node(f);
                match parent.value {
                    NodeValue::Items(mut pf) => {
                        pf.statics.push(String::new());
                        proof {
                            crate::rendered::lemma_dyn_seq_dv_push(pf.dynamics@, v);
                        }
                        pf.dynamics.push(v);
                        NodeValue::Items(pf)
                    },
                    other => other,
                }
            },
            NodeValue::RowItems(f) => {
                let v = finalize_row_items_node(f, &mut self.templates);
                receive_row_slot(&mut parent, v);
                parent.value
            },
            NodeValue::List(f) => {
                let parent_is_items = match &parent.value {
                    NodeValue::Items(_) => true,
                    _ => false,
                };
                if parent_is_items {
                    let mut table: Vec<Vec<String>> = Vec::new();
                    std::mem::swap(&mut table, &mut self.templates);
                    let v = finalize_top_list_node(f, table);
                    match parent.value {
                        NodeValue::Items(mut pf) => {
                            pf.statics.push(String::new());
                            proof {
                                crate::rendered::lemma_dyn_seq_dv_push(pf.dynamics@, v);
                            }
                            pf.dynamics.push(v);
                            NodeValue::Items(pf)
                        },
                        other => other,
                    }
                } else {
                    let v = finalize_nested_list_node(f, &mut self.templates);
                    receive_row_slot(&mut parent, v);
                    parent.value
                }
            },
        };
        let node = Node { value: new_parent_value };
        proof {
            let b2 = close_frame_t(b0);
            assert(node_dv(node) =~~= b2.stack[b0.stack.len() - 2]);
            assert(self.stack@ =~= old(self).stack@.drop_last().drop_last());
            lemma_node_seq_dv_push(self.stack@, node);
        }
        self.stack.push(node);
        proof {
            let b2 = close_frame_t(b0);
            assert(b0.stack.drop_last().drop_last() == node_seq_dv(
                old(self).stack@.drop_last().drop_last(),
            )) by {
                lemma_node_seq_dv_len_index(old(self).stack@.drop_last().drop_last());
                assert(b0.stack.drop_last().drop_last() =~= node_seq_dv(
                    old(self).stack@.drop_last().drop_last(),
                ));
            }
            assert(self.deep_view().stack =~~= b2.stack);
            assert(self.deep_view().templates =~~= b2.templates);
            lemma_wf_close(b0);
            assert(builder_wf(self.deep_view()));
        }
    }

    /// Resolves every open frame bottom-up and returns the finished tree.
    pub fn build(self) -> (r: Rendered)
        requires
            builder_wf(self.deep_view()),
        ensures
            r.deep_view() =~~= build_t(self.deep_view()),
    {
        let ghost orig = self.deep_view();
        let mut b = self;
        while b.stack.len() > 1
            invariant
                builder_wf(b.deep_view()),
                build_t(b.deep_view()) == build_t(orig),
            decreases b.deep_view().stack.len(),
        {
            proof {
                lemma_node_seq_dv_len_index(b.stack@);
            }
            b.pop_frame();
        }
        proof {
            lemma_node_seq_dv_len_index(b.stack@);
        }
        let ghost bv = b.deep_view();
        let root = match b.stack.pop() {
            Some(root) => root,
            None => Node {
                value: NodeValue::Items(ItemsNode { statics: Vec::new(), dynamics: Vec::new() }),
            },
        };
        proof {
            assert(node_dv(root) == bv.stack[0]);
        }
        match root.value {
            NodeValue::Items(f) => {
                proof {
                    crate::rendered::lemma_dyn_seq_dv_len_index(f.dynamics@);
                }
                let dlen = f.dynamics.len();
                let mut statics = f.statics;
                let ghost statics0 = statics.deep_view();
                insert_empty_strings(&mut statics, dlen);
                let r = Rendered {
                    statics,
                    dynamics: Dynamics::Items(f.dynamics),
                    templates: Vec::new(),
                };
                proof {
                    assert(r.deep_view() =~~= root_build_t(bv.stack[0]));
                }
                r
            },
            NodeValue::RowItems(_) => {
                proof {
                    assert(false);
                }
                Rendered {
                    statics: Vec::new(),
                    dynamics: Dynamics::Items(Vec::new()),
                    templates: Vec::new(),
                }
            },
            NodeValue::List(_) => {
                proof {
                    assert(false);
                }
                Rendered {
                    statics: Vec::new(),
                    dynamics: Dynamics::Items(Vec::new()),
                    templates: Vec::new(),
                }
            },
        }
    }

    /// Ends the current row. Rows need no explicit closing, so this changes
    /// nothing; it exists so that a caller can mirror its template's shape.
    pub fn pop_for_item(&mut self)
        ensures
            *final(self) == *old(self),
    {
    }
}


/// A found key really is in the table at the reported position, and an
/// absent key is nowhere in it.
proof fn lemma_template_find_found(ts: Seq<Seq<Seq<char>>>, key: Seq<Seq<char>>, i: int)
    requires
        0 <= i <= ts.len(),
    ensures
        template_find_from(ts, key, i) matches Some(j) ==> i <= j < ts.len() && ts[j] == key,
        template_find_from(ts, key, i) is None ==> forall|k: int| i <= k < ts.len() ==> ts[k] != key,
    decreases ts.len() - i,
{
    if i < ts.len() {
        lemma_template_find_found(ts, key, i + 1);
    }
}

/// The template table never forgets an assigned id: deduplication only
/// appends, so every id it has handed out keeps denoting the same statics.
///
/// Two loop rows whose nested structure has structurally identical statics
/// are assigned the same template id, and two rows with different statics
/// are never assigned the same id, no matter what the table already holds.
pub proof fn lemma_template_dedup(ts: Seq<Seq<Seq<char>>>, a: Seq<Seq<char>>, b: Seq<Seq<char>>)
    ensures
        ({
            let (ts1, i) = dedup_t(ts, a);
            let (ts2, j) = dedup_t(ts1, b);
            &&& 0 <= i < ts1.len() && ts1[i] == a
            &&& 0 <= j < ts2.len() && ts2[j] == b
            &&& (a == b ==> i == j)
            &&& (a != b ==> i != j)
        }),
{
    let (ts1, i) = dedup_t(ts, a);
    let (ts2, j) = dedup_t(ts1, b);
    lemma_template_find_found(ts, a, 0);
    lemma_template_find_found(ts1, b, 0);
    if a == b {
        if template_find_t(ts, a) is None {
            lemma_template_find_first(ts1, b, ts.len() as int);
        }
    } else {
        assert(ts2[i] == a);
    }
}

impl Rendered {
    /// Creates a builder for a new tree.
    pub fn builder() -> (r: RenderedBuilder)
        ensures
            builder_wf(r.deep_view()),
            r.deep_view().stack =~~= seq![
                NodeV::Items { statics: Seq::empty(), dynamics: Seq::empty() },
            ],
            r.deep_view().templates =~~= Seq::<Seq<Seq<char>>>::empty(),
    {
        RenderedBuilder::new()
    }
}

impl Default for RenderedBuilder {
    /// The default builder holds one empty root frame.
    fn default() -> (r: RenderedBuilder)
        ensures
            builder_wf(r.deep_view()),
            r.deep_view().stack =~~= seq![
                NodeV::Items { statics: Seq::empty(), dynamics: Seq::empty() },
            ],
            r.deep_view().templates =~~= Seq::<Seq<Seq<char>>>::empty(),
    {
        RenderedBuilder::new()
    }
}


// ---------------------------------------------------------------------------
// Text preservation for frame-free builds.
// ---------------------------------------------------------------------------

/// A builder event outside any frame: a literal fragment or computed text.
pub enum FlatEvent {
    /// A literal fragment.
    Static(Seq<char>),
    /// Computed text.
    Dynamic(Seq<char>),
}

/// The text an event carries.
pub open spec fn flat_payload(e: FlatEvent) -> Seq<char> {
    match e {
        FlatEvent::Static(s) => s,
        FlatEvent::Dynamic(s) => s,
    }
}

/// The freshly created builder.
pub open spec fn initial_builder() -> BuilderV {
    BuilderV {
        stack: seq![NodeV::Items { statics: Seq::empty(), dynamics: Seq::empty() }],
        templates: Seq::empty(),
    }
}

/// One event applied to the builder.
pub open spec fn apply_flat(b: BuilderV, e: FlatEvent) -> BuilderV {
    match e {
        FlatEvent::Static(s) => push_static_b(b, s),
        FlatEvent::Dynamic(s) => push_dynamic_b(b, s),
    }
}

/// The builder after a whole event sequence.
pub open spec fn run_flat(events: Seq<FlatEvent>) -> BuilderV
    decreases events,
{
    if events.len() == 0 {
        initial_builder()
    } else {
        apply_flat(run_flat(events.drop_last()), events.last())
    }
}

/// Interpreting the events directly against the template: their texts in
/// order.
pub open spec fn interp_flat(events: Seq<FlatEvent>) -> Seq<char>
    decreases events,
{
    if events.len() == 0 {
        Seq::empty()
    } else {
        interp_flat(events.drop_last()) + flat_payload(events.last())
    }
}

/// Whether the root frame's fragments keep pace with its slots, as the
/// templating language guarantees by emitting a fragment between any two
/// computed values.
pub open spec fn statics_keep_pace(b: BuilderV) -> bool {
    b.stack[0] matches NodeV::Items { statics, dynamics } && statics.len() >= dynamics.len()
}

/// A valid frame-free event sequence: every literal fragment arrives while
/// the fragments keep pace with the slots.
pub open spec fn flat_events_ok(events: Seq<FlatEvent>) -> bool
    decreases events,
{
    if events.len() == 0 {
        true
    } else {
        flat_events_ok(events.drop_last()) && (events.last() is Static ==> statics_keep_pace(
            run_flat(events.drop_last()),
        ))
    }
}

/// The pairs of an interleaving read only fragments before the slot count,
/// so fragments beyond it do not matter.
proof fn lemma_flatten_pairs_agree(
    st1: Seq<Seq<char>>,
    st2: Seq<Seq<char>>,
    ds: Seq<DynamicV>,
)
    requires
        forall|i: int|
            0 <= i < ds.len() ==> crate::rendered::static_at(st1, i)
                == crate::rendered::static_at(st2, i),
    ensures
        crate::rendered::flatten_pairs(st1, ds) == crate::rendered::flatten_pairs(st2, ds),
    decreases ds.len(),
{
    if ds.len() > 0 {
        lemma_flatten_pairs_agree(st1, st2, ds.drop_last());
    }
}

/// The invariant of a frame-free run: one ordinary frame, no templates,
/// fragments at most one ahead of the slots, and the frame's flattened text
/// equal to the events' texts in order.
proof fn lemma_run_flat_inv(events: Seq<FlatEvent>)
    requires
        flat_events_ok(events),
    ensures
        ({
            let b = run_flat(events);
            &&& builder_wf(b)
            &&& b.stack.len() == 1
            &&& b.templates.len() == 0
            &&& b.stack[0] matches NodeV::Items { statics, dynamics } && {
                &&& statics.len() <= dynamics.len() + 1
                &&& (statics.len() == 0 ==> dynamics.len() == 0)
                &&& (events.len() > 0 ==> statics.len() > 0 || dynamics.len() > 0)
                &&& crate::encode::items_clean(dynamics)
                &&& crate::rendered::flatten_node(statics, dynamics) == interp_flat(events)
            }
        }),
    decreases events.len(),
{
    if events.len() == 0 {
        let b = initial_builder();
        assert(crate::rendered::flatten_node(Seq::empty(), Seq::empty())
            =~= Seq::<char>::empty());
        assert(crate::rendered::cat_texts(
            crate::rendered::statics_tail(Seq::empty(), 0),
        ) =~= Seq::<char>::empty());
    } else {
        lemma_run_flat_inv(events.drop_last());
        let b0 = run_flat(events.drop_last());
        let st = b0.stack[0]->Items_statics;
        let ds = b0.stack[0]->Items_dynamics;
        let b1 = run_flat(events);
        assert(b1 == apply_flat(b0, events.last()));
        match events.last() {
            FlatEvent::Static(s) => {
                // The fragments keep pace, so the fragment lands at or
                // after the last slot and only extends the trailing text.
                assert(statics_keep_pace(b0));
                let st1 = push_or_extend_t(st, ds.len() as int, s);
                assert(b1.stack =~= seq![NodeV::Items { statics: st1, dynamics: ds }]);
                lemma_flatten_pairs_agree(st1, st, ds);
                if st.len() > ds.len() {
                    // The last fragment is extended in place.
                    assert(crate::rendered::statics_tail(st1, ds.len() as int)
                        =~= crate::rendered::statics_tail(st, ds.len() as int).update(
                        st.len() - 1 - ds.len(),
                        st.last() + s,
                    ));
                    lemma_cat_update_last(
                        crate::rendered::statics_tail(st, ds.len() as int),
                        s,
                    );
                } else {
                    // A new trailing fragment opens.
                    assert(st.len() == ds.len());
                    assert(crate::rendered::statics_tail(st, ds.len() as int)
                        =~= Seq::<Seq<char>>::empty());
                    assert(crate::rendered::statics_tail(st1, ds.len() as int) =~= seq![s]);
                    assert(seq![s].drop_last() =~= Seq::<Seq<char>>::empty());
                    assert(crate::rendered::cat_texts(Seq::<Seq<char>>::empty())
                        =~= Seq::<char>::empty());
                    assert(crate::rendered::cat_texts(seq![s]) =~= s);
                }
                assert(crate::rendered::flatten_node(st1, ds) == interp_flat(events));
            },
            FlatEvent::Dynamic(s) => {
                let st1 = if st.len() == 0 {
                    st.push(Seq::<char>::empty())
                } else {
                    st
                };
                let ds1 = ds.push(DynamicV::Text(s));
                assert(b1.stack =~= seq![NodeV::Items { statics: st1, dynamics: ds1 }]);
                assert(ds1.drop_last() =~= ds);
                assert(ds1.last() == DynamicV::Text(s));
                assert(crate::encode::dyn_clean(DynamicV::Text(s)));
                assert(crate::encode::items_clean(ds1));
                lemma_flatten_pairs_agree(st1, st, ds);
                // The slot consumes the trailing fragment, if any, and adds
                // its text after it.
                if st.len() == 0 {
                    assert(ds.len() == 0);
                    assert(crate::rendered::flatten_pairs(st1, ds) =~= Seq::<char>::empty());
                    assert(crate::rendered::dyn_text(DynamicV::Text(s)) == s);
                    assert(crate::rendered::flatten_pairs(st1, ds1)
                        =~= crate::rendered::static_at(st1, 0) + s);
                    assert(crate::rendered::static_at(st1, 0) =~= Seq::<char>::empty());
                    assert(crate::rendered::statics_tail(st1, 1) =~= Seq::<Seq<char>>::empty());
                } else {
                    if st.len() == ds.len() + 1 {
                        assert(crate::rendered::statics_tail(st, ds.len() as int) =~= seq![
                            st[ds.len() as int],
                        ]);
                        assert(seq![st[ds.len() as int]].drop_last()
                            =~= Seq::<Seq<char>>::empty());
                        assert(crate::rendered::cat_texts(Seq::<Seq<char>>::empty())
                            =~= Seq::<char>::empty());
                        assert(crate::rendered::cat_texts(seq![st[ds.len() as int]])
                            =~= st[ds.len() as int]);
                    } else {
                        assert(crate::rendered::statics_tail(st, ds.len() as int)
                            =~= Seq::<Seq<char>>::empty());
                    }
                    assert(crate::rendered::statics_tail(st1, ds1.len() as int)
                        =~= Seq::<Seq<char>>::empty());
                }
                assert(crate::rendered::flatten_node(st1, ds1) == interp_flat(events));
            },
        }
    }
}

/// Extending the last text extends the concatenation.
proof fn lemma_cat_update_last(ss: Seq<Seq<char>>, s: Seq<char>)
    requires
        ss.len() > 0,
    ensures
        crate::rendered::cat_texts(ss.update(ss.len() - 1, ss.last() + s))
            == crate::rendered::cat_texts(ss) + s,
{
    let ss1 = ss.update(ss.len() - 1, ss.last() + s);
    assert(ss1.drop_last() =~= ss.drop_last());
    assert(ss1.last() == ss.last() + s);
    assert(crate::rendered::cat_texts(ss) + s =~= crate::rendered::cat_texts(ss.drop_last())
        + (ss.last() + s));
}

/// Padding with empty fragments leaves the flattened text alone.
proof fn lemma_flatten_pad(st: Seq<Seq<char>>, ds: Seq<DynamicV>)
    ensures
        crate::rendered::flatten_node(pad_t(st, ds.len() as int), ds)
            == crate::rendered::flatten_node(st, ds),
{
    let st1 = pad_t(st, ds.len() as int);
    assert forall|i: int|
        0 <= i < ds.len() implies crate::rendered::static_at(st1, i)
        == crate::rendered::static_at(st, i) by {
        if i >= st.len() && i < st1.len() {
            assert(st1[i] =~= Seq::<char>::empty());
        }
    }
    lemma_flatten_pairs_agree(st1, st, ds);
    lemma_cat_empties(
        crate::rendered::statics_tail(st1, ds.len() as int),
        crate::rendered::statics_tail(st, ds.len() as int),
    );
}

/// Trailing empty texts contribute nothing to a concatenation.
proof fn lemma_cat_empties(longer: Seq<Seq<char>>, shorter: Seq<Seq<char>>)
    requires
        shorter.len() <= longer.len(),
        forall|i: int| 0 <= i < shorter.len() ==> longer[i] == shorter[i],
        forall|i: int| shorter.len() <= i < longer.len() ==> longer[i] == Seq::<char>::empty(),
    ensures
        crate::rendered::cat_texts(longer) == crate::rendered::cat_texts(shorter),
    decreases longer.len(),
{
    if longer.len() > shorter.len() {
        lemma_cat_empties(longer.drop_last(), shorter);
        assert(crate::rendered::cat_texts(longer) =~= crate::rendered::cat_texts(
            longer.drop_last(),
        ) + longer.last());
    } else {
        assert(longer =~= shorter);
    }
}

/// Building after a frame-free event sequence yields a tree whose
/// flattened text is exactly the events' texts in order: encoding such a
/// build and interpreting the sequence directly read the same.
pub proof fn lemma_flat_build_text(events: Seq<FlatEvent>)
    requires
        flat_events_ok(events),
    ensures
        crate::rendered::flatten_rendered(build_t(run_flat(events))) == interp_flat(events),
{
    lemma_run_flat_inv(events);
    let b = run_flat(events);
    let st = b.stack[0]->Items_statics;
    let ds = b.stack[0]->Items_dynamics;
    assert(build_t(b) == root_build_t(b.stack[0]));
    lemma_flatten_pad(st, ds);
}


/// A build from at least one frame-free event renders something, and its
/// diff with itself is no patch at all.
pub proof fn lemma_flat_build_diff_self(events: Seq<FlatEvent>)
    requires
        flat_events_ok(events),
        events.len() > 0,
    ensures
        crate::encode::spec_rendered_diff(
            build_t(run_flat(events)),
            build_t(run_flat(events)),
        ) is None,
{
    lemma_run_flat_inv(events);
    let b = run_flat(events);
    let st = b.stack[0]->Items_statics;
    let ds = b.stack[0]->Items_dynamics;
    assert(build_t(b) == root_build_t(b.stack[0]));
    let t = root_build_t(b.stack[0]);
    assert(pad_t(st, ds.len() as int).len() > 0 || ds.len() > 0);
    assert(crate::encode::tree_clean(t));
    crate::encode::lemma_tree_diff_self(t);
}

} // verus!
