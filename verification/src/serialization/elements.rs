use crate::order::{PriorityOrder, RankedNode};
use crate::utils::graph::flags_view;
use vstd::prelude::*;

verus! {

/// What a container shows in one place: a selected child, with its index in
/// the container before sampling, or a run of entries that were left out.
#[derive(Copy, Clone, Debug, PartialEq, Eq, Structural)]
pub enum Elem {
    Item { child: usize, orig: usize },
    Gap { count: usize },
}

/// Index of the `j`-th child `c` in its container before sampling.
pub open spec fn source_index(order: &PriorityOrder, c: int, j: int) -> usize {
    match order.index_in_parent_array@[c] {
        Some(i) => i,
        None => j as usize,
    }
}

/// Number of entries that container `id` had before sampling.
pub open spec fn node_total(order: &PriorityOrder, id: int) -> usize {
    match order.nodes@[id] {
        RankedNode::Array { total, .. } => total,
        RankedNode::Object { total, .. } => total,
        _ => order.children@[id]@.len() as usize,
    }
}

/// The index that follows `o`, as far as the machine can count.
pub open spec fn index_after(o: usize) -> usize {
    if o < usize::MAX {
        (o + 1) as usize
    } else {
        o
    }
}

/// The elements of container `id` from its `j`-th child on, when the entries
/// before index `expected` are accounted for: each selected child in
/// source order, a gap wherever indices are skipped, and a closing
/// gap for what the container held beyond its last selected child.
pub open spec fn elems_from(
    order: &PriorityOrder,
    incl: Seq<bool>,
    id: int,
    j: int,
    expected: usize,
) -> Seq<Elem>
    decreases order.children@[id]@.len() - j,
{
    let ch = order.children@[id]@;
    if j < 0 || j >= ch.len() {
        let t = node_total(order, id);
        if t > expected {
            seq![Elem::Gap { count: (t - expected) as usize }]
        } else {
            Seq::empty()
        }
    } else {
        let c = ch[j].0 as int;
        if 0 <= c < incl.len() && incl[c] {
            let o = source_index(order, c, j);
            let gap = if o > expected {
                seq![Elem::Gap { count: (o - expected) as usize }]
            } else {
                Seq::empty()
            };
            let next = if o >= expected {
                index_after(o)
            } else {
                expected
            };
            gap + seq![Elem::Item { child: c as usize, orig: o }] + elems_from(
                order,
                incl,
                id,
                j + 1,
                next,
            )
        } else {
            elems_from(order, incl, id, j + 1, expected)
        }
    }
}

/// The elements of container `id` under the selection `incl`.
pub open spec fn visible_elems(order: &PriorityOrder, incl: Seq<bool>, id: int) -> Seq<Elem> {
    elems_from(order, incl, id, 0, 0)
}

/// Every item names a child of the container, which has a larger index.
pub open spec fn items_below(order: &PriorityOrder, id: int, elems: Seq<Elem>) -> bool {
    forall|k: int|
        0 <= k < elems.len() ==> (#[trigger] elems[k] matches Elem::Item { child, .. } ==> id < child
            < order.total_nodes)
}

/// The elements without their gaps.
pub open spec fn items_only(elems: Seq<Elem>) -> Seq<Elem> {
    elems.filter(|e: Elem| e is Item)
}

pub fn container_total(order: &PriorityOrder, id: usize) -> (t: usize)
    requires
        order.wf(),
        id < order.total_nodes,
    ensures
        t == node_total(order, id as int),
{
    match &order.nodes[id] {
        RankedNode::Array { total, .. } => *total,
        RankedNode::Object { total, .. } => *total,
        _ => order.children[id].len(),
    }
}

/// List what container `id` shows under the selection that `flags` marks for
/// `render_id`.
pub fn collect_elems(order: &PriorityOrder, flags: &Vec<u32>, render_id: u32, id: usize) -> (elems:
    Vec<Elem>)
    requires
        order.wf(),
        flags@.len() == order.total_nodes,
        id < order.total_nodes,
    ensures
        elems@ == visible_elems(order, flags_view(flags@, render_id), id as int),
        items_below(order, id as int, elems@),
{
    let ghost incl = flags_view(flags@, render_id);
    let ghost target = visible_elems(order, incl, id as int);
    let children = &order.children[id];
    let mut elems: Vec<Elem> = Vec::new();
    let mut expected: usize = 0;
    let mut j: usize = 0;
    assert(elems@ + elems_from(order, incl, id as int, 0, 0) =~= target);
    while j < children.len()
        invariant
            order.wf(),
            flags@.len() == order.total_nodes,
            id < order.total_nodes,
            incl == flags_view(flags@, render_id),
            children@ == order.children@[id as int]@,
            j <= children@.len(),
            elems@ + elems_from(order, incl, id as int, j as int, expected) == target,
            items_below(order, id as int, elems@),
        decreases children@.len() - j,
    {
        let c = children[j].0;
        let ghost before = elems@;
        let ghost rest = elems_from(order, incl, id as int, j as int, expected);
        assert(order.parent@[c as int] == Some(crate::order::NodeId(id)));
        if flags[c] == render_id {
            let o = match order.index_in_parent_array[c] {
                Some(i) => i,
                None => j,
            };
            if o > expected {
                elems.push(Elem::Gap { count: o - expected });
            }
            elems.push(Elem::Item { child: c, orig: o });
            if o >= expected {
                expected = if o < usize::MAX {
                    o + 1
                } else {
                    o
                };
            }
            assert(elems@ + elems_from(order, incl, id as int, j + 1, expected) =~= before
                + rest);
        }
        j += 1;
    }
    let t = container_total(order, id);
    if t > expected {
        let ghost before = elems@;
        elems.push(Elem::Gap { count: t - expected });
        assert(elems@ =~= before + elems_from(order, incl, id as int, j as int, (expected)));
    } else {
        assert(elems@ =~= elems@ + elems_from(order, incl, id as int, j as int, (expected)));
    }
    elems
}

/// Drop the gaps from a list of elements.
pub fn drop_gaps(elems: Vec<Elem>) -> (items: Vec<Elem>)
    ensures
        items@ == items_only(elems@),
        forall|k: int| 0 <= k < items@.len() ==> elems@.contains(#[trigger] items@[k]),
{
    let mut items: Vec<Elem> = Vec::new();
    let mut k: usize = 0;
    proof {
        reveal(Seq::filter);
        assert(elems@.take(0) =~= Seq::<Elem>::empty());
    }
    while k < elems.len()
        invariant
            k <= elems@.len(),
            items@ == items_only(elems@.take(k as int)),
            forall|i: int| 0 <= i < items@.len() ==> elems@.contains(#[trigger] items@[i]),
        decreases elems@.len() - k,
    {
        let e = elems[k];
        proof {
            assert(elems@.take(k + 1) =~= elems@.take(k as int).push(e));
            elems@.take(k as int).lemma_filter_push(e, |e: Elem| e is Item);
        }
        match e {
            Elem::Item { .. } => {
                items.push(e);
                assert(elems@.contains(e));
            },
            Elem::Gap { .. } => {},
        }
        k += 1;
    }
    assert(elems@.take(elems@.len() as int) =~= elems@);
    items
}

} // verus!
