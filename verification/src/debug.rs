use crate::grep::count_true;
use crate::order::{ObjectType, PriorityOrder, RankedNode};
use crate::pruner::budget::Budgets;
use crate::serialization::elements::{collect_elems, drop_gaps, items_below, items_only};
use crate::serialization::elements::{visible_elems, Elem};
use crate::serialization::text::{decimal, push_decimal};
use crate::utils::graph::flags_view;
use vstd::prelude::*;

verus! {

/// The name of the kind of a node in a trace.
pub open spec fn kind_name(node: RankedNode) -> Seq<char> {
    match node {
        RankedNode::Array { .. } => "array"@,
        RankedNode::Object { .. } => "object"@,
        RankedNode::SplittableLeaf { .. } => "string"@,
        RankedNode::AtomicLeaf { .. } => "leaf"@,
        RankedNode::LeafPart { .. } => "part"@,
    }
}

pub fn kind_label(node: &RankedNode) -> (name: &'static str)
    ensures
        name@ == kind_name(*node),
{
    match node {
        RankedNode::Array { .. } => "array",
        RankedNode::Object { .. } => "object",
        RankedNode::SplittableLeaf { .. } => "string",
        RankedNode::AtomicLeaf { .. } => "leaf",
        RankedNode::LeafPart { .. } => "part",
    }
}

/// The measures of a node in a trace: for a container, how many entries it
/// had before anything was left out.
pub open spec fn metrics_text(node: RankedNode) -> Seq<char> {
    match node {
        RankedNode::Array { total, .. } => "\"array_len\":"@ + decimal(total as nat),
        RankedNode::Object { total, .. } => "\"object_len\":"@ + decimal(total as nat),
        _ => Seq::empty(),
    }
}

fn push_metrics(out: &mut String, node: &RankedNode)
    ensures
        final(out)@ == old(out)@ + metrics_text(*node),
{
    match node {
        RankedNode::Array { total, .. } => {
            out.push_str("\"array_len\":");
            push_decimal(out, *total as u64);
            assert(out@ =~= old(out)@ + metrics_text(*node));
        },
        RankedNode::Object { total, .. } => {
            out.push_str("\"object_len\":");
            push_decimal(out, *total as u64);
            assert(out@ =~= old(out)@ + metrics_text(*node));
        },
        _ => {
            assert(out@ =~= old(out)@ + metrics_text(*node));
        },
    }
}

/// Whether node `id` is the root of a fileset.
pub open spec fn is_fileset_root(order: &PriorityOrder, id: int) -> bool {
    id == 0 && order.object_type@.len() > 0 && order.object_type@[0] == ObjectType::Fileset
}

/// A truth value as JSON writes it.
pub open spec fn truth_text(b: bool) -> Seq<char> {
    if b {
        "true"@
    } else {
        "false"@
    }
}

/// The selected children of node `id`, as elements.
pub open spec fn traced_items(order: &PriorityOrder, incl: Seq<bool>, id: int) -> Seq<Elem> {
    items_only(visible_elems(order, incl, id))
}

/// The number of children of node `id` that are not selected.
pub open spec fn omitted_count(order: &PriorityOrder, incl: Seq<bool>, id: int) -> nat {
    let all = order.children@[id]@.len();
    let shown = traced_items(order, incl, id).len();
    if all >= shown {
        (all - shown) as nat
    } else {
        0
    }
}

/// The record of node `id` in a trace: its identifier, its kind, whether it
/// is the root of a fileset, its measures, the records of its selected
/// children, and the number of children left out.
pub open spec fn trace_node(order: &PriorityOrder, incl: Seq<bool>, id: int) -> Seq<char>
    decreases order.total_nodes - id, 1nat, 0nat,
{
    if !(0 <= id < order.total_nodes) {
        Seq::empty()
    } else {
        "{\"id\":"@ + decimal(id as nat) + ",\"kind\":\""@ + kind_name(order.nodes@[id])
            + "\",\"fileset_root\":"@ + truth_text(is_fileset_root(order, id)) + ",\"metrics\":{"@
            + metrics_text(order.nodes@[id]) + "},\"children\":["@ + trace_items(
            order,
            incl,
            id,
            traced_items(order, incl, id),
            0,
        ) + "],\"omitted\":"@ + decimal(omitted_count(order, incl, id)) + "}"@
    }
}

/// The records of the selected children of node `id` from the `k`-th on,
/// with commas between them.
pub open spec fn trace_items(
    order: &PriorityOrder,
    incl: Seq<bool>,
    id: int,
    items: Seq<Elem>,
    k: int,
) -> Seq<char>
    decreases order.total_nodes - id, 0nat, items.len() - k,
{
    if k < 0 || k >= items.len() {
        Seq::empty()
    } else {
        let comma = if k == 0 {
            Seq::<char>::empty()
        } else {
            ","@
        };
        let record = match items[k] {
            Elem::Item { child, .. } => if 0 <= id < child < order.total_nodes {
                trace_node(order, incl, child as int)
            } else {
                Seq::empty()
            },
            Elem::Gap { .. } => Seq::empty(),
        };
        comma + record + trace_items(order, incl, id, items, k + 1)
    }
}

/// A cap in a trace: its number, or `null` where it is not set.
pub open spec fn trace_cap(cap: Option<usize>) -> Seq<char> {
    match cap {
        Some(c) => decimal(c as nat),
        None => "null"@,
    }
}

/// The trace of a selection: the `k` that was chosen, the number of nodes
/// and of those that are selected, the caps, and the record of the root
/// where it is selected.
pub open spec fn trace_document(
    order: &PriorityOrder,
    incl: Seq<bool>,
    budgets: Budgets,
    k: usize,
) -> Seq<char> {
    "{\"k\":"@ + decimal(k as nat) + ",\"total_nodes\":"@ + decimal(order.total_nodes as nat)
        + ",\"counts\":{\"included\":"@ + decimal(count_true(incl, incl.len() as int)) + "}"@
        + ",\"bytes\":"@ + trace_cap(budgets.byte_budget) + ",\"chars\":"@ + trace_cap(
        budgets.char_budget,
    ) + ",\"lines\":"@ + trace_cap(budgets.line_budget) + ",\"root\":"@ + (if order.total_nodes > 0
        && incl.len() > 0 && incl[0] {
        trace_node(order, incl, 0)
    } else {
        "null"@
    }) + "}"@
}

fn push_cap(out: &mut String, cap: Option<usize>)
    ensures
        final(out)@ == old(out)@ + trace_cap(cap),
{
    match cap {
        Some(c) => {
            push_decimal(out, c as u64);
        },
        None => {
            out.push_str("null");
        },
    }
}

fn push_trace_items(
    out: &mut String,
    order: &PriorityOrder,
    flags: &Vec<u32>,
    render_id: u32,
    id: usize,
    items: &Vec<Elem>,
)
    requires
        order.wf(),
        flags@.len() == order.total_nodes,
        id < order.total_nodes,
        items_below(order, id as int, items@),
    ensures
        final(out)@ == old(out)@ + trace_items(
            order,
            flags_view(flags@, render_id),
            id as int,
            items@,
            0,
        ),
    decreases order.total_nodes - id, 0nat,
{
    let ghost incl = flags_view(flags@, render_id);
    let ghost base = out@;
    let ghost all = trace_items(order, incl, id as int, items@, 0);
    let mut k: usize = 0;
    while k < items.len()
        invariant
            order.wf(),
            flags@.len() == order.total_nodes,
            id < order.total_nodes,
            incl == flags_view(flags@, render_id),
            k <= items@.len(),
            items_below(order, id as int, items@),
            out@ + trace_items(order, incl, id as int, items@, k as int) == base + all,
        decreases items@.len() - k,
    {
        let ghost before = out@;
        let ghost rest = trace_items(order, incl, id as int, items@, k as int);
        let ghost tail = trace_items(order, incl, id as int, items@, k + 1);
        if k > 0 {
            out.push_str(",");
        }
        match items[k] {
            Elem::Item { child, .. } => {
                push_trace_node(out, order, flags, render_id, child);
            },
            Elem::Gap { .. } => {},
        }
        assert(out@ + tail =~= before + rest);
        k += 1;
    }
    assert(out@ =~= base + all);
}

fn push_trace_node(
    out: &mut String,
    order: &PriorityOrder,
    flags: &Vec<u32>,
    render_id: u32,
    id: usize,
)
    requires
        order.wf(),
        flags@.len() == order.total_nodes,
        id < order.total_nodes,
    ensures
        final(out)@ == old(out)@ + trace_node(order, flags_view(flags@, render_id), id as int),
    decreases order.total_nodes - id, 1nat,
{
    let ghost incl = flags_view(flags@, render_id);
    let ghost start = out@;
    let all = collect_elems(order, flags, render_id, id);
    let items = drop_gaps(all);
    assert(items_below(order, id as int, items@)) by {
        assert forall|k: int| 0 <= k < items@.len() implies (#[trigger] items@[k] matches Elem::Item {
            child,
            ..
        } ==> id < child < order.total_nodes) by {
            let e = items@[k];
            assert(all@.contains(e));
            let i = choose|i: int| 0 <= i < all@.len() && all@[i] == e;
            assert(all@[i] == e);
        }
    }
    let children = order.children[id].len();
    let omitted = if children >= items.len() {
        children - items.len()
    } else {
        0
    };
    let fileset_root = id == 0 && match order.object_type[0] {
        ObjectType::Fileset => true,
        ObjectType::Object => false,
    };
    out.push_str("{\"id\":");
    push_decimal(out, id as u64);
    out.push_str(",\"kind\":\"");
    out.push_str(kind_label(&order.nodes[id]));
    out.push_str("\",\"fileset_root\":");
    out.push_str(if fileset_root {
        "true"
    } else {
        "false"
    });
    out.push_str(",\"metrics\":{");
    push_metrics(out, &order.nodes[id]);
    out.push_str("},\"children\":[");
    push_trace_items(out, order, flags, render_id, id, &items);
    out.push_str("],\"omitted\":");
    push_decimal(out, omitted as u64);
    out.push_str("}");
    assert(out@ =~= start + trace_node(order, incl, id as int));
}

/// The number of nodes that are marked for a render set.
pub fn count_marked(flags: &Vec<u32>, render_id: u32) -> (n: usize)
    ensures
        n == count_true(flags_view(flags@, render_id), flags@.len() as int),
{
    let ghost incl = flags_view(flags@, render_id);
    let mut n: usize = 0;
    let mut i: usize = 0;
    while i < flags.len()
        invariant
            i <= flags@.len(),
            incl == flags_view(flags@, render_id),
            incl.len() == flags@.len(),
            n == count_true(incl, i as int),
            n <= i,
        decreases flags@.len() - i,
    {
        if flags[i] == render_id {
            n += 1;
        }
        i += 1;
    }
    n
}

/// Write the trace of a selection: a JSON document that names the `k` that
/// was chosen, how many nodes are selected, the caps, and for every selected
/// node its kind, its measures, its selected children and the number of
/// children left out.
pub fn emit_render_debug(
    order: &PriorityOrder,
    inclusion_flags: &Vec<u32>,
    render_set_id: u32,
    budgets: Budgets,
    k: usize,
) -> (trace: String)
    requires
        order.wf(),
        inclusion_flags@.len() == order.total_nodes,
    ensures
        trace@ == trace_document(order, flags_view(inclusion_flags@, render_set_id), budgets, k),
{
    let ghost incl = flags_view(inclusion_flags@, render_set_id);
    let mut out = String::new();
    out.push_str("{\"k\":");
    push_decimal(&mut out, k as u64);
    out.push_str(",\"total_nodes\":");
    push_decimal(&mut out, order.total_nodes as u64);
    out.push_str(",\"counts\":{\"included\":");
    let included = count_marked(inclusion_flags, render_set_id);
    push_decimal(&mut out, included as u64);
    out.push_str("}");
    out.push_str(",\"bytes\":");
    push_cap(&mut out, budgets.byte_budget);
    out.push_str(",\"chars\":");
    push_cap(&mut out, budgets.char_budget);
    out.push_str(",\"lines\":");
    push_cap(&mut out, budgets.line_budget);
    out.push_str(",\"root\":");
    if order.total_nodes > 0 && inclusion_flags[0] == render_set_id {
        push_trace_node(&mut out, order, inclusion_flags, render_set_id, 0);
    } else {
        out.push_str("null");
    }
    out.push_str("}");
    assert(out@ =~= trace_document(order, incl, budgets, k));
    out
}

} // verus!
