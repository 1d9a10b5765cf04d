use crate::order::{NodeKind, PriorityOrder, RankedNode};
use crate::serialization::color::ColorRole;
use crate::serialization::elements::{collect_elems, drop_gaps, index_after, items_below};
use crate::serialization::elements::{items_only, node_total, visible_elems, Elem};
use crate::serialization::highlight::painted;
use crate::serialization::scalar::{push_quoted, push_scalar, push_yaml_text, scalar_text};
use crate::serialization::scalar::{shown_split_text, split_text, yaml_text};
use crate::serialization::shape::{gap_marker, marks_gaps, push_gap_marker};
use crate::serialization::shape::{shows_gaps, Shape};
use crate::serialization::text::{decimal, decimal_len, decimal_width, json_escaped};
use crate::serialization::text::{push_decimal, push_repeated, repeated};
use crate::serialization::types::RenderConfig;
use crate::utils::graph::flags_view;
use vstd::prelude::*;

verus! {

/// The elements that container `id` shows in a template: its visible
/// elements, without the gaps where the template does not mark them.
pub open spec fn shown_elems(
    order: &PriorityOrder,
    incl: Seq<bool>,
    shape: Shape,
    cfg: &RenderConfig,
    id: int,
) -> Seq<Elem> {
    let elems = visible_elems(order, incl, id);
    if shows_gaps(shape, cfg.style) {
        elems
    } else {
        items_only(elems)
    }
}

/// Node `id` is a container that shows something, so that in YAML it takes
/// lines of its own.
pub open spec fn is_block(
    order: &PriorityOrder,
    incl: Seq<bool>,
    shape: Shape,
    cfg: &RenderConfig,
    id: int,
) -> bool {
    (order.nodes@[id] is Array || order.nodes@[id] is Object) && shown_elems(
        order,
        incl,
        shape,
        cfg,
        id,
    ).len() > 0
}

/// The key of node `id`, empty where it has none.
pub open spec fn key_text(order: &PriorityOrder, id: int) -> Seq<char> {
    match order.nodes@[id].spec_key() {
        Some(k) => k@,
        None => Seq::empty(),
    }
}

/// The gutter of a code line: its number, one more than its index `orig`,
/// right-aligned in a column one wider than the number of the last line of
/// `total`, then a colon and a space.
pub open spec fn gutter(orig: usize, total: usize) -> Seq<char> {
    let n = index_after(orig);
    let column = decimal_width(total as nat) + 1;
    let pad = if column > decimal_width(n as nat) {
        (column - decimal_width(n as nat)) as nat
    } else {
        0
    };
    repeated(" "@, pad) + decimal(n as nat) + ": "@
}

/// What breaks a line inside a document: the line break of the
/// configuration, and the margin that every line of the document starts
/// with.
pub open spec fn line_break(cfg: &RenderConfig, margin: Seq<char>) -> Seq<char> {
    cfg.newline@ + margin
}

/// Append a line break and the margin.
pub fn push_line_break(out: &mut String, cfg: &RenderConfig, margin: &str)
    ensures
        final(out)@ == old(out)@ + line_break(cfg, margin@),
{
    out.push_str(cfg.newline.as_str());
    out.push_str(margin);
    assert(out@ =~= old(out)@ + line_break(cfg, margin@));
}

/// What stands before the elements of a container on their lines.
pub open spec fn line_prefix(cfg: &RenderConfig, shape: Shape, depth: nat) -> Seq<char> {
    match shape {
        Shape::Json | Shape::Pseudo | Shape::Js => repeated(cfg.indent_unit@, depth + 1),
        Shape::Yaml => repeated(cfg.indent_unit@, depth),
        Shape::Text | Shape::Code => Seq::empty(),
    }
}

/// What stands before the value of child `child` of container `parent`:
/// indentation and key in the JSON-like templates, indentation and key or
/// dash in YAML, the gutter in code, nothing in text.
pub open spec fn item_head(
    order: &PriorityOrder,
    incl: Seq<bool>,
    cfg: &RenderConfig,
    margin: Seq<char>,
    shape: Shape,
    parent: int,
    depth: nat,
    child: int,
    orig: usize) -> Seq<char> {
    let keyed = order.nodes@[parent] is Object;
    let key = key_text(order, child);
    match shape {
        Shape::Json | Shape::Pseudo | Shape::Js => line_prefix(cfg, shape, depth) + if keyed {
            painted(cfg, ColorRole::Key, "\""@, json_escaped(key), "\""@) + ":"@ + cfg.space@
        } else {
            Seq::empty()
        },
        Shape::Yaml => line_prefix(cfg, shape, depth) + if keyed {
            yaml_text(cfg, ColorRole::Key, true, key) + ":"@
        } else {
            "-"@
        } + if is_block(order, incl, shape, cfg, child) {
            line_break(cfg, margin)
        } else {
            " "@
        },
        Shape::Text => Seq::empty(),
        Shape::Code => gutter(orig, node_total(order, parent)),
    }
}

/// What separates element `k` of a container from the one before it.
pub open spec fn separator(cfg: &RenderConfig, margin: Seq<char>, shape: Shape, k: int) -> Seq<char> {
    if k == 0 {
        Seq::empty()
    } else if shape.is_bracketed() {
        ","@ + line_break(cfg, margin)
    } else {
        line_break(cfg, margin)
    }
}

/// The brackets of a container.
pub open spec fn opening(node: RankedNode) -> Seq<char> {
    if node is Array {
        "["@
    } else {
        "{"@
    }
}

pub open spec fn closing(node: RankedNode) -> Seq<char> {
    if node is Array {
        "]"@
    } else {
        "}"@
    }
}

/// Node `id` at nesting depth `depth` in a template, under the selection
/// `incl`. A scalar is its text. A container lists its shown elements, one
/// per line: between brackets in the JSON-like templates, as a block in YAML,
/// as bare lines in text and code. A bracketed container of which nothing is
/// shown but one mark of omission stands on one line, the mark between its
/// brackets.
pub open spec fn render_node(
    order: &PriorityOrder,
    incl: Seq<bool>,
    cfg: &RenderConfig,
    margin: Seq<char>,
    shape: Shape,
    id: int,
    depth: nat) -> Seq<char>
    decreases order.total_nodes - id, 2nat, 0nat,
{
    if !(0 <= id < order.total_nodes) {
        Seq::empty()
    } else {
        match order.nodes@[id] {
            RankedNode::AtomicLeaf { kind, token, .. } => scalar_text(cfg, shape, kind, token@),
            RankedNode::SplittableLeaf { value, .. } => scalar_text(
                cfg,
                shape,
                NodeKind::String,
                split_text(order, incl, cfg.string_free_prefix_graphemes, id, value@),
            ),
            RankedNode::LeafPart { text, .. } => text@,
            node => {
                let elems = shown_elems(order, incl, shape, cfg, id);
                if shape.is_bracketed() {
                    if elems.len() == 0 {
                        opening(node) + closing(node)
                    } else if only_a_gap(elems) {
                        opening(node) + cfg.space@ + gap_marker(
                            shape,
                            cfg.style,
                            elems[0]->Gap_count,
                        ) + cfg.space@ + closing(node)
                    } else {
                        opening(node) + line_break(cfg, margin) + render_items(
                            order,
                            incl,
                            cfg,
                            margin,
                            shape,
                            id,
                            depth,
                            elems,
                            0) + line_break(cfg, margin) + repeated(cfg.indent_unit@, depth) + closing(node)
                    }
                } else if elems.len() == 0 {
                    if shape == Shape::Yaml {
                        opening(node) + closing(node)
                    } else {
                        Seq::empty()
                    }
                } else {
                    render_items(order, incl, cfg, margin, shape, id, depth, elems, 0)
                }
            },
        }
    }
}

/// Nothing of a container is shown but one mark of omission. A bracketed
/// container then stands on one line, the mark between its brackets.
pub open spec fn only_a_gap(elems: Seq<Elem>) -> bool {
    elems.len() == 1 && elems[0] is Gap
}

/// One element of container `id`: a gap as its marker on a line of its own,
/// a child after its head.
pub open spec fn elem_body(
    order: &PriorityOrder,
    incl: Seq<bool>,
    cfg: &RenderConfig,
    margin: Seq<char>,
    shape: Shape,
    id: int,
    depth: nat,
    elem: Elem) -> Seq<char>
    decreases order.total_nodes - id, 0nat, 0nat,
{
    match elem {
        Elem::Gap { count } => line_prefix(cfg, shape, depth) + gap_marker(shape, cfg.style, count),
        Elem::Item { child, orig } => if 0 <= id < child < order.total_nodes {
            item_head(order, incl, cfg, margin, shape, id, depth, child as int, orig) + render_node(
                order,
                incl,
                cfg,
                margin,
                shape,
                child as int,
                depth + 1)
        } else {
            Seq::empty()
        },
    }
}

/// The elements of container `id` from the `k`-th on, each after its
/// separator.
pub open spec fn render_items(
    order: &PriorityOrder,
    incl: Seq<bool>,
    cfg: &RenderConfig,
    margin: Seq<char>,
    shape: Shape,
    id: int,
    depth: nat,
    elems: Seq<Elem>,
    k: int) -> Seq<char>
    decreases order.total_nodes - id, 1nat, elems.len() - k,
{
    if k < 0 || k >= elems.len() {
        Seq::empty()
    } else {
        separator(cfg, margin, shape, k) + elem_body(order, incl, cfg, margin, shape, id, depth, elems[k])
            + render_items(order, incl, cfg, margin, shape, id, depth, elems, k + 1)
    }
}

/// Whether an element is a mark of omission.
pub fn is_gap(elem: &Elem) -> (gap: bool)
    ensures
        gap == (*elem is Gap),
{
    match elem {
        Elem::Gap { .. } => true,
        Elem::Item { .. } => false,
    }
}

/// List what container `id` shows in a template.
pub fn collect_shown(
    order: &PriorityOrder,
    flags: &Vec<u32>,
    render_id: u32,
    shape: Shape,
    cfg: &RenderConfig,
    id: usize,
) -> (elems: Vec<Elem>)
    requires
        order.wf(),
        flags@.len() == order.total_nodes,
        id < order.total_nodes,
    ensures
        elems@ == shown_elems(order, flags_view(flags@, render_id), shape, cfg, id as int),
        items_below(order, id as int, elems@),
{
    let all = collect_elems(order, flags, render_id, id);
    if marks_gaps(shape, cfg.style) {
        all
    } else {
        let items = drop_gaps(all);
        assert(items_below(order, id as int, items@)) by {
            assert forall|k: int| 0 <= k < items@.len() implies (#[trigger] items@[k] matches Elem::Item {
                child,
                ..
            } ==> id < child < order.total_nodes) by {
                let e = items@[k];
                assert(all@.contains(e));
                let i = choose|i: int| 0 <= i < all@.len() && all@[i] == e;
                assert(all@[i] == e);
            }
        }
        items
    }
}

pub fn node_is_block(
    order: &PriorityOrder,
    flags: &Vec<u32>,
    render_id: u32,
    shape: Shape,
    cfg: &RenderConfig,
    id: usize,
) -> (b: bool)
    requires
        order.wf(),
        flags@.len() == order.total_nodes,
        id < order.total_nodes,
    ensures
        b == is_block(order, flags_view(flags@, render_id), shape, cfg, id as int),
{
    match &order.nodes[id] {
        RankedNode::Array { .. } | RankedNode::Object { .. } => {
            let elems = collect_shown(order, flags, render_id, shape, cfg, id);
            elems.len() > 0
        },
        _ => false,
    }
}

pub fn push_gutter(out: &mut String, orig: usize, total: usize)
    ensures
        final(out)@ == old(out)@ + gutter(orig, total),
{
    let n: usize = if orig < usize::MAX {
        orig + 1
    } else {
        orig
    };
    let column = decimal_len(total as u64) + 1;
    let width = decimal_len(n as u64);
    let pad: usize = if column > width {
        column - width
    } else {
        0
    };
    push_repeated(out, " ", pad);
    push_decimal(out, n as u64);
    out.push_str(": ");
    assert(out@ =~= old(out)@ + gutter(orig, total));
}

pub fn push_line_prefix(out: &mut String, cfg: &RenderConfig, shape: Shape, depth: usize)
    requires
        depth < usize::MAX,
    ensures
        final(out)@ == old(out)@ + line_prefix(cfg, shape, depth as nat),
{
    match shape {
        Shape::Json | Shape::Pseudo | Shape::Js => {
            push_repeated(out, cfg.indent_unit.as_str(), depth + 1);
        },
        Shape::Yaml => {
            push_repeated(out, cfg.indent_unit.as_str(), depth);
        },
        Shape::Text | Shape::Code => {
            assert(out@ =~= old(out)@ + Seq::<char>::empty());
        },
    }
}

pub fn push_item_head(
    out: &mut String,
    order: &PriorityOrder,
    flags: &Vec<u32>,
    render_id: u32,
    cfg: &RenderConfig,
    margin: &str,
    shape: Shape,
    parent: usize,
    depth: usize,
    child: usize,
    orig: usize)
    requires
        order.wf(),
        flags@.len() == order.total_nodes,
        parent < order.total_nodes,
        child < order.total_nodes,
        depth < usize::MAX,
    ensures
        final(out)@ == old(out)@ + item_head(
            order,
            flags_view(flags@, render_id),
            cfg,
            margin@,
            shape,
            parent as int,
            depth as nat,
            child as int,
            orig),
{
    let ghost incl = flags_view(flags@, render_id);
    let ghost target = item_head(
        order,
        incl,
        cfg,
        margin@,
        shape,
        parent as int,
        depth as nat,
        child as int,
        orig);
    let keyed = match &order.nodes[parent] {
        RankedNode::Object { .. } => true,
        _ => false,
    };
    let empty_key = String::new();
    let key: &String = match order.nodes[child].key_in_object() {
        Some(k) => k,
        None => &empty_key,
    };
    assert(key@ =~= key_text(order, child as int));
    match shape {
        Shape::Json | Shape::Pseudo | Shape::Js => {
            push_line_prefix(out, cfg, shape, depth);
            if keyed {
                push_quoted(out, cfg, ColorRole::Key, key.as_str());
                out.push_str(":");
                out.push_str(cfg.space.as_str());
            }
            assert(out@ =~= old(out)@ + target);
        },
        Shape::Yaml => {
            push_line_prefix(out, cfg, shape, depth);
            if keyed {
                push_yaml_text(out, cfg, ColorRole::Key, true, key.as_str());
                out.push_str(":");
            } else {
                out.push_str("-");
            }
            if node_is_block(order, flags, render_id, shape, cfg, child) {
                push_line_break(out, cfg, margin);
            } else {
                out.push_str(" ");
            }
            assert(out@ =~= old(out)@ + target);
        },
        Shape::Text => {
            assert(out@ =~= old(out)@ + target);
        },
        Shape::Code => {
            let total = crate::serialization::elements::container_total(order, parent);
            push_gutter(out, orig, total);
        },
    }
}

pub fn push_separator(out: &mut String, cfg: &RenderConfig, margin: &str, shape: Shape, k: usize)
    ensures
        final(out)@ == old(out)@ + separator(cfg, margin@, shape, k as int),
{
    if k == 0 {
        assert(out@ =~= old(out)@ + Seq::<char>::empty());
    } else if shape.bracketed() {
        out.push_str(",");
        push_line_break(out, cfg, margin);
        assert(out@ =~= old(out)@ + (","@ + line_break(cfg, margin@)));
    } else {
        push_line_break(out, cfg, margin);
    }
}

/// Append one element of container `id`.
pub fn push_elem(
    out: &mut String,
    order: &PriorityOrder,
    flags: &Vec<u32>,
    render_id: u32,
    cfg: &RenderConfig,
    margin: &str,
    shape: Shape,
    id: usize,
    depth: usize,
    elem: Elem)
    requires
        order.wf(),
        flags@.len() == order.total_nodes,
        id < order.total_nodes,
        depth <= id,
        elem matches Elem::Item { child, .. } ==> id < child < order.total_nodes,
    ensures
        final(out)@ == old(out)@ + elem_body(
            order,
            flags_view(flags@, render_id),
            cfg,
            margin@,
            shape,
            id as int,
            depth as nat,
            elem),
    decreases order.total_nodes - id, 0nat,
{
    let ghost incl = flags_view(flags@, render_id);
    let ghost start = out@;
    match elem {
        Elem::Gap { count } => {
            push_line_prefix(out, cfg, shape, depth);
            push_gap_marker(out, shape, cfg.style, count);
            assert(out@ =~= start + (line_prefix(cfg, shape, depth as nat) + gap_marker(
                shape,
                cfg.style,
                count,
            )));
        },
        Elem::Item { child, orig } => {
            push_item_head(out, order, flags, render_id, cfg, margin, shape, id, depth, child, orig);
            push_node(out, order, flags, render_id, cfg, margin, shape, child, depth + 1);
            assert(out@ =~= start + (item_head(
                order,
                incl,
                cfg,
                margin@,
                shape,
                id as int,
                depth as nat,
                child as int,
                orig) + render_node(order, incl, cfg, margin@, shape, child as int, (depth + 1) as nat)));
        },
    }
}

/// Append the elements of container `id`, each after its separator.
pub fn push_items(
    out: &mut String,
    order: &PriorityOrder,
    flags: &Vec<u32>,
    render_id: u32,
    cfg: &RenderConfig,
    margin: &str,
    shape: Shape,
    id: usize,
    depth: usize,
    elems: &Vec<Elem>)
    requires
        order.wf(),
        flags@.len() == order.total_nodes,
        id < order.total_nodes,
        depth <= id,
        items_below(order, id as int, elems@),
    ensures
        final(out)@ == old(out)@ + render_items(
            order,
            flags_view(flags@, render_id),
            cfg,
            margin@,
            shape,
            id as int,
            depth as nat,
            elems@,
            0),
    decreases order.total_nodes - id, 1nat,
{
    let ghost incl = flags_view(flags@, render_id);
    let ghost base = out@;
    let ghost all = render_items(order, incl, cfg, margin@, shape, id as int, depth as nat, elems@, 0);
    let mut k: usize = 0;
    while k < elems.len()
        invariant
            order.wf(),
            flags@.len() == order.total_nodes,
            id < order.total_nodes,
            depth <= id,
            incl == flags_view(flags@, render_id),
            k <= elems@.len(),
            items_below(order, id as int, elems@),
            out@ + render_items(order, incl, cfg, margin@, shape, id as int, depth as nat, elems@, k as int)
                == base + all,
        decreases elems@.len() - k,
    {
        let ghost before = out@;
        let ghost rest = render_items(
            order,
            incl,
            cfg,
            margin@,
            shape,
            id as int,
            depth as nat,
            elems@,
            k as int);
        let ghost tail = render_items(order, incl, cfg, margin@, shape, id as int, depth as nat, elems@, k + 1);
        let elem = elems[k];
        push_separator(out, cfg, margin, shape, k);
        push_elem(out, order, flags, render_id, cfg, margin, shape, id, depth, elem);
        assert(out@ + tail =~= before + rest);
        k += 1;
    }
    assert(out@ =~= base + all);
}

/// Append node `id` at nesting depth `depth` in a template, under the
/// selection that `flags` marks for `render_id`.
pub fn push_node(
    out: &mut String,
    order: &PriorityOrder,
    flags: &Vec<u32>,
    render_id: u32,
    cfg: &RenderConfig,
    margin: &str,
    shape: Shape,
    id: usize,
    depth: usize)
    requires
        order.wf(),
        flags@.len() == order.total_nodes,
        id < order.total_nodes,
        depth <= id,
    ensures
        final(out)@ == old(out)@ + render_node(
            order,
            flags_view(flags@, render_id),
            cfg,
            margin@,
            shape,
            id as int,
            depth as nat),
    decreases order.total_nodes - id, 2nat,
{
    let ghost incl = flags_view(flags@, render_id);
    let ghost start = out@;
    let ghost target = render_node(order, incl, cfg, margin@, shape, id as int, depth as nat);
    match &order.nodes[id] {
        RankedNode::AtomicLeaf { kind, token, .. } => {
            push_scalar(out, cfg, shape, *kind, token.as_str());
        },
        RankedNode::SplittableLeaf { value, .. } => {
            let shown = shown_split_text(
                order,
                flags,
                render_id,
                cfg.string_free_prefix_graphemes,
                id,
                value,
            );
            push_scalar(out, cfg, shape, NodeKind::String, shown.as_str());
        },
        RankedNode::LeafPart { text, .. } => {
            out.push_str(text.as_str());
        },
        node => {
            let is_array = match node {
                RankedNode::Array { .. } => true,
                _ => false,
            };
            let open = if is_array {
                "["
            } else {
                "{"
            };
            let close = if is_array {
                "]"
            } else {
                "}"
            };
            assert(open@ == opening(*node) && close@ == closing(*node));
            let elems = collect_shown(order, flags, render_id, shape, cfg, id);
            let ghost all = render_items(order, incl, cfg, margin@, shape, id as int, depth as nat, elems@, 0);
            let bracketed = shape.bracketed();
            if elems.len() == 0 {
                let yaml = match shape {
                    Shape::Yaml => true,
                    _ => false,
                };
                if bracketed || yaml {
                    out.push_str(open);
                    out.push_str(close);
                    assert(out@ =~= start + (opening(*node) + closing(*node)));
                } else {
                    assert(out@ =~= start + Seq::<char>::empty());
                }
            } else if bracketed && elems.len() == 1 && is_gap(&elems[0]) {
                let count = match elems[0] {
                    Elem::Gap { count } => count,
                    Elem::Item { .. } => 0,
                };
                out.push_str(open);
                out.push_str(cfg.space.as_str());
                push_gap_marker(out, shape, cfg.style, count);
                out.push_str(cfg.space.as_str());
                out.push_str(close);
                assert(out@ =~= start + (opening(*node) + cfg.space@ + gap_marker(shape, cfg.style, count)
                    + cfg.space@ + closing(*node)));
            } else if bracketed {
                out.push_str(open);
                push_line_break(out, cfg, margin);
                push_items(out, order, flags, render_id, cfg, margin, shape, id, depth, &elems);
                push_line_break(out, cfg, margin);
                push_repeated(out, cfg.indent_unit.as_str(), depth);
                out.push_str(close);
                assert(out@ =~= start + (opening(*node) + line_break(cfg, margin@) + all + line_break(cfg, margin@)
                    + repeated(cfg.indent_unit@, depth as nat) + closing(*node)));
            } else {
                push_items(out, order, flags, render_id, cfg, margin, shape, id, depth, &elems);
            }
        },
    }
}

} // verus!
