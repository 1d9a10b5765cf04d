use crate::grep::{compute_grep_state, count_true, pinned_first};
use crate::grep::{nudge_priority_toward_matches, nudged};
use crate::grep::{pinned_set, reorder_priority_with_must_keep, GrepConfig, GrepState};
use crate::order::{in_chain, parent_closed, NodeId, ObjectType, PriorityOrder, RankedNode};
use crate::order::ROOT_PQ_ID;
use crate::pruner::search::{midpoint, search_max};
use crate::serialization::types::RenderConfig;
use crate::serialization::{in_top_k, prepare_render_set_top_k_and_ancestors};
use crate::serialization::{render_document, render_from_render_set};
use crate::utils::graph::{flags_view, fresh_for, mark_node_and_ancestors};
use crate::utils::measure::{count_output_stats, stats_of, OutputStats};
use vstd::prelude::*;
use vstd::utf8::encode_utf8;

verus! {

/// Caps on the size of a preview. A missing cap does not bind; a cap of zero
/// leaves room for nothing.
#[derive(Copy, Clone, Debug, PartialEq, Eq, Structural)]
pub struct Budgets {
    pub byte_budget: Option<usize>,
    pub char_budget: Option<usize>,
    pub line_budget: Option<usize>,
}

impl Default for Budgets {
    fn default() -> (b: Self)
        ensures
            b == (Budgets { byte_budget: None, char_budget: None, line_budget: None }),
    {
        Budgets { byte_budget: None, char_budget: None, line_budget: None }
    }
}

/// A value is within an optional cap.
pub open spec fn within(value: usize, cap: Option<usize>) -> bool {
    match cap {
        Some(c) => value <= c,
        None => true,
    }
}

/// The statistics are within every cap that is set.
pub open spec fn fits(stats: OutputStats, budgets: Budgets) -> bool {
    &&& within(stats.bytes, budgets.byte_budget)
    &&& within(stats.chars, budgets.char_budget)
    &&& within(stats.lines, budgets.line_budget)
}

/// Whether the statistics are within every cap that is set.
pub fn stats_fit(stats: &OutputStats, budgets: Budgets) -> (ok: bool)
    ensures
        ok == fits(*stats, budgets),
{
    let fits_bytes = match budgets.byte_budget {
        Some(c) => stats.bytes <= c,
        None => true,
    };
    let fits_chars = match budgets.char_budget {
        Some(c) => stats.chars <= c,
        None => true,
    };
    let fits_lines = match budgets.line_budget {
        Some(c) => stats.lines <= c,
        None => true,
    };
    fits_bytes && fits_chars && fits_lines
}

/// A sum that stops at the largest `usize`.
pub open spec fn capped_sum(a: usize, b: usize) -> usize {
    if a + b > usize::MAX {
        usize::MAX
    } else {
        (a + b) as usize
    }
}

/// A cap raised by an amount, where it is set.
pub open spec fn raised(cap: Option<usize>, extra: usize) -> Option<usize> {
    match cap {
        Some(c) => Some(capped_sum(c, extra)),
        None => None,
    }
}

/// The budgets with each cap that is set raised by the matching statistic.
pub open spec fn budgets_plus(budgets: Budgets, extra: OutputStats) -> Budgets {
    Budgets {
        byte_budget: raised(budgets.byte_budget, extra.bytes),
        char_budget: raised(budgets.char_budget, extra.chars),
        line_budget: raised(budgets.line_budget, extra.lines),
    }
}

/// Raise each cap that is set by the matching statistic, saturating.
pub fn add_budgets(budgets: Budgets, extra: OutputStats) -> (sum: Budgets)
    ensures
        sum == budgets_plus(budgets, extra),
{
    Budgets {
        byte_budget: match budgets.byte_budget {
            Some(b) => Some(b.saturating_add(extra.bytes)),
            None => None,
        },
        char_budget: match budgets.char_budget {
            Some(c) => Some(c.saturating_add(extra.chars)),
            None => None,
        },
        line_budget: match budgets.line_budget {
            Some(l) => Some(l.saturating_add(extra.lines)),
            None => None,
        },
    }
}

/// A cap is set and the value has reached it.
pub open spec fn reached(value: usize, cap: Option<usize>) -> bool {
    cap matches Some(c) && value >= c
}

/// The names of the dimensions whose cap the statistics have reached, in the
/// order bytes, chars, lines.
pub open spec fn constrained_names(budgets: Budgets, stats: OutputStats) -> Seq<Seq<char>> {
    (if reached(stats.bytes, budgets.byte_budget) {
        seq!["bytes"@]
    } else {
        Seq::empty()
    }) + (if reached(stats.chars, budgets.char_budget) {
        seq!["chars"@]
    } else {
        Seq::empty()
    }) + (if reached(stats.lines, budgets.line_budget) {
        seq!["lines"@]
    } else {
        Seq::empty()
    })
}

/// The texts of a sequence of string slices.
pub open spec fn names_of(names: Seq<&'static str>) -> Seq<Seq<char>> {
    Seq::new(names.len(), |i: int| names[i]@)
}

/// Name the dimensions whose cap the statistics have reached.
pub fn constrained_dimensions(budgets: Budgets, stats: &OutputStats) -> (names: Vec<&'static str>)
    ensures
        names_of(names@) == constrained_names(budgets, *stats),
{
    let mut names: Vec<&'static str> = Vec::new();
    match budgets.byte_budget {
        Some(b) => {
            if stats.bytes >= b {
                names.push("bytes");
            }
        },
        None => {},
    }
    match budgets.char_budget {
        Some(c) => {
            if stats.chars >= c {
                names.push("chars");
            }
        },
        None => {},
    }
    match budgets.line_budget {
        Some(l) => {
            if stats.lines >= l {
                names.push("lines");
            }
        },
        None => {},
    }
    assert(names_of(names@) =~= constrained_names(budgets, *stats));
    names
}

/// The configuration under which a preview is measured: without color, and
/// without the section headers of a fileset unless they count toward the
/// budgets.
pub open spec fn measuring(order: &PriorityOrder, config: RenderConfig) -> RenderConfig {
    let root_is_fileset = order.object_type@.len() > 0 && order.object_type@[0]
        == ObjectType::Fileset;
    RenderConfig {
        color_enabled: false,
        show_fileset_headers: config.show_fileset_headers && !(root_is_fileset
            && !config.count_fileset_headers_in_budgets),
        ..config
    }
}

pub fn measure_config(order_build: &PriorityOrder, config: &RenderConfig) -> (measure_cfg:
    RenderConfig)
    ensures
        measure_cfg == measuring(order_build, *config),
{
    let root_is_fileset = if ROOT_PQ_ID < order_build.object_type.len() {
        match order_build.object_type[ROOT_PQ_ID] {
            ObjectType::Fileset => true,
            ObjectType::Object => false,
        }
    } else {
        false
    };
    let mut measure_cfg = config.clone();
    measure_cfg.color_enabled = false;
    if config.show_fileset_headers && root_is_fileset && !config.count_fileset_headers_in_budgets {
        measure_cfg.show_fileset_headers = false;
    }
    measure_cfg
}

/// `x` is a child of a pinned splittable string.
pub open spec fn is_part_of_kept(order: &PriorityOrder, must_keep: Seq<bool>, x: int) -> bool {
    order.parent@[x] matches Some(p) && p.0 < must_keep.len() && must_keep[p.0 as int]
        && order.nodes@[p.0 as int] is SplittableLeaf
}

/// `x` is pinned: it is a pinned node, an ancestor of one, or a part of a
/// pinned splittable string.
pub open spec fn in_keep_set(order: &PriorityOrder, must_keep: Seq<bool>, n: int, x: int) -> bool {
    ||| exists|i: int|
        0 <= i < n && i < must_keep.len() && must_keep[i] && #[trigger] in_chain(order.parent@, i, x)
    ||| (is_part_of_kept(order, must_keep, x) && crate::order::parent_index(order.parent@, x) < n)
}

/// Mark the children of node `id` that are not marked yet, and below each of
/// them in the same way.
pub fn include_string_descendants(
    order: &PriorityOrder,
    id: usize,
    flags: &mut Vec<u32>,
    render_id: u32,
)
    requires
        order.wf(),
        old(flags)@.len() == order.total_nodes,
        id < order.total_nodes,
        order.nodes@[id as int] is SplittableLeaf || order.nodes@[id as int].is_childless(),
    ensures
        final(flags)@.len() == old(flags)@.len(),
        forall|x: int|
            0 <= x < order.total_nodes ==> (#[trigger] final(flags)@[x] == render_id
                <==> old(flags)@[x] == render_id || order.parent@[x] == Some(NodeId(id))),
        forall|x: int|
            0 <= x < order.total_nodes && #[trigger] final(flags)@[x] != render_id
                ==> final(flags)@[x] == old(flags)@[x],
    decreases order.total_nodes - id,
{
    let ghost before = flags@;
    let children = &order.children[id];
    let mut j: usize = 0;
    while j < children.len()
        invariant
            order.wf(),
            id < order.total_nodes,
            order.nodes@[id as int] is SplittableLeaf || order.nodes@[id as int].is_childless(),
            children@ == order.children@[id as int]@,
            j <= children@.len(),
            before.len() == order.total_nodes,
            flags@.len() == before.len(),
            forall|x: int|
                0 <= x < order.total_nodes ==> (#[trigger] flags@[x] == render_id <==> before[x]
                    == render_id || exists|i: int| 0 <= i < j && children@[i] == NodeId(x as usize)),
            forall|x: int|
                0 <= x < order.total_nodes && #[trigger] flags@[x] != render_id ==> flags@[x]
                    == before[x],
        decreases children@.len() - j,
    {
        let child = children[j];
        let idx = child.0;
        assert(order.parent@[idx as int] == Some(NodeId(id)));
        assert(order.nodes@[idx as int].is_childless());
        assert(order.children@[idx as int]@.len() == 0);
        let ghost mid = flags@;
        if flags[idx] != render_id {
            flags[idx] = render_id;
            let ghost marked = flags@;
            include_string_descendants(order, idx, flags, render_id);
            proof {
                assert forall|x: int| 0 <= x < order.total_nodes implies flags@[x] == marked[x] by {
                    if order.parent@[x] == Some(NodeId(idx)) {
                        assert(order.children@[idx as int]@.contains(NodeId(x as usize)));
                    }
                }
            }
        }
        proof {
            assert forall|x: int| 0 <= x < order.total_nodes implies (#[trigger] flags@[x]
                == render_id <==> before[x] == render_id || exists|i: int|
                0 <= i < j + 1 && children@[i] == NodeId(x as usize)) by {
                if x == idx {
                    assert(children@[j as int] == NodeId(x as usize));
                } else if mid[x] == render_id && before[x] != render_id {
                    let i = choose|i: int| 0 <= i < j && children@[i] == NodeId(x as usize);
                    assert(children@[i] == NodeId(x as usize));
                }
            }
        }
        j += 1;
    }
    proof {
        assert forall|x: int| 0 <= x < order.total_nodes implies (#[trigger] flags@[x] == render_id
            <==> before[x] == render_id || order.parent@[x] == Some(NodeId(id))) by {
            if order.parent@[x] == Some(NodeId(id)) {
                assert(children@.contains(NodeId(x as usize)));
                let i = choose|i: int| 0 <= i < children@.len() && children@[i] == NodeId(x as usize);
                assert(children@[i] == NodeId(x as usize));
            }
            if flags@[x] == render_id && before[x] != render_id {
                let i = choose|i: int| 0 <= i < j && children@[i] == NodeId(x as usize);
                assert(children@[i].0 == x);
            }
        }
    }
}

/// Mark every pinned node with its ancestors, and the parts of every pinned
/// splittable string, for render set `render_set_id`.
pub fn include_must_keep(
    order_build: &PriorityOrder,
    inclusion_flags: &mut Vec<u32>,
    render_set_id: u32,
    must_keep: &Vec<bool>,
)
    requires
        order_build.wf(),
        old(inclusion_flags)@.len() == order_build.total_nodes,
        must_keep@.len() <= order_build.total_nodes,
        parent_closed(order_build.parent@, flags_view(old(inclusion_flags)@, render_set_id)),
    ensures
        final(inclusion_flags)@.len() == old(inclusion_flags)@.len(),
        forall|x: int|
            0 <= x < order_build.total_nodes ==> (#[trigger] final(inclusion_flags)@[x]
                == render_set_id <==> old(inclusion_flags)@[x] == render_set_id || in_keep_set(
                order_build,
                must_keep@,
                must_keep@.len() as int,
                x,
            )),
        forall|x: int|
            0 <= x < order_build.total_nodes && #[trigger] final(inclusion_flags)@[x]
                != render_set_id ==> final(inclusion_flags)@[x] == old(inclusion_flags)@[x],
        parent_closed(order_build.parent@, flags_view(final(inclusion_flags)@, render_set_id)),
{
    let ghost before = inclusion_flags@;
    let ghost parents = order_build.parent@;
    let ghost mk = must_keep@;
    let n = must_keep.len();
    let mut idx: usize = 0;
    while idx < n
        invariant
            order_build.wf(),
            parents == order_build.parent@,
            mk == must_keep@,
            n == mk.len(),
            n <= order_build.total_nodes,
            idx <= n,
            before.len() == order_build.total_nodes,
            inclusion_flags@.len() == before.len(),
            parent_closed(parents, flags_view(inclusion_flags@, render_set_id)),
            forall|x: int|
                0 <= x < order_build.total_nodes ==> (#[trigger] inclusion_flags@[x]
                    == render_set_id <==> before[x] == render_set_id || in_keep_set(
                    order_build,
                    mk,
                    idx as int,
                    x,
                )),
            forall|x: int|
                0 <= x < order_build.total_nodes && #[trigger] inclusion_flags@[x] != render_set_id
                    ==> inclusion_flags@[x] == before[x],
        decreases n - idx,
    {
        let ghost mid = inclusion_flags@;
        if must_keep[idx] {
            mark_node_and_ancestors(order_build, NodeId(idx), inclusion_flags, render_set_id);
            let ghost marked = inclusion_flags@;
            let is_split = match &order_build.nodes[idx] {
                RankedNode::SplittableLeaf { .. } => true,
                _ => false,
            };
            if is_split {
                include_string_descendants(order_build, idx, inclusion_flags, render_set_id);
                proof {
                    assert(in_chain(parents, idx as int, idx as int));
                    let after = flags_view(inclusion_flags@, render_set_id);
                    assert forall|i: int|
                        0 <= i < after.len() && i < parents.len() && #[trigger] after[i] implies (
                    parents[i] matches Some(p) ==> p.0 < after.len() && after[p.0 as int]) by {
                        if parents[i] is Some {
                            let p = parents[i]->0;
                            if marked[i] == render_set_id {
                                assert(flags_view(marked, render_set_id)[i]);
                                assert(flags_view(marked, render_set_id)[p.0 as int]);
                            } else {
                                assert(parents[i] == Some(NodeId(idx)));
                            }
                        }
                    }
                }
            }
        }
        proof {
            assert forall|x: int| 0 <= x < order_build.total_nodes implies (
            #[trigger] inclusion_flags@[x] == render_set_id <==> before[x] == render_set_id
                || in_keep_set(order_build, mk, idx + 1, x)) by {
                lemma_keep_set_step(order_build, mk, idx as int, x);
            }
        }
        idx += 1;
    }
}

/// Extending the pinned set by the node at index `n`: what is pinned below
/// `n + 1` is what was pinned below `n`, and, where node `n` is pinned, its
/// chain and, where it is a splittable string, its parts.
pub proof fn lemma_keep_set_step(order: &PriorityOrder, must_keep: Seq<bool>, n: int, x: int)
    requires
        0 <= n < must_keep.len(),
    ensures
        in_keep_set(order, must_keep, n + 1, x) <==> in_keep_set(order, must_keep, n, x) || (
        must_keep[n] && in_chain(order.parent@, n, x)) || (is_part_of_kept(order, must_keep, x)
            && crate::order::parent_index(order.parent@, x) == n),
{
    if in_keep_set(order, must_keep, n + 1, x) {
        if exists|i: int|
            0 <= i < n + 1 && i < must_keep.len() && must_keep[i] && #[trigger] in_chain(
                order.parent@,
                i,
                x,
            ) {
            let i = choose|i: int|
                0 <= i < n + 1 && i < must_keep.len() && must_keep[i] && #[trigger] in_chain(
                    order.parent@,
                    i,
                    x,
                );
            if i < n {
                assert(in_keep_set(order, must_keep, n, x));
            }
        }
    }
    if in_keep_set(order, must_keep, n, x) {
        if exists|i: int|
            0 <= i < n && i < must_keep.len() && must_keep[i] && #[trigger] in_chain(
                order.parent@,
                i,
                x,
            ) {
            let i = choose|i: int|
                0 <= i < n && i < must_keep.len() && must_keep[i] && #[trigger] in_chain(
                    order.parent@,
                    i,
                    x,
                );
            assert(in_chain(order.parent@, i, x));
        }
    }
    if must_keep[n] && in_chain(order.parent@, n, x) {
        assert(in_keep_set(order, must_keep, n + 1, x));
    }
}

/// Node `x` is selected at `k`: it is among the first `k` nodes of the
/// selection sequence or an ancestor of one, or it is pinned.
pub open spec fn selected(
    order: &PriorityOrder,
    k: int,
    must_keep: Option<Seq<bool>>,
    x: int,
) -> bool {
    in_top_k(order, k, x) || (must_keep matches Some(mk) && in_keep_set(
        order,
        mk,
        mk.len() as int,
        x,
    ))
}

/// The set of nodes selected at `k`.
pub open spec fn selection(order: &PriorityOrder, k: int, must_keep: Option<Seq<bool>>) -> Seq<bool> {
    Seq::new(order.total_nodes as nat, |x: int| selected(order, k, must_keep, x))
}

/// The view of an optional pin vector.
pub open spec fn pins_view(must_keep: Option<&Vec<bool>>) -> Option<Seq<bool>> {
    match must_keep {
        Some(mk) => Some(mk@),
        None => None,
    }
}

/// Mark the selection at `k` for the fresh render set `render_id`.
pub fn mark_selection(
    order: &PriorityOrder,
    k: usize,
    must_keep: Option<&Vec<bool>>,
    flags: &mut Vec<u32>,
    render_id: u32,
)
    requires
        order.wf(),
        old(flags)@.len() == order.total_nodes,
        fresh_for(old(flags)@, render_id),
        must_keep matches Some(mk) ==> mk@.len() <= order.total_nodes,
    ensures
        final(flags)@.len() == old(flags)@.len(),
        flags_view(final(flags)@, render_id) == selection(order, k as int, pins_view(must_keep)),
        parent_closed(order.parent@, flags_view(final(flags)@, render_id)),
        forall|x: int|
            0 <= x < order.total_nodes ==> #[trigger] final(flags)@[x] == old(flags)@[x] || final(flags)@[x] == render_id,
{
    assert(parent_closed(order.parent@, flags_view(flags@, render_id)));
    prepare_render_set_top_k_and_ancestors(order, k, flags, render_id);
    match must_keep {
        Some(mk) => {
            include_must_keep(order, flags, render_id, mk);
        },
        None => {},
    }
    assert(flags_view(flags@, render_id) =~= selection(order, k as int, pins_view(must_keep)));
}

/// The statistics of a text.
pub open spec fn text_stats(text: Seq<char>, measure_chars: bool) -> OutputStats {
    stats_of(encode_utf8(text), text.len(), measure_chars)
}

/// The preview at `k`, rendered under `cfg`, is within the budgets.
pub open spec fn fits_at(
    order: &PriorityOrder,
    cfg: &RenderConfig,
    budgets: Budgets,
    must_keep: Option<Seq<bool>>,
    k: int,
) -> bool {
    fits(
        text_stats(
            render_document(order, selection(order, k, must_keep), cfg),
            budgets.char_budget is Some,
        ),
        budgets,
    )
}

/// The probe of the selector, as a predicate on `k`.
pub open spec fn probe_fn(
    order: &PriorityOrder,
    cfg: &RenderConfig,
    budgets: Budgets,
    must_keep: Option<Seq<bool>>,
) -> spec_fn(int) -> bool {
    |k: int| fits_at(order, cfg, budgets, must_keep, k)
}

/// Render the selection at `k` under the measuring configuration and hold
/// it against the budgets.
pub fn probe(
    order: &PriorityOrder,
    measure_cfg: &RenderConfig,
    budgets: Budgets,
    k: usize,
    must_keep: Option<&Vec<bool>>,
    flags: &mut Vec<u32>,
    render_id: u32,
) -> (ok: bool)
    requires
        order.wf(),
        old(flags)@.len() == order.total_nodes,
        fresh_for(old(flags)@, render_id),
        must_keep matches Some(mk) ==> mk@.len() <= order.total_nodes,
    ensures
        ok == fits_at(order, measure_cfg, budgets, pins_view(must_keep), k as int),
        final(flags)@.len() == old(flags)@.len(),
        forall|x: int|
            0 <= x < order.total_nodes ==> #[trigger] final(flags)@[x] == old(flags)@[x] || final(flags)@[x] == render_id,
{
    mark_selection(order, k, must_keep, flags, render_id);
    let s = render_from_render_set(order, flags, render_id, measure_cfg);
    let stats = count_output_stats(s.as_str(), budgets.char_budget.is_some());
    stats_fit(&stats, budgets)
}

/// Start the render set after `id`. Where the counter is spent, the flags
/// are cleared and counting starts over.
pub fn next_generation(flags: &mut Vec<u32>, id: u32) -> (next: u32)
    requires
        id >= 1,
        forall|x: int| 0 <= x < old(flags)@.len() ==> #[trigger] old(flags)@[x] <= id,
    ensures
        next == if id < u32::MAX {
            (id + 1) as u32
        } else {
            1
        },
        final(flags)@.len() == old(flags)@.len(),
        forall|x: int|
            0 <= x < final(flags)@.len() ==> #[trigger] final(flags)@[x] == if id < u32::MAX {
                old(flags)@[x]
            } else {
                0
            },
        forall|x: int| 0 <= x < final(flags)@.len() ==> #[trigger] final(flags)@[x] < next,
{
    if id < u32::MAX {
        id + 1
    } else {
        let mut x: usize = 0;
        while x < flags.len()
            invariant
                x <= flags@.len(),
                flags@.len() == old(flags)@.len(),
                forall|y: int| 0 <= y < x ==> #[trigger] flags@[y] == 0,
            decreases flags@.len() - x,
        {
            flags[x] = 0;
            x += 1;
        }
        1
    }
}

/// The smallest `k` that the selector tries: the number of pinned nodes, and
/// at least one.
pub open spec fn search_floor(min_k: usize) -> usize {
    if min_k > 1 {
        min_k
    } else {
        1
    }
}

/// The largest `k` that the selector tries: the number of nodes, and under a
/// byte cap no more than the cap, though at least one.
pub open spec fn search_ceiling(total: usize, budgets: Budgets) -> usize {
    match budgets.byte_budget {
        Some(c) => {
            let c1 = if c > 1 {
                c
            } else {
                1
            };
            if total < c1 {
                total
            } else {
                c1
            }
        },
        None => total,
    }
}

/// The `k` that a search found, as a mathematical integer.
pub open spec fn found_k(best: Option<usize>) -> Option<int> {
    match best {
        Some(k) => Some(k as int),
        None => None,
    }
}

/// Bisect for the largest `k` whose preview, rendered under the measuring
/// configuration, is within the budgets. Returns that `k`, if any probe fit,
/// the flag buffer, and a render set that no flag carries yet.
pub fn select_best_k(
    order_build: &PriorityOrder,
    measure_cfg: &RenderConfig,
    budgets: Budgets,
    min_k: usize,
    must_keep: Option<&Vec<bool>>,
) -> (found: (Option<usize>, Vec<u32>, u32))
    requires
        order_build.wf(),
        must_keep matches Some(mk) ==> mk@.len() <= order_build.total_nodes,
    ensures
        found_k(found.0) == search_max(
            search_floor(min_k) as int,
            search_ceiling(order_build.total_nodes, budgets) as int,
            probe_fn(order_build, measure_cfg, budgets, pins_view(must_keep)),
            None,
        ),
        found.1@.len() == order_build.total_nodes,
        found.2 >= 1,
        fresh_for(found.1@, found.2),
{
    let total = order_build.total_nodes;
    let lo: usize = if min_k > 1 {
        min_k
    } else {
        1
    };
    let hi: usize = match budgets.byte_budget {
        Some(c) => {
            let c1: usize = if c > 1 {
                c
            } else {
                1
            };
            if total < c1 {
                total
            } else {
                c1
            }
        },
        None => total,
    };
    let mut inclusion_flags: Vec<u32> = vec![0; total];
    let mut render_set_id: u32 = 1;
    let mut best_k: Option<usize> = None;
    let ghost f = probe_fn(order_build, measure_cfg, budgets, pins_view(must_keep));
    let ghost target = search_max(lo as int, hi as int, f, None);
    let mut l: usize = lo;
    let mut h: usize = hi;
    while l <= h
        invariant
            order_build.wf(),
            must_keep matches Some(mk) ==> mk@.len() <= order_build.total_nodes,
            f == probe_fn(order_build, measure_cfg, budgets, pins_view(must_keep)),
            1 <= l,
            h <= order_build.total_nodes,
            inclusion_flags@.len() == order_build.total_nodes,
            render_set_id >= 1,
            forall|x: int|
                0 <= x < inclusion_flags@.len() ==> #[trigger] inclusion_flags@[x] < render_set_id,
            search_max(l as int, h as int, f, found_k(best_k)) == target,
        decreases h + 1 - l,
    {
        let mid = l + (h - l) / 2;
        assert(mid == midpoint(l as int, h as int));
        let ok = probe(
            order_build,
            measure_cfg,
            budgets,
            mid,
            must_keep,
            &mut inclusion_flags,
            render_set_id,
        );
        assert(ok == f(mid as int));
        render_set_id = next_generation(&mut inclusion_flags, render_set_id);
        if ok {
            best_k = Some(mid);
            if mid < h {
                l = mid + 1;
            } else {
                assert(search_max(mid + 1, h as int, f, Some(mid as int)) == Some(mid as int));
                assert(search_max(mid as int, mid - 1, f, Some(mid as int)) == Some(mid as int));
                l = mid;
                h = mid - 1;
            }
        } else {
            h = mid - 1;
        }
    }
    (best_k, inclusion_flags, render_set_id)
}

/// The pins of a search state take effect: something is pinned and the
/// search is not a weak one.
pub open spec fn strong_pins(grep: &GrepConfig, state: Option<GrepState>) -> Option<Seq<bool>> {
    match state {
        Some(st) => if st.must_keep_count > 0 && !grep.weak {
            Some(st.must_keep@)
        } else {
            None
        },
        None => None,
    }
}

pub fn is_strong_grep(grep: &GrepConfig, state: &Option<GrepState>) -> (strong: bool)
    ensures
        strong == strong_pins(grep, *state) is Some,
{
    match state {
        Some(st) => st.is_enabled() && !grep.weak,
        None => false,
    }
}

/// Two orders are one tree: they differ at most in the selection sequence.
pub open spec fn same_tree(a: &PriorityOrder, b: &PriorityOrder) -> bool {
    &&& a.nodes == b.nodes
    &&& a.parent == b.parent
    &&& a.children == b.children
    &&& a.total_nodes == b.total_nodes
    &&& a.object_type == b.object_type
    &&& a.index_in_parent_array == b.index_in_parent_array
    &&& a.file_kind == b.file_kind
}

/// Under a strong search, move the pinned nodes to the front of the
/// selection sequence.
pub fn reorder_if_strong_grep(
    order_build: &mut PriorityOrder,
    state: &Option<GrepState>,
    grep: &GrepConfig,
)
    requires
        old(order_build).wf(),
    ensures
        final(order_build).wf(),
        same_tree(old(order_build), final(order_build)),
        final(order_build).by_priority@ == match strong_pins(grep, *state) {
            Some(mk) => pinned_first(old(order_build).by_priority@, mk),
            None => old(order_build).by_priority@,
        },
{
    if is_strong_grep(grep, state) {
        match state {
            Some(s) => {
                reorder_priority_with_must_keep(order_build, &s.must_keep);
            },
            None => {},
        }
    }
}

/// What a search does to the selection sequence during selection: a strong
/// one moves what it pins to the front; a weak one, and one without a
/// match, leave the sequence as it is.
pub open spec fn reordered(
    before: Seq<NodeId>,
    after: Seq<NodeId>,
    grep: &GrepConfig,
    state: Option<GrepState>,
) -> bool {
    match state {
        Some(st) => if st.must_keep_count == 0 || grep.weak {
            after == before
        } else {
            after == pinned_first(before, st.must_keep@)
        },
        None => after == before,
    }
}

/// Under a strong search, move the pinned nodes to the front of the
/// selection sequence. A weak search moves nothing.
pub fn reorder_for_grep(order_build: &mut PriorityOrder, state: &Option<GrepState>, grep: &GrepConfig)
    requires
        old(order_build).wf(),
    ensures
        final(order_build).wf(),
        same_tree(old(order_build), final(order_build)),
        reordered(old(order_build).by_priority@, final(order_build).by_priority@, grep, *state),
{
    if !grep.weak {
        reorder_if_strong_grep(order_build, state, grep);
    }
}

/// The bonus of a weak search. Where the order of a tree is made for a weak
/// search in which something matches, what the search pins stands a few
/// places nearer to the front than its rank alone puts it; for any other
/// search the sequence is that of the ranks.
pub open spec fn weakly_ranked(
    before: Seq<NodeId>,
    after: Seq<NodeId>,
    order: &PriorityOrder,
    grep: &GrepConfig,
) -> bool {
    match grep.regex {
        Some(re) => if grep.weak && count_true(pinned_set(order, re), order.total_nodes as int) > 0 {
            nudged(before, after, pinned_set(order, re))
        } else {
            after == before
        },
        None => after == before,
    }
}

/// Give the nodes that a weak search pins their bonus: this is done once,
/// where the order is made, and before any selection. The tree stays as it
/// is; a strong search and no search change nothing.
pub fn rank_for_weak_grep(order_build: &mut PriorityOrder, grep: &GrepConfig)
    requires
        old(order_build).wf(),
    ensures
        final(order_build).wf(),
        same_tree(old(order_build), final(order_build)),
        weakly_ranked(
            old(order_build).by_priority@,
            final(order_build).by_priority@,
            old(order_build),
            grep,
        ),
{
    if grep.weak {
        let state = compute_grep_state(order_build, grep);
        match state {
            Some(s) => {
                proof {
                    crate::grep::lemma_count_true_bounds(s.must_keep@, s.must_keep@.len() as int);
                }
                nudge_priority_toward_matches(order_build, &s.must_keep);
            },
            None => {},
        }
    }
}

/// The statistics of the preview that shows the pinned nodes alone.
pub fn measure_must_keep(
    order_build: &PriorityOrder,
    measure_cfg: &RenderConfig,
    must_keep: &Vec<bool>,
    measure_chars: bool,
) -> (stats: OutputStats)
    requires
        order_build.wf(),
        must_keep@.len() <= order_build.total_nodes,
    ensures
        stats == text_stats(
            render_document(order_build, selection(order_build, 0, Some(must_keep@)), measure_cfg),
            measure_chars,
        ),
{
    let mut inclusion_flags: Vec<u32> = vec![0; order_build.total_nodes];
    let render_set_id: u32 = 1;
    assert(parent_closed(order_build.parent@, flags_view(inclusion_flags@, render_set_id)));
    include_must_keep(order_build, &mut inclusion_flags, render_set_id, must_keep);
    assert(flags_view(inclusion_flags@, render_set_id) =~= selection(
        order_build,
        0,
        Some(must_keep@),
    ));
    let rendered = render_from_render_set(order_build, &inclusion_flags, render_set_id, measure_cfg);
    count_output_stats(rendered.as_str(), measure_chars)
}

/// The budgets that selection works with: under pins, each cap raised by
/// what the pinned nodes alone cost; else the budgets as given.
pub open spec fn effective_budgets(
    order: &PriorityOrder,
    measure_cfg: &RenderConfig,
    budgets: Budgets,
    pins: Option<Seq<bool>>,
) -> Budgets {
    match pins {
        Some(mk) => budgets_plus(
            budgets,
            text_stats(
                render_document(order, selection(order, 0, Some(mk)), measure_cfg),
                budgets.char_budget is Some,
            ),
        ),
        None => budgets,
    }
}

pub fn effective_budgets_with_grep(
    order_build: &PriorityOrder,
    measure_cfg: &RenderConfig,
    grep: &GrepConfig,
    budgets: Budgets,
    state: &Option<GrepState>,
) -> (effective: Budgets)
    requires
        order_build.wf(),
        state matches Some(st) ==> st.must_keep@.len() <= order_build.total_nodes,
    ensures
        effective == effective_budgets(order_build, measure_cfg, budgets, strong_pins(grep, *state)),
        grep.weak ==> effective == budgets,
{
    if !is_strong_grep(grep, state) {
        return budgets;
    }
    match state {
        Some(s) => {
            let cost = measure_must_keep(
                order_build,
                measure_cfg,
                &s.must_keep,
                budgets.char_budget.is_some(),
            );
            add_budgets(budgets, cost)
        },
        None => budgets,
    }
}

/// The number of nodes that take effect as pinned.
pub open spec fn pin_count(grep: &GrepConfig, state: Option<GrepState>) -> usize {
    match state {
        Some(st) => if st.must_keep_count > 0 && !grep.weak {
            st.must_keep_count
        } else {
            0
        },
        None => 0,
    }
}

pub fn min_k_for(state: &Option<GrepState>, grep: &GrepConfig) -> (min_k: usize)
    ensures
        min_k == search_floor(pin_count(grep, *state)),
{
    if is_strong_grep(grep, state) {
        match state {
            Some(s) => if s.must_keep_count > 1 {
                s.must_keep_count
            } else {
                1
            },
            None => 1,
        }
    } else {
        1
    }
}

pub fn must_keep_slice<'a>(state: &'a Option<GrepState>, grep: &GrepConfig) -> (pins: Option<
    &'a Vec<bool>,
>)
    ensures
        pins_view(pins) == strong_pins(grep, *state),
{
    match state {
        Some(s) => if !grep.weak && s.is_enabled() {
            Some(&s.must_keep)
        } else {
            None
        },
        None => None,
    }
}

/// What a search does to the selection sequence of a tree: a strong one in
/// which something matches moves what it pins to the front, each group in
/// the order it had; any other search leaves the sequence as it is.
pub open spec fn resequenced(
    before: Seq<NodeId>,
    after: Seq<NodeId>,
    order: &PriorityOrder,
    grep: &GrepConfig,
) -> bool {
    match grep.regex {
        Some(re) => if grep.weak || count_true(pinned_set(order, re), order.total_nodes as int)
            == 0 {
            after == before
        } else {
            after == pinned_first(before, pinned_set(order, re))
        },
        None => after == before,
    }
}

/// What a search does to the selection sequence of the order of a tree,
/// from the making of the order to the selection: a weak search gives its
/// bonus, a strong one moves what it pins to the front.
pub open spec fn sequenced_for(
    before: Seq<NodeId>,
    after: Seq<NodeId>,
    order: &PriorityOrder,
    grep: &GrepConfig,
) -> bool {
    if grep.weak {
        weakly_ranked(before, after, order, grep)
    } else {
        resequenced(before, after, order, grep)
    }
}

/// A strong search over a fileset in which nothing matches.
pub open spec fn search_came_up_empty(order: &PriorityOrder, grep: &GrepConfig) -> bool {
    &&& grep.regex matches Some(re) && count_true(
        pinned_set(order, re),
        order.total_nodes as int,
    ) == 0
    &&& !grep.weak
    &&& order.total_nodes > 0
    &&& order.object_type@[0] == ObjectType::Fileset
}

/// The pins of a search in a tree: under a strong search with a match, the
/// matching nodes and their ancestors.
pub open spec fn pins_of(order: &PriorityOrder, grep: &GrepConfig) -> Option<Seq<bool>> {
    match grep.regex {
        Some(re) => if !grep.weak && count_true(pinned_set(order, re), order.total_nodes as int)
            > 0 {
            Some(pinned_set(order, re))
        } else {
            None
        },
        None => None,
    }
}

/// The number of pins.
pub open spec fn count_of(pins: Option<Seq<bool>>) -> usize {
    match pins {
        Some(mk) => count_true(mk, mk.len() as int) as usize,
        None => 0,
    }
}

/// The `k` at which a tree is previewed: the one that the bisection found
/// under the measuring configuration and the effective budgets.
pub open spec fn chosen_k(
    order: &PriorityOrder,
    cfg: &RenderConfig,
    pins: Option<Seq<bool>>,
    budgets: Budgets,
) -> Option<int> {
    let measure_cfg = measuring(order, *cfg);
    let effective = effective_budgets(order, &measure_cfg, budgets, pins);
    search_max(
        search_floor(count_of(pins)) as int,
        search_ceiling(order.total_nodes, effective) as int,
        probe_fn(order, &measure_cfg, effective, pins),
        None,
    )
}

/// Some cap is zero, so that there is room for nothing.
pub open spec fn has_zero_cap(budgets: Budgets) -> bool {
    budgets.byte_budget == Some(0usize) || budgets.char_budget == Some(0usize)
        || budgets.line_budget == Some(0usize)
}

pub fn any_cap_is_zero(budgets: Budgets) -> (zero: bool)
    ensures
        zero == has_zero_cap(budgets),
{
    let bytes = match budgets.byte_budget {
        Some(c) => c == 0,
        None => false,
    };
    let chars = match budgets.char_budget {
        Some(c) => c == 0,
        None => false,
    };
    let lines = match budgets.line_budget {
        Some(c) => c == 0,
        None => false,
    };
    bytes || chars || lines
}

/// The preview of a tree: the selection at the chosen `k`, rendered under
/// the configuration. Where no `k` fits, the pinned nodes are shown if there
/// are any, and else nothing; and nothing is shown under a cap of zero where
/// nothing is pinned.
pub open spec fn preview(
    order: &PriorityOrder,
    cfg: &RenderConfig,
    pins: Option<Seq<bool>>,
    budgets: Budgets,
) -> Seq<char> {
    if order.total_nodes == 0 || (pins is None && has_zero_cap(budgets)) {
        Seq::empty()
    } else {
        match chosen_k(order, cfg, pins, budgets) {
            Some(k) => render_document(order, selection(order, k, pins), cfg),
            None => if pins is Some {
                render_document(
                    order,
                    selection(order, search_floor(count_of(pins)) as int, pins),
                    cfg,
                )
            } else {
                Seq::empty()
            },
        }
    }
}

/// The `k` whose selection is shown, if anything is: the chosen one, or under
/// pins, where none was chosen, the number of pinned nodes. Nothing is shown
/// of an empty tree, or under a cap of zero where nothing is pinned.
pub open spec fn shown_k(
    order: &PriorityOrder,
    cfg: &RenderConfig,
    pins: Option<Seq<bool>>,
    budgets: Budgets,
) -> Option<int> {
    if order.total_nodes == 0 || (pins is None && has_zero_cap(budgets)) {
        None
    } else {
        match chosen_k(order, cfg, pins, budgets) {
            Some(k) => Some(k),
            None => if pins is Some {
                Some(search_floor(count_of(pins)) as int)
            } else {
                None
            },
        }
    }
}

/// The preview is the rendering of the selection that is shown.
pub proof fn lemma_preview_shows_the_selection(
    order: &PriorityOrder,
    cfg: &RenderConfig,
    pins: Option<Seq<bool>>,
    budgets: Budgets,
)
    ensures
        preview(order, cfg, pins, budgets) == match shown_k(order, cfg, pins, budgets) {
            Some(k) => render_document(order, selection(order, k, pins), cfg),
            None => Seq::empty(),
        },
{
}

/// Select what is shown of a tree whose selection sequence the search has
/// arranged: bisect under the effective budgets and mark the selection at
/// the `k` that is shown. Returns that `k`, the flag buffer, and the render
/// set that the selection is marked for; or nothing where nothing is shown.
pub fn pick_selection(
    order_build: &PriorityOrder,
    config: &RenderConfig,
    grep: &GrepConfig,
    budgets: Budgets,
    grep_state: &Option<GrepState>,
) -> (picked: Option<(usize, Vec<u32>, u32)>)
    requires
        order_build.wf(),
        order_build.total_nodes > 0,
        strong_pins(grep, *grep_state) == pins_of(order_build, grep),
        grep_state matches Some(st) ==> st.wf() && st.must_keep@.len() == order_build.total_nodes,
    ensures
        match picked {
            Some((k, flags, id)) => {
                &&& shown_k(order_build, config, pins_of(order_build, grep), budgets) == Some(
                    k as int,
                )
                &&& flags@.len() == order_build.total_nodes
                &&& flags_view(flags@, id) == selection(
                    order_build,
                    k as int,
                    pins_of(order_build, grep),
                )
                &&& parent_closed(order_build.parent@, flags_view(flags@, id))
            },
            None => shown_k(order_build, config, pins_of(order_build, grep), budgets) is None,
        },
{
    let ghost pins = pins_of(order_build, grep);
    let measure_cfg = measure_config(order_build, config);
    let effective_budgets = effective_budgets_with_grep(
        order_build,
        &measure_cfg,
        grep,
        budgets,
        grep_state,
    );
    let min_k = min_k_for(grep_state, grep);
    let pinned = must_keep_slice(grep_state, grep);
    if pinned.is_none() && any_cap_is_zero(budgets) {
        return None;
    }
    proof {
        if grep_state is Some {
            let st = grep_state->0;
            if st.must_keep_count > 0 && !grep.weak {
                assert(count_of(pins) == st.must_keep_count);
            }
        }
        assert(search_floor(count_of(pins)) == min_k);
    }
    let (best, mut inclusion_flags, render_set_id) = select_best_k(
        order_build,
        &measure_cfg,
        effective_budgets,
        min_k,
        pinned,
    );
    let k = match best {
        Some(k) => k,
        None => {
            if pinned.is_none() {
                return None;
            }
            min_k
        },
    };
    mark_selection(order_build, k, pinned, &mut inclusion_flags, render_set_id);
    Some((k, inclusion_flags, render_set_id))
}

/// The trace of what is shown of a tree, where something is.
pub open spec fn trace_of(
    order: &PriorityOrder,
    cfg: &RenderConfig,
    grep: &GrepConfig,
    budgets: Budgets,
) -> Option<Seq<char>> {
    let pins = pins_of(order, grep);
    if search_came_up_empty(order, grep) {
        None
    } else {
        match shown_k(order, cfg, pins, budgets) {
            Some(k) => Some(
                crate::debug::trace_document(order, selection(order, k, pins), budgets, k as usize),
            ),
            None => None,
        }
    }
}

/// The text of an optional string.
pub open spec fn opt_text_of(s: Option<String>) -> Option<Seq<char>> {
    match s {
        Some(t) => Some(t@),
        None => None,
    }
}

/// Trace what is shown of a tree whose selection sequence the search has
/// arranged already: the selection that the preview renders.
pub fn trace_selection(
    order_build: &PriorityOrder,
    config: &RenderConfig,
    grep: &GrepConfig,
    budgets: Budgets,
) -> (trace: Option<String>)
    requires
        order_build.wf(),
    ensures
        opt_text_of(trace) == trace_of(order_build, config, grep, budgets),
{
    if order_build.total_nodes == 0 {
        return None;
    }
    let grep_state = compute_grep_state(order_build, grep);
    proof {
        if grep.regex is Some {
            assert(pinned_set(order_build, grep.regex->0).len() == order_build.total_nodes);
        }
    }
    let no_match = match &grep.regex {
        Some(_) => grep_state.is_none() && !grep.weak,
        None => false,
    };
    if no_match {
        match order_build.object_type[ROOT_PQ_ID] {
            ObjectType::Fileset => {
                return None;
            },
            ObjectType::Object => {},
        }
    }
    match pick_selection(order_build, config, grep, budgets, &grep_state) {
        Some((k, inclusion_flags, render_set_id)) => Some(
            crate::debug::emit_render_debug(
                order_build,
                &inclusion_flags,
                render_set_id,
                budgets,
                k,
            ),
        ),
        None => None,
    }
}

/// The largest preview of the tree that is within the budgets. A strong
/// search first moves its matches to the front of the selection sequence and
/// raises the budgets by their cost; over a fileset in which nothing matches
/// it leaves nothing to show.
pub fn find_largest_render_under_budgets(
    order_build: &mut PriorityOrder,
    config: &RenderConfig,
    grep: &GrepConfig,
    budgets: Budgets,
) -> (out: String)
    requires
        old(order_build).wf(),
    ensures
        final(order_build).wf(),
        same_tree(old(order_build), final(order_build)),
        resequenced(
            old(order_build).by_priority@,
            final(order_build).by_priority@,
            old(order_build),
            grep,
        ),
        out@ == if search_came_up_empty(final(order_build), grep) {
            Seq::empty()
        } else {
            preview(final(order_build), config, pins_of(final(order_build), grep), budgets)
        },
{
    let total = order_build.total_nodes;
    if total == 0 {
        return String::new();
    }
    let measure_cfg = measure_config(order_build, config);
    let grep_state = compute_grep_state(order_build, grep);
    let ghost pins = pins_of(order_build, grep);
    proof {
        if grep.regex is Some {
            assert(pinned_set(order_build, grep.regex->0).len() == order_build.total_nodes);
        }
        assert(strong_pins(grep, grep_state) == pins);
    }
    let no_match = match &grep.regex {
        Some(_) => grep_state.is_none() && !grep.weak,
        None => false,
    };
    if no_match {
        match order_build.object_type[ROOT_PQ_ID] {
            ObjectType::Fileset => {
                return String::new();
            },
            ObjectType::Object => {},
        }
    }
    reorder_for_grep(order_build, &grep_state, grep);
    proof {
        if grep.regex is Some {
            let re = grep.regex->0;
            assert(pinned_set(order_build, re) =~= pinned_set(old(order_build), re)) by {
                assert forall|x: int| 0 <= x < order_build.total_nodes implies crate::grep::pinned_at(
                    order_build,
                    re,
                    x,
                ) == crate::grep::pinned_at(old(order_build), re, x) by {
                    lemma_pins_same_tree(old(order_build), order_build, re, x);
                }
            }
        }
        assert(pins_of(order_build, grep) == pins);
        assert(measure_cfg == measuring(order_build, *config));
    }
    match pick_selection(order_build, config, grep, budgets, &grep_state) {
        Some((_, inclusion_flags, render_set_id)) => render_from_render_set(
            order_build,
            &inclusion_flags,
            render_set_id,
            config,
        ),
        None => String::new(),
    }
}

/// What a search pins depends on the tree alone, not on the selection
/// sequence.
pub proof fn lemma_pins_same_tree(
    a: &PriorityOrder,
    b: &PriorityOrder,
    re: regex::Regex,
    x: int,
)
    requires
        same_tree(a, b),
    ensures
        crate::grep::pinned_at(a, re, x) == crate::grep::pinned_at(b, re, x),
{
    let n = a.total_nodes as int;
    assert(crate::grep::part_of_match(a, re, x) == crate::grep::part_of_match(b, re, x));
    if crate::grep::pinned_below(a, re, n, x) {
        let i = choose|i: int|
            0 <= i < n && #[trigger] crate::grep::matches_at(a, re, i) && in_chain(a.parent@, i, x);
        assert(crate::grep::matches_at(b, re, i));
    }
    if crate::grep::pinned_below(b, re, n, x) {
        let i = choose|i: int|
            0 <= i < n && #[trigger] crate::grep::matches_at(b, re, i) && in_chain(b.parent@, i, x);
        assert(crate::grep::matches_at(a, re, i));
    }
}

} // verus!
