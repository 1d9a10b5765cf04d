use crate::grep::{matches_at, pinned_below, pinned_set, GrepConfig};
use crate::order::{in_chain, lemma_chain_bounds, lemma_closed_holds_chain};
use crate::order::{parent_closed, PriorityOrder};
use crate::pruner::budget::{chosen_k, count_of, effective_budgets, fits, fits_at, in_keep_set};
use crate::pruner::budget::{is_part_of_kept, measuring, pins_of, preview, probe_fn, search_ceiling};
use crate::pruner::budget::{search_floor, selected, selection, text_stats, within, Budgets};
use crate::pruner::search::{downward_closed, lemma_search_max, lemma_search_sound};
use crate::serialization::strip::{esc_free, lemma_strip_document, strip_ansi, uncolored};
use crate::serialization::types::RenderConfig;
use crate::serialization::{in_top_k, render_document};
use crate::utils::graph::lemma_chain_parent;
use crate::utils::measure::line_count;
use vstd::prelude::*;
use vstd::utf8::encode_utf8;

verus! {

/// Measuring a configuration that is already one for measuring changes
/// nothing.
pub proof fn lemma_measuring_is_idempotent(order: &PriorityOrder, cfg: RenderConfig)
    ensures
        measuring(order, measuring(order, cfg)) == measuring(order, cfg),
{
}

/// An empty text is within every budget.
pub proof fn lemma_nothing_fits_everywhere(budgets: Budgets, measure_chars: bool)
    ensures
        fits(text_stats(Seq::empty(), measure_chars), budgets),
{
    assert(encode_utf8(Seq::<char>::empty()) =~= Seq::<u8>::empty()) by {
        reveal_with_fuel(encode_utf8, 1);
    }
    assert(line_count(Seq::<u8>::empty()) == 0);
}

/// Budget compliance. The preview of a tree, rendered as it is measured
/// (without color, and without the section headers of a fileset where these
/// are free), is within the budgets that selection worked with: the given
/// ones, or under a strong search the given ones raised by the cost of the
/// matches. The one case left out is a strong search for whose matches the
/// bisection found no fitting selection, which are shown nevertheless.
pub proof fn lemma_preview_within_budgets(
    order: &PriorityOrder,
    cfg: &RenderConfig,
    pins: Option<Seq<bool>>,
    budgets: Budgets,
)
    requires
        pins is None || chosen_k(order, cfg, pins, budgets) is Some,
    ensures
        fits(
            text_stats(
                preview(order, &measuring(order, *cfg), pins, budgets),
                budgets.char_budget is Some,
            ),
            effective_budgets(order, &measuring(order, *cfg), budgets, pins),
        ),
        pins is None ==> effective_budgets(order, &measuring(order, *cfg), budgets, pins)
            == budgets,
{
    let measure_cfg = measuring(order, *cfg);
    lemma_measuring_is_idempotent(order, *cfg);
    let effective = effective_budgets(order, &measure_cfg, budgets, pins);
    let lo = search_floor(count_of(pins)) as int;
    let hi = search_ceiling(order.total_nodes, effective) as int;
    let probe = probe_fn(order, &measure_cfg, effective, pins);
    assert(chosen_k(order, &measure_cfg, pins, budgets) == chosen_k(order, cfg, pins, budgets));
    lemma_search_sound(lo, hi, probe, None);
    lemma_nothing_fits_everywhere(effective, budgets.char_budget is Some);
    if order.total_nodes > 0 {
        match chosen_k(order, cfg, pins, budgets) {
            Some(k) => {
                assert(probe(k));
                assert(fits_at(order, &measure_cfg, effective, pins, k));
                assert((effective.char_budget is Some) == (budgets.char_budget is Some));
            },
            None => {},
        }
    }
}

/// Where the configuration is one for measuring already, the preview itself
/// is within the budgets.
pub proof fn lemma_plain_preview_within_budgets(
    order: &PriorityOrder,
    cfg: &RenderConfig,
    budgets: Budgets,
)
    requires
        *cfg == measuring(order, *cfg),
    ensures
        fits(text_stats(preview(order, cfg, None, budgets), budgets.char_budget is Some), budgets),
{
    lemma_preview_within_budgets(order, cfg, None, budgets);
}

/// Ancestor closure. Whatever is selected at any `k`, with or without pins,
/// its parent is selected too.
pub proof fn lemma_selection_is_parent_closed(
    order: &PriorityOrder,
    k: int,
    pins: Option<Seq<bool>>,
)
    requires
        order.wf(),
    ensures
        parent_closed(order.parent@, selection(order, k, pins)),
{
    let parents = order.parent@;
    let s = selection(order, k, pins);
    assert forall|i: int| 0 <= i < s.len() && i < parents.len() && #[trigger] s[i] implies (
    parents[i] matches Some(p) ==> p.0 < s.len() && s[p.0 as int]) by {
        if parents[i] is Some {
            let p = parents[i]->0;
            assert(p.0 < i);
            if in_top_k(order, k, i) {
                let j = choose|j: int|
                    0 <= j < k && j < order.by_priority@.len() && #[trigger] in_chain(
                        parents,
                        order.by_priority@[j].0 as int,
                        i,
                    );
                lemma_chain_parent(parents, order.by_priority@[j].0 as int, i);
                assert(in_top_k(order, k, p.0 as int));
            } else {
                let mk = pins->0;
                if exists|x: int|
                    0 <= x < mk.len() && x < mk.len() && mk[x] && #[trigger] in_chain(parents, x, i) {
                    let x = choose|x: int|
                        0 <= x < mk.len() && x < mk.len() && mk[x] && #[trigger] in_chain(
                            parents,
                            x,
                            i,
                        );
                    lemma_chain_parent(parents, x, i);
                    assert(in_keep_set(order, mk, mk.len() as int, p.0 as int));
                } else {
                    assert(is_part_of_kept(order, mk, i));
                    assert(in_chain(parents, p.0 as int, p.0 as int));
                    assert(in_keep_set(order, mk, mk.len() as int, p.0 as int));
                }
            }
            assert(selected(order, k, pins, p.0 as int));
        }
    }
}

/// Ancestor closure, up to the root. With a selected node, each of its
/// ancestors is selected.
pub proof fn lemma_selection_holds_ancestors(
    order: &PriorityOrder,
    k: int,
    pins: Option<Seq<bool>>,
    node: int,
    ancestor: int,
)
    requires
        order.wf(),
        0 <= node < order.total_nodes,
        selection(order, k, pins)[node],
        in_chain(order.parent@, node, ancestor),
    ensures
        0 <= ancestor < order.total_nodes,
        selection(order, k, pins)[ancestor],
{
    lemma_selection_is_parent_closed(order, k, pins);
    lemma_closed_holds_chain(order.parent@, selection(order, k, pins), node, ancestor);
}

/// Strong search guarantee. Under a strong search, a node whose value or key
/// matches is selected at every `k`, and so is each of its ancestors,
/// whatever the budgets are.
pub proof fn lemma_strong_search_keeps_matches(
    order: &PriorityOrder,
    grep: &GrepConfig,
    k: int,
    node: int,
    ancestor: int,
)
    requires
        order.wf(),
        grep.regex is Some,
        !grep.weak,
        matches_at(order, grep.regex->0, node),
        in_chain(order.parent@, node, ancestor),
    ensures
        pins_of(order, grep) is Some,
        0 <= ancestor < order.total_nodes,
        selection(order, k, pins_of(order, grep))[ancestor],
{
    let re = grep.regex->0;
    let pinned = pinned_set(order, re);
    lemma_chain_bounds(order.parent@, node, ancestor);
    assert(in_chain(order.parent@, node, node));
    assert(pinned_below(order, re, order.total_nodes as int, node));
    assert(pinned[node]);
    crate::grep::lemma_count_true_bounds(pinned, order.total_nodes as int);
    assert(pins_of(order, grep) == Some(pinned));
    assert(in_keep_set(order, pinned, pinned.len() as int, ancestor));
}

/// The preview under pins is the rendering of a selection that holds every
/// pinned node.
pub proof fn lemma_pinned_preview_is_a_selection(
    order: &PriorityOrder,
    cfg: &RenderConfig,
    pins: Option<Seq<bool>>,
    budgets: Budgets,
)
    requires
        pins is Some,
        order.total_nodes > 0,
    ensures
        exists|k: int| #[trigger]
            render_document(order, selection(order, k, pins), cfg) == preview(
                order,
                cfg,
                pins,
                budgets,
            ),
{
    match chosen_k(order, cfg, pins, budgets) {
        Some(k) => {
            assert(render_document(order, selection(order, k, pins), cfg) == preview(
                order,
                cfg,
                pins,
                budgets,
            ));
        },
        None => {
            let k = search_floor(count_of(pins)) as int;
            assert(render_document(order, selection(order, k, pins), cfg) == preview(
                order,
                cfg,
                pins,
                budgets,
            ));
        },
    }
}

/// Weak search isolation. A weak search pins nothing: the preview is the one
/// without a search, and as it is measured it is within the budgets as
/// given.
pub proof fn lemma_weak_search_keeps_the_budget(
    order: &PriorityOrder,
    cfg: &RenderConfig,
    grep: &GrepConfig,
    budgets: Budgets,
)
    requires
        grep.weak,
    ensures
        pins_of(order, grep) is None,
        preview(order, cfg, pins_of(order, grep), budgets) == preview(order, cfg, None, budgets),
        fits(
            text_stats(
                preview(order, &measuring(order, *cfg), pins_of(order, grep), budgets),
                budgets.char_budget is Some,
            ),
            budgets,
        ),
{
    lemma_preview_within_budgets(order, cfg, None, budgets);
}

/// The first budgets are no wider than the second: a cap that the second
/// set has, the first has too, and no larger.
pub open spec fn no_wider(a: Budgets, b: Budgets) -> bool {
    &&& cap_no_wider(a.byte_budget, b.byte_budget)
    &&& cap_no_wider(a.char_budget, b.char_budget)
    &&& cap_no_wider(a.line_budget, b.line_budget)
}

pub open spec fn cap_no_wider(a: Option<usize>, b: Option<usize>) -> bool {
    match b {
        Some(cb) => a matches Some(ca) && ca <= cb,
        None => true,
    }
}

/// Whatever is within budgets is within wider ones.
pub proof fn lemma_fits_wider(text: Seq<char>, a: Budgets, b: Budgets)
    requires
        no_wider(a, b),
        fits(text_stats(text, a.char_budget is Some), a),
    ensures
        fits(text_stats(text, b.char_budget is Some), b),
{
}

/// The length of the rendering never shrinks as `k` grows.
pub open spec fn grows_with_k(order: &PriorityOrder, cfg: &RenderConfig, lo: int, hi: int) -> bool {
    forall|a: int, b: int|
        lo <= a <= b <= hi ==> (#[trigger] render_document(order, selection(order, a, None), cfg)).len()
            <= (#[trigger] render_document(order, selection(order, b, None), cfg)).len()
}

/// Monotonicity. Without pins, a preview under wider budgets is no shorter,
/// provided that fitting is downward closed in `k` under both budgets and
/// that the rendering never shrinks as `k` grows: the two conditions under
/// which a bisection finds the largest fitting selection.
pub proof fn lemma_wider_budgets_show_no_less(
    order: &PriorityOrder,
    cfg: &RenderConfig,
    narrow: Budgets,
    wide: Budgets,
)
    requires
        no_wider(narrow, wide),
        downward_closed(
            1,
            search_ceiling(order.total_nodes, narrow) as int,
            probe_fn(order, &measuring(order, *cfg), narrow, None),
        ),
        downward_closed(
            1,
            search_ceiling(order.total_nodes, wide) as int,
            probe_fn(order, &measuring(order, *cfg), wide, None),
        ),
        grows_with_k(order, cfg, 1, order.total_nodes as int),
    ensures
        preview(order, cfg, None, narrow).len() <= preview(order, cfg, None, wide).len(),
{
    let measure_cfg = measuring(order, *cfg);
    let hi_narrow = search_ceiling(order.total_nodes, narrow) as int;
    let hi_wide = search_ceiling(order.total_nodes, wide) as int;
    let fits_narrow = probe_fn(order, &measure_cfg, narrow, None);
    let fits_wide = probe_fn(order, &measure_cfg, wide, None);
    assert(hi_narrow <= hi_wide);
    if order.total_nodes > 0 {
        lemma_search_max(1, hi_narrow, 1, hi_narrow, fits_narrow, None);
        lemma_search_max(1, hi_wide, 1, hi_wide, fits_wide, None);
        match chosen_k(order, cfg, None, narrow) {
            Some(k1) => {
                assert(fits_narrow(k1));
                lemma_fits_wider(
                    render_document(order, selection(order, k1, None), &measure_cfg),
                    narrow,
                    wide,
                );
                assert(fits_wide(k1));
                let k2 = chosen_k(order, cfg, None, wide)->0;
                assert(k1 <= k2);
            },
            None => {},
        }
    }
}

/// Color strip equivalence. A preview with color and its twin without
/// select the same nodes, and where the twin holds no escape character, it
/// is what remains of the colored preview when the color sequences are
/// stripped.
pub proof fn lemma_stripped_preview_is_the_plain_one(
    order: &PriorityOrder,
    cfg: &RenderConfig,
    pins: Option<Seq<bool>>,
    budgets: Budgets,
)
    requires
        esc_free(preview(order, &uncolored(*cfg), pins, budgets)),
    ensures
        chosen_k(order, cfg, pins, budgets) == chosen_k(order, &uncolored(*cfg), pins, budgets),
        strip_ansi(preview(order, cfg, pins, budgets)) == preview(
            order,
            &uncolored(*cfg),
            pins,
            budgets,
        ),
{
    let plain = uncolored(*cfg);
    assert(measuring(order, *cfg) == measuring(order, plain));
    if order.total_nodes == 0 || (pins is None && crate::pruner::budget::has_zero_cap(budgets)) {
        assert(strip_ansi(Seq::<char>::empty()) =~= Seq::<char>::empty()) by {
            reveal_with_fuel(crate::serialization::strip::strip_from, 1);
        }
    } else {
        match chosen_k(order, cfg, pins, budgets) {
            Some(k) => {
                lemma_strip_document(order, selection(order, k, pins), cfg);
            },
            None => {
                if pins is Some {
                    lemma_strip_document(
                        order,
                        selection(order, search_floor(count_of(pins)) as int, pins),
                        cfg,
                    );
                }
            },
        }
    }
}

/// Budget compliance of what is shown. Where the section headers of a
/// fileset are not free (there is no fileset, no header is shown, or the
/// headers count toward the budgets), the preview under any configuration,
/// its color sequences stripped, is within the budgets that selection
/// worked with. Left out are a preview whose plain twin holds an escape
/// character of its own, and a strong search for whose matches no selection
/// fits.
pub proof fn lemma_shown_preview_within_budgets(
    order: &PriorityOrder,
    cfg: &RenderConfig,
    pins: Option<Seq<bool>>,
    budgets: Budgets,
)
    requires
        pins is None || chosen_k(order, cfg, pins, budgets) is Some,
        uncolored(*cfg) == measuring(order, *cfg),
        esc_free(preview(order, &uncolored(*cfg), pins, budgets)),
    ensures
        fits(
            text_stats(
                strip_ansi(preview(order, cfg, pins, budgets)),
                budgets.char_budget is Some,
            ),
            effective_budgets(order, &measuring(order, *cfg), budgets, pins),
        ),
        pins is None ==> effective_budgets(order, &measuring(order, *cfg), budgets, pins)
            == budgets,
{
    lemma_stripped_preview_is_the_plain_one(order, cfg, pins, budgets);
    lemma_preview_within_budgets(order, cfg, pins, budgets);
}

/// Filename-only matches. The name of a file of a fileset is not searched:
/// the root of a file matches by its value alone, never by its key. So a
/// file in which no value and no key below its root matches, whatever its
/// name, is not pinned by a search, and nothing in it is.
pub proof fn lemma_file_matched_by_name_alone_is_not_pinned(
    order: &PriorityOrder,
    re: regex::Regex,
    file: int,
    x: int,
)
    requires
        order.wf(),
        order.total_nodes > 0,
        order.object_type@[0] == crate::order::ObjectType::Fileset,
        0 < file < order.total_nodes,
        order.parent@[file] == Some(crate::order::NodeId(0)),
        !(order.nodes@[0] is SplittableLeaf),
        in_chain(order.parent@, x, file),
        !crate::grep::node_matches(order.nodes@[file], true, re),
        forall|y: int|
            y != file && in_chain(order.parent@, y, file) ==> !(#[trigger] matches_at(order, re, y)),
    ensures
        0 <= x < order.total_nodes,
        !matches_at(order, re, file),
        !crate::grep::pinned_at(order, re, x),
        !pinned_set(order, re)[x],
{
    lemma_chain_bounds(order.parent@, x, file);
    assert(crate::grep::key_is_filename(order, file));
    assert(!matches_at(order, re, file));
    if pinned_below(order, re, order.total_nodes as int, x) {
        let i = choose|i: int|
            0 <= i < order.total_nodes && #[trigger] matches_at(order, re, i) && in_chain(
                order.parent@,
                i,
                x,
            );
        crate::order::lemma_chain_trans(order.parent@, i, x, file);
        assert(!matches_at(order, re, i));
    }
    if crate::grep::part_of_match(order, re, x) {
        let p = crate::order::parent_index(order.parent@, x);
        if x == file {
            assert(p == 0);
        } else {
            assert(in_chain(order.parent@, p, file));
            assert(!matches_at(order, re, p));
        }
    }
}

} // verus!
