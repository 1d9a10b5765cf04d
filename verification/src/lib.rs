//! A budget-constrained previewer for structured data: it selects the most
//! informative part of a JSON, YAML or text input that fits under byte,
//! character and line caps, and renders it with omissions marked.

pub mod cli;
pub mod debug;
pub mod error;
pub mod grep;
pub mod ingest;
pub mod order;
pub mod pruner;
pub mod python;
pub mod serialization;
pub mod utils;

pub use crate::error::{HeadsonError, IngestFailure};
pub use crate::grep::{GrepConfig, GrepShow};
pub use crate::ingest::fileset::{FilesetInput, FilesetInputKind};
pub use crate::order::builder::build_order;
pub use crate::order::types::{ArrayBias, ArraySamplerStrategy};
pub use crate::order::{NodeId, NodeKind, PriorityConfig, PriorityOrder, RankedNode};
pub use crate::pruner::budget::{find_largest_render_under_budgets, Budgets};
pub use crate::serialization::color::resolve_color_enabled;
pub use crate::serialization::types::{ColorMode, OutputTemplate, RenderConfig, Style};
pub use crate::utils::extensions;

use crate::ingest::sampling::sampling_of;
use crate::ingest::{
    any_file_matches, bytes_of, explains, file_failure, files_explain, files_tree,
    ingest_into_arena, input_tree, keep_matching_files, kind_of,
};
use crate::ingest::keeper;
use crate::grep::pinned_set;
use crate::order::builder::{breadth_first, mirrors, ranked};
use crate::pruner::budget::{lemma_pins_same_tree, rank_for_weak_grep, same_tree, sequenced_for};
use crate::utils::tree_arena::Tree;
use crate::utils::tree_arena::JsonTreeArena;
use crate::order::{one_root, ObjectType};
use crate::pruner::budget::{opt_text_of, pins_of, preview, search_came_up_empty, trace_of};
use crate::pruner::budget::trace_selection;
use vstd::prelude::*;

verus! {

/// How a text input is read: as lines that may be shortened, or as code
/// lines that are shown whole or not at all.
#[derive(Copy, Clone, Debug, PartialEq, Eq, Structural)]
pub enum TextMode {
    Plain,
    CodeLike,
}

/// What is summarized: one document as bytes, or a set of named files.
pub enum InputKind {
    Json(Vec<u8>),
    Yaml(Vec<u8>),
    Text { bytes: Vec<u8>, mode: TextMode },
    Fileset(Vec<FilesetInput>),
}

/// A preview and what the caller should be told beside it.
pub struct Summary {
    pub text: String,
    pub notices: Vec<String>,
    /// The trace of the selection, where the configuration asks for one and
    /// something is shown.
    pub trace: Option<String>,
}

/// The notice of a strong search over a fileset in which nothing matches.
pub open spec fn no_matches_notice() -> Seq<char> {
    "No grep matches found"@
}

/// A strong search over a fileset finds nothing in any of its files. The
/// names of the files do not count.
pub open spec fn nothing_found(tree: Tree, is_fileset: bool, grep: &GrepConfig) -> bool {
    &&& is_strong(grep)
    &&& is_fileset
    &&& !exists|j: int|
        0 <= j < tree.items.len() && crate::grep::tree_has_match(
            #[trigger] tree.items[j],
            grep.regex->0,
        )
}

/// Whether the search is a strong one.
pub open spec fn is_strong(grep: &GrepConfig) -> bool {
    grep.regex is Some && !grep.weak
}

/// The files that are read: under a strong search that shows matching files
/// only, the files in which something matches, in their order; else all of
/// them.
pub open spec fn read_files(
    files: Seq<FilesetInput>,
    priority_cfg: &PriorityConfig,
    grep: &GrepConfig,
) -> Seq<FilesetInput> {
    if is_strong(grep) && grep.show == GrepShow::Matching {
        files.filter(
            keeper(grep.regex->0, priority_cfg.array_max_items, sampling_of(priority_cfg)),
        )
    } else {
        files
    }
}

/// The tree that is read from an input, where it can be read: the tree of
/// the input, for a fileset that of the files that are read.
pub open spec fn tree_read(input: InputKind, priority_cfg: &PriorityConfig, grep: &GrepConfig) -> Option<
    Tree,
> {
    let cap = priority_cfg.array_max_items;
    let plan = sampling_of(priority_cfg);
    match input {
        InputKind::Fileset(files) => files_tree(read_files(files@, priority_cfg, grep), cap, plan),
        _ => input_tree(input, cap, plan),
    }
}

/// The kinds of the files that are read; of a single input, none.
pub open spec fn kinds_read(
    input: InputKind,
    priority_cfg: &PriorityConfig,
    grep: &GrepConfig,
) -> Seq<FilesetInputKind> {
    match input {
        InputKind::Fileset(files) => {
            let read = read_files(files@, priority_cfg, grep);
            Seq::new(read.len(), |i: int| read[i].kind)
        },
        _ => Seq::empty(),
    }
}

/// The error says which input cannot be read, and why. For a fileset it
/// names the first unreadable one of the files that are read; for a single
/// input it names the source that the configuration gives, where it gives
/// one.
pub open spec fn explains_read(
    e: HeadsonError,
    input: InputKind,
    config: &RenderConfig,
    priority_cfg: &PriorityConfig,
    grep: &GrepConfig,
) -> bool {
    let cap = priority_cfg.array_max_items;
    let plan = sampling_of(priority_cfg);
    match input {
        InputKind::Fileset(files) => files_explain(
            e,
            read_files(files@, priority_cfg, grep),
            cap,
            plan,
        ),
        _ => {
            let unnamed = HeadsonError::IngestFailed(file_failure(kind_of(input), bytes_of(input)));
            e == match config.primary_source_name {
                Some(name) => unnamed.named(name),
                None => unnamed,
            }
        },
    }
}

/// The configuration that is rendered under: the one given, with the
/// pattern of the search as the highlight where none is set.
pub open spec fn wired(config: RenderConfig, grep: &GrepConfig) -> RenderConfig {
    if config.grep_highlight is None && grep.regex is Some {
        RenderConfig { grep_highlight: grep.regex, ..config }
    } else {
        config
    }
}

pub fn wire_highlight(config: &RenderConfig, grep: &GrepConfig) -> (cfg: RenderConfig)
    ensures
        cfg == wired(*config, grep),
{
    let mut cfg = config.clone();
    if cfg.grep_highlight.is_none() {
        match &grep.regex {
            Some(re) => {
                cfg.grep_highlight = Some(re.clone());
            },
            None => {},
        }
    }
    cfg
}

/// The text is the preview of the order under the configuration, the search
/// and the budgets.
pub open spec fn shows(
    text: Seq<char>,
    order: &PriorityOrder,
    config: &RenderConfig,
    grep: &GrepConfig,
    budgets: Budgets,
) -> bool {
    text == if search_came_up_empty(order, grep) {
        Seq::empty()
    } else {
        preview(order, &wired(*config, grep), pins_of(order, grep), budgets)
    }
}

/// The order is the one of a tree: it is well-formed, it mirrors an arena
/// that holds the tree and nothing besides, node for node, its nodes are
/// numbered breadth first, and its selection sequence is the one that the
/// ranks give.
pub open spec fn built_from(
    order: &PriorityOrder,
    tree: Tree,
    is_fileset: bool,
    kinds: Seq<FilesetInputKind>,
    priority_cfg: &PriorityConfig,
) -> bool {
    &&& order.wf()
    &&& order.total_nodes >= 1
    &&& order.object_type@[0] == ObjectType::Fileset <==> is_fileset
    &&& exists|arena: JsonTreeArena, map: Seq<usize>|
        {
            &&& arena.wf()
            &&& arena.rooted()
            &&& arena.compact()
            &&& tree == arena.tree_at(arena.root_id as int)
            &&& arena.is_fileset == is_fileset
            &&& arena.fileset_kinds@ == kinds
            &&& #[trigger] mirrors(order, &arena, priority_cfg, map)
        }
    &&& one_root(order.parent@)
    &&& breadth_first(order.children@)
    &&& ranked(order, priority_cfg)
}

/// The order is the one that a search selects from: an order of the tree of
/// the input, its selection sequence changed as the search asks.
pub open spec fn ordered_for(
    order: &PriorityOrder,
    tree: Tree,
    is_fileset: bool,
    kinds: Seq<FilesetInputKind>,
    priority_cfg: &PriorityConfig,
    grep: &GrepConfig,
) -> bool {
    &&& order.wf()
    &&& exists|base: PriorityOrder|
        {
            &&& #[trigger] built_from(&base, tree, is_fileset, kinds, priority_cfg)
            &&& same_tree(&base, order)
            &&& sequenced_for(base.by_priority@, order.by_priority@, &base, grep)
        }
}

/// What a summary of an input is. It fails exactly where the input that is
/// read cannot be read, with the error that says why. Else, where a strong
/// search over a fileset finds nothing, it is the notice of that and
/// nothing else; and in every other case its text is the preview of the
/// order of the tree that was read, as the search sequences it.
pub open spec fn summarized(
    r: Result<Summary, HeadsonError>,
    input: InputKind,
    config: &RenderConfig,
    priority_cfg: &PriorityConfig,
    grep: &GrepConfig,
    budgets: Budgets,
) -> bool {
    let tree = tree_read(input, priority_cfg, grep);
    match r {
        Ok(summary) => {
            &&& tree is Some
            &&& summary.notices@.len() <= 1
            &&& summary.notices@.len() == 1 <==> nothing_found(tree->0, input is Fileset, grep)
            &&& summary.notices@.len() == 1 ==> summary.text@.len() == 0 && summary.notices@[0]@
                == no_matches_notice() && summary.trace is None
            &&& summary.notices@.len() == 0 ==> exists|order: PriorityOrder|
                ordered_for(
                    &order,
                    tree->0,
                    input is Fileset,
                    kinds_read(input, priority_cfg, grep),
                    priority_cfg,
                    grep,
                ) && #[trigger] shows(
                    summary.text@,
                    &order,
                    config,
                    grep,
                    budgets,
                ) && traces(summary.trace, &order, config, grep, budgets)
        },
        Err(e) => tree is None && explains_read(e, input, config, priority_cfg, grep),
    }
}

/// The trace is the one of the selection that the preview renders, where
/// the configuration asks for a trace, and else there is none.
pub open spec fn traces(
    trace: Option<String>,
    order: &PriorityOrder,
    config: &RenderConfig,
    grep: &GrepConfig,
    budgets: Budgets,
) -> bool {
    opt_text_of(trace) == if config.debug {
        trace_of(order, &wired(*config, grep), grep, budgets)
    } else {
        None
    }
}

/// Determinism of selection and rendering. For one order of the tree, one
/// configuration, one search and one set of budgets there is one preview
/// and one trace: two summaries of them agree to the character.
pub proof fn lemma_one_order_has_one_preview(
    first: Seq<char>,
    second: Seq<char>,
    first_trace: Option<String>,
    second_trace: Option<String>,
    order: &PriorityOrder,
    config: &RenderConfig,
    grep: &GrepConfig,
    budgets: Budgets,
)
    requires
        shows(first, order, config, grep, budgets),
        shows(second, order, config, grep, budgets),
        traces(first_trace, order, config, grep, budgets),
        traces(second_trace, order, config, grep, budgets),
    ensures
        first == second,
        opt_text_of(first_trace) == opt_text_of(second_trace),
{
}

/// Determinism of ordering. Two orders that a search selects from, each
/// made from an order of one and the same tree with the sequence that its
/// ranks give, have one selection sequence: nothing in the making of the
/// ranks, in the turns of the files or in what a search does to the
/// sequence is left open.
pub proof fn lemma_one_tree_has_one_sequence(
    a: &PriorityOrder,
    b: &PriorityOrder,
    base_a: &PriorityOrder,
    base_b: &PriorityOrder,
    priority_cfg: &PriorityConfig,
    grep: &GrepConfig,
)
    requires
        base_a.wf(),
        base_b.wf(),
        base_a.total_nodes >= 1,
        one_root(base_a.parent@),
        same_tree(base_a, base_b),
        ranked(base_a, priority_cfg),
        ranked(base_b, priority_cfg),
        a.wf(),
        b.wf(),
        same_tree(base_a, a),
        same_tree(base_b, b),
        sequenced_for(base_a.by_priority@, a.by_priority@, base_a, grep),
        sequenced_for(base_b.by_priority@, b.by_priority@, base_b, grep),
    ensures
        a.by_priority@ == b.by_priority@,
{
    crate::order::builder::lemma_sequence_is_unique(base_a, base_b, priority_cfg);
    if grep.regex is Some {
        let re = grep.regex->0;
        assert(pinned_set(base_a, re) =~= pinned_set(base_b, re)) by {
            assert forall|x: int| 0 <= x < base_a.total_nodes implies crate::grep::pinned_at(
                base_a,
                re,
                x,
            ) == crate::grep::pinned_at(base_b, re, x) by {
                lemma_pins_same_tree(base_a, base_b, re, x);
            }
        }
        if grep.weak && crate::grep::count_true(pinned_set(base_a, re), base_a.total_nodes as int)
            > 0 {
            crate::grep::lemma_nudged_is_unique(
                base_a.by_priority@,
                a.by_priority@,
                b.by_priority@,
                pinned_set(base_a, re),
            );
        }
    }
}

/// Determinism of reading. The tree of an input depends on the bytes, the
/// kinds and the names of the input, on the cap on arrays and on the
/// sampling alone: two arenas that hold the tree of one input hold the same
/// tree.
pub proof fn lemma_one_input_has_one_tree(
    input: InputKind,
    priority_cfg: &PriorityConfig,
    first: &JsonTreeArena,
    second: &JsonTreeArena,
)
    requires
        input_tree(input, priority_cfg.array_max_items, sampling_of(priority_cfg)) == Some(
            first.tree_at(first.root_id as int),
        ),
        input_tree(input, priority_cfg.array_max_items, sampling_of(priority_cfg)) == Some(
            second.tree_at(second.root_id as int),
        ),
    ensures
        first.tree_at(first.root_id as int) == second.tree_at(second.root_id as int),
{
}

/// Summarize an input: read it into a tree, order its nodes for selection,
/// and render the largest selection that is within the budgets. A strong
/// search over a fileset in which nothing matches gives nothing but a
/// notice.
pub fn summarize(
    input: InputKind,
    config: &RenderConfig,
    priority_cfg: &PriorityConfig,
    grep: &GrepConfig,
    budgets: Budgets,
) -> (r: Result<Summary, HeadsonError>)
    ensures
        summarized(r, input, config, priority_cfg, grep, budgets),
{
    let ghost tree = tree_read(input, priority_cfg, grep);
    let was_fileset = match &input {
        InputKind::Fileset(_) => true,
        _ => false,
    };
    let filters = match &grep.regex {
        Some(_) => !grep.weak && match grep.show {
            GrepShow::Matching => true,
            GrepShow::All => false,
        },
        None => false,
    };
    let actual = match input {
        InputKind::Fileset(files) => {
            if filters {
                match &grep.regex {
                    Some(re) => InputKind::Fileset(keep_matching_files(files, re, priority_cfg)),
                    None => InputKind::Fileset(files),
                }
            } else {
                InputKind::Fileset(files)
            }
        },
        other => other,
    };
    proof {
        assert(input_tree(actual, priority_cfg.array_max_items, sampling_of(priority_cfg)) == tree);
        assert(input is Fileset ==> forall|e: HeadsonError|
            explains(e, actual, priority_cfg.array_max_items, sampling_of(priority_cfg))
                == explains_read(e, input, config, priority_cfg, grep));
        assert(!(input is Fileset) ==> actual == input);
        assert((actual is Fileset) == (input is Fileset));
        assert(was_fileset == (input is Fileset));
    }
    let arena = match ingest_into_arena(actual, priority_cfg) {
        Ok(arena) => arena,
        Err(e) => {
            let named = if was_fileset {
                e
            } else {
                match &config.primary_source_name {
                    Some(name) => e.with_input(name),
                    None => e,
                }
            };
            return Err(named);
        },
    };
    if was_fileset && !grep.weak {
        match &grep.regex {
            Some(re) => {
                if !any_file_matches(&arena, re) {
                    let mut notices: Vec<String> = Vec::new();
                    notices.push("No grep matches found".to_owned());
                    return Ok(Summary { text: String::new(), notices, trace: None });
                }
            },
            None => {},
        }
    }
    let mut order = match build_order(&arena, priority_cfg) {
        Ok(order) => order,
        Err(e) => {
            return Err(e);
        },
    };
    let cfg = wire_highlight(config, grep);
    let ghost base = order;
    proof {
        assert(order.object_type@[0] == crate::order::builder::root_type(&arena));
        let map = choose|map: Seq<usize>| #[trigger] mirrors(&order, &arena, priority_cfg, map);
        assert(mirrors(&base, &arena, priority_cfg, map));
        assert(tree is Some);
        assert(arena.fileset_kinds@ =~= kinds_read(input, priority_cfg, grep));
        assert(built_from(
            &base,
            tree->0,
            input is Fileset,
            kinds_read(input, priority_cfg, grep),
            priority_cfg,
        ));
    }
    rank_for_weak_grep(&mut order, grep);
    let ghost ranked_order = order;
    let text = find_largest_render_under_budgets(&mut order, &cfg, grep, budgets);
    let trace = if config.debug {
        trace_selection(&order, &cfg, grep, budgets)
    } else {
        None
    };
    proof {
        if grep.regex is Some && !grep.weak {
            let re = grep.regex->0;
            assert(pinned_set(&ranked_order, re) =~= pinned_set(&base, re)) by {
                assert forall|x: int| 0 <= x < base.total_nodes implies crate::grep::pinned_at(
                    &ranked_order,
                    re,
                    x,
                ) == crate::grep::pinned_at(&base, re, x) by {
                    lemma_pins_same_tree(&ranked_order, &base, re, x);
                }
            }
        }
        assert(sequenced_for(base.by_priority@, order.by_priority@, &base, grep));
        assert(same_tree(&base, &order));
        assert(ordered_for(
                    &order,
                    tree->0,
                    input is Fileset,
                    kinds_read(input, priority_cfg, grep),
                    priority_cfg,
                    grep,
                ));
        assert(shows(text@, &order, config, grep, budgets));
        assert(traces(trace, &order, config, grep, budgets));
    }
    let summary = Summary { text, notices: Vec::new(), trace };
    assert(summary.notices@.len() == 0);
    assert(shows(summary.text@, &order, config, grep, budgets));
    Ok(summary)
}

/// What the preview of an input is: the text of its summary, which is
/// empty where a strong search over a fileset finds nothing.
pub open spec fn previewed(
    r: Result<String, HeadsonError>,
    input: InputKind,
    config: &RenderConfig,
    priority_cfg: &PriorityConfig,
    grep: &GrepConfig,
    budgets: Budgets,
) -> bool {
    let tree = tree_read(input, priority_cfg, grep);
    match r {
        Ok(text) => {
            &&& tree is Some
            &&& nothing_found(tree->0, input is Fileset, grep) ==> text@.len() == 0
            &&& !nothing_found(tree->0, input is Fileset, grep) ==> exists|order: PriorityOrder|
                ordered_for(
                    &order,
                    tree->0,
                    input is Fileset,
                    kinds_read(input, priority_cfg, grep),
                    priority_cfg,
                    grep,
                ) && #[trigger] shows(
                    text@,
                    &order,
                    config,
                    grep,
                    budgets,
                )
        },
        Err(e) => tree is None && explains_read(e, input, config, priority_cfg, grep),
    }
}

/// The preview of an input: its summary without the notices.
pub fn headson(
    input: InputKind,
    config: &RenderConfig,
    priority_cfg: &PriorityConfig,
    grep: &GrepConfig,
    budgets: Budgets,
) -> (r: Result<String, HeadsonError>)
    ensures
        previewed(r, input, config, priority_cfg, grep, budgets),
{
    let ghost tree = tree_read(input, priority_cfg, grep);
    match summarize(input, config, priority_cfg, grep, budgets) {
        Ok(summary) => {
            let ghost shown = summary.text@;
            proof {
                assert(tree is Some);
                if nothing_found(tree->0, input is Fileset, grep) {
                    assert(summary.notices@.len() == 1);
                    assert(shown.len() == 0);
                } else {
                    assert(summary.notices@.len() == 0);
                    let order = choose|order: PriorityOrder|
                        ordered_for(
                    &order,
                    tree->0,
                    input is Fileset,
                    kinds_read(input, priority_cfg, grep),
                    priority_cfg,
                    grep,
                )
                            && #[trigger] shows(summary.text@, &order, config, grep, budgets)
                            && traces(summary.trace, &order, config, grep, budgets);
                    assert(ordered_for(
                    &order,
                    tree->0,
                    input is Fileset,
                    kinds_read(input, priority_cfg, grep),
                    priority_cfg,
                    grep,
                ));
                    assert(shows(shown, &order, config, grep, budgets));
                }
            }
            let r: Result<String, HeadsonError> = Ok(summary.text);
            assert(r->Ok_0@ == shown);
            assert(previewed(r, input, config, priority_cfg, grep, budgets));
            r
        },
        Err(e) => {
            let r = Err(e);
            assert(previewed(r, input, config, priority_cfg, grep, budgets));
            r
        },
    }
}

} // verus!
