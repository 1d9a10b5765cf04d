use headson::grep::{
    compute_grep_state, matches_ranked, nudge_priority_toward_matches,
    reorder_priority_with_must_keep, GrepConfig, GrepShow, GrepState,
};
use headson::debug::emit_render_debug;
use headson::order::ObjectType;
use headson::pruner::budget::{
    find_largest_render_under_budgets, pick_selection, rank_for_weak_grep, trace_selection,
};
use headson::pruner::budget::{
    add_budgets, constrained_dimensions, effective_budgets_with_grep, include_must_keep,
    include_string_descendants, is_strong_grep, measure_config, measure_must_keep, min_k_for,
    must_keep_slice, next_generation, select_best_k, stats_fit,
};
use headson::serialization::{prepare_render_set_top_k_and_ancestors, render_from_render_set};
use headson::utils::graph::mark_node_and_ancestors;
use headson::utils::measure::OutputStats;
use headson::{
    Budgets, ColorMode, NodeId, NodeKind, OutputTemplate, PriorityOrder, RankedNode, RenderConfig,
    Style,
};

fn config() -> RenderConfig {
    RenderConfig {
        template: OutputTemplate::Json,
        indent_unit: String::new(),
        space: String::new(),
        newline: String::new(),
        prefer_tail_arrays: false,
        color_mode: ColorMode::Off,
        color_enabled: false,
        style: Style::Strict,
        string_free_prefix_graphemes: None,
        debug: false,
        primary_source_name: None,
        show_fileset_headers: true,
        fileset_tree: false,
        count_fileset_headers_in_budgets: false,
        grep_highlight: None,
    }
}

fn leaf(id: usize, key: Option<&str>, kind: NodeKind, token: &str) -> RankedNode {
    RankedNode::AtomicLeaf {
        node_id: NodeId(id),
        key_in_object: key.map(|k| k.to_string()),
        kind,
        token: token.to_string(),
    }
}

/// `{"a": [1, 2], "b": "needle", "c": {"d": true}}`, numbered breadth first.
fn sample_order() -> PriorityOrder {
    let nodes = vec![
        RankedNode::Object { node_id: NodeId(0), key_in_object: None, total: 3 },
        RankedNode::Array { node_id: NodeId(1), key_in_object: Some("a".to_string()), total: 2 },
        leaf(2, Some("b"), NodeKind::String, "needle"),
        RankedNode::Object { node_id: NodeId(3), key_in_object: Some("c".to_string()), total: 1 },
        leaf(4, None, NodeKind::Number, "1"),
        leaf(5, None, NodeKind::Number, "2"),
        leaf(6, Some("d"), NodeKind::Bool, "true"),
    ];
    PriorityOrder {
        nodes,
        by_priority: (0..7).map(NodeId).collect(),
        parent: vec![
            None,
            Some(NodeId(0)),
            Some(NodeId(0)),
            Some(NodeId(0)),
            Some(NodeId(1)),
            Some(NodeId(1)),
            Some(NodeId(3)),
        ],
        children: vec![
            vec![NodeId(1), NodeId(2), NodeId(3)],
            vec![NodeId(4), NodeId(5)],
            vec![],
            vec![NodeId(6)],
            vec![],
            vec![],
            vec![],
        ],
        total_nodes: 7,
        object_type: vec![ObjectType::Object; 7],
        index_in_parent_array: vec![None, None, None, None, Some(0), Some(1), None],
        file_kind: vec![None; 7],
    }
}

fn grep(pattern: &str, weak: bool) -> GrepConfig {
    GrepConfig { regex: Some(regex::Regex::new(pattern).unwrap()), weak, show: GrepShow::Matching }
}

fn marked(flags: &[u32], id: u32) -> Vec<usize> {
    flags.iter().enumerate().filter(|(_, f)| **f == id).map(|(i, _)| i).collect()
}

#[test]
fn marking_a_node_marks_its_ancestors() {
    let order = sample_order();
    let mut flags = vec![0u32; 7];
    mark_node_and_ancestors(&order, NodeId(6), &mut flags, 1);
    assert_eq!(marked(&flags, 1), vec![0, 3, 6]);
    mark_node_and_ancestors(&order, NodeId(5), &mut flags, 1);
    assert_eq!(marked(&flags, 1), vec![0, 1, 3, 5, 6]);
    mark_node_and_ancestors(&order, NodeId(0), &mut flags, 1);
    assert_eq!(marked(&flags, 1), vec![0, 1, 3, 5, 6]);
}

#[test]
fn the_first_k_nodes_come_with_their_ancestors() {
    let mut order = sample_order();
    order.by_priority = vec![NodeId(0), NodeId(6), NodeId(4), NodeId(1), NodeId(2), NodeId(3), NodeId(5)];
    let mut flags = vec![0u32; 7];
    prepare_render_set_top_k_and_ancestors(&order, 2, &mut flags, 3);
    assert_eq!(marked(&flags, 3), vec![0, 3, 6]);
    let mut flags = vec![0u32; 7];
    prepare_render_set_top_k_and_ancestors(&order, 3, &mut flags, 3);
    assert_eq!(marked(&flags, 3), vec![0, 1, 3, 4, 6]);
    let mut flags = vec![0u32; 7];
    prepare_render_set_top_k_and_ancestors(&order, 0, &mut flags, 3);
    assert_eq!(marked(&flags, 3), Vec::<usize>::new());
    let mut flags = vec![0u32; 7];
    prepare_render_set_top_k_and_ancestors(&order, 100, &mut flags, 3);
    assert_eq!(marked(&flags, 3), vec![0, 1, 2, 3, 4, 5, 6]);
    // every marked node has its parent marked
    for k in 0..8 {
        let mut flags = vec![0u32; 7];
        prepare_render_set_top_k_and_ancestors(&order, k, &mut flags, 9);
        for i in marked(&flags, 9) {
            if let Some(p) = order.parent[i] {
                assert_eq!(flags[p.0], 9, "k={k} node={i}");
            }
        }
    }
}

#[test]
fn a_node_matches_by_value_or_by_key() {
    let re = regex::Regex::new("needle").unwrap();
    assert!(matches_ranked(&leaf(0, None, NodeKind::String, "a needle here"), false, &re));
    assert!(!matches_ranked(&leaf(0, None, NodeKind::String, "hay"), false, &re));
    assert!(matches_ranked(&leaf(0, Some("needle"), NodeKind::Number, "1"), false, &re));
    assert!(!matches_ranked(&leaf(0, Some("needle"), NodeKind::Number, "1"), true, &re));
    let object = RankedNode::Object { node_id: NodeId(0), key_in_object: Some("needles".to_string()), total: 0 };
    assert!(matches_ranked(&object, false, &re));
    let split = RankedNode::SplittableLeaf { node_id: NodeId(0), key_in_object: None, value: "xx needle".to_string() };
    assert!(matches_ranked(&split, false, &re));
    let part = RankedNode::LeafPart { node_id: NodeId(0), text: "needle".to_string() };
    assert!(!matches_ranked(&part, false, &re));
}

#[test]
fn the_search_state_pins_matches_and_ancestors() {
    let order = sample_order();
    let state = compute_grep_state(&order, &grep("true", false)).expect("a match");
    assert_eq!(state.must_keep, vec![true, false, false, true, false, false, true]);
    assert_eq!(state.must_keep_count, 3);
    assert!(state.is_enabled());
    let by_key = compute_grep_state(&order, &grep("^a$", false)).expect("a match");
    assert_eq!(by_key.must_keep, vec![true, true, false, false, false, false, false]);
    assert!(compute_grep_state(&order, &grep("absent", false)).is_none());
    assert!(compute_grep_state(&order, &GrepConfig::default()).is_none());
    assert!(!GrepState { must_keep: vec![false], must_keep_count: 0 }.is_enabled());
}

#[test]
fn file_names_do_not_match() {
    let mut order = sample_order();
    order.object_type[0] = ObjectType::Fileset;
    // "b" is now the name of a file whose content is "needle"
    let by_name = compute_grep_state(&order, &grep("^b$", false));
    assert!(by_name.is_none());
    let by_content = compute_grep_state(&order, &grep("needle", false)).expect("content matches");
    assert_eq!(by_content.must_keep_count, 2);
    // keys below a file still match
    let inner = compute_grep_state(&order, &grep("^d$", false)).expect("inner key matches");
    assert_eq!(inner.must_keep, vec![true, false, false, true, false, false, true]);
}

#[test]
fn pinned_nodes_move_to_the_front_in_order() {
    let mut order = sample_order();
    order.by_priority = vec![NodeId(0), NodeId(1), NodeId(2), NodeId(3), NodeId(4), NodeId(5), NodeId(6)];
    let must_keep = vec![true, false, false, true, false, false, true];
    reorder_priority_with_must_keep(&mut order, &must_keep);
    assert_eq!(
        order.by_priority,
        vec![NodeId(0), NodeId(3), NodeId(6), NodeId(1), NodeId(2), NodeId(4), NodeId(5)]
    );
    // a short pin vector pins nothing beyond its end
    let mut order = sample_order();
    reorder_priority_with_must_keep(&mut order, &vec![false, true]);
    assert_eq!(order.by_priority[0], NodeId(1));
    assert_eq!(order.by_priority[1], NodeId(0));
    assert_eq!(order.by_priority.len(), 7);
}

#[test]
fn a_weak_search_nudges_pinned_nodes_forward() {
    let mut nodes = vec![RankedNode::Array { node_id: NodeId(0), key_in_object: None, total: 11 }];
    for i in 1..12 {
        nodes.push(leaf(i, None, NodeKind::Number, &i.to_string()));
    }
    let mut order = PriorityOrder {
        nodes,
        by_priority: (0..12).map(NodeId).collect(),
        parent: std::iter::once(None).chain((1..12).map(|_| Some(NodeId(0)))).collect(),
        children: std::iter::once((1..12).map(NodeId).collect())
            .chain((1..12).map(|_| Vec::new()))
            .collect(),
        total_nodes: 12,
        object_type: vec![ObjectType::Object; 12],
        index_in_parent_array: std::iter::once(None).chain((0..11).map(Some)).collect(),
        file_kind: vec![None; 12],
    };
    let mut must_keep = vec![false; 12];
    must_keep[0] = true;
    must_keep[10] = true;
    nudge_priority_toward_matches(&mut order, &must_keep);
    // node 10 moves from place 10 to place 2, behind what holds that place
    let ids: Vec<usize> = order.by_priority.iter().map(|n| n.0).collect();
    assert_eq!(ids, vec![0, 1, 2, 10, 3, 4, 5, 6, 7, 8, 9, 11]);
}

#[test]
fn pinned_nodes_are_included_with_the_parts_of_split_strings() {
    let nodes = vec![
        RankedNode::Array { node_id: NodeId(0), key_in_object: None, total: 2 },
        RankedNode::SplittableLeaf { node_id: NodeId(1), key_in_object: None, value: "abc".to_string() },
        leaf(2, None, NodeKind::Number, "7"),
        RankedNode::LeafPart { node_id: NodeId(3), text: "a".to_string() },
        RankedNode::LeafPart { node_id: NodeId(4), text: "b".to_string() },
        RankedNode::LeafPart { node_id: NodeId(5), text: "c".to_string() },
    ];
    let order = PriorityOrder {
        nodes,
        by_priority: (0..6).map(NodeId).collect(),
        parent: vec![None, Some(NodeId(0)), Some(NodeId(0)), Some(NodeId(1)), Some(NodeId(1)), Some(NodeId(1))],
        children: vec![vec![NodeId(1), NodeId(2)], vec![NodeId(3), NodeId(4), NodeId(5)], vec![], vec![], vec![], vec![]],
        total_nodes: 6,
        object_type: vec![ObjectType::Object; 6],
        index_in_parent_array: vec![None, Some(0), Some(1), None, None, None],
        file_kind: vec![None; 6],
    };
    let mut flags = vec![0u32; 6];
    include_string_descendants(&order, 1, &mut flags, 1);
    assert_eq!(marked(&flags, 1), vec![3, 4, 5]);

    let mut flags = vec![0u32; 6];
    include_must_keep(&order, &mut flags, 1, &vec![false, true, false, false, false, false]);
    assert_eq!(marked(&flags, 1), vec![0, 1, 3, 4, 5]);

    let mut flags = vec![0u32; 6];
    include_must_keep(&order, &mut flags, 1, &vec![false, false, true]);
    assert_eq!(marked(&flags, 1), vec![0, 2]);

    // a string shows a prefix while parts are missing, and its value when none is
    let cfg = config();
    let mut flags = vec![0u32; 6];
    prepare_render_set_top_k_and_ancestors(&order, 5, &mut flags, 2);
    assert_eq!(render_from_render_set(&order, &flags, 2, &cfg), "[\"ab\u{2026}\",7]");
    let mut flags = vec![0u32; 6];
    prepare_render_set_top_k_and_ancestors(&order, 6, &mut flags, 2);
    assert_eq!(render_from_render_set(&order, &flags, 2, &cfg), "[\"abc\",7]");
    let stats = measure_must_keep(&order, &cfg, &vec![false, true], true);
    assert_eq!(stats, OutputStats { bytes: 7, chars: 7, lines: 1 });
}

#[test]
fn budgets_add_up_and_saturate() {
    let budgets = Budgets { byte_budget: Some(10), char_budget: None, line_budget: Some(usize::MAX - 1) };
    let sum = add_budgets(budgets, OutputStats { bytes: 5, chars: 7, lines: 3 });
    assert_eq!(sum, Budgets { byte_budget: Some(15), char_budget: None, line_budget: Some(usize::MAX) });
    assert_eq!(Budgets::default(), Budgets { byte_budget: None, char_budget: None, line_budget: None });
}

#[test]
fn statistics_fit_when_within_every_cap() {
    let stats = OutputStats { bytes: 10, chars: 8, lines: 2 };
    assert!(stats_fit(&stats, Budgets::default()));
    assert!(stats_fit(&stats, Budgets { byte_budget: Some(10), char_budget: Some(8), line_budget: Some(2) }));
    assert!(!stats_fit(&stats, Budgets { byte_budget: Some(9), char_budget: None, line_budget: None }));
    assert!(!stats_fit(&stats, Budgets { byte_budget: None, char_budget: Some(7), line_budget: None }));
    assert!(!stats_fit(&stats, Budgets { byte_budget: None, char_budget: None, line_budget: Some(1) }));
}

#[test]
fn the_dimensions_that_bind_are_named_in_order() {
    let stats = OutputStats { bytes: 10, chars: 8, lines: 2 };
    let all = Budgets { byte_budget: Some(10), char_budget: Some(3), line_budget: Some(2) };
    assert_eq!(constrained_dimensions(all, &stats), vec!["bytes", "chars", "lines"]);
    let some = Budgets { byte_budget: Some(11), char_budget: None, line_budget: Some(1) };
    assert_eq!(constrained_dimensions(some, &stats), vec!["lines"]);
    assert!(constrained_dimensions(Budgets::default(), &stats).is_empty());
}

#[test]
fn measuring_switches_color_off_and_frees_fileset_headers() {
    let mut cfg = config();
    cfg.color_enabled = true;
    let order = sample_order();
    let measured = measure_config(&order, &cfg);
    assert!(!measured.color_enabled);
    assert!(measured.show_fileset_headers);

    let mut fileset = sample_order();
    fileset.object_type[0] = ObjectType::Fileset;
    assert!(!measure_config(&fileset, &cfg).show_fileset_headers);
    cfg.count_fileset_headers_in_budgets = true;
    assert!(measure_config(&fileset, &cfg).show_fileset_headers);
    cfg.show_fileset_headers = false;
    assert!(!measure_config(&fileset, &cfg).show_fileset_headers);
}

#[test]
fn the_selector_finds_the_largest_k_that_fits() {
    let order = sample_order();
    let cfg = config();
    // k: 1 `{}` 2 `{"a":[]}` 3 `{"a":[],"b":"needle"}` 4 `..,"c":{}}` 5 `{"a":[1],..` ...
    let full = r#"{"a":[1,2],"b":"needle","c":{"d":true}}"#;
    let cases = [(1, None), (2, Some(1)), (8, Some(2)), (21, Some(3)), (28, Some(4)), (29, Some(5)), (full.len(), Some(7))];
    for (cap, expected) in cases {
        let budgets = Budgets { byte_budget: Some(cap), char_budget: None, line_budget: None };
        let (best, flags, id) = select_best_k(&order, &cfg, budgets, 1, None);
        assert_eq!(best, expected, "cap={cap}");
        assert_eq!(flags.len(), 7);
        assert!(flags.iter().all(|f| *f != id));
    }
    let (best, _, _) = select_best_k(&order, &cfg, Budgets::default(), 1, None);
    assert_eq!(best, Some(7));
    // the floor of the search is honoured
    let budgets = Budgets { byte_budget: Some(21), char_budget: None, line_budget: None };
    let (best, _, _) = select_best_k(&order, &cfg, budgets, 4, None);
    assert_eq!(best, None);
}

#[test]
fn a_strong_search_raises_the_budgets_by_the_cost_of_its_matches() {
    let order = sample_order();
    let cfg = config();
    let strong = grep("true", false);
    let state = compute_grep_state(&order, &strong);
    assert!(is_strong_grep(&strong, &state));
    assert_eq!(min_k_for(&state, &strong), 3);
    assert_eq!(must_keep_slice(&state, &strong).map(|s| s.len()), Some(7));
    let budgets = Budgets { byte_budget: Some(5), char_budget: Some(1), line_budget: None };
    // the matches alone: {"c":{"d":true}}
    let effective = effective_budgets_with_grep(&order, &cfg, &strong, budgets, &state);
    assert_eq!(effective, Budgets { byte_budget: Some(5 + 16), char_budget: Some(1 + 16), line_budget: None });

    let weak = grep("true", true);
    let weak_state = compute_grep_state(&order, &weak);
    assert!(!is_strong_grep(&weak, &weak_state));
    assert_eq!(min_k_for(&weak_state, &weak), 1);
    assert!(must_keep_slice(&weak_state, &weak).is_none());
    assert_eq!(effective_budgets_with_grep(&order, &cfg, &weak, budgets, &weak_state), budgets);
    assert_eq!(min_k_for(&None, &strong), 1);
}

#[test]
fn a_spent_generation_counter_starts_over() {
    let mut flags = vec![3u32, 0, 7];
    assert_eq!(next_generation(&mut flags, 7), 8);
    assert_eq!(flags, vec![3, 0, 7]);
    let mut flags = vec![u32::MAX, 5, 0];
    assert_eq!(next_generation(&mut flags, u32::MAX), 1);
    assert_eq!(flags, vec![0, 0, 0]);
}

#[test]
fn the_trace_records_the_selection() {
    let order = sample_order();
    let mut flags = vec![0u32; 7];
    prepare_render_set_top_k_and_ancestors(&order, 4, &mut flags, 1);
    let budgets = Budgets { byte_budget: Some(28), char_budget: None, line_budget: None };
    let trace = emit_render_debug(&order, &flags, 1, budgets, 4);
    assert_eq!(
        trace,
        concat_all(&[
            r#"{"k":4,"total_nodes":7,"counts":{"included":4},"bytes":28,"chars":null,"lines":null,"root":"#,
            r#"{"id":0,"kind":"object","fileset_root":false,"metrics":{"object_len":3},"children":["#,
            r#"{"id":1,"kind":"array","fileset_root":false,"metrics":{"array_len":2},"children":[],"omitted":2},"#,
            r#"{"id":2,"kind":"leaf","fileset_root":false,"metrics":{},"children":[],"omitted":0},"#,
            r#"{"id":3,"kind":"object","fileset_root":false,"metrics":{"object_len":1},"children":[],"omitted":1}"#,
            r#"],"omitted":0}}"#,
        ])
    );
    let nothing = emit_render_debug(&order, &vec![0u32; 7], 1, Budgets::default(), 0);
    assert_eq!(
        nothing,
        r#"{"k":0,"total_nodes":7,"counts":{"included":0},"bytes":null,"chars":null,"lines":null,"root":null}"#
    );
}

fn concat_all(parts: &[&str]) -> String {
    parts.join("")
}

#[test]
fn the_selection_that_is_shown_is_the_one_that_is_traced() {
    let order = sample_order();
    let cfg = config();
    let none = GrepConfig::default();
    let budgets = Budgets { byte_budget: Some(21), char_budget: None, line_budget: None };
    let (k, flags, id) = pick_selection(&order, &cfg, &none, budgets, &None).expect("something fits");
    assert_eq!(k, 3);
    assert_eq!(marked(&flags, id), vec![0, 1, 2]);
    assert_eq!(render_from_render_set(&order, &flags, id, &cfg), r#"{"a":[],"b":"needle"}"#);
    let trace = trace_selection(&order, &cfg, &none, budgets).expect("a trace");
    assert!(trace.starts_with(r#"{"k":3,"total_nodes":7,"counts":{"included":3},"bytes":21,"#), "{trace}");
    let zero = Budgets { byte_budget: Some(0), char_budget: None, line_budget: None };
    assert!(pick_selection(&order, &cfg, &none, zero, &None).is_none());
    assert!(trace_selection(&order, &cfg, &none, zero).is_none());
}

fn string_and_number() -> PriorityOrder {
    PriorityOrder {
        nodes: vec![
            RankedNode::Array { node_id: NodeId(0), key_in_object: None, total: 2 },
            RankedNode::SplittableLeaf { node_id: NodeId(1), key_in_object: None, value: "abc".to_string() },
            leaf(2, None, NodeKind::Number, "7"),
            RankedNode::LeafPart { node_id: NodeId(3), text: "a".to_string() },
            RankedNode::LeafPart { node_id: NodeId(4), text: "b".to_string() },
            RankedNode::LeafPart { node_id: NodeId(5), text: "c".to_string() },
        ],
        by_priority: (0..6).map(NodeId).collect(),
        parent: vec![None, Some(NodeId(0)), Some(NodeId(0)), Some(NodeId(1)), Some(NodeId(1)), Some(NodeId(1))],
        children: vec![vec![NodeId(1), NodeId(2)], vec![NodeId(3), NodeId(4), NodeId(5)], vec![], vec![], vec![], vec![]],
        total_nodes: 6,
        object_type: vec![ObjectType::Object; 6],
        index_in_parent_array: vec![None, Some(0), Some(1), None, None, None],
        file_kind: vec![None; 6],
    }
}

#[test]
fn the_parts_of_a_matching_string_are_pinned_with_it() {
    let order = string_and_number();
    let state = compute_grep_state(&order, &grep("b", false)).unwrap();
    assert_eq!(state.must_keep, vec![true, true, false, true, true, true]);
    assert_eq!(state.must_keep_count, 5);
    // a match elsewhere pins no part
    let state = compute_grep_state(&order, &grep("7", false)).unwrap();
    assert_eq!(state.must_keep, vec![true, false, true, false, false, false]);
    assert_eq!(state.must_keep_count, 2);
}

#[test]
fn selection_moves_the_sequence_for_a_strong_search_only() {
    let cfg = config();
    let wide = Budgets { byte_budget: Some(1000), char_budget: None, line_budget: None };
    let sequence = |order: &PriorityOrder| -> Vec<usize> { order.by_priority.iter().map(|n| n.0).collect() };

    let mut order = string_and_number();
    let out = find_largest_render_under_budgets(&mut order, &cfg, &grep("7", true), wide);
    assert_eq!(sequence(&order), vec![0, 1, 2, 3, 4, 5]);
    assert_eq!(out, "[\"abc\",7]");

    let mut order = string_and_number();
    rank_for_weak_grep(&mut order, &grep("7", false));
    assert_eq!(sequence(&order), vec![0, 1, 2, 3, 4, 5]);
    rank_for_weak_grep(&mut order, &grep("7", true));
    assert_eq!(sequence(&order), vec![0, 2, 1, 3, 4, 5]);
    rank_for_weak_grep(&mut order, &grep("nothing", true));
    assert_eq!(sequence(&order), vec![0, 2, 1, 3, 4, 5]);

    let mut order = string_and_number();
    find_largest_render_under_budgets(&mut order, &cfg, &grep("7", false), wide);
    assert_eq!(sequence(&order), vec![0, 2, 1, 3, 4, 5]);

    let mut order = string_and_number();
    find_largest_render_under_budgets(&mut order, &cfg, &grep("nothing", false), wide);
    assert_eq!(sequence(&order), vec![0, 1, 2, 3, 4, 5]);
}
