use headson::ingest::fileset::{FilesetInput, FilesetInputKind};
use headson::ingest::ingest_into_arena;
use headson::order::builder::build_order;
use headson::order::sort::sort_by_keys;
use headson::order::{ObjectType, ROOT_PQ_ID};
use headson::{
    ArraySamplerStrategy, InputKind, NodeId, NodeKind, PriorityConfig, PriorityOrder, RankedNode,
    TextMode,
};

fn order_of(input: InputKind, cfg: &PriorityConfig) -> PriorityOrder {
    let arena = ingest_into_arena(input, cfg).unwrap();
    build_order(&arena, cfg).unwrap()
}

fn label(order: &PriorityOrder, id: usize) -> String {
    match &order.nodes[id] {
        RankedNode::Array { key_in_object, .. } => format!("{}[]", key_in_object.clone().unwrap_or_default()),
        RankedNode::Object { key_in_object, .. } => format!("{}{{}}", key_in_object.clone().unwrap_or_default()),
        RankedNode::SplittableLeaf { value, .. } => format!("~{value}"),
        RankedNode::AtomicLeaf { token, .. } => token.clone(),
        RankedNode::LeafPart { text, .. } => format!("'{text}'"),
    }
}

fn sequence(order: &PriorityOrder) -> Vec<String> {
    order.by_priority.iter().map(|id| label(order, id.0)).collect()
}

fn assert_well_formed(order: &PriorityOrder) {
    let n = order.total_nodes;
    assert_eq!(order.nodes.len(), n);
    assert_eq!(order.parent.len(), n);
    assert_eq!(order.children.len(), n);
    assert_eq!(order.by_priority.len(), n);
    let mut seen = vec![false; n];
    for id in &order.by_priority {
        assert!(!seen[id.0]);
        seen[id.0] = true;
    }
    for (i, p) in order.parent.iter().enumerate() {
        match p {
            Some(p) => {
                assert!(p.0 < i);
                assert!(order.children[p.0].contains(&NodeId(i)));
            }
            None => assert_eq!(i, ROOT_PQ_ID),
        }
    }
    // ancestors come before their descendants
    let mut place = vec![0; n];
    for (pos, id) in order.by_priority.iter().enumerate() {
        place[id.0] = pos;
    }
    for i in 0..n {
        if let Some(p) = order.parent[i] {
            assert!(place[p.0] < place[i], "parent of {i} comes later");
        }
    }
}

#[test]
fn nodes_are_numbered_breadth_first() {
    let cfg = PriorityConfig::new(500, 100);
    let order = order_of(InputKind::Json(br#"{"a":[1,2],"b":"x","c":{"d":true}}"#.to_vec()), &cfg);
    assert_well_formed(&order);
    let labels: Vec<String> = (0..order.total_nodes).map(|i| label(&order, i)).collect();
    assert_eq!(labels, vec!["{}", "a[]", "x", "c{}", "1", "2", "true"]);
    assert_eq!(order.object_type[ROOT_PQ_ID], ObjectType::Object);
    assert_eq!(order.index_in_parent_array, vec![None, None, None, None, Some(0), Some(1), None]);
    match &order.nodes[2] {
        RankedNode::AtomicLeaf { kind, key_in_object, .. } => {
            assert_eq!(*kind, NodeKind::String);
            assert_eq!(key_in_object.as_deref(), Some("b"));
        }
        other => panic!("{other:?}"),
    }
    match &order.nodes[1] {
        RankedNode::Array { total, .. } => assert_eq!(*total, 2),
        other => panic!("{other:?}"),
    }
}

#[test]
fn ranks_weigh_breadth_against_depth() {
    let cfg = PriorityConfig::new(500, 100);
    // ranks: a 1, b 2, c 3; a's items 2 and 3; c's entry 4
    let order = order_of(InputKind::Json(br#"{"a":[1,2],"b":"x","c":{"d":true}}"#.to_vec()), &cfg);
    assert_eq!(sequence(&order), vec!["{}", "a[]", "x", "1", "c{}", "2", "true"]);
}

#[test]
fn arrays_that_favour_their_end_rank_it_first() {
    let mut cfg = PriorityConfig::new(500, 100);
    cfg.array_sampler = ArraySamplerStrategy::Tail;
    let order = order_of(InputKind::Json(b"[1,2,3]".to_vec()), &cfg);
    assert_well_formed(&order);
    assert_eq!(sequence(&order), vec!["[]", "3", "2", "1"]);
    let mut cfg = PriorityConfig::new(500, 100);
    cfg.prefer_tail_arrays = true;
    let order = order_of(InputKind::Json(b"[1,2,3]".to_vec()), &cfg);
    assert_eq!(sequence(&order), vec!["[]", "3", "2", "1"]);
}

#[test]
fn sampled_items_keep_their_indices() {
    let cfg = PriorityConfig::new(500, 4);
    let order = order_of(InputKind::Json(b"[0,1,2,3,4,5,6,7,8,9]".to_vec()), &cfg);
    assert_eq!(order.index_in_parent_array, vec![None, Some(0), Some(1), Some(5), Some(9)]);
    match &order.nodes[0] {
        RankedNode::Array { total, .. } => assert_eq!(*total, 10),
        other => panic!("{other:?}"),
    }
}

#[test]
fn long_strings_are_split_into_their_characters() {
    let cfg = PriorityConfig::new(3, 100);
    // four user-perceived characters, the second of two scalar values
    let order = order_of(InputKind::Json("[\"ae\u{301}io\", \"abc\"]".as_bytes().to_vec()), &cfg);
    assert_well_formed(&order);
    let labels: Vec<String> = (0..order.total_nodes).map(|i| label(&order, i)).collect();
    assert_eq!(labels, vec!["[]", "~ae\u{301}io", "abc", "'a'", "'e\u{301}'", "'i'"]);
    assert_eq!(order.children[1], vec![NodeId(3), NodeId(4), NodeId(5)]);
    assert_eq!(sequence(&order), vec!["[]", "~ae\u{301}io", "abc", "'a'", "'e\u{301}'", "'i'"]);
}

#[test]
fn code_lines_are_never_split() {
    let cfg = PriorityConfig::new(3, 100);
    let order = order_of(InputKind::Text { bytes: b"a long line\n".to_vec(), mode: TextMode::CodeLike }, &cfg);
    assert_eq!(order.total_nodes, 2);
    assert!(matches!(order.nodes[1], RankedNode::AtomicLeaf { .. }));
    let plain = order_of(InputKind::Text { bytes: b"a long line\n".to_vec(), mode: TextMode::Plain }, &cfg);
    assert!(matches!(plain.nodes[1], RankedNode::SplittableLeaf { .. }));
    assert_eq!(plain.total_nodes, 5);
}

#[test]
fn the_files_of_a_fileset_take_turns() {
    let cfg = PriorityConfig::new(500, 100);
    let files = vec![
        FilesetInput { name: "a.txt".to_string(), bytes: b"a1\na2\na3\n".to_vec(), kind: FilesetInputKind::Text { atomic_lines: false } },
        FilesetInput { name: "b.txt".to_string(), bytes: b"b1\n".to_vec(), kind: FilesetInputKind::Text { atomic_lines: false } },
        FilesetInput { name: "c.json".to_string(), bytes: br#"{"k":[1]}"#.to_vec(), kind: FilesetInputKind::Json },
    ];
    let order = order_of(InputKind::Fileset(files), &cfg);
    assert_well_formed(&order);
    assert_eq!(order.object_type[ROOT_PQ_ID], ObjectType::Fileset);
    assert_eq!(
        sequence(&order),
        vec!["{}", "a.txt[]", "b.txt[]", "c.json{}", "a1", "b1", "k[]", "a2", "1", "a3"]
    );
    assert_eq!(order.file_kind[1], Some(FilesetInputKind::Text { atomic_lines: false }));
    assert_eq!(order.file_kind[3], Some(FilesetInputKind::Json));
    assert_eq!(order.file_kind[4], None);
}

#[test]
fn sorting_by_keys_is_stable() {
    let keys = vec![3, 1, 2, 1, 3, 0];
    let ids: Vec<NodeId> = (0..6).map(NodeId).collect();
    let sorted: Vec<usize> = sort_by_keys(ids, &keys).iter().map(|n| n.0).collect();
    assert_eq!(sorted, vec![5, 1, 3, 2, 0, 4]);
    assert!(sort_by_keys(Vec::new(), &keys).is_empty());
}
