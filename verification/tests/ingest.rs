use headson::ingest::fileset::{FilesetInput, FilesetInputKind};
use headson::ingest::json::{build_json, JsonValue};
use headson::ingest::sampling::{push_sampled_array, sample_position, sampling_for, Sampling};
use headson::ingest::text::split_lines;
use headson::ingest::yaml::{
    build_yaml_tree_arena_from_bytes, build_yaml_tree_arena_from_many, int_to_string,
    parse_yaml_many, parse_yaml_one, stringify_yaml_key, YamlArenaBuilder, YamlIngest, YamlValue,
};
use headson::ingest::{file_stays, ingest_into_arena, keep_matching_files, Ingest};
use headson::utils::tree_arena::{JsonTreeArena, JsonTreeNode};
use headson::{
    ArrayBias, ArraySamplerStrategy, HeadsonError, IngestFailure, InputKind, NodeKind,
    PriorityConfig, TextMode,
};

fn prio(cap: usize) -> PriorityConfig {
    PriorityConfig::new(500, cap)
}

fn children(arena: &JsonTreeArena, id: usize) -> Vec<usize> {
    let n = &arena.nodes[id];
    arena.children[n.children_start..n.children_start + n.children_len].to_vec()
}

fn keys(arena: &JsonTreeArena, id: usize) -> Vec<String> {
    let n = &arena.nodes[id];
    arena.obj_keys[n.obj_keys_start..n.obj_keys_start + n.obj_keys_len].to_vec()
}

fn indices(arena: &JsonTreeArena, id: usize) -> Vec<usize> {
    let n = &arena.nodes[id];
    arena.arr_indices[n.arr_indices_start..n.arr_indices_start + n.arr_indices_len].to_vec()
}

/// The tree below a node, written out.
fn show(arena: &JsonTreeArena, id: usize) -> String {
    let n = &arena.nodes[id];
    match n.kind {
        NodeKind::Array => {
            let items: Vec<String> = children(arena, id).iter().map(|c| show(arena, *c)).collect();
            format!("[{}]/{}", items.join(","), n.array_len.unwrap())
        }
        NodeKind::Object => {
            let items: Vec<String> = keys(arena, id)
                .iter()
                .zip(children(arena, id))
                .map(|(k, c)| format!("{k}={}", show(arena, c)))
                .collect();
            format!("{{{}}}", items.join(","))
        }
        kind => match (&n.string_value, &n.atomic_token) {
            (Some(v), _) => format!("{kind:?}:{v:?}"),
            (None, Some(t)) => format!("{kind:?}#{t}"),
            (None, None) => format!("{kind:?}"),
        },
    }
}

#[test]
fn hash_keys_become_strings() {
    assert_eq!(stringify_yaml_key(&YamlValue::String("name".to_string())), "name");
    assert_eq!(stringify_yaml_key(&YamlValue::Real("1.5".to_string())), "1.5");
    assert_eq!(stringify_yaml_key(&YamlValue::Integer(-42)), "-42");
    assert_eq!(stringify_yaml_key(&YamlValue::Integer(0)), "0");
    assert_eq!(stringify_yaml_key(&YamlValue::Integer(i64::MIN)), "-9223372036854775808");
    assert_eq!(stringify_yaml_key(&YamlValue::Integer(i64::MAX)), "9223372036854775807");
    assert_eq!(stringify_yaml_key(&YamlValue::Boolean(true)), "true");
    assert_eq!(stringify_yaml_key(&YamlValue::Boolean(false)), "false");
    assert_eq!(stringify_yaml_key(&YamlValue::Null), "null");
    assert_eq!(stringify_yaml_key(&YamlValue::BadValue), "null");
    assert_eq!(stringify_yaml_key(&YamlValue::Array(vec![])), "<complex>");
    assert_eq!(stringify_yaml_key(&YamlValue::Hash(vec![])), "<complex>");
    assert_eq!(stringify_yaml_key(&YamlValue::Alias(3)), "<complex>");
    assert_eq!(int_to_string(1234567890), "1234567890");
}

#[test]
fn the_builder_adds_nodes_after_their_children() {
    let mut b = YamlArenaBuilder::new(2);
    assert_eq!(b.array_cap, 2);
    let blank = b.push_default();
    assert_eq!(blank, 0);
    assert_eq!(b.arena.nodes[0].kind, NodeKind::Null);
    assert_eq!(b.arena.nodes[0].children_len, 0);
    let one = b.push_scalar(NodeKind::Number, Some("1".to_string()), None);
    let two = b.push_scalar(NodeKind::Number, Some("2".to_string()), None);
    let three = b.push_scalar(NodeKind::String, None, Some("three".to_string()));
    let array = b.push_array(vec![one, two, three], 3);
    assert_eq!(array, 4);
    let n = &b.arena.nodes[array];
    assert_eq!((n.kind, n.children_len, n.array_len, n.arr_indices_len), (NodeKind::Array, 2, Some(3), 0));
    assert_eq!(children(&b.arena, array), vec![one, two]);
    let object = b.push_object_root(vec!["a".to_string(), "b".to_string(), "extra".to_string()], vec![array, three]);
    let arena = b.finish();
    let n = &arena.nodes[object];
    assert_eq!((n.kind, n.children_len, n.obj_keys_len, n.object_len), (NodeKind::Object, 2, 2, Some(2)));
    assert_eq!(keys(&arena, object), vec!["a", "b"]);
    assert_eq!(show(&arena, object), "{a=[Number#1,Number#2]/3,b=String:\"three\"}");
}

#[test]
fn finishing_a_container_sets_its_slices() {
    let mut b = YamlArenaBuilder::new(10);
    let a = b.push_scalar(NodeKind::Bool, Some("true".to_string()), None);
    let id = b.push_default();
    b.finish_array(id, 1, 5, vec![a]);
    let n = b.arena.nodes[id].clone();
    assert_eq!((n.kind, n.children_start, n.children_len, n.array_len), (NodeKind::Array, 0, 1, Some(5)));
    let id2 = b.push_default();
    b.finish_object(id2, 1, vec![id], vec!["k".to_string()]);
    let n = b.arena.nodes[id2].clone();
    assert_eq!(
        (n.kind, n.children_start, n.children_len, n.obj_keys_start, n.obj_keys_len, n.object_len),
        (NodeKind::Object, 1, 1, 0, 1, Some(1))
    );
    assert_eq!(JsonTreeNode::default().kind, NodeKind::Null);
    assert_eq!(JsonTreeArena::default().nodes.len(), 0);
}

#[test]
fn a_yaml_value_is_built_variant_by_variant() {
    let value = YamlValue::Hash(vec![
        (YamlValue::String("s".to_string()), YamlValue::String("text".to_string())),
        (YamlValue::Integer(7), YamlValue::Integer(-3)),
        (YamlValue::Boolean(true), YamlValue::Real("2.50".to_string())),
        (YamlValue::Null, YamlValue::Boolean(false)),
        (YamlValue::Array(vec![]), YamlValue::Null),
        (YamlValue::String("bad".to_string()), YamlValue::BadValue),
        (YamlValue::String("alias".to_string()), YamlValue::Alias(1)),
        (
            YamlValue::String("list".to_string()),
            YamlValue::Array(vec![YamlValue::Integer(1), YamlValue::Integer(2), YamlValue::Integer(3)]),
        ),
    ]);
    let mut b = YamlArenaBuilder::new(2);
    let root = b.build(&value);
    let arena = b.finish();
    assert_eq!(root, arena.nodes.len() - 1);
    assert_eq!(
        show(&arena, root),
        "{s=String:\"text\",7=Number#-3,true=Number#2.50,null=Bool#false,<complex>=Null#null,\
         bad=Null#null,alias=String:\"*alias\",list=[Number#1,Number#2]/3}"
    );
}

#[test]
fn yaml_bytes_become_an_arena() {
    let arena = build_yaml_tree_arena_from_bytes(b"a: 1\nb: [x, y, z]\n".to_vec(), &prio(2)).unwrap();
    assert!(!arena.is_fileset);
    assert_eq!(show(&arena, arena.root_id), "{a=Number#1,b=[String:\"x\",String:\"y\"]/3}");

    let empty = build_yaml_tree_arena_from_bytes(Vec::new(), &prio(2)).unwrap();
    assert_eq!(show(&empty, empty.root_id), "[]/0");

    let multi = parse_yaml_one(b"---\na: 1\n---\nb: 2\n---\nc: 3\n".to_vec(), &prio(2)).unwrap();
    assert_eq!(show(&multi, multi.root_id), "[{a=Number#1},{b=Number#2}]/3");

    let anchors = YamlIngest::parse_one(b"base: &b 1\nref: *b\n".to_vec(), &prio(5)).unwrap();
    assert!(show(&anchors, anchors.root_id).starts_with("{base=Number#1,ref="));
}

#[test]
fn yaml_that_cannot_be_read_fails() {
    assert_eq!(
        build_yaml_tree_arena_from_bytes(vec![0xff, 0xfe], &prio(2)).err(),
        Some(HeadsonError::IngestFailed(IngestFailure::InvalidUtf8))
    );
    assert_eq!(
        parse_yaml_one(b"a: [1, 2".to_vec(), &prio(2)).err(),
        Some(HeadsonError::IngestFailed(IngestFailure::Syntax))
    );
}

#[test]
fn many_yaml_inputs_become_a_fileset() {
    let inputs = vec![
        ("one.yaml".to_string(), b"a: 1\n".to_vec()),
        ("two.yaml".to_string(), b"- x\n- y\n".to_vec()),
    ];
    let arena = build_yaml_tree_arena_from_many(inputs.clone(), &prio(5)).unwrap();
    assert!(arena.is_fileset);
    assert_eq!(arena.fileset_kinds, vec![FilesetInputKind::Yaml, FilesetInputKind::Yaml]);
    assert_eq!(show(&arena, arena.root_id), "{one.yaml={a=Number#1},two.yaml=[String:\"x\",String:\"y\"]/2}");
    let again = parse_yaml_many(inputs.clone(), &prio(5)).unwrap();
    assert_eq!(show(&again, again.root_id), show(&arena, arena.root_id));
    let third = YamlIngest::parse_many(inputs, &prio(5)).unwrap();
    assert_eq!(show(&third, third.root_id), show(&arena, arena.root_id));

    let bad = vec![
        ("ok.yaml".to_string(), b"a: 1\n".to_vec()),
        ("broken.yaml".to_string(), b"a: [".to_vec()),
        ("binary.yaml".to_string(), vec![0xff]),
    ];
    assert_eq!(
        parse_yaml_many(bad, &prio(5)).err(),
        Some(HeadsonError::InputFailed { input: "broken.yaml".to_string(), failure: IngestFailure::Syntax })
    );
}

#[test]
fn sampling_keeps_the_start_the_middle_and_the_end() {
    let picks = |plan, total, kept| -> Vec<usize> { (0..kept).map(|j| sample_position(plan, j, total, kept)).collect() };
    assert_eq!(picks(Sampling::Head, 10, 4), vec![0, 1, 2, 3]);
    assert_eq!(picks(Sampling::Tail, 10, 4), vec![6, 7, 8, 9]);
    assert_eq!(picks(Sampling::HeadMidTail, 10, 4), vec![0, 1, 5, 9]);
    assert_eq!(picks(Sampling::HeadMidTail, 100, 7), vec![0, 1, 2, 49, 50, 98, 99]);
    assert_eq!(picks(Sampling::HeadMidTail, 10, 1), vec![0]);
    assert_eq!(picks(Sampling::HeadMidTail, 10, 2), vec![0, 5]);
    assert_eq!(picks(Sampling::HeadMidTail, 10, 3), vec![0, 4, 9]);
    assert_eq!(picks(Sampling::HeadMidTail, 5, 5), vec![0, 1, 2, 3, 4]);
    assert_eq!(picks(Sampling::Tail, 5, 5), vec![0, 1, 2, 3, 4]);
}

#[test]
fn the_sampler_decides_before_the_bias() {
    let mut cfg = prio(3);
    assert_eq!(sampling_for(&cfg), Sampling::HeadMidTail);
    cfg.array_bias = ArrayBias::Head;
    assert_eq!(sampling_for(&cfg), Sampling::Head);
    cfg.array_sampler = ArraySamplerStrategy::Tail;
    assert_eq!(sampling_for(&cfg), Sampling::Tail);
    cfg.array_bias = ArrayBias::HeadMidTail;
    cfg.array_sampler = ArraySamplerStrategy::Head;
    assert_eq!(sampling_for(&cfg), Sampling::Head);
}

#[test]
fn a_json_array_is_sampled_with_its_indices() {
    let value = JsonValue::Array((0..10).map(|i| JsonValue::Number(i.to_string())).collect());
    let mut b = YamlArenaBuilder::new(4);
    let root = build_json(&mut b, &value, Sampling::HeadMidTail);
    let arena = b.finish();
    assert_eq!(show(&arena, root), "[Number#0,Number#1,Number#5,Number#9]/10");
    assert_eq!(indices(&arena, root), vec![0, 1, 5, 9]);

    let mut b = YamlArenaBuilder::new(4);
    let root = build_json(&mut b, &value, Sampling::Head);
    assert_eq!(show(&b.arena, root), "[Number#0,Number#1,Number#2,Number#3]/10");
    assert!(indices(&b.arena, root).is_empty());

    let mut b = YamlArenaBuilder::new(20);
    let root = build_json(&mut b, &value, Sampling::Tail);
    assert_eq!(b.arena.nodes[root].children_len, 10);
    assert!(indices(&b.arena, root).is_empty());

    let mut b = YamlArenaBuilder::new(20);
    let x = b.push_scalar(NodeKind::Null, Some("null".to_string()), None);
    let id = push_sampled_array(&mut b, vec![x], vec![6], 9);
    assert_eq!(indices(&b.arena, id), vec![6]);
    assert_eq!(b.arena.nodes[id].array_len, Some(9));
}

#[test]
fn json_bytes_become_an_arena() {
    let input = InputKind::Json(br#"{"b": [1, 2.5, -3e2], "a": {"t": true, "n": null, "s": "x\ny"}}"#.to_vec());
    let arena = ingest_into_arena(input, &prio(10)).unwrap();
    assert_eq!(
        show(&arena, arena.root_id),
        "{b=[Number#1,Number#2.5,Number#-300.0]/3,a={t=Bool#true,n=Null#null,s=String:\"x\\ny\"}}"
    );
    assert_eq!(
        ingest_into_arena(InputKind::Json(b"[1,".to_vec()), &prio(10)).err(),
        Some(HeadsonError::IngestFailed(IngestFailure::Syntax))
    );
    assert_eq!(
        ingest_into_arena(InputKind::Json(vec![0xff]), &prio(10)).err(),
        Some(HeadsonError::IngestFailed(IngestFailure::Syntax))
    );
}

#[test]
fn a_text_is_split_into_lines() {
    let lines = |s: &str| split_lines(s);
    assert_eq!(lines(""), Vec::<String>::new());
    assert_eq!(lines("one"), vec!["one"]);
    assert_eq!(lines("one\n"), vec!["one"]);
    assert_eq!(lines("one\ntwo"), vec!["one", "two"]);
    assert_eq!(lines("one\r\ntwo\r\n"), vec!["one", "two"]);
    assert_eq!(lines("\n\nx"), vec!["", "", "x"]);
    assert_eq!(lines("a\rb\n"), vec!["a\rb"]);
    assert_eq!(lines("a\r\r\n"), vec!["a\r"]);
    assert_eq!(lines("tail\r"), vec!["tail\r"]);
}

#[test]
fn text_bytes_become_an_array_of_lines() {
    let plain = ingest_into_arena(
        InputKind::Text { bytes: b"alpha\nbeta\ngamma\n".to_vec(), mode: TextMode::Plain },
        &prio(2),
    )
    .unwrap();
    assert_eq!(show(&plain, plain.root_id), "[String:\"alpha\",String:\"beta\"]/3");
    assert_eq!(indices(&plain, plain.root_id), vec![0, 1]);
    let code = ingest_into_arena(
        InputKind::Text { bytes: b"fn main() {}\n".to_vec(), mode: TextMode::CodeLike },
        &prio(2),
    )
    .unwrap();
    assert_eq!(show(&code, code.root_id), "[String#fn main() {}]/1");
    assert_eq!(
        ingest_into_arena(InputKind::Text { bytes: vec![0xc3, 0x28], mode: TextMode::Plain }, &prio(2)).err(),
        Some(HeadsonError::IngestFailed(IngestFailure::InvalidUtf8))
    );
}

fn file(name: &str, bytes: &[u8], kind: FilesetInputKind) -> FilesetInput {
    FilesetInput { name: name.to_string(), bytes: bytes.to_vec(), kind }
}

#[test]
fn a_fileset_holds_each_file_under_its_name() {
    let files = vec![
        file("a.json", b"[1]", FilesetInputKind::Json),
        file("b.yaml", b"k: v\n", FilesetInputKind::Yaml),
        file("c.txt", b"line\n", FilesetInputKind::Text { atomic_lines: false }),
        file("d.rs", b"code\n", FilesetInputKind::Text { atomic_lines: true }),
    ];
    let arena = ingest_into_arena(InputKind::Fileset(files), &prio(10)).unwrap();
    assert!(arena.is_fileset);
    assert_eq!(
        arena.fileset_kinds,
        vec![
            FilesetInputKind::Json,
            FilesetInputKind::Yaml,
            FilesetInputKind::Text { atomic_lines: false },
            FilesetInputKind::Text { atomic_lines: true },
        ]
    );
    assert_eq!(
        show(&arena, arena.root_id),
        "{a.json=[Number#1]/1,b.yaml={k=String:\"v\"},c.txt=[String:\"line\"]/1,d.rs=[String#code]/1}"
    );
    let empty = ingest_into_arena(InputKind::Fileset(vec![]), &prio(10)).unwrap();
    assert_eq!(show(&empty, empty.root_id), "{}");

    let broken = vec![file("ok.json", b"1", FilesetInputKind::Json), file("bad.txt", &[0xff], FilesetInputKind::Text { atomic_lines: false })];
    assert_eq!(
        ingest_into_arena(InputKind::Fileset(broken), &prio(10)).err(),
        Some(HeadsonError::InputFailed { input: "bad.txt".to_string(), failure: IngestFailure::InvalidUtf8 })
    );
}

#[test]
fn files_without_a_match_in_their_content_are_dropped() {
    let re = regex::Regex::new("needle").unwrap();
    let cfg = prio(10);
    assert!(file_stays(&file("a.json", br#"{"k":"a needle"}"#, FilesetInputKind::Json), &re, &cfg));
    assert!(file_stays(&file("a.json", br#"{"needle":0}"#, FilesetInputKind::Json), &re, &cfg));
    assert!(!file_stays(&file("needle.json", br#"{"k":0}"#, FilesetInputKind::Json), &re, &cfg));
    assert!(file_stays(&file("t.txt", b"hay\nneedle\n", FilesetInputKind::Text { atomic_lines: true }), &re, &cfg));
    assert!(file_stays(&file("broken.json", b"{", FilesetInputKind::Json), &re, &cfg));

    let files = vec![
        file("with.json", br#"{"k":"needle"}"#, FilesetInputKind::Json),
        file("needle_only.json", br#"{"k":0}"#, FilesetInputKind::Json),
        file("also.yaml", b"needle: 1\n", FilesetInputKind::Yaml),
    ];
    let kept = keep_matching_files(files, &re, &cfg);
    let names: Vec<&str> = kept.iter().map(|f| f.name.as_str()).collect();
    assert_eq!(names, vec!["with.json", "also.yaml"]);
}

#[test]
fn the_yaml_reader_reads_and_fails_as_the_functions_do() {
    let one = YamlIngest::parse_one(b"a: 1\nb: [x, y]\n".to_vec(), &prio(5)).unwrap();
    assert!(!one.is_fileset);
    assert_eq!(show(&one, one.root_id), "{a=Number#1,b=[String:\"x\",String:\"y\"]/2}");
    assert_eq!(
        YamlIngest::parse_one(vec![0xff, 0xfe], &prio(5)).err(),
        Some(HeadsonError::IngestFailed(IngestFailure::InvalidUtf8))
    );
    assert_eq!(
        YamlIngest::parse_one(b"a: [1, 2".to_vec(), &prio(5)).err(),
        Some(HeadsonError::IngestFailed(IngestFailure::Syntax))
    );
    let none = YamlIngest::parse_many(Vec::new(), &prio(5)).unwrap();
    assert!(none.is_fileset);
    assert_eq!(show(&none, none.root_id), "{}");
    let bad = vec![
        ("ok.yaml".to_string(), b"a: 1\n".to_vec()),
        ("binary.yaml".to_string(), vec![0xff]),
        ("broken.yaml".to_string(), b"a: [".to_vec()),
    ];
    assert_eq!(
        YamlIngest::parse_many(bad, &prio(5)).err(),
        Some(HeadsonError::InputFailed { input: "binary.yaml".to_string(), failure: IngestFailure::InvalidUtf8 })
    );
}

fn parents_of(arena: &JsonTreeArena) -> Vec<usize> {
    let mut parents = vec![0usize; arena.nodes.len()];
    for id in 0..arena.nodes.len() {
        for c in children(arena, id) {
            parents[c] += 1;
        }
    }
    parents
}

fn assert_compact(arena: &JsonTreeArena) {
    assert_eq!(arena.root_id + 1, arena.nodes.len());
    let parents = parents_of(arena);
    for (id, count) in parents.iter().enumerate() {
        assert_eq!(*count, if id == arena.root_id { 0 } else { 1 }, "node {id}");
    }
}

#[test]
fn an_arena_holds_the_nodes_of_its_tree_and_no_others() {
    let many = b"---\na: 1\n---\nb: [1, 2, 3]\n---\nc: 3\n---\nd: 4\n".to_vec();
    let arena = build_yaml_tree_arena_from_bytes(many, &prio(2)).unwrap();
    assert_eq!(show(&arena, arena.root_id), "[{a=Number#1},{b=[Number#1,Number#2]/3}]/4");
    assert_eq!(arena.nodes.len(), 7);
    assert_compact(&arena);

    let json = ingest_into_arena(InputKind::Json(br#"{"a":[1,2,3,4,5],"b":{"c":null}}"#.to_vec()), &prio(3)).unwrap();
    assert_eq!(json.nodes.len(), 7);
    assert_compact(&json);

    let text = ingest_into_arena(
        InputKind::Text { bytes: b"one\ntwo\nthree\nfour\n".to_vec(), mode: TextMode::Plain },
        &prio(2),
    )
    .unwrap();
    assert_eq!(text.nodes.len(), 3);
    assert_compact(&text);

    let files = vec![
        FilesetInput { name: "a.json".to_string(), bytes: b"[1,[2]]".to_vec(), kind: FilesetInputKind::Json },
        FilesetInput { name: "b.yaml".to_string(), bytes: b"k: v\n".to_vec(), kind: FilesetInputKind::Yaml },
        FilesetInput { name: "c.txt".to_string(), bytes: b"x\ny\n".to_vec(), kind: FilesetInputKind::Text { atomic_lines: true } },
    ];
    let set = ingest_into_arena(InputKind::Fileset(files), &prio(10)).unwrap();
    assert_eq!(set.nodes.len(), 10);
    assert_compact(&set);
}

#[test]
fn a_scalar_adds_one_node() {
    let mut b = YamlArenaBuilder::new(5);
    let first = b.build(&YamlValue::Boolean(true));
    assert_eq!((first, b.arena.nodes.len()), (0, 1));
    let second = b.build(&YamlValue::Alias(3));
    assert_eq!((second, b.arena.nodes.len()), (1, 2));
    let third = b.build(&YamlValue::Array(vec![YamlValue::Null, YamlValue::Integer(4)]));
    assert_eq!((third, b.arena.nodes.len()), (4, 5));
}
