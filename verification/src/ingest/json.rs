use crate::error::{HeadsonError, IngestFailure};
use crate::ingest::sampling::{lemma_sample_index, push_sampled_array, sample_index};
use crate::ingest::sampling::{sample_position, sampled_indices, sampled_tree, Sampling};
use crate::ingest::yaml::{at_most, bool_text, object_tree, same_meta, texts_upto, trees_of};
use crate::ingest::yaml::YamlArenaBuilder;
use crate::order::NodeKind;
use crate::utils::tree_arena::{in_a_row, lemma_row_begins, lemma_row_grows};
use crate::utils::tree_arena::{leaf, lemma_extends_keeps_tree, lemma_extends_trans, Tree};
use serde_json::{Error, Value};
use vstd::prelude::*;

verus! {

/// A JSON value of the `serde_json` crate, carried through as an opaque value.
#[verifier::external_type_specification]
#[verifier::external_body]
pub struct ExValue(Value);

/// The error of the JSON parser, carried through as an opaque value.
#[verifier::external_type_specification]
#[verifier::external_body]
pub struct ExError(Error);

/// A JSON value as the parser hands it out, variant for variant. A number is
/// the text that the parser prints it as, which need not be the text that
/// the document wrote it as; an object holds its entries in the order of the
/// document.
#[derive(Debug)]
pub enum JsonValue {
    Null,
    Bool(bool),
    Number(String),
    String(String),
    Array(Vec<JsonValue>),
    Object(Vec<(String, JsonValue)>),
}

/// The value that JSON bytes hold, or nothing where they do not parse.
pub uninterp spec fn json_document(bytes: Seq<u8>) -> Option<JsonValue>;

/// A value of the parser as a `JsonValue`: the same variant with the same
/// fields, a number as the text that it prints as, an object with its
/// entries in their order.
pub uninterp spec fn json_value_of(v: Value) -> JsonValue;

/// The value of a parse.
pub open spec fn parsed(r: Result<Value, Error>) -> Option<JsonValue> {
    match r {
        Ok(v) => Some(json_value_of(v)),
        Err(_) => None,
    }
}

/// Copies a `Value` of the parser into a `JsonValue`, variant for variant
/// and field for field; a number becomes the text that it prints as.
#[verifier::external_body]
fn json_to_value(v: &Value) -> (value: JsonValue)
    ensures
        value == json_value_of(*v),
{
    match v {
        Value::Null => JsonValue::Null,
        Value::Bool(b) => JsonValue::Bool(*b),
        Value::Number(n) => JsonValue::Number(n.to_string()),
        Value::String(s) => JsonValue::String(s.clone()),
        Value::Array(a) => JsonValue::Array(a.iter().map(json_to_value).collect()),
        Value::Object(m) => JsonValue::Object(
            m.iter().map(|(k, v)| (k.clone(), json_to_value(v))).collect(),
        ),
    }
}

/// `serde_json::from_slice` deserializes a value from bytes of JSON text; it
/// fails where the bytes are not one JSON document. The value depends on the
/// bytes alone, so it is named and nothing more is claimed of it.
#[verifier::external_body]
fn parse_json_value(bytes: &[u8]) -> (r: Result<Value, Error>)
    ensures
        parsed(r) == json_document(bytes@),
{
    serde_json::from_slice::<Value>(bytes)
}

/// Parse JSON bytes into a value.
pub fn parse_json_document(bytes: &[u8]) -> (value: Option<JsonValue>)
    ensures
        value == json_document(bytes@),
{
    match parse_json_value(bytes) {
        Ok(v) => Some(json_to_value(&v)),
        Err(_) => None,
    }
}

/// The tree of a JSON value when arrays keep at most `cap` items, sampled
/// by `plan`. Objects keep every entry.
pub open spec fn json_tree(v: JsonValue, cap: usize, plan: Sampling) -> Tree
    decreases v,
{
    match v {
        JsonValue::Array(a) => {
            let total = a@.len() as int;
            let kept = at_most(a@.len(), cap);
            sampled_tree(
                Seq::new(
                    kept,
                    |j: int|
                        {
                            let i = sample_index(plan, j, total, kept as int);
                            if 0 <= i < a@.len() {
                                json_tree(a@[i], cap, plan)
                            } else {
                                leaf(NodeKind::Null, None, None)
                            }
                        },
                ),
                sampled_indices(plan, total, kept as int),
                a@.len() as usize,
            )
        },
        JsonValue::Object(m) => object_tree(
            Seq::new(m@.len(), |i: int| m@[i].0@),
            Seq::new(
                m@.len(),
                |i: int|
                    if 0 <= i < m@.len() {
                        json_tree(m@[i].1, cap, plan)
                    } else {
                        leaf(NodeKind::Null, None, None)
                    },
            ),
        ),
        JsonValue::String(s) => leaf(NodeKind::String, None, Some(s@)),
        JsonValue::Number(t) => leaf(NodeKind::Number, Some(t@), None),
        JsonValue::Bool(b) => leaf(NodeKind::Bool, Some(bool_text(b)), None),
        JsonValue::Null => leaf(NodeKind::Null, Some("null"@), None),
    }
}

/// Add the tree of a JSON value and return the identifier of its root.
pub fn build_json(b: &mut YamlArenaBuilder, v: &JsonValue, plan: Sampling) -> (id: usize)
    requires
        old(b).arena.wf(),
    ensures
        old(b).arena.nodes@.len() <= id,
        id + 1 == final(b).arena.nodes@.len(),
        final(b).arena.laid_out(id as int, old(b).arena.nodes@.len() as int),
        final(b).arena.wf(),
        final(b).arena.extends(&old(b).arena),
        final(b).arena.tree_at(id as int) == json_tree(*v, old(b).array_cap, plan),
        same_meta(&final(b).arena, &old(b).arena),
        final(b).array_cap == old(b).array_cap,
    decreases v,
{
    let ghost pre = b.arena;
    let ghost cap = b.array_cap;
    match v {
        JsonValue::Array(a) => {
            let total = a.len();
            let kept = if total < b.array_cap {
                total
            } else {
                b.array_cap
            };
            let store = kept < total && match plan {
                Sampling::Head => false,
                _ => true,
            };
            let mut child_ids: Vec<usize> = Vec::with_capacity(kept);
            let mut indices: Vec<usize> = Vec::new();
            let mut j: usize = 0;
            proof {
                lemma_row_begins(&b.arena);
            }
            while j < kept
                invariant
                    b.arena.wf(),
                    in_a_row(&b.arena, child_ids@, pre.nodes@.len() as int),
                    b.arena.extends(&pre),
                    same_meta(&b.arena, &pre),
                    b.array_cap == cap,
                    *v == JsonValue::Array(*a),
                    total == a@.len(),
                    j <= kept <= total,
                    child_ids@.len() == j,
                    indices@.len() == if store {
                        j
                    } else {
                        0
                    },
                    forall|k: int|
                        0 <= k < j && store ==> #[trigger] indices@[k] == sample_index(
                            plan,
                            k,
                            total as int,
                            kept as int,
                        ),
                    forall|k: int|
                        0 <= k < j ==> #[trigger] child_ids@[k] < b.arena.nodes@.len()
                            && b.arena.tree_at(child_ids@[k] as int) == json_tree(
                            a@[sample_index(plan, k, total as int, kept as int)],
                            cap,
                            plan,
                        ),
                decreases kept - j,
            {
                let ghost mid = b.arena;
                let i = sample_position(plan, j, total, kept);
                proof {
                    assert(decreases_to!(*v => v->Array_0));
                    assert(decreases_to!(v->Array_0 => (v->Array_0)@));
                    assert(decreases_to!((v->Array_0)@ => (v->Array_0)@[i as int]));
                }
                let cid = build_json(b, &a[i], plan);
                proof {
                    lemma_row_grows(&b.arena, &mid, child_ids@, cid, pre.nodes@.len() as int);
                    lemma_extends_trans(&b.arena, &mid, &pre);
                    assert forall|k: int| 0 <= k < j implies b.arena.tree_at(
                        #[trigger] child_ids@[k] as int,
                    ) == json_tree(
                        a@[sample_index(plan, k, total as int, kept as int)],
                        cap,
                        plan,
                    ) by {
                        lemma_extends_keeps_tree(&b.arena, &mid, child_ids@[k] as int);
                    }
                }
                child_ids.push(cid);
                if store {
                    indices.push(i);
                }
                j += 1;
            }
            let ghost before = b.arena;
            let ghost ids = child_ids@;
            let ghost idx = indices@;
            let id = push_sampled_array(b, child_ids, indices, total);
            proof {
                lemma_extends_trans(&b.arena, &before, &pre);
                assert(trees_of(&before, ids, ids.len()) =~= json_tree(*v, cap, plan).items) by {
                    assert forall|k: int| 0 <= k < kept implies 0 <= #[trigger] sample_index(
                        plan,
                        k,
                        total as int,
                        kept as int,
                    ) < total by {
                        lemma_sample_index(plan, k, total as int, kept as int);
                    }
                }
                assert(idx =~= sampled_indices(plan, total as int, kept as int));
            }
            id
        },
        JsonValue::Object(m) => {
            let mut keys: Vec<String> = Vec::with_capacity(m.len());
            let mut children: Vec<usize> = Vec::with_capacity(m.len());
            let mut i: usize = 0;
            proof {
                lemma_row_begins(&b.arena);
            }
            while i < m.len()
                invariant
                    b.arena.wf(),
                    in_a_row(&b.arena, children@, pre.nodes@.len() as int),
                    b.arena.extends(&pre),
                    same_meta(&b.arena, &pre),
                    b.array_cap == cap,
                    *v == JsonValue::Object(*m),
                    i <= m@.len(),
                    keys@.len() == i,
                    children@.len() == i,
                    forall|k: int| 0 <= k < i ==> (#[trigger] keys@[k])@ == m@[k].0@,
                    forall|k: int|
                        0 <= k < i ==> #[trigger] children@[k] < b.arena.nodes@.len()
                            && b.arena.tree_at(children@[k] as int) == json_tree(m@[k].1, cap, plan),
                decreases m@.len() - i,
            {
                let ghost mid = b.arena;
                let key = m[i].0.clone();
                proof {
                    assert(decreases_to!(*v => v->Object_0));
                    assert(decreases_to!(v->Object_0 => (v->Object_0)@));
                    assert(decreases_to!((v->Object_0)@ => (v->Object_0)@[i as int]));
                    assert(decreases_to!((v->Object_0)@[i as int] => (v->Object_0)@[i as int].1));
                }
                let cid = build_json(b, &m[i].1, plan);
                proof {
                    lemma_row_grows(&b.arena, &mid, children@, cid, pre.nodes@.len() as int);
                    lemma_extends_trans(&b.arena, &mid, &pre);
                    assert forall|k: int| 0 <= k < i implies b.arena.tree_at(
                        #[trigger] children@[k] as int,
                    ) == json_tree(m@[k].1, cap, plan) by {
                        lemma_extends_keeps_tree(&b.arena, &mid, children@[k] as int);
                    }
                }
                keys.push(key);
                children.push(cid);
                i += 1;
            }
            let ghost before = b.arena;
            let ghost ids = children@;
            let ghost names = keys@;
            let id = b.push_object_root(keys, children);
            proof {
                lemma_extends_trans(&b.arena, &before, &pre);
                let n = m@.len();
                assert(at_most(names.len(), ids.len() as usize) == n);
                assert(texts_upto(names, n) =~= json_tree(*v, cap, plan).keys);
                assert(trees_of(&before, ids, n) =~= json_tree(*v, cap, plan).items);
            }
            id
        },
        JsonValue::String(s) => b.push_scalar(NodeKind::String, None, Some(s.clone())),
        JsonValue::Number(t) => b.push_scalar(NodeKind::Number, Some(t.clone()), None),
        JsonValue::Bool(flag) => {
            let token = (if *flag {
                "true"
            } else {
                "false"
            }).to_owned();
            b.push_scalar(NodeKind::Bool, Some(token), None)
        },
        JsonValue::Null => b.push_scalar(NodeKind::Null, Some("null".to_owned()), None),
    }
}

/// The tree of a JSON input, where its bytes parse.
pub open spec fn json_input_tree(bytes: Seq<u8>, cap: usize, plan: Sampling) -> Option<Tree> {
    match json_document(bytes) {
        Some(v) => Some(json_tree(v, cap, plan)),
        None => None,
    }
}

/// Read one JSON input into the builder.
pub fn build_json_input(b: &mut YamlArenaBuilder, bytes: &Vec<u8>, plan: Sampling) -> (r: Result<
    usize,
    HeadsonError,
>)
    requires
        old(b).arena.wf(),
    ensures
        final(b).arena.wf(),
        final(b).arena.extends(&old(b).arena),
        same_meta(&final(b).arena, &old(b).arena),
        final(b).array_cap == old(b).array_cap,
        match r {
            Ok(id) => old(b).arena.nodes@.len() <= id && id + 1 == final(b).arena.nodes@.len()
                && final(b).arena.laid_out(id as int, old(b).arena.nodes@.len() as int)
                && json_input_tree(bytes@, old(b).array_cap, plan) == Some(
                final(b).arena.tree_at(id as int),
            ),
            Err(e) => json_input_tree(bytes@, old(b).array_cap, plan) is None && e
                == HeadsonError::IngestFailed(IngestFailure::Syntax),
        },
{
    let value = match parse_json_document(bytes.as_slice()) {
        Some(v) => v,
        None => {
            return Err(HeadsonError::IngestFailed(IngestFailure::Syntax));
        },
    };
    Ok(build_json(b, &value, plan))
}

} // verus!
