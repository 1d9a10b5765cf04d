use crate::error::{HeadsonError, IngestFailure};
use crate::order::{NodeKind, PriorityConfig};
use crate::serialization::text::{decimal, push_decimal};
use crate::utils::text::{decode_text, text_of_bytes};
use crate::ingest::Ingest;
use crate::utils::tree_arena::{
    in_a_row, lemma_extends_keeps_layout, lemma_leaf_laid_out, lemma_parent_of_row, lemma_row_begins, lemma_row_grows,
};
use crate::utils::tree_arena::{leaf, lemma_extends_keeps_tree, lemma_extends_keeps_wf};
use crate::utils::tree_arena::{lemma_extends_trans, text_of};
use crate::ingest::fileset::FilesetInputKind;
use crate::utils::tree_arena::{JsonTreeArena, JsonTreeNode, Tree};
use vstd::prelude::*;
use yaml_rust2::scanner::ScanError;
use yaml_rust2::{Yaml, YamlLoader};

verus! {

/// A YAML value of the `yaml_rust2` crate, carried through as an opaque value.
#[verifier::external_type_specification]
#[verifier::external_body]
pub struct ExYaml(Yaml);

/// The error of the YAML scanner, carried through as an opaque value.
#[verifier::external_type_specification]
#[verifier::external_body]
pub struct ExScanError(ScanError);

/// A YAML value as the loader hands it out, variant for variant. A hash holds
/// its entries in the order of the document.
#[derive(Debug)]
pub enum YamlValue {
    Real(String),
    Integer(i64),
    String(String),
    Boolean(bool),
    Array(Vec<YamlValue>),
    Hash(Vec<(YamlValue, YamlValue)>),
    Alias(usize),
    Null,
    BadValue,
}

/// The documents that a YAML text holds, or nothing where it does not parse.
pub uninterp spec fn yaml_documents(text: Seq<char>) -> Option<Seq<YamlValue>>;

/// A value of the loader as a `YamlValue`: the same variant with the same
/// fields, a hash with its entries in their order.
pub uninterp spec fn yaml_value_of(y: Yaml) -> YamlValue;

/// The documents of a load, as values.
pub open spec fn loaded(docs: Result<Vec<Yaml>, ScanError>) -> Option<Seq<YamlValue>> {
    match docs {
        Ok(v) => Some(Seq::new(v@.len(), |i: int| yaml_value_of(v@[i]))),
        Err(_) => None,
    }
}

/// Copies a `Yaml` value of the loader into a `YamlValue`, variant for
/// variant and field for field.
#[verifier::external_body]
fn yaml_to_value(y: &Yaml) -> (value: YamlValue)
    ensures
        value == yaml_value_of(*y),
{
    match y {
        Yaml::Real(s) => YamlValue::Real(s.clone()),
        Yaml::Integer(i) => YamlValue::Integer(*i),
        Yaml::String(s) => YamlValue::String(s.clone()),
        Yaml::Boolean(b) => YamlValue::Boolean(*b),
        Yaml::Array(v) => YamlValue::Array(v.iter().map(yaml_to_value).collect()),
        Yaml::Hash(h) => YamlValue::Hash(
            h.iter().map(|(k, v)| (yaml_to_value(k), yaml_to_value(v))).collect(),
        ),
        Yaml::Alias(n) => YamlValue::Alias(*n),
        Yaml::Null => YamlValue::Null,
        Yaml::BadValue => YamlValue::BadValue,
    }
}

/// `YamlLoader::load_from_str` of the `yaml_rust2` crate parses the text as a
/// set of YAML documents; it succeeds if and only if every document parses.
/// The documents depend on the text alone, so they are named and nothing more
/// is claimed of them.
pub assume_specification[ YamlLoader::load_from_str ](source: &str) -> (docs: Result<
    Vec<Yaml>,
    ScanError,
>)
    ensures
        loaded(docs) == yaml_documents(source@),
;

/// Load the documents of a YAML text as values.
pub fn load_yaml_documents(text: &str) -> (docs: Option<Vec<YamlValue>>)
    ensures
        match docs {
            Some(v) => yaml_documents(text@) == Some(v@),
            None => yaml_documents(text@) is None,
        },
{
    let loaded = match YamlLoader::load_from_str(text) {
        Ok(loaded) => loaded,
        Err(_) => {
            return None;
        },
    };
    let mut values: Vec<YamlValue> = Vec::with_capacity(loaded.len());
    let mut i: usize = 0;
    while i < loaded.len()
        invariant
            i <= loaded@.len(),
            values@ == Seq::new(i as nat, |k: int| yaml_value_of(loaded@[k])),
        decreases loaded@.len() - i,
    {
        values.push(yaml_to_value(&loaded[i]));
        assert(values@ =~= Seq::new((i + 1) as nat, |k: int| yaml_value_of(loaded@[k])));
        i += 1;
    }
    assert(values@ =~= Seq::new(loaded@.len(), |k: int| yaml_value_of(loaded@[k])));
    Some(values)
}

/// An integer in decimal, with a minus sign where it is negative.
pub open spec fn int_text(i: int) -> Seq<char> {
    if i < 0 {
        "-"@ + decimal((-i) as nat)
    } else {
        decimal(i as nat)
    }
}

pub fn int_to_string(i: i64) -> (text: String)
    ensures
        text@ == int_text(i as int),
{
    let mut text = String::new();
    if i < 0 {
        text.push_str("-");
        let magnitude: u64 = ((-(i + 1)) as u64) + 1;
        push_decimal(&mut text, magnitude);
        assert(text@ =~= int_text(i as int));
    } else {
        push_decimal(&mut text, i as u64);
        assert(text@ =~= int_text(i as int));
    }
    text
}

/// The lexeme of a boolean.
pub open spec fn bool_text(b: bool) -> Seq<char> {
    if b {
        "true"@
    } else {
        "false"@
    }
}

/// A hash key as a string: strings and reals as they are, integers, booleans
/// and null as their lexeme, everything else as `<complex>`.
pub open spec fn yaml_key_text(k: YamlValue) -> Seq<char> {
    match k {
        YamlValue::String(s) => s@,
        YamlValue::Real(s) => s@,
        YamlValue::Integer(i) => int_text(i as int),
        YamlValue::Boolean(b) => bool_text(b),
        YamlValue::Null => "null"@,
        YamlValue::BadValue => "null"@,
        YamlValue::Array(_) => "<complex>"@,
        YamlValue::Hash(_) => "<complex>"@,
        YamlValue::Alias(_) => "<complex>"@,
    }
}

pub fn stringify_yaml_key(k: &YamlValue) -> (key: String)
    ensures
        key@ == yaml_key_text(*k),
{
    match k {
        YamlValue::String(s) => s.clone(),
        YamlValue::Real(s) => s.clone(),
        YamlValue::Integer(i) => int_to_string(*i),
        YamlValue::Boolean(b) => (if *b {
            "true"
        } else {
            "false"
        }).to_owned(),
        YamlValue::Null => "null".to_owned(),
        YamlValue::BadValue => "null".to_owned(),
        YamlValue::Array(_) => "<complex>".to_owned(),
        YamlValue::Hash(_) => "<complex>".to_owned(),
        YamlValue::Alias(_) => "<complex>".to_owned(),
    }
}

/// The smaller of two lengths.
pub open spec fn at_most(len: nat, cap: usize) -> nat {
    if len < cap {
        len
    } else {
        cap as nat
    }
}

/// An array of the given items, of which `total` existed.
pub open spec fn array_tree(items: Seq<Tree>, total: usize) -> Tree {
    Tree {
        kind: NodeKind::Array,
        token: None,
        value: None,
        array_len: Some(total),
        object_len: None,
        keys: Seq::empty(),
        indices: Seq::empty(),
        items,
    }
}

/// An object of the given entries.
pub open spec fn object_tree(keys: Seq<Seq<char>>, items: Seq<Tree>) -> Tree {
    Tree {
        kind: NodeKind::Object,
        token: None,
        value: None,
        array_len: None,
        object_len: Some(items.len() as usize),
        keys,
        indices: Seq::empty(),
        items,
    }
}

/// The tree of a YAML value when arrays keep at most `cap` items, from the
/// front. Scalars keep their lexeme, an alias is the string `*alias`.
pub open spec fn yaml_tree(y: YamlValue, cap: usize) -> Tree
    decreases y,
{
    match y {
        YamlValue::Array(v) => array_tree(
            Seq::new(
                at_most(v@.len(), cap),
                |i: int|
                    if 0 <= i < v@.len() {
                        yaml_tree(v@[i], cap)
                    } else {
                        leaf(NodeKind::Null, None, None)
                    },
            ),
            v@.len() as usize,
        ),
        YamlValue::Hash(h) => object_tree(
            Seq::new(h@.len(), |i: int| yaml_key_text(h@[i].0)),
            Seq::new(
                h@.len(),
                |i: int|
                    if 0 <= i < h@.len() {
                        yaml_tree(h@[i].1, cap)
                    } else {
                        leaf(NodeKind::Null, None, None)
                    },
            ),
        ),
        YamlValue::String(s) => leaf(NodeKind::String, None, Some(s@)),
        YamlValue::Integer(i) => leaf(NodeKind::Number, Some(int_text(i as int)), None),
        YamlValue::Real(s) => leaf(NodeKind::Number, Some(s@), None),
        YamlValue::Boolean(b) => leaf(NodeKind::Bool, Some(bool_text(b)), None),
        YamlValue::Null => leaf(NodeKind::Null, Some("null"@), None),
        YamlValue::BadValue => leaf(NodeKind::Null, Some("null"@), None),
        YamlValue::Alias(_) => leaf(NodeKind::String, None, Some("*alias"@)),
    }
}

/// Builds an arena from YAML values; arrays keep at most `array_cap` items.
pub struct YamlArenaBuilder {
    pub arena: JsonTreeArena,
    pub array_cap: usize,
}

/// Two arenas agree on their root and on what they say of filesets.
pub open spec fn same_meta(a: &JsonTreeArena, b: &JsonTreeArena) -> bool {
    a.root_id == b.root_id && a.is_fileset == b.is_fileset && a.fileset_kinds == b.fileset_kinds
}

/// A node made into an array whose children start at `start`.
pub open spec fn as_array(node: JsonTreeNode, start: usize, kept: usize, total: usize) -> JsonTreeNode {
    JsonTreeNode {
        kind: NodeKind::Array,
        children_start: start,
        children_len: kept,
        array_len: Some(total),
        arr_indices_start: 0,
        arr_indices_len: 0,
        ..node
    }
}

/// A node made into an object whose children start at `start` and whose
/// keys start at `keys_start`.
pub open spec fn as_object(node: JsonTreeNode, start: usize, keys_start: usize, count: usize) -> JsonTreeNode {
    JsonTreeNode {
        kind: NodeKind::Object,
        children_start: start,
        children_len: count,
        obj_keys_start: keys_start,
        obj_keys_len: count,
        object_len: Some(count),
        ..node
    }
}

/// The trees of the first `len` of the given nodes.
pub open spec fn trees_of(arena: &JsonTreeArena, ids: Seq<usize>, len: nat) -> Seq<Tree> {
    Seq::new(len, |j: int| arena.tree_at(ids[j] as int))
}

/// The texts of the first `len` of the given strings.
pub open spec fn texts_upto(keys: Seq<String>, len: nat) -> Seq<Seq<char>> {
    Seq::new(len, |j: int| keys[j]@)
}

/// The children of a node are the trees of the identifiers in its slice.
pub proof fn lemma_items_of_slice(arena: &JsonTreeArena, id: int, ids: Seq<usize>, len: nat)
    requires
        0 <= id < arena.nodes@.len(),
        len <= ids.len(),
        arena.nodes@[id].children_start + len <= arena.children@.len(),
        forall|j: int|
            0 <= j < len ==> #[trigger] arena.children@[arena.nodes@[id].children_start + j]
                == ids[j] && ids[j] < id,
    ensures
        arena.items_at(id, len) == trees_of(arena, ids, len),
    decreases len,
{
    if len > 0 {
        lemma_items_of_slice(arena, id, ids, (len - 1) as nat);
        let s = arena.nodes@[id].children_start;
        assert(arena.children@[s + (len - 1)] == ids[len - 1]);
        assert(arena.items_at(id, len) =~= trees_of(arena, ids, len));
    } else {
        assert(arena.items_at(id, len) =~= trees_of(arena, ids, len));
    }
}

impl YamlArenaBuilder {
    pub fn new(array_cap: usize) -> (builder: Self)
        ensures
            builder.array_cap == array_cap,
            builder.arena.nodes@.len() == 0,
            builder.arena.children@.len() == 0,
            builder.arena.obj_keys@.len() == 0,
            builder.arena.arr_indices@.len() == 0,
            builder.arena.fileset_kinds@.len() == 0,
            builder.arena.root_id == 0,
            builder.arena.wf(),
            !builder.arena.is_fileset,
    {
        Self { arena: JsonTreeArena::default(), array_cap }
    }

    pub fn finish(self) -> (arena: JsonTreeArena)
        ensures
            arena == self.arena,
    {
        self.arena
    }

    /// Add a blank node and return its identifier.
    pub fn push_default(&mut self) -> (id: usize)
        ensures
            id == old(self).arena.nodes@.len(),
            final(self).arena.nodes@ == old(self).arena.nodes@.push(JsonTreeNode::blank()),
            final(self).arena.children == old(self).arena.children,
            final(self).arena.obj_keys == old(self).arena.obj_keys,
            final(self).arena.arr_indices == old(self).arena.arr_indices,
            same_meta(&final(self).arena, &old(self).arena),
            final(self).array_cap == old(self).array_cap,
    {
        let id = self.arena.nodes.len();
        self.arena.nodes.push(JsonTreeNode::default());
        id
    }

    /// Make node `id` an array of the first `kept` of the given children, of
    /// which `total` existed.
    pub fn finish_array(&mut self, id: usize, kept: usize, total: usize, local_children: Vec<usize>)
        requires
            id < old(self).arena.nodes@.len(),
        ensures
            final(self).arena.nodes@ == old(self).arena.nodes@.update(
                id as int,
                as_array(
                    old(self).arena.nodes@[id as int],
                    old(self).arena.children@.len() as usize,
                    kept,
                    total,
                ),
            ),
            final(self).arena.children@ == old(self).arena.children@ + local_children@,
            final(self).arena.obj_keys == old(self).arena.obj_keys,
            final(self).arena.arr_indices == old(self).arena.arr_indices,
            same_meta(&final(self).arena, &old(self).arena),
            final(self).array_cap == old(self).array_cap,
    {
        let children_start = self.arena.children.len();
        let mut local_children = local_children;
        self.arena.children.append(&mut local_children);
        let n = &mut self.arena.nodes[id];
        n.kind = NodeKind::Array;
        n.children_start = children_start;
        n.children_len = kept;
        n.array_len = Some(total);
        n.arr_indices_start = 0;
        n.arr_indices_len = 0;
    }

    /// Make node `id` an object of the first `count` of the given children,
    /// under the first `count` of the given keys.
    pub fn finish_object(
        &mut self,
        id: usize,
        count: usize,
        local_children: Vec<usize>,
        local_keys: Vec<String>,
    )
        requires
            id < old(self).arena.nodes@.len(),
        ensures
            final(self).arena.nodes@ == old(self).arena.nodes@.update(
                id as int,
                as_object(
                    old(self).arena.nodes@[id as int],
                    old(self).arena.children@.len() as usize,
                    old(self).arena.obj_keys@.len() as usize,
                    count,
                ),
            ),
            final(self).arena.children@ == old(self).arena.children@ + local_children@,
            final(self).arena.obj_keys@ == old(self).arena.obj_keys@ + local_keys@,
            final(self).arena.arr_indices == old(self).arena.arr_indices,
            same_meta(&final(self).arena, &old(self).arena),
            final(self).array_cap == old(self).array_cap,
    {
        let children_start = self.arena.children.len();
        let obj_keys_start = self.arena.obj_keys.len();
        let mut local_children = local_children;
        let mut local_keys = local_keys;
        self.arena.children.append(&mut local_children);
        self.arena.obj_keys.append(&mut local_keys);
        let n = &mut self.arena.nodes[id];
        n.kind = NodeKind::Object;
        n.children_start = children_start;
        n.children_len = count;
        n.obj_keys_start = obj_keys_start;
        n.obj_keys_len = count;
        n.object_len = Some(count);
    }

    /// The children are nodes of the arena.
    pub open spec fn holds(&self, children: Seq<usize>) -> bool {
        forall|j: int| 0 <= j < children.len() ==> #[trigger] children[j] < self.arena.nodes@.len()
    }

    /// Add an array of the given children, of which `total_len` existed; it
    /// keeps at most `array_cap` of them, from the front.
    pub fn push_array(&mut self, children: Vec<usize>, total_len: usize) -> (id: usize)
        requires
            old(self).arena.wf(),
            old(self).holds(children@),
        ensures
            id == old(self).arena.nodes@.len(),
            final(self).arena.nodes@.len() == id + 1,
            final(self).arena.wf(),
            final(self).arena.extends(&old(self).arena),
            final(self).arena.tree_at(id as int) == array_tree(
                trees_of(&old(self).arena, children@, at_most(children@.len(), old(self).array_cap)),
                total_len,
            ),
            forall|start: int| #[trigger]
                in_a_row(&old(self).arena, children@, start) && children@.len() <= old(
                    self,
                ).array_cap ==> final(self).arena.laid_out(id as int, start),
            same_meta(&final(self).arena, &old(self).arena),
            final(self).array_cap == old(self).array_cap,
    {
        let ghost pre = self.arena;
        let id = self.push_default();
        let kept = if children.len() < self.array_cap {
            children.len()
        } else {
            self.array_cap
        };
        let mut kept_children = children;
        kept_children.truncate(kept);
        let ghost local = kept_children@;
        self.finish_array(id, kept, total_len, kept_children);
        proof {
            let post = self.arena;
            let s = pre.children@.len() as int;
            assert(pre.children.len() == s);
            assert(post.children@ == pre.children@ + local);
            assert(post.nodes@[id as int].children_start == s);
            assert forall|j: int| 0 <= j < kept implies #[trigger] post.children@[s + j]
                == children@[j] && children@[j] < id by {
                assert(local[j] == children@[j]);
            }
            assert(post.extends(&pre));
            assert(post.node_wf(id as int)) by {
                assert forall|j: int| s <= j < s + kept implies #[trigger] post.children@[j]
                    < id by {
                    assert(post.children@[s + (j - s)] == children@[j - s]);
                }
            }
            lemma_extends_keeps_wf(&post, &pre);
            lemma_items_of_slice(&post, id as int, children@, kept as nat);
            assert(trees_of(&post, children@, kept as nat) =~= trees_of(&pre, children@, kept as nat))
                by {
                assert forall|j: int| 0 <= j < kept implies post.tree_at(children@[j] as int)
                    == pre.tree_at(children@[j] as int) by {
                    lemma_extends_keeps_tree(&post, &pre, children@[j] as int);
                }
            }
            assert(post.keys_at(id as int) =~= Seq::<Seq<char>>::empty());
            assert(post.indices_at(id as int) =~= Seq::<usize>::empty());
            assert forall|start: int| #[trigger]
                in_a_row(&pre, children@, start) && children@.len() <= old(
                    self,
                ).array_cap implies post.laid_out(id as int, start) by {
                assert(local =~= children@);
                lemma_parent_of_row(&post, &pre, id as int, children@, start);
            }
        }
        id
    }

    /// Add an object of the given children under the given keys; where the
    /// two differ in number, the shorter decides.
    pub fn push_object_root(&mut self, keys: Vec<String>, children: Vec<usize>) -> (id: usize)
        requires
            old(self).arena.wf(),
            old(self).holds(children@),
        ensures
            id == old(self).arena.nodes@.len(),
            final(self).arena.nodes@.len() == id + 1,
            final(self).arena.wf(),
            final(self).arena.extends(&old(self).arena),
            final(self).arena.tree_at(id as int) == object_tree(
                texts_upto(keys@, at_most(keys@.len(), children.len())),
                trees_of(
                    &old(self).arena,
                    children@,
                    at_most(keys@.len(), children.len()),
                ),
            ),
            forall|start: int| #[trigger]
                in_a_row(&old(self).arena, children@, start) && children@.len() <= keys@.len()
                    ==> final(self).arena.laid_out(id as int, start),
            same_meta(&final(self).arena, &old(self).arena),
            final(self).array_cap == old(self).array_cap,
    {
        let ghost pre = self.arena;
        let ghost key_texts = texts_upto(keys@, at_most(keys@.len(), children.len()));
        let id = self.push_default();
        let count = if keys.len() < children.len() {
            keys.len()
        } else {
            children.len()
        };
        let ghost all_children = children@;
        let ghost all_keys = keys@;
        self.finish_object(id, count, children, keys);
        proof {
            let post = self.arena;
            let s = pre.children@.len() as int;
            assert(pre.children.len() == s);
            assert(pre.obj_keys.len() == pre.obj_keys@.len());
            assert(post.children@ == pre.children@ + all_children);
            assert(post.obj_keys@ == pre.obj_keys@ + all_keys);
            assert(post.nodes@[id as int].children_start == s);
            assert forall|j: int| 0 <= j < count implies #[trigger] post.children@[s + j]
                == all_children[j] && all_children[j] < id by {}
            assert(post.extends(&pre));
            assert(post.node_wf(id as int)) by {
                assert forall|j: int| s <= j < s + count implies #[trigger] post.children@[j]
                    < id by {
                    assert(post.children@[s + (j - s)] == all_children[j - s]);
                }
            }
            lemma_extends_keeps_wf(&post, &pre);
            lemma_items_of_slice(&post, id as int, children@, count as nat);
            assert(trees_of(&post, children@, count as nat) =~= trees_of(
                &pre,
                children@,
                count as nat,
            )) by {
                assert forall|j: int| 0 <= j < count implies post.tree_at(children@[j] as int)
                    == pre.tree_at(children@[j] as int) by {
                    lemma_extends_keeps_tree(&post, &pre, children@[j] as int);
                }
            }
            assert(post.keys_at(id as int) =~= key_texts);
            assert(post.indices_at(id as int) =~= Seq::<usize>::empty());
            assert forall|start: int| #[trigger]
                in_a_row(&pre, all_children, start) && all_children.len()
                    <= all_keys.len() implies post.laid_out(id as int, start) by {
                lemma_parent_of_row(&post, &pre, id as int, all_children, start);
            }
        }
        id
    }

    /// Add a scalar of the given kind with its lexeme or its string value.
    pub fn push_scalar(&mut self, kind: NodeKind, token: Option<String>, value: Option<String>) -> (id:
        usize)
        requires
            old(self).arena.wf(),
            kind != NodeKind::Array,
            kind != NodeKind::Object,
        ensures
            id == old(self).arena.nodes@.len(),
            final(self).arena.nodes@.len() == id + 1,
            final(self).arena.wf(),
            final(self).arena.extends(&old(self).arena),
            final(self).arena.tree_at(id as int) == leaf(kind, text_of(token), text_of(value)),
            final(self).arena.laid_out(id as int, id as int),
            same_meta(&final(self).arena, &old(self).arena),
            final(self).array_cap == old(self).array_cap,
    {
        let ghost pre = self.arena;
        let id = self.push_default();
        let n = &mut self.arena.nodes[id];
        n.kind = kind;
        n.atomic_token = token;
        n.string_value = value;
        proof {
            let post = self.arena;
            assert(post.extends(&pre));
            assert(post.node_wf(id as int));
            lemma_extends_keeps_wf(&post, &pre);
            assert(post.keys_at(id as int) =~= Seq::<Seq<char>>::empty());
            assert(post.indices_at(id as int) =~= Seq::<usize>::empty());
            assert(post.items_at(id as int, 0) =~= Seq::<Tree>::empty());
            lemma_leaf_laid_out(&post, id as int);
        }
        id
    }

    /// Add the tree of a YAML value and return the identifier of its root.
    /// The nodes that are added are those of the tree, each once, and the
    /// root is the last of them.
    pub fn build(&mut self, y: &YamlValue) -> (id: usize)
        requires
            old(self).arena.wf(),
        ensures
            old(self).arena.nodes@.len() <= id,
            id + 1 == final(self).arena.nodes@.len(),
            !(y is Array) && !(y is Hash) ==> id == old(self).arena.nodes@.len(),
            final(self).arena.laid_out(id as int, old(self).arena.nodes@.len() as int),
            final(self).arena.wf(),
            final(self).arena.extends(&old(self).arena),
            final(self).arena.tree_at(id as int) == yaml_tree(*y, old(self).array_cap),
            same_meta(&final(self).arena, &old(self).arena),
            final(self).array_cap == old(self).array_cap,
        decreases y,
    {
        let ghost pre = self.arena;
        let ghost cap = self.array_cap;
        match y {
            YamlValue::Array(v) => {
                let total = v.len();
                let kept = if total < self.array_cap {
                    total
                } else {
                    self.array_cap
                };
                let mut child_ids: Vec<usize> = Vec::with_capacity(kept);
                let mut i: usize = 0;
                proof {
                    lemma_row_begins(&self.arena);
                }
                while i < kept
                    invariant
                        self.arena.wf(),
                        self.arena.extends(&pre),
                        same_meta(&self.arena, &pre),
                        self.array_cap == cap,
                        *y == YamlValue::Array(*v),
                        i <= kept <= v@.len(),
                        kept <= cap,
                        child_ids@.len() == i,
                        in_a_row(&self.arena, child_ids@, pre.nodes@.len() as int),
                        forall|j: int|
                            0 <= j < i ==> #[trigger] child_ids@[j] < self.arena.nodes@.len()
                                && self.arena.tree_at(child_ids@[j] as int) == yaml_tree(
                                v@[j],
                                cap,
                            ),
                    decreases kept - i,
                {
                    let ghost mid = self.arena;
                    proof {
                        assert(decreases_to!(*y => y->Array_0));
                        assert(decreases_to!(y->Array_0 => (y->Array_0)@));
                        assert(decreases_to!((y->Array_0)@ => (y->Array_0)@[i as int]));
                    }
                    let cid = self.build(&v[i]);
                    proof {
                        lemma_row_grows(&self.arena, &mid, child_ids@, cid, pre.nodes@.len() as int);
                        lemma_extends_trans(&self.arena, &mid, &pre);
                        assert forall|j: int| 0 <= j < i implies self.arena.tree_at(
                            #[trigger] child_ids@[j] as int,
                        ) == yaml_tree(v@[j], cap) by {
                            lemma_extends_keeps_tree(&self.arena, &mid, child_ids@[j] as int);
                        }
                    }
                    child_ids.push(cid);
                    i += 1;
                }
                let ghost before = self.arena;
                let ghost ids = child_ids@;
                let id = self.push_array(child_ids, total);
                proof {
                    lemma_extends_trans(&self.arena, &before, &pre);
                    assert(trees_of(&before, ids, at_most(ids.len(), cap)) =~= yaml_tree(
                        *y,
                        cap,
                    ).items);
                }
                id
            },
            YamlValue::Hash(hm) => {
                let mut keys: Vec<String> = Vec::with_capacity(hm.len());
                let mut children: Vec<usize> = Vec::with_capacity(hm.len());
                let mut i: usize = 0;
                proof {
                    lemma_row_begins(&self.arena);
                }
                while i < hm.len()
                    invariant
                        self.arena.wf(),
                        self.arena.extends(&pre),
                        same_meta(&self.arena, &pre),
                        self.array_cap == cap,
                        *y == YamlValue::Hash(*hm),
                        i <= hm@.len(),
                        keys@.len() == i,
                        children@.len() == i,
                        in_a_row(&self.arena, children@, pre.nodes@.len() as int),
                        forall|j: int| 0 <= j < i ==> (#[trigger] keys@[j])@ == yaml_key_text(hm@[j].0),
                        forall|j: int|
                            0 <= j < i ==> #[trigger] children@[j] < self.arena.nodes@.len()
                                && self.arena.tree_at(children@[j] as int) == yaml_tree(
                                hm@[j].1,
                                cap,
                            ),
                    decreases hm@.len() - i,
                {
                    let ghost mid = self.arena;
                    let key = stringify_yaml_key(&hm[i].0);
                    proof {
                        assert(decreases_to!(*y => y->Hash_0));
                        assert(decreases_to!(y->Hash_0 => (y->Hash_0)@));
                        assert(decreases_to!((y->Hash_0)@ => (y->Hash_0)@[i as int]));
                        assert(decreases_to!((y->Hash_0)@[i as int] => (y->Hash_0)@[i as int].1));
                    }
                    let cid = self.build(&hm[i].1);
                    proof {
                        lemma_row_grows(&self.arena, &mid, children@, cid, pre.nodes@.len() as int);
                        lemma_extends_trans(&self.arena, &mid, &pre);
                        assert forall|j: int| 0 <= j < i implies self.arena.tree_at(
                            #[trigger] children@[j] as int,
                        ) == yaml_tree(hm@[j].1, cap) by {
                            lemma_extends_keeps_tree(&self.arena, &mid, children@[j] as int);
                        }
                    }
                    keys.push(key);
                    children.push(cid);
                    i += 1;
                }
                let ghost before = self.arena;
                let ghost ids = children@;
                let ghost names = keys@;
                let id = self.push_object_root(keys, children);
                proof {
                    lemma_extends_trans(&self.arena, &before, &pre);
                    let n = hm@.len();
                    assert(at_most(names.len(), ids.len() as usize) == n);
                    assert(texts_upto(names, n) =~= yaml_tree(*y, cap).keys);
                    assert(trees_of(&before, ids, n) =~= yaml_tree(*y, cap).items);
                }
                id
            },
            YamlValue::String(s) => self.push_scalar(NodeKind::String, None, Some(s.clone())),
            YamlValue::Integer(i) => self.push_scalar(
                NodeKind::Number,
                Some(int_to_string(*i)),
                None,
            ),
            YamlValue::Real(s) => self.push_scalar(NodeKind::Number, Some(s.clone()), None),
            YamlValue::Boolean(b) => {
                let token = (if *b {
                    "true"
                } else {
                    "false"
                }).to_owned();
                self.push_scalar(NodeKind::Bool, Some(token), None)
            },
            YamlValue::Null => self.push_scalar(NodeKind::Null, Some("null".to_owned()), None),
            YamlValue::BadValue => self.push_scalar(NodeKind::Null, Some("null".to_owned()), None),
            YamlValue::Alias(_n) => self.push_scalar(
                NodeKind::String,
                None,
                Some("*alias".to_owned()),
            ),
        }
    }

    /// Add the tree of the documents of one input: the document itself where
    /// there is one, an empty array where there is none, and else an array of
    /// the documents.
    pub fn build_documents(&mut self, docs: &Vec<YamlValue>) -> (id: usize)
        requires
            old(self).arena.wf(),
        ensures
            old(self).arena.nodes@.len() <= id,
            id + 1 == final(self).arena.nodes@.len(),
            final(self).arena.laid_out(id as int, old(self).arena.nodes@.len() as int),
            final(self).arena.wf(),
            final(self).arena.extends(&old(self).arena),
            final(self).arena.tree_at(id as int) == yaml_root_tree(docs@, old(self).array_cap),
            same_meta(&final(self).arena, &old(self).arena),
            final(self).array_cap == old(self).array_cap,
    {
        let ghost pre = self.arena;
        let ghost cap = self.array_cap;
        proof {
            lemma_row_begins(&self.arena);
        }
        if docs.len() == 0 {
            let none: Vec<usize> = Vec::new();
            assert(none@ =~= Seq::<usize>::empty());
            let id = self.push_array(none, 0);
            assert(trees_of(&pre, Seq::<usize>::empty(), 0) =~= Seq::<Tree>::empty());
            id
        } else if docs.len() == 1 {
            self.build(&docs[0])
        } else {
            let kept = if docs.len() < self.array_cap {
                docs.len()
            } else {
                self.array_cap
            };
            let mut children: Vec<usize> = Vec::with_capacity(kept);
            let mut i: usize = 0;
            while i < kept
                invariant
                    self.arena.wf(),
                    self.arena.extends(&pre),
                    same_meta(&self.arena, &pre),
                    self.array_cap == cap,
                    i <= kept <= docs@.len(),
                    kept == at_most(docs@.len(), cap),
                    children@.len() == i,
                    in_a_row(&self.arena, children@, pre.nodes@.len() as int),
                    forall|j: int|
                        0 <= j < i ==> #[trigger] children@[j] < self.arena.nodes@.len()
                            && self.arena.tree_at(children@[j] as int) == yaml_tree(docs@[j], cap),
                decreases kept - i,
            {
                let ghost mid = self.arena;
                let cid = self.build(&docs[i]);
                proof {
                    lemma_row_grows(&self.arena, &mid, children@, cid, pre.nodes@.len() as int);
                    lemma_extends_trans(&self.arena, &mid, &pre);
                    assert forall|j: int| 0 <= j < i implies self.arena.tree_at(
                        #[trigger] children@[j] as int,
                    ) == yaml_tree(docs@[j], cap) by {
                        lemma_extends_keeps_tree(&self.arena, &mid, children@[j] as int);
                    }
                }
                children.push(cid);
                i += 1;
            }
            let ghost before = self.arena;
            let ghost ids = children@;
            let id = self.push_array(children, docs.len());
            proof {
                lemma_extends_trans(&self.arena, &before, &pre);
                assert(trees_of(&before, ids, at_most(ids.len(), cap)) =~= yaml_root_tree(
                    docs@,
                    cap,
                ).items);
            }
            id
        }
    }
}

/// The tree of the documents of one input.
pub open spec fn yaml_root_tree(docs: Seq<YamlValue>, cap: usize) -> Tree {
    if docs.len() == 0 {
        array_tree(Seq::empty(), 0)
    } else if docs.len() == 1 {
        yaml_tree(docs[0], cap)
    } else {
        array_tree(
            Seq::new(at_most(docs.len(), cap), |i: int| yaml_tree(docs[i], cap)),
            docs.len() as usize,
        )
    }
}

/// The tree of a YAML input, where its bytes are text that parses.
pub open spec fn yaml_input_tree(bytes: Seq<u8>, cap: usize) -> Option<Tree> {
    match text_of_bytes(bytes) {
        Some(text) => match yaml_documents(text) {
            Some(docs) => Some(yaml_root_tree(docs, cap)),
            None => None,
        },
        None => None,
    }
}

/// Why a YAML input has no tree.
pub open spec fn yaml_input_failure(bytes: Seq<u8>) -> IngestFailure {
    if text_of_bytes(bytes) is None {
        IngestFailure::InvalidUtf8
    } else {
        IngestFailure::Syntax
    }
}

/// Read one YAML input into the builder.
pub fn build_yaml_input(b: &mut YamlArenaBuilder, bytes: Vec<u8>) -> (r: Result<usize, HeadsonError>)
    requires
        old(b).arena.wf(),
    ensures
        final(b).arena.wf(),
        final(b).arena.extends(&old(b).arena),
        same_meta(&final(b).arena, &old(b).arena),
        final(b).array_cap == old(b).array_cap,
        match r {
            Ok(id) => old(b).arena.nodes@.len() <= id && id + 1 == final(b).arena.nodes@.len()
                && final(b).arena.laid_out(id as int, old(b).arena.nodes@.len() as int)
                && yaml_input_tree(bytes@, old(b).array_cap) == Some(
                final(b).arena.tree_at(id as int),
            ),
            Err(e) => yaml_input_tree(bytes@, old(b).array_cap) is None && e
                == HeadsonError::IngestFailed(yaml_input_failure(bytes@)),
        },
{
    let s = match decode_text(bytes) {
        Some(s) => s,
        None => {
            return Err(HeadsonError::IngestFailed(IngestFailure::InvalidUtf8));
        },
    };
    let docs = match load_yaml_documents(s.as_str()) {
        Some(docs) => docs,
        None => {
            return Err(HeadsonError::IngestFailed(IngestFailure::Syntax));
        },
    };
    Ok(b.build_documents(&docs))
}

/// Read one YAML input into an arena. A single document is the root; several
/// documents stand in an array; no document is an empty array.
pub fn build_yaml_tree_arena_from_bytes(bytes: Vec<u8>, config: &PriorityConfig) -> (r: Result<
    JsonTreeArena,
    HeadsonError,
>)
    ensures
        match r {
            Ok(arena) => arena.wf() && arena.rooted() && arena.compact() && !arena.is_fileset
                && yaml_input_tree(bytes@, config.array_max_items) == Some(
                arena.tree_at(arena.root_id as int),
            ),
            Err(e) => yaml_input_tree(bytes@, config.array_max_items) is None && e
                == HeadsonError::IngestFailed(yaml_input_failure(bytes@)),
        },
{
    let mut b = YamlArenaBuilder::new(config.array_max_items);
    let root_id = match build_yaml_input(&mut b, bytes) {
        Ok(id) => id,
        Err(e) => {
            return Err(e);
        },
    };
    let mut arena = b.finish();
    let ghost built = arena;
    arena.root_id = root_id;
    proof {
        assert(arena.extends(&built));
        lemma_extends_keeps_wf(&arena, &built);
        lemma_extends_keeps_tree(&arena, &built, root_id as int);
        lemma_extends_keeps_layout(&arena, &built, root_id as int, 0);
    }
    Ok(arena)
}

/// The names of the inputs.
pub open spec fn input_names(inputs: Seq<(String, Vec<u8>)>) -> Seq<Seq<char>> {
    Seq::new(inputs.len(), |i: int| inputs[i].0@)
}

/// The trees of the inputs, each read as YAML.
pub open spec fn yaml_input_trees(inputs: Seq<(String, Vec<u8>)>, cap: usize) -> Seq<Tree> {
    Seq::new(inputs.len(), |i: int| yaml_input_tree(inputs[i].1@, cap)->0)
}

/// Input `i` is the first that has no tree, and `e` names it and says why.
pub open spec fn first_yaml_failure(
    inputs: Seq<(String, Vec<u8>)>,
    cap: usize,
    i: int,
    e: HeadsonError,
) -> bool {
    &&& 0 <= i < inputs.len()
    &&& yaml_input_tree(inputs[i].1@, cap) is None
    &&& e == (HeadsonError::InputFailed {
        input: inputs[i].0,
        failure: yaml_input_failure(inputs[i].1@),
    })
    &&& forall|j: int| 0 <= j < i ==> (#[trigger] yaml_input_tree(inputs[j].1@, cap)) is Some
}

/// Read named YAML inputs into one arena: a fileset whose root holds the tree
/// of each input under its name. The first input that cannot be read fails
/// the whole.
pub fn build_yaml_tree_arena_from_many(inputs: Vec<(String, Vec<u8>)>, config: &PriorityConfig) -> (r:
    Result<JsonTreeArena, HeadsonError>)
    ensures
        match r {
            Ok(arena) => {
                &&& arena.wf()
                &&& arena.rooted()
                &&& arena.compact()
                &&& arena.is_fileset
                &&& forall|i: int|
                    0 <= i < inputs@.len() ==> (#[trigger] yaml_input_tree(
                        inputs@[i].1@,
                        config.array_max_items,
                    )) is Some
                &&& arena.tree_at(arena.root_id as int) == object_tree(
                    input_names(inputs@),
                    yaml_input_trees(inputs@, config.array_max_items),
                )
                &&& arena.fileset_kinds@ == Seq::new(inputs@.len(), |i: int| FilesetInputKind::Yaml)
            },
            Err(e) => exists|i: int| #[trigger]
                first_yaml_failure(inputs@, config.array_max_items, i, e),
        },
{
    let ghost cap = config.array_max_items;
    let mut b = YamlArenaBuilder::new(config.array_max_items);
    let ghost pre = b.arena;
    let mut keys: Vec<String> = Vec::with_capacity(inputs.len());
    let mut children: Vec<usize> = Vec::with_capacity(inputs.len());
    let mut kinds: Vec<FilesetInputKind> = Vec::with_capacity(inputs.len());
    let mut i: usize = 0;
    proof {
        lemma_row_begins(&b.arena);
    }
    while i < inputs.len()
        invariant
            b.arena.wf(),
            in_a_row(&b.arena, children@, 0),
            b.array_cap == cap,
            cap == config.array_max_items,
            !b.arena.is_fileset,
            b.arena.fileset_kinds@.len() == 0,
            i <= inputs@.len(),
            keys@.len() == i,
            children@.len() == i,
            kinds@ == Seq::new(i as nat, |j: int| FilesetInputKind::Yaml),
            forall|j: int| 0 <= j < i ==> (#[trigger] keys@[j])@ == inputs@[j].0@,
            forall|j: int|
                0 <= j < i ==> #[trigger] children@[j] < b.arena.nodes@.len() && yaml_input_tree(
                    inputs@[j].1@,
                    cap,
                ) == Some(b.arena.tree_at(children@[j] as int)),
        decreases inputs@.len() - i,
    {
        let ghost mid = b.arena;
        let key = inputs[i].0.clone();
        let bytes = inputs[i].1.clone();
        assert(bytes@ == inputs@[i as int].1@);
        let child_id = match build_yaml_input(&mut b, bytes) {
            Ok(id) => id,
            Err(unnamed) => {
                let e = unnamed.with_input(&inputs[i].0);
                proof {
                    assert forall|j: int| 0 <= j < i implies (#[trigger] yaml_input_tree(
                        inputs@[j].1@,
                        cap,
                    )) is Some by {
                        assert(children@[j] < mid.nodes@.len());
                    }
                    assert(first_yaml_failure(inputs@, cap, i as int, e));
                }
                return Err(e);
            },
        };
        proof {
            assert forall|j: int| 0 <= j < i implies yaml_input_tree(inputs@[j].1@, cap) == Some(
                b.arena.tree_at(#[trigger] children@[j] as int),
            ) by {
                lemma_extends_keeps_tree(&b.arena, &mid, children@[j] as int);
            }
            lemma_row_grows(&b.arena, &mid, children@, child_id, 0);
        }
        keys.push(key);
        children.push(child_id);
        kinds.push(FilesetInputKind::Yaml);
        assert(kinds@ =~= Seq::new((i + 1) as nat, |j: int| FilesetInputKind::Yaml));
        i += 1;
    }
    let ghost before = b.arena;
    let ghost ids = children@;
    let ghost names = keys@;
    let root_id = b.push_object_root(keys, children);
    let mut arena = b.finish();
    let ghost built = arena;
    arena.root_id = root_id;
    arena.is_fileset = true;
    arena.fileset_kinds = kinds;
    proof {
        let n = inputs@.len();
        assert(arena.extends(&built));
        lemma_extends_keeps_wf(&arena, &built);
        lemma_extends_keeps_tree(&arena, &built, root_id as int);
        lemma_extends_keeps_layout(&arena, &built, root_id as int, 0);
        assert(at_most(names.len(), ids.len() as usize) == n);
        assert(texts_upto(names, n) =~= input_names(inputs@));
        assert(trees_of(&before, ids, n) =~= yaml_input_trees(inputs@, cap));
        assert forall|j: int| 0 <= j < n implies (#[trigger] yaml_input_tree(inputs@[j].1@, cap))
            is Some by {
            assert(ids[j] < before.nodes@.len());
        }
    }
    Ok(arena)
}

/// The YAML reader.
pub struct YamlIngest;

impl Ingest for YamlIngest {
    /// One YAML input is read exactly where it decodes and parses; the arena
    /// then holds its tree, and a failure names its cause.
    fn parse_one(bytes: Vec<u8>, cfg: &PriorityConfig) -> (r: Result<JsonTreeArena, HeadsonError>)
        ensures
            match r {
                Ok(arena) => arena.compact() && yaml_input_tree(bytes@, cfg.array_max_items)
                    == Some(arena.tree_at(arena.root_id as int)),
                Err(e) => yaml_input_tree(bytes@, cfg.array_max_items) is None && e
                    == HeadsonError::IngestFailed(yaml_input_failure(bytes@)),
            },
    {
        build_yaml_tree_arena_from_bytes(bytes, cfg)
    }

    /// Named YAML inputs are read exactly where each of them can be; the
    /// root then holds each input's tree under its name, and a failure is
    /// that of the first input that cannot be read.
    fn parse_many(inputs: Vec<(String, Vec<u8>)>, cfg: &PriorityConfig) -> (r: Result<
        JsonTreeArena,
        HeadsonError,
    >)
        ensures
            match r {
                Ok(arena) => {
                    &&& arena.compact()
                    &&& forall|i: int|
                        0 <= i < inputs@.len() ==> (#[trigger] yaml_input_tree(
                            inputs@[i].1@,
                            cfg.array_max_items,
                        )) is Some
                    &&& arena.tree_at(arena.root_id as int) == object_tree(
                        input_names(inputs@),
                        yaml_input_trees(inputs@, cfg.array_max_items),
                    )
                    &&& arena.fileset_kinds@ == Seq::new(
                        inputs@.len(),
                        |i: int| FilesetInputKind::Yaml,
                    )
                },
                Err(e) => exists|i: int| #[trigger]
                    first_yaml_failure(inputs@, cfg.array_max_items, i, e),
            },
    {
        build_yaml_tree_arena_from_many(inputs, cfg)
    }
}

/// Read one YAML input into an arena.
pub fn parse_yaml_one(bytes: Vec<u8>, cfg: &PriorityConfig) -> (r: Result<JsonTreeArena, HeadsonError>)
    ensures
        match r {
            Ok(arena) => arena.wf() && arena.rooted() && arena.compact() && !arena.is_fileset
                && yaml_input_tree(bytes@, cfg.array_max_items) == Some(
                arena.tree_at(arena.root_id as int),
            ),
            Err(e) => yaml_input_tree(bytes@, cfg.array_max_items) is None && e
                == HeadsonError::IngestFailed(yaml_input_failure(bytes@)),
        },
{
    build_yaml_tree_arena_from_bytes(bytes, cfg)
}

/// Read named YAML inputs into one arena, as a fileset.
pub fn parse_yaml_many(inputs: Vec<(String, Vec<u8>)>, cfg: &PriorityConfig) -> (r: Result<
    JsonTreeArena,
    HeadsonError,
>)
    ensures
        match r {
            Ok(arena) => {
                &&& arena.wf()
                &&& arena.rooted()
                &&& arena.compact()
                &&& arena.is_fileset
                &&& forall|i: int|
                    0 <= i < inputs@.len() ==> (#[trigger] yaml_input_tree(
                        inputs@[i].1@,
                        cfg.array_max_items,
                    )) is Some
                &&& arena.tree_at(arena.root_id as int) == object_tree(
                    input_names(inputs@),
                    yaml_input_trees(inputs@, cfg.array_max_items),
                )
                &&& arena.fileset_kinds@ == Seq::new(
                    inputs@.len(),
                    |i: int| FilesetInputKind::Yaml,
                )
            },
            Err(e) => exists|i: int| #[trigger]
                first_yaml_failure(inputs@, cfg.array_max_items, i, e),
        },
{
    build_yaml_tree_arena_from_many(inputs, cfg)
}

} // verus!
