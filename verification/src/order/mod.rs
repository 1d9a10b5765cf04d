pub mod builder;
pub mod sort;
pub mod types;

use crate::ingest::fileset::FilesetInputKind;
use crate::order::types::{ArrayBias, ArraySamplerStrategy};
use vstd::prelude::*;

verus! {

/// Dense index of a node in a priority order.
#[derive(Copy, Clone, Debug, PartialEq, Eq, Structural)]
pub struct NodeId(pub usize);

/// Index of the root in every non-empty priority order.
pub const ROOT_PQ_ID: usize = 0;

/// The six kinds of value a tree node can hold.
#[derive(Copy, Clone, Debug, PartialEq, Eq, Structural)]
pub enum NodeKind {
    Null,
    Bool,
    Number,
    String,
    Array,
    Object,
}

/// Whether an object is an ordinary one or the synthetic root that holds the
/// files of a fileset under their names.
#[derive(Copy, Clone, Debug, PartialEq, Eq, Structural)]
pub enum ObjectType {
    Object,
    Fileset,
}

/// A node as the selector and the renderer see it.
#[derive(Clone, Debug)]
pub enum RankedNode {
    /// An array; `total` is its length before sampling.
    Array { node_id: NodeId, key_in_object: Option<String>, total: usize },
    /// An object; `total` is its number of entries.
    Object { node_id: NodeId, key_in_object: Option<String>, total: usize },
    /// A long string that may be shown as a prefix. Its children are its
    /// parts, one per user-perceived character that was expanded.
    SplittableLeaf { node_id: NodeId, key_in_object: Option<String>, value: String },
    /// A scalar, a short string or a code line: shown whole or not at all.
    AtomicLeaf { node_id: NodeId, key_in_object: Option<String>, kind: NodeKind, token: String },
    /// One user-perceived character of a splittable string.
    LeafPart { node_id: NodeId, text: String },
}

impl RankedNode {
    /// The key under which the node sits in its parent object, if any.
    pub open spec fn spec_key(&self) -> Option<String> {
        match self {
            RankedNode::Array { key_in_object, .. } => *key_in_object,
            RankedNode::Object { key_in_object, .. } => *key_in_object,
            RankedNode::SplittableLeaf { key_in_object, .. } => *key_in_object,
            RankedNode::AtomicLeaf { key_in_object, .. } => *key_in_object,
            RankedNode::LeafPart { .. } => None,
        }
    }

    /// The identifier that the node carries.
    pub open spec fn spec_id(&self) -> NodeId {
        match self {
            RankedNode::Array { node_id, .. } => *node_id,
            RankedNode::Object { node_id, .. } => *node_id,
            RankedNode::SplittableLeaf { node_id, .. } => *node_id,
            RankedNode::AtomicLeaf { node_id, .. } => *node_id,
            RankedNode::LeafPart { node_id, .. } => *node_id,
        }
    }

    /// A leaf that can have no children.
    pub open spec fn is_childless(&self) -> bool {
        self is AtomicLeaf || self is LeafPart
    }

    pub fn key_in_object(&self) -> (key: Option<&String>)
        ensures
            match key {
                Some(k) => self.spec_key() == Some(*k),
                None => self.spec_key() is None,
            },
    {
        match self {
            RankedNode::Array { key_in_object, .. } => key_in_object.as_ref(),
            RankedNode::Object { key_in_object, .. } => key_in_object.as_ref(),
            RankedNode::SplittableLeaf { key_in_object, .. } => key_in_object.as_ref(),
            RankedNode::AtomicLeaf { key_in_object, .. } => key_in_object.as_ref(),
            RankedNode::LeafPart { .. } => None,
        }
    }
}

/// Knobs of ingest and of the priority order.
#[derive(Copy, Clone, Debug, PartialEq, Eq, Structural)]
pub struct PriorityConfig {
    /// Strings with more user-perceived characters than this are splittable.
    pub max_string_graphemes: usize,
    /// Arrays keep at most this many elements.
    pub array_max_items: usize,
    pub prefer_tail_arrays: bool,
    pub array_bias: ArrayBias,
    pub array_sampler: ArraySamplerStrategy,
    pub line_budget_only: bool,
}

impl PriorityConfig {
    pub fn new(max_string_graphemes: usize, array_max_items: usize) -> (cfg: Self)
        ensures
            cfg == (PriorityConfig {
                max_string_graphemes,
                array_max_items,
                prefer_tail_arrays: false,
                array_bias: ArrayBias::HeadMidTail,
                array_sampler: ArraySamplerStrategy::Default,
                line_budget_only: false,
            }),
    {
        PriorityConfig {
            max_string_graphemes,
            array_max_items,
            prefer_tail_arrays: false,
            array_bias: ArrayBias::HeadMidTail,
            array_sampler: ArraySamplerStrategy::Default,
            line_budget_only: false,
        }
    }
}

/// The tree in selection order: every node, its parent and children, and the
/// sequence in which nodes enter a preview.
pub struct PriorityOrder {
    pub nodes: Vec<RankedNode>,
    pub by_priority: Vec<NodeId>,
    pub parent: Vec<Option<NodeId>>,
    pub children: Vec<Vec<NodeId>>,
    pub total_nodes: usize,
    pub object_type: Vec<ObjectType>,
    /// For a child of an array, its index in the array before sampling.
    pub index_in_parent_array: Vec<Option<usize>>,
    /// For the root of a file in a fileset, the kind the file was read as.
    pub file_kind: Vec<Option<FilesetInputKind>>,
}

/// Every parent has a smaller index than its child.
pub open spec fn parents_wf(parents: Seq<Option<NodeId>>) -> bool {
    forall|i: int|
        0 <= i < parents.len() ==> (#[trigger] parents[i] matches Some(p) ==> p.0 < i)
}

/// Node 0 is the one root: it alone has no parent.
pub open spec fn one_root(parents: Seq<Option<NodeId>>) -> bool {
    forall|i: int| 0 <= i < parents.len() ==> (#[trigger] parents[i] is None <==> i == 0)
}

/// Index of the parent of `i`, where it has one.
pub open spec fn parent_index(parents: Seq<Option<NodeId>>, i: int) -> int {
    match parents[i] {
        Some(p) => p.0 as int,
        None => -1,
    }
}

/// `x` is `start` or one of its ancestors.
pub open spec fn in_chain(parents: Seq<Option<NodeId>>, start: int, x: int) -> bool
    decreases start,
{
    if 0 <= start < parents.len() {
        x == start || match parents[start] {
            Some(p) => p.0 < start && in_chain(parents, p.0 as int, x),
            None => false,
        }
    } else {
        false
    }
}

/// The set `s` holds the parent of each of its members.
pub open spec fn parent_closed(parents: Seq<Option<NodeId>>, s: Seq<bool>) -> bool {
    forall|i: int|
        0 <= i < s.len() && i < parents.len() && #[trigger] s[i] ==> (parents[i] matches Some(p)
            ==> p.0 < s.len() && s[p.0 as int])
}

impl PriorityOrder {
    /// The child lists agree with the parent links: each list is strictly
    /// increasing, names exactly the nodes whose parent it belongs to.
    pub open spec fn children_wf(&self) -> bool {
        &&& forall|p: int, j: int|
            0 <= p < self.children@.len() && 0 <= j < self.children@[p]@.len() ==> {
                let c = #[trigger] self.children@[p]@[j];
                &&& c.0 < self.total_nodes
                &&& self.parent@[c.0 as int] == Some(NodeId(p as usize))
            }
        &&& forall|p: int, j: int, k: int|
            0 <= p < self.children@.len() && 0 <= j < k < self.children@[p]@.len()
                ==> (#[trigger] self.children@[p]@[j]).0 < (#[trigger] self.children@[p]@[k]).0
        &&& forall|i: int|
            0 <= i < self.parent@.len() ==> (#[trigger] self.parent@[i] matches Some(p)
                ==> self.children@[p.0 as int]@.contains(NodeId(i as usize)))
    }

    /// Leaves have no children, and the children of a splittable string are
    /// its parts.
    pub open spec fn leaves_wf(&self) -> bool {
        &&& forall|i: int|
            0 <= i < self.nodes@.len() && (#[trigger] self.nodes@[i]).is_childless()
                ==> self.children@[i]@.len() == 0
        &&& forall|i: int, j: int|
            0 <= i < self.nodes@.len() && self.nodes@[i] is SplittableLeaf && 0 <= j
                < self.children@[i]@.len() ==> self.nodes@[(#[trigger] self.children@[i]@[j]).0 as int] is LeafPart
    }

    /// The selection sequence names every node at most once.
    pub open spec fn priority_wf(&self) -> bool {
        &&& self.by_priority@.len() == self.total_nodes
        &&& forall|j: int|
            0 <= j < self.by_priority@.len() ==> (#[trigger] self.by_priority@[j]).0
                < self.total_nodes
        &&& self.by_priority@.no_duplicates()
    }

    /// Well-formedness of a priority order.
    pub open spec fn wf(&self) -> bool {
        &&& self.nodes@.len() == self.total_nodes
        &&& self.parent@.len() == self.total_nodes
        &&& self.children@.len() == self.total_nodes
        &&& self.object_type@.len() == self.total_nodes
        &&& self.index_in_parent_array@.len() == self.total_nodes
        &&& self.file_kind@.len() == self.total_nodes
        &&& parents_wf(self.parent@)
        &&& self.children_wf()
        &&& self.leaves_wf()
        &&& self.priority_wf()
    }
}

pub proof fn lemma_chain_bounds(parents: Seq<Option<NodeId>>, start: int, x: int)
    requires
        in_chain(parents, start, x),
    ensures
        0 <= x <= start < parents.len(),
    decreases start,
{
    if x != start {
        lemma_chain_bounds(parents, parent_index(parents, start), x);
    }
}

/// The chain relation is transitive.
pub proof fn lemma_chain_trans(parents: Seq<Option<NodeId>>, a: int, b: int, c: int)
    requires
        in_chain(parents, a, b),
        in_chain(parents, b, c),
    ensures
        in_chain(parents, a, c),
    decreases a,
{
    if a != b {
        lemma_chain_trans(parents, parent_index(parents, a), b, c);
    }
}

/// A parent-closed set that holds a node holds its whole chain.
pub proof fn lemma_closed_holds_chain(
    parents: Seq<Option<NodeId>>,
    s: Seq<bool>,
    start: int,
    x: int,
)
    requires
        parent_closed(parents, s),
        s.len() == parents.len(),
        0 <= start < s.len(),
        s[start],
        in_chain(parents, start, x),
    ensures
        0 <= x < s.len(),
        s[x],
    decreases start,
{
    if x != start {
        lemma_closed_holds_chain(parents, s, parent_index(parents, start), x);
    }
}

} // verus!
