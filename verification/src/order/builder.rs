use crate::error::HeadsonError;
use crate::ingest::fileset::FilesetInputKind;
use crate::order::sort::{
    key_at, keyed, lemma_keyed_by_multiset, lemma_no_duplicates_by_multiset,
    lemma_stable_sort_is_unique, sort_by_keys, sorted_by, stably_sorted,
};
use crate::order::types::ArraySamplerStrategy;
use crate::order::{
    one_root, parents_wf, NodeId, NodeKind, ObjectType, PriorityConfig, PriorityOrder,
};
use crate::order::RankedNode;
use crate::utils::tree_arena::{JsonTreeArena, JsonTreeNode};
use unicode_segmentation::UnicodeSegmentation;
use vstd::prelude::*;

verus! {

/// The user-perceived characters of a text, in order.
pub uninterp spec fn grapheme_clusters(text: Seq<char>) -> Seq<Seq<char>>;

/// The texts of a sequence of strings.
pub open spec fn cluster_texts(parts: Seq<String>) -> Seq<Seq<char>> {
    Seq::new(parts.len(), |i: int| parts[i]@)
}

/// `UnicodeSegmentation::graphemes` of the `unicode-segmentation` crate
/// iterates over the extended grapheme clusters of a text. The clusters
/// depend on the text alone, so they are named and nothing more is claimed
/// of them.
#[verifier::external_body]
pub(crate) fn split_graphemes(text: &str) -> (parts: Vec<String>)
    ensures
        cluster_texts(parts@) == grapheme_clusters(text@),
{
    UnicodeSegmentation::graphemes(text, true).map(|g| g.to_string()).collect()
}

/// The tree while it is numbered breadth first. Every node made so far has
/// its entry in each vector but `children`, which has one for each node
/// whose children are made.
pub struct OrderBuilder {
    pub nodes: Vec<RankedNode>,
    pub parent: Vec<Option<NodeId>>,
    pub children: Vec<Vec<NodeId>>,
    pub object_type: Vec<ObjectType>,
    pub index_in_parent_array: Vec<Option<usize>>,
    pub file_kind: Vec<Option<FilesetInputKind>>,
    /// The arena node that each node was made from; for a part of a string,
    /// the node of the string.
    pub arena_of: Vec<usize>,
    /// The rank of each node.
    pub ranks: Vec<usize>,
    /// The file that each node lies in, as a position among the root's
    /// children.
    pub slots: Vec<usize>,
}

/// The number of the first child of node `p` when the nodes are numbered
/// breadth first: the children of the root begin at 1, those of any other
/// node behind the children of the node before it.
pub open spec fn first_child(children: Seq<Vec<NodeId>>, p: int) -> int
    decreases p,
{
    if p <= 0 {
        1
    } else {
        first_child(children, p - 1) + children[p - 1]@.len()
    }
}

/// The nodes are numbered breadth first: the root is node 0, and the
/// children of each node follow one another from the number of its first
/// child.
pub open spec fn breadth_first(children: Seq<Vec<NodeId>>) -> bool {
    forall|p: int, j: int|
        0 <= p < children.len() && 0 <= j < children[p]@.len() ==> (#[trigger] children[p]@[j]).0
            == first_child(children, p) + j
}

/// The number of a first child depends on the nodes before it alone.
pub proof fn lemma_first_child_of_prefix(a: Seq<Vec<NodeId>>, b: Seq<Vec<NodeId>>, p: int)
    requires
        0 <= p <= a.len() <= b.len(),
        forall|i: int| 0 <= i < a.len() ==> #[trigger] a[i] == b[i],
    ensures
        first_child(a, p) == first_child(b, p),
    decreases p,
{
    if p > 0 {
        lemma_first_child_of_prefix(a, b, p - 1);
    }
}

/// The file that the `j`-th child of a node lies in: under the root each
/// child is a file of its own, below that a node lies where its parent does.
pub open spec fn slot_step(parent_slot: usize, parent_is_root: bool, j: int) -> usize {
    if parent_is_root {
        j as usize
    } else {
        parent_slot
    }
}

/// A rank raised by one and by a weight, as far as the machine can count.
pub open spec fn rank_step(rank: usize, weight: usize) -> usize {
    let sum = rank + 1 + weight;
    if sum > usize::MAX {
        usize::MAX
    } else {
        sum as usize
    }
}

/// Whether arrays favour their end.
pub open spec fn favours_tail(cfg: &PriorityConfig) -> bool {
    cfg.prefer_tail_arrays || cfg.array_sampler == ArraySamplerStrategy::Tail
}

/// The weight of the `j`-th of `len` children of a node: its position, from
/// the end for the items of an array that favours its end; nothing for the
/// parts of a string where only lines count.
pub open spec fn child_weight(cfg: &PriorityConfig, parent: RankedNode, j: int, len: int) -> usize {
    match parent {
        RankedNode::Array { .. } => if favours_tail(cfg) {
            (len - 1 - j) as usize
        } else {
            j as usize
        },
        RankedNode::SplittableLeaf { .. } => if cfg.line_budget_only {
            0
        } else {
            j as usize
        },
        _ => j as usize,
    }
}

/// The number of parts that a split string of `len` user-perceived
/// characters gets: one for each, up to the length at which strings are
/// split.
pub open spec fn part_count(len: nat, cfg: &PriorityConfig) -> nat {
    if len < cfg.max_string_graphemes {
        len
    } else {
        cfg.max_string_graphemes as nat
    }
}

/// A node is the `j`-th child of the container that stands for arena node
/// `n`: it stands for the `j`-th child of `n`, under its key if `n` is an
/// object, with its index before sampling if `n` is an array, and with the kind of
/// its file if `n` is the root of a fileset.
pub open spec fn child_mirrors(
    arena: &JsonTreeArena,
    cfg: &PriorityConfig,
    n: JsonTreeNode,
    parent: RankedNode,
    parent_is_root: bool,
    j: int,
    node: RankedNode,
    arena_id: usize,
    index: Option<usize>,
    kind: Option<FilesetInputKind>,
) -> bool {
    &&& arena_id == arena.children@[n.children_start + j]
    &&& arena_id < arena.nodes@.len()
    &&& mirrors_node(node, arena.nodes@[arena_id as int], cfg)
    &&& key_view(node) == if parent is Object && j < n.obj_keys_len {
        Some(arena.obj_keys@[n.obj_keys_start + j]@)
    } else {
        None
    }
    &&& index == if parent is Array {
        Some(
            if j < n.arr_indices_len {
                arena.arr_indices@[n.arr_indices_start + j]
            } else {
                j as usize
            },
        )
    } else {
        None
    }
    &&& kind == if parent_is_root && arena.is_fileset && j < arena.fileset_kinds@.len() {
        Some(arena.fileset_kinds@[j])
    } else {
        None
    }
}

/// The children of node `p` are what the arena says: for a container a node
/// for each child of its arena node, in order; for a split string a part
/// for each of its first user-perceived characters; for any other node
/// nothing.
pub open spec fn children_mirror(
    nodes: Seq<RankedNode>,
    children: Seq<Vec<NodeId>>,
    indices: Seq<Option<usize>>,
    kinds: Seq<Option<FilesetInputKind>>,
    map: Seq<usize>,
    arena: &JsonTreeArena,
    cfg: &PriorityConfig,
    p: int,
) -> bool {
    let r = nodes[p];
    let n = arena.nodes@[map[p] as int];
    let ch = children[p]@;
    match r {
        RankedNode::SplittableLeaf { value, .. } => {
            let clusters = grapheme_clusters(value@);
            &&& ch.len() == part_count(clusters.len(), cfg)
            &&& forall|j: int|
                0 <= j < ch.len() ==> (nodes[(#[trigger] ch[j]).0 as int] matches RankedNode::LeafPart {
                    text,
                    ..
                } && text@ == clusters[j])
        },
        RankedNode::Array { .. } | RankedNode::Object { .. } => {
            &&& ch.len() == n.children_len
            &&& forall|j: int|
                0 <= j < ch.len() ==> {
                    let c = (#[trigger] ch[j]).0 as int;
                    child_mirrors(
                        arena,
                        cfg,
                        n,
                        r,
                        p == 0,
                        j,
                        nodes[c],
                        map[c],
                        indices[c],
                        kinds[c],
                    )
                }
        },
        _ => ch.len() == 0,
    }
}

/// The order is the tree of the arena: node `i` of the order stands for node
/// `map[i]` of the arena, the root for the root, and the children of each
/// node are what the arena says.
pub open spec fn mirrors(
    order: &PriorityOrder,
    arena: &JsonTreeArena,
    cfg: &PriorityConfig,
    map: Seq<usize>,
) -> bool {
    &&& map.len() == order.total_nodes
    &&& order.total_nodes >= 1
    &&& map[0] == arena.root_id
    &&& mirrors_node(order.nodes@[0], arena.nodes@[arena.root_id as int], cfg)
    &&& forall|p: int|
        0 <= p < order.total_nodes ==> #[trigger] children_mirror(
            order.nodes@,
            order.children@,
            order.index_in_parent_array@,
            order.file_kind@,
            map,
            arena,
            cfg,
            p,
        )
}

impl OrderBuilder {
    /// The children that are made are what the arena says.
    pub open spec fn mirror_ok(&self, arena: &JsonTreeArena, cfg: &PriorityConfig) -> bool {
        forall|p: int|
            0 <= p < self.head() ==> #[trigger] children_mirror(
                self.nodes@,
                self.children@,
                self.index_in_parent_array@,
                self.file_kind@,
                self.arena_of@,
                arena,
                cfg,
                p,
            )
    }

    /// Number of nodes whose children are made.
    pub open spec fn head(&self) -> int {
        self.children@.len() as int
    }

    /// Number of nodes made.
    pub open spec fn made(&self) -> int {
        self.nodes@.len() as int
    }

    pub open spec fn lengths_ok(&self, arena: &JsonTreeArena) -> bool {
        &&& self.head() <= self.made()
        &&& self.parent@.len() == self.made()
        &&& self.object_type@.len() == self.made()
        &&& self.index_in_parent_array@.len() == self.made()
        &&& self.file_kind@.len() == self.made()
        &&& self.arena_of@.len() == self.made()
        &&& self.ranks@.len() == self.made()
        &&& self.slots@.len() == self.made()
        &&& one_root(self.parent@)
        &&& forall|i: int| 0 <= i < self.made() ==> #[trigger] self.arena_of@[i] < arena.nodes@.len()
    }

    /// The parent links and the child lists agree. `pend` holds the children
    /// made so far of the node whose children are being made.
    pub open spec fn links_ok(&self, pend: Seq<NodeId>) -> bool {
        let head = self.head();
        &&& forall|i: int|
            0 <= i < self.made() ==> (#[trigger] self.parent@[i] matches Some(p) ==> {
                &&& p.0 < i
                &&& p.0 <= head
                &&& p.0 < head ==> self.children@[p.0 as int]@.contains(NodeId(i as usize))
                &&& p.0 == head ==> pend.contains(NodeId(i as usize))
            })
        &&& forall|p: int, j: int|
            0 <= p < head && 0 <= j < self.children@[p]@.len() ==> {
                let c = #[trigger] self.children@[p]@[j];
                c.0 < self.made() && self.parent@[c.0 as int] == Some(NodeId(p as usize))
            }
        &&& forall|p: int, j: int, k: int|
            0 <= p < head && 0 <= j < k < self.children@[p]@.len() ==> (
            #[trigger] self.children@[p]@[j]).0 < (#[trigger] self.children@[p]@[k]).0
        &&& forall|j: int|
            0 <= j < pend.len() ==> (#[trigger] pend[j]).0 < self.made() && self.parent@[pend[j].0 as int]
                == Some(NodeId(head as usize))
        &&& forall|j: int, k: int|
            0 <= j < k < pend.len() ==> (#[trigger] pend[j]).0 < (#[trigger] pend[k]).0
    }

    /// Leaves have no children, and the children of a splittable string are
    /// its parts.
    pub open spec fn leaves_ok(&self) -> bool {
        &&& forall|p: int|
            0 <= p < self.head() && (#[trigger] self.nodes@[p]).is_childless()
                ==> self.children@[p]@.len() == 0
        &&& forall|p: int, j: int|
            0 <= p < self.head() && self.nodes@[p] is SplittableLeaf && 0 <= j
                < self.children@[p]@.len() ==> self.nodes@[(#[trigger] self.children@[p]@[j]).0 as int] is LeafPart
    }

    /// The rank of each child is the rank of its parent, raised by one and by
    /// the weight of its position.
    pub open spec fn ranks_ok(&self, cfg: &PriorityConfig) -> bool {
        forall|p: int, j: int|
            0 <= p < self.head() && 0 <= j < self.children@[p]@.len() ==> self.ranks@[(
            #[trigger] self.children@[p]@[j]).0 as int] == rank_step(
                self.ranks@[p],
                child_weight(cfg, self.nodes@[p], j, self.children@[p]@.len() as int),
            )
    }

    /// The invariant of the builder between two nodes.
    pub open spec fn inv(&self, arena: &JsonTreeArena, cfg: &PriorityConfig) -> bool {
        &&& self.lengths_ok(arena)
        &&& self.links_ok(Seq::empty())
        &&& self.leaves_ok()
        &&& self.ranks_ok(cfg)
        &&& self.slots_ok()
        &&& self.mirror_ok(arena, cfg)
        &&& self.numbers_ok()
    }

    /// The nodes are numbered breadth first, and the next node to be made is
    /// the first child of the next node to get children.
    pub open spec fn numbers_ok(&self) -> bool {
        &&& breadth_first(self.children@)
        &&& self.made() == first_child(self.children@, self.head())
    }

    /// Every node lies in the file of its parent; a child of the root is a
    /// file of its own.
    pub open spec fn slots_ok(&self) -> bool {
        forall|p: int, j: int|
            0 <= p < self.head() && 0 <= j < self.children@[p]@.len() ==> self.slots@[(
            #[trigger] self.children@[p]@[j]).0 as int] == slot_step(self.slots@[p], p == 0, j)
    }

    /// Everything that was made is as it was in `earlier`.
    pub open spec fn grown_from(&self, earlier: &OrderBuilder) -> bool {
        &&& earlier.made() <= self.made()
        &&& self.children@ == earlier.children@
        &&& forall|i: int| 0 <= i < earlier.made() ==> #[trigger] self.nodes@[i] == earlier.nodes@[i]
        &&& forall|i: int| 0 <= i < earlier.made() ==> #[trigger] self.parent@[i] == earlier.parent@[i]
        &&& forall|i: int| 0 <= i < earlier.made() ==> #[trigger] self.ranks@[i] == earlier.ranks@[i]
        &&& forall|i: int| 0 <= i < earlier.made() ==> #[trigger] self.slots@[i] == earlier.slots@[i]
        &&& forall|i: int|
            0 <= i < earlier.made() ==> #[trigger] self.object_type@[i] == earlier.object_type@[i]
        &&& forall|i: int|
            0 <= i < earlier.made() ==> #[trigger] self.arena_of@[i] == earlier.arena_of@[i]
        &&& forall|i: int|
            0 <= i < earlier.made() ==> #[trigger] self.index_in_parent_array@[i]
                == earlier.index_in_parent_array@[i]
        &&& forall|i: int|
            0 <= i < earlier.made() ==> #[trigger] self.file_kind@[i] == earlier.file_kind@[i]
    }

    /// Add a node as the next child of the node whose children are being
    /// made.
    fn push_child(
        &mut self,
        node: RankedNode,
        arena_id: usize,
        index_in_array: Option<usize>,
        file_kind: Option<FilesetInputKind>,
        rank: usize,
        slot: usize,
        Ghost(arena): Ghost<&JsonTreeArena>,
        Ghost(pend): Ghost<Seq<NodeId>>,
    ) -> (id: usize)
        requires
            old(self).lengths_ok(arena),
            old(self).links_ok(pend),
            old(self).head() < old(self).made(),
            arena_id < arena.nodes@.len(),
        ensures
            id == old(self).made(),
            final(self).made() == id + 1,
            final(self).grown_from(old(self)),
            final(self).lengths_ok(arena),
            final(self).links_ok(pend.push(NodeId(id))),
            final(self).nodes@[id as int] == node,
            final(self).ranks@[id as int] == rank,
            final(self).slots@[id as int] == slot,
            final(self).arena_of@[id as int] == arena_id,
            final(self).index_in_parent_array@[id as int] == index_in_array,
            final(self).file_kind@[id as int] == file_kind,
    {
        let id = self.nodes.len();
        let head = self.children.len();
        self.nodes.push(node);
        self.parent.push(Some(NodeId(head)));
        self.object_type.push(ObjectType::Object);
        self.index_in_parent_array.push(index_in_array);
        self.file_kind.push(file_kind);
        self.arena_of.push(arena_id);
        self.ranks.push(rank);
        self.slots.push(slot);
        proof {
            let next = pend.push(NodeId(id));
            assert forall|i: int| 0 <= i < self.made() implies (#[trigger] self.parent@[i] matches Some(
                p,
            ) ==> {
                &&& p.0 < i
                &&& p.0 <= head
                &&& p.0 < head ==> self.children@[p.0 as int]@.contains(NodeId(i as usize))
                &&& p.0 == head ==> next.contains(NodeId(i as usize))
            }) by {
                if i < id {
                    assert(self.parent@[i] == old(self).parent@[i]);
                    if old(self).parent@[i] is Some && crate::order::parent_index(old(self).parent@, i) == head {
                        let k = choose|k: int| 0 <= k < pend.len() && pend[k] == NodeId(i as usize);
                        assert(next[k] == NodeId(i as usize));
                    }
                } else {
                    assert(next[pend.len() as int] == NodeId(i as usize));
                }
            }
            assert forall|j: int| 0 <= j < next.len() implies (#[trigger] next[j]).0 < self.made()
                && self.parent@[next[j].0 as int] == Some(NodeId(head)) by {
                if j < pend.len() {
                    assert(next[j] == pend[j]);
                }
            }
            assert forall|j: int, k: int| 0 <= j < k < next.len() implies (#[trigger] next[j]).0 < (
            #[trigger] next[k]).0 by {
                if k < pend.len() {
                    assert(next[j] == pend[j] && next[k] == pend[k]);
                } else {
                    assert(next[j] == pend[j]);
                }
            }
        }
        id
    }

    /// Make the children of the first node that has none yet: for a
    /// container a node for each child in the arena, for a splittable string
    /// a part for each of its first user-perceived characters, as many as a
    /// string may have without being split.
    fn expand(&mut self, arena: &JsonTreeArena, cfg: &PriorityConfig)
        requires
            old(self).inv(arena, cfg),
            old(self).head() < old(self).made(),
            arena.wf(),
        ensures
            final(self).inv(arena, cfg),
            final(self).head() == old(self).head() + 1,
            final(self).made() >= old(self).made(),
            final(self).object_type@[0] == old(self).object_type@[0],
            final(self).ranks@[0] == old(self).ranks@[0],
            final(self).slots@[0] == old(self).slots@[0],
            final(self).nodes@[0] == old(self).nodes@[0],
            final(self).arena_of@[0] == old(self).arena_of@[0],
    {
        let ghost pre = *self;
        let head = self.children.len();
        let a = self.arena_of[head];
        let base_rank = self.ranks[head];
        let own_slot = self.slots[head];
        let mut list: Vec<NodeId> = Vec::new();
        let shape: u8 = match &self.nodes[head] {
            RankedNode::Array { .. } => 1,
            RankedNode::Object { .. } => 2,
            RankedNode::SplittableLeaf { .. } => 3,
            _ => 0,
        };
        assert(arena.node_wf(a as int));
        let tail_first = cfg.prefer_tail_arrays || match cfg.array_sampler {
            ArraySamplerStrategy::Tail => true,
            _ => false,
        };
        if shape == 1 || shape == 2 {
            let len = arena.nodes[a].children_len;
            let start = arena.nodes[a].children_start;
            let keys_start = arena.nodes[a].obj_keys_start;
            let keys_len = arena.nodes[a].obj_keys_len;
            let indices_start = arena.nodes[a].arr_indices_start;
            let indices_len = arena.nodes[a].arr_indices_len;
            let n_children = arena.children.len();
            let n_keys = arena.obj_keys.len();
            let n_indices = arena.arr_indices.len();
            let mut j: usize = 0;
            while j < len
                invariant
                    n_children == arena.children@.len(),
                    n_keys == arena.obj_keys@.len(),
                    n_indices == arena.arr_indices@.len(),
                    pre.lengths_ok(arena),
                    arena.wf(),
                    arena.node_wf(a as int),
                    a < arena.nodes@.len(),
                    len == arena.nodes@[a as int].children_len,
                    start == arena.nodes@[a as int].children_start,
                    keys_start == arena.nodes@[a as int].obj_keys_start,
                    keys_len == arena.nodes@[a as int].obj_keys_len,
                    indices_start == arena.nodes@[a as int].arr_indices_start,
                    indices_len == arena.nodes@[a as int].arr_indices_len,
                    shape == 1 || shape == 2,
                    (shape == 1) == (pre.nodes@[head as int] is Array),
                    (shape == 2) == (pre.nodes@[head as int] is Object),
                    tail_first == favours_tail(cfg),
                    head == pre.head(),
                    head < pre.made(),
                    base_rank == pre.ranks@[head as int],
                    j <= len,
                    list@.len() == j,
                    self.lengths_ok(arena),
                    self.links_ok(list@),
                    self.grown_from(&pre),
                    forall|k: int|
                        0 <= k < j ==> self.ranks@[(#[trigger] list@[k]).0 as int] == rank_step(
                            base_rank,
                            child_weight(cfg, pre.nodes@[head as int], k, len as int),
                        ),
                    a == pre.arena_of@[head as int],
                    own_slot == pre.slots@[head as int],
                    forall|k: int|
                        0 <= k < j ==> self.slots@[(#[trigger] list@[k]).0 as int] == slot_step(
                            own_slot,
                            head == 0,
                            k,
                        ),
                    self.made() == pre.made() + j,
                    forall|k: int| 0 <= k < j ==> (#[trigger] list@[k]).0 == pre.made() + k,
                    forall|k: int|
                        0 <= k < j ==> child_mirrors(
                            arena,
                            cfg,
                            arena.nodes@[a as int],
                            pre.nodes@[head as int],
                            head == 0,
                            k,
                            self.nodes@[(#[trigger] list@[k]).0 as int],
                            self.arena_of@[list@[k].0 as int],
                            self.index_in_parent_array@[list@[k].0 as int],
                            self.file_kind@[list@[k].0 as int],
                        ),
                decreases len - j,
            {
                let c_arena = arena.children[start + j];
                let key: Option<String> = if shape == 2 && j < keys_len {
                    Some(arena.obj_keys[keys_start + j].clone())
                } else {
                    None
                };
                let index_in_array: Option<usize> = if shape == 1 {
                    Some(
                        if j < indices_len {
                            arena.arr_indices[indices_start + j]
                        } else {
                            j
                        },
                    )
                } else {
                    None
                };
                let file_kind: Option<FilesetInputKind> = if head == 0 && arena.is_fileset && j
                    < arena.fileset_kinds.len() {
                    Some(arena.fileset_kinds[j])
                } else {
                    None
                };
                let weight: usize = if shape == 1 && tail_first {
                    len - 1 - j
                } else {
                    j
                };
                let rank = base_rank.saturating_add(1).saturating_add(weight);
                let slot = if head == 0 {
                    j
                } else {
                    own_slot
                };
                let node = make_node(arena, c_arena, key, self.nodes.len(), cfg);
                let ghost mid = *self;
                let id = self.push_child(
                    node,
                    c_arena,
                    index_in_array,
                    file_kind,
                    rank,
                    slot,
                    Ghost(arena),
                    Ghost(list@),
                );
                list.push(NodeId(id));
                proof {
                    assert forall|k: int| 0 <= k < j + 1 implies child_mirrors(
                        arena,
                        cfg,
                        arena.nodes@[a as int],
                        pre.nodes@[head as int],
                        head == 0,
                        k,
                        self.nodes@[(#[trigger] list@[k]).0 as int],
                        self.arena_of@[list@[k].0 as int],
                        self.index_in_parent_array@[list@[k].0 as int],
                        self.file_kind@[list@[k].0 as int],
                    ) by {
                        if k < j {
                            assert(list@[k].0 < mid.made());
                        } else {
                            assert(list@[k].0 == id);
                        }
                    }
                    assert forall|k: int| 0 <= k < j + 1 implies self.ranks@[(
                    #[trigger] list@[k]).0 as int] == rank_step(
                        base_rank,
                        child_weight(cfg, pre.nodes@[head as int], k, len as int),
                    ) by {
                        if k < j {
                            assert(list@[k].0 < mid.made());
                            assert(self.ranks@[list@[k].0 as int] == mid.ranks@[list@[k].0 as int]);
                        } else {
                            assert(list@[k].0 == id);
                            assert(self.ranks@[id as int] == rank);
                            assert(weight == child_weight(
                                cfg,
                                pre.nodes@[head as int],
                                k,
                                len as int,
                            ));
                            assert(rank == rank_step(base_rank, weight));
                        }
                    }
                    assert forall|k: int| 0 <= k < j + 1 implies self.slots@[(
                    #[trigger] list@[k]).0 as int] == slot_step(own_slot, head == 0, k) by {
                        if k < j {
                            assert(list@[k].0 < mid.made());
                            assert(self.slots@[list@[k].0 as int] == mid.slots@[list@[k].0 as int]);
                        } else {
                            assert(list@[k].0 == id);
                        }
                    }
                }
                j += 1;
            }
        } else if shape == 3 {
            let parts = match &self.nodes[head] {
                RankedNode::SplittableLeaf { value, .. } => split_graphemes(value.as_str()),
                _ => Vec::new(),
            };
            let ghost clusters = grapheme_clusters(pre.nodes@[head as int]->SplittableLeaf_value@);
            assert(cluster_texts(parts@) == clusters);
            let take = if parts.len() < cfg.max_string_graphemes {
                parts.len()
            } else {
                cfg.max_string_graphemes
            };
            let mut j: usize = 0;
            while j < take
                invariant
                    pre.lengths_ok(arena),
                    a < arena.nodes@.len(),
                    pre.nodes@[head as int] is SplittableLeaf,
                    head == pre.head(),
                    head < pre.made(),
                    base_rank == pre.ranks@[head as int],
                    take <= parts@.len(),
                    j <= take,
                    list@.len() == j,
                    self.lengths_ok(arena),
                    self.links_ok(list@),
                    self.grown_from(&pre),
                    forall|k: int|
                        0 <= k < j ==> self.ranks@[(#[trigger] list@[k]).0 as int] == rank_step(
                            base_rank,
                            child_weight(cfg, pre.nodes@[head as int], k, take as int),
                        ),
                    forall|k: int| 0 <= k < j ==> self.nodes@[(#[trigger] list@[k]).0 as int] is LeafPart,
                    own_slot == pre.slots@[head as int],
                    forall|k: int|
                        0 <= k < j ==> self.slots@[(#[trigger] list@[k]).0 as int] == slot_step(
                            own_slot,
                            head == 0,
                            k,
                        ),
                    self.made() == pre.made() + j,
                    forall|k: int| 0 <= k < j ==> (#[trigger] list@[k]).0 == pre.made() + k,
                    cluster_texts(parts@) == clusters,
                    forall|k: int|
                        0 <= k < j ==> self.nodes@[(
                        #[trigger] list@[k]).0 as int]->LeafPart_text@ == clusters[k],
                decreases take - j,
            {
                let weight: usize = if cfg.line_budget_only {
                    0
                } else {
                    j
                };
                let rank = base_rank.saturating_add(1).saturating_add(weight);
                let node = RankedNode::LeafPart {
                    node_id: NodeId(self.nodes.len()),
                    text: parts[j].clone(),
                };
                let slot = if head == 0 {
                    j
                } else {
                    own_slot
                };
                let ghost mid = *self;
                let id = self.push_child(
                    node,
                    a,
                    None,
                    None,
                    rank,
                    slot,
                    Ghost(arena),
                    Ghost(list@),
                );
                list.push(NodeId(id));
                proof {
                    assert forall|k: int| 0 <= k < j + 1 implies self.slots@[(
                    #[trigger] list@[k]).0 as int] == slot_step(own_slot, head == 0, k) by {
                        if k < j {
                            assert(list@[k].0 < mid.made());
                            assert(self.slots@[list@[k].0 as int] == mid.slots@[list@[k].0 as int]);
                        } else {
                            assert(list@[k].0 == id);
                        }
                    }
                    assert forall|k: int| 0 <= k < j + 1 implies self.ranks@[(
                    #[trigger] list@[k]).0 as int] == rank_step(
                        base_rank,
                        child_weight(cfg, pre.nodes@[head as int], k, take as int),
                    ) && self.nodes@[list@[k].0 as int] is LeafPart
                        && self.nodes@[list@[k].0 as int]->LeafPart_text@ == clusters[k] by {
                        if k < j {
                            assert(list@[k].0 < mid.made());
                        } else {
                            assert(list@[k].0 == id);
                            assert(parts@[k]@ == cluster_texts(parts@)[k]);
                        }
                    }
                }
                j += 1;
            }
        }
        let ghost grown = *self;
        let ghost pend = list@;
        assert(self.made() == pre.made() + pend.len() && forall|k: int|
            0 <= k < pend.len() ==> (#[trigger] pend[k]).0 == pre.made() + k);
        self.children.push(list);
        proof {
            assert(self.lengths_ok(arena));
            assert(self.numbers_ok()) by {
                assert forall|p: int| 0 <= p <= head implies first_child(self.children@, p)
                    == first_child(pre.children@, p) by {
                    lemma_first_child_of_prefix(pre.children@, self.children@, p);
                }
                assert(self.children@[head as int]@ == pend);
                assert(first_child(self.children@, head + 1) == first_child(self.children@, head as int)
                    + pend.len());
                assert forall|p: int, j: int|
                    0 <= p < self.children@.len() && 0 <= j < self.children@[p]@.len() implies (
                #[trigger] self.children@[p]@[j]).0 == first_child(self.children@, p) + j by {
                    if p < head {
                        assert(self.children@[p] == pre.children@[p]);
                        assert(pre.children@[p]@[j].0 == first_child(pre.children@, p) + j);
                    } else {
                        assert(self.children@[p]@[j] == pend[j]);
                    }
                }
            }
            assert forall|p: int, j: int|
                0 <= p < self.head() && 0 <= j < self.children@[p]@.len() implies {
                let c = #[trigger] self.children@[p]@[j];
                c.0 < self.made() && self.parent@[c.0 as int] == Some(NodeId(p as usize))
            } by {
                if p < head {
                    assert(self.children@[p] == pre.children@[p]);
                    let c = pre.children@[p]@[j];
                    assert(c.0 < pre.made());
                } else {
                    assert(self.children@[p]@ == pend);
                }
            }
            assert forall|p: int, j: int, k: int|
                0 <= p < self.head() && 0 <= j < k < self.children@[p]@.len() implies (
            #[trigger] self.children@[p]@[j]).0 < (#[trigger] self.children@[p]@[k]).0 by {
                if p < head {
                    assert(self.children@[p] == pre.children@[p]);
                } else {
                    assert(self.children@[p]@ == pend);
                }
            }
            assert forall|i: int| 0 <= i < self.made() implies (#[trigger] self.parent@[i] matches Some(
                p,
            ) ==> {
                &&& p.0 < i
                &&& p.0 <= self.head()
                &&& p.0 < self.head() ==> self.children@[p.0 as int]@.contains(NodeId(i as usize))
                &&& p.0 == self.head() ==> Seq::<NodeId>::empty().contains(NodeId(i as usize))
            }) by {
                assert(grown.parent@[i] == self.parent@[i]);
                if self.parent@[i] is Some {
                    let p = self.parent@[i]->0;
                    if p.0 < head {
                        assert(self.children@[p.0 as int] == grown.children@[p.0 as int]);
                    } else {
                        assert(self.children@[p.0 as int]@ == pend);
                    }
                }
            }
            assert(self.links_ok(Seq::empty()));
            assert forall|p: int|
                0 <= p < self.head() && (#[trigger] self.nodes@[p]).is_childless()
                    implies self.children@[p]@.len() == 0 by {
                if p < head {
                    assert(self.children@[p] == pre.children@[p]);
                    assert(self.nodes@[p] == pre.nodes@[p]);
                }
            }
            assert forall|p: int, j: int|
                0 <= p < self.head() && self.nodes@[p] is SplittableLeaf && 0 <= j
                    < self.children@[p]@.len() implies self.nodes@[(
            #[trigger] self.children@[p]@[j]).0 as int] is LeafPart by {
                assert(self.nodes@[p] == pre.nodes@[p]);
                if p < head {
                    assert(self.children@[p] == pre.children@[p]);
                    let c = pre.children@[p]@[j];
                    assert(c.0 < pre.made());
                    assert(self.nodes@[c.0 as int] == pre.nodes@[c.0 as int]);
                } else {
                    assert(self.children@[p]@ == pend);
                }
            }
            assert forall|p: int| 0 <= p < self.head() implies #[trigger] children_mirror(
                self.nodes@,
                self.children@,
                self.index_in_parent_array@,
                self.file_kind@,
                self.arena_of@,
                arena,
                cfg,
                p,
            ) by {
                assert(self.nodes@[p] == pre.nodes@[p]);
                assert(self.arena_of@[p] == pre.arena_of@[p]);
                if p < head {
                    assert(self.children@[p] == pre.children@[p]);
                    assert(children_mirror(
                        pre.nodes@,
                        pre.children@,
                        pre.index_in_parent_array@,
                        pre.file_kind@,
                        pre.arena_of@,
                        arena,
                        cfg,
                        p,
                    ));
                    assert forall|j: int| 0 <= j < pre.children@[p]@.len() implies {
                        let c = (#[trigger] pre.children@[p]@[j]).0 as int;
                        c < pre.made() && self.nodes@[c] == pre.nodes@[c] && self.arena_of@[c]
                            == pre.arena_of@[c] && self.index_in_parent_array@[c]
                            == pre.index_in_parent_array@[c] && self.file_kind@[c]
                            == pre.file_kind@[c]
                    } by {}
                } else {
                    assert(self.children@[p]@ == pend);
                }
            }
            assert forall|p: int, j: int|
                0 <= p < self.head() && 0 <= j < self.children@[p]@.len() implies self.ranks@[(
            #[trigger] self.children@[p]@[j]).0 as int] == rank_step(
                self.ranks@[p],
                child_weight(cfg, self.nodes@[p], j, self.children@[p]@.len() as int),
            ) by {
                assert(self.nodes@[p] == pre.nodes@[p]);
                assert(self.ranks@[p] == pre.ranks@[p]);
                if p < head {
                    assert(self.children@[p] == pre.children@[p]);
                    let c = pre.children@[p]@[j];
                    assert(c.0 < pre.made());
                    assert(self.ranks@[c.0 as int] == pre.ranks@[c.0 as int]);
                } else {
                    assert(self.children@[p]@ == pend);
                }
            }
            assert forall|p: int, j: int|
                0 <= p < self.head() && 0 <= j < self.children@[p]@.len() implies self.slots@[(
            #[trigger] self.children@[p]@[j]).0 as int] == slot_step(self.slots@[p], p == 0, j) by {
                assert(self.slots@[p] == pre.slots@[p]);
                if p < head {
                    assert(self.children@[p] == pre.children@[p]);
                    let c = pre.children@[p]@[j];
                    assert(c.0 < pre.made());
                    assert(self.slots@[c.0 as int] == pre.slots@[c.0 as int]);
                } else {
                    assert(self.children@[p]@ == pend);
                }
            }
        }
    }
}

/// The number of entries that a container had before sampling.
pub open spec fn entries_of(n: JsonTreeNode) -> usize {
    match n.kind {
        NodeKind::Array => match n.array_len {
            Some(t) => t,
            None => n.children_len,
        },
        _ => match n.object_len {
            Some(t) => t,
            None => n.children_len,
        },
    }
}

/// The text of a scalar: its string value, else its lexeme, else nothing.
pub open spec fn scalar_text_of(n: JsonTreeNode) -> Seq<char> {
    match n.string_value {
        Some(v) => v@,
        None => match n.atomic_token {
            Some(t) => t@,
            None => Seq::empty(),
        },
    }
}

/// A string value is split where it has more user-perceived characters than
/// a string may have.
pub open spec fn is_split(n: JsonTreeNode, cfg: &PriorityConfig) -> bool {
    n.kind == NodeKind::String && n.string_value is Some && grapheme_clusters(
        n.string_value->0@,
    ).len() > cfg.max_string_graphemes
}

/// The ranked node stands for the arena node: a container with its number of
/// entries, a long string value as a splittable leaf, every other scalar as
/// an atomic leaf of its kind and text.
pub open spec fn mirrors_node(r: RankedNode, n: JsonTreeNode, cfg: &PriorityConfig) -> bool {
    match n.kind {
        NodeKind::Array => r matches RankedNode::Array { total, .. } && total == entries_of(n),
        NodeKind::Object => r matches RankedNode::Object { total, .. } && total == entries_of(n),
        kind => if is_split(n, cfg) {
            r matches RankedNode::SplittableLeaf { value, .. } && value@ == scalar_text_of(n)
        } else {
            r matches RankedNode::AtomicLeaf { kind: k, token, .. } && k == kind && token@
                == scalar_text_of(n)
        },
    }
}

/// The key of a ranked node, as text.
pub open spec fn key_view(r: RankedNode) -> Option<Seq<char>> {
    match r.spec_key() {
        Some(k) => Some(k@),
        None => None,
    }
}

/// Make the ranked node of an arena node that sits under `key`.
pub fn make_node(
    arena: &JsonTreeArena,
    a: usize,
    key: Option<String>,
    id: usize,
    cfg: &PriorityConfig,
) -> (node: RankedNode)
    requires
        a < arena.nodes@.len(),
    ensures
        mirrors_node(node, arena.nodes@[a as int], cfg),
        node.spec_key() == key,
        node.spec_id() == NodeId(id),
        !(node is LeafPart),
{
    let n = &arena.nodes[a];
    match n.kind {
        NodeKind::Array => RankedNode::Array {
            node_id: NodeId(id),
            key_in_object: key,
            total: match n.array_len {
                Some(t) => t,
                None => n.children_len,
            },
        },
        NodeKind::Object => RankedNode::Object {
            node_id: NodeId(id),
            key_in_object: key,
            total: match n.object_len {
                Some(t) => t,
                None => n.children_len,
            },
        },
        kind => {
            match &n.string_value {
                Some(v) => {
                    let split = match kind {
                        NodeKind::String => split_graphemes(v.as_str()).len()
                            > cfg.max_string_graphemes,
                        _ => false,
                    };
                    if split {
                        RankedNode::SplittableLeaf {
                            node_id: NodeId(id),
                            key_in_object: key,
                            value: v.clone(),
                        }
                    } else {
                        RankedNode::AtomicLeaf {
                            node_id: NodeId(id),
                            key_in_object: key,
                            kind,
                            token: v.clone(),
                        }
                    }
                },
                None => {
                    let token = match &n.atomic_token {
                        Some(t) => t.clone(),
                        None => String::new(),
                    };
                    RankedNode::AtomicLeaf { node_id: NodeId(id), key_in_object: key, kind, token }
                },
            }
        },
    }
}

/// The ranks of the nodes of an order: nothing for the root, and for each
/// child the rank of its parent, raised by one and by the weight of its
/// position.
pub open spec fn ranks_of(order: &PriorityOrder, cfg: &PriorityConfig, ranks: Seq<usize>) -> bool {
    &&& ranks.len() == order.total_nodes
    &&& order.total_nodes > 0 ==> ranks[0] == 0
    &&& forall|p: int, j: int|
        0 <= p < order.total_nodes && 0 <= j < order.children@[p]@.len() ==> ranks[(
        #[trigger] order.children@[p]@[j]).0 as int] == rank_step(
            ranks[p],
            child_weight(cfg, order.nodes@[p], j, order.children@[p]@.len() as int),
        )
}

/// The kind of root that an arena asks for.
pub open spec fn root_type(arena: &JsonTreeArena) -> ObjectType {
    if arena.is_fileset {
        ObjectType::Fileset
    } else {
        ObjectType::Object
    }
}

/// The identifiers of the first `n` nodes.
pub open spec fn first_ids(n: nat) -> Seq<NodeId> {
    Seq::new(n, |k: int| NodeId(k as usize))
}

fn all_ids(n: usize) -> (ids: Vec<NodeId>)
    ensures
        ids@ == first_ids(n as nat),
        ids@.no_duplicates(),
{
    let mut ids: Vec<NodeId> = Vec::with_capacity(n);
    let mut i: usize = 0;
    while i < n
        invariant
            i <= n,
            ids@ == first_ids(i as nat),
        decreases n - i,
    {
        ids.push(NodeId(i));
        assert(ids@ =~= first_ids((i + 1) as nat));
        i += 1;
    }
    ids
}

/// Whether the node at position `p` takes a turn: every node of one of the
/// files does, the root does not.
pub open spec fn takes_turn(ids: Seq<NodeId>, slots: Seq<usize>, files: usize, p: int) -> bool {
    ids[p].0 != 0 && slots[ids[p].0 as int] < files
}

/// How many of the first `upto` nodes take a turn for the file `slot`.
pub open spec fn turns_taken(ids: Seq<NodeId>, slots: Seq<usize>, slot: usize, upto: int) -> nat
    decreases upto,
{
    if upto <= 0 {
        0
    } else {
        let id = ids[upto - 1].0 as int;
        let here: nat = if id != 0 && slots[id] == slot {
            1
        } else {
            0
        };
        turns_taken(ids, slots, slot, upto - 1) + here
    }
}

/// The node at position `p` does not stand again before position `upto`.
pub open spec fn stands_last(ids: Seq<NodeId>, p: int, upto: int) -> bool {
    forall|q: int| p < q < upto ==> (#[trigger] ids[q]).0 != ids[p].0
}

/// The node `id` stands among the first `upto` nodes.
pub open spec fn stands_before(ids: Seq<NodeId>, id: int, upto: int) -> bool {
    exists|p: int| 0 <= p < upto && (#[trigger] ids[p]).0 == id
}

/// The turns that the first `upto` nodes take. The turn of a node is its
/// place among the nodes of its file, counted from one in the order in which
/// they stand (where a node stands twice, its later place). The root, a node
/// of no file and a node that does not stand there have no turn, which is 0.
pub open spec fn turns_upto(
    ids: Seq<NodeId>,
    slots: Seq<usize>,
    files: usize,
    turns: Seq<usize>,
    upto: int,
) -> bool {
    &&& turns.len() == slots.len()
    &&& forall|p: int|
        0 <= p < upto && takes_turn(ids, slots, files, p) && stands_last(ids, p, upto)
            ==> turns[(#[trigger] ids[p]).0 as int] == turns_taken(
            ids,
            slots,
            slots[ids[p].0 as int],
            p + 1,
        )
    &&& forall|id: int|
        0 <= id < turns.len() && (id == 0 || slots[id] >= files || !stands_before(ids, id, upto))
            ==> #[trigger] turns[id] == 0
}

/// The turns of all the nodes of a sequence.
pub open spec fn turns_of(ids: Seq<NodeId>, slots: Seq<usize>, files: usize, turns: Seq<usize>) -> bool {
    turns_upto(ids, slots, files, turns, ids.len() as int)
}

/// `mixed` is `sorted` with the files taking turns. The nodes are first
/// grouped by file, each group in the order it had; every node then gets its
/// turn within its file; and the nodes are put in the order of the turns,
/// those of one turn in the order of their files. So the root stays in
/// front, the first nodes of all files come before the second ones, and the
/// nodes of each file keep their order.
pub open spec fn interleaved(
    sorted: Seq<NodeId>,
    slots: Seq<usize>,
    files: usize,
    grouped: Seq<NodeId>,
    turns: Seq<usize>,
    mixed: Seq<NodeId>,
) -> bool {
    &&& stably_sorted(grouped, sorted, slots)
    &&& turns_of(grouped, slots, files, turns)
    &&& stably_sorted(mixed, grouped, turns)
}

/// No more turns are taken than nodes were seen.
proof fn lemma_turns_taken_bounded(ids: Seq<NodeId>, slots: Seq<usize>, slot: usize, upto: int)
    requires
        0 <= upto,
    ensures
        turns_taken(ids, slots, slot, upto) <= upto,
    decreases upto,
{
    if upto > 0 {
        lemma_turns_taken_bounded(ids, slots, slot, upto - 1);
    }
}

/// Take turns among the files: the nodes of each file keep their order, and
/// the first nodes of all files come before the second ones. The root stays
/// in front.
fn interleave_files(sorted: Vec<NodeId>, slots: &Vec<usize>, files: usize) -> (mixed: Vec<NodeId>)
    requires
        keyed(sorted@, slots@),
    ensures
        mixed@.to_multiset() == sorted@.to_multiset(),
        keyed(mixed@, slots@),
        exists|grouped: Seq<NodeId>, turns: Seq<usize>| #[trigger]
            interleaved(sorted@, slots@, files, grouped, turns, mixed@),
{
    let n = slots.len();
    let ghost given = sorted@;
    let grouped = sort_by_keys(sorted, slots);
    let mut counters: Vec<usize> = vec![0; files];
    let mut turns: Vec<usize> = vec![0; n];
    let mut pos: usize = 0;
    while pos < grouped.len()
        invariant
            pos <= grouped@.len(),
            keyed(grouped@, slots@),
            turns@.len() == n,
            n == slots@.len(),
            counters@.len() == files,
            forall|s: int|
                0 <= s < files ==> #[trigger] counters@[s] == turns_taken(
                    grouped@,
                    slots@,
                    s as usize,
                    pos as int,
                ),
            turns_upto(grouped@, slots@, files, turns@, pos as int),
        decreases grouped@.len() - pos,
    {
        let id = grouped[pos].0;
        let ghost turns_before = turns@;
        let ghost counters_before = counters@;
        if id != 0 {
            let slot = slots[id];
            if slot < files {
                proof {
                    lemma_turns_taken_bounded(grouped@, slots@, slot, pos as int);
                }
                let turn = counters[slot].saturating_add(1);
                counters[slot] = turn;
                turns[id] = turn;
            }
        }
        proof {
            let next = pos + 1;
            assert forall|s: int| 0 <= s < files implies #[trigger] counters@[s] == turns_taken(
                grouped@,
                slots@,
                s as usize,
                next,
            ) by {
                assert(counters_before[s] == turns_taken(grouped@, slots@, s as usize, pos as int));
            }
            assert forall|p: int|
                0 <= p < next && takes_turn(grouped@, slots@, files, p) && stands_last(
                    grouped@,
                    p,
                    next,
                ) implies turns@[(#[trigger] grouped@[p]).0 as int] == turns_taken(
                grouped@,
                slots@,
                slots@[grouped@[p].0 as int],
                p + 1,
            ) by {
                if p < pos {
                    assert(grouped@[pos as int].0 != grouped@[p].0);
                    assert(stands_last(grouped@, p, pos as int));
                }
            }
            assert forall|i: int|
                0 <= i < turns@.len() && (i == 0 || slots@[i] >= files || !stands_before(
                    grouped@,
                    i,
                    next,
                )) implies #[trigger] turns@[i] == 0 by {
                if i != 0 && slots@[i] < files {
                    assert(grouped@[pos as int].0 != i);
                    if stands_before(grouped@, i, pos as int) {
                        let p = choose|p: int| 0 <= p < pos && (#[trigger] grouped@[p]).0 == i;
                        assert(0 <= p < next && grouped@[p].0 == i);
                    }
                }
                assert(turns_before[i] == 0);
            }
        }
        pos += 1;
    }
    let ghost ordered = grouped@;
    let mixed = sort_by_keys(grouped, &turns);
    proof {
        assert(interleaved(given, slots@, files, ordered, turns@, mixed@));
    }
    mixed
}

/// The files of the nodes of an order: the root lies in none, each child of
/// the root is a file of its own, and any other node lies in the file of its
/// parent.
pub open spec fn slots_of(order: &PriorityOrder, slots: Seq<usize>) -> bool {
    &&& slots.len() == order.total_nodes
    &&& order.total_nodes > 0 ==> slots[0] == 0
    &&& forall|p: int, j: int|
        0 <= p < order.total_nodes && 0 <= j < order.children@[p]@.len() ==> slots[(
        #[trigger] order.children@[p]@[j]).0 as int] == slot_step(slots[p], p == 0, j)
}

/// The selection sequence of a single document: the nodes in the order of
/// their ranks, those of one rank in the order of their numbers.
pub open spec fn by_ranks(order: &PriorityOrder, ranks: Seq<usize>) -> bool {
    stably_sorted(order.by_priority@, first_ids(order.total_nodes as nat), ranks)
}

/// The selection sequence of a fileset: the nodes in the order of their
/// ranks, with the files then taking turns.
pub open spec fn by_turns(
    order: &PriorityOrder,
    ranks: Seq<usize>,
    by_rank: Seq<NodeId>,
    slots: Seq<usize>,
    grouped: Seq<NodeId>,
    turns: Seq<usize>,
) -> bool {
    &&& stably_sorted(by_rank, first_ids(order.total_nodes as nat), ranks)
    &&& slots_of(order, slots)
    &&& interleaved(
        by_rank,
        slots,
        order.children@[0]@.len() as usize,
        grouped,
        turns,
        order.by_priority@,
    )
}

/// The selection sequence is the one that the ranks give: for a single
/// document the nodes in the order of their ranks, for a fileset that order
/// with the files taking turns.
pub open spec fn sequenced_by(order: &PriorityOrder, ranks: Seq<usize>) -> bool {
    match order.object_type@[0] {
        ObjectType::Object => by_ranks(order, ranks),
        ObjectType::Fileset => exists|
            by_rank: Seq<NodeId>,
            slots: Seq<usize>,
            grouped: Seq<NodeId>,
            turns: Seq<usize>,
        | #[trigger] by_turns(order, ranks, by_rank, slots, grouped, turns),
    }
}

/// The selection sequence of the order is the one that its ranks give.
pub open spec fn ranked(order: &PriorityOrder, cfg: &PriorityConfig) -> bool {
    exists|ranks: Seq<usize>| #[trigger] ranks_of(order, cfg, ranks) && sequenced_by(order, ranks)
}

/// Number the tree of an arena breadth first and order its nodes for
/// selection. This never fails.
pub fn build_order(arena: &JsonTreeArena, config: &PriorityConfig) -> (r: Result<
    PriorityOrder,
    HeadsonError,
>)
    requires
        arena.wf(),
        arena.rooted(),
    ensures
        r matches Ok(order) && {
            &&& order.wf()
            &&& order.total_nodes >= 1
            &&& order.object_type@[0] == root_type(arena)
            &&& exists|map: Seq<usize>| #[trigger] mirrors(&order, arena, config, map)
            &&& one_root(order.parent@)
            &&& breadth_first(order.children@)
            &&& ranked(&order, config)
        },
{
    let root = make_node(arena, arena.root_id, None, 0, config);
    let mut b = OrderBuilder {
        nodes: Vec::new(),
        parent: Vec::new(),
        children: Vec::new(),
        object_type: Vec::new(),
        index_in_parent_array: Vec::new(),
        file_kind: Vec::new(),
        arena_of: Vec::new(),
        ranks: Vec::new(),
        slots: Vec::new(),
    };
    b.nodes.push(root);
    b.parent.push(None);
    b.object_type.push(
        if arena.is_fileset {
            ObjectType::Fileset
        } else {
            ObjectType::Object
        },
    );
    b.index_in_parent_array.push(None);
    b.file_kind.push(None);
    b.arena_of.push(arena.root_id);
    b.ranks.push(0);
    b.slots.push(0);
    let ghost first = b.nodes@[0];
    assert(b.inv(arena, config));
    while b.children.len() < b.nodes.len()
        invariant
            arena.wf(),
            b.inv(arena, config),
            b.made() >= 1,
            b.nodes@[0] == first,
            b.arena_of@[0] == arena.root_id,
            b.object_type@[0] == root_type(arena),
            b.ranks@[0] == 0,
            b.slots@[0] == 0,
        decreases usize::MAX - b.children@.len(),
    {
        b.expand(arena, config);
    }
    let n = b.nodes.len();
    let ids = all_ids(n);
    assert(keyed(ids@, b.ranks@));
    let by_rank = sort_by_keys(ids, &b.ranks);
    let ghost ranks = b.ranks@;
    let ghost map = b.arena_of@;
    let ghost sorted = by_rank@;
    let ghost files_of = b.slots@;
    let files = b.children[0].len();
    let OrderBuilder {
        nodes,
        parent,
        children,
        object_type,
        index_in_parent_array,
        file_kind,
        arena_of,
        ranks: _,
        slots,
    } = b;
    let by_priority = if arena.is_fileset {
        interleave_files(by_rank, &slots, files)
    } else {
        by_rank
    };
    proof {
        lemma_no_duplicates_by_multiset(first_ids(n as nat), by_priority@);
    }
    let order = PriorityOrder {
        nodes,
        by_priority,
        parent,
        children,
        total_nodes: n,
        object_type,
        index_in_parent_array,
        file_kind,
    };
    proof {
        assert(parents_wf(order.parent@));
        assert(order.children_wf());
        assert(order.leaves_wf());
        assert(order.priority_wf());
        assert(ranks_of(&order, config, ranks));
        assert(mirrors(&order, arena, config, map));
        assert(stably_sorted(sorted, first_ids(n as nat), ranks));
        if arena.is_fileset {
            let (grouped, turns) = choose|grouped: Seq<NodeId>, turns: Seq<usize>| #[trigger]
                interleaved(sorted, files_of, files, grouped, turns, order.by_priority@);
            assert(slots_of(&order, files_of));
            assert(by_turns(&order, ranks, sorted, files_of, grouped, turns));
        } else {
            assert(by_ranks(&order, ranks));
        }
        assert(sequenced_by(&order, ranks));
    }
    Ok(order)
}

/// The rank of a node is determined by the tree.
proof fn lemma_rank_is_unique(
    order: &PriorityOrder,
    cfg: &PriorityConfig,
    first: Seq<usize>,
    second: Seq<usize>,
    i: int,
)
    requires
        order.wf(),
        one_root(order.parent@),
        ranks_of(order, cfg, first),
        ranks_of(order, cfg, second),
        0 <= i < order.total_nodes,
    ensures
        first[i] == second[i],
    decreases i,
{
    if i > 0 {
        assert(order.parent@[i] is Some);
        let p = crate::order::parent_index(order.parent@, i);
        assert(order.children@[p]@.contains(NodeId(i as usize)));
        let j = choose|j: int|
            0 <= j < order.children@[p]@.len() && order.children@[p]@[j] == NodeId(i as usize);
        lemma_rank_is_unique(order, cfg, first, second, p);
        assert(order.children@[p]@[j].0 == i);
    }
}

/// The file of a node is determined by the tree.
proof fn lemma_slot_is_unique(order: &PriorityOrder, first: Seq<usize>, second: Seq<usize>, i: int)
    requires
        order.wf(),
        one_root(order.parent@),
        slots_of(order, first),
        slots_of(order, second),
        0 <= i < order.total_nodes,
    ensures
        first[i] == second[i],
    decreases i,
{
    if i > 0 {
        assert(order.parent@[i] is Some);
        let p = crate::order::parent_index(order.parent@, i);
        assert(order.children@[p]@.contains(NodeId(i as usize)));
        let j = choose|j: int|
            0 <= j < order.children@[p]@.len() && order.children@[p]@[j] == NodeId(i as usize);
        lemma_slot_is_unique(order, first, second, p);
        assert(order.children@[p]@[j].0 == i);
    }
}

/// The turns of nodes that stand once each are determined.
proof fn lemma_turns_are_unique(
    ids: Seq<NodeId>,
    slots: Seq<usize>,
    files: usize,
    first: Seq<usize>,
    second: Seq<usize>,
)
    requires
        turns_of(ids, slots, files, first),
        turns_of(ids, slots, files, second),
        ids.no_duplicates(),
    ensures
        first == second,
{
    assert forall|id: int| 0 <= id < first.len() implies first[id] == second[id] by {
        if id != 0 && slots[id] < files && stands_before(ids, id, ids.len() as int) {
            let p = choose|p: int| 0 <= p < ids.len() && (#[trigger] ids[p]).0 == id;
            assert(stands_last(ids, p, ids.len() as int)) by {
                assert forall|q: int| p < q < ids.len() implies (#[trigger] ids[q]).0 != ids[p].0 by {
                    if ids[q].0 == ids[p].0 {
                        assert(ids[q] == ids[p]);
                    }
                }
            }
            assert(takes_turn(ids, slots, files, p));
        }
    }
    assert(first =~= second);
}

/// Determinism of ordering. The selection sequence of an order depends on
/// its tree and on the configuration alone: two orders of one tree, each
/// with the sequence that its ranks give, have one sequence.
pub proof fn lemma_sequence_is_unique(a: &PriorityOrder, b: &PriorityOrder, cfg: &PriorityConfig)
    requires
        a.wf(),
        b.wf(),
        one_root(a.parent@),
        a.total_nodes >= 1,
        a.nodes == b.nodes,
        a.parent == b.parent,
        a.children == b.children,
        a.total_nodes == b.total_nodes,
        a.object_type == b.object_type,
        ranked(a, cfg),
        ranked(b, cfg),
    ensures
        a.by_priority@ == b.by_priority@,
{
    let n = a.total_nodes as nat;
    let ids = first_ids(n);
    let ra = choose|ranks: Seq<usize>| #[trigger] ranks_of(a, cfg, ranks) && sequenced_by(a, ranks);
    let rb = choose|ranks: Seq<usize>| #[trigger] ranks_of(b, cfg, ranks) && sequenced_by(b, ranks);
    assert(ranks_of(a, cfg, rb));
    assert(ra =~= rb) by {
        assert forall|i: int| 0 <= i < n implies ra[i] == rb[i] by {
            lemma_rank_is_unique(a, cfg, ra, rb, i);
        }
    }
    assert(keyed(ids, ra));
    match a.object_type@[0] {
        ObjectType::Object => {
            assert(by_ranks(a, ra) && by_ranks(b, ra));
            lemma_stable_sort_is_unique(a.by_priority@, b.by_priority@, ids, ra);
        },
        ObjectType::Fileset => {
            let (sa, la, ga, ta) = choose|
                by_rank: Seq<NodeId>,
                slots: Seq<usize>,
                grouped: Seq<NodeId>,
                turns: Seq<usize>,
            | #[trigger] by_turns(a, ra, by_rank, slots, grouped, turns);
            let (sb, lb, gb, tb) = choose|
                by_rank: Seq<NodeId>,
                slots: Seq<usize>,
                grouped: Seq<NodeId>,
                turns: Seq<usize>,
            | #[trigger] by_turns(b, ra, by_rank, slots, grouped, turns);
            let files = a.children@[0]@.len() as usize;
            lemma_stable_sort_is_unique(sa, sb, ids, ra);
            assert(slots_of(a, lb));
            assert(la =~= lb) by {
                assert forall|i: int| 0 <= i < n implies la[i] == lb[i] by {
                    lemma_slot_is_unique(a, la, lb, i);
                }
            }
            assert(keyed(ids, la));
            lemma_keyed_by_multiset(ids, sa, la);
            lemma_stable_sort_is_unique(ga, gb, sa, la);
            assert(ids.no_duplicates());
            lemma_no_duplicates_by_multiset(ids, sa);
            lemma_no_duplicates_by_multiset(sa, ga);
            lemma_turns_are_unique(ga, la, files, ta, tb);
            lemma_keyed_by_multiset(sa, ga, la);
            assert(keyed(ga, ta));
            lemma_stable_sort_is_unique(a.by_priority@, b.by_priority@, ga, ta);
        },
    }
}

/// Ancestors before descendants. Where the selection sequence stands in the
/// order of the ranks, and no rank has reached the largest number that can
/// be counted, every node comes after its parent.
pub proof fn lemma_ranked_puts_parents_first(
    order: &PriorityOrder,
    cfg: &PriorityConfig,
    ranks: Seq<usize>,
    parent_place: int,
    child_place: int,
)
    requires
        order.wf(),
        ranks_of(order, cfg, ranks),
        sorted_by(order.by_priority@, ranks),
        forall|i: int| 0 <= i < ranks.len() ==> #[trigger] ranks[i] < usize::MAX,
        0 <= parent_place < order.total_nodes,
        0 <= child_place < order.total_nodes,
        order.parent@[order.by_priority@[child_place].0 as int] == Some(
            order.by_priority@[parent_place],
        ),
    ensures
        parent_place < child_place,
{
    let child = order.by_priority@[child_place].0 as int;
    let parent = order.by_priority@[parent_place].0 as int;
    assert(order.children@[parent]@.contains(NodeId(child as usize)));
    let j = choose|j: int|
        0 <= j < order.children@[parent]@.len() && order.children@[parent]@[j] == NodeId(
            child as usize,
        );
    assert(order.children@[parent]@[j].0 == child);
    assert(ranks[child] == rank_step(
        ranks[parent],
        child_weight(cfg, order.nodes@[parent], j, order.children@[parent]@.len() as int),
    ));
    assert(ranks[parent] < ranks[child]);
    if child_place < parent_place {
        assert(key_at(order.by_priority@, ranks, child_place) <= key_at(
            order.by_priority@,
            ranks,
            parent_place,
        ));
    }
    if child_place == parent_place {
        assert(child == parent);
    }
}

} // verus!
