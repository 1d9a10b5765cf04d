use crate::ingest::fileset::FilesetInputKind;
use crate::order::NodeKind;
use vstd::prelude::*;

verus! {

/// One node of the arena. Its children are the identifiers in the arena's
/// child vector from `children_start`, `children_len` of them; the keys of an
/// object and the indices before sampling of a sampled array lie in their vectors in
/// the same way.
#[derive(Clone, Debug)]
pub struct JsonTreeNode {
    pub kind: NodeKind,
    pub atomic_token: Option<String>,
    pub string_value: Option<String>,
    pub children_start: usize,
    pub children_len: usize,
    pub obj_keys_start: usize,
    pub obj_keys_len: usize,
    pub array_len: Option<usize>,
    pub object_len: Option<usize>,
    pub arr_indices_start: usize,
    pub arr_indices_len: usize,
}

impl Default for JsonTreeNode {
    fn default() -> (node: Self)
        ensures
            node == JsonTreeNode::blank(),
    {
        JsonTreeNode {
            kind: NodeKind::Null,
            atomic_token: None,
            string_value: None,
            children_start: 0,
            children_len: 0,
            obj_keys_start: 0,
            obj_keys_len: 0,
            array_len: None,
            object_len: None,
            arr_indices_start: 0,
            arr_indices_len: 0,
        }
    }
}

impl JsonTreeNode {
    /// A null node without token or children.
    pub open spec fn blank() -> JsonTreeNode {
        JsonTreeNode {
            kind: NodeKind::Null,
            atomic_token: None,
            string_value: None,
            children_start: 0,
            children_len: 0,
            obj_keys_start: 0,
            obj_keys_len: 0,
            array_len: None,
            object_len: None,
            arr_indices_start: 0,
            arr_indices_len: 0,
        }
    }
}

/// A flat store of tree nodes, addressed by index.
#[derive(Clone, Debug)]
pub struct JsonTreeArena {
    pub nodes: Vec<JsonTreeNode>,
    pub children: Vec<usize>,
    pub obj_keys: Vec<String>,
    pub arr_indices: Vec<usize>,
    pub root_id: usize,
    pub is_fileset: bool,
    /// For a fileset, the kind of each file, in the order of the root's
    /// children.
    pub fileset_kinds: Vec<FilesetInputKind>,
}

impl Default for JsonTreeArena {
    fn default() -> (arena: Self)
        ensures
            arena.nodes@.len() == 0,
            arena.children@.len() == 0,
            arena.obj_keys@.len() == 0,
            arena.arr_indices@.len() == 0,
            arena.fileset_kinds@.len() == 0,
            arena.root_id == 0,
            !arena.is_fileset,
            arena.wf(),
    {
        JsonTreeArena {
            nodes: Vec::new(),
            children: Vec::new(),
            obj_keys: Vec::new(),
            arr_indices: Vec::new(),
            root_id: 0,
            is_fileset: false,
            fileset_kinds: Vec::new(),
        }
    }
}

/// A tree as a value: what a node of the arena stands for.
pub struct Tree {
    pub kind: NodeKind,
    pub token: Option<Seq<char>>,
    pub value: Option<Seq<char>>,
    pub array_len: Option<usize>,
    pub object_len: Option<usize>,
    pub keys: Seq<Seq<char>>,
    pub indices: Seq<usize>,
    pub items: Seq<Tree>,
}

/// The text of an optional string.
pub open spec fn text_of(s: Option<String>) -> Option<Seq<char>> {
    match s {
        Some(t) => Some(t@),
        None => None,
    }
}

/// A tree without children.
pub open spec fn leaf(kind: NodeKind, token: Option<Seq<char>>, value: Option<Seq<char>>) -> Tree {
    Tree {
        kind,
        token,
        value,
        array_len: None,
        object_len: None,
        keys: Seq::empty(),
        indices: Seq::empty(),
        items: Seq::empty(),
    }
}

impl JsonTreeArena {
    /// The slices of node `i` lie within their vectors, its children were
    /// built before it, an object has a key for each child, and only
    /// containers have children.
    pub open spec fn node_wf(&self, i: int) -> bool {
        let n = self.nodes@[i];
        &&& n.children_start + n.children_len <= self.children@.len()
        &&& forall|j: int|
            n.children_start <= j < n.children_start + n.children_len ==> #[trigger] self.children@[j]
                < i
        &&& n.obj_keys_start + n.obj_keys_len <= self.obj_keys@.len()
        &&& n.arr_indices_start + n.arr_indices_len <= self.arr_indices@.len()
        &&& (n.kind == NodeKind::Object ==> n.obj_keys_len == n.children_len)
        &&& (n.kind != NodeKind::Object ==> n.obj_keys_len == 0)
        &&& (n.arr_indices_len > 0 ==> n.arr_indices_len == n.children_len && n.kind
            == NodeKind::Array)
        &&& (n.kind != NodeKind::Array && n.kind != NodeKind::Object ==> n.children_len == 0)
    }

    /// Well-formedness of an arena.
    pub open spec fn wf(&self) -> bool {
        forall|i: int| 0 <= i < self.nodes@.len() ==> #[trigger] self.node_wf(i)
    }

    /// The arena has a root, and a fileset names the kind of each of its files.
    pub open spec fn rooted(&self) -> bool {
        &&& self.root_id < self.nodes@.len()
        &&& self.is_fileset ==> self.nodes@[self.root_id as int].kind == NodeKind::Object
            && self.fileset_kinds@.len() == self.nodes@[self.root_id as int].children_len
    }

    /// The keys of node `id`.
    pub open spec fn keys_at(&self, id: int) -> Seq<Seq<char>> {
        let n = self.nodes@[id];
        Seq::new(n.obj_keys_len as nat, |j: int| self.obj_keys@[n.obj_keys_start + j]@)
    }

    /// The indices before sampling of the children of node `id`, where it is sampled.
    pub open spec fn indices_at(&self, id: int) -> Seq<usize> {
        let n = self.nodes@[id];
        Seq::new(n.arr_indices_len as nat, |j: int| self.arr_indices@[n.arr_indices_start + j])
    }

    /// The tree that node `id` stands for.
    pub open spec fn tree_at(&self, id: int) -> Tree
        decreases id + 1, 0nat,
    {
        if 0 <= id < self.nodes@.len() {
            let n = self.nodes@[id];
            Tree {
                kind: n.kind,
                token: text_of(n.atomic_token),
                value: text_of(n.string_value),
                array_len: n.array_len,
                object_len: n.object_len,
                keys: self.keys_at(id),
                indices: self.indices_at(id),
                items: self.items_at(id, n.children_len as nat),
            }
        } else {
            leaf(NodeKind::Null, None, None)
        }
    }

    /// The trees of the first `len` children of node `id`.
    pub open spec fn items_at(&self, id: int, len: nat) -> Seq<Tree>
        decreases id, len + 1,
    {
        if len == 0 || id < 0 {
            Seq::empty()
        } else {
            let c = self.children@[self.nodes@[id].children_start + len - 1] as int;
            self.items_at(id, (len - 1) as nat).push(
                if c < id {
                    self.tree_at(c)
                } else {
                    leaf(NodeKind::Null, None, None)
                },
            )
        }
    }

    /// The `j`-th child of node `id`.
    pub open spec fn child(&self, id: int, j: int) -> int {
        self.children@[self.nodes@[id].children_start + j] as int
    }

    /// Where the nodes of the `j`-th child of node `id` begin, when those of
    /// node `id` begin at `start`: at `start` for the first child, and for
    /// any other behind the child before it. For `j` the number of children
    /// this is the place of node `id` itself.
    #[verifier::opaque]
    pub open spec fn child_start(&self, id: int, j: int, start: int) -> int {
        if j <= 0 {
            start
        } else {
            self.child(id, j - 1) + 1
        }
    }

    /// The nodes from `start` to `id` are the tree of node `id`, each of
    /// them at one place in it: the nodes of its children follow one another
    /// from `start`, child by child, and node `id` stands behind the last.
    /// So every node from `start` to `id`, but for `id`, is a child of
    /// exactly one node, and no node outside is reached.
    pub open spec fn laid_out(&self, id: int, start: int) -> bool
        decreases id + 1,
    {
        &&& 0 <= start <= id < self.nodes@.len()
        &&& forall|j: int|
            0 <= j < self.nodes@[id].children_len ==> #[trigger] self.child(id, j) < id
                && self.laid_out(self.child(id, j), self.child_start(id, j, start))
        &&& id == self.child_start(id, self.nodes@[id].children_len as int, start)
    }

    /// The arena holds the tree of its root and nothing besides: the root is
    /// its last node, and every other node is a child of exactly one node.
    pub open spec fn compact(&self) -> bool {
        &&& self.root_id + 1 == self.nodes@.len()
        &&& self.laid_out(self.root_id as int, 0)
    }

    /// `self` holds everything that `earlier` holds, in the same places.
    pub open spec fn extends(&self, earlier: &JsonTreeArena) -> bool {
        &&& earlier.nodes@.len() <= self.nodes@.len()
        &&& earlier.children@.len() <= self.children@.len()
        &&& earlier.obj_keys@.len() <= self.obj_keys@.len()
        &&& earlier.arr_indices@.len() <= self.arr_indices@.len()
        &&& forall|i: int| 0 <= i < earlier.nodes@.len() ==> #[trigger] self.nodes@[i] == earlier.nodes@[i]
        &&& forall|i: int|
            0 <= i < earlier.children@.len() ==> #[trigger] self.children@[i] == earlier.children@[i]
        &&& forall|i: int|
            0 <= i < earlier.obj_keys@.len() ==> #[trigger] self.obj_keys@[i] == earlier.obj_keys@[i]
        &&& forall|i: int|
            0 <= i < earlier.arr_indices@.len() ==> #[trigger] self.arr_indices@[i]
                == earlier.arr_indices@[i]
    }
}

/// Growing an arena leaves the trees of its earlier nodes as they were.
pub proof fn lemma_extends_keeps_tree(later: &JsonTreeArena, earlier: &JsonTreeArena, id: int)
    requires
        later.extends(earlier),
        earlier.wf(),
        0 <= id < earlier.nodes@.len(),
    ensures
        later.tree_at(id) == earlier.tree_at(id),
        later.node_wf(id),
    decreases id + 1, 0nat,
{
    assert(earlier.node_wf(id));
    let n = earlier.nodes@[id];
    lemma_extends_keeps_items(later, earlier, id, n.children_len as nat);
    assert(later.keys_at(id) =~= earlier.keys_at(id));
    assert(later.indices_at(id) =~= earlier.indices_at(id));
}

pub proof fn lemma_extends_keeps_items(
    later: &JsonTreeArena,
    earlier: &JsonTreeArena,
    id: int,
    len: nat,
)
    requires
        later.extends(earlier),
        earlier.wf(),
        0 <= id < earlier.nodes@.len(),
        len <= earlier.nodes@[id].children_len,
    ensures
        later.items_at(id, len) == earlier.items_at(id, len),
    decreases id, len + 1,
{
    assert(earlier.node_wf(id));
    if len > 0 {
        lemma_extends_keeps_items(later, earlier, id, (len - 1) as nat);
        let c = earlier.children@[earlier.nodes@[id].children_start + len - 1] as int;
        assert(c < id);
        lemma_extends_keeps_tree(later, earlier, c);
    }
}

/// Growing is transitive.
pub proof fn lemma_extends_trans(c: &JsonTreeArena, b: &JsonTreeArena, a: &JsonTreeArena)
    requires
        c.extends(b),
        b.extends(a),
    ensures
        c.extends(a),
{
}

/// Growing an arena leaves the layout of its earlier nodes as it was.
pub proof fn lemma_extends_keeps_layout(
    later: &JsonTreeArena,
    earlier: &JsonTreeArena,
    id: int,
    start: int,
)
    requires
        later.extends(earlier),
        earlier.wf(),
        earlier.laid_out(id, start),
    ensures
        later.laid_out(id, start),
    decreases id + 1,
{
    reveal(JsonTreeArena::child_start);
    assert(earlier.node_wf(id));
    let n = earlier.nodes@[id];
    assert(later.nodes@[id] == n);
    assert forall|j: int| 0 <= j < n.children_len implies #[trigger] later.child(id, j) < id
        && later.laid_out(later.child(id, j), later.child_start(id, j, start)) by {
        assert(later.children@[n.children_start + j] == earlier.children@[n.children_start + j]);
        assert(later.child(id, j) == earlier.child(id, j));
        if j > 0 {
            assert(later.children@[n.children_start + (j - 1)] == earlier.children@[n.children_start
                + (j - 1)]);
        }
        assert(earlier.child(id, j) < id);
        lemma_extends_keeps_layout(
            later,
            earlier,
            earlier.child(id, j),
            earlier.child_start(id, j, start),
        );
    }
    if n.children_len > 0 {
        assert(later.children@[n.children_start + (n.children_len - 1)]
            == earlier.children@[n.children_start + (n.children_len - 1)]);
    }
}

/// The trees of the nodes `ids` follow one another from `start` to the end
/// of the arena, each laid out behind the one before.
#[verifier::opaque]
pub open spec fn in_a_row(arena: &JsonTreeArena, ids: Seq<usize>, start: int) -> bool {
    &&& 0 <= start
    &&& forall|j: int|
        0 <= j < ids.len() ==> arena.laid_out(
            #[trigger] ids[j] as int,
            if j == 0 {
                start
            } else {
                ids[j - 1] + 1
            },
        )
    &&& arena.nodes@.len() == if ids.len() == 0 {
        start
    } else {
        ids[ids.len() - 1] + 1
    }
}

/// No trees are in a row from the end of an arena.
pub proof fn lemma_row_begins(arena: &JsonTreeArena)
    ensures
        in_a_row(arena, Seq::<usize>::empty(), arena.nodes@.len() as int),
{
    reveal(in_a_row);
}

/// A row of one tree is that tree, laid out to the end of the arena; and
/// the last tree of a row ends the arena.
pub proof fn lemma_row_ends(arena: &JsonTreeArena, ids: Seq<usize>, start: int)
    requires
        in_a_row(arena, ids, start),
        ids.len() > 0,
    ensures
        ids[ids.len() - 1] + 1 == arena.nodes@.len(),
        ids.len() == 1 ==> arena.laid_out(ids[0] as int, start),
{
    reveal(in_a_row);
}

/// A node without children is laid out by itself.
pub proof fn lemma_leaf_laid_out(arena: &JsonTreeArena, id: int)
    requires
        0 <= id < arena.nodes@.len(),
        arena.nodes@[id].children_len == 0,
    ensures
        arena.laid_out(id, id),
{
    reveal(JsonTreeArena::child_start);
}

/// A tree laid out at the end of an arena, behind a row of trees, makes the
/// row longer by one.
pub proof fn lemma_row_grows(
    later: &JsonTreeArena,
    earlier: &JsonTreeArena,
    ids: Seq<usize>,
    next: usize,
    start: int,
)
    requires
        later.extends(earlier),
        earlier.wf(),
        in_a_row(earlier, ids, start),
        later.laid_out(next as int, earlier.nodes@.len() as int),
        later.nodes@.len() == next + 1,
    ensures
        in_a_row(later, ids.push(next), start),
{
    reveal(in_a_row);
    let longer = ids.push(next);
    assert forall|j: int| 0 <= j < longer.len() implies later.laid_out(
        #[trigger] longer[j] as int,
        if j == 0 {
            start
        } else {
            longer[j - 1] + 1
        },
    ) by {
        if j < ids.len() {
            assert(longer[j] == ids[j]);
            if j > 0 {
                assert(longer[j - 1] == ids[j - 1]);
            }
            lemma_extends_keeps_layout(
                later,
                earlier,
                ids[j] as int,
                if j == 0 {
                    start
                } else {
                    ids[j - 1] + 1
                },
            );
        } else if j > 0 {
            assert(longer[j - 1] == ids[ids.len() - 1]);
        }
    }
}

/// A node that is added behind a row of trees, with the roots of the row as
/// its children in their order, is laid out from where the row began.
pub proof fn lemma_parent_of_row(
    later: &JsonTreeArena,
    earlier: &JsonTreeArena,
    id: int,
    ids: Seq<usize>,
    start: int,
)
    requires
        later.extends(earlier),
        earlier.wf(),
        id == earlier.nodes@.len(),
        later.nodes@.len() == id + 1,
        in_a_row(earlier, ids, start),
        later.nodes@[id].children_len == ids.len(),
        later.nodes@[id].children_start + ids.len() <= later.children@.len(),
        forall|j: int|
            0 <= j < ids.len() ==> #[trigger] later.children@[later.nodes@[id].children_start + j]
                == ids[j],
    ensures
        later.laid_out(id, start),
{
    reveal(in_a_row);
    reveal(JsonTreeArena::child_start);
    let n = later.nodes@[id];
    assert forall|j: int| 0 <= j < n.children_len implies #[trigger] later.child(id, j) < id
        && later.laid_out(later.child(id, j), later.child_start(id, j, start)) by {
        assert(later.children@[n.children_start + j] == ids[j]);
        if j > 0 {
            assert(later.children@[n.children_start + (j - 1)] == ids[j - 1]);
        }
        let from = if j == 0 {
            start
        } else {
            ids[j - 1] + 1
        };
        assert(earlier.laid_out(ids[j] as int, from));
        lemma_extends_keeps_layout(later, earlier, ids[j] as int, from);
    }
    if ids.len() > 0 {
        assert(later.children@[n.children_start + (ids.len() - 1)] == ids[ids.len() - 1]);
        assert(earlier.laid_out(ids[0] as int, start));
    }
}

/// Growing a well-formed arena by well-formed nodes keeps it well-formed.
pub proof fn lemma_extends_keeps_wf(later: &JsonTreeArena, earlier: &JsonTreeArena)
    requires
        later.extends(earlier),
        earlier.wf(),
        forall|i: int| earlier.nodes@.len() <= i < later.nodes@.len() ==> #[trigger] later.node_wf(i),
    ensures
        later.wf(),
{
    assert forall|i: int| 0 <= i < later.nodes@.len() implies #[trigger] later.node_wf(i) by {
        if i < earlier.nodes@.len() {
            lemma_extends_keeps_tree(later, earlier, i);
        }
    }
}

} // verus!
