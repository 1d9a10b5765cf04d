use crate::ingest::yaml::{lemma_items_of_slice, same_meta, trees_of, YamlArenaBuilder};
use crate::order::types::{ArrayBias, ArraySamplerStrategy};
use crate::order::{NodeKind, PriorityConfig};
use crate::utils::tree_arena::{in_a_row, lemma_parent_of_row};
use crate::utils::tree_arena::{lemma_extends_keeps_tree, lemma_extends_keeps_wf};
use crate::utils::tree_arena::Tree;
use vstd::prelude::*;

verus! {

/// Which elements an over-long array keeps.
#[derive(Copy, Clone, Debug, PartialEq, Eq, Structural)]
pub enum Sampling {
    /// The first ones.
    Head,
    /// The last ones.
    Tail,
    /// A third from the start, a third from the middle, a third from the end.
    HeadMidTail,
}

/// The sampling that a configuration asks for: what the sampler says, and by
/// default what the bias says.
pub open spec fn sampling_of(cfg: &PriorityConfig) -> Sampling {
    match cfg.array_sampler {
        ArraySamplerStrategy::Head => Sampling::Head,
        ArraySamplerStrategy::Tail => Sampling::Tail,
        ArraySamplerStrategy::Default => match cfg.array_bias {
            ArrayBias::Head => Sampling::Head,
            ArrayBias::HeadMidTail => Sampling::HeadMidTail,
        },
    }
}

pub fn sampling_for(cfg: &PriorityConfig) -> (plan: Sampling)
    ensures
        plan == sampling_of(cfg),
{
    match cfg.array_sampler {
        ArraySamplerStrategy::Head => Sampling::Head,
        ArraySamplerStrategy::Tail => Sampling::Tail,
        ArraySamplerStrategy::Default => match cfg.array_bias {
            ArrayBias::Head => Sampling::Head,
            ArrayBias::HeadMidTail => Sampling::HeadMidTail,
        },
    }
}

/// The index before sampling of the `j`-th of the `kept` elements that an array of
/// `total` elements keeps. The first third, rounded up, comes from the
/// start; the last third, rounded down, from the end; the rest from the
/// middle of what lies between.
pub open spec fn sample_index(plan: Sampling, j: int, total: int, kept: int) -> int {
    match plan {
        Sampling::Head => j,
        Sampling::Tail => total - kept + j,
        Sampling::HeadMidTail => {
            let head = (kept + 2) / 3;
            let tail = kept / 3;
            let mid = kept - head - tail;
            if j < head {
                j
            } else if j < head + mid {
                j + (total - kept) / 2
            } else {
                j + (total - kept)
            }
        },
    }
}

/// Sampled indices lie within the array and grow with the position.
pub proof fn lemma_sample_index(plan: Sampling, j: int, total: int, kept: int)
    requires
        0 <= j < kept <= total,
    ensures
        0 <= sample_index(plan, j, total, kept) < total,
        j + 1 < kept ==> sample_index(plan, j, total, kept) < sample_index(
            plan,
            j + 1,
            total,
            kept,
        ),
        kept == total ==> sample_index(plan, j, total, kept) == j,
{
}

pub fn sample_position(plan: Sampling, j: usize, total: usize, kept: usize) -> (index: usize)
    requires
        j < kept <= total,
    ensures
        index == sample_index(plan, j as int, total as int, kept as int),
        index < total,
{
    proof {
        lemma_sample_index(plan, j as int, total as int, kept as int);
    }
    match plan {
        Sampling::Head => j,
        Sampling::Tail => total - kept + j,
        Sampling::HeadMidTail => {
            let tail = kept / 3;
            let head = if kept % 3 == 0 {
                kept / 3
            } else {
                kept / 3 + 1
            };
            let mid = kept - head - tail;
            if j < head {
                j
            } else if j < head + mid {
                j + (total - kept) / 2
            } else {
                j + (total - kept)
            }
        },
    }
}

/// Whether the kept elements of an array are stored with their indices:
/// they are where something is left out and what is kept is not the start.
pub open spec fn stores_indices(plan: Sampling, total: int, kept: int) -> bool {
    kept < total && plan != Sampling::Head
}

/// The indices of the kept elements, where they are stored.
pub open spec fn sampled_indices(plan: Sampling, total: int, kept: int) -> Seq<usize> {
    if stores_indices(plan, total, kept) {
        Seq::new(kept as nat, |j: int| sample_index(plan, j, total, kept) as usize)
    } else {
        Seq::empty()
    }
}

/// An array of the given kept items with their indices, of which `total`
/// existed.
pub open spec fn sampled_tree(items: Seq<Tree>, indices: Seq<usize>, total: usize) -> Tree {
    Tree {
        kind: NodeKind::Array,
        token: None,
        value: None,
        array_len: Some(total),
        object_len: None,
        keys: Seq::empty(),
        indices,
        items,
    }
}

/// Add an array of the given children, kept from `total` elements, with
/// their indices before sampling where those are given.
pub fn push_sampled_array(
    b: &mut YamlArenaBuilder,
    children: Vec<usize>,
    indices: Vec<usize>,
    total: usize,
) -> (id: usize)
    requires
        old(b).arena.wf(),
        old(b).holds(children@),
        indices@.len() == 0 || indices@.len() == children@.len(),
    ensures
        id == old(b).arena.nodes@.len(),
        final(b).arena.nodes@.len() == id + 1,
        final(b).arena.wf(),
        final(b).arena.extends(&old(b).arena),
        final(b).arena.tree_at(id as int) == sampled_tree(
            trees_of(&old(b).arena, children@, children@.len()),
            indices@,
            total,
        ),
        forall|start: int| #[trigger]
            in_a_row(&old(b).arena, children@, start) ==> final(b).arena.laid_out(id as int, start),
        same_meta(&final(b).arena, &old(b).arena),
        final(b).array_cap == old(b).array_cap,
{
    let ghost pre = b.arena;
    let ghost ids = children@;
    let ghost idx = indices@;
    let id = b.push_default();
    let kept = children.len();
    let children_start = b.arena.children.len();
    let indices_start = b.arena.arr_indices.len();
    let indices_len = indices.len();
    let mut children = children;
    let mut indices = indices;
    b.arena.children.append(&mut children);
    b.arena.arr_indices.append(&mut indices);
    let n = &mut b.arena.nodes[id];
    n.kind = NodeKind::Array;
    n.children_start = children_start;
    n.children_len = kept;
    n.array_len = Some(total);
    n.arr_indices_start = indices_start;
    n.arr_indices_len = indices_len;
    proof {
        let post = b.arena;
        let s = pre.children@.len() as int;
        assert(pre.children.len() == s);
        assert(pre.arr_indices.len() == pre.arr_indices@.len());
        assert(post.children@ == pre.children@ + ids);
        assert(post.arr_indices@ == pre.arr_indices@ + idx);
        assert forall|j: int| 0 <= j < kept implies #[trigger] post.children@[s + j] == ids[j]
            && ids[j] < id by {}
        assert(post.extends(&pre));
        assert(post.node_wf(id as int)) by {
            assert forall|j: int| s <= j < s + kept implies #[trigger] post.children@[j] < id by {
                assert(post.children@[s + (j - s)] == ids[j - s]);
            }
        }
        lemma_extends_keeps_wf(&post, &pre);
        lemma_items_of_slice(&post, id as int, ids, kept as nat);
        assert(trees_of(&post, ids, kept as nat) =~= trees_of(&pre, ids, kept as nat)) by {
            assert forall|j: int| 0 <= j < kept implies post.tree_at(ids[j] as int) == pre.tree_at(
                ids[j] as int,
            ) by {
                lemma_extends_keeps_tree(&post, &pre, ids[j] as int);
            }
        }
        assert(post.keys_at(id as int) =~= Seq::<Seq<char>>::empty());
        assert(post.indices_at(id as int) =~= idx);
        assert forall|start: int| #[trigger] in_a_row(&pre, ids, start) implies post.laid_out(
            id as int,
            start,
        ) by {
            lemma_parent_of_row(&post, &pre, id as int, ids, start);
        }
    }
    id
}

} // verus!
