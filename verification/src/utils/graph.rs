use crate::order::{in_chain, lemma_chain_bounds, lemma_chain_trans, lemma_closed_holds_chain};
use crate::order::{parent_closed, parent_index, parents_wf, NodeId, PriorityOrder};
use vstd::prelude::*;

verus! {

/// The set of nodes that a flag buffer marks for render set `id`.
pub open spec fn flags_view(flags: Seq<u32>, id: u32) -> Seq<bool> {
    Seq::new(flags.len(), |i: int| flags[i] == id)
}

/// No flag of the buffer carries `id` yet.
pub open spec fn fresh_for(flags: Seq<u32>, id: u32) -> bool {
    forall|i: int| 0 <= i < flags.len() ==> #[trigger] flags[i] != id
}

/// The parent of a chain member other than the chain's top is in the chain.
pub proof fn lemma_chain_parent(parents: Seq<Option<NodeId>>, start: int, x: int)
    requires
        parents_wf(parents),
        in_chain(parents, start, x),
        parents[x] is Some,
    ensures
        in_chain(parents, start, parent_index(parents, x)),
    decreases start,
{
    lemma_chain_bounds(parents, start, x);
    let p = parents[x]->0;
    assert(in_chain(parents, x, x));
    assert(in_chain(parents, p.0 as int, p.0 as int));
    assert(in_chain(parents, x, p.0 as int));
    lemma_chain_trans(parents, start, x, p.0 as int);
}

/// Mark `start` and its ancestors for render set `render_id`, stopping at the
/// first node that is marked already.
pub fn mark_node_and_ancestors(
    order: &PriorityOrder,
    start: NodeId,
    flags: &mut Vec<u32>,
    render_id: u32,
)
    requires
        parents_wf(order.parent@),
        old(flags)@.len() == order.parent@.len(),
        start.0 < old(flags)@.len(),
        parent_closed(order.parent@, flags_view(old(flags)@, render_id)),
    ensures
        final(flags)@.len() == old(flags)@.len(),
        forall|x: int|
            0 <= x < old(flags)@.len() ==> (#[trigger] final(flags)@[x] == render_id
                <==> old(flags)@[x] == render_id || in_chain(order.parent@, start.0 as int, x)),
        forall|x: int|
            0 <= x < old(flags)@.len() && #[trigger] final(flags)@[x] != render_id
                ==> final(flags)@[x] == old(flags)@[x],
        parent_closed(order.parent@, flags_view(final(flags)@, render_id)),
{
    let ghost parents = order.parent@;
    let ghost before = flags@;
    let ghost top = start.0 as int;
    let mut cur: usize = start.0;
    let mut active: bool = true;
    while active
        invariant
            parents == order.parent@,
            parents_wf(parents),
            before.len() == parents.len(),
            flags@.len() == before.len(),
            0 <= top < before.len(),
            parent_closed(parents, flags_view(before, render_id)),
            active ==> cur < before.len() && in_chain(parents, top, cur as int),
            active ==> forall|x: int| 0 <= x <= cur ==> #[trigger] flags@[x] == before[x],
            forall|x: int|
                0 <= x < before.len() && #[trigger] flags@[x] == render_id ==> before[x]
                    == render_id || in_chain(parents, top, x),
            forall|x: int|
                0 <= x < before.len() && before[x] == render_id ==> #[trigger] flags@[x]
                    == render_id,
            forall|x: int|
                0 <= x < before.len() && #[trigger] flags@[x] != render_id ==> flags@[x]
                    == before[x],
            active ==> forall|x: int| #[trigger]
                in_chain(parents, top, x) ==> flags@[x] == render_id || in_chain(
                    parents,
                    cur as int,
                    x,
                ),
            !active ==> forall|x: int| #[trigger]
                in_chain(parents, top, x) ==> flags@[x] == render_id,
        decreases
                (if active {
                    cur + 1
                } else {
                    0
                }),
    {
        if flags[cur] == render_id {
            proof {
                assert forall|x: int| #[trigger] in_chain(parents, top, x) implies flags@[x]
                    == render_id by {
                    lemma_chain_bounds(parents, top, x);
                    if flags@[x] != render_id {
                        assert(in_chain(parents, cur as int, x));
                        assert(flags_view(before, render_id)[cur as int]);
                        lemma_closed_holds_chain(
                            parents,
                            flags_view(before, render_id),
                            cur as int,
                            x,
                        );
                    }
                }
            }
            active = false;
        } else {
            let ghost mid = flags@;
            flags[cur] = render_id;
            match order.parent[cur] {
                Some(p) => {
                    proof {
                        lemma_chain_parent(parents, top, cur as int);
                        assert forall|x: int| #[trigger]
                            in_chain(parents, top, x) implies flags@[x] == render_id || in_chain(
                            parents,
                            p.0 as int,
                            x,
                        ) by {
                            lemma_chain_bounds(parents, top, x);
                            if mid[x] != render_id && x != cur {
                                assert(in_chain(parents, cur as int, x));
                            }
                        }
                    }
                    cur = p.0;
                },
                None => {
                    proof {
                        assert forall|x: int| #[trigger]
                            in_chain(parents, top, x) implies flags@[x] == render_id by {
                            lemma_chain_bounds(parents, top, x);
                            if mid[x] != render_id && x != cur {
                                assert(in_chain(parents, cur as int, x));
                            }
                        }
                    }
                    active = false;
                },
            }
        }
    }
    proof {
        let after = flags_view(flags@, render_id);
        assert forall|i: int|
            0 <= i < after.len() && i < parents.len() && #[trigger] after[i] implies (
        parents[i] matches Some(p) ==> p.0 < after.len() && after[p.0 as int]) by {
            if parents[i] is Some {
                let p = parents[i]->0;
                if before[i] == render_id {
                    assert(flags_view(before, render_id)[i]);
                    assert(flags_view(before, render_id)[p.0 as int]);
                } else {
                    assert(in_chain(parents, top, i));
                    lemma_chain_parent(parents, top, i);
                    assert(in_chain(parents, top, p.0 as int));
                }
            }
        }
        assert forall|x: int| 0 <= x < before.len() implies (#[trigger] flags@[x] == render_id
            <==> before[x] == render_id || in_chain(parents, top, x)) by {}
    }
}

} // verus!
