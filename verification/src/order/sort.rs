use crate::order::NodeId;
use vstd::prelude::*;
use vstd::seq_lib::{lemma_multiset_commutative, to_multiset_build};

verus! {

/// Every node of the sequence has a key.
pub open spec fn keyed(ids: Seq<NodeId>, keys: Seq<usize>) -> bool {
    forall|i: int| 0 <= i < ids.len() ==> (#[trigger] ids[i]).0 < keys.len()
}

/// The key of the node at position `i`.
pub open spec fn key_at(ids: Seq<NodeId>, keys: Seq<usize>, i: int) -> usize {
    keys[ids[i].0 as int]
}

/// The nodes stand in the order of their keys.
pub open spec fn sorted_by(ids: Seq<NodeId>, keys: Seq<usize>) -> bool {
    forall|a: int, b: int|
        0 <= a < b < ids.len() ==> #[trigger] key_at(ids, keys, a) <= #[trigger] key_at(ids, keys, b)
}

/// The test whether a node has the key `v`.
pub open spec fn has_key(keys: Seq<usize>, v: usize) -> spec_fn(NodeId) -> bool {
    |id: NodeId| id.0 < keys.len() && keys[id.0 as int] == v
}

/// Ties are kept: the nodes of any one key stand in `out` as they stand in
/// `inp`, the same ones in the same order.
pub open spec fn keeps_ties(out: Seq<NodeId>, inp: Seq<NodeId>, keys: Seq<usize>) -> bool {
    forall|v: usize| #[trigger] out.filter(has_key(keys, v)) == inp.filter(has_key(keys, v))
}

/// `out` is `inp` sorted by the keys, with ties kept: the one sequence of
/// the same nodes that stands in the order of the keys and leaves nodes of
/// one key in their order.
pub open spec fn stably_sorted(out: Seq<NodeId>, inp: Seq<NodeId>, keys: Seq<usize>) -> bool {
    &&& sorted_by(out, keys)
    &&& keeps_ties(out, inp, keys)
    &&& out.to_multiset() == inp.to_multiset()
}

/// Where no node passes a test, none is left by it.
proof fn lemma_filter_none(s: Seq<NodeId>, pred: spec_fn(NodeId) -> bool)
    requires
        forall|i: int| 0 <= i < s.len() ==> !pred(#[trigger] s[i]),
    ensures
        s.filter(pred) =~= Seq::<NodeId>::empty(),
{
    let kept = s.filter(pred);
    if kept.len() > 0 {
        assert(kept.contains(kept[0]));
        s.lemma_filter_contains_rev(pred, kept[0]);
        s.lemma_filter_pred(pred, 0);
        let i = choose|i: int| 0 <= i < s.len() && s[i] == kept[0];
        assert(!pred(s[i]));
    }
}

/// Whatever has a key in one sequence has one in a sequence of the same nodes.
pub proof fn lemma_keyed_by_multiset(a: Seq<NodeId>, b: Seq<NodeId>, keys: Seq<usize>)
    requires
        keyed(a, keys),
        a.to_multiset() == b.to_multiset(),
    ensures
        keyed(b, keys),
{
    broadcast use vstd::seq_lib::group_to_multiset_ensures;

    assert forall|i: int| 0 <= i < b.len() implies (#[trigger] b[i]).0 < keys.len() by {
        assert(b.contains(b[i]));
        assert(b.to_multiset().count(b[i]) > 0);
        assert(a.contains(b[i]));
        let j = choose|j: int| 0 <= j < a.len() && a[j] == b[i];
        assert(a[j].0 < keys.len());
    }
}

/// Merge two sorted sequences into one; of two nodes with one key, the one
/// from `left` comes first.
fn merge(left: &Vec<NodeId>, right: &Vec<NodeId>, keys: &Vec<usize>) -> (out: Vec<NodeId>)
    requires
        keyed(left@, keys@),
        keyed(right@, keys@),
        sorted_by(left@, keys@),
        sorted_by(right@, keys@),
    ensures
        sorted_by(out@, keys@),
        out@.to_multiset() == left@.to_multiset().add(right@.to_multiset()),
        forall|v: usize| #[trigger]
            out@.filter(has_key(keys@, v)) == left@.filter(has_key(keys@, v)) + right@.filter(
                has_key(keys@, v),
            ),
{
    let mut out: Vec<NodeId> = Vec::new();
    let mut i: usize = 0;
    let mut j: usize = 0;
    proof {
        assert(left@.take(0) =~= Seq::<NodeId>::empty());
        assert(right@.take(0) =~= Seq::<NodeId>::empty());
        lemma_multiset_commutative(left@.take(0), right@.take(0));
        assert(left@.take(0) + right@.take(0) =~= out@);
        assert forall|v: usize| #[trigger]
            out@.filter(has_key(keys@, v)) == left@.take(0).filter(has_key(keys@, v)) + right@.take(
                0,
            ).filter(has_key(keys@, v)) by {
            lemma_filter_none(out@, has_key(keys@, v));
            assert(out@.filter(has_key(keys@, v)) =~= left@.take(0).filter(has_key(keys@, v))
                + right@.take(0).filter(has_key(keys@, v)));
        }
    }
    while i < left.len() || j < right.len()
        invariant
            i <= left@.len(),
            j <= right@.len(),
            keyed(left@, keys@),
            keyed(right@, keys@),
            sorted_by(left@, keys@),
            sorted_by(right@, keys@),
            sorted_by(out@, keys@),
            keyed(out@, keys@),
            out@.to_multiset() == left@.take(i as int).to_multiset().add(
                right@.take(j as int).to_multiset(),
            ),
            forall|k: int|
                0 <= k < out@.len() && i < left@.len() ==> #[trigger] key_at(out@, keys@, k) <= key_at(
                    left@,
                    keys@,
                    i as int,
                ),
            forall|k: int|
                0 <= k < out@.len() && j < right@.len() ==> #[trigger] key_at(out@, keys@, k)
                    <= key_at(right@, keys@, j as int),
            forall|q: int|
                0 <= q < j && i < left@.len() ==> #[trigger] key_at(right@, keys@, q) < key_at(
                    left@,
                    keys@,
                    i as int,
                ),
            forall|v: usize| #[trigger]
                out@.filter(has_key(keys@, v)) == left@.take(i as int).filter(has_key(keys@, v))
                    + right@.take(j as int).filter(has_key(keys@, v)),
        decreases left@.len() - i + right@.len() - j,
    {
        let take_left = if i < left.len() && j < right.len() {
            keys[left[i].0] <= keys[right[j].0]
        } else {
            i < left.len()
        };
        let ghost before = out@;
        if take_left {
            let id = left[i];
            out.push(id);
            proof {
                to_multiset_build(before, id);
                to_multiset_build(left@.take(i as int), id);
                assert(left@.take(i + 1) =~= left@.take(i as int).push(id));
                assert(out@.to_multiset() =~= left@.take(i + 1).to_multiset().add(
                    right@.take(j as int).to_multiset(),
                ));
                assert forall|a: int, b: int| 0 <= a < b < out@.len() implies #[trigger] key_at(
                    out@,
                    keys@,
                    a,
                ) <= #[trigger] key_at(out@, keys@, b) by {
                    if b == out@.len() - 1 {
                        assert(key_at(before, keys@, a) <= key_at(left@, keys@, i as int));
                    } else {
                        assert(key_at(before, keys@, a) <= key_at(before, keys@, b));
                    }
                }
                assert forall|k: int| 0 <= k < out@.len() && i + 1 < left@.len() implies #[trigger] key_at(
                    out@,
                    keys@,
                    k,
                ) <= key_at(left@, keys@, i + 1) by {
                    assert(key_at(left@, keys@, i as int) <= key_at(left@, keys@, i + 1));
                    if k < before.len() {
                        assert(key_at(before, keys@, k) <= key_at(left@, keys@, i as int));
                    }
                }
                assert forall|k: int| 0 <= k < out@.len() && j < right@.len() implies #[trigger] key_at(
                    out@,
                    keys@,
                    k,
                ) <= key_at(right@, keys@, j as int) by {
                    if k < before.len() {
                        assert(key_at(before, keys@, k) <= key_at(right@, keys@, j as int));
                    }
                }
                assert forall|q: int| 0 <= q < j && i + 1 < left@.len() implies #[trigger] key_at(
                    right@,
                    keys@,
                    q,
                ) < key_at(left@, keys@, i + 1) by {
                    assert(key_at(left@, keys@, i as int) <= key_at(left@, keys@, i + 1));
                }
                assert forall|v: usize| #[trigger]
                    out@.filter(has_key(keys@, v)) == left@.take(i + 1).filter(has_key(keys@, v))
                        + right@.take(j as int).filter(has_key(keys@, v)) by {
                    let pred = has_key(keys@, v);
                    before.lemma_filter_push(id, pred);
                    left@.take(i as int).lemma_filter_push(id, pred);
                    if pred(id) {
                        assert forall|q: int| 0 <= q < right@.take(j as int).len() implies !pred(
                            #[trigger] right@.take(j as int)[q],
                        ) by {
                            assert(key_at(right@, keys@, q) < key_at(left@, keys@, i as int));
                        }
                        lemma_filter_none(right@.take(j as int), pred);
                    }
                    assert(out@.filter(pred) =~= left@.take(i + 1).filter(pred) + right@.take(
                        j as int,
                    ).filter(pred));
                }
            }
            i += 1;
        } else {
            let id = right[j];
            out.push(id);
            proof {
                to_multiset_build(before, id);
                to_multiset_build(right@.take(j as int), id);
                assert(right@.take(j + 1) =~= right@.take(j as int).push(id));
                assert(out@.to_multiset() =~= left@.take(i as int).to_multiset().add(
                    right@.take(j + 1).to_multiset(),
                ));
                assert forall|a: int, b: int| 0 <= a < b < out@.len() implies #[trigger] key_at(
                    out@,
                    keys@,
                    a,
                ) <= #[trigger] key_at(out@, keys@, b) by {
                    if b == out@.len() - 1 {
                        assert(key_at(before, keys@, a) <= key_at(right@, keys@, j as int));
                    } else {
                        assert(key_at(before, keys@, a) <= key_at(before, keys@, b));
                    }
                }
                assert forall|k: int| 0 <= k < out@.len() && j + 1 < right@.len() implies #[trigger] key_at(
                    out@,
                    keys@,
                    k,
                ) <= key_at(right@, keys@, j + 1) by {
                    assert(key_at(right@, keys@, j as int) <= key_at(right@, keys@, j + 1));
                    if k < before.len() {
                        assert(key_at(before, keys@, k) <= key_at(right@, keys@, j as int));
                    }
                }
                assert forall|k: int| 0 <= k < out@.len() && i < left@.len() implies #[trigger] key_at(
                    out@,
                    keys@,
                    k,
                ) <= key_at(left@, keys@, i as int) by {
                    if k < before.len() {
                        assert(key_at(before, keys@, k) <= key_at(left@, keys@, i as int));
                    }
                }
                assert forall|v: usize| #[trigger]
                    out@.filter(has_key(keys@, v)) == left@.take(i as int).filter(has_key(keys@, v))
                        + right@.take(j + 1).filter(has_key(keys@, v)) by {
                    let pred = has_key(keys@, v);
                    before.lemma_filter_push(id, pred);
                    right@.take(j as int).lemma_filter_push(id, pred);
                    assert(out@.filter(pred) =~= left@.take(i as int).filter(pred) + right@.take(
                        j + 1,
                    ).filter(pred));
                }
            }
            j += 1;
        }
    }
    proof {
        assert(left@.take(left@.len() as int) =~= left@);
        assert(right@.take(right@.len() as int) =~= right@);
    }
    out
}

/// Sort nodes by their keys. The result holds the same nodes, each as often
/// as before, in the order of their keys; nodes of one key keep their order.
pub fn sort_by_keys(ids: Vec<NodeId>, keys: &Vec<usize>) -> (sorted: Vec<NodeId>)
    requires
        keyed(ids@, keys@),
    ensures
        sorted_by(sorted@, keys@),
        keeps_ties(sorted@, ids@, keys@),
        sorted@.to_multiset() == ids@.to_multiset(),
        sorted@.len() == ids@.len(),
        keyed(sorted@, keys@),
    decreases ids@.len(),
{
    broadcast use vstd::seq_lib::group_to_multiset_ensures;

    if ids.len() <= 1 {
        return ids;
    }
    let ghost all = ids@;
    let mut left = ids;
    let mid = left.len() / 2;
    let right = left.split_off(mid);
    proof {
        assert(left@ + right@ =~= all);
        lemma_multiset_commutative(left@, right@);
    }
    let ghost first = left@;
    let ghost second = right@;
    let left_sorted = sort_by_keys(left, keys);
    let right_sorted = sort_by_keys(right, keys);
    let sorted = merge(&left_sorted, &right_sorted, keys);
    proof {
        assert forall|v: usize| #[trigger]
            sorted@.filter(has_key(keys@, v)) == all.filter(has_key(keys@, v)) by {
            let pred = has_key(keys@, v);
            assert(left_sorted@.filter(pred) == first.filter(pred));
            assert(right_sorted@.filter(pred) == second.filter(pred));
            Seq::filter_distributes_over_add(first, second, pred);
            assert(first + second =~= all);
        }
        lemma_keyed_by_multiset(all, sorted@, keys@);
        vstd::seq_lib::to_multiset_len(all);
        vstd::seq_lib::to_multiset_len(sorted@);
    }
    sorted
}

/// A sequence that holds the same nodes as a duplicate-free sequence, each
/// as often, is duplicate-free.
pub proof fn lemma_no_duplicates_by_multiset(a: Seq<NodeId>, b: Seq<NodeId>)
    requires
        a.no_duplicates(),
        a.to_multiset() == b.to_multiset(),
    ensures
        b.no_duplicates(),
        b.len() == a.len(),
{
    broadcast use vstd::seq_lib::group_to_multiset_ensures;

    a.lemma_multiset_has_no_duplicates();
    b.lemma_multiset_has_no_duplicates_conv();
    vstd::seq_lib::to_multiset_len(a);
    vstd::seq_lib::to_multiset_len(b);
}

/// A node of one sequence stands in any other that keeps its ties.
proof fn lemma_tied_holds(a: Seq<NodeId>, b: Seq<NodeId>, keys: Seq<usize>, i: int)
    requires
        keyed(a, keys),
        0 <= i < a.len(),
        forall|v: usize| #[trigger] a.filter(has_key(keys, v)) == b.filter(has_key(keys, v)),
    ensures
        b.contains(a[i]),
{
    let v = key_at(a, keys, i);
    let pred = has_key(keys, v);
    assert(pred(a[i]));
    a.lemma_filter_contains(pred, i);
    assert(b.filter(pred).contains(a[i]));
    b.lemma_filter_contains_rev(pred, a[i]);
}

/// One order only is sorted and keeps the ties: two sequences that stand in
/// the order of the keys, and in which the nodes of any one key are the same
/// ones in the same order, are one sequence.
pub proof fn lemma_stable_order_is_unique(a: Seq<NodeId>, b: Seq<NodeId>, keys: Seq<usize>)
    requires
        keyed(a, keys),
        keyed(b, keys),
        sorted_by(a, keys),
        sorted_by(b, keys),
        a.len() == b.len(),
        forall|v: usize| #[trigger] a.filter(has_key(keys, v)) == b.filter(has_key(keys, v)),
    ensures
        a == b,
    decreases a.len(),
{
    if a.len() == 0 {
        assert(a =~= b);
    } else {
        let n = a.len() as int;
        let x = a[n - 1];
        let y = b[n - 1];
        // the last nodes have the largest key, which is one key
        lemma_tied_holds(a, b, keys, n - 1);
        lemma_tied_holds(b, a, keys, n - 1);
        let ib = choose|ib: int| 0 <= ib < b.len() && b[ib] == x;
        let ia = choose|ia: int| 0 <= ia < a.len() && a[ia] == y;
        assert(key_at(b, keys, ib) <= key_at(b, keys, n - 1) || ib == n - 1);
        assert(key_at(a, keys, ia) <= key_at(a, keys, n - 1) || ia == n - 1);
        let top = keys[x.0 as int];
        assert(keys[y.0 as int] == top);
        // and each is the last of the nodes of that key
        let pred = has_key(keys, top);
        let a0 = a.drop_last();
        let b0 = b.drop_last();
        assert(a =~= a0.push(x));
        assert(b =~= b0.push(y));
        a0.lemma_filter_push(x, pred);
        b0.lemma_filter_push(y, pred);
        assert(a.filter(pred) == a0.filter(pred).push(x));
        assert(b.filter(pred) == b0.filter(pred).push(y));
        assert(a.filter(pred).last() == x);
        assert(b.filter(pred).last() == y);
        assert(x == y);
        assert(a0.filter(pred) =~= a.filter(pred).drop_last());
        assert(b0.filter(pred) =~= b.filter(pred).drop_last());
        assert forall|v: usize| #[trigger]
            a0.filter(has_key(keys, v)) == b0.filter(has_key(keys, v)) by {
            let q = has_key(keys, v);
            a0.lemma_filter_push(x, q);
            b0.lemma_filter_push(y, q);
            if v == top {
                assert(a0.filter(q) =~= a.filter(q).drop_last());
                assert(b0.filter(q) =~= b.filter(q).drop_last());
            }
        }
        assert forall|i: int, j: int| 0 <= i < j < a0.len() implies #[trigger] key_at(a0, keys, i)
            <= #[trigger] key_at(a0, keys, j) by {
            assert(key_at(a, keys, i) <= key_at(a, keys, j));
        }
        assert forall|i: int, j: int| 0 <= i < j < b0.len() implies #[trigger] key_at(b0, keys, i)
            <= #[trigger] key_at(b0, keys, j) by {
            assert(key_at(b, keys, i) <= key_at(b, keys, j));
        }
        lemma_stable_order_is_unique(a0, b0, keys);
        assert(a =~= b);
    }
}

/// Sorting is determined. Two sequences that are one sequence sorted by the
/// same keys, with ties kept, are the same.
pub proof fn lemma_stable_sort_is_unique(
    first: Seq<NodeId>,
    second: Seq<NodeId>,
    inp: Seq<NodeId>,
    keys: Seq<usize>,
)
    requires
        keyed(inp, keys),
        stably_sorted(first, inp, keys),
        stably_sorted(second, inp, keys),
    ensures
        first == second,
{
    lemma_keyed_by_multiset(inp, first, keys);
    lemma_keyed_by_multiset(inp, second, keys);
    vstd::seq_lib::to_multiset_len(first);
    vstd::seq_lib::to_multiset_len(second);
    vstd::seq_lib::to_multiset_len(inp);
    lemma_stable_order_is_unique(first, second, keys);
}

} // verus!
