use crate::order::{in_chain, lemma_chain_bounds, lemma_closed_holds_chain};
use crate::order::{parent_closed, parents_wf, NodeId, ObjectType, PriorityOrder, RankedNode};
use crate::utils::graph::lemma_chain_parent;
use crate::order::sort::{
    has_key, key_at, keyed, lemma_keyed_by_multiset, lemma_no_duplicates_by_multiset,
    lemma_stable_sort_is_unique, sort_by_keys, stably_sorted,
};
use crate::order::NodeKind;
use crate::utils::tree_arena::{JsonTreeArena, Tree};
use crate::error::HeadsonError;
use regex::{Error, Regex};
use vstd::prelude::*;

verus! {

/// A compiled pattern of the `regex` crate, carried through as an opaque value.
#[verifier::external_type_specification]
#[verifier::external_body]
pub struct ExRegex(Regex);

/// Whether a compiled pattern finds a match anywhere in a text.
pub uninterp spec fn regex_matches(re: Regex, text: Seq<char>) -> bool;

/// `Regex::is_match` of the `regex` crate: true if and only if the pattern
/// matches somewhere in the haystack. The answer depends on the pattern and
/// the haystack alone, so it is named and nothing more is claimed of it.
pub assume_specification[ Regex::is_match ](re: &Regex, haystack: &str) -> (b: bool)
    ensures
        b == regex_matches(*re, haystack@),
;

/// The error of the `regex` crate, carried through as an opaque value.
#[verifier::external_type_specification]
#[verifier::external_body]
pub struct ExRegexError(Error);

/// The compiled form of a pattern, or nothing where it is not a regular
/// expression that can be compiled.
pub uninterp spec fn compiled(pattern: Seq<char>) -> Option<Regex>;

/// What a compilation gave.
pub open spec fn compilation(r: Result<Regex, Error>) -> Option<Regex> {
    match r {
        Ok(re) => Some(re),
        Err(_) => None,
    }
}

/// `Regex::new` of the `regex` crate compiles a pattern; it fails where the
/// pattern is not valid or its program would be too large. The outcome
/// depends on the pattern alone, so it is named and nothing more is claimed
/// of it.
pub assume_specification[ Regex::new ](re: &str) -> (r: Result<Regex, Error>)
    ensures
        compilation(r) == compiled(re@),
;

/// Compile the pattern of a search.
pub fn compile_pattern(pattern: &str) -> (r: Result<Regex, HeadsonError>)
    ensures
        match r {
            Ok(re) => compiled(pattern@) == Some(re),
            Err(e) => compiled(pattern@) is None && e == HeadsonError::InvalidPattern,
        },
{
    match Regex::new(pattern) {
        Ok(re) => Ok(re),
        Err(_) => Err(HeadsonError::InvalidPattern),
    }
}

/// Which files of a fileset a strong search shows.
#[derive(Copy, Clone, Debug, PartialEq, Eq, Structural)]
pub enum GrepShow {
    /// Only the files in which something matches.
    Matching,
    /// Every file.
    All,
}

/// Search settings threaded through the pipeline.
pub struct GrepConfig {
    pub regex: Option<Regex>,
    pub weak: bool,
    pub show: GrepShow,
}

impl Default for GrepConfig {
    fn default() -> (cfg: Self)
        ensures
            cfg.regex is None,
            !cfg.weak,
            cfg.show == GrepShow::Matching,
    {
        GrepConfig { regex: None, weak: false, show: GrepShow::Matching }
    }
}

/// The nodes that a search pins: `must_keep[i]` holds for every match and
/// every ancestor of one.
pub struct GrepState {
    pub must_keep: Vec<bool>,
    pub must_keep_count: usize,
}

/// Number of `true` entries among the first `n` of `s`.
pub open spec fn count_true(s: Seq<bool>, n: int) -> nat
    decreases n,
{
    if n <= 0 {
        0
    } else {
        count_true(s, n - 1) + if s[n - 1] {
            1nat
        } else {
            0nat
        }
    }
}

impl GrepState {
    pub open spec fn wf(&self) -> bool {
        self.must_keep_count == count_true(self.must_keep@, self.must_keep@.len() as int)
    }

    pub fn is_enabled(&self) -> (b: bool)
        ensures
            b == (self.must_keep_count > 0),
    {
        self.must_keep_count > 0
    }
}

/// A node matches when its value does, or its own key, unless that key is the
/// name of a file in a fileset.
pub open spec fn node_matches(node: RankedNode, key_is_filename: bool, re: Regex) -> bool {
    ||| (node matches RankedNode::SplittableLeaf { value, .. } && regex_matches(re, value@))
    ||| (node matches RankedNode::AtomicLeaf { token, .. } && regex_matches(re, token@))
    ||| (!key_is_filename && (node.spec_key() matches Some(k) && regex_matches(re, k@)))
}

/// The key of node `i` is a file name: its parent is a fileset root.
pub open spec fn key_is_filename(order: &PriorityOrder, i: int) -> bool {
    order.parent@[i] matches Some(p) && order.object_type@[p.0 as int] == ObjectType::Fileset
}

/// Node `i` of the order matches the pattern.
pub open spec fn matches_at(order: &PriorityOrder, re: Regex, i: int) -> bool {
    0 <= i < order.total_nodes && node_matches(order.nodes@[i], key_is_filename(order, i), re)
}

/// `x` is a match or an ancestor of a match with index below `n`.
pub open spec fn pinned_below(order: &PriorityOrder, re: Regex, n: int, x: int) -> bool {
    exists|i: int| 0 <= i < n && #[trigger] matches_at(order, re, i) && in_chain(order.parent@, i, x)
}

pub fn matches_ranked(node: &RankedNode, key_is_filename: bool, re: &Regex) -> (b: bool)
    ensures
        b == node_matches(*node, key_is_filename, *re),
{
    let value_match = match node {
        RankedNode::SplittableLeaf { value, .. } => re.is_match(value.as_str()),
        RankedNode::AtomicLeaf { token, .. } => re.is_match(token.as_str()),
        _ => false,
    };
    if value_match {
        return true;
    }
    if key_is_filename {
        return false;
    }
    match node.key_in_object() {
        Some(k) => re.is_match(k.as_str()),
        None => false,
    }
}

/// Pin `start` and its ancestors, stopping at the first node pinned already.
fn pin_chain(order: &PriorityOrder, start: usize, must_keep: &mut Vec<bool>)
    requires
        parents_wf(order.parent@),
        old(must_keep)@.len() == order.parent@.len(),
        start < old(must_keep)@.len(),
        parent_closed(order.parent@, old(must_keep)@),
    ensures
        final(must_keep)@.len() == old(must_keep)@.len(),
        forall|x: int|
            0 <= x < old(must_keep)@.len() ==> (#[trigger] final(must_keep)@[x]
                <==> old(must_keep)@[x] || in_chain(order.parent@, start as int, x)),
        parent_closed(order.parent@, final(must_keep)@),
{
    let ghost parents = order.parent@;
    let ghost before = must_keep@;
    let ghost top = start as int;
    let mut cur: usize = start;
    let mut active: bool = true;
    while active
        invariant
            parents == order.parent@,
            parents_wf(parents),
            before.len() == parents.len(),
            must_keep@.len() == before.len(),
            0 <= top < before.len(),
            parent_closed(parents, before),
            active ==> cur < before.len() && in_chain(parents, top, cur as int),
            active ==> forall|x: int| 0 <= x <= cur ==> #[trigger] must_keep@[x] == before[x],
            forall|x: int|
                0 <= x < before.len() && #[trigger] must_keep@[x] ==> before[x] || in_chain(
                    parents,
                    top,
                    x,
                ),
            forall|x: int| 0 <= x < before.len() && before[x] ==> #[trigger] must_keep@[x],
            active ==> forall|x: int| #[trigger]
                in_chain(parents, top, x) ==> must_keep@[x] || in_chain(parents, cur as int, x),
            !active ==> forall|x: int| #[trigger] in_chain(parents, top, x) ==> must_keep@[x],
        decreases
                (if active {
                    cur + 1
                } else {
                    0
                }),
    {
        if must_keep[cur] {
            proof {
                assert forall|x: int| #[trigger] in_chain(parents, top, x) implies must_keep@[x] by {
                    lemma_chain_bounds(parents, top, x);
                    if !must_keep@[x] {
                        assert(in_chain(parents, cur as int, x));
                        lemma_closed_holds_chain(parents, before, cur as int, x);
                    }
                }
            }
            active = false;
        } else {
            let ghost mid = must_keep@;
            must_keep[cur] = true;
            match order.parent[cur] {
                Some(p) => {
                    proof {
                        lemma_chain_parent(parents, top, cur as int);
                        assert forall|x: int| #[trigger]
                            in_chain(parents, top, x) implies must_keep@[x] || in_chain(
                            parents,
                            p.0 as int,
                            x,
                        ) by {
                            lemma_chain_bounds(parents, top, x);
                            if !mid[x] && x != cur {
                                assert(in_chain(parents, cur as int, x));
                            }
                        }
                    }
                    cur = p.0;
                },
                None => {
                    proof {
                        assert forall|x: int| #[trigger]
                            in_chain(parents, top, x) implies must_keep@[x] by {
                            lemma_chain_bounds(parents, top, x);
                            if !mid[x] && x != cur {
                                assert(in_chain(parents, cur as int, x));
                            }
                        }
                    }
                    active = false;
                },
            }
        }
    }
    proof {
        let after = must_keep@;
        assert forall|i: int|
            0 <= i < after.len() && i < parents.len() && #[trigger] after[i] implies (
        parents[i] matches Some(p) ==> p.0 < after.len() && after[p.0 as int]) by {
            if parents[i] is Some {
                let p = parents[i]->0;
                if before[i] {
                    assert(before[p.0 as int]);
                } else {
                    assert(in_chain(parents, top, i));
                    lemma_chain_parent(parents, top, i);
                    assert(in_chain(parents, top, p.0 as int));
                }
            }
        }
        assert forall|x: int| 0 <= x < before.len() implies (#[trigger] must_keep@[x] <==> before[x]
            || in_chain(parents, top, x)) by {}
    }
}

/// Pin every node that matches the pattern, together with its ancestors.
pub fn mark_matches_and_ancestors(order: &PriorityOrder, re: &Regex, must_keep: &mut Vec<bool>)
    requires
        order.wf(),
        old(must_keep)@.len() == order.total_nodes,
        parent_closed(order.parent@, old(must_keep)@),
    ensures
        final(must_keep)@.len() == old(must_keep)@.len(),
        forall|x: int|
            0 <= x < order.total_nodes ==> (#[trigger] final(must_keep)@[x] <==> old(must_keep)@[x]
                || pinned_below(order, *re, order.total_nodes as int, x)),
        parent_closed(order.parent@, final(must_keep)@),
{
    let ghost before = must_keep@;
    let n = order.nodes.len();
    let mut idx: usize = 0;
    while idx < n
        invariant
            order.wf(),
            n == order.total_nodes,
            idx <= n,
            must_keep@.len() == n,
            before.len() == n,
            parent_closed(order.parent@, must_keep@),
            forall|x: int|
                0 <= x < n ==> (#[trigger] must_keep@[x] <==> before[x] || pinned_below(
                    order,
                    *re,
                    idx as int,
                    x,
                )),
        decreases n - idx,
    {
        let is_filename = match order.parent[idx] {
            Some(p) => match order.object_type[p.0] {
                ObjectType::Fileset => true,
                ObjectType::Object => false,
            },
            None => false,
        };
        let ghost mid = must_keep@;
        if matches_ranked(&order.nodes[idx], is_filename, re) {
            pin_chain(order, idx, must_keep);
        }
        proof {
            assert forall|x: int| 0 <= x < n implies (#[trigger] must_keep@[x] <==> before[x]
                || pinned_below(order, *re, idx + 1, x)) by {
                if pinned_below(order, *re, idx + 1, x) {
                    let i = choose|i: int|
                        0 <= i < idx + 1 && #[trigger] matches_at(order, *re, i) && in_chain(
                            order.parent@,
                            i,
                            x,
                        );
                    if i < idx {
                        assert(pinned_below(order, *re, idx as int, x));
                    }
                }
                if must_keep@[x] && !before[x] {
                    if mid[x] {
                        let i = choose|i: int|
                            0 <= i < idx && #[trigger] matches_at(order, *re, i) && in_chain(
                                order.parent@,
                                i,
                                x,
                            );
                        assert(matches_at(order, *re, i));
                    } else {
                        assert(matches_at(order, *re, idx as int));
                    }
                }
            }
        }
        idx += 1;
    }
}

/// `x` is a part of a splittable string that matches.
pub open spec fn part_of_match(order: &PriorityOrder, re: Regex, x: int) -> bool {
    order.parent@[x] matches Some(p) && order.nodes@[p.0 as int] is SplittableLeaf && matches_at(
        order,
        re,
        p.0 as int,
    )
}

/// `x` is pinned by a search: it matches, or is an ancestor of a match, or
/// is a part of a splittable string that matches, so that the whole string
/// is kept and not a prefix of it.
pub open spec fn pinned_at(order: &PriorityOrder, re: Regex, x: int) -> bool {
    pinned_below(order, re, order.total_nodes as int, x) || part_of_match(order, re, x)
}

/// The set of nodes that a search for `re` pins in `order`.
pub open spec fn pinned_set(order: &PriorityOrder, re: Regex) -> Seq<bool> {
    Seq::new(order.total_nodes as nat, |x: int| pinned_at(order, re, x))
}

/// Pin the parts of every splittable string that matches the pattern.
pub fn mark_parts_of_matches(order: &PriorityOrder, re: &Regex, must_keep: &mut Vec<bool>)
    requires
        order.wf(),
        old(must_keep)@.len() == order.total_nodes,
    ensures
        final(must_keep)@.len() == old(must_keep)@.len(),
        forall|x: int|
            0 <= x < order.total_nodes ==> (#[trigger] final(must_keep)@[x] <==> old(must_keep)@[x]
                || part_of_match(order, *re, x)),
{
    let ghost before = must_keep@;
    let n = order.nodes.len();
    let mut idx: usize = 0;
    while idx < n
        invariant
            order.wf(),
            n == order.total_nodes,
            idx <= n,
            must_keep@.len() == n,
            before.len() == n,
            forall|x: int|
                0 <= x < idx ==> (#[trigger] must_keep@[x] <==> before[x] || part_of_match(
                    order,
                    *re,
                    x,
                )),
            forall|x: int| idx <= x < n ==> #[trigger] must_keep@[x] == before[x],
        decreases n - idx,
    {
        let of_match = match order.parent[idx] {
            Some(p) => {
                assert(p.0 < idx);
                match &order.nodes[p.0] {
                    RankedNode::SplittableLeaf { .. } => {
                        let is_filename = match order.parent[p.0] {
                            Some(g) => match order.object_type[g.0] {
                                ObjectType::Fileset => true,
                                ObjectType::Object => false,
                            },
                            None => false,
                        };
                        matches_ranked(&order.nodes[p.0], is_filename, re)
                    },
                    _ => false,
                }
            },
            None => false,
        };
        assert(of_match == part_of_match(order, *re, idx as int));
        if of_match {
            must_keep[idx] = true;
        }
        idx += 1;
    }
}

pub proof fn lemma_count_true_bounds(s: Seq<bool>, n: int)
    requires
        0 <= n <= s.len(),
    ensures
        count_true(s, n) <= n,
        count_true(s, n) > 0 <==> exists|i: int| 0 <= i < n && s[i],
    decreases n,
{
    if n > 0 {
        lemma_count_true_bounds(s, n - 1);
        if s[n - 1] {
        } else if count_true(s, n) > 0 {
            let i = choose|i: int| 0 <= i < n - 1 && s[i];
            assert(s[i]);
        }
    }
}

/// Find the nodes that match the pattern, or whose keys do, and pin them
/// with their ancestors and, where a splittable string matches, with its
/// parts. There is no state without a pattern or a match.
pub fn compute_grep_state(order: &PriorityOrder, grep: &GrepConfig) -> (state: Option<GrepState>)
    requires
        order.wf(),
    ensures
        grep.regex is None ==> state is None,
        grep.regex matches Some(re) ==> {
            let pinned = pinned_set(order, re);
            match state {
                Some(st) => st.must_keep@ == pinned && st.wf() && st.must_keep_count > 0,
                None => count_true(pinned, pinned.len() as int) == 0,
            }
        },
{
    let re = match &grep.regex {
        Some(re) => re,
        None => {
            return None;
        },
    };
    let mut must_keep: Vec<bool> = vec![false; order.total_nodes];
    mark_matches_and_ancestors(order, re, &mut must_keep);
    mark_parts_of_matches(order, re, &mut must_keep);
    assert(must_keep@ =~= pinned_set(order, *re));
    let mut must_keep_count: usize = 0;
    let mut i: usize = 0;
    while i < must_keep.len()
        invariant
            i <= must_keep@.len(),
            must_keep_count == count_true(must_keep@, i as int),
            must_keep_count <= i,
        decreases must_keep@.len() - i,
    {
        if must_keep[i] {
            must_keep_count += 1;
        }
        i += 1;
    }
    if must_keep_count > 0 {
        Some(GrepState { must_keep, must_keep_count })
    } else {
        None
    }
}

/// The predicate "node `id` is pinned by `must_keep`".
pub open spec fn is_kept(must_keep: Seq<bool>) -> spec_fn(NodeId) -> bool {
    |id: NodeId| id.0 < must_keep.len() && must_keep[id.0 as int]
}

/// The predicate "node `id` is not pinned by `must_keep`".
pub open spec fn is_not_kept(must_keep: Seq<bool>) -> spec_fn(NodeId) -> bool {
    |id: NodeId| !(id.0 < must_keep.len() && must_keep[id.0 as int])
}

/// The selection sequence with the pinned nodes moved to the front, each
/// group in its earlier order.
pub open spec fn pinned_first(by_priority: Seq<NodeId>, must_keep: Seq<bool>) -> Seq<NodeId> {
    by_priority.filter(is_kept(must_keep)) + by_priority.filter(is_not_kept(must_keep))
}

proof fn lemma_push_fresh(f: Seq<NodeId>, last: NodeId)
    requires
        f.no_duplicates(),
        !f.contains(last),
    ensures
        f.push(last).no_duplicates(),
{
    assert forall|i: int, j: int|
        0 <= i < f.push(last).len() && 0 <= j < f.push(last).len() && i != j implies f.push(
        last,
    )[i] != f.push(last)[j] by {
        if i < f.len() {
            assert(f.contains(f[i]));
        }
        if j < f.len() {
            assert(f.contains(f[j]));
        }
    }
}

/// Splitting a duplicate-free sequence by a predicate gives two duplicate-free
/// parts that share nothing and together have every element.
pub proof fn lemma_split_by_kept(s: Seq<NodeId>, must_keep: Seq<bool>)
    requires
        s.no_duplicates(),
    ensures
        s.filter(is_kept(must_keep)).no_duplicates(),
        s.filter(is_not_kept(must_keep)).no_duplicates(),
        s.filter(is_kept(must_keep)).len() + s.filter(is_not_kept(must_keep)).len() == s.len(),
        forall|x: NodeId| #[trigger]
            s.filter(is_kept(must_keep)).contains(x) <==> s.contains(x) && is_kept(must_keep)(x),
        forall|x: NodeId| #[trigger]
            s.filter(is_not_kept(must_keep)).contains(x) <==> s.contains(x) && is_not_kept(
                must_keep,
            )(x),
    decreases s.len(),
{
    reveal(Seq::filter);
    let yes = is_kept(must_keep);
    let no = is_not_kept(must_keep);
    if s.len() > 0 {
        let rest = s.drop_last();
        let last = s.last();
        lemma_split_by_kept(rest, must_keep);
        assert(!rest.contains(last)) by {
            if rest.contains(last) {
                let i = choose|i: int| 0 <= i < rest.len() && rest[i] == last;
                assert(s[i] == s[s.len() - 1]);
            }
        }
        assert forall|x: NodeId| #[trigger] s.contains(x) <==> rest.contains(x) || x == last by {
            if s.contains(x) {
                let i = choose|i: int| 0 <= i < s.len() && s[i] == x;
                if i < s.len() - 1 {
                    assert(rest[i] == x);
                }
            }
            if rest.contains(x) {
                let i = choose|i: int| 0 <= i < rest.len() && rest[i] == x;
                assert(s[i] == x);
            }
            if x == last {
                assert(s[s.len() - 1] == x);
            }
        }
        if yes(last) {
            let f = rest.filter(yes);
            assert(s.filter(yes) == f.push(last));
            assert(s.filter(no) == rest.filter(no));
            lemma_push_fresh(f, last);
            assert forall|x: NodeId| #[trigger] f.push(last).contains(x) <==> f.contains(x) || x
                == last by {
                if f.push(last).contains(x) {
                    let i = choose|i: int| 0 <= i < f.push(last).len() && f.push(last)[i] == x;
                    if i < f.len() {
                        assert(f[i] == x);
                    }
                }
                if f.contains(x) {
                    let i = choose|i: int| 0 <= i < f.len() && f[i] == x;
                    assert(f.push(last)[i] == x);
                }
                if x == last {
                    assert(f.push(last)[f.len() as int] == x);
                }
            }
        } else {
            let f = rest.filter(no);
            assert(s.filter(no) == f.push(last));
            assert(s.filter(yes) == rest.filter(yes));
            lemma_push_fresh(f, last);
            assert forall|x: NodeId| #[trigger] f.push(last).contains(x) <==> f.contains(x) || x
                == last by {
                if f.push(last).contains(x) {
                    let i = choose|i: int| 0 <= i < f.push(last).len() && f.push(last)[i] == x;
                    if i < f.len() {
                        assert(f[i] == x);
                    }
                }
                if f.contains(x) {
                    let i = choose|i: int| 0 <= i < f.len() && f[i] == x;
                    assert(f.push(last)[i] == x);
                }
                if x == last {
                    assert(f.push(last)[f.len() as int] == x);
                }
            }
        }
    }
}

/// Moving the pinned nodes to the front keeps a selection sequence valid.
pub proof fn lemma_pinned_first_is_permutation(s: Seq<NodeId>, must_keep: Seq<bool>)
    requires
        s.no_duplicates(),
    ensures
        pinned_first(s, must_keep).no_duplicates(),
        pinned_first(s, must_keep).len() == s.len(),
        forall|x: NodeId| #[trigger] pinned_first(s, must_keep).contains(x) <==> s.contains(x),
{
    lemma_split_by_kept(s, must_keep);
    let a = s.filter(is_kept(must_keep));
    let b = s.filter(is_not_kept(must_keep));
    assert forall|i: int, j: int| 0 <= i < a.len() && 0 <= j < b.len() implies a[i] != b[j] by {
        assert(a.contains(a[i]));
        assert(b.contains(b[j]));
    }
    vstd::seq_lib::lemma_no_dup_in_concat(a, b);
    assert forall|x: NodeId| #[trigger] (a + b).contains(x) <==> s.contains(x) by {
        if (a + b).contains(x) {
            let i = choose|i: int| 0 <= i < (a + b).len() && (a + b)[i] == x;
            if i < a.len() {
                assert(a[i] == x);
                assert(a.contains(x));
            } else {
                assert(b[i - a.len()] == x);
                assert(b.contains(x));
            }
        }
        if s.contains(x) {
            if is_kept(must_keep)(x) {
                assert(a.contains(x));
                let i = choose|i: int| 0 <= i < a.len() && a[i] == x;
                assert((a + b)[i] == x);
            } else {
                assert(b.contains(x));
                let i = choose|i: int| 0 <= i < b.len() && b[i] == x;
                assert((a + b)[a.len() + i] == x);
            }
        }
    }
}

/// Reorder the selection sequence so that pinned nodes are visited first,
/// preserving the existing relative order within each group.
pub fn reorder_priority_with_must_keep(order: &mut PriorityOrder, must_keep: &Vec<bool>)
    requires
        old(order).wf(),
    ensures
        final(order).by_priority@ == pinned_first(old(order).by_priority@, must_keep@),
        final(order).nodes == old(order).nodes,
        final(order).parent == old(order).parent,
        final(order).children == old(order).children,
        final(order).total_nodes == old(order).total_nodes,
        final(order).object_type == old(order).object_type,
        final(order).index_in_parent_array == old(order).index_in_parent_array,
        final(order).file_kind == old(order).file_kind,
        final(order).wf(),
{
    let ghost src = order.by_priority@;
    let ghost yes = is_kept(must_keep@);
    let ghost no = is_not_kept(must_keep@);
    let n = order.by_priority.len();
    let mut reordered: Vec<NodeId> = Vec::with_capacity(order.total_nodes);
    let mut j: usize = 0;
    while j < n
        invariant
            j <= n,
            n == src.len(),
            order.by_priority@ == src,
            yes == is_kept(must_keep@),
            reordered@ == src.take(j as int).filter(yes),
        decreases n - j,
    {
        let id = order.by_priority[j];
        proof {
            assert(src.take(j + 1) =~= src.take(j as int).push(id));
            src.take(j as int).lemma_filter_push(id, yes);
        }
        if id.0 < must_keep.len() && must_keep[id.0] {
            reordered.push(id);
        }
        j += 1;
    }
    assert(src.take(n as int) =~= src);
    let ghost front = reordered@;
    let mut j: usize = 0;
    while j < n
        invariant
            j <= n,
            n == src.len(),
            order.by_priority@ == src,
            no == is_not_kept(must_keep@),
            reordered@ == front + src.take(j as int).filter(no),
        decreases n - j,
    {
        let id = order.by_priority[j];
        proof {
            assert(src.take(j + 1) =~= src.take(j as int).push(id));
            src.take(j as int).lemma_filter_push(id, no);
            assert(src.take(0).filter(no) =~= Seq::<NodeId>::empty()) by {
                reveal(Seq::filter);
            }
        }
        if !(id.0 < must_keep.len() && must_keep[id.0]) {
            reordered.push(id);
            assert(reordered@ =~= front + src.take(j as int).filter(no).push(id));
        }
        j += 1;
    }
    proof {
        assert(src.take(n as int) =~= src);
        lemma_pinned_first_is_permutation(src, must_keep@);
        assert forall|k: int| 0 <= k < reordered@.len() implies (#[trigger] reordered@[k]).0
            < order.total_nodes by {
            assert(pinned_first(src, must_keep@).contains(reordered@[k]));
            let i = choose|i: int| 0 <= i < src.len() && src[i] == reordered@[k];
            assert(src[i].0 < order.total_nodes);
        }
    }
    order.by_priority = reordered;
}

/// By how many places a weak search moves a match and its ancestors toward
/// the front of the selection sequence.
pub const WEAK_BONUS: usize = 8;

/// The place that a weak search gives the node at place `pos`: as many
/// places earlier as the bonus says where the node is pinned, though not
/// before the first.
pub open spec fn nudged_place(by_priority: Seq<NodeId>, must_keep: Seq<bool>, pos: int) -> usize {
    if is_kept(must_keep)(by_priority[pos]) && pos >= WEAK_BONUS {
        (pos - WEAK_BONUS) as usize
    } else if is_kept(must_keep)(by_priority[pos]) {
        0
    } else {
        pos as usize
    }
}

/// The places are the nudged ones of the nodes of the sequence.
pub open spec fn places_of(before: Seq<NodeId>, must_keep: Seq<bool>, places: Seq<usize>) -> bool {
    forall|pos: int|
        0 <= pos < before.len() ==> (#[trigger] before[pos]).0 < places.len()
            && places[before[pos].0 as int] == nudged_place(before, must_keep, pos)
}

/// The selection sequence `after` is `before` with the pinned nodes nudged
/// toward the front: it holds the same nodes, in the order of their nudged
/// places, those of one place in the order they had.
pub open spec fn nudged(before: Seq<NodeId>, after: Seq<NodeId>, must_keep: Seq<bool>) -> bool {
    exists|places: Seq<usize>|
        {
            &&& #[trigger] stably_sorted(after, before, places)
            &&& places_of(before, must_keep, places)
        }
}

/// Two tests that agree on the nodes of a sequence leave the same nodes.
proof fn lemma_filter_agrees(s: Seq<NodeId>, p: spec_fn(NodeId) -> bool, q: spec_fn(NodeId) -> bool)
    requires
        forall|i: int| 0 <= i < s.len() ==> p(#[trigger] s[i]) == q(s[i]),
    ensures
        s.filter(p) == s.filter(q),
    decreases s.len(),
{
    reveal(Seq::filter);
    if s.len() > 0 {
        let rest = s.drop_last();
        assert forall|i: int| 0 <= i < rest.len() implies p(#[trigger] rest[i]) == q(rest[i]) by {
            assert(rest[i] == s[i]);
        }
        lemma_filter_agrees(rest, p, q);
        assert(p(s[s.len() - 1]) == q(s[s.len() - 1]));
    }
}

/// Nudging is determined: a sequence is nudged to one sequence only.
pub proof fn lemma_nudged_is_unique(
    before: Seq<NodeId>,
    first: Seq<NodeId>,
    second: Seq<NodeId>,
    must_keep: Seq<bool>,
)
    requires
        nudged(before, first, must_keep),
        nudged(before, second, must_keep),
    ensures
        first == second,
{
    broadcast use vstd::seq_lib::group_to_multiset_ensures;

    let p1 = choose|places: Seq<usize>| #[trigger]
        stably_sorted(first, before, places) && places_of(before, must_keep, places);
    let p2 = choose|places: Seq<usize>| #[trigger]
        stably_sorted(second, before, places) && places_of(before, must_keep, places);
    assert(keyed(before, p1));
    assert(keyed(before, p2));
    lemma_keyed_by_multiset(before, second, p1);
    lemma_keyed_by_multiset(before, second, p2);
    // the two places agree on every node of the sequences
    assert forall|i: int| 0 <= i < second.len() implies p1[(#[trigger] second[i]).0 as int]
        == p2[second[i].0 as int] by {
        assert(second.contains(second[i]));
        assert(second.to_multiset().count(second[i]) > 0);
        assert(before.contains(second[i]));
        let pos = choose|pos: int| 0 <= pos < before.len() && before[pos] == second[i];
        assert(before[pos].0 == second[i].0);
    }
    assert forall|a: int, b: int| 0 <= a < b < second.len() implies #[trigger] key_at(
        second,
        p1,
        a,
    ) <= #[trigger] key_at(second, p1, b) by {
        assert(key_at(second, p2, a) <= key_at(second, p2, b));
        assert(p1[second[a].0 as int] == p2[second[a].0 as int]);
        assert(p1[second[b].0 as int] == p2[second[b].0 as int]);
    }
    assert forall|v: usize| #[trigger]
        second.filter(has_key(p1, v)) == before.filter(has_key(p1, v)) by {
        assert forall|i: int| 0 <= i < second.len() implies has_key(p1, v)(#[trigger] second[i])
            == has_key(p2, v)(second[i]) by {
            assert(p1[second[i].0 as int] == p2[second[i].0 as int]);
        }
        lemma_filter_agrees(second, has_key(p1, v), has_key(p2, v));
        assert forall|i: int| 0 <= i < before.len() implies has_key(p1, v)(#[trigger] before[i])
            == has_key(p2, v)(before[i]) by {}
        lemma_filter_agrees(before, has_key(p1, v), has_key(p2, v));
        assert(second.filter(has_key(p2, v)) == before.filter(has_key(p2, v)));
    }
    assert(stably_sorted(second, before, p1));
    lemma_stable_sort_is_unique(first, second, before, p1);
}

/// Move the pinned nodes a few places toward the front of the selection
/// sequence. Nodes with one nudged place keep their order.
pub fn nudge_priority_toward_matches(order: &mut PriorityOrder, must_keep: &Vec<bool>)
    requires
        old(order).wf(),
    ensures
        nudged(old(order).by_priority@, final(order).by_priority@, must_keep@),
        final(order).nodes == old(order).nodes,
        final(order).parent == old(order).parent,
        final(order).children == old(order).children,
        final(order).total_nodes == old(order).total_nodes,
        final(order).object_type == old(order).object_type,
        final(order).index_in_parent_array == old(order).index_in_parent_array,
        final(order).file_kind == old(order).file_kind,
        final(order).wf(),
{
    let ghost src = order.by_priority@;
    let n = order.by_priority.len();
    let mut places: Vec<usize> = vec![0; order.total_nodes];
    let mut pos: usize = 0;
    while pos < n
        invariant
            order.wf(),
            order.by_priority@ == src,
            n == src.len(),
            pos <= n,
            places@.len() == order.total_nodes,
            forall|q: int|
                0 <= q < pos ==> places@[(#[trigger] src[q]).0 as int] == nudged_place(
                    src,
                    must_keep@,
                    q,
                ),
        decreases n - pos,
    {
        let id = order.by_priority[pos];
        let kept = id.0 < must_keep.len() && must_keep[id.0];
        let place = if kept && pos >= WEAK_BONUS {
            pos - WEAK_BONUS
        } else if kept {
            0
        } else {
            pos
        };
        let ghost before = places@;
        places[id.0] = place;
        proof {
            assert forall|q: int| 0 <= q < pos + 1 implies places@[(#[trigger] src[q]).0 as int]
                == nudged_place(src, must_keep@, q) by {
                if q < pos {
                    assert(src[q] != src[pos as int]);
                    assert(places@[src[q].0 as int] == before[src[q].0 as int]);
                }
            }
        }
        pos += 1;
    }
    let mut taken: Vec<NodeId> = Vec::new();
    core::mem::swap(&mut taken, &mut order.by_priority);
    assert(taken@ == src);
    assert(keyed(taken@, places@));
    let sorted = sort_by_keys(taken, &places);
    proof {
        lemma_no_duplicates_by_multiset(src, sorted@);
        assert(stably_sorted(sorted@, src, places@));
        assert(places_of(src, must_keep@, places@));
    }
    order.by_priority = sorted;
}

/// The text of a scalar: its string value, else its lexeme, else nothing.
pub open spec fn tree_text(t: Tree) -> Seq<char> {
    match t.value {
        Some(v) => v,
        None => match t.token {
            Some(x) => x,
            None => Seq::empty(),
        },
    }
}

/// Something in the tree matches the pattern: the text of a scalar, or the
/// key of an entry of an object.
pub open spec fn tree_has_match(t: Tree, re: Regex) -> bool
    decreases t,
{
    ||| (t.kind != NodeKind::Array && t.kind != NodeKind::Object && regex_matches(re, tree_text(t)))
    ||| exists|j: int| 0 <= j < t.keys.len() && regex_matches(re, #[trigger] t.keys[j])
    ||| exists|j: int| 0 <= j < t.items.len() && tree_has_match(#[trigger] t.items[j], re)
}

/// Whether something below node `id` of the arena matches the pattern.
pub fn arena_has_match(arena: &JsonTreeArena, id: usize, re: &Regex) -> (found: bool)
    requires
        arena.wf(),
        id < arena.nodes@.len(),
    ensures
        found == tree_has_match(arena.tree_at(id as int), *re),
    decreases id,
{
    let n = &arena.nodes[id];
    let ghost t = arena.tree_at(id as int);
    assert(arena.node_wf(id as int));
    let container = match n.kind {
        NodeKind::Array | NodeKind::Object => true,
        _ => false,
    };
    proof {
        reveal_strlit("");
        assert(""@ =~= Seq::<char>::empty());
        assert(t.keys.len() == n.obj_keys_len);
    }
    if !container {
        let hit = match &n.string_value {
            Some(v) => re.is_match(v.as_str()),
            None => match &n.atomic_token {
                Some(x) => re.is_match(x.as_str()),
                None => re.is_match(""),
            },
        };
        assert(hit == regex_matches(*re, tree_text(t)));
        if hit {
            return true;
        }
    }
    assert(!(t.kind != NodeKind::Array && t.kind != NodeKind::Object && regex_matches(
        *re,
        tree_text(t),
    )));
    let n_keys = arena.obj_keys.len();
    let n_children = arena.children.len();
    let mut j: usize = 0;
    while j < n.obj_keys_len
        invariant
            n_keys == arena.obj_keys@.len(),
            *n == arena.nodes@[id as int],
            arena.node_wf(id as int),
            t == arena.tree_at(id as int),
            id < arena.nodes@.len(),
            j <= n.obj_keys_len,
            t.keys.len() == n.obj_keys_len,
            forall|k: int| 0 <= k < j ==> !regex_matches(*re, #[trigger] t.keys[k]),
        decreases n.obj_keys_len - j,
    {
        assert(t.keys[j as int] == arena.obj_keys@[n.obj_keys_start + j]@);
        if re.is_match(arena.obj_keys[n.obj_keys_start + j].as_str()) {
            return true;
        }
        j += 1;
    }
    proof {
        lemma_items_are_children(arena, id as int, n.children_len as nat);
    }
    let mut j: usize = 0;
    while j < n.children_len
        invariant
            n_children == arena.children@.len(),
            *n == arena.nodes@[id as int],
            arena.wf(),
            arena.node_wf(id as int),
            t == arena.tree_at(id as int),
            id < arena.nodes@.len(),
            j <= n.children_len,
            t.items.len() == n.children_len,
            t.keys.len() == n.obj_keys_len,
            !(t.kind != NodeKind::Array && t.kind != NodeKind::Object && regex_matches(
                *re,
                tree_text(t),
            )),
            forall|k: int| 0 <= k < t.keys.len() ==> !regex_matches(*re, #[trigger] t.keys[k]),
            forall|k: int|
                0 <= k < n.children_len ==> #[trigger] t.items[k] == arena.tree_at(
                    arena.children@[n.children_start + k] as int,
                ),
            forall|k: int| 0 <= k < j ==> !tree_has_match(#[trigger] t.items[k], *re),
        decreases n.children_len - j,
    {
        let c = arena.children[n.children_start + j];
        if arena_has_match(arena, c, re) {
            assert(tree_has_match(t.items[j as int], *re));
            return true;
        }
        j += 1;
    }
    false
}

/// The trees of the children of a node are the trees of the nodes in its
/// slice.
pub proof fn lemma_items_are_children(arena: &JsonTreeArena, id: int, len: nat)
    requires
        0 <= id < arena.nodes@.len(),
        arena.node_wf(id),
        len <= arena.nodes@[id].children_len,
    ensures
        arena.items_at(id, len).len() == len,
        forall|k: int|
            0 <= k < len ==> #[trigger] arena.items_at(id, len)[k] == arena.tree_at(
                arena.children@[arena.nodes@[id].children_start + k] as int,
            ),
    decreases len,
{
    if len > 0 {
        lemma_items_are_children(arena, id, (len - 1) as nat);
    }
}

} // verus!
