use crate::error::{HeadsonError, IngestFailure};
use crate::ingest::sampling::{push_sampled_array, sample_index};
use crate::ingest::sampling::{sample_position, sampled_indices, sampled_tree, Sampling};
use crate::ingest::yaml::{at_most, same_meta, trees_of, YamlArenaBuilder};
use crate::order::NodeKind;
use crate::utils::text::{decode_text, text_of_bytes};
use crate::utils::tree_arena::{in_a_row, lemma_row_begins, lemma_row_grows};
use crate::utils::tree_arena::{leaf, lemma_extends_keeps_tree, lemma_extends_trans, Tree};
use vstd::prelude::*;
use vstd::string::StrSliceExecFns;

verus! {

/// A line without the carriage return that ends it, if one does.
pub open spec fn without_cr(line: Seq<char>) -> Seq<char> {
    if line.len() > 0 && line.last() == '\r' {
        line.drop_last()
    } else {
        line
    }
}

/// The lines that the first `n` characters of a text complete, and the line
/// that they leave open. A line feed completes a line.
pub open spec fn lines_upto(text: Seq<char>, n: int) -> (Seq<Seq<char>>, Seq<char>)
    decreases n,
{
    if n <= 0 {
        (Seq::empty(), Seq::empty())
    } else {
        let (done, open) = lines_upto(text, n - 1);
        let c = text[n - 1];
        if c == '\n' {
            (done.push(without_cr(open)), Seq::empty())
        } else {
            (done, open.push(c))
        }
    }
}

/// The lines of a text. A line ends at a line feed or at the end of the
/// text; a carriage return before the line feed is not part of the line, and
/// nothing follows the last line feed.
pub open spec fn text_lines(text: Seq<char>) -> Seq<Seq<char>> {
    let (done, open) = lines_upto(text, text.len() as int);
    if open.len() > 0 {
        done.push(open)
    } else {
        done
    }
}

/// The texts of a sequence of strings.
pub open spec fn line_texts(lines: Seq<String>) -> Seq<Seq<char>> {
    Seq::new(lines.len(), |i: int| lines[i]@)
}

/// Split a text into its lines.
pub fn split_lines(text: &str) -> (lines: Vec<String>)
    ensures
        line_texts(lines@) == text_lines(text@),
{
    let mut lines: Vec<String> = Vec::new();
    let mut open = String::new();
    let mut pending_cr = false;
    assert(line_texts(lines@) =~= lines_upto(text@, 0).0);
    for c in it: text.chars()
        invariant
            it.seq() == text@,
            line_texts(lines@) == lines_upto(text@, it.index() as int).0,
            lines_upto(text@, it.index() as int).1 == if pending_cr {
                open@.push('\r')
            } else {
                open@
            },
            !pending_cr ==> open@.len() == 0 || open@.last() != '\r',
    {
        let ghost before = line_texts(lines@);
        if c == '\n' {
            assert(without_cr(lines_upto(text@, it.index() as int).1) =~= open@) by {
                if pending_cr {
                    assert(open@.push('\r').drop_last() =~= open@);
                }
            }
            lines.push(open);
            assert(line_texts(lines@) =~= before.push(open@));
            open = String::new();
            pending_cr = false;
        } else {
            if pending_cr {
                open.push('\r');
            }
            if c == '\r' {
                pending_cr = true;
            } else {
                open.push(c);
                pending_cr = false;
            }
        }
    }
    if pending_cr {
        open.push('\r');
    }
    if open.as_str().unicode_len() > 0 {
        let ghost before = line_texts(lines@);
        lines.push(open);
        assert(line_texts(lines@) =~= before.push(open@));
    }
    lines
}

/// The leaf of a line: a token that is never split where lines are atomic,
/// else a string.
pub open spec fn line_leaf(line: Seq<char>, atomic_lines: bool) -> Tree {
    if atomic_lines {
        leaf(NodeKind::String, Some(line), None)
    } else {
        leaf(NodeKind::String, None, Some(line))
    }
}

/// The tree of a text: an array of its lines that keeps at most `cap` of
/// them, sampled by `plan`.
pub open spec fn text_tree(text: Seq<char>, cap: usize, plan: Sampling, atomic_lines: bool) -> Tree {
    let lines = text_lines(text);
    let total = lines.len() as int;
    let kept = at_most(lines.len(), cap);
    sampled_tree(
        Seq::new(
            kept,
            |j: int| line_leaf(lines[sample_index(plan, j, total, kept as int)], atomic_lines),
        ),
        sampled_indices(plan, total, kept as int),
        lines.len() as usize,
    )
}

/// The tree of a text input, where its bytes are text.
pub open spec fn text_input_tree(bytes: Seq<u8>, cap: usize, plan: Sampling, atomic_lines: bool) -> Option<
    Tree,
> {
    match text_of_bytes(bytes) {
        Some(text) => Some(text_tree(text, cap, plan, atomic_lines)),
        None => None,
    }
}

/// Read one text input into the builder, a node for each line that is kept.
pub fn build_text_input(
    b: &mut YamlArenaBuilder,
    bytes: Vec<u8>,
    plan: Sampling,
    atomic_lines: bool,
) -> (r: Result<usize, HeadsonError>)
    requires
        old(b).arena.wf(),
    ensures
        final(b).arena.wf(),
        final(b).arena.extends(&old(b).arena),
        same_meta(&final(b).arena, &old(b).arena),
        final(b).array_cap == old(b).array_cap,
        match r {
            Ok(id) => old(b).arena.nodes@.len() <= id && id + 1 == final(b).arena.nodes@.len()
                && final(b).arena.laid_out(id as int, old(b).arena.nodes@.len() as int)
                && text_input_tree(bytes@, old(b).array_cap, plan, atomic_lines) == Some(
                final(b).arena.tree_at(id as int),
            ),
            Err(e) => text_input_tree(bytes@, old(b).array_cap, plan, atomic_lines) is None && e
                == HeadsonError::IngestFailed(IngestFailure::InvalidUtf8),
        },
{
    let ghost pre = b.arena;
    let ghost cap = b.array_cap;
    let text = match decode_text(bytes) {
        Some(s) => s,
        None => {
            return Err(HeadsonError::IngestFailed(IngestFailure::InvalidUtf8));
        },
    };
    let lines = split_lines(text.as_str());
    let ghost all = text_lines(text@);
    assert(lines@.len() == all.len());
    let total = lines.len();
    let kept = if total < b.array_cap {
        total
    } else {
        b.array_cap
    };
    let store = kept < total && match plan {
        Sampling::Head => false,
        _ => true,
    };
    let mut child_ids: Vec<usize> = Vec::with_capacity(kept);
    let mut indices: Vec<usize> = Vec::new();
    let mut j: usize = 0;
    proof {
        lemma_row_begins(&b.arena);
    }
    while j < kept
        invariant
            b.arena.wf(),
            in_a_row(&b.arena, child_ids@, pre.nodes@.len() as int),
            b.arena.extends(&pre),
            same_meta(&b.arena, &pre),
            b.array_cap == cap,
            all == line_texts(lines@),
            total == lines@.len(),
            j <= kept <= total,
            child_ids@.len() == j,
            indices@.len() == if store {
                j
            } else {
                0
            },
            forall|k: int|
                0 <= k < j && store ==> #[trigger] indices@[k] == sample_index(
                    plan,
                    k,
                    total as int,
                    kept as int,
                ),
            forall|k: int|
                0 <= k < j ==> #[trigger] child_ids@[k] < b.arena.nodes@.len() && b.arena.tree_at(
                    child_ids@[k] as int,
                ) == line_leaf(all[sample_index(plan, k, total as int, kept as int)], atomic_lines),
        decreases kept - j,
    {
        let ghost mid = b.arena;
        let i = sample_position(plan, j, total, kept);
        let line = lines[i].clone();
        assert(line@ == all[i as int]);
        let cid = if atomic_lines {
            b.push_scalar(NodeKind::String, Some(line), None)
        } else {
            b.push_scalar(NodeKind::String, None, Some(line))
        };
        proof {
            lemma_row_grows(&b.arena, &mid, child_ids@, cid, pre.nodes@.len() as int);
            lemma_extends_trans(&b.arena, &mid, &pre);
            assert forall|k: int| 0 <= k < j implies b.arena.tree_at(
                #[trigger] child_ids@[k] as int,
            ) == line_leaf(all[sample_index(plan, k, total as int, kept as int)], atomic_lines) by {
                lemma_extends_keeps_tree(&b.arena, &mid, child_ids@[k] as int);
            }
        }
        child_ids.push(cid);
        if store {
            indices.push(i);
        }
        j += 1;
    }
    let ghost before = b.arena;
    let ghost ids = child_ids@;
    let ghost idx = indices@;
    let id = push_sampled_array(b, child_ids, indices, total);
    proof {
        lemma_extends_trans(&b.arena, &before, &pre);
        assert(trees_of(&before, ids, ids.len()) =~= text_tree(text@, cap, plan, atomic_lines).items);
        assert(idx =~= sampled_indices(plan, total as int, kept as int));
    }
    Ok(id)
}

} // verus!
