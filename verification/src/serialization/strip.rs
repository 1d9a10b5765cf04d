use crate::serialization::color::{colored, sgr_off, sgr_on, ColorRole};
use crate::serialization::highlight::{highlighted, joined_from, match_pieces, painted};
use crate::order::{NodeKind, ObjectType, PriorityOrder, RankedNode};
use crate::serialization::elements::Elem;
use crate::serialization::render::{closing, elem_body, is_block, item_head, key_text};
use crate::serialization::render::only_a_gap;
use crate::serialization::render::{line_prefix, opening, render_items, render_node, separator};
use crate::serialization::render::{line_break, shown_elems};
use crate::serialization::scalar::{clipped, role_of, scalar_text, split_text, yaml_plain};
use crate::serialization::scalar::yaml_text;
use crate::serialization::shape::{document_shape, file_shape, gap_marker, Shape};
use crate::serialization::text::{json_escaped, repeated};
use crate::serialization::types::RenderConfig;
use crate::serialization::{file_elems, render_document, render_sections, with_shown_files};
use crate::serialization::{render_tree_entries, shows_tree, tree_branch, tree_entry};
use crate::serialization::tree_gutter;
use crate::serialization::elements::visible_elems;
use crate::serialization::{section_body, section_gap, section_header};
use vstd::prelude::*;

verus! {

/// The escape character, which begins every color sequence.
pub const ESC: char = '\x1b';

/// A text without its color sequences: each run from an escape character
/// and `[` through the next `m` is left out. With `inside`, the text begins
/// within such a run.
pub open spec fn strip_from(s: Seq<char>, inside: bool) -> Seq<char>
    decreases s.len(),
{
    if s.len() == 0 {
        Seq::empty()
    } else if inside {
        strip_from(s.skip(1), s[0] != 'm')
    } else if s[0] == ESC && s.len() >= 2 && s[1] == '[' {
        strip_from(s.skip(2), true)
    } else {
        seq![s[0]] + strip_from(s.skip(1), false)
    }
}

/// A text without its color sequences.
pub open spec fn strip_ansi(s: Seq<char>) -> Seq<char> {
    strip_from(s, false)
}

/// The text holds no escape character.
#[verifier::opaque]
pub open spec fn esc_free(s: Seq<char>) -> bool {
    forall|i: int| 0 <= i < s.len() ==> #[trigger] s[i] != ESC
}

/// The parts of a text without escape characters have none.
pub proof fn lemma_esc_free_parts(a: Seq<char>, b: Seq<char>)
    ensures
        esc_free(a + b) <==> esc_free(a) && esc_free(b),
{
    reveal(esc_free);
    if esc_free(a + b) {
        assert forall|i: int| 0 <= i < a.len() implies #[trigger] a[i] != ESC by {
            assert((a + b)[i] == a[i]);
        }
        assert forall|i: int| 0 <= i < b.len() implies #[trigger] b[i] != ESC by {
            assert((a + b)[a.len() + i] == b[i]);
        }
    }
    if esc_free(a) && esc_free(b) {
        assert forall|i: int| 0 <= i < (a + b).len() implies #[trigger] (a + b)[i] != ESC by {
            if i < a.len() {
                assert((a + b)[i] == a[i]);
            } else {
                assert((a + b)[i] == b[i - a.len()]);
            }
        }
    }
}

/// Stripping passes over a text without escape characters.
pub proof fn lemma_strip_plain(a: Seq<char>, rest: Seq<char>)
    requires
        esc_free(a),
    ensures
        strip_from(a + rest, false) == a + strip_from(rest, false),
    decreases a.len(),
{
    reveal(esc_free);
    reveal_with_fuel(strip_from, 2);
    if a.len() == 0 {
        assert(a + rest =~= rest);
        assert(a + strip_from(rest, false) =~= strip_from(rest, false));
    } else {
        let s = a + rest;
        assert(s[0] == a[0]);
        assert(s.skip(1) =~= a.skip(1) + rest);
        assert forall|i: int| 0 <= i < a.skip(1).len() implies #[trigger] a.skip(1)[i] != ESC by {
            assert(a.skip(1)[i] == a[i + 1]);
        }
        lemma_strip_plain(a.skip(1), rest);
        assert(seq![a[0]] + (a.skip(1) + strip_from(rest, false)) =~= a + strip_from(rest, false));
    }
}

/// Within a color sequence, stripping passes over what holds no `m` and ends
/// the sequence at the `m` that follows.
pub proof fn lemma_strip_inside(body: Seq<char>, rest: Seq<char>)
    requires
        forall|i: int| 0 <= i < body.len() ==> #[trigger] body[i] != 'm',
    ensures
        strip_from(body + seq!['m'] + rest, true) == strip_from(rest, false),
    decreases body.len(),
{
    reveal_with_fuel(strip_from, 2);
    let s = body + seq!['m'] + rest;
    if body.len() == 0 {
        assert(s[0] == 'm');
        assert(s.skip(1) =~= rest);
    } else {
        assert(s[0] == body[0]);
        assert(s.skip(1) =~= body.skip(1) + seq!['m'] + rest);
        assert forall|i: int| 0 <= i < body.skip(1).len() implies #[trigger] body.skip(1)[i]
            != 'm' by {
            assert(body.skip(1)[i] == body[i + 1]);
        }
        lemma_strip_inside(body.skip(1), rest);
    }
}

/// A color sequence: an escape character, `[`, something without `m`, and
/// `m`; or nothing at all.
pub open spec fn is_code(code: Seq<char>) -> bool {
    code.len() == 0 || (code.len() >= 3 && code[0] == ESC && code[1] == '[' && code.last() == 'm'
        && forall|i: int| 2 <= i < code.len() - 1 ==> #[trigger] code[i] != 'm')
}

/// Stripping leaves a color sequence out.
pub proof fn lemma_strip_code(code: Seq<char>, rest: Seq<char>)
    requires
        is_code(code),
    ensures
        strip_from(code + rest, false) == strip_from(rest, false),
{
    reveal_with_fuel(strip_from, 2);
    if code.len() == 0 {
        assert(code + rest =~= rest);
    } else {
        let s = code + rest;
        let body = code.subrange(2, code.len() - 1);
        assert(s[0] == ESC && s[1] == '[');
        assert(s.skip(2) =~= body + seq!['m'] + rest);
        lemma_strip_inside(body, rest);
    }
}

/// The sequences that switch the color of a role on and off are color
/// sequences.
pub proof fn lemma_codes_of_roles(role: ColorRole)
    ensures
        is_code(sgr_on(role)),
        is_code(sgr_off(role)),
{
    reveal_strlit("\x1b[1;34m");
    reveal_strlit("\x1b[32m");
    reveal_strlit("\x1b[36m");
    reveal_strlit("\x1b[33m");
    reveal_strlit("\x1b[90m");
    reveal_strlit("\x1b[31m");
    reveal_strlit("\x1b[39m");
    reveal_strlit("\x1b[0m");
    reveal_strlit("");
}

/// Stripping a colored text gives the text.
pub proof fn lemma_strip_colored(role: ColorRole, text: Seq<char>, enabled: bool, rest: Seq<char>)
    requires
        esc_free(text),
    ensures
        strip_from(colored(role, text, enabled) + rest, false) == text + strip_from(rest, false),
{
    if enabled {
        lemma_codes_of_roles(role);
        let on = sgr_on(role);
        let off = sgr_off(role);
        assert(colored(role, text, enabled) + rest =~= on + (text + (off + rest)));
        lemma_strip_code(on, text + (off + rest));
        lemma_strip_plain(text, off + rest);
        lemma_strip_code(off, rest);
    } else {
        lemma_strip_plain(text, rest);
    }
}

/// The pieces from the `k`-th on hold no escape character where their
/// concatenation holds none, and stripping their marked concatenation gives
/// the plain one.
pub proof fn lemma_strip_joined(pieces: Seq<Seq<char>>, k: int, rest: Seq<char>)
    requires
        0 <= k,
        esc_free(joined_from(pieces, k, false)),
    ensures
        strip_from(joined_from(pieces, k, true) + rest, false) == joined_from(pieces, k, false)
            + strip_from(rest, false),
    decreases pieces.len() - k,
{
    if k >= pieces.len() {
        assert(joined_from(pieces, k, true) + rest =~= rest);
        assert(joined_from(pieces, k, false) + strip_from(rest, false) =~= strip_from(rest, false));
    } else {
        let piece = pieces[k];
        let tail_plain = joined_from(pieces, k + 1, false);
        let tail_marked = joined_from(pieces, k + 1, true);
        assert(joined_from(pieces, k, false) =~= piece + tail_plain);
        lemma_esc_free_parts(piece, tail_plain);
        lemma_strip_joined(pieces, k + 1, rest);
        let marked = colored(ColorRole::Match, piece, k % 2 == 1);
        assert(joined_from(pieces, k, true) + rest =~= marked + (tail_marked + rest));
        lemma_strip_colored(ColorRole::Match, piece, k % 2 == 1, tail_marked + rest);
        assert(piece + (tail_plain + strip_from(rest, false)) =~= joined_from(pieces, k, false)
            + strip_from(rest, false));
    }
}

/// Stripping a text with its matches highlighted gives the text.
pub proof fn lemma_strip_highlighted(re: regex::Regex, text: Seq<char>, rest: Seq<char>)
    requires
        esc_free(text),
    ensures
        strip_from(highlighted(re, text) + rest, false) == text + strip_from(rest, false),
{
    let pieces = match_pieces(re, text);
    if joined_from(pieces, 0, false) == text {
        lemma_strip_joined(pieces, 0, rest);
    } else {
        lemma_strip_plain(text, rest);
    }
}

/// The configuration without color.
pub open spec fn uncolored(cfg: RenderConfig) -> RenderConfig {
    RenderConfig { color_enabled: false, ..cfg }
}

/// Stripping a painted piece of output gives the piece as it stands without
/// color.
pub proof fn lemma_strip_painted(
    cfg: &RenderConfig,
    role: ColorRole,
    pre: Seq<char>,
    inner: Seq<char>,
    post: Seq<char>,
    rest: Seq<char>,
)
    requires
        esc_free(pre + inner + post),
    ensures
        painted(&uncolored(*cfg), role, pre, inner, post) == pre + inner + post,
        strip_from(painted(cfg, role, pre, inner, post) + rest, false) == pre + inner + post
            + strip_from(rest, false),
{
    let plain = pre + inner + post;
    lemma_esc_free_parts(pre + inner, post);
    lemma_esc_free_parts(pre, inner);
    if !cfg.color_enabled {
        lemma_strip_plain(plain, rest);
    } else {
        match cfg.grep_highlight {
            Some(re) => {
                let lit = highlighted(re, inner);
                assert(painted(cfg, role, pre, inner, post) + rest =~= pre + (lit + (post + rest)));
                lemma_strip_plain(pre, lit + (post + rest));
                lemma_strip_highlighted(re, inner, post + rest);
                lemma_strip_plain(post, rest);
                assert(pre + (inner + (post + strip_from(rest, false))) =~= plain + strip_from(
                    rest,
                    false,
                ));
            },
            None => {
                lemma_strip_colored(role, plain, true, rest);
            },
        }
    }
}

/// Stripping a scalar gives the scalar as it stands without color.
pub proof fn lemma_strip_scalar(
    cfg: &RenderConfig,
    shape: Shape,
    kind: NodeKind,
    text: Seq<char>,
    rest: Seq<char>,
)
    requires
        esc_free(scalar_text(&uncolored(*cfg), shape, kind, text)),
    ensures
        strip_from(scalar_text(cfg, shape, kind, text) + rest, false) == scalar_text(
            &uncolored(*cfg),
            shape,
            kind,
            text,
        ) + strip_from(rest, false),
{
    let quote = "\""@;
    let none = Seq::<char>::empty();
    let plain = uncolored(*cfg);
    match shape {
        Shape::Json | Shape::Pseudo | Shape::Js => {
            if kind == NodeKind::String {
                assert(painted(&plain, ColorRole::String, quote, json_escaped(text), quote) == quote
                    + json_escaped(text) + quote);
                lemma_strip_painted(cfg, ColorRole::String, quote, json_escaped(text), quote, rest);
            } else {
                assert(painted(&plain, role_of(kind), none, text, none) == none + text + none);
                lemma_strip_painted(cfg, role_of(kind), none, text, none, rest);
            }
        },
        Shape::Yaml => {
            lemma_strip_yaml_text(cfg, role_of(kind), kind == NodeKind::String, text, rest);
        },
        Shape::Text => {
            assert(painted(&plain, ColorRole::Punct, none, text, none) == none + text + none);
            lemma_strip_painted(cfg, ColorRole::Punct, none, text, none, rest);
        },
        Shape::Code => {
            assert(painted(&plain, ColorRole::Punct, none, clipped(text), none) == none + clipped(
                text,
            ) + none);
            lemma_strip_painted(cfg, ColorRole::Punct, none, clipped(text), none, rest);
        },
    }
}

/// Stripping a YAML key or scalar gives it as it stands without color.
pub proof fn lemma_strip_yaml_text(
    cfg: &RenderConfig,
    role: ColorRole,
    is_string: bool,
    text: Seq<char>,
    rest: Seq<char>,
)
    requires
        esc_free(yaml_text(&uncolored(*cfg), role, is_string, text)),
    ensures
        strip_from(yaml_text(cfg, role, is_string, text) + rest, false) == yaml_text(
            &uncolored(*cfg),
            role,
            is_string,
            text,
        ) + strip_from(rest, false),
{
    let quote = "\""@;
    let none = Seq::<char>::empty();
    let plain = uncolored(*cfg);
    if is_string && !yaml_plain(text) {
        assert(painted(&plain, role, quote, json_escaped(text), quote) == quote + json_escaped(text)
            + quote);
        lemma_strip_painted(cfg, role, quote, json_escaped(text), quote, rest);
    } else {
        assert(painted(&plain, role, none, text, none) == none + text + none);
        lemma_strip_painted(cfg, role, none, text, none, rest);
    }
}

/// What a container shows does not depend on color.
pub proof fn lemma_shown_same(
    order: &PriorityOrder,
    incl: Seq<bool>,
    shape: Shape,
    cfg: &RenderConfig,
    id: int,
)
    ensures
        shown_elems(order, incl, shape, cfg, id) == shown_elems(
            order,
            incl,
            shape,
            &uncolored(*cfg),
            id,
        ),
        is_block(order, incl, shape, cfg, id) == is_block(order, incl, shape, &uncolored(*cfg), id),
{
}

/// Stripping a key of a JSON-like template behind its prefix.
pub proof fn lemma_strip_json_key(
    cfg: &RenderConfig,
    prefix: Seq<char>,
    key: Seq<char>,
    rest: Seq<char>,
)
    requires
        esc_free(
            prefix + (painted(&uncolored(*cfg), ColorRole::Key, "\""@, json_escaped(key), "\""@)
                + ":"@ + cfg.space@),
        ),
    ensures
        strip_from(
            prefix + (painted(cfg, ColorRole::Key, "\""@, json_escaped(key), "\""@) + ":"@
                + cfg.space@) + rest,
            false,
        ) == prefix + (painted(&uncolored(*cfg), ColorRole::Key, "\""@, json_escaped(key), "\""@)
            + ":"@ + cfg.space@) + strip_from(rest, false),
{
    let plain = uncolored(*cfg);
    let quote = "\""@;
    let k_col = painted(cfg, ColorRole::Key, quote, json_escaped(key), quote);
    let k_plain = quote + json_escaped(key) + quote;
    let tail = ":"@ + cfg.space@;
    assert(painted(&plain, ColorRole::Key, quote, json_escaped(key), quote) == k_plain);
    let head_plain = prefix + (k_plain + ":"@ + cfg.space@);
    assert(head_plain =~= prefix + (k_plain + tail));
    lemma_esc_free_parts(prefix, k_plain + tail);
    lemma_esc_free_parts(k_plain, tail);
    assert(prefix + (k_col + ":"@ + cfg.space@) + rest =~= prefix + (k_col + (tail + rest)));
    lemma_strip_plain(prefix, k_col + (tail + rest));
    lemma_strip_painted(cfg, ColorRole::Key, quote, json_escaped(key), quote, tail + rest);
    lemma_strip_plain(tail, rest);
    assert(prefix + (k_plain + (tail + strip_from(rest, false))) =~= head_plain + strip_from(
        rest,
        false,
    ));
}

/// Stripping a key of the YAML template behind its prefix and before what
/// joins it to its value.
pub proof fn lemma_strip_yaml_key(
    cfg: &RenderConfig,
    prefix: Seq<char>,
    key: Seq<char>,
    join: Seq<char>,
    rest: Seq<char>,
)
    requires
        esc_free(prefix + (yaml_text(&uncolored(*cfg), ColorRole::Key, true, key) + ":"@) + join),
    ensures
        strip_from(
            prefix + (yaml_text(cfg, ColorRole::Key, true, key) + ":"@) + join + rest,
            false,
        ) == prefix + (yaml_text(&uncolored(*cfg), ColorRole::Key, true, key) + ":"@) + join
            + strip_from(rest, false),
{
    let plain = uncolored(*cfg);
    let k_col = yaml_text(cfg, ColorRole::Key, true, key);
    let k_plain = yaml_text(&plain, ColorRole::Key, true, key);
    let tail = ":"@ + join;
    let head_plain = prefix + (k_plain + ":"@) + join;
    assert(head_plain =~= prefix + (k_plain + tail));
    lemma_esc_free_parts(prefix, k_plain + tail);
    lemma_esc_free_parts(k_plain, tail);
    assert(prefix + (k_col + ":"@) + join + rest =~= prefix + (k_col + (tail + rest)));
    lemma_strip_plain(prefix, k_col + (tail + rest));
    lemma_strip_yaml_text(cfg, ColorRole::Key, true, key, tail + rest);
    lemma_strip_plain(tail, rest);
    assert(prefix + (k_plain + (tail + strip_from(rest, false))) =~= head_plain + strip_from(
        rest,
        false,
    ));
}

/// Stripping the head of an item gives the head as it stands without color.
pub proof fn lemma_strip_item_head(
    order: &PriorityOrder,
    incl: Seq<bool>,
    cfg: &RenderConfig,
    margin: Seq<char>,
    shape: Shape,
    parent: int,
    depth: nat,
    child: int,
    orig: usize,
    rest: Seq<char>)
    requires
        esc_free(item_head(order, incl, &uncolored(*cfg), margin, shape, parent, depth, child, orig)),
    ensures
        strip_from(item_head(order, incl, cfg, margin, shape, parent, depth, child, orig) + rest, false)
            == item_head(order, incl, &uncolored(*cfg), margin, shape, parent, depth, child, orig)
            + strip_from(rest, false),
{
    let plain = uncolored(*cfg);
    let keyed = order.nodes@[parent] is Object;
    let key = key_text(order, child);
    let prefix = line_prefix(cfg, shape, depth);
    let head = item_head(order, incl, cfg, margin, shape, parent, depth, child, orig);
    let head_plain = item_head(order, incl, &plain, margin, shape, parent, depth, child, orig);
    assert(prefix == line_prefix(&plain, shape, depth));
    lemma_shown_same(order, incl, shape, cfg, child);
    if shape.is_bracketed() && keyed {
        lemma_strip_json_key(cfg, prefix, key, rest);
    } else if shape == Shape::Yaml && keyed {
        let join = if is_block(order, incl, shape, cfg, child) {
            line_break(cfg, margin)
        } else {
            " "@
        };
        lemma_strip_yaml_key(cfg, prefix, key, join, rest);
    } else {
        assert(head == head_plain);
        lemma_strip_plain(head, rest);
    }
}

/// Of three pieces without escape characters, each has none.
pub proof fn lemma_esc_free_three(a: Seq<char>, b: Seq<char>, c: Seq<char>)
    requires
        esc_free(a + b + c),
    ensures
        esc_free(a),
        esc_free(b),
        esc_free(c),
{
    lemma_esc_free_parts(a + b, c);
    lemma_esc_free_parts(a, b);
}

/// Stripping two pieces one after the other.
pub proof fn lemma_strip_two(
    a_col: Seq<char>,
    a_bare: Seq<char>,
    b_col: Seq<char>,
    b_bare: Seq<char>,
    rest: Seq<char>,
)
    requires
        strip_from(a_col + (b_col + rest), false) == a_bare + strip_from(b_col + rest, false),
        strip_from(b_col + rest, false) == b_bare + strip_from(rest, false),
    ensures
        strip_from(a_col + b_col + rest, false) == a_bare + b_bare + strip_from(rest, false),
{
    assert(a_col + b_col + rest =~= a_col + (b_col + rest));
    assert(a_bare + (b_bare + strip_from(rest, false)) =~= a_bare + b_bare + strip_from(rest, false));
}

/// Stripping a plain piece and two pieces behind it.
pub proof fn lemma_strip_three(
    a: Seq<char>,
    b_col: Seq<char>,
    b_bare: Seq<char>,
    c_col: Seq<char>,
    c_bare: Seq<char>,
    rest: Seq<char>,
)
    requires
        esc_free(a),
        strip_from(b_col + (c_col + rest), false) == b_bare + strip_from(c_col + rest, false),
        strip_from(c_col + rest, false) == c_bare + strip_from(rest, false),
    ensures
        strip_from(a + b_col + c_col + rest, false) == a + b_bare + c_bare + strip_from(rest, false),
{
    assert(a + b_col + c_col + rest =~= a + (b_col + (c_col + rest)));
    lemma_strip_plain(a, b_col + (c_col + rest));
    assert(a + (b_bare + (c_bare + strip_from(rest, false))) =~= a + b_bare + c_bare + strip_from(
        rest,
        false,
    ));
}

/// Stripping a piece between brackets on lines of their own.
pub proof fn lemma_strip_bracketed(
    open: Seq<char>,
    newline: Seq<char>,
    mid_col: Seq<char>,
    mid_bare: Seq<char>,
    indent: Seq<char>,
    close: Seq<char>,
    rest: Seq<char>,
)
    requires
        esc_free(open + newline + mid_bare + newline + indent + close),
        strip_from(mid_col + (newline + indent + close + rest), false) == mid_bare + strip_from(
            newline + indent + close + rest,
            false,
        ),
    ensures
        strip_from(open + newline + mid_col + newline + indent + close + rest, false) == open
            + newline + mid_bare + newline + indent + close + strip_from(rest, false),
{
    let front = open + newline;
    let back = newline + indent + close;
    assert(open + newline + mid_bare + newline + indent + close =~= front + mid_bare + back);
    lemma_esc_free_three(front, mid_bare, back);
    assert(open + newline + mid_col + newline + indent + close + rest =~= front + (mid_col + (back
        + rest)));
    lemma_strip_plain(front, mid_col + (back + rest));
    lemma_strip_plain(back, rest);
    assert(front + (mid_bare + (back + strip_from(rest, false))) =~= open + newline + mid_bare
        + newline + indent + close + strip_from(rest, false));
}

/// The piece between the brackets of a container holds no escape character
/// where the container holds none.
pub proof fn lemma_esc_free_bracketed(
    open: Seq<char>,
    newline: Seq<char>,
    mid: Seq<char>,
    indent: Seq<char>,
    close: Seq<char>,
)
    requires
        esc_free(open + newline + mid + newline + indent + close),
    ensures
        esc_free(mid),
{
    let front = open + newline;
    let back = newline + indent + close;
    assert(open + newline + mid + newline + indent + close =~= front + mid + back);
    lemma_esc_free_three(front, mid, back);
}

/// A container as it is rendered: between its brackets in the JSON-like
/// templates, as its elements alone in the others, as its brackets or
/// nothing where it shows no element, and on one line where all that it
/// shows is a mark of omission.
pub proof fn lemma_container_unfolds(
    order: &PriorityOrder,
    incl: Seq<bool>,
    cfg: &RenderConfig,
    margin: Seq<char>,
    shape: Shape,
    id: int,
    depth: nat)
    requires
        0 <= id < order.total_nodes,
        order.nodes@[id] is Array || order.nodes@[id] is Object,
    ensures
        ({
            let node = order.nodes@[id];
            let elems = shown_elems(order, incl, shape, cfg, id);
            let items = render_items(order, incl, cfg, margin, shape, id, depth, elems, 0);
            render_node(order, incl, cfg, margin, shape, id, depth) == if elems.len() == 0 {
                if shape.is_bracketed() || shape == Shape::Yaml {
                    opening(node) + closing(node)
                } else {
                    Seq::empty()
                }
            } else if shape.is_bracketed() && only_a_gap(elems) {
                opening(node) + cfg.space@ + gap_marker(shape, cfg.style, elems[0]->Gap_count)
                    + cfg.space@ + closing(node)
            } else if shape.is_bracketed() {
                opening(node) + line_break(cfg, margin) + items + line_break(cfg, margin)
                    + repeated(cfg.indent_unit@, depth) + closing(node)
            } else {
                items
            }
        }),
{
}

/// A leaf as it is rendered.
pub proof fn lemma_leaf_unfolds(
    order: &PriorityOrder,
    incl: Seq<bool>,
    cfg: &RenderConfig,
    margin: Seq<char>,
    shape: Shape,
    id: int,
    depth: nat)
    requires
        0 <= id < order.total_nodes,
        !(order.nodes@[id] is Array || order.nodes@[id] is Object),
    ensures
        render_node(order, incl, cfg, margin, shape, id, depth) == match order.nodes@[id] {
            RankedNode::AtomicLeaf { kind, token, .. } => scalar_text(cfg, shape, kind, token@),
            RankedNode::SplittableLeaf { value, .. } => scalar_text(
                cfg,
                shape,
                NodeKind::String,
                split_text(order, incl, cfg.string_free_prefix_graphemes, id, value@),
            ),
            RankedNode::LeafPart { text, .. } => text@,
            _ => Seq::empty(),
        },
{
}

/// Stripping a rendered node gives the node as it is rendered without
/// color, where that holds no escape character.
pub proof fn lemma_strip_node(
    order: &PriorityOrder,
    incl: Seq<bool>,
    cfg: &RenderConfig,
    margin: Seq<char>,
    shape: Shape,
    id: int,
    depth: nat,
    rest: Seq<char>)
    requires
        esc_free(render_node(order, incl, &uncolored(*cfg), margin, shape, id, depth)),
    ensures
        strip_from(render_node(order, incl, cfg, margin, shape, id, depth) + rest, false) == render_node(
            order,
            incl,
            &uncolored(*cfg),
            margin,
            shape,
            id,
            depth) + strip_from(rest, false),
    decreases order.total_nodes - id, 2nat, 0nat,
{
    let plain = uncolored(*cfg);
    if !(0 <= id < order.total_nodes) {
        lemma_strip_plain(Seq::empty(), rest);
    } else if order.nodes@[id] is Array || order.nodes@[id] is Object {
        let node = order.nodes@[id];
        lemma_shown_same(order, incl, shape, cfg, id);
        lemma_container_unfolds(order, incl, cfg, margin, shape, id, depth);
        lemma_container_unfolds(order, incl, &plain, margin, shape, id, depth);
        let elems = shown_elems(order, incl, shape, cfg, id);
        let items_col = render_items(order, incl, cfg, margin, shape, id, depth, elems, 0);
        let items_bare = render_items(order, incl, &plain, margin, shape, id, depth, elems, 0);
        if elems.len() == 0 || (shape.is_bracketed() && only_a_gap(elems)) {
            lemma_strip_plain(render_node(order, incl, &plain, margin, shape, id, depth), rest);
        } else if shape.is_bracketed() {
            let open = opening(node);
            let close = closing(node);
            let indent = repeated(cfg.indent_unit@, depth);
            let newline = line_break(cfg, margin);
            assert(newline == line_break(&plain, margin));
            lemma_esc_free_bracketed(open, newline, items_bare, indent, close);
            lemma_strip_items(
                order,
                incl,
                cfg,
                margin,
                shape,
                id,
                depth,
                elems,
                0,
                newline + indent + close + rest,
            );
            lemma_strip_bracketed(open, newline, items_col, items_bare, indent, close, rest);
        } else {
            lemma_strip_items(order, incl, cfg, margin, shape, id, depth, elems, 0, rest);
        }
    } else {
        lemma_leaf_unfolds(order, incl, cfg, margin, shape, id, depth);
        lemma_leaf_unfolds(order, incl, &plain, margin, shape, id, depth);
        match order.nodes@[id] {
            RankedNode::AtomicLeaf { kind, token, .. } => {
                lemma_strip_scalar(cfg, shape, kind, token@, rest);
            },
            RankedNode::SplittableLeaf { value, .. } => {
                lemma_strip_scalar(
                    cfg,
                    shape,
                    NodeKind::String,
                    split_text(order, incl, cfg.string_free_prefix_graphemes, id, value@),
                    rest,
                );
            },
            RankedNode::LeafPart { text, .. } => {
                lemma_strip_plain(text@, rest);
            },
            _ => {},
        }
    }
}

/// The elements from the `k`-th on: a separator, an element, and what
/// follows.
pub proof fn lemma_items_unfold(
    order: &PriorityOrder,
    incl: Seq<bool>,
    cfg: &RenderConfig,
    margin: Seq<char>,
    shape: Shape,
    id: int,
    depth: nat,
    elems: Seq<Elem>,
    k: int)
    requires
        0 <= k < elems.len(),
    ensures
        render_items(order, incl, cfg, margin, shape, id, depth, elems, k) == separator(cfg, margin, shape, k)
            + elem_body(order, incl, cfg, margin, shape, id, depth, elems[k]) + render_items(
            order,
            incl,
            cfg,
            margin,
            shape,
            id,
            depth,
            elems,
            k + 1),
{
}

/// Stripping the rendered elements of a container gives them as they are
/// rendered without color.
pub proof fn lemma_strip_items(
    order: &PriorityOrder,
    incl: Seq<bool>,
    cfg: &RenderConfig,
    margin: Seq<char>,
    shape: Shape,
    id: int,
    depth: nat,
    elems: Seq<Elem>,
    k: int,
    rest: Seq<char>)
    requires
        esc_free(render_items(order, incl, &uncolored(*cfg), margin, shape, id, depth, elems, k)),
    ensures
        strip_from(render_items(order, incl, cfg, margin, shape, id, depth, elems, k) + rest, false)
            == render_items(order, incl, &uncolored(*cfg), margin, shape, id, depth, elems, k) + strip_from(
            rest,
            false,
        ),
    decreases order.total_nodes - id, 1nat, elems.len() - k,
{
    let plain = uncolored(*cfg);
    if k < 0 || k >= elems.len() {
        lemma_strip_plain(Seq::empty(), rest);
    } else {
        let sep = separator(cfg, margin, shape, k);
        let body_col = elem_body(order, incl, cfg, margin, shape, id, depth, elems[k]);
        let body_bare = elem_body(order, incl, &plain, margin, shape, id, depth, elems[k]);
        let tail_col = render_items(order, incl, cfg, margin, shape, id, depth, elems, k + 1);
        let tail_bare = render_items(order, incl, &plain, margin, shape, id, depth, elems, k + 1);
        lemma_items_unfold(order, incl, cfg, margin, shape, id, depth, elems, k);
        lemma_items_unfold(order, incl, &plain, margin, shape, id, depth, elems, k);
        assert(sep == separator(&plain, margin, shape, k));
        lemma_esc_free_three(sep, body_bare, tail_bare);
        lemma_strip_elem(order, incl, cfg, margin, shape, id, depth, elems[k], tail_col + rest);
        lemma_strip_items(order, incl, cfg, margin, shape, id, depth, elems, k + 1, rest);
        lemma_strip_three(sep, body_col, body_bare, tail_col, tail_bare, rest);
    }
}

/// An item as it is rendered: its head and its node.
pub proof fn lemma_item_unfolds(
    order: &PriorityOrder,
    incl: Seq<bool>,
    cfg: &RenderConfig,
    margin: Seq<char>,
    shape: Shape,
    id: int,
    depth: nat,
    child: usize,
    orig: usize)
    requires
        0 <= id < child < order.total_nodes,
    ensures
        elem_body(order, incl, cfg, margin, shape, id, depth, Elem::Item { child, orig }) == item_head(
            order,
            incl,
            cfg,
            margin,
            shape,
            id,
            depth,
            child as int,
            orig) + render_node(order, incl, cfg, margin, shape, child as int, depth + 1),
{
}

/// What does not depend on color is the same with it and without it.
pub proof fn lemma_gap_same(
    order: &PriorityOrder,
    incl: Seq<bool>,
    cfg: &RenderConfig,
    margin: Seq<char>,
    shape: Shape,
    id: int,
    depth: nat,
    elem: Elem)
    requires
        elem is Gap || !(elem matches Elem::Item { child, .. } && 0 <= id < child
            < order.total_nodes),
    ensures
        elem_body(order, incl, cfg, margin, shape, id, depth, elem) == elem_body(
            order,
            incl,
            &uncolored(*cfg),
            margin,
            shape,
            id,
            depth,
            elem),
{
}

/// Stripping a rendered element gives it as it is rendered without color.
pub proof fn lemma_strip_elem(
    order: &PriorityOrder,
    incl: Seq<bool>,
    cfg: &RenderConfig,
    margin: Seq<char>,
    shape: Shape,
    id: int,
    depth: nat,
    elem: Elem,
    rest: Seq<char>)
    requires
        esc_free(elem_body(order, incl, &uncolored(*cfg), margin, shape, id, depth, elem)),
    ensures
        strip_from(elem_body(order, incl, cfg, margin, shape, id, depth, elem) + rest, false) == elem_body(
            order,
            incl,
            &uncolored(*cfg),
            margin,
            shape,
            id,
            depth,
            elem) + strip_from(rest, false),
    decreases order.total_nodes - id, 0nat, 0nat,
{
    let plain = uncolored(*cfg);
    match elem {
        Elem::Item { child, orig } => {
            if 0 <= id < child < order.total_nodes {
                lemma_item_unfolds(order, incl, cfg, margin, shape, id, depth, child, orig);
                lemma_item_unfolds(order, incl, &plain, margin, shape, id, depth, child, orig);
                let head_col = item_head(order, incl, cfg, margin, shape, id, depth, child as int, orig);
                let head_bare = item_head(order, incl, &plain, margin, shape, id, depth, child as int, orig);
                let node_col = render_node(order, incl, cfg, margin, shape, child as int, depth + 1);
                let node_bare = render_node(order, incl, &plain, margin, shape, child as int, depth + 1);
                lemma_esc_free_parts(head_bare, node_bare);
                lemma_strip_item_head(
                    order,
                    incl,
                    cfg,
                    margin,
                    shape,
                    id,
                    depth,
                    child as int,
                    orig,
                    node_col + rest);
                lemma_strip_node(order, incl, cfg, margin, shape, child as int, depth + 1, rest);
                lemma_strip_two(head_col, head_bare, node_col, node_bare, rest);
            } else {
                lemma_gap_same(order, incl, cfg, margin, shape, id, depth, elem);
                lemma_strip_plain(elem_body(order, incl, &plain, margin, shape, id, depth, elem), rest);
            }
        },
        Elem::Gap { .. } => {
            lemma_gap_same(order, incl, cfg, margin, shape, id, depth, elem);
            lemma_strip_plain(elem_body(order, incl, &plain, margin, shape, id, depth, elem), rest);
        },
    }
}

/// The sections from the `k`-th on: a gap, a section, and what follows.
pub proof fn lemma_sections_step(
    order: &PriorityOrder,
    incl: Seq<bool>,
    cfg: &RenderConfig,
    elems: Seq<Elem>,
    k: int,
)
    requires
        0 <= k < elems.len(),
    ensures
        render_sections(order, incl, cfg, elems, k) == (if k == 0 {
            Seq::<char>::empty()
        } else {
            section_gap(cfg)
        }) + section_body(order, incl, cfg, elems[k]) + render_sections(
            order,
            incl,
            cfg,
            elems,
            k + 1,
        ),
{
}

/// Stripping the rendered sections of a fileset gives them as they are
/// rendered without color.
pub proof fn lemma_strip_sections(
    order: &PriorityOrder,
    incl: Seq<bool>,
    cfg: &RenderConfig,
    elems: Seq<Elem>,
    k: int,
    rest: Seq<char>,
)
    requires
        esc_free(render_sections(order, incl, &uncolored(*cfg), elems, k)),
    ensures
        strip_from(render_sections(order, incl, cfg, elems, k) + rest, false) == render_sections(
            order,
            incl,
            &uncolored(*cfg),
            elems,
            k,
        ) + strip_from(rest, false),
    decreases elems.len() - k,
{
    let plain = uncolored(*cfg);
    if k < 0 || k >= elems.len() {
        lemma_strip_plain(Seq::empty(), rest);
    } else {
        let gap = if k == 0 {
            Seq::<char>::empty()
        } else {
            section_gap(cfg)
        };
        let body_col = section_body(order, incl, cfg, elems[k]);
        let body_bare = section_body(order, incl, &plain, elems[k]);
        let tail_col = render_sections(order, incl, cfg, elems, k + 1);
        let tail_bare = render_sections(order, incl, &plain, elems, k + 1);
        lemma_sections_step(order, incl, cfg, elems, k);
        lemma_sections_step(order, incl, &plain, elems, k);
        assert(section_gap(cfg) == section_gap(&plain));
        lemma_esc_free_three(gap, body_bare, tail_bare);
        lemma_strip_section(order, incl, cfg, elems[k], tail_col + rest);
        lemma_strip_sections(order, incl, cfg, elems, k + 1, rest);
        lemma_strip_three(gap, body_col, body_bare, tail_col, tail_bare, rest);
    }
}

/// A section of a file as it is rendered: its header and its node.
pub proof fn lemma_section_unfolds(
    order: &PriorityOrder,
    incl: Seq<bool>,
    cfg: &RenderConfig,
    child: usize,
    orig: usize,
)
    requires
        0 < child < order.total_nodes,
    ensures
        section_body(order, incl, cfg, Elem::Item { child, orig }) == section_header(
            order,
            cfg,
            child as int,
        ) + render_node(
            order,
            incl,
            cfg,
            Seq::empty(),
            file_shape(order.file_kind@[child as int], cfg),
            child as int,
            0),
        section_header(order, cfg, child as int) == section_header(
            order,
            &uncolored(*cfg),
            child as int,
        ),
        file_shape(order.file_kind@[child as int], cfg) == file_shape(
            order.file_kind@[child as int],
            &uncolored(*cfg),
        ),
{
}

/// Stripping a rendered section gives it as it is rendered without color.
pub proof fn lemma_strip_section(
    order: &PriorityOrder,
    incl: Seq<bool>,
    cfg: &RenderConfig,
    elem: Elem,
    rest: Seq<char>,
)
    requires
        esc_free(section_body(order, incl, &uncolored(*cfg), elem)),
    ensures
        strip_from(section_body(order, incl, cfg, elem) + rest, false) == section_body(
            order,
            incl,
            &uncolored(*cfg),
            elem,
        ) + strip_from(rest, false),
{
    let plain = uncolored(*cfg);
    match elem {
        Elem::Item { child, orig } => {
            if 0 < child < order.total_nodes {
                lemma_section_unfolds(order, incl, cfg, child, orig);
                lemma_section_unfolds(order, incl, &plain, child, orig);
                let header = section_header(order, cfg, child as int);
                let shape = file_shape(order.file_kind@[child as int], cfg);
                let node_col = render_node(order, incl, cfg, Seq::empty(), shape, child as int, 0);
                let node_bare = render_node(order, incl, &plain, Seq::empty(), shape, child as int, 0);
                lemma_esc_free_parts(header, node_bare);
                lemma_strip_plain(header, node_col + rest);
                lemma_strip_node(order, incl, cfg, Seq::empty(), shape, child as int, 0, rest);
                lemma_strip_two(header, header, node_col, node_bare, rest);
            } else {
                lemma_strip_plain(section_body(order, incl, &plain, elem), rest);
            }
        },
        Elem::Gap { .. } => {
            lemma_strip_plain(section_body(order, incl, &plain, elem), rest);
        },
    }
}

/// An entry of a file as it is rendered in the file tree.
pub proof fn lemma_tree_entry_unfolds(
    order: &PriorityOrder,
    incl: Seq<bool>,
    cfg: &RenderConfig,
    child: usize,
    orig: usize,
    last: bool,
)
    requires
        0 < child < order.total_nodes,
    ensures
        tree_entry(order, incl, cfg, Elem::Item { child, orig }, last) == tree_branch(last)
            + key_text(order, child as int) + line_break(cfg, tree_gutter(last)) + render_node(
            order,
            incl,
            cfg,
            tree_gutter(last),
            file_shape(order.file_kind@[child as int], cfg),
            child as int,
            0,
        ),
        file_shape(order.file_kind@[child as int], cfg) == file_shape(
            order.file_kind@[child as int],
            &uncolored(*cfg),
        ),
        line_break(cfg, tree_gutter(last)) == line_break(&uncolored(*cfg), tree_gutter(last)),
{
}

/// Stripping a rendered entry of the file tree gives it as it is rendered
/// without color.
pub proof fn lemma_strip_tree_entry(
    order: &PriorityOrder,
    incl: Seq<bool>,
    cfg: &RenderConfig,
    elem: Elem,
    last: bool,
    rest: Seq<char>,
)
    requires
        esc_free(tree_entry(order, incl, &uncolored(*cfg), elem, last)),
    ensures
        strip_from(tree_entry(order, incl, cfg, elem, last) + rest, false) == tree_entry(
            order,
            incl,
            &uncolored(*cfg),
            elem,
            last,
        ) + strip_from(rest, false),
{
    let plain = uncolored(*cfg);
    match elem {
        Elem::Item { child, orig } => {
            if 0 < child < order.total_nodes {
                lemma_tree_entry_unfolds(order, incl, cfg, child, orig, last);
                lemma_tree_entry_unfolds(order, incl, &plain, child, orig, last);
                let head = tree_branch(last) + key_text(order, child as int) + line_break(
                    cfg,
                    tree_gutter(last),
                );
                let shape = file_shape(order.file_kind@[child as int], cfg);
                let node_col = render_node(order, incl, cfg, tree_gutter(last), shape, child as int, 0);
                let node_bare = render_node(
                    order,
                    incl,
                    &plain,
                    tree_gutter(last),
                    shape,
                    child as int,
                    0,
                );
                lemma_esc_free_parts(head, node_bare);
                lemma_strip_plain(head, node_col + rest);
                lemma_strip_node(order, incl, cfg, tree_gutter(last), shape, child as int, 0, rest);
                lemma_strip_two(head, head, node_col, node_bare, rest);
            } else {
                lemma_strip_plain(tree_entry(order, incl, &plain, elem, last), rest);
            }
        },
        Elem::Gap { .. } => {
            lemma_strip_plain(tree_entry(order, incl, &plain, elem, last), rest);
        },
    }
}

/// The entries of the file tree from the `k`-th on: a line break, an entry,
/// and what follows.
pub proof fn lemma_tree_entries_unfold(
    order: &PriorityOrder,
    incl: Seq<bool>,
    cfg: &RenderConfig,
    elems: Seq<Elem>,
    k: int,
)
    requires
        0 <= k < elems.len(),
    ensures
        render_tree_entries(order, incl, cfg, elems, k) == cfg.newline@ + tree_entry(
            order,
            incl,
            cfg,
            elems[k],
            k == elems.len() - 1,
        ) + render_tree_entries(order, incl, cfg, elems, k + 1),
{
}

/// Stripping the rendered entries of the file tree gives them as they are
/// rendered without color.
pub proof fn lemma_strip_tree_entries(
    order: &PriorityOrder,
    incl: Seq<bool>,
    cfg: &RenderConfig,
    elems: Seq<Elem>,
    k: int,
    rest: Seq<char>,
)
    requires
        esc_free(render_tree_entries(order, incl, &uncolored(*cfg), elems, k)),
    ensures
        strip_from(render_tree_entries(order, incl, cfg, elems, k) + rest, false)
            == render_tree_entries(order, incl, &uncolored(*cfg), elems, k) + strip_from(
            rest,
            false,
        ),
    decreases elems.len() - k,
{
    let plain = uncolored(*cfg);
    if k < 0 || k >= elems.len() {
        lemma_strip_plain(Seq::empty(), rest);
    } else {
        let last = k == elems.len() - 1;
        let body_col = tree_entry(order, incl, cfg, elems[k], last);
        let body_bare = tree_entry(order, incl, &plain, elems[k], last);
        let tail_col = render_tree_entries(order, incl, cfg, elems, k + 1);
        let tail_bare = render_tree_entries(order, incl, &plain, elems, k + 1);
        lemma_tree_entries_unfold(order, incl, cfg, elems, k);
        lemma_tree_entries_unfold(order, incl, &plain, elems, k);
        lemma_esc_free_three(cfg.newline@, body_bare, tail_bare);
        lemma_strip_tree_entry(order, incl, cfg, elems[k], last, tail_col + rest);
        lemma_strip_tree_entries(order, incl, cfg, elems, k + 1, rest);
        lemma_strip_three(cfg.newline@, body_col, body_bare, tail_col, tail_bare, rest);
    }
}

/// Color strip equivalence of a rendering. Where the rendering without
/// color holds no escape character, it is what remains of the rendering with
/// color when the color sequences are stripped.
pub proof fn lemma_strip_document(order: &PriorityOrder, incl: Seq<bool>, cfg: &RenderConfig)
    requires
        esc_free(render_document(order, incl, &uncolored(*cfg))),
    ensures
        strip_ansi(render_document(order, incl, cfg)) == render_document(
            order,
            incl,
            &uncolored(*cfg),
        ),
{
    let plain = uncolored(*cfg);
    let col = render_document(order, incl, cfg);
    let bare = render_document(order, incl, &plain);
    let none = Seq::<char>::empty();
    assert(col + none =~= col);
    assert(bare + strip_from(none, false) =~= bare) by {
        reveal_with_fuel(strip_from, 1);
    }
    if order.total_nodes == 0 || incl.len() == 0 || !incl[0] {
    } else if order.object_type@[0] == ObjectType::Fileset {
        assert(with_shown_files(order, incl, cfg) == with_shown_files(order, incl, &plain));
        let incl = with_shown_files(order, incl, cfg);
        if shows_tree(cfg) {
            let elems = visible_elems(order, incl, 0);
            let entries_col = render_tree_entries(order, incl, cfg, elems, 0);
            let entries_bare = render_tree_entries(order, incl, &plain, elems, 0);
            lemma_esc_free_parts("."@, entries_bare);
            lemma_strip_plain("."@, entries_col + none);
            lemma_strip_tree_entries(order, incl, cfg, elems, 0, none);
            assert("."@ + entries_col + none =~= "."@ + (entries_col + none));
            assert("."@ + (entries_bare + strip_from(none, false)) =~= bare) by {
                reveal_with_fuel(strip_from, 1);
            }
        } else {
            assert(file_elems(order, incl, cfg) == file_elems(order, incl, &plain));
            lemma_strip_sections(order, incl, cfg, file_elems(order, incl, cfg), 0, none);
        }
    } else {
        assert(document_shape(cfg) == document_shape(&plain));
        lemma_strip_node(order, incl, cfg, Seq::empty(), document_shape(cfg), 0, 0, none);
    }
}

} // verus!
