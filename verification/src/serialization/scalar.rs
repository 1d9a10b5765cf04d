use crate::order::builder::{cluster_texts, grapheme_clusters, split_graphemes};
use crate::order::{NodeKind, PriorityOrder, RankedNode};
use crate::serialization::color::ColorRole;
use crate::serialization::highlight::{painted, push_painted};
use crate::serialization::shape::Shape;
use crate::serialization::text::{json_escaped, push_json_escaped};
use crate::serialization::types::RenderConfig;
use crate::utils::graph::flags_view;
use crate::utils::text::{ascii_lowered, str_eq, to_ascii_lowercase};
use vstd::prelude::*;
use vstd::string::StrSliceExecFns;

verus! {

/// Longest code line that is shown whole, in user-perceived characters.
pub const CODE_LINE_LIMIT: usize = 150;

/// The first `n` of the clusters, one after another.
pub open spec fn clusters_joined(clusters: Seq<Seq<char>>, n: int) -> Seq<char>
    decreases n,
{
    if n <= 0 {
        Seq::empty()
    } else {
        clusters_joined(clusters, n - 1) + clusters[n - 1]
    }
}

/// The color role of a scalar of some kind.
pub open spec fn role_of(kind: NodeKind) -> ColorRole {
    match kind {
        NodeKind::String => ColorRole::String,
        NodeKind::Number => ColorRole::Number,
        NodeKind::Bool => ColorRole::Bool,
        NodeKind::Null => ColorRole::Null,
        _ => ColorRole::Punct,
    }
}

pub fn role_for(kind: NodeKind) -> (role: ColorRole)
    ensures
        role == role_of(kind),
{
    match kind {
        NodeKind::String => ColorRole::String,
        NodeKind::Number => ColorRole::Number,
        NodeKind::Bool => ColorRole::Bool,
        NodeKind::Null => ColorRole::Null,
        _ => ColorRole::Punct,
    }
}

/// A character that may stand in an unquoted YAML scalar.
pub open spec fn is_plain_char(c: char) -> bool {
    let v = c as u32;
    (0x61 <= v <= 0x7A) || (0x41 <= v <= 0x5A) || (0x30 <= v <= 0x39) || v == 0x5F || v == 0x2D
        || v == 0x2E || v == 0x2F
}

/// A character that may begin an unquoted YAML scalar: a letter or `_`.
pub open spec fn is_plain_start(c: char) -> bool {
    let v = c as u32;
    (0x61 <= v <= 0x7A) || (0x41 <= v <= 0x5A) || v == 0x5F
}

/// A word that YAML reads as a boolean or as null, whatever its case.
pub open spec fn is_reserved_word(s: Seq<char>) -> bool {
    let l = ascii_lowered(s);
    l == "true"@ || l == "false"@ || l == "null"@ || l == "yes"@ || l == "no"@ || l == "on"@ || l
        == "off"@
}

/// A text that YAML takes as a string without quotes.
pub open spec fn yaml_plain(s: Seq<char>) -> bool {
    &&& s.len() > 0
    &&& is_plain_start(s[0])
    &&& forall|i: int| 0 <= i < s.len() ==> is_plain_char(#[trigger] s[i])
    &&& !is_reserved_word(s)
}

pub fn plain_char(c: char) -> (b: bool)
    ensures
        b == is_plain_char(c),
{
    let v: u32 = c as u32;
    (0x61 <= v && v <= 0x7A) || (0x41 <= v && v <= 0x5A) || (0x30 <= v && v <= 0x39) || v == 0x5F
        || v == 0x2D || v == 0x2E || v == 0x2F
}

pub fn is_yaml_plain(s: &str) -> (b: bool)
    ensures
        b == yaml_plain(s@),
{
    let mut all_plain = true;
    let mut first_ok = false;
    let mut at_start = true;
    for c in it: s.chars()
        invariant
            it.seq() == s@,
            at_start == (it.index() == 0),
            all_plain == (forall|i: int| 0 <= i < it.index() ==> is_plain_char(#[trigger] s@[i])),
            first_ok == (it.index() > 0 && is_plain_start(s@[0])),
    {
        let v: u32 = c as u32;
        if at_start {
            first_ok = (0x61 <= v && v <= 0x7A) || (0x41 <= v && v <= 0x5A) || v == 0x5F;
            at_start = false;
        }
        if !plain_char(c) {
            all_plain = false;
        }
    }
    if !(first_ok && all_plain) {
        return false;
    }
    let l = to_ascii_lowercase(s);
    let w = l.as_str();
    !(str_eq(w, "true") || str_eq(w, "false") || str_eq(w, "null") || str_eq(w, "yes") || str_eq(
        w,
        "no",
    ) || str_eq(w, "on") || str_eq(w, "off"))
}

/// A code line as shown: whole up to the limit, else its first characters
/// and an ellipsis.
pub open spec fn clipped(text: Seq<char>) -> Seq<char> {
    let clusters = grapheme_clusters(text);
    if clusters.len() > CODE_LINE_LIMIT {
        clusters_joined(clusters, CODE_LINE_LIMIT as int) + "…"@
    } else {
        text
    }
}

/// Compute a code line as shown.
pub fn clip_line(text: &str) -> (shown: String)
    ensures
        shown@ == clipped(text@),
{
    let clusters = split_graphemes(text);
    if clusters.len() > CODE_LINE_LIMIT {
        let ghost views = cluster_texts(clusters@);
        let mut shown = String::new();
        let mut i: usize = 0;
        assert(shown@ =~= clusters_joined(views, 0));
        while i < CODE_LINE_LIMIT
            invariant
                i <= CODE_LINE_LIMIT,
                CODE_LINE_LIMIT < clusters@.len(),
                views == cluster_texts(clusters@),
                shown@ == clusters_joined(views, i as int),
            decreases CODE_LINE_LIMIT - i,
        {
            shown.push_str(clusters[i].as_str());
            assert(clusters@[i as int]@ == views[i as int]);
            i += 1;
        }
        shown.push_str("…");
        shown
    } else {
        text.to_owned()
    }
}

/// A scalar of some kind and text in a template: quoted and escaped where
/// the template asks for it, raw in text, clipped in code.
pub open spec fn scalar_text(cfg: &RenderConfig, shape: Shape, kind: NodeKind, text: Seq<char>) -> Seq<
    char,
> {
    let quote = "\""@;
    let none = Seq::<char>::empty();
    match shape {
        Shape::Json | Shape::Pseudo | Shape::Js => if kind == NodeKind::String {
            painted(cfg, ColorRole::String, quote, json_escaped(text), quote)
        } else {
            painted(cfg, role_of(kind), none, text, none)
        },
        Shape::Yaml => yaml_text(cfg, role_of(kind), kind == NodeKind::String, text),
        Shape::Text => painted(cfg, ColorRole::Punct, none, text, none),
        Shape::Code => painted(cfg, ColorRole::Punct, none, clipped(text), none),
    }
}

/// A YAML key or scalar: a string stands bare where YAML reads it as one,
/// else quoted and escaped as in JSON; anything else stands as it is.
pub open spec fn yaml_text(cfg: &RenderConfig, role: ColorRole, is_string: bool, text: Seq<char>) -> Seq<
    char,
> {
    let quote = "\""@;
    let none = Seq::<char>::empty();
    if is_string && !yaml_plain(text) {
        painted(cfg, role, quote, json_escaped(text), quote)
    } else {
        painted(cfg, role, none, text, none)
    }
}

pub fn push_quoted(out: &mut String, cfg: &RenderConfig, role: ColorRole, text: &str)
    ensures
        final(out)@ == old(out)@ + painted(cfg, role, "\""@, json_escaped(text@), "\""@),
{
    let mut inner = String::new();
    push_json_escaped(&mut inner, text);
    assert(inner@ =~= json_escaped(text@));
    push_painted(out, cfg, role, "\"", inner.as_str(), "\"");
}

pub fn push_yaml_text(
    out: &mut String,
    cfg: &RenderConfig,
    role: ColorRole,
    is_string: bool,
    text: &str,
)
    ensures
        final(out)@ == old(out)@ + yaml_text(cfg, role, is_string, text@),
{
    if is_string && !is_yaml_plain(text) {
        push_quoted(out, cfg, role, text);
    } else {
        push_painted(out, cfg, role, "", text, "");
        proof {
            reveal_strlit("");
            assert(""@ =~= Seq::<char>::empty());
        }
    }
}

pub fn push_scalar(out: &mut String, cfg: &RenderConfig, shape: Shape, kind: NodeKind, text: &str)
    ensures
        final(out)@ == old(out)@ + scalar_text(cfg, shape, kind, text@),
{
    proof {
        reveal_strlit("");
        assert(""@ =~= Seq::<char>::empty());
    }
    let is_string = match kind {
        NodeKind::String => true,
        _ => false,
    };
    match shape {
        Shape::Json | Shape::Pseudo | Shape::Js => {
            if is_string {
                push_quoted(out, cfg, ColorRole::String, text);
            } else {
                push_painted(out, cfg, role_for(kind), "", text, "");
            }
        },
        Shape::Yaml => {
            push_yaml_text(out, cfg, role_for(kind), is_string, text);
        },
        Shape::Text => {
            push_painted(out, cfg, ColorRole::Punct, "", text, "");
        },
        Shape::Code => {
            let shown = clip_line(text);
            push_painted(out, cfg, ColorRole::Punct, "", shown.as_str(), "");
        },
    }
}

/// The `j`-th part of a splittable string is shown: it is selected, or it
/// is among the first parts, as many as are free.
pub open spec fn part_shown(incl: Seq<bool>, free: Option<usize>, c: int, j: int) -> bool {
    (0 <= c < incl.len() && incl[c]) || (free matches Some(n) && j < n)
}

/// The texts of the shown parts of splittable string `id`, from its `j`-th
/// part on.
pub open spec fn parts_text(
    order: &PriorityOrder,
    incl: Seq<bool>,
    free: Option<usize>,
    id: int,
    j: int,
) -> Seq<char>
    decreases order.children@[id]@.len() - j,
{
    let ch = order.children@[id]@;
    if j < 0 || j >= ch.len() {
        Seq::empty()
    } else {
        let c = ch[j].0 as int;
        let piece = if part_shown(incl, free, c, j) {
            match order.nodes@[c] {
                RankedNode::LeafPart { text, .. } => text@,
                _ => Seq::empty(),
            }
        } else {
            Seq::empty()
        };
        piece + parts_text(order, incl, free, id, j + 1)
    }
}

/// Some part of splittable string `id` from the `j`-th on is not shown.
pub open spec fn part_missing(
    order: &PriorityOrder,
    incl: Seq<bool>,
    free: Option<usize>,
    id: int,
    j: int,
) -> bool
    decreases order.children@[id]@.len() - j,
{
    let ch = order.children@[id]@;
    if j < 0 || j >= ch.len() {
        false
    } else {
        let c = ch[j].0 as int;
        !part_shown(incl, free, c, j) || part_missing(order, incl, free, id, j + 1)
    }
}

/// What a splittable string shows: its whole value when every part is
/// shown, else the shown parts and an ellipsis. The first parts, as many
/// as are free, are shown with the string, whether they are selected or
/// not: they are measured with it, and do not count as nodes of their own.
pub open spec fn split_text(
    order: &PriorityOrder,
    incl: Seq<bool>,
    free: Option<usize>,
    id: int,
    value: Seq<char>,
) -> Seq<char> {
    if part_missing(order, incl, free, id, 0) {
        parts_text(order, incl, free, id, 0) + "…"@
    } else {
        value
    }
}

/// Compute what splittable string `id` shows.
pub fn shown_split_text(
    order: &PriorityOrder,
    flags: &Vec<u32>,
    render_id: u32,
    free: Option<usize>,
    id: usize,
    value: &String,
) -> (shown: String)
    requires
        order.wf(),
        flags@.len() == order.total_nodes,
        id < order.total_nodes,
    ensures
        shown@ == split_text(order, flags_view(flags@, render_id), free, id as int, value@),
{
    let ghost incl = flags_view(flags@, render_id);
    let children = &order.children[id];
    let mut prefix = String::new();
    let mut missing = false;
    let mut j: usize = 0;
    assert(prefix@ + parts_text(order, incl, free, id as int, 0) =~= parts_text(
        order,
        incl,
        free,
        id as int,
        0,
    ));
    while j < children.len()
        invariant
            order.wf(),
            flags@.len() == order.total_nodes,
            id < order.total_nodes,
            incl == flags_view(flags@, render_id),
            children@ == order.children@[id as int]@,
            j <= children@.len(),
            prefix@ + parts_text(order, incl, free, id as int, j as int) == parts_text(
                order,
                incl,
                free,
                id as int,
                0,
            ),
            (missing || part_missing(order, incl, free, id as int, j as int)) == part_missing(
                order,
                incl,
                free,
                id as int,
                0,
            ),
        decreases children@.len() - j,
    {
        let c = children[j].0;
        let ghost before = prefix@;
        let ghost rest = parts_text(order, incl, free, id as int, j as int);
        let is_free = match free {
            Some(n) => j < n,
            None => false,
        };
        if flags[c] == render_id || is_free {
            match &order.nodes[c] {
                RankedNode::LeafPart { text, .. } => {
                    prefix.push_str(text.as_str());
                },
                _ => {},
            }
        } else {
            missing = true;
        }
        assert(prefix@ + parts_text(order, incl, free, id as int, j + 1) =~= before + rest);
        j += 1;
    }
    if missing {
        prefix.push_str("…");
        assert(prefix@ =~= parts_text(order, incl, free, id as int, 0) + "…"@);
        prefix
    } else {
        value.clone()
    }
}

} // verus!
