pub mod color;
pub mod elements;
pub mod highlight;
pub mod render;
pub mod scalar;
pub mod shape;
pub mod strip;
pub mod text;
pub mod types;

use crate::ingest::fileset::FilesetInputKind;
use crate::order::{in_chain, parent_closed, NodeId, ObjectType, PriorityOrder};
use crate::serialization::elements::{collect_elems, drop_gaps, items_below};
use crate::serialization::elements::{items_only, visible_elems, Elem};
use crate::serialization::render::{key_text, line_break, push_line_break, push_node, render_node};
use crate::serialization::shape::{document_shape, file_shape};
use crate::serialization::shape::{resolve_document_shape, resolve_file_shape};
use crate::serialization::text::{decimal, push_decimal};
use crate::serialization::types::RenderConfig;
use crate::utils::graph::{flags_view, mark_node_and_ancestors};
use vstd::prelude::*;

verus! {

/// `x` is one of the first `k` nodes of the selection sequence or an
/// ancestor of one.
pub open spec fn in_top_k(order: &PriorityOrder, k: int, x: int) -> bool {
    exists|j: int|
        0 <= j < k && j < order.by_priority@.len() && #[trigger] in_chain(
            order.parent@,
            order.by_priority@[j].0 as int,
            x,
        )
}

/// Mark the first `top_k` nodes of the selection sequence and their
/// ancestors for render set `render_id`.
pub fn prepare_render_set_top_k_and_ancestors(
    order: &PriorityOrder,
    top_k: usize,
    inclusion_flags: &mut Vec<u32>,
    render_id: u32,
)
    requires
        order.wf(),
        old(inclusion_flags)@.len() == order.total_nodes,
        parent_closed(order.parent@, flags_view(old(inclusion_flags)@, render_id)),
    ensures
        final(inclusion_flags)@.len() == old(inclusion_flags)@.len(),
        forall|x: int|
            0 <= x < order.total_nodes ==> (#[trigger] final(inclusion_flags)@[x] == render_id
                <==> old(inclusion_flags)@[x] == render_id || in_top_k(order, top_k as int, x)),
        forall|x: int|
            0 <= x < order.total_nodes && #[trigger] final(inclusion_flags)@[x] != render_id
                ==> final(inclusion_flags)@[x] == old(inclusion_flags)@[x],
        parent_closed(order.parent@, flags_view(final(inclusion_flags)@, render_id)),
{
    let ghost before = inclusion_flags@;
    let n = order.by_priority.len();
    let k = if top_k < n {
        top_k
    } else {
        n
    };
    let mut j: usize = 0;
    while j < k
        invariant
            order.wf(),
            n == order.by_priority@.len(),
            k <= n,
            k <= top_k,
            k == n || k == top_k,
            j <= k,
            before.len() == order.total_nodes,
            inclusion_flags@.len() == before.len(),
            parent_closed(order.parent@, flags_view(inclusion_flags@, render_id)),
            forall|x: int|
                0 <= x < order.total_nodes ==> (#[trigger] inclusion_flags@[x] == render_id
                    <==> before[x] == render_id || in_top_k(order, j as int, x)),
            forall|x: int|
                0 <= x < order.total_nodes && #[trigger] inclusion_flags@[x] != render_id
                    ==> inclusion_flags@[x] == before[x],
        decreases k - j,
    {
        let ghost mid = inclusion_flags@;
        let node = order.by_priority[j];
        mark_node_and_ancestors(order, node, inclusion_flags, render_id);
        proof {
            assert forall|x: int| 0 <= x < order.total_nodes implies (
            #[trigger] inclusion_flags@[x] == render_id <==> before[x] == render_id || in_top_k(
                order,
                j + 1,
                x,
            )) by {
                if in_top_k(order, j + 1, x) {
                    let i = choose|i: int|
                        0 <= i < j + 1 && i < order.by_priority@.len() && #[trigger] in_chain(
                            order.parent@,
                            order.by_priority@[i].0 as int,
                            x,
                        );
                    if i < j {
                        assert(in_top_k(order, j as int, x));
                    }
                }
                if inclusion_flags@[x] == render_id && before[x] != render_id {
                    if mid[x] == render_id {
                        let i = choose|i: int|
                            0 <= i < j && i < order.by_priority@.len() && #[trigger] in_chain(
                                order.parent@,
                                order.by_priority@[i].0 as int,
                                x,
                            );
                        assert(in_chain(order.parent@, order.by_priority@[i].0 as int, x));
                    } else {
                        assert(in_chain(order.parent@, order.by_priority@[j as int].0 as int, x));
                    }
                }
            }
        }
        j += 1;
    }
    proof {
        assert forall|x: int| 0 <= x < order.total_nodes implies (in_top_k(order, k as int, x)
            <==> in_top_k(order, top_k as int, x)) by {
            if in_top_k(order, top_k as int, x) {
                let i = choose|i: int|
                    0 <= i < top_k && i < order.by_priority@.len() && #[trigger] in_chain(
                        order.parent@,
                        order.by_priority@[i].0 as int,
                        x,
                    );
                assert(in_chain(order.parent@, order.by_priority@[i].0 as int, x));
            }
            if in_top_k(order, k as int, x) {
                let i = choose|i: int|
                    0 <= i < k && i < order.by_priority@.len() && #[trigger] in_chain(
                        order.parent@,
                        order.by_priority@[i].0 as int,
                        x,
                    );
                assert(in_chain(order.parent@, order.by_priority@[i].0 as int, x));
            }
        }
    }
}

/// The sections that a fileset shows: its visible elements, without the
/// gaps where section headers are hidden.
pub open spec fn file_elems(order: &PriorityOrder, incl: Seq<bool>, cfg: &RenderConfig) -> Seq<Elem> {
    let elems = visible_elems(order, incl, 0);
    if cfg.show_fileset_headers {
        elems
    } else {
        items_only(elems)
    }
}

/// What separates two sections: a blank line under headers, else a line break.
pub open spec fn section_gap(cfg: &RenderConfig) -> Seq<char> {
    if cfg.show_fileset_headers {
        cfg.newline@ + cfg.newline@
    } else {
        cfg.newline@
    }
}

/// The header line of the section of file `child`, where headers are shown.
pub open spec fn section_header(order: &PriorityOrder, cfg: &RenderConfig, child: int) -> Seq<char> {
    if cfg.show_fileset_headers {
        "==> "@ + key_text(order, child) + " <=="@ + cfg.newline@
    } else {
        Seq::empty()
    }
}

/// The line that sums up `count` files left out.
pub open spec fn files_summary(count: usize) -> Seq<char> {
    "==> "@ + decimal(count as nat) + " more files <=="@
}

/// One section of a fileset: a file under its header, in the template of
/// its kind, or the summary line for files left out.
pub open spec fn section_body(
    order: &PriorityOrder,
    incl: Seq<bool>,
    cfg: &RenderConfig,
    elem: Elem,
) -> Seq<char> {
    match elem {
        Elem::Gap { count } => files_summary(count),
        Elem::Item { child, .. } => if 0 < child < order.total_nodes {
            section_header(order, cfg, child as int) + render_node(
                order,
                incl,
                cfg,
                Seq::empty(),
                file_shape(order.file_kind@[child as int], cfg),
                child as int,
                0)
        } else {
            Seq::empty()
        },
    }
}

/// The sections of a fileset from the `k`-th on, a gap between each two.
pub open spec fn render_sections(
    order: &PriorityOrder,
    incl: Seq<bool>,
    cfg: &RenderConfig,
    elems: Seq<Elem>,
    k: int,
) -> Seq<char>
    decreases elems.len() - k,
{
    if k < 0 || k >= elems.len() {
        Seq::empty()
    } else {
        let gap = if k == 0 {
            Seq::empty()
        } else {
            section_gap(cfg)
        };
        gap + section_body(order, incl, cfg, elems[k]) + render_sections(
            order,
            incl,
            cfg,
            elems,
            k + 1,
        )
    }
}

/// A fileset is shown as a tree where that is asked for and the names of
/// the files are shown at all.
pub open spec fn shows_tree(cfg: &RenderConfig) -> bool {
    cfg.fileset_tree && cfg.show_fileset_headers
}

/// The branch that an entry of the file tree hangs on.
pub open spec fn tree_branch(last: bool) -> Seq<char> {
    if last {
        "└─ "@
    } else {
        "├─ "@
    }
}

/// What the lines of the body of an entry start with: the pipe that leads on
/// to the next entry, or blanks under the last one.
pub open spec fn tree_gutter(last: bool) -> Seq<char> {
    if last {
        "  "@
    } else {
        "│ "@
    }
}

/// One entry of the file tree: on its branch the name of a file, with its
/// path, and below it the body of the file in the template of its kind,
/// every line behind the gutter; or the count of the entries left out.
pub open spec fn tree_entry(
    order: &PriorityOrder,
    incl: Seq<bool>,
    cfg: &RenderConfig,
    elem: Elem,
    last: bool,
) -> Seq<char> {
    match elem {
        Elem::Gap { count } => tree_branch(last) + "… "@ + decimal(count as nat) + " more items"@,
        Elem::Item { child, .. } => if 0 < child < order.total_nodes {
            tree_branch(last) + key_text(order, child as int) + line_break(cfg, tree_gutter(last))
                + render_node(
                order,
                incl,
                cfg,
                tree_gutter(last),
                file_shape(order.file_kind@[child as int], cfg),
                child as int,
                0,
            )
        } else {
            Seq::empty()
        },
    }
}

/// The entries of the file tree from the `k`-th on, each on a line of its
/// own.
pub open spec fn render_tree_entries(
    order: &PriorityOrder,
    incl: Seq<bool>,
    cfg: &RenderConfig,
    elems: Seq<Elem>,
    k: int,
) -> Seq<char>
    decreases elems.len() - k,
{
    if k < 0 || k >= elems.len() {
        Seq::empty()
    } else {
        cfg.newline@ + tree_entry(order, incl, cfg, elems[k], k == elems.len() - 1)
            + render_tree_entries(order, incl, cfg, elems, k + 1)
    }
}

/// A fileset as a tree: a dot for the root, and an entry for each file.
pub open spec fn render_tree(order: &PriorityOrder, incl: Seq<bool>, cfg: &RenderConfig) -> Seq<char> {
    "."@ + render_tree_entries(order, incl, cfg, visible_elems(order, incl, 0), 0)
}

fn push_tree_entry(
    out: &mut String,
    order: &PriorityOrder,
    flags: &Vec<u32>,
    render_id: u32,
    cfg: &RenderConfig,
    elem: Elem,
    last: bool,
)
    requires
        order.wf(),
        flags@.len() == order.total_nodes,
        elem matches Elem::Item { child, .. } ==> 0 < child < order.total_nodes,
    ensures
        final(out)@ == old(out)@ + tree_entry(order, flags_view(flags@, render_id), cfg, elem, last),
{
    let ghost incl = flags_view(flags@, render_id);
    let ghost start = out@;
    let branch = if last {
        "└─ "
    } else {
        "├─ "
    };
    let gutter = if last {
        "  "
    } else {
        "│ "
    };
    match elem {
        Elem::Gap { count } => {
            out.push_str(branch);
            out.push_str("… ");
            push_decimal(out, count as u64);
            out.push_str(" more items");
            assert(out@ =~= start + tree_entry(order, incl, cfg, elem, last));
        },
        Elem::Item { child, .. } => {
            let empty_key = String::new();
            let key: &String = match order.nodes[child].key_in_object() {
                Some(name) => name,
                None => &empty_key,
            };
            assert(key@ =~= key_text(order, child as int));
            out.push_str(branch);
            out.push_str(key.as_str());
            push_line_break(out, cfg, gutter);
            let shape = resolve_file_shape(order.file_kind[child], cfg);
            push_node(out, order, flags, render_id, cfg, gutter, shape, child, 0);
            assert(out@ =~= start + tree_entry(order, incl, cfg, elem, last));
        },
    }
}

fn push_tree(
    out: &mut String,
    order: &PriorityOrder,
    flags: &Vec<u32>,
    render_id: u32,
    cfg: &RenderConfig,
)
    requires
        order.wf(),
        flags@.len() == order.total_nodes,
        order.total_nodes > 0,
    ensures
        final(out)@ == old(out)@ + render_tree(order, flags_view(flags@, render_id), cfg),
{
    let ghost incl = flags_view(flags@, render_id);
    let ghost start = out@;
    let elems = collect_elems(order, flags, render_id, 0);
    out.push_str(".");
    let ghost base = out@;
    let ghost all = render_tree_entries(order, incl, cfg, elems@, 0);
    let mut k: usize = 0;
    while k < elems.len()
        invariant
            order.wf(),
            flags@.len() == order.total_nodes,
            incl == flags_view(flags@, render_id),
            k <= elems@.len(),
            items_below(order, 0, elems@),
            out@ + render_tree_entries(order, incl, cfg, elems@, k as int) == base + all,
        decreases elems@.len() - k,
    {
        let ghost before = out@;
        let ghost rest = render_tree_entries(order, incl, cfg, elems@, k as int);
        let ghost tail = render_tree_entries(order, incl, cfg, elems@, k + 1);
        out.push_str(cfg.newline.as_str());
        push_tree_entry(out, order, flags, render_id, cfg, elems[k], k == elems.len() - 1);
        assert(out@ + tail =~= before + rest);
        k += 1;
    }
    assert(out@ =~= start + render_tree(order, incl, cfg));
}

/// Nothing of file `x` would be shown: it is a file of the fileset, it is
/// selected and has content, and none of its content is selected.
pub open spec fn is_hollow_file(order: &PriorityOrder, incl: Seq<bool>, x: int) -> bool {
    &&& 0 <= x < order.total_nodes
    &&& x < incl.len()
    &&& order.parent@[x] == Some(NodeId(0))
    &&& incl[x]
    &&& order.children@[x]@.len() > 0
    &&& forall|j: int|
        0 <= j < order.children@[x]@.len() ==> !is_selected(
            incl,
            (#[trigger] order.children@[x]@[j]).0 as int,
        )
}

/// Node `x` is in the selection.
pub open spec fn is_selected(incl: Seq<bool>, x: int) -> bool {
    0 <= x < incl.len() && incl[x]
}

/// A file of which nothing would be shown is hidden where its header
/// counts toward the budgets, so that no budget is spent on a name alone,
/// and where it is a file of code, whose lines are numbered and whose body
/// is nothing without a line.
pub open spec fn hides_hollow(order: &PriorityOrder, cfg: &RenderConfig, x: int) -> bool {
    cfg.count_fileset_headers_in_budgets || (0 <= x < order.file_kind@.len()
        && order.file_kind@[x] == Some(FilesetInputKind::Text { atomic_lines: true }))
}

/// The selection as a fileset shows it. A hidden file is not shown at all,
/// neither its header nor a mark of omission: it is counted with the files
/// that are left out. Any other file of which nothing would be shown stands
/// under its header as a mark of omission.
pub open spec fn with_shown_files(order: &PriorityOrder, incl: Seq<bool>, cfg: &RenderConfig) -> Seq<
    bool,
> {
    Seq::new(
        incl.len(),
        |x: int| incl[x] && !(is_hollow_file(order, incl, x) && hides_hollow(order, cfg, x)),
    )
}

/// A fileset under the files that are shown: as a tree, or in sections.
pub open spec fn render_fileset(order: &PriorityOrder, shown: Seq<bool>, cfg: &RenderConfig) -> Seq<
    char,
> {
    if shows_tree(cfg) {
        render_tree(order, shown, cfg)
    } else {
        render_sections(order, shown, cfg, file_elems(order, shown, cfg), 0)
    }
}

/// The preview of the tree under the selection `incl`: nothing where the
/// root is not selected, the sections or the file tree of a fileset with
/// the files of which something is shown, or the document in its template.
pub open spec fn render_document(order: &PriorityOrder, incl: Seq<bool>, cfg: &RenderConfig) -> Seq<
    char,
> {
    if order.total_nodes == 0 || incl.len() == 0 || !incl[0] {
        Seq::empty()
    } else if order.object_type@[0] == ObjectType::Fileset {
        render_fileset(order, with_shown_files(order, incl, cfg), cfg)
    } else {
        render_node(order, incl, cfg, Seq::empty(), document_shape(cfg), 0, 0)
    }
}

/// The flag that stands for "not in render set `render_id`".
fn unmarked(render_id: u32) -> (flag: u32)
    ensures
        flag != render_id,
{
    if render_id == 0 {
        1
    } else {
        0
    }
}

/// Whether any child of node `x` is marked for `render_id`.
fn any_child_marked(order: &PriorityOrder, flags: &Vec<u32>, render_id: u32, x: usize) -> (any: bool)
    requires
        order.wf(),
        flags@.len() == order.total_nodes,
        x < order.total_nodes,
    ensures
        any == exists|j: int|
            0 <= j < order.children@[x as int]@.len() && is_selected(
                flags_view(flags@, render_id),
                (#[trigger] order.children@[x as int]@[j]).0 as int,
            ),
{
    let ghost incl = flags_view(flags@, render_id);
    let children = &order.children[x];
    let mut j: usize = 0;
    while j < children.len()
        invariant
            order.wf(),
            flags@.len() == order.total_nodes,
            x < order.total_nodes,
            incl == flags_view(flags@, render_id),
            children@ == order.children@[x as int]@,
            j <= children@.len(),
            forall|i: int| 0 <= i < j ==> !is_selected(incl, (#[trigger] children@[i]).0 as int),
        decreases children@.len() - j,
    {
        let c = children[j].0;
        assert(order.children@[x as int]@[j as int].0 == c);
        assert(c < order.total_nodes);
        if flags[c] == render_id {
            assert(is_selected(incl, children@[j as int].0 as int));
            return true;
        }
        j += 1;
    }
    false
}

/// The flags without the files of which nothing would be shown.
pub fn hide_hollow_files(
    order: &PriorityOrder,
    flags: &Vec<u32>,
    render_id: u32,
    cfg: &RenderConfig,
) -> (shown: Vec<u32>)
    requires
        order.wf(),
        flags@.len() == order.total_nodes,
        order.total_nodes > 0,
    ensures
        shown@.len() == flags@.len(),
        flags_view(shown@, render_id) == with_shown_files(
            order,
            flags_view(flags@, render_id),
            cfg,
        ),
{
    let ghost incl = flags_view(flags@, render_id);
    let mut shown = flags.clone();
    assert(shown@ == flags@);
    let off = unmarked(render_id);
    let files = &order.children[0];
    let mut j: usize = 0;
    while j < files.len()
        invariant
            order.wf(),
            flags@.len() == order.total_nodes,
            shown@.len() == flags@.len(),
            incl == flags_view(flags@, render_id),
            order.total_nodes > 0,
            files@ == order.children@[0]@,
            off != render_id,
            j <= files@.len(),
            forall|x: int|
                0 <= x < shown@.len() ==> #[trigger] shown@[x] == if (exists|i: int|
                    0 <= i < j && (#[trigger] files@[i]).0 == x) && is_hollow_file(order, incl, x)
                    && hides_hollow(order, cfg, x) {
                    off
                } else {
                    flags@[x]
                },
        decreases files@.len() - j,
    {
        let x = files[j].0;
        assert(order.children@[0]@[j as int].0 == x);
        assert(x < order.total_nodes);
        assert(order.parent@[x as int] == Some(NodeId(0)));
        let ghost before = shown@;
        let hides = cfg.count_fileset_headers_in_budgets || match order.file_kind[x] {
            Some(FilesetInputKind::Text { atomic_lines }) => atomic_lines,
            _ => false,
        };
        assert(hides == hides_hollow(order, cfg, x as int));
        let hollow = hides && flags[x] == render_id && order.children[x].len() > 0
            && !any_child_marked(order, flags, render_id, x);
        assert(hollow == (is_hollow_file(order, incl, x as int) && hides_hollow(
            order,
            cfg,
            x as int,
        )));
        if hollow {
            shown[x] = off;
        }
        proof {
            assert forall|y: int| 0 <= y < shown@.len() implies #[trigger] shown@[y] == if (exists|
                i: int,
            | 0 <= i < j + 1 && (#[trigger] files@[i]).0 == y) && is_hollow_file(order, incl, y)
                && hides_hollow(order, cfg, y) {
                off
            } else {
                flags@[y]
            } by {
                if y == x {
                    assert(files@[j as int].0 == y);
                } else {
                    if exists|i: int| 0 <= i < j + 1 && (#[trigger] files@[i]).0 == y {
                        let i = choose|i: int| 0 <= i < j + 1 && (#[trigger] files@[i]).0 == y;
                        assert(i < j);
                    }
                }
            }
        }
        j += 1;
    }
    proof {
        let target = with_shown_files(order, incl, cfg);
        assert forall|y: int| 0 <= y < shown@.len() implies flags_view(shown@, render_id)[y]
            == target[y] by {
            if is_hollow_file(order, incl, y) {
                assert(order.children@[0]@.contains(NodeId(y as usize)));
                let i = choose|i: int|
                    0 <= i < files@.len() && files@[i] == NodeId(y as usize);
                assert(files@[i].0 == y);
            }
        }
        assert(flags_view(shown@, render_id) =~= target);
    }
    shown
}

fn push_section(
    out: &mut String,
    order: &PriorityOrder,
    flags: &Vec<u32>,
    render_id: u32,
    cfg: &RenderConfig,
    elem: Elem,
)
    requires
        order.wf(),
        flags@.len() == order.total_nodes,
        elem matches Elem::Item { child, .. } ==> 0 < child < order.total_nodes,
    ensures
        final(out)@ == old(out)@ + section_body(order, flags_view(flags@, render_id), cfg, elem),
{
    let ghost incl = flags_view(flags@, render_id);
    let ghost start = out@;
    match elem {
        Elem::Gap { count } => {
            out.push_str("==> ");
            push_decimal(out, count as u64);
            out.push_str(" more files <==");
            assert(out@ =~= start + files_summary(count));
        },
        Elem::Item { child, .. } => {
            if cfg.show_fileset_headers {
                let empty_key = String::new();
                let key: &String = match order.nodes[child].key_in_object() {
                    Some(name) => name,
                    None => &empty_key,
                };
                assert(key@ =~= key_text(order, child as int));
                out.push_str("==> ");
                out.push_str(key.as_str());
                out.push_str(" <==");
                out.push_str(cfg.newline.as_str());
            }
            assert(out@ =~= start + section_header(order, cfg, child as int));
            let shape = resolve_file_shape(order.file_kind[child], cfg);
            proof {
                reveal_strlit("");
                assert(""@ =~= Seq::<char>::empty());
            }
            push_node(out, order, flags, render_id, cfg, "", shape, child, 0);
            assert(out@ =~= start + (section_header(order, cfg, child as int) + render_node(
                order,
                incl,
                cfg,
                Seq::empty(),
                shape,
                child as int,
                0)));
        },
    }
}

fn push_sections(
    out: &mut String,
    order: &PriorityOrder,
    flags: &Vec<u32>,
    render_id: u32,
    cfg: &RenderConfig,
    elems: &Vec<Elem>,
)
    requires
        order.wf(),
        flags@.len() == order.total_nodes,
        items_below(order, 0, elems@),
    ensures
        final(out)@ == old(out)@ + render_sections(
            order,
            flags_view(flags@, render_id),
            cfg,
            elems@,
            0,
        ),
{
    let ghost incl = flags_view(flags@, render_id);
    let ghost base = out@;
    let ghost all = render_sections(order, incl, cfg, elems@, 0);
    let mut k: usize = 0;
    while k < elems.len()
        invariant
            order.wf(),
            flags@.len() == order.total_nodes,
            incl == flags_view(flags@, render_id),
            k <= elems@.len(),
            items_below(order, 0, elems@),
            out@ + render_sections(order, incl, cfg, elems@, k as int) == base + all,
        decreases elems@.len() - k,
    {
        let ghost before = out@;
        let ghost rest = render_sections(order, incl, cfg, elems@, k as int);
        let ghost tail = render_sections(order, incl, cfg, elems@, k + 1);
        if k > 0 {
            out.push_str(cfg.newline.as_str());
            if cfg.show_fileset_headers {
                out.push_str(cfg.newline.as_str());
            }
            assert(out@ =~= before + section_gap(cfg));
        }
        let ghost mid = out@;
        push_section(out, order, flags, render_id, cfg, elems[k]);
        assert(out@ + tail =~= before + rest);
        k += 1;
    }
    assert(out@ =~= base + all);
}

/// Render the nodes that `inclusion_flags` marks for `render_id`.
pub fn render_from_render_set(
    order: &PriorityOrder,
    inclusion_flags: &Vec<u32>,
    render_id: u32,
    config: &RenderConfig,
) -> (out: String)
    requires
        order.wf(),
        inclusion_flags@.len() == order.total_nodes,
    ensures
        out@ == render_document(order, flags_view(inclusion_flags@, render_id), config),
{
    let mut out = String::new();
    if order.total_nodes == 0 || inclusion_flags[0] != render_id {
        return out;
    }
    let is_fileset = match order.object_type[0] {
        ObjectType::Fileset => true,
        ObjectType::Object => false,
    };
    if is_fileset && config.fileset_tree && config.show_fileset_headers {
        let shown = hide_hollow_files(order, inclusion_flags, render_id, config);
        push_tree(&mut out, order, &shown, render_id, config);
        assert(out@ =~= render_document(order, flags_view(inclusion_flags@, render_id), config));
    } else if is_fileset {
        let shown = hide_hollow_files(order, inclusion_flags, render_id, config);
        let inclusion_flags = &shown;
        let all = collect_elems(order, inclusion_flags, render_id, 0);
        let elems = if config.show_fileset_headers {
            all
        } else {
            let items = drop_gaps(all);
            assert(items_below(order, 0, items@)) by {
                assert forall|k: int| 0 <= k < items@.len() implies (#[trigger] items@[k] matches Elem::Item {
                    child,
                    ..
                } ==> 0 < child < order.total_nodes) by {
                    let e = items@[k];
                    assert(all@.contains(e));
                    let i = choose|i: int| 0 <= i < all@.len() && all@[i] == e;
                    assert(all@[i] == e);
                }
            }
            items
        };
        push_sections(&mut out, order, inclusion_flags, render_id, config, &elems);
        assert(out@ =~= render_fileset(order, flags_view(shown@, render_id), config));
    } else {
        let shape = resolve_document_shape(config);
        proof {
            reveal_strlit("");
            assert(""@ =~= Seq::<char>::empty());
        }
        push_node(&mut out, order, inclusion_flags, render_id, config, "", shape, 0, 0);
        assert(out@ =~= render_document(order, flags_view(inclusion_flags@, render_id), config));
    }
    out
}

} // verus!
