pub mod fileset;
pub mod json;
pub mod sampling;
pub mod text;
pub mod yaml;

use crate::error::{HeadsonError, IngestFailure};
use crate::ingest::fileset::{FilesetInput, FilesetInputKind};
use crate::ingest::json::{build_json_input, json_input_tree};
use crate::ingest::sampling::{sampling_for, sampling_of, Sampling};
use crate::ingest::text::{build_text_input, text_input_tree};
use crate::ingest::yaml::{at_most, build_yaml_input, object_tree, same_meta, texts_upto};
use crate::ingest::yaml::{trees_of, yaml_input_failure, yaml_input_tree, YamlArenaBuilder};
use crate::order::PriorityConfig;
use crate::utils::tree_arena::{in_a_row, lemma_extends_keeps_layout, lemma_row_begins, lemma_row_grows};
use crate::utils::tree_arena::{lemma_extends_keeps_tree, lemma_extends_keeps_wf};
use crate::utils::tree_arena::{JsonTreeArena, Tree};
use crate::grep::{arena_has_match, tree_has_match};
use crate::{InputKind, TextMode};
use regex::Regex;
use vstd::prelude::*;

verus! {

/// A reader of one input format.
pub trait Ingest {
    /// Read one input into an arena.
    fn parse_one(bytes: Vec<u8>, cfg: &PriorityConfig) -> (r: Result<JsonTreeArena, HeadsonError>)
        ensures
            r matches Ok(arena) ==> arena.wf() && arena.rooted() && !arena.is_fileset,
    ;

    /// Read named inputs into one arena, as a fileset.
    fn parse_many(inputs: Vec<(String, Vec<u8>)>, cfg: &PriorityConfig) -> (r: Result<
        JsonTreeArena,
        HeadsonError,
    >)
        ensures
            r matches Ok(arena) ==> arena.wf() && arena.rooted() && arena.is_fileset,
    ;
}

/// The tree of an input of some kind, where it can be read.
pub open spec fn file_tree(kind: FilesetInputKind, bytes: Seq<u8>, cap: usize, plan: Sampling) -> Option<
    Tree,
> {
    match kind {
        FilesetInputKind::Json => json_input_tree(bytes, cap, plan),
        FilesetInputKind::Yaml => yaml_input_tree(bytes, cap),
        FilesetInputKind::Text { atomic_lines } => text_input_tree(bytes, cap, plan, atomic_lines),
    }
}

/// Why an input of some kind cannot be read.
pub open spec fn file_failure(kind: FilesetInputKind, bytes: Seq<u8>) -> IngestFailure {
    match kind {
        FilesetInputKind::Json => IngestFailure::Syntax,
        FilesetInputKind::Yaml => yaml_input_failure(bytes),
        FilesetInputKind::Text { .. } => IngestFailure::InvalidUtf8,
    }
}

/// Read one input of some kind into the builder.
pub fn build_file(b: &mut YamlArenaBuilder, kind: FilesetInputKind, bytes: Vec<u8>, plan: Sampling) -> (r:
    Result<usize, HeadsonError>)
    requires
        old(b).arena.wf(),
    ensures
        final(b).arena.wf(),
        final(b).arena.extends(&old(b).arena),
        same_meta(&final(b).arena, &old(b).arena),
        final(b).array_cap == old(b).array_cap,
        match r {
            Ok(id) => old(b).arena.nodes@.len() <= id && id + 1 == final(b).arena.nodes@.len()
                && final(b).arena.laid_out(id as int, old(b).arena.nodes@.len() as int)
                && file_tree(kind, bytes@, old(b).array_cap, plan) == Some(
                final(b).arena.tree_at(id as int),
            ),
            Err(e) => file_tree(kind, bytes@, old(b).array_cap, plan) is None && e
                == HeadsonError::IngestFailed(file_failure(kind, bytes@)),
        },
{
    match kind {
        FilesetInputKind::Json => build_json_input(b, &bytes, plan),
        FilesetInputKind::Yaml => build_yaml_input(b, bytes),
        FilesetInputKind::Text { atomic_lines } => build_text_input(b, bytes, plan, atomic_lines),
    }
}

/// The kind that a single input is read as.
pub open spec fn kind_of(input: InputKind) -> FilesetInputKind {
    match input {
        InputKind::Json(_) => FilesetInputKind::Json,
        InputKind::Yaml(_) => FilesetInputKind::Yaml,
        InputKind::Text { mode, .. } => FilesetInputKind::Text {
            atomic_lines: mode == TextMode::CodeLike,
        },
        InputKind::Fileset(_) => FilesetInputKind::Json,
    }
}

/// The bytes of a single input.
pub open spec fn bytes_of(input: InputKind) -> Seq<u8> {
    match input {
        InputKind::Json(b) => b@,
        InputKind::Yaml(b) => b@,
        InputKind::Text { bytes, .. } => bytes@,
        InputKind::Fileset(_) => Seq::empty(),
    }
}

/// The tree of file `i`, where it can be read.
pub open spec fn tree_of_file(files: Seq<FilesetInput>, i: int, cap: usize, plan: Sampling) -> Option<
    Tree,
> {
    file_tree(files[i].kind, files[i].bytes@, cap, plan)
}

/// File `i` is the first that cannot be read.
pub open spec fn first_unreadable(files: Seq<FilesetInput>, cap: usize, plan: Sampling, i: int) -> bool {
    &&& 0 <= i < files.len()
    &&& tree_of_file(files, i, cap, plan) is None
    &&& forall|j: int| 0 <= j < i ==> (#[trigger] tree_of_file(files, j, cap, plan)) is Some
}

/// Every file can be read.
pub open spec fn all_readable(files: Seq<FilesetInput>, cap: usize, plan: Sampling) -> bool {
    forall|i: int| 0 <= i < files.len() ==> (#[trigger] tree_of_file(files, i, cap, plan)) is Some
}

/// The tree of a fileset: an object that holds the tree of each file under
/// its name.
pub open spec fn fileset_tree(files: Seq<FilesetInput>, cap: usize, plan: Sampling) -> Tree {
    object_tree(
        Seq::new(files.len(), |i: int| files[i].name@),
        Seq::new(files.len(), |i: int| tree_of_file(files, i, cap, plan)->0),
    )
}

/// The tree of a sequence of files, where each of them can be read.
pub open spec fn files_tree(files: Seq<FilesetInput>, cap: usize, plan: Sampling) -> Option<Tree> {
    if all_readable(files, cap, plan) {
        Some(fileset_tree(files, cap, plan))
    } else {
        None
    }
}

/// The error names the first of the files that cannot be read, and says why
/// it cannot.
pub open spec fn files_explain(e: HeadsonError, files: Seq<FilesetInput>, cap: usize, plan: Sampling) -> bool {
    exists|i: int| #[trigger]
        first_unreadable(files, cap, plan, i) && e == (HeadsonError::InputFailed {
            input: files[i].name,
            failure: file_failure(files[i].kind, files[i].bytes@),
        })
}

/// The tree of an input, where it can be read.
pub open spec fn input_tree(input: InputKind, cap: usize, plan: Sampling) -> Option<Tree> {
    match input {
        InputKind::Fileset(files) => files_tree(files@, cap, plan),
        _ => file_tree(kind_of(input), bytes_of(input), cap, plan),
    }
}

/// The error says why the input cannot be read: for a fileset, why its first
/// unreadable file cannot.
pub open spec fn explains(e: HeadsonError, input: InputKind, cap: usize, plan: Sampling) -> bool {
    match input {
        InputKind::Fileset(files) => files_explain(e, files@, cap, plan),
        _ => e == HeadsonError::IngestFailed(file_failure(kind_of(input), bytes_of(input))),
    }
}

/// The kinds of the files of a fileset.
pub open spec fn kinds_of(input: InputKind) -> Seq<FilesetInputKind> {
    match input {
        InputKind::Fileset(files) => Seq::new(files@.len(), |i: int| files@[i].kind),
        _ => Seq::empty(),
    }
}

/// Read a fileset into one arena whose root holds the tree of each file
/// under its name.
fn ingest_fileset(files: Vec<FilesetInput>, cfg: &PriorityConfig) -> (r: Result<
    JsonTreeArena,
    HeadsonError,
>)
    ensures
        match r {
            Ok(arena) => {
                &&& arena.wf()
                &&& arena.rooted()
                &&& arena.compact()
                &&& arena.is_fileset
                &&& all_readable(files@, cfg.array_max_items, sampling_of(cfg))
                &&& arena.tree_at(arena.root_id as int) == fileset_tree(
                    files@,
                    cfg.array_max_items,
                    sampling_of(cfg),
                )
                &&& arena.fileset_kinds@ == Seq::new(files@.len(), |i: int| files@[i].kind)
            },
            Err(e) => files_explain(e, files@, cfg.array_max_items, sampling_of(cfg)),
        },
{
    let ghost cap = cfg.array_max_items;
    let plan = sampling_for(cfg);
    let mut b = YamlArenaBuilder::new(cfg.array_max_items);
    let mut keys: Vec<String> = Vec::with_capacity(files.len());
    let mut children: Vec<usize> = Vec::with_capacity(files.len());
    let mut kinds: Vec<FilesetInputKind> = Vec::with_capacity(files.len());
    let mut i: usize = 0;
    proof {
        lemma_row_begins(&b.arena);
    }
    while i < files.len()
        invariant
            b.arena.wf(),
            in_a_row(&b.arena, children@, 0),
            b.array_cap == cap,
            cap == cfg.array_max_items,
            plan == sampling_of(cfg),
            !b.arena.is_fileset,
            i <= files@.len(),
            keys@.len() == i,
            children@.len() == i,
            kinds@ == Seq::new(i as nat, |j: int| files@[j].kind),
            forall|j: int| 0 <= j < i ==> (#[trigger] keys@[j])@ == files@[j].name@,
            forall|j: int|
                0 <= j < i ==> #[trigger] children@[j] < b.arena.nodes@.len() && tree_of_file(
                    files@,
                    j,
                    cap,
                    plan,
                ) == Some(b.arena.tree_at(children@[j] as int)),
        decreases files@.len() - i,
    {
        let ghost mid = b.arena;
        let key = files[i].name.clone();
        let bytes = files[i].bytes.clone();
        let kind = files[i].kind;
        assert(bytes@ == files@[i as int].bytes@);
        let child_id = match build_file(&mut b, kind, bytes, plan) {
            Ok(id) => id,
            Err(unnamed) => {
                let e = unnamed.with_input(&files[i].name);
                proof {
                    assert forall|j: int| 0 <= j < i implies (#[trigger] tree_of_file(
                        files@,
                        j,
                        cap,
                        plan,
                    )) is Some by {
                        assert(children@[j] < mid.nodes@.len());
                    }
                    assert(first_unreadable(files@, cap, plan, i as int));
                }
                return Err(e);
            },
        };
        proof {
            assert forall|j: int| 0 <= j < i implies tree_of_file(files@, j, cap, plan) == Some(
                b.arena.tree_at(#[trigger] children@[j] as int),
            ) by {
                lemma_extends_keeps_tree(&b.arena, &mid, children@[j] as int);
            }
            lemma_row_grows(&b.arena, &mid, children@, child_id, 0);
        }
        keys.push(key);
        children.push(child_id);
        kinds.push(kind);
        assert(kinds@ =~= Seq::new((i + 1) as nat, |j: int| files@[j].kind));
        i += 1;
    }
    let ghost before = b.arena;
    let ghost ids = children@;
    let ghost names = keys@;
    let root_id = b.push_object_root(keys, children);
    let mut arena = b.finish();
    let ghost built = arena;
    arena.root_id = root_id;
    arena.is_fileset = true;
    arena.fileset_kinds = kinds;
    proof {
        let n = files@.len();
        assert(arena.extends(&built));
        lemma_extends_keeps_wf(&arena, &built);
        lemma_extends_keeps_tree(&arena, &built, root_id as int);
        lemma_extends_keeps_layout(&arena, &built, root_id as int, 0);
        assert(at_most(names.len(), ids.len() as usize) == n);
        assert(texts_upto(names, n) =~= fileset_tree(files@, cap, plan).keys);
        assert(trees_of(&before, ids, n) =~= fileset_tree(files@, cap, plan).items);
        assert forall|j: int| 0 <= j < n implies (#[trigger] tree_of_file(files@, j, cap, plan))
            is Some by {
            assert(ids[j] < before.nodes@.len());
        }
    }
    Ok(arena)
}

/// Read an input into an arena. A single input is read as its kind says; a
/// fileset becomes an object that holds the tree of each file under its
/// name. An input or a file that cannot be read fails the whole. The arena
/// holds the nodes of the tree and no others.
pub fn ingest_into_arena(input: InputKind, cfg: &PriorityConfig) -> (r: Result<
    JsonTreeArena,
    HeadsonError,
>)
    ensures
        match r {
            Ok(arena) => {
                &&& arena.wf()
                &&& arena.rooted()
                &&& arena.compact()
                &&& arena.is_fileset == (input is Fileset)
                &&& input_tree(input, cfg.array_max_items, sampling_of(cfg)) == Some(
                    arena.tree_at(arena.root_id as int),
                )
                &&& arena.fileset_kinds@ == kinds_of(input)
            },
            Err(e) => input_tree(input, cfg.array_max_items, sampling_of(cfg)) is None && explains(
                e,
                input,
                cfg.array_max_items,
                sampling_of(cfg),
            ),
        },
{
    let plan = sampling_for(cfg);
    let (kind, bytes) = match input {
        InputKind::Fileset(files) => {
            return ingest_fileset(files, cfg);
        },
        InputKind::Json(bytes) => (FilesetInputKind::Json, bytes),
        InputKind::Yaml(bytes) => (FilesetInputKind::Yaml, bytes),
        InputKind::Text { bytes, mode } => (
            FilesetInputKind::Text {
                atomic_lines: match mode {
                    TextMode::CodeLike => true,
                    TextMode::Plain => false,
                },
            },
            bytes,
        ),
    };
    let mut b = YamlArenaBuilder::new(cfg.array_max_items);
    let root_id = match build_file(&mut b, kind, bytes, plan) {
        Ok(id) => id,
        Err(e) => {
            return Err(e);
        },
    };
    let mut arena = b.finish();
    let ghost built = arena;
    arena.root_id = root_id;
    proof {
        assert(arena.extends(&built));
        lemma_extends_keeps_wf(&arena, &built);
        lemma_extends_keeps_tree(&arena, &built, root_id as int);
        lemma_extends_keeps_layout(&arena, &built, root_id as int, 0);
        assert(arena.fileset_kinds@ =~= kinds_of(input));
    }
    Ok(arena)
}

/// A file stays under a strong search that shows matching files only: when
/// something in it matches, or when it cannot be read, so that the failure
/// comes to light.
pub open spec fn keeps_file(file: FilesetInput, re: Regex, cap: usize, plan: Sampling) -> bool {
    match file_tree(file.kind, file.bytes@, cap, plan) {
        Some(t) => tree_has_match(t, re),
        None => true,
    }
}

/// The predicate "the file stays".
pub open spec fn keeper(re: Regex, cap: usize, plan: Sampling) -> spec_fn(FilesetInput) -> bool {
    |file: FilesetInput| keeps_file(file, re, cap, plan)
}

/// Whether a file stays under a strong search.
pub fn file_stays(file: &FilesetInput, re: &Regex, cfg: &PriorityConfig) -> (stays: bool)
    ensures
        stays == keeps_file(*file, *re, cfg.array_max_items, sampling_of(cfg)),
{
    let plan = sampling_for(cfg);
    let mut b = YamlArenaBuilder::new(cfg.array_max_items);
    match build_file(&mut b, file.kind, file.bytes.clone(), plan) {
        Ok(id) => arena_has_match(&b.arena, id, re),
        Err(_) => true,
    }
}

/// Drop the files in which nothing matches. The name of a file does not
/// count.
pub fn keep_matching_files(files: Vec<FilesetInput>, re: &Regex, cfg: &PriorityConfig) -> (kept: Vec<
    FilesetInput,
>)
    ensures
        kept@ == files@.filter(keeper(*re, cfg.array_max_items, sampling_of(cfg))),
{
    let ghost keep = keeper(*re, cfg.array_max_items, sampling_of(cfg));
    let mut kept: Vec<FilesetInput> = Vec::new();
    proof {
        reveal(Seq::filter);
        assert(files@.take(0) =~= Seq::<FilesetInput>::empty());
    }
    for file in it: files
        invariant
            it.seq() == files@,
            keep == keeper(*re, cfg.array_max_items, sampling_of(cfg)),
            kept@ == files@.take(it.index() as int).filter(keep),
    {
        proof {
            assert(files@.take(it.index() + 1) =~= files@.take(it.index() as int).push(file));
            files@.take(it.index() as int).lemma_filter_push(file, keep);
        }
        if file_stays(&file, re, cfg) {
            kept.push(file);
        }
    }
    assert(files@.take(files@.len() as int) =~= files@);
    kept
}

/// A file in which nothing matches leaves no trace in what stays, whatever
/// its name: the files that stay are the same with it and without it.
pub proof fn lemma_unmatched_file_is_dropped(
    files: Seq<FilesetInput>,
    extra: FilesetInput,
    re: Regex,
    cap: usize,
    plan: Sampling,
)
    requires
        file_tree(extra.kind, extra.bytes@, cap, plan) matches Some(t) && !tree_has_match(t, re),
    ensures
        files.push(extra).filter(keeper(re, cap, plan)) == files.filter(keeper(re, cap, plan)),
{
    files.lemma_filter_push(extra, keeper(re, cap, plan));
}

/// Whether something matches in a file of the fileset at the root of the
/// arena. The names of the files do not count.
pub fn any_file_matches(arena: &JsonTreeArena, re: &Regex) -> (found: bool)
    requires
        arena.wf(),
        arena.rooted(),
    ensures
        found == exists|j: int|
            0 <= j < arena.tree_at(arena.root_id as int).items.len() && tree_has_match(
                #[trigger] arena.tree_at(arena.root_id as int).items[j],
                *re,
            ),
{
    let root = arena.root_id;
    let n = &arena.nodes[root];
    let ghost t = arena.tree_at(root as int);
    assert(arena.node_wf(root as int));
    proof {
        crate::grep::lemma_items_are_children(arena, root as int, n.children_len as nat);
    }
    let n_children = arena.children.len();
    let mut j: usize = 0;
    while j < n.children_len
        invariant
            n_children == arena.children@.len(),
            *n == arena.nodes@[root as int],
            arena.wf(),
            arena.node_wf(root as int),
            t == arena.tree_at(root as int),
            root == arena.root_id,
            root < arena.nodes@.len(),
            j <= n.children_len,
            t.items.len() == n.children_len,
            forall|k: int|
                0 <= k < n.children_len ==> #[trigger] t.items[k] == arena.tree_at(
                    arena.children@[n.children_start + k] as int,
                ),
            forall|k: int| 0 <= k < j ==> !tree_has_match(#[trigger] t.items[k], *re),
        decreases n.children_len - j,
    {
        let c = arena.children[n.children_start + j];
        if arena_has_match(arena, c, re) {
            assert(tree_has_match(t.items[j as int], *re));
            return true;
        }
        j += 1;
    }
    false
}

} // verus!
