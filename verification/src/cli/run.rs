use crate::cli::args::{fault_of, get_render_config_from, json_template_for_style};
use crate::cli::args::render_config_of;
use crate::cli::args::{map_json_template_for_style, validate, Cli, InputFormat, OutputFormat};
use crate::cli::args::Terminal;
use crate::cli::budget::{build_priority_config, compute_effective, render_config_for_budgets};
use crate::error::HeadsonError;
use crate::grep::{compile_pattern, compiled, GrepConfig, GrepShow};
use crate::ingest::fileset::{FilesetInput, FilesetInputKind};
use crate::serialization::types::{OutputTemplate, RenderConfig, Style};
use crate::utils::extensions::{code_like, is_code_like_name};
use crate::utils::text::{ascii_lowered, ends_with, has_suffix, to_ascii_lowercase};
use crate::{summarize, summarized, InputKind, Summary, TextMode};
use content_inspector::{inspect, ContentType};
use vstd::prelude::*;
use vstd::slice::slice_subrange;

verus! {

/// A named input with its bytes.
pub type InputEntry = (String, Vec<u8>);

pub type InputEntries = Vec<InputEntry>;

/// What the caller should be told beside the output.
pub type IgnoreNotices = Vec<String>;

/// What was found at a path that was given as input.
pub struct PathInput {
    /// The path as it is shown.
    pub display: String,
    /// The path is a directory.
    pub is_dir: bool,
    /// The bytes of the file, where the path is one.
    pub bytes: Vec<u8>,
}

/// As many bytes of a file as are looked at to tell text from binary data.
pub const SNIFF_CHUNK: usize = 65536;

/// As many bytes as are searched for a zero byte.
pub const ZERO_SCAN: usize = 1024;

/// The bytes begin with the given ones.
pub open spec fn begins_with(bytes: Seq<u8>, mark: Seq<u8>) -> bool {
    bytes.len() >= mark.len() && bytes.subrange(0, mark.len() as int) == mark
}

/// The bytes begin with a byte-order mark of UTF-8, UTF-16 or UTF-32, which
/// makes them text whatever follows.
pub open spec fn has_byte_order_mark(bytes: Seq<u8>) -> bool {
    ||| begins_with(bytes, seq![0xEFu8, 0xBBu8, 0xBFu8])
    ||| begins_with(bytes, seq![0x00u8, 0x00u8, 0xFEu8, 0xFFu8])
    ||| begins_with(bytes, seq![0xFFu8, 0xFEu8])
    ||| begins_with(bytes, seq![0xFEu8, 0xFFu8])
}

/// The bytes begin as a PDF or a PNG file does.
pub open spec fn has_magic_number(bytes: Seq<u8>) -> bool {
    ||| begins_with(bytes, seq![0x25u8, 0x50u8, 0x44u8, 0x46u8])
    ||| begins_with(bytes, seq![0x89u8, 0x50u8, 0x4Eu8, 0x47u8])
}

/// Whether the start of a file looks like binary data: it has no byte-order
/// mark, and a zero byte stands among its first 1024 bytes or it begins as a
/// PDF or a PNG file does.
pub open spec fn looks_binary(chunk: Seq<u8>) -> bool {
    &&& !has_byte_order_mark(chunk)
    &&& has_magic_number(chunk) || exists|i: int|
        0 <= i < chunk.len() && i < ZERO_SCAN && #[trigger] chunk[i] == 0
}

/// `content_inspector::inspect` guesses the type of content from its first
/// bytes; the wrapper tells whether the guess is binary data. The function
/// reports the encoding of a leading byte-order mark where there is one;
/// else binary data where a zero byte stands among the first 1024 bytes or
/// the bytes begin with `%PDF` or with `\x89PNG`; and else UTF-8 text.
#[verifier::external_body]
fn inspect_is_binary(chunk: &[u8]) -> (binary: bool)
    ensures
        binary == looks_binary(chunk@),
{
    match inspect(chunk) {
        ContentType::BINARY => true,
        _ => false,
    }
}

/// The part of a file that is looked at.
pub open spec fn sniffed(bytes: Seq<u8>) -> Seq<u8> {
    if bytes.len() > SNIFF_CHUNK {
        bytes.subrange(0, SNIFF_CHUNK as int)
    } else {
        bytes
    }
}

/// A file is binary when it is not empty and its start looks like binary
/// data.
pub open spec fn is_binary(bytes: Seq<u8>) -> bool {
    bytes.len() > 0 && looks_binary(sniffed(bytes))
}

/// Whether a file is binary.
pub fn sniff_binary(bytes: &Vec<u8>) -> (binary: bool)
    ensures
        binary == is_binary(bytes@),
{
    let n = if bytes.len() > SNIFF_CHUNK {
        SNIFF_CHUNK
    } else {
        bytes.len()
    };
    if n == 0 {
        return false;
    }
    let chunk = slice_subrange(bytes.as_slice(), 0, n);
    assert(chunk@ =~= sniffed(bytes@));
    inspect_is_binary(chunk)
}

/// A path is summarized: it is a file that is not binary.
pub open spec fn is_input(path: PathInput) -> bool {
    !path.is_dir && !is_binary(path.bytes@)
}

/// The notice for a path that is not summarized.
pub open spec fn ignored_notice(path: PathInput) -> Seq<char> {
    if path.is_dir {
        "Ignored directory: "@ + path.display@
    } else {
        "Ignored binary file: "@ + path.display@
    }
}

/// The inputs among the first `n` paths, in order.
pub open spec fn entries_upto(paths: Seq<PathInput>, n: int) -> Seq<InputEntry>
    decreases n,
{
    if n <= 0 {
        Seq::empty()
    } else {
        let rest = entries_upto(paths, n - 1);
        let p = paths[n - 1];
        if is_input(p) {
            rest.push((p.display, p.bytes))
        } else {
            rest
        }
    }
}

/// The inputs among the paths, in order.
pub open spec fn entries_of(paths: Seq<PathInput>) -> Seq<InputEntry> {
    entries_upto(paths, paths.len() as int)
}

/// The notices for the first `n` paths, in order.
pub open spec fn notices_upto(paths: Seq<PathInput>, n: int) -> Seq<Seq<char>>
    decreases n,
{
    if n <= 0 {
        Seq::empty()
    } else {
        let rest = notices_upto(paths, n - 1);
        let p = paths[n - 1];
        if is_input(p) {
            rest
        } else {
            rest.push(ignored_notice(p))
        }
    }
}

/// The texts of notices.
pub open spec fn notice_texts(notices: Seq<String>) -> Seq<Seq<char>> {
    Seq::new(notices.len(), |i: int| notices[i]@)
}

/// Sort the paths into inputs and notices: a directory and a binary file
/// are ignored with a notice, every other file is an input.
pub fn ingest_paths(paths: Vec<PathInput>) -> (r: (InputEntries, IgnoreNotices))
    ensures
        r.0@ == entries_of(paths@),
        notice_texts(r.1@) == notices_upto(paths@, paths@.len() as int),
{
    let mut out: InputEntries = Vec::with_capacity(paths.len());
    let mut ignored: IgnoreNotices = Vec::new();
    assert(out@ =~= entries_upto(paths@, 0));
    assert(notice_texts(ignored@) =~= notices_upto(paths@, 0));
    for path in it: paths
        invariant
            it.seq() == paths@,
            out@ == entries_upto(paths@, it.index() as int),
            notice_texts(ignored@) == notices_upto(paths@, it.index() as int),
    {
        let ghost before_out = out@;
        let ghost before_ignored = notice_texts(ignored@);
        if path.is_dir {
            let mut notice = "Ignored directory: ".to_owned();
            notice.push_str(path.display.as_str());
            ignored.push(notice);
            assert(notice_texts(ignored@) =~= before_ignored.push(ignored_notice(path)));
        } else if sniff_binary(&path.bytes) {
            let mut notice = "Ignored binary file: ".to_owned();
            notice.push_str(path.display.as_str());
            ignored.push(notice);
            assert(notice_texts(ignored@) =~= before_ignored.push(ignored_notice(path)));
        } else {
            let PathInput { display, is_dir: _, bytes } = path;
            out.push((display, bytes));
            assert(out@ =~= before_out.push((path.display, path.bytes)));
        }
    }
    (out, ignored)
}

/// A name, whatever its case, ends in `.yaml` or `.yml`.
pub open spec fn yaml_name(lower: Seq<char>) -> bool {
    has_suffix(lower, ".yaml"@) || has_suffix(lower, ".yml"@)
}

/// The kind that a file of a fileset is read as, by its name: YAML and JSON
/// by their extensions, everything else as text, whose lines are atomic
/// where the name is that of a code file.
pub open spec fn kind_for_name(name: Seq<char>) -> FilesetInputKind {
    let lower = ascii_lowered(name);
    if yaml_name(lower) {
        FilesetInputKind::Yaml
    } else if has_suffix(lower, ".json"@) {
        FilesetInputKind::Json
    } else {
        FilesetInputKind::Text { atomic_lines: code_like(lower) }
    }
}

pub fn detect_fileset_input_kind(name: &str) -> (kind: FilesetInputKind)
    ensures
        kind == kind_for_name(name@),
{
    let lowered = to_ascii_lowercase(name);
    let lower = lowered.as_str();
    if ends_with(lower, ".yaml") || ends_with(lower, ".yml") {
        FilesetInputKind::Yaml
    } else if ends_with(lower, ".json") {
        FilesetInputKind::Json
    } else {
        let atomic = is_code_like_name(lower);
        FilesetInputKind::Text { atomic_lines: atomic }
    }
}

/// The template for standard input: JSON-like by style unless YAML, text or
/// code is asked for.
pub open spec fn template_for_stdin(fmt: OutputFormat, style: Style) -> OutputTemplate {
    match fmt {
        OutputFormat::Auto | OutputFormat::Json => json_template_for_style(style),
        OutputFormat::Yaml => OutputTemplate::Yaml,
        OutputFormat::Text => OutputTemplate::Text,
        OutputFormat::Code => OutputTemplate::Code,
    }
}

pub fn resolve_effective_template_for_stdin(fmt: OutputFormat, style: Style) -> (template:
    OutputTemplate)
    ensures
        template == template_for_stdin(fmt, style),
{
    match fmt {
        OutputFormat::Auto | OutputFormat::Json => map_json_template_for_style(style),
        OutputFormat::Yaml => OutputTemplate::Yaml,
        OutputFormat::Text => OutputTemplate::Text,
        OutputFormat::Code => OutputTemplate::Code,
    }
}

/// The template for a single file: the one asked for, and in automatic mode
/// YAML or JSON-like by the extension of the name, else text.
pub open spec fn template_for_single(fmt: OutputFormat, style: Style, lower_name: Seq<char>) -> OutputTemplate {
    match fmt {
        OutputFormat::Json => json_template_for_style(style),
        OutputFormat::Yaml => OutputTemplate::Yaml,
        OutputFormat::Text => OutputTemplate::Text,
        OutputFormat::Code => OutputTemplate::Code,
        OutputFormat::Auto => if yaml_name(lower_name) {
            OutputTemplate::Yaml
        } else if has_suffix(lower_name, ".json"@) {
            json_template_for_style(style)
        } else {
            OutputTemplate::Text
        },
    }
}

pub fn resolve_effective_template_for_single(fmt: OutputFormat, style: Style, lower_name: &str) -> (template:
    OutputTemplate)
    ensures
        template == template_for_single(fmt, style, lower_name@),
{
    match fmt {
        OutputFormat::Json => map_json_template_for_style(style),
        OutputFormat::Yaml => OutputTemplate::Yaml,
        OutputFormat::Text => OutputTemplate::Text,
        OutputFormat::Code => OutputTemplate::Code,
        OutputFormat::Auto => {
            if ends_with(lower_name, ".yaml") || ends_with(lower_name, ".yml") {
                OutputTemplate::Yaml
            } else if ends_with(lower_name, ".json") {
                map_json_template_for_style(style)
            } else {
                OutputTemplate::Text
            }
        },
    }
}

/// The pattern that the arguments search for, and whether weakly.
pub open spec fn pattern_of(cli: &Cli) -> Option<(Seq<char>, bool)> {
    match cli.grep {
        Some(p) => Some((p@, false)),
        None => match cli.weak_grep {
            Some(p) => Some((p@, true)),
            None => None,
        },
    }
}

/// The pattern of the arguments does not compile.
pub open spec fn pattern_fails(cli: &Cli) -> bool {
    match pattern_of(cli) {
        Some((pattern, _)) => compiled(pattern) is None,
        None => false,
    }
}

/// The search is the one that the arguments ask for: the compiled pattern,
/// weakly or not, and which files it shows, the matching ones by default.
pub open spec fn grep_of(cli: &Cli, grep: GrepConfig) -> bool {
    &&& grep.show == match cli.grep_show {
        Some(show) => show,
        None => GrepShow::Matching,
    }
    &&& match pattern_of(cli) {
        Some((pattern, weak)) => grep.regex == compiled(pattern) && grep.regex is Some && grep.weak
            == weak,
        None => grep.regex is None && !grep.weak,
    }
}

/// The search that the arguments ask for.
pub fn grep_config_from(cli: &Cli) -> (r: Result<GrepConfig, HeadsonError>)
    ensures
        match r {
            Ok(grep) => grep_of(cli, grep),
            Err(e) => e == HeadsonError::InvalidPattern && pattern_fails(cli),
        },
{
    let show = match cli.grep_show {
        Some(show) => show,
        None => GrepShow::Matching,
    };
    match &cli.grep {
        Some(pattern) => {
            match compile_pattern(pattern.as_str()) {
                Ok(re) => Ok(GrepConfig { regex: Some(re), weak: false, show }),
                Err(e) => Err(e),
            }
        },
        None => match &cli.weak_grep {
            Some(pattern) => {
                match compile_pattern(pattern.as_str()) {
                    Ok(re) => Ok(GrepConfig { regex: Some(re), weak: true, show }),
                    Err(e) => Err(e),
                }
            },
            None => Ok(GrepConfig { regex: None, weak: false, show }),
        },
    }
}

/// The input that standard input is read as: what is asked for, and JSON by
/// default; text as code where code is the format of the output.
pub open spec fn stdin_input(cli: &Cli, bytes: Vec<u8>) -> InputKind {
    match cli.input_format {
        Some(InputFormat::Yaml) => InputKind::Yaml(bytes),
        Some(InputFormat::Text) => InputKind::Text {
            bytes,
            mode: if cli.format == OutputFormat::Code {
                TextMode::CodeLike
            } else {
                TextMode::Plain
            },
        },
        _ => InputKind::Json(bytes),
    }
}

/// Summarize what was read from standard input.
pub fn run_from_stdin(
    cli: &Cli,
    render_cfg: &RenderConfig,
    grep: &GrepConfig,
    input_bytes: Vec<u8>,
) -> (r: Result<Summary, HeadsonError>)
    ensures
        summarized(
            r,
            stdin_input(cli, input_bytes),
            &under_budgets(
                cli,
                RenderConfig {
                    template: template_for_stdin(cli.format, render_cfg.style),
                    ..*render_cfg
                },
            ),
            &build_priority_config_spec(cli, 1),
            grep,
            crate::cli::budget::budgets_of(cli, 1),
        ),
{
    let input_count: usize = 1;
    let effective = compute_effective(cli, input_count);
    let prio = build_priority_config(cli, &effective);
    let mut cfg = render_cfg.clone();
    cfg.template = resolve_effective_template_for_stdin(cli.format, cfg.style);
    cfg = render_config_for_budgets(cfg, &effective);
    let budgets = effective.budgets;
    let input = match cli.input_format {
        Some(InputFormat::Yaml) => InputKind::Yaml(input_bytes),
        Some(InputFormat::Text) => InputKind::Text {
            bytes: input_bytes,
            mode: match cli.format {
                OutputFormat::Code => TextMode::CodeLike,
                _ => TextMode::Plain,
            },
        },
        _ => InputKind::Json(input_bytes),
    };
    summarize(input, &cfg, &prio, grep, budgets)
}

/// A render configuration under the budgets of the arguments: where only
/// lines are capped, the start of every string is free.
pub open spec fn under_budgets(cli: &Cli, cfg: RenderConfig) -> RenderConfig {
    RenderConfig {
        string_free_prefix_graphemes: if crate::cli::budget::lines_only(cli) {
            Some(crate::cli::budget::MAX_STRING_GRAPHEMES)
        } else {
            cfg.string_free_prefix_graphemes
        },
        ..cfg
    }
}

/// The knobs of ingest and ordering for the arguments and a number of
/// inputs.
pub open spec fn build_priority_config_spec(cli: &Cli, count: usize) -> crate::order::PriorityConfig {
    crate::order::PriorityConfig {
        max_string_graphemes: crate::cli::budget::MAX_STRING_GRAPHEMES,
        array_max_items: crate::cli::budget::half_at_least_one(
            crate::cli::budget::priority_basis(cli, count),
        ),
        prefer_tail_arrays: cli.tail,
        array_bias: crate::order::types::ArrayBias::HeadMidTail,
        array_sampler: crate::cli::budget::sampler_of(cli),
        line_budget_only: crate::cli::budget::lines_only(cli),
    }
}

/// The number of inputs that budgets are scaled by: those that are
/// summarized, and at least one.
pub open spec fn scaled_count(included: nat) -> usize {
    if included >= 1 {
        included as usize
    } else {
        1
    }
}

/// The input that a single file is read as: in automatic mode what is asked
/// for, else what the extension of its name says, else text; under a format,
/// what is asked for, else the format.
pub open spec fn single_input_format(cli: &Cli, lower_name: Seq<char>) -> InputFormat {
    match cli.input_format {
        Some(fmt) => fmt,
        None => match cli.format {
            OutputFormat::Auto => if yaml_name(lower_name) {
                InputFormat::Yaml
            } else if has_suffix(lower_name, ".json"@) {
                InputFormat::Json
            } else {
                InputFormat::Text
            },
            OutputFormat::Json => InputFormat::Json,
            OutputFormat::Yaml => InputFormat::Yaml,
            OutputFormat::Text | OutputFormat::Code => InputFormat::Text,
        },
    }
}

/// The summary of a run, without the notices for what was ignored.
pub open spec fn outcome_of(r: Result<(Summary, IgnoreNotices), HeadsonError>) -> Result<
    Summary,
    HeadsonError,
> {
    match r {
        Ok((summary, _)) => Ok(summary),
        Err(e) => Err(e),
    }
}

/// The files of a fileset are the entries, each read as its name says.
pub open spec fn files_of_entries(files: Seq<FilesetInput>, entries: Seq<InputEntry>) -> bool {
    &&& files.len() == entries.len()
    &&& forall|i: int|
        0 <= i < files.len() ==> (#[trigger] files[i]).name == entries[i].0 && files[i].bytes
            == entries[i].1 && files[i].kind == kind_for_name(entries[i].0@)
}

/// The input that a single file is: read as JSON, as YAML or as text, and as
/// code where the format is code, or is automatic and the name is that of a
/// code file.
pub open spec fn single_input(cli: &Cli, entry: InputEntry) -> InputKind {
    let lower = ascii_lowered(entry.0@);
    match single_input_format(cli, lower) {
        InputFormat::Json => InputKind::Json(entry.1),
        InputFormat::Yaml => InputKind::Yaml(entry.1),
        InputFormat::Text => InputKind::Text {
            bytes: entry.1,
            mode: if reads_as_code(cli, lower) {
                TextMode::CodeLike
            } else {
                TextMode::Plain
            },
        },
    }
}

/// A single text file is read as code.
pub open spec fn reads_as_code(cli: &Cli, lower_name: Seq<char>) -> bool {
    match cli.format {
        OutputFormat::Auto => code_like(lower_name),
        OutputFormat::Code => true,
        _ => false,
    }
}

/// The render configuration for a single file: its template by format, style
/// and name, and the code template where it is read as code.
pub open spec fn single_config(cli: &Cli, render_cfg: RenderConfig, entry: InputEntry) -> RenderConfig {
    let lower = ascii_lowered(entry.0@);
    let as_code = single_input_format(cli, lower) == InputFormat::Text && reads_as_code(
        cli,
        lower,
    );
    under_budgets(
        cli,
        RenderConfig {
            template: if as_code {
                OutputTemplate::Code
            } else {
                template_for_single(cli.format, render_cfg.style, lower)
            },
            primary_source_name: Some(entry.0),
            ..render_cfg
        },
    )
}

/// What summarizing the entries gives: for several paths the summary of the
/// fileset of the entries under the automatic template; for a single entry
/// its summary; for none nothing.
pub open spec fn summarized_paths(
    r: Result<Summary, HeadsonError>,
    cli: &Cli,
    render_cfg: &RenderConfig,
    grep: &GrepConfig,
    entries: Seq<InputEntry>,
) -> bool {
    let count = scaled_count(entries.len());
    let prio = build_priority_config_spec(cli, count);
    let budgets = crate::cli::budget::budgets_of(cli, count);
    if cli.inputs@.len() > 1 {
        exists|files: Vec<FilesetInput>|
            files_of_entries(files@, entries) && #[trigger] summarized(
                r,
                InputKind::Fileset(files),
                &under_budgets(cli, RenderConfig { template: OutputTemplate::Auto, ..*render_cfg }),
                &prio,
                grep,
                budgets,
            )
    } else if entries.len() == 0 {
        r matches Ok(summary) && summary.text@.len() == 0 && summary.notices@.len() == 0
            && summary.trace is None
    } else {
        summarized(
            r,
            single_input(cli, entries[0]),
            &single_config(cli, *render_cfg, entries[0]),
            &prio,
            grep,
            budgets,
        )
    }
}

/// Summarize the entries as a fileset, each file read as its name says,
/// under the automatic template.
pub fn summarize_fileset(
    cli: &Cli,
    render_cfg: &RenderConfig,
    grep: &GrepConfig,
    entries: InputEntries,
) -> (r: Result<Summary, HeadsonError>)
    ensures
        exists|files: Vec<FilesetInput>|
            files_of_entries(files@, entries@) && #[trigger] summarized(
                r,
                InputKind::Fileset(files),
                &under_budgets(cli, RenderConfig { template: OutputTemplate::Auto, ..*render_cfg }),
                &build_priority_config_spec(cli, scaled_count(entries@.len())),
                grep,
                crate::cli::budget::budgets_of(cli, scaled_count(entries@.len())),
            ),
{
    let included = entries.len();
    let input_count = if included >= 1 {
        included
    } else {
        1
    };
    let effective = compute_effective(cli, input_count);
    let prio = build_priority_config(cli, &effective);
    let mut cfg = render_cfg.clone();
    // Filesets always render with per-file auto templates.
    cfg.template = OutputTemplate::Auto;
    cfg = render_config_for_budgets(cfg, &effective);
    let budgets = effective.budgets;
    let ghost all = entries@;
    let mut files: Vec<FilesetInput> = Vec::with_capacity(entries.len());
    for entry in it: entries
        invariant
            it.seq() == all,
            files@.len() == it.index(),
            forall|i: int|
                0 <= i < files@.len() ==> (#[trigger] files@[i]).name == all[i].0 && files@[i].bytes
                    == all[i].1 && files@[i].kind == kind_for_name(all[i].0@),
    {
        let (name, bytes) = entry;
        let kind = detect_fileset_input_kind(name.as_str());
        files.push(FilesetInput { name, bytes, kind });
    }
    assert(files_of_entries(files@, all));
    summarize(InputKind::Fileset(files), &cfg, &prio, grep, budgets)
}

/// The format that a single file is read as.
pub fn choose_input_format(cli: &Cli, lower: &str) -> (fmt: InputFormat)
    ensures
        fmt == single_input_format(cli, lower@),
{
    match cli.input_format {
        Some(fmt) => fmt,
        None => match cli.format {
            OutputFormat::Auto => {
                if ends_with(lower, ".yaml") || ends_with(lower, ".yml") {
                    InputFormat::Yaml
                } else if ends_with(lower, ".json") {
                    InputFormat::Json
                } else {
                    InputFormat::Text
                }
            },
            OutputFormat::Json => InputFormat::Json,
            OutputFormat::Yaml => InputFormat::Yaml,
            OutputFormat::Text | OutputFormat::Code => InputFormat::Text,
        },
    }
}

/// Whether a single text file is read as code.
pub fn choose_code(cli: &Cli, lower: &str) -> (code: bool)
    ensures
        code == reads_as_code(cli, lower@),
{
    match cli.format {
        OutputFormat::Auto => is_code_like_name(lower),
        OutputFormat::Code => true,
        _ => false,
    }
}

/// The input and the render configuration of a single file.
pub fn plan_single(cli: &Cli, render_cfg: &RenderConfig, entry: InputEntry) -> (plan: (
    InputKind,
    RenderConfig,
))
    ensures
        plan.0 == single_input(cli, entry),
        plan.1 == (RenderConfig {
            template: if single_input_format(cli, ascii_lowered(entry.0@)) == InputFormat::Text
                && reads_as_code(cli, ascii_lowered(entry.0@)) {
                OutputTemplate::Code
            } else {
                template_for_single(cli.format, render_cfg.style, ascii_lowered(entry.0@))
            },
            primary_source_name: Some(entry.0),
            ..*render_cfg
        }),
{
    let (name, bytes) = entry;
    // Single file: pick ingest and output template per CLI format+style.
    let lowered = to_ascii_lowercase(name.as_str());
    let lower = lowered.as_str();
    let chosen_input = choose_input_format(cli, lower);
    let code = choose_code(cli, lower);
    let as_code = match chosen_input {
        InputFormat::Text => code,
        _ => false,
    };
    let mut cfg = render_cfg.clone();
    cfg.template = if as_code {
        OutputTemplate::Code
    } else {
        resolve_effective_template_for_single(cli.format, cfg.style, lower)
    };
    cfg.primary_source_name = Some(name);
    let input = match chosen_input {
        InputFormat::Json => InputKind::Json(bytes),
        InputFormat::Yaml => InputKind::Yaml(bytes),
        InputFormat::Text => InputKind::Text {
            bytes,
            mode: if code {
                TextMode::CodeLike
            } else {
                TextMode::Plain
            },
        },
    };
    (input, cfg)
}

/// Summarize a single file, read and shown by its name and by what is asked
/// for. The budgets are scaled by `included`, the number of entries.
pub fn summarize_single(
    cli: &Cli,
    render_cfg: &RenderConfig,
    grep: &GrepConfig,
    entry: InputEntry,
    included: usize,
) -> (r: Result<Summary, HeadsonError>)
    ensures
        summarized(
            r,
            single_input(cli, entry),
            &single_config(cli, *render_cfg, entry),
            &build_priority_config_spec(cli, scaled_count(included as nat)),
            grep,
            crate::cli::budget::budgets_of(cli, scaled_count(included as nat)),
        ),
{
    let input_count = if included >= 1 {
        included
    } else {
        1
    };
    let effective = compute_effective(cli, input_count);
    let prio = build_priority_config(cli, &effective);
    let (input, cfg) = plan_single(cli, render_cfg, entry);
    let cfg = render_config_for_budgets(cfg, &effective);
    summarize(input, &cfg, &prio, grep, effective.budgets)
}

/// Summarize the files that were found at the paths. Several paths make a
/// fileset, which takes no format but the automatic one; a single file is
/// read and shown by its name and by what is asked for; nothing is shown
/// where no path is a file.
pub fn run_from_paths(
    cli: &Cli,
    render_cfg: &RenderConfig,
    grep: &GrepConfig,
    paths: Vec<PathInput>,
) -> (r: Result<(Summary, IgnoreNotices), HeadsonError>)
    ensures
        cli.inputs@.len() > 1 && cli.format != OutputFormat::Auto ==> r == Err::<
            (Summary, IgnoreNotices),
            HeadsonError,
        >(HeadsonError::FilesetFormatForbidden),
        r matches Ok((summary, ignored)) ==> notice_texts(ignored@) == notices_upto(
            paths@,
            paths@.len() as int,
        ),
        !(cli.inputs@.len() > 1 && cli.format != OutputFormat::Auto) ==> summarized_paths(
            outcome_of(r),
            cli,
            render_cfg,
            grep,
            entries_of(paths@),
        ),
{
    let (entries, ignored) = ingest_paths(paths);
    let included = entries.len();
    let out = if cli.inputs.len() > 1 {
        match cli.format {
            OutputFormat::Auto => {},
            _ => {
                return Err(HeadsonError::FilesetFormatForbidden);
            },
        }
        summarize_fileset(cli, render_cfg, grep, entries)
    } else if included == 0 {
        Ok(Summary { text: String::new(), notices: Vec::new(), trace: None })
    } else {
        let mut entries = entries;
        let first = entries.remove(0);
        summarize_single(cli, render_cfg, grep, first, included)
    };
    match out {
        Ok(summary) => Ok((summary, ignored)),
        Err(e) => Err(e),
    }
}

/// The summary is the one of the run: of standard input where no path is
/// given, else of the entries.
pub open spec fn planned(
    summary: Result<Summary, HeadsonError>,
    cli: &Cli,
    cfg: &RenderConfig,
    grep: &GrepConfig,
    stdin: Vec<u8>,
    entries: Seq<InputEntry>,
) -> bool {
    if cli.inputs@.len() == 0 {
        summarized(
            summary,
            stdin_input(cli, stdin),
            &under_budgets(
                cli,
                RenderConfig { template: template_for_stdin(cli.format, cfg.style), ..*cfg },
            ),
            &build_priority_config_spec(cli, 1),
            grep,
            crate::cli::budget::budgets_of(cli, 1),
        )
    } else {
        summarized_paths(summary, cli, cfg, grep, entries)
    }
}

/// The run hands on what the summary gave: its failure, or its text and,
/// after the notices for the paths that were ignored, its notices.
pub open spec fn passed_on(
    r: Result<(String, IgnoreNotices), HeadsonError>,
    summary: Result<Summary, HeadsonError>,
    cli: &Cli,
    paths: Seq<PathInput>,
) -> bool {
    match (r, summary) {
        (Ok((text, notices)), Ok(s)) => text == s.text && notice_texts(notices@) == (if cli.inputs@.len()
            == 0 {
            Seq::empty()
        } else {
            notices_upto(paths, paths.len() as int)
        }) + notice_texts(s.notices@) + (match s.trace {
            Some(t) => seq![t@],
            None => Seq::empty(),
        }),
        (Err(e), Err(f)) => e == f,
        _ => false,
    }
}

/// The notices of a run: those for what was ignored, those of the summary,
/// and at last the trace where there is one.
pub fn with_trace(ignored: IgnoreNotices, more: Vec<String>, trace: Option<String>) -> (notices:
    IgnoreNotices)
    ensures
        notice_texts(notices@) == notice_texts(ignored@) + notice_texts(more@) + (match trace {
            Some(t) => seq![t@],
            None => Seq::empty(),
        }),
{
    let ghost first = notice_texts(ignored@);
    let ghost second = notice_texts(more@);
    let mut notices = ignored;
    let mut more = more;
    notices.append(&mut more);
    assert(notice_texts(notices@) =~= first + second);
    match trace {
        Some(t) => {
            notices.push(t);
            assert(notice_texts(notices@) =~= first + second + seq![t@]);
        },
        None => {
            assert(notice_texts(notices@) =~= first + second + Seq::<Seq<char>>::empty());
        },
    }
    notices
}

/// Run the command: validate the arguments, compile the pattern of the search,
/// and summarize standard input where no path is given, else the files at
/// the paths. The notices name what was ignored, and say where a strong
/// search found nothing.
pub fn run(cli: &Cli, terminal: Terminal, stdin: Vec<u8>, paths: Vec<PathInput>) -> (r: Result<
    (String, IgnoreNotices),
    HeadsonError,
>)
    ensures
        fault_of(cli) matches Some(e) ==> r == Err::<(String, IgnoreNotices), HeadsonError>(e),
        fault_of(cli) is None && pattern_fails(cli) ==> r == Err::<
            (String, IgnoreNotices),
            HeadsonError,
        >(HeadsonError::InvalidPattern),
        fault_of(cli) is None && !pattern_fails(cli) && cli.inputs@.len() > 1 && cli.format
            != OutputFormat::Auto ==> r == Err::<(String, IgnoreNotices), HeadsonError>(
            HeadsonError::FilesetFormatForbidden,
        ),
        r is Ok ==> fault_of(cli) is None,
        fault_of(cli) is None && !pattern_fails(cli) && !(cli.inputs@.len() > 1 && cli.format
            != OutputFormat::Auto) ==> exists|
            grep: GrepConfig,
            cfg: RenderConfig,
            summary: Result<Summary, HeadsonError>,
        |
            {
                &&& grep_of(cli, grep)
                &&& render_config_of(cli, terminal, cfg)
                &&& #[trigger] planned(summary, cli, &cfg, &grep, stdin, entries_of(paths@))
                &&& passed_on(r, summary, cli, paths@)
            },
{
    match validate(cli) {
        Ok(_) => {},
        Err(e) => {
            return Err(e);
        },
    }
    let grep = match grep_config_from(cli) {
        Ok(grep) => grep,
        Err(e) => {
            return Err(e);
        },
    };
    let render_cfg = get_render_config_from(cli, terminal);
    if cli.inputs.len() == 0 {
        let summary = run_from_stdin(cli, &render_cfg, &grep, stdin);
        let ghost given = summary;

        let r = match summary {
            Ok(summary) => Ok((summary.text, with_trace(Vec::new(), summary.notices, summary.trace))),
            Err(e) => Err(e),
        };
        proof {
            assert(cli.inputs@.len() == 0);
            assert(planned(given, cli, &render_cfg, &grep, stdin, entries_of(paths@)));
            assert(notice_texts(Seq::<String>::empty()) =~= Seq::<Seq<char>>::empty());
            assert(passed_on(r, given, cli, paths@));
        }
        r
    } else {
        let found = run_from_paths(cli, &render_cfg, &grep, paths);
        let ghost given = outcome_of(found);
        let r = match found {
            Ok((summary, ignored)) => Ok(
                (summary.text, with_trace(ignored, summary.notices, summary.trace)),
            ),
            Err(e) => Err(e),
        };
        proof {
            assert(cli.inputs@.len() != 0);
            if !(cli.inputs@.len() > 1 && cli.format != OutputFormat::Auto) {
                assert(planned(given, cli, &render_cfg, &grep, stdin, entries_of(paths@)));
            }
            assert(passed_on(r, given, cli, paths@));
        }
        r
    }
}

} // verus!
