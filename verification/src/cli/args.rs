use crate::error::HeadsonError;
use crate::grep::GrepShow;
use crate::serialization::color::resolve_color_enabled;
use crate::serialization::types::{ColorMode, OutputTemplate, RenderConfig, Style};
use vstd::prelude::*;

verus! {

/// The format that the output is asked in.
#[derive(Copy, Clone, Debug, PartialEq, Eq, Structural)]
pub enum OutputFormat {
    Auto,
    Json,
    Yaml,
    Text,
    Code,
}

/// The format that the input is read as.
#[derive(Copy, Clone, Debug, PartialEq, Eq, Structural)]
pub enum InputFormat {
    Json,
    Yaml,
    Text,
}

/// The arguments of the command line, as plain values.
pub struct Cli {
    /// Per-file caps.
    pub bytes: Option<usize>,
    pub chars: Option<usize>,
    pub lines: Option<usize>,
    /// Caps on the whole output.
    pub global_bytes: Option<usize>,
    pub global_chars: Option<usize>,
    pub global_lines: Option<usize>,
    pub format: OutputFormat,
    pub style: Style,
    pub input_format: Option<InputFormat>,
    pub tree: bool,
    pub compact: bool,
    pub no_newline: bool,
    /// Show no section headers over the files of a fileset.
    pub no_header: bool,
    /// Count the section headers of a fileset toward the budgets.
    pub count_headers: bool,
    pub head: bool,
    pub tail: bool,
    pub grep: Option<String>,
    pub weak_grep: Option<String>,
    pub grep_show: Option<GrepShow>,
    pub debug: bool,
    pub color: ColorMode,
    pub no_sort: bool,
    pub inputs: Vec<String>,
}

/// What the process knows of its surroundings.
#[derive(Copy, Clone, Debug, PartialEq, Eq, Structural)]
pub struct Terminal {
    /// Color is forced from outside the process.
    pub force_color: bool,
    /// The output goes to a terminal.
    pub stdout_is_terminal: bool,
}

/// The number of options that are set.
pub open spec fn count_set(a: Option<usize>, b: Option<usize>, c: Option<usize>) -> int {
    (if a is Some {
        1int
    } else {
        0int
    }) + (if b is Some {
        1int
    } else {
        0int
    }) + (if c is Some {
        1int
    } else {
        0int
    })
}

/// Two options that exclude each other are set: both ends of arrays; the
/// compact form or a line cap with the form without line breaks; the file
/// tree without headers, in compact form or without line breaks.
pub open spec fn options_conflict(cli: &Cli) -> bool {
    ||| cli.head && cli.tail
    ||| cli.compact && cli.no_newline
    ||| cli.no_newline && (cli.lines is Some || cli.global_lines is Some)
    ||| cli.tree && (cli.no_header || cli.compact || cli.no_newline)
}

/// What is wrong with the arguments, if anything: more than one per-file cap
/// or more than one global cap; strong and weak search together, or a
/// display of matches without a strong search; two options that exclude each
/// other; the file tree without a file to show.
pub open spec fn fault_of(cli: &Cli) -> Option<HeadsonError> {
    if count_set(cli.bytes, cli.chars, cli.lines) > 1 || count_set(
        cli.global_bytes,
        cli.global_chars,
        cli.global_lines,
    ) > 1 {
        Some(HeadsonError::BudgetConflict)
    } else if (cli.grep is Some && cli.weak_grep is Some) || (cli.grep_show is Some
        && cli.grep is None) {
        Some(HeadsonError::GrepConflict)
    } else if options_conflict(cli) {
        Some(HeadsonError::ArgumentConflict)
    } else if cli.tree && cli.inputs@.len() == 0 {
        Some(HeadsonError::TreeWithoutFiles)
    } else {
        None
    }
}

fn set_count(a: Option<usize>, b: Option<usize>, c: Option<usize>) -> (n: u8)
    ensures
        n == count_set(a, b, c),
{
    let x: u8 = if a.is_some() {
        1
    } else {
        0
    };
    let y: u8 = if b.is_some() {
        1
    } else {
        0
    };
    let z: u8 = if c.is_some() {
        1
    } else {
        0
    };
    x + y + z
}

/// Validate the arguments against each other.
pub fn validate(cli: &Cli) -> (r: Result<(), HeadsonError>)
    ensures
        match r {
            Ok(_) => fault_of(cli) is None,
            Err(e) => fault_of(cli) == Some(e),
        },
{
    if set_count(cli.bytes, cli.chars, cli.lines) > 1 || set_count(
        cli.global_bytes,
        cli.global_chars,
        cli.global_lines,
    ) > 1 {
        Err(HeadsonError::BudgetConflict)
    } else if (cli.grep.is_some() && cli.weak_grep.is_some()) || (cli.grep_show.is_some()
        && cli.grep.is_none()) {
        Err(HeadsonError::GrepConflict)
    } else if (cli.head && cli.tail) || (cli.compact && cli.no_newline) || (cli.no_newline && (
    cli.lines.is_some() || cli.global_lines.is_some())) || (cli.tree && (cli.no_header
        || cli.compact || cli.no_newline)) {
        Err(HeadsonError::ArgumentConflict)
    } else if cli.tree && cli.inputs.len() == 0 {
        Err(HeadsonError::TreeWithoutFiles)
    } else {
        Ok(())
    }
}

/// Whether several inputs are put in order before they are read: where
/// there is more than one and sorting is not switched off.
pub fn sorts_inputs(cli: &Cli) -> (sorts: bool)
    ensures
        sorts == (cli.inputs@.len() > 1 && !cli.no_sort),
{
    cli.inputs.len() > 1 && !cli.no_sort
}

/// The status that the command ends with on an error: 2 where the
/// arguments are at fault, 1 where the run failed.
pub open spec fn exit_status(e: &HeadsonError) -> u8 {
    if e is BudgetConflict || e is GrepConflict || e is ArgumentConflict || e is InvalidPattern
        || e is UnknownValue || e is TreeWithoutFiles {
        2u8
    } else {
        1u8
    }
}

/// The status that the command ends with on an error.
pub fn exit_code(e: &HeadsonError) -> (code: u8)
    ensures
        code == exit_status(e),
{
    match e {
        HeadsonError::BudgetConflict
        | HeadsonError::GrepConflict
        | HeadsonError::ArgumentConflict
        | HeadsonError::InvalidPattern
        | HeadsonError::UnknownValue(_)
        | HeadsonError::TreeWithoutFiles => 2,
        _ => 1,
    }
}

/// The JSON-like template of a style.
pub open spec fn json_template_for_style(style: Style) -> OutputTemplate {
    match style {
        Style::Strict => OutputTemplate::Json,
        Style::Default => OutputTemplate::Pseudo,
        Style::Detailed => OutputTemplate::Js,
    }
}

pub fn map_json_template_for_style(style: Style) -> (template: OutputTemplate)
    ensures
        template == json_template_for_style(style),
{
    match style {
        Style::Strict => OutputTemplate::Json,
        Style::Default => OutputTemplate::Pseudo,
        Style::Detailed => OutputTemplate::Js,
    }
}

/// The template that a format and a style ask for.
pub open spec fn template_for(format: OutputFormat, style: Style) -> OutputTemplate {
    match format {
        OutputFormat::Auto => OutputTemplate::Auto,
        OutputFormat::Json => json_template_for_style(style),
        OutputFormat::Yaml => OutputTemplate::Yaml,
        OutputFormat::Text => OutputTemplate::Text,
        OutputFormat::Code => OutputTemplate::Code,
    }
}

/// The strings between the parts of the output: two spaces of indentation, a
/// space and a line feed; nothing of them in compact form, no line feed
/// where none is wanted.
pub open spec fn layout_of(cli: &Cli) -> (Seq<char>, Seq<char>, Seq<char>) {
    if cli.compact {
        (Seq::empty(), Seq::empty(), Seq::empty())
    } else if cli.no_newline {
        ("  "@, " "@, Seq::empty())
    } else {
        ("  "@, " "@, "\n"@)
    }
}

/// The configuration is the one that the arguments ask for: the template
/// of format and style, the layout, color by mode and surroundings, section
/// headers shown unless they are switched off, and counted toward the
/// budgets where that is asked for.
pub open spec fn render_config_of(cli: &Cli, terminal: Terminal, cfg: RenderConfig) -> bool {
    &&& cfg.template == template_for(cli.format, cli.style)
    &&& (cfg.indent_unit@, cfg.space@, cfg.newline@) == layout_of(cli)
    &&& cfg.prefer_tail_arrays == cli.tail
    &&& cfg.color_mode == cli.color
    &&& cfg.color_enabled == match cli.color {
        ColorMode::On => true,
        ColorMode::Off => false,
        ColorMode::Auto => terminal.force_color || terminal.stdout_is_terminal,
    }
    &&& cfg.style == cli.style
    &&& cfg.string_free_prefix_graphemes is None
    &&& cfg.debug == cli.debug
    &&& cfg.primary_source_name is None
    &&& cfg.show_fileset_headers == !cli.no_header
    &&& cfg.fileset_tree == cli.tree
    &&& cfg.count_fileset_headers_in_budgets == cli.count_headers
    &&& cfg.grep_highlight is None
}

/// The render configuration that the arguments ask for.
pub fn get_render_config_from(cli: &Cli, terminal: Terminal) -> (cfg: RenderConfig)
    ensures
        render_config_of(cli, terminal, cfg),
{
    let template = match cli.format {
        OutputFormat::Auto => OutputTemplate::Auto,
        OutputFormat::Json => map_json_template_for_style(cli.style),
        OutputFormat::Yaml => OutputTemplate::Yaml,
        OutputFormat::Text => OutputTemplate::Text,
        OutputFormat::Code => OutputTemplate::Code,
    };
    proof {
        reveal_strlit("");
        assert(""@ =~= Seq::<char>::empty());
    }
    let indent_unit = if cli.compact {
        ""
    } else {
        "  "
    };
    let space = if cli.compact {
        ""
    } else {
        " "
    };
    let newline = if cli.compact || cli.no_newline {
        ""
    } else {
        "\n"
    };
    RenderConfig {
        template,
        indent_unit: indent_unit.to_owned(),
        space: space.to_owned(),
        newline: newline.to_owned(),
        prefer_tail_arrays: cli.tail,
        color_mode: cli.color,
        color_enabled: resolve_color_enabled(
            cli.color,
            terminal.force_color,
            terminal.stdout_is_terminal,
        ),
        style: cli.style,
        string_free_prefix_graphemes: None,
        debug: cli.debug,
        primary_source_name: None,
        show_fileset_headers: !cli.no_header,
        fileset_tree: cli.tree,
        count_fileset_headers_in_budgets: cli.count_headers,
        grep_highlight: None,
    }
}

} // verus!
