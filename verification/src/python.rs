use crate::cli::args::{json_template_for_style, map_json_template_for_style};
use crate::error::{Argument, HeadsonError};
use crate::grep::{compile_pattern, compiled, GrepConfig, GrepShow};
use crate::order::types::{ArrayBias, ArraySamplerStrategy};
use crate::order::PriorityConfig;
use crate::pruner::budget::Budgets;
use crate::serialization::types::{ColorMode, OutputTemplate, RenderConfig, Style};
use crate::utils::text::{ascii_lowered, str_eq, to_ascii_lowercase};
use crate::{headson, previewed, InputKind, TextMode};
use vstd::prelude::*;
use vstd::string::StrSliceExecFns;
use vstd::string::StringSliceAdditionalSpecFns;

verus! {

/// The byte cap where none is given.
pub const DEFAULT_BYTE_BUDGET: usize = 500;

/// The style of a name, whatever its case.
pub open spec fn style_named(name: Seq<char>) -> Option<Style> {
    let l = ascii_lowered(name);
    if l == "strict"@ {
        Some(Style::Strict)
    } else if l == "default"@ {
        Some(Style::Default)
    } else if l == "detailed"@ {
        Some(Style::Detailed)
    } else {
        None
    }
}

pub fn to_style(s: &str) -> (r: Result<Style, HeadsonError>)
    ensures
        match r {
            Ok(style) => style_named(s@) == Some(style),
            Err(e) => style_named(s@) is None && e == HeadsonError::UnknownValue(Argument::Style),
        },
{
    let lowered = to_ascii_lowercase(s);
    let l = lowered.as_str();
    if str_eq(l, "strict") {
        Ok(Style::Strict)
    } else if str_eq(l, "default") {
        Ok(Style::Default)
    } else if str_eq(l, "detailed") {
        Ok(Style::Detailed)
    } else {
        Err(HeadsonError::UnknownValue(Argument::Style))
    }
}

/// The template of a format name, whatever its case, under a style.
pub open spec fn template_named(format: Seq<char>, style: Style) -> Option<OutputTemplate> {
    let l = ascii_lowered(format);
    if l == "auto"@ || l == "json"@ {
        Some(json_template_for_style(style))
    } else if l == "yaml"@ || l == "yml"@ {
        Some(OutputTemplate::Yaml)
    } else if l == "text"@ {
        Some(OutputTemplate::Text)
    } else if l == "code"@ {
        Some(OutputTemplate::Code)
    } else {
        None
    }
}

pub fn map_output_template(format: &str, style: Style) -> (r: Result<OutputTemplate, HeadsonError>)
    ensures
        match r {
            Ok(template) => template_named(format@, style) == Some(template),
            Err(e) => template_named(format@, style) is None && e == HeadsonError::UnknownValue(
                Argument::Format,
            ),
        },
{
    let lowered = to_ascii_lowercase(format);
    let l = lowered.as_str();
    if str_eq(l, "auto") || str_eq(l, "json") {
        Ok(map_json_template_for_style(style))
    } else if str_eq(l, "yaml") || str_eq(l, "yml") {
        Ok(OutputTemplate::Yaml)
    } else if str_eq(l, "text") {
        Ok(OutputTemplate::Text)
    } else if str_eq(l, "code") {
        Ok(OutputTemplate::Code)
    } else {
        Err(HeadsonError::UnknownValue(Argument::Format))
    }
}

/// The render configuration of a binding call: the template and style that
/// are named, two spaces of indentation, no color, section headers shown and
/// free.
pub open spec fn binding_config(cfg: RenderConfig, template: OutputTemplate, style: Style, sampler: ArraySamplerStrategy) -> bool {
    &&& cfg.template == template
    &&& cfg.indent_unit@ == "  "@
    &&& cfg.space@ == " "@
    &&& cfg.newline@ == "\n"@
    &&& cfg.prefer_tail_arrays == (sampler == ArraySamplerStrategy::Tail)
    &&& cfg.color_mode == ColorMode::Off
    &&& !cfg.color_enabled
    &&& cfg.style == style
    &&& cfg.string_free_prefix_graphemes is None
    &&& !cfg.debug
    &&& cfg.primary_source_name is None
    &&& cfg.show_fileset_headers
    &&& !cfg.fileset_tree
    &&& !cfg.count_fileset_headers_in_budgets
    &&& cfg.grep_highlight is None
}

pub fn render_config_with_sampler(format: &str, style: &str, sampler: ArraySamplerStrategy) -> (r:
    Result<RenderConfig, HeadsonError>)
    ensures
        match r {
            Ok(cfg) => style_named(style@) matches Some(s) && template_named(format@, s) matches Some(
                t,
            ) && binding_config(cfg, t, s, sampler),
            Err(e) => match style_named(style@) {
                Some(s) => template_named(format@, s) is None && e == HeadsonError::UnknownValue(
                    Argument::Format,
                ),
                None => e == HeadsonError::UnknownValue(Argument::Style),
            },
        },
{
    let s = match to_style(style) {
        Ok(s) => s,
        Err(e) => {
            return Err(e);
        },
    };
    let t = match map_output_template(format, s) {
        Ok(t) => t,
        Err(e) => {
            return Err(e);
        },
    };
    let space = " ".to_owned();
    let newline = "\n".to_owned();
    let indent_unit = "  ".to_owned();
    let prefer_tail_arrays = match sampler {
        ArraySamplerStrategy::Tail => true,
        _ => false,
    };
    Ok(
        RenderConfig {
            template: t,
            indent_unit,
            space,
            newline,
            prefer_tail_arrays,
            color_mode: ColorMode::Off,
            color_enabled: false,
            style: s,
            string_free_prefix_graphemes: None,
            debug: false,
            primary_source_name: None,
            show_fileset_headers: true,
            fileset_tree: false,
            count_fileset_headers_in_budgets: false,
            grep_highlight: None,
        },
    )
}

/// The sampler of a skew name, whatever its case.
pub open spec fn skew_named(skew: Seq<char>) -> Option<ArraySamplerStrategy> {
    let l = ascii_lowered(skew);
    if l == "balanced"@ {
        Some(ArraySamplerStrategy::Default)
    } else if l == "head"@ {
        Some(ArraySamplerStrategy::Head)
    } else if l == "tail"@ {
        Some(ArraySamplerStrategy::Tail)
    } else {
        None
    }
}

pub fn parse_skew(skew: &str) -> (r: Result<ArraySamplerStrategy, HeadsonError>)
    ensures
        match r {
            Ok(sampler) => skew_named(skew@) == Some(sampler),
            Err(e) => skew_named(skew@) is None && e == HeadsonError::UnknownValue(Argument::Skew),
        },
{
    let lowered = to_ascii_lowercase(skew);
    let l = lowered.as_str();
    if str_eq(l, "balanced") {
        Ok(ArraySamplerStrategy::Default)
    } else if str_eq(l, "head") {
        Ok(ArraySamplerStrategy::Head)
    } else if str_eq(l, "tail") {
        Ok(ArraySamplerStrategy::Tail)
    } else {
        Err(HeadsonError::UnknownValue(Argument::Skew))
    }
}

/// The knobs of ingest and ordering for a budget per file: strings are
/// split beyond 500 user-perceived characters, arrays keep half the budget
/// in items and at least one.
pub open spec fn priority_for(per_file_budget: usize, sampler: ArraySamplerStrategy) -> PriorityConfig {
    PriorityConfig {
        max_string_graphemes: 500,
        array_max_items: if per_file_budget / 2 >= 1 {
            per_file_budget / 2
        } else {
            1
        },
        prefer_tail_arrays: sampler == ArraySamplerStrategy::Tail,
        array_bias: ArrayBias::HeadMidTail,
        array_sampler: sampler,
        line_budget_only: false,
    }
}

pub fn priority_config(per_file_budget: usize, sampler: ArraySamplerStrategy) -> (prio: PriorityConfig)
    ensures
        prio == priority_for(per_file_budget, sampler),
{
    let prefer_tail_arrays = match sampler {
        ArraySamplerStrategy::Tail => true,
        _ => false,
    };
    let half = per_file_budget / 2;
    PriorityConfig {
        max_string_graphemes: 500,
        array_max_items: if half >= 1 {
            half
        } else {
            1
        },
        prefer_tail_arrays,
        array_bias: ArrayBias::HeadMidTail,
        array_sampler: sampler,
        line_budget_only: false,
    }
}

/// The input format of a name, whatever its case.
pub open spec fn input_format_known(name: Seq<char>) -> bool {
    let l = ascii_lowered(name);
    l == "json"@ || l == "yaml"@ || l == "yml"@ || l == "text"@
}

/// What is wrong with the arguments of a binding call, in the order in which
/// they are looked at: the pattern, the skew, the style, the format, the
/// input format.
pub open spec fn binding_fault(
    format: Seq<char>,
    style: Seq<char>,
    skew: Seq<char>,
    input_format: Seq<char>,
    grep: Option<Seq<char>>,
) -> Option<HeadsonError> {
    if grep matches Some(p) && compiled(p) is None {
        Some(HeadsonError::InvalidPattern)
    } else if skew_named(skew) is None {
        Some(HeadsonError::UnknownValue(Argument::Skew))
    } else if style_named(style) is None {
        Some(HeadsonError::UnknownValue(Argument::Style))
    } else if template_named(format, style_named(style)->0) is None {
        Some(HeadsonError::UnknownValue(Argument::Format))
    } else if !input_format_known(input_format) {
        Some(HeadsonError::UnknownValue(Argument::InputFormat))
    } else {
        None
    }
}

/// The result of a call without a fault is the preview of the text, read as
/// the input format says, under the configuration of the call with the
/// pattern as highlight, a strong search for the pattern, and the byte
/// budget.
pub open spec fn bound_call(
    r: Result<String, HeadsonError>,
    cfg: RenderConfig,
    grep_cfg: GrepConfig,
    input: Vec<u8>,
    bytes: Seq<u8>,
    format: Seq<char>,
    style: Seq<char>,
    byte_budget: Option<usize>,
    skew: Seq<char>,
    input_format: Seq<char>,
    grep: Option<Seq<char>>,
) -> bool {
    let s = style_named(style)->0;
    let sampler = skew_named(skew)->0;
    let budget = budget_or_default(byte_budget);
    &&& binding_config(
        RenderConfig { grep_highlight: None, ..cfg },
        template_named(format, s)->0,
        s,
        sampler,
    )
    &&& cfg.grep_highlight == grep_cfg.regex
    &&& grep_cfg.regex == (match grep {
        Some(p) => compiled(p),
        None => None,
    })
    &&& !grep_cfg.weak
    &&& grep_cfg.show == GrepShow::Matching
    &&& input@ == bytes
    &&& previewed(
        r,
        binding_input(input_format, input, cfg.template),
        &cfg,
        &priority_for(at_least_one(budget), sampler),
        &grep_cfg,
        Budgets { byte_budget: Some(budget), char_budget: None, line_budget: None },
    )
}

/// A size, and at least one.
pub open spec fn at_least_one(size: usize) -> usize {
    if size > 1 {
        size
    } else {
        1
    }
}

/// The byte budget of a call.
pub open spec fn budget_or_default(byte_budget: Option<usize>) -> usize {
    match byte_budget {
        Some(b) => b,
        None => DEFAULT_BYTE_BUDGET,
    }
}

/// The input of a call: the bytes read as the input format says, text as
/// code where the template is the one for code.
pub open spec fn binding_input(input_format: Seq<char>, bytes: Vec<u8>, template: OutputTemplate) -> InputKind {
    let l = ascii_lowered(input_format);
    if l == "json"@ {
        InputKind::Json(bytes)
    } else if l == "yaml"@ || l == "yml"@ {
        InputKind::Yaml(bytes)
    } else {
        InputKind::Text {
            bytes,
            mode: if template == OutputTemplate::Code {
                TextMode::CodeLike
            } else {
                TextMode::Plain
            },
        }
    }
}

/// The text of an optional slice.
pub open spec fn opt_text(s: Option<&str>) -> Option<Seq<char>> {
    match s {
        Some(t) => Some(t@),
        None => None,
    }
}

/// What a call of the binding comes to: the first fault of its arguments,
/// or, without one, the preview of the text under the configuration of the
/// call.
pub open spec fn bound(
    r: Result<String, HeadsonError>,
    bytes: Seq<u8>,
    format: Seq<char>,
    style: Seq<char>,
    byte_budget: Option<usize>,
    skew: Seq<char>,
    input_format: Seq<char>,
    grep: Option<Seq<char>>,
) -> bool {
    match binding_fault(format, style, skew, input_format, grep) {
        Some(e) => r == Err::<String, HeadsonError>(e),
        None => exists|cfg: RenderConfig, grep_cfg: GrepConfig, input: Vec<u8>| #[trigger]
            bound_call(
                r,
                cfg,
                grep_cfg,
                input,
                bytes,
                format,
                style,
                byte_budget,
                skew,
                input_format,
                grep,
            ),
    }
}

/// The value that the message of an error is about: for a value that an
/// argument does not take, that value in lower case.
pub open spec fn faulty_value(
    e: HeadsonError,
    format: Seq<char>,
    style: Seq<char>,
    skew: Seq<char>,
    input_format: Seq<char>,
) -> Seq<char> {
    match e {
        HeadsonError::UnknownValue(Argument::Style) => ascii_lowered(style),
        HeadsonError::UnknownValue(Argument::Format) => ascii_lowered(format),
        HeadsonError::UnknownValue(Argument::Skew) => ascii_lowered(skew),
        HeadsonError::UnknownValue(Argument::InputFormat) => ascii_lowered(input_format),
        _ => Seq::empty(),
    }
}

/// The message that the binding raises for an error of a call.
pub open spec fn fault_text(
    e: HeadsonError,
    format: Seq<char>,
    style: Seq<char>,
    skew: Seq<char>,
    input_format: Seq<char>,
) -> Seq<char> {
    e.message_text_for(faulty_value(e, format, style, skew, input_format))
}

/// The message that the binding raises for an error of a call: an unknown
/// value is named with its argument and with what was expected.
pub fn fault_message(e: HeadsonError, format: &str, style: &str, skew: &str, input_format: &str) -> (text:
    String)
    ensures
        text@ == fault_text(e, format@, style@, skew@, input_format@),
{
    let value = match e {
        HeadsonError::UnknownValue(Argument::Style) => to_ascii_lowercase(style),
        HeadsonError::UnknownValue(Argument::Format) => to_ascii_lowercase(format),
        HeadsonError::UnknownValue(Argument::Skew) => to_ascii_lowercase(skew),
        HeadsonError::UnknownValue(Argument::InputFormat) => to_ascii_lowercase(input_format),
        _ => String::new(),
    };
    e.message_for(value.as_str())
}

/// What the binding hands back for an outcome of a call: the preview, or the
/// message of the error.
pub open spec fn relayed(
    r: Result<String, String>,
    outcome: Result<String, HeadsonError>,
    format: Seq<char>,
    style: Seq<char>,
    skew: Seq<char>,
    input_format: Seq<char>,
) -> bool {
    match outcome {
        Ok(text) => r == Ok::<String, String>(text),
        Err(e) => r matches Err(m) && m@ == fault_text(e, format, style, skew, input_format),
    }
}

/// Summarize a text as the Python binding does: under a byte budget, 500
/// where none is given, with a strong search where a pattern is given. An
/// error comes back as its message.
pub fn summarize(
    text: &str,
    format: &str,
    style: &str,
    byte_budget: Option<usize>,
    skew: &str,
    input_format: &str,
    grep: Option<&str>,
) -> (r: Result<String, String>)
    ensures
        exists|outcome: Result<String, HeadsonError>|
            {
                &&& #[trigger] bound(
                    outcome,
                    text.spec_bytes(),
                    format@,
                    style@,
                    byte_budget,
                    skew@,
                    input_format@,
                    opt_text(grep),
                )
                &&& relayed(r, outcome, format@, style@, skew@, input_format@)
            },
{
    match bind(text, format, style, byte_budget, skew, input_format, grep) {
        Ok(out) => Ok(out),
        Err(e) => Err(fault_message(e, format, style, skew, input_format)),
    }
}

/// The outcome of a call of the binding, with an error as a value.
pub fn bind(
    text: &str,
    format: &str,
    style: &str,
    byte_budget: Option<usize>,
    skew: &str,
    input_format: &str,
    grep: Option<&str>,
) -> (r: Result<String, HeadsonError>)
    ensures
        bound(
            r,
            text.spec_bytes(),
            format@,
            style@,
            byte_budget,
            skew@,
            input_format@,
            opt_text(grep),
        ),
{
    let grep_re = match grep {
        Some(pat) => match compile_pattern(pat) {
            Ok(re) => Some(re),
            Err(e) => {
                return Err(e);
            },
        },
        None => None,
    };
    let sampler = match parse_skew(skew) {
        Ok(s) => s,
        Err(e) => {
            return Err(e);
        },
    };
    let mut cfg = match render_config_with_sampler(format, style, sampler) {
        Ok(cfg) => cfg,
        Err(e) => {
            return Err(e);
        },
    };
    let budget = match byte_budget {
        Some(b) => b,
        None => DEFAULT_BYTE_BUDGET,
    };
    let per_file_for_priority = if budget > 1 {
        budget
    } else {
        1
    };
    let prio = priority_config(per_file_for_priority, sampler);
    let input = text.as_bytes_vec();
    match &grep_re {
        Some(re) => {
            cfg.grep_highlight = Some(re.clone());
        },
        None => {},
    }
    let grep_cfg = GrepConfig { regex: grep_re, weak: false, show: GrepShow::Matching };
    let budgets = Budgets { byte_budget: Some(budget), char_budget: None, line_budget: None };
    let text_mode = match cfg.template {
        OutputTemplate::Code => TextMode::CodeLike,
        _ => TextMode::Plain,
    };
    let lowered = to_ascii_lowercase(input_format);
    let kind = lowered.as_str();
    let ghost bytes = input;
    let chosen = if str_eq(kind, "json") {
        InputKind::Json(input)
    } else if str_eq(kind, "yaml") || str_eq(kind, "yml") {
        InputKind::Yaml(input)
    } else if str_eq(kind, "text") {
        InputKind::Text { bytes: input, mode: text_mode }
    } else {
        return Err(HeadsonError::UnknownValue(Argument::InputFormat));
    };
    assert(chosen == binding_input(input_format@, bytes, cfg.template));
    let r = headson(chosen, &cfg, &prio, &grep_cfg, budgets);
    assert(bound_call(
        r,
        cfg,
        grep_cfg,
        bytes,
        text.spec_bytes(),
        format@,
        style@,
        byte_budget,
        skew@,
        input_format@,
        opt_text(grep),
    ));
    r
}

} // verus!
