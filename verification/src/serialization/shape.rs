use crate::ingest::fileset::FilesetInputKind;
use crate::serialization::text::{decimal, push_decimal};
use crate::serialization::types::{OutputTemplate, RenderConfig, Style};
use vstd::prelude::*;
use vstd::string::StrSliceExecFns;

verus! {

/// The template that a document is rendered in, once it is settled.
#[derive(Copy, Clone, Debug, PartialEq, Eq, Structural)]
pub enum Shape {
    Json,
    Pseudo,
    Js,
    Yaml,
    Text,
    Code,
}

/// The JSON-like template of a style.
pub open spec fn json_shape_for_style(style: Style) -> Shape {
    match style {
        Style::Strict => Shape::Json,
        Style::Default => Shape::Pseudo,
        Style::Detailed => Shape::Js,
    }
}

/// The template of a single document: the configured one, by style where it
/// is automatic, and JSON-like in place of YAML where lines are not broken.
pub open spec fn document_shape(cfg: &RenderConfig) -> Shape {
    match cfg.template {
        OutputTemplate::Auto => json_shape_for_style(cfg.style),
        OutputTemplate::Json => Shape::Json,
        OutputTemplate::Pseudo => Shape::Pseudo,
        OutputTemplate::Js => Shape::Js,
        OutputTemplate::Yaml => if cfg.newline@.len() == 0 {
            json_shape_for_style(cfg.style)
        } else {
            Shape::Yaml
        },
        OutputTemplate::Text => Shape::Text,
        OutputTemplate::Code => Shape::Code,
    }
}

/// The template of one file of a fileset, by the kind it was read as.
pub open spec fn file_shape(kind: Option<FilesetInputKind>, cfg: &RenderConfig) -> Shape {
    match kind {
        Some(FilesetInputKind::Json) => json_shape_for_style(cfg.style),
        Some(FilesetInputKind::Yaml) => if cfg.newline@.len() == 0 {
            json_shape_for_style(cfg.style)
        } else {
            Shape::Yaml
        },
        Some(FilesetInputKind::Text { atomic_lines }) => if atomic_lines {
            Shape::Code
        } else {
            Shape::Text
        },
        None => json_shape_for_style(cfg.style),
    }
}

pub fn map_json_shape_for_style(style: Style) -> (shape: Shape)
    ensures
        shape == json_shape_for_style(style),
{
    match style {
        Style::Strict => Shape::Json,
        Style::Default => Shape::Pseudo,
        Style::Detailed => Shape::Js,
    }
}

pub fn resolve_document_shape(cfg: &RenderConfig) -> (shape: Shape)
    ensures
        shape == document_shape(cfg),
{
    match cfg.template {
        OutputTemplate::Auto => map_json_shape_for_style(cfg.style),
        OutputTemplate::Json => Shape::Json,
        OutputTemplate::Pseudo => Shape::Pseudo,
        OutputTemplate::Js => Shape::Js,
        OutputTemplate::Yaml => if cfg.newline.as_str().unicode_len() == 0 {
            map_json_shape_for_style(cfg.style)
        } else {
            Shape::Yaml
        },
        OutputTemplate::Text => Shape::Text,
        OutputTemplate::Code => Shape::Code,
    }
}

pub fn resolve_file_shape(kind: Option<FilesetInputKind>, cfg: &RenderConfig) -> (shape: Shape)
    ensures
        shape == file_shape(kind, cfg),
{
    match kind {
        Some(FilesetInputKind::Json) => map_json_shape_for_style(cfg.style),
        Some(FilesetInputKind::Yaml) => if cfg.newline.as_str().unicode_len() == 0 {
            map_json_shape_for_style(cfg.style)
        } else {
            Shape::Yaml
        },
        Some(FilesetInputKind::Text { atomic_lines }) => if atomic_lines {
            Shape::Code
        } else {
            Shape::Text
        },
        None => map_json_shape_for_style(cfg.style),
    }
}

impl Shape {
    /// The JSON-like templates, which bracket their containers.
    pub open spec fn is_bracketed(self) -> bool {
        self == Shape::Json || self == Shape::Pseudo || self == Shape::Js
    }

    pub fn bracketed(self) -> (b: bool)
        ensures
            b == self.is_bracketed(),
    {
        match self {
            Shape::Json | Shape::Pseudo | Shape::Js => true,
            _ => false,
        }
    }
}

/// Whether a template marks what it leaves out: strict JSON never does, the
/// other JSON-like templates and code always do, YAML and text in every
/// style but the strict one.
pub open spec fn shows_gaps(shape: Shape, style: Style) -> bool {
    match shape {
        Shape::Json => false,
        Shape::Pseudo | Shape::Js | Shape::Code => true,
        Shape::Yaml | Shape::Text => style != Style::Strict,
    }
}

pub fn marks_gaps(shape: Shape, style: Style) -> (b: bool)
    ensures
        b == shows_gaps(shape, style),
{
    match shape {
        Shape::Json => false,
        Shape::Pseudo | Shape::Js | Shape::Code => true,
        Shape::Yaml | Shape::Text => match style {
            Style::Strict => false,
            _ => true,
        },
    }
}

/// The marker that stands for `count` entries left out.
pub open spec fn gap_marker(shape: Shape, style: Style, count: usize) -> Seq<char> {
    match shape {
        Shape::Json => Seq::empty(),
        Shape::Pseudo => "…"@,
        Shape::Js => "/* "@ + decimal(count as nat) + " more items */"@,
        Shape::Yaml => if style == Style::Detailed {
            "# "@ + decimal(count as nat) + " more items"@
        } else {
            "# …"@
        },
        Shape::Text => if style == Style::Detailed {
            "… "@ + decimal(count as nat) + " more lines …"@
        } else {
            "…"@
        },
        Shape::Code => "…"@,
    }
}

pub fn push_gap_marker(out: &mut String, shape: Shape, style: Style, count: usize)
    ensures
        final(out)@ == old(out)@ + gap_marker(shape, style, count),
{
    let detailed = match style {
        Style::Detailed => true,
        _ => false,
    };
    match shape {
        Shape::Json => {
            assert(out@ =~= old(out)@ + Seq::<char>::empty());
        },
        Shape::Pseudo => {
            out.push_str("…");
        },
        Shape::Js => {
            out.push_str("/* ");
            push_decimal(out, count as u64);
            out.push_str(" more items */");
            assert(out@ =~= old(out)@ + gap_marker(shape, style, count));
        },
        Shape::Yaml => {
            if detailed {
                out.push_str("# ");
                push_decimal(out, count as u64);
                out.push_str(" more items");
                assert(out@ =~= old(out)@ + gap_marker(shape, style, count));
            } else {
                out.push_str("# …");
            }
        },
        Shape::Text => {
            if detailed {
                out.push_str("… ");
                push_decimal(out, count as u64);
                out.push_str(" more lines …");
                assert(out@ =~= old(out)@ + gap_marker(shape, style, count));
            } else {
                out.push_str("…");
            }
        },
        Shape::Code => {
            out.push_str("…");
        },
    }
}

} // verus!
