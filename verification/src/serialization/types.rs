use regex::Regex;
use vstd::prelude::*;

verus! {

/// The textual shape of a preview.
#[derive(Copy, Clone, Debug, PartialEq, Eq, Structural)]
pub enum OutputTemplate {
    /// Chosen per input: by style for a single document, by kind for each
    /// file of a fileset.
    Auto,
    /// Strict JSON; omissions leave no trace.
    Json,
    /// JSON-like, with `…` where something was left out.
    Pseudo,
    /// JSON-like, with counts of what was left out.
    Js,
    Yaml,
    Text,
    Code,
}

#[derive(Copy, Clone, Debug, PartialEq, Eq, Structural)]
pub enum Style {
    Strict,
    Default,
    Detailed,
}

#[derive(Copy, Clone, Debug, PartialEq, Eq, Structural)]
pub enum ColorMode {
    On,
    Off,
    Auto,
}

/// Everything the renderer needs besides the tree and the selection.
pub struct RenderConfig {
    pub template: OutputTemplate,
    pub indent_unit: String,
    pub space: String,
    pub newline: String,
    pub prefer_tail_arrays: bool,
    pub color_mode: ColorMode,
    pub color_enabled: bool,
    pub style: Style,
    pub string_free_prefix_graphemes: Option<usize>,
    pub debug: bool,
    pub primary_source_name: Option<String>,
    pub show_fileset_headers: bool,
    pub fileset_tree: bool,
    pub count_fileset_headers_in_budgets: bool,
    pub grep_highlight: Option<Regex>,
}

/// `Clone::clone` of `regex::Regex`: the copy is the same pattern, so it
/// matches exactly the texts that the value it was made from matches.
pub assume_specification[ <Regex as Clone>::clone ](re: &Regex) -> (copy: Regex)
    ensures
        copy == *re,
;

impl Clone for RenderConfig {
    fn clone(&self) -> (copy: Self)
        ensures
            copy == *self,
    {
        RenderConfig {
            template: self.template,
            indent_unit: self.indent_unit.clone(),
            space: self.space.clone(),
            newline: self.newline.clone(),
            prefer_tail_arrays: self.prefer_tail_arrays,
            color_mode: self.color_mode,
            color_enabled: self.color_enabled,
            style: self.style,
            string_free_prefix_graphemes: self.string_free_prefix_graphemes,
            debug: self.debug,
            primary_source_name: match &self.primary_source_name {
                Some(name) => Some(name.clone()),
                None => None,
            },
            show_fileset_headers: self.show_fileset_headers,
            fileset_tree: self.fileset_tree,
            count_fileset_headers_in_budgets: self.count_fileset_headers_in_budgets,
            grep_highlight: match &self.grep_highlight {
                Some(re) => Some(re.clone()),
                None => None,
            },
        }
    }
}

} // verus!
