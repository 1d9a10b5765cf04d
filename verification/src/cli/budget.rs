use crate::cli::args::Cli;
use crate::order::types::{ArrayBias, ArraySamplerStrategy};
use crate::order::PriorityConfig;
use crate::pruner::budget::Budgets;
use crate::serialization::types::RenderConfig;
use vstd::prelude::*;

verus! {

/// The byte cap per file where no cap is given.
pub const DEFAULT_BYTES: usize = 500;

/// Strings longer than this many user-perceived characters are splittable.
pub const MAX_STRING_GRAPHEMES: usize = 500;

/// The budgets that selection works under, and what the reading of the input
/// is scaled by.
#[derive(Copy, Clone, Debug, PartialEq, Eq, Structural)]
pub struct EffectiveBudgets {
    pub budgets: Budgets,
    /// The size per file that arrays are cut for.
    pub per_file_for_priority: usize,
    /// Only lines are capped.
    pub line_budget_only: bool,
}

/// A product that stops at the largest `usize`.
pub open spec fn capped_product(a: usize, b: usize) -> usize {
    if a * b > usize::MAX {
        usize::MAX
    } else {
        (a * b) as usize
    }
}

/// The cap on the whole output along one dimension: the per-file cap times
/// the number of inputs, the global cap, or the smaller of both.
pub open spec fn combined(per_file: Option<usize>, global: Option<usize>, count: usize) -> Option<
    usize,
> {
    match (per_file, global) {
        (Some(p), Some(g)) => Some(
            if capped_product(p, count) < g {
                capped_product(p, count)
            } else {
                g
            },
        ),
        (Some(p), None) => Some(capped_product(p, count)),
        (None, Some(g)) => Some(g),
        (None, None) => None,
    }
}

/// No cap is given at all.
pub open spec fn uncapped(cli: &Cli) -> bool {
    cli.bytes is None && cli.chars is None && cli.lines is None && cli.global_bytes is None
        && cli.global_chars is None && cli.global_lines is None
}

/// The budgets of the arguments for `count` inputs. Where no cap is given,
/// the default byte cap holds per file.
pub open spec fn budgets_of(cli: &Cli, count: usize) -> Budgets {
    if uncapped(cli) {
        Budgets {
            byte_budget: Some(capped_product(DEFAULT_BYTES, count)),
            char_budget: None,
            line_budget: None,
        }
    } else {
        Budgets {
            byte_budget: combined(cli.bytes, cli.global_bytes, count),
            char_budget: combined(cli.chars, cli.global_chars, count),
            line_budget: combined(cli.lines, cli.global_lines, count),
        }
    }
}

/// The share of one of `count` inputs in a cap on the whole.
pub open spec fn share(global: usize, count: usize) -> usize {
    if count == 0 {
        global
    } else {
        global / count
    }
}

/// The size per file that arrays are cut for: the per-file cap on bytes or
/// characters, else the share of a file in the global one, else the default
/// where nothing is capped, and no bound where only lines are.
pub open spec fn priority_basis(cli: &Cli, count: usize) -> usize {
    if uncapped(cli) {
        DEFAULT_BYTES
    } else {
        match (cli.bytes, cli.chars, cli.global_bytes, cli.global_chars) {
            (Some(b), _, _, _) => b,
            (None, Some(c), _, _) => c,
            (None, None, Some(g), _) => share(g, count),
            (None, None, None, Some(g)) => share(g, count),
            (None, None, None, None) => usize::MAX,
        }
    }
}

/// Only lines are capped.
pub open spec fn lines_only(cli: &Cli) -> bool {
    cli.bytes is None && cli.chars is None && cli.global_bytes is None && cli.global_chars is None
        && (cli.lines is Some || cli.global_lines is Some)
}

fn times(a: usize, b: usize) -> (p: usize)
    ensures
        p == capped_product(a, b),
{
    match a.checked_mul(b) {
        Some(p) => p,
        None => usize::MAX,
    }
}

fn combine(per_file: Option<usize>, global: Option<usize>, count: usize) -> (cap: Option<usize>)
    ensures
        cap == combined(per_file, global, count),
{
    match (per_file, global) {
        (Some(p), Some(g)) => {
            let scaled = times(p, count);
            Some(
                if scaled < g {
                    scaled
                } else {
                    g
                },
            )
        },
        (Some(p), None) => Some(times(p, count)),
        (None, Some(g)) => Some(g),
        (None, None) => None,
    }
}

/// The budgets that the arguments ask for when `input_count` inputs are
/// summarized.
pub fn compute_effective(cli: &Cli, input_count: usize) -> (effective: EffectiveBudgets)
    ensures
        effective.budgets == budgets_of(cli, input_count),
        effective.per_file_for_priority == priority_basis(cli, input_count),
        effective.line_budget_only == lines_only(cli),
{
    let none = cli.bytes.is_none() && cli.chars.is_none() && cli.lines.is_none()
        && cli.global_bytes.is_none() && cli.global_chars.is_none() && cli.global_lines.is_none();
    let budgets = if none {
        Budgets {
            byte_budget: Some(times(DEFAULT_BYTES, input_count)),
            char_budget: None,
            line_budget: None,
        }
    } else {
        Budgets {
            byte_budget: combine(cli.bytes, cli.global_bytes, input_count),
            char_budget: combine(cli.chars, cli.global_chars, input_count),
            line_budget: combine(cli.lines, cli.global_lines, input_count),
        }
    };
    let basis = if none {
        DEFAULT_BYTES
    } else {
        match (cli.bytes, cli.chars, cli.global_bytes, cli.global_chars) {
            (Some(b), _, _, _) => b,
            (None, Some(c), _, _) => c,
            (None, None, Some(g), _) => if input_count == 0 {
                g
            } else {
                g / input_count
            },
            (None, None, None, Some(g)) => if input_count == 0 {
                g
            } else {
                g / input_count
            },
            (None, None, None, None) => usize::MAX,
        }
    };
    let line_budget_only = cli.bytes.is_none() && cli.chars.is_none() && cli.global_bytes.is_none()
        && cli.global_chars.is_none() && (cli.lines.is_some() || cli.global_lines.is_some());
    EffectiveBudgets { budgets, per_file_for_priority: basis, line_budget_only }
}

/// Half of a size, and at least one.
pub open spec fn half_at_least_one(size: usize) -> usize {
    if size / 2 >= 1 {
        size / 2
    } else {
        1
    }
}

/// The sampler that the arguments ask for.
pub open spec fn sampler_of(cli: &Cli) -> ArraySamplerStrategy {
    if cli.tail {
        ArraySamplerStrategy::Tail
    } else if cli.head {
        ArraySamplerStrategy::Head
    } else {
        ArraySamplerStrategy::Default
    }
}

/// The knobs of ingest and ordering for the arguments: arrays keep as many
/// items as half the size per file.
pub fn build_priority_config(cli: &Cli, effective: &EffectiveBudgets) -> (prio: PriorityConfig)
    ensures
        prio == (PriorityConfig {
            max_string_graphemes: MAX_STRING_GRAPHEMES,
            array_max_items: half_at_least_one(effective.per_file_for_priority),
            prefer_tail_arrays: cli.tail,
            array_bias: ArrayBias::HeadMidTail,
            array_sampler: sampler_of(cli),
            line_budget_only: effective.line_budget_only,
        }),
{
    let half = effective.per_file_for_priority / 2;
    PriorityConfig {
        max_string_graphemes: MAX_STRING_GRAPHEMES,
        array_max_items: if half >= 1 {
            half
        } else {
            1
        },
        prefer_tail_arrays: cli.tail,
        array_bias: ArrayBias::HeadMidTail,
        array_sampler: if cli.tail {
            ArraySamplerStrategy::Tail
        } else if cli.head {
            ArraySamplerStrategy::Head
        } else {
            ArraySamplerStrategy::Default
        },
        line_budget_only: effective.line_budget_only,
    }
}

/// The render configuration under the budgets: where only lines are capped,
/// the start of every string, up to the length at which strings are split,
/// is free.
pub fn render_config_for_budgets(cfg: RenderConfig, effective: &EffectiveBudgets) -> (out:
    RenderConfig)
    ensures
        out == (RenderConfig {
            string_free_prefix_graphemes: if effective.line_budget_only {
                Some(MAX_STRING_GRAPHEMES)
            } else {
                cfg.string_free_prefix_graphemes
            },
            ..cfg
        }),
{
    let mut out = cfg;
    if effective.line_budget_only {
        out.string_free_prefix_graphemes = Some(MAX_STRING_GRAPHEMES);
    }
    out
}

} // verus!
