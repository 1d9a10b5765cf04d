use crate::serialization::types::ColorMode;
use vstd::prelude::*;

verus! {

/// The syntactic role of a piece of output, which decides its color.
#[derive(Copy, Clone, Debug, PartialEq, Eq, Structural)]
pub enum ColorRole {
    Key,
    String,
    Number,
    Bool,
    Null,
    Punct,
    Pipe,
    Match,
}

/// The escape sequence that switches a role's color on.
pub open spec fn sgr_on(role: ColorRole) -> Seq<char> {
    match role {
        ColorRole::Key => "\x1b[1;34m"@,
        ColorRole::String => "\x1b[32m"@,
        ColorRole::Number => "\x1b[36m"@,
        ColorRole::Bool => "\x1b[33m"@,
        ColorRole::Null => "\x1b[90m"@,
        ColorRole::Punct => ""@,
        ColorRole::Pipe => "\x1b[90m"@,
        ColorRole::Match => "\x1b[31m"@,
    }
}

/// The escape sequence that switches a role's color off again.
pub open spec fn sgr_off(role: ColorRole) -> Seq<char> {
    match role {
        ColorRole::Punct => ""@,
        ColorRole::Match => "\x1b[39m"@,
        _ => "\x1b[0m"@,
    }
}

/// A text in the color of its role, or bare when color is disabled.
pub open spec fn colored(role: ColorRole, text: Seq<char>, enabled: bool) -> Seq<char> {
    if enabled {
        sgr_on(role) + text + sgr_off(role)
    } else {
        text
    }
}

pub fn sgr_on_code(role: ColorRole) -> (code: &'static str)
    ensures
        code@ == sgr_on(role),
{
    match role {
        ColorRole::Key => "\x1b[1;34m",
        ColorRole::String => "\x1b[32m",
        ColorRole::Number => "\x1b[36m",
        ColorRole::Bool => "\x1b[33m",
        ColorRole::Null => "\x1b[90m",
        ColorRole::Punct => "",
        ColorRole::Pipe => "\x1b[90m",
        ColorRole::Match => "\x1b[31m",
    }
}

pub fn sgr_off_code(role: ColorRole) -> (code: &'static str)
    ensures
        code@ == sgr_off(role),
{
    match role {
        ColorRole::Punct => "",
        ColorRole::Match => "\x1b[39m",
        _ => "\x1b[0m",
    }
}

/// Append `text` in the color of `role`, or bare when color is disabled.
pub fn push_colored(out: &mut String, role: ColorRole, text: &str, enabled: bool)
    ensures
        final(out)@ == old(out)@ + colored(role, text@, enabled),
{
    if enabled {
        out.push_str(sgr_on_code(role));
        out.push_str(text);
        out.push_str(sgr_off_code(role));
        assert(out@ =~= old(out)@ + colored(role, text@, enabled));
    } else {
        out.push_str(text);
    }
}

/// Wrap `text` in the color of `role`; the bare text when color is disabled.
pub fn apply(role: ColorRole, text: &str, enabled: bool) -> (painted: String)
    ensures
        painted@ == colored(role, text@, enabled),
{
    let mut painted = String::new();
    push_colored(&mut painted, role, text, enabled);
    assert(painted@ =~= colored(role, text@, enabled));
    painted
}

/// Whether output is colored: always or never when the mode says so, and in
/// automatic mode when color is forced or the output is a terminal.
pub fn resolve_color_enabled(mode: ColorMode, force_color: bool, stdout_is_terminal: bool) -> (on:
    bool)
    ensures
        on == match mode {
            ColorMode::On => true,
            ColorMode::Off => false,
            ColorMode::Auto => force_color || stdout_is_terminal,
        },
{
    match mode {
        ColorMode::On => true,
        ColorMode::Off => false,
        ColorMode::Auto => force_color || stdout_is_terminal,
    }
}

} // verus!
