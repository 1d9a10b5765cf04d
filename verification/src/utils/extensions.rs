use crate::utils::text::{ends_with, has_suffix};
use vstd::prelude::*;

verus! {

/// A name in small letters ends in one of the extensions of code files:
/// `.py .ts .tsx .js .jsx .go .rs .cpp .cc .java .sh .c .h`.
pub open spec fn code_like(lower_name: Seq<char>) -> bool {
    ||| has_suffix(lower_name, ".py"@)
    ||| has_suffix(lower_name, ".ts"@)
    ||| has_suffix(lower_name, ".tsx"@)
    ||| has_suffix(lower_name, ".js"@)
    ||| has_suffix(lower_name, ".jsx"@)
    ||| has_suffix(lower_name, ".go"@)
    ||| has_suffix(lower_name, ".rs"@)
    ||| has_suffix(lower_name, ".cpp"@)
    ||| has_suffix(lower_name, ".cc"@)
    ||| has_suffix(lower_name, ".java"@)
    ||| has_suffix(lower_name, ".sh"@)
    ||| has_suffix(lower_name, ".c"@)
    ||| has_suffix(lower_name, ".h"@)
}

/// Whether a name in small letters is that of a code file.
pub fn is_code_like_name(lower_name: &str) -> (code: bool)
    ensures
        code == code_like(lower_name@),
{
    ends_with(lower_name, ".py") || ends_with(lower_name, ".ts") || ends_with(lower_name, ".tsx")
        || ends_with(lower_name, ".js") || ends_with(lower_name, ".jsx") || ends_with(
        lower_name,
        ".go",
    ) || ends_with(lower_name, ".rs") || ends_with(lower_name, ".cpp") || ends_with(
        lower_name,
        ".cc",
    ) || ends_with(lower_name, ".java") || ends_with(lower_name, ".sh") || ends_with(
        lower_name,
        ".c",
    ) || ends_with(lower_name, ".h")
}

} // verus!
