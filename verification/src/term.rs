//! People-friendly text for the terminal: Windows' internal verbatim path
//! prefixes removed from paths and diagnostics.

use vstd::prelude::*;
use crate::text::{replace_all, replace_str};

verus! {

/// `text` with every `\\?\UNC\` written `\\` and every other `\\?\` dropped.
pub open spec fn verbatim_stripped(text: Seq<char>) -> Seq<char> {
    replace_all(replace_all(text, "\\\\?\\UNC\\"@, "\\\\"@), "\\\\?\\"@, ""@)
}

/// Drops Windows' internal verbatim prefixes when `windows` holds, and keeps
/// `text` as it is otherwise.
pub fn strip_verbatim_for(text: &str, windows: bool) -> (r: String)
    ensures
        r@ == (if windows {
            verbatim_stripped(text@)
        } else {
            text@
        }),
{
    if !windows {
        return text.to_owned();
    }
    proof {
        reveal_strlit("\\\\?\\UNC\\");
        reveal_strlit("\\\\?\\");
    }
    let unc = replace_str(text, "\\\\?\\UNC\\", "\\\\");
    replace_str(unc.as_str(), "\\\\?\\", "")
}

/// `std::path::MAIN_SEPARATOR`, the separator of path components on the
/// platform the program was built for. Nothing is claimed of the result.
#[verifier::external_body]
fn main_separator() -> char {
    std::path::MAIN_SEPARATOR
}

/// Whether paths here are Windows paths, with `\` separating components.
pub fn windows_paths() -> bool {
    main_separator() == '\\'
}

/// Drops Windows' internal verbatim prefix (`\\?\`, and `\\?\UNC\` for network
/// paths) from path-like text so terminal output stays readable. Occurrences
/// anywhere in the text are removed, not just a leading one, because typst
/// embeds these paths inside its diagnostics. Elsewhere than on Windows (a
/// `/` path separator) the text is returned unchanged.
pub fn strip_verbatim(text: &str) -> (r: String)
    ensures
        r@ == text@ || r@ == verbatim_stripped(text@),
{
    strip_verbatim_for(text, windows_paths())
}

/// Formats a path for people instead of exposing Windows' internal verbatim
/// path prefix (for example `\\?\D:\...`) in terminal output.
pub fn display_path(path: &str) -> (r: String)
    ensures
        r@ == path@ || r@ == verbatim_stripped(path@),
{
    strip_verbatim(path)
}

} // verus!
