//! Default terminal styling, supplied by `anstyle`.
//!
//! The default emphasis is ANSI bold and the default de-emphasis is ANSI
//! dim.  `anstyle` renders a style's opening escape through `Display` and
//! the closing reset escape through the alternate form; both depend on
//! nothing but the style itself.

use vstd::prelude::*;
use vstd::string::StrSliceExecFns;

verus! {

/// Index of the first `{}` placeholder at or after `from`, if any.
pub open spec fn placeholder_at(s: Seq<char>, from: nat) -> Option<nat>
    decreases s.len() - from,
{
    if from + 1 >= s.len() {
        None
    } else if s[from as int] == '{' && s[from as int + 1] == '}' {
        Some(from)
    } else {
        placeholder_at(s, from + 1)
    }
}

/// Split a marker-override string at its first `{}` placeholder: the text
/// before it becomes the opening wrapper, the text after it the closing
/// one.  A string without the placeholder is a configuration error and is
/// rejected.
pub fn split_marker(s: &str) -> (r: Option<(String, String)>)
    ensures
        placeholder_at(s@, 0) is None ==> r is None,
        placeholder_at(s@, 0) matches Some(p) ==> (r matches Some(pair) && pair.0@ == s@.take(
            p as int,
        ) && pair.1@ == s@.skip(p as int + 2)),
{
    let n = s.unicode_len();
    let mut i: usize = 0;
    while n >= 1 && i < n - 1
        invariant
            n == s@.len(),
            i <= n,
            placeholder_at(s@, 0) == placeholder_at(s@, i as nat),
        decreases n - i,
    {
        if s.get_char(i) == '{' && s.get_char(i + 1) == '}' {
            let left = s.substring_char(0, i).to_owned();
            let right = s.substring_char(i + 2, n).to_owned();
            proof {
                assert(left@ =~= s@.take(i as int));
                assert(right@ =~= s@.skip(i as int + 2));
            }
            return Some((left, right));
        }
        i = i + 1;
    }
    None
}

/// Relies on `anstyle::Style`: a bold style displays as the ANSI escape
/// `ESC[1m`, and its alternate form as the reset escape `ESC[0m`.
#[verifier::external_body]
pub(crate) fn ansi_bold_pair() -> (r: (String, String))
    ensures
        r.0@ == "\u{1b}[1m"@,
        r.1@ == "\u{1b}[0m"@,
{
    let style = anstyle::Style::new().bold();
    (format!("{style}"), format!("{style:#}"))
}

/// Relies on `anstyle::Style`: a dimmed style displays as the ANSI escape
/// `ESC[2m`, and its alternate form as the reset escape `ESC[0m`.
#[verifier::external_body]
pub(crate) fn ansi_dimmed_pair() -> (r: (String, String))
    ensures
        r.0@ == "\u{1b}[2m"@,
        r.1@ == "\u{1b}[0m"@,
{
    let style = anstyle::Style::new().dimmed();
    (format!("{style}"), format!("{style:#}"))
}

} // verus!
