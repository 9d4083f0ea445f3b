//! ASCII letters, case-insensitive comparison, and the fixed set of common
//! short words whose whole-word split is overridden to a single emphasized
//! letter.

use vstd::prelude::*;

verus! {

/// Whether `c` is an ASCII letter.  Only ASCII letters form words; every
/// other character is a separator and passes through unchanged.
pub open spec fn is_ascii_letter(c: char) -> bool {
    (65 <= c as u32 && c as u32 <= 90) || (97 <= c as u32 && c as u32 <= 122)
}

/// Exec mirror of [`is_ascii_letter`].
pub fn ascii_letter(c: char) -> (r: bool)
    ensures
        r == is_ascii_letter(c),
{
    let u = c as u32;
    (65 <= u && u <= 90) || (97 <= u && u <= 122)
}

/// The character code with an ASCII upper-case letter folded to lower case.
pub open spec fn lower_code(c: char) -> u32 {
    if 65 <= c as u32 && c as u32 <= 90 {
        (c as u32 + 32) as u32
    } else {
        c as u32
    }
}

/// Exec mirror of [`lower_code`].
pub fn lower_code_of(c: char) -> (r: u32)
    ensures
        r == lower_code(c),
{
    let u = c as u32;
    if 65 <= u && u <= 90 {
        u + 32
    } else {
        u
    }
}

/// Equality of two character sequences up to ASCII case.
pub open spec fn eq_ignore_case(a: Seq<char>, b: Seq<char>) -> bool {
    a.len() == b.len() && forall|i: int| 0 <= i < a.len() ==> lower_code(a[i]) == lower_code(b[i])
}

/// Compares two strings up to ASCII case.
pub fn eq_ignore_case_str(a: &str, b: &str) -> (r: bool)
    ensures
        r == eq_ignore_case(a@, b@),
{
    let alen = a.unicode_len();
    let blen = b.unicode_len();
    if alen != blen {
        return false;
    }
    let mut i: usize = 0;
    while i < alen
        invariant
            i <= alen,
            alen == a@.len(),
            blen == b@.len(),
            alen == blen,
            forall|j: int| 0 <= j < i ==> lower_code(a@[j]) == lower_code(b@[j]),
        decreases alen - i,
    {
        let ca = a.get_char(i);
        let cb = b.get_char(i);
        if lower_code_of(ca) != lower_code_of(cb) {
            assert(lower_code(a@[i as int]) != lower_code(b@[i as int]));
            return false;
        }
        i += 1;
    }
    true
}

/// Whether `w` is, up to ASCII case, one of the forty common short words
/// whose whole-word split is a first-letter-only emphasis.
pub open spec fn is_common_word(w: Seq<char>) -> bool {
    ||| eq_ignore_case(w, "the"@)
    ||| eq_ignore_case(w, "be"@)
    ||| eq_ignore_case(w, "to"@)
    ||| eq_ignore_case(w, "of"@)
    ||| eq_ignore_case(w, "and"@)
    ||| eq_ignore_case(w, "a"@)
    ||| eq_ignore_case(w, "in"@)
    ||| eq_ignore_case(w, "that"@)
    ||| eq_ignore_case(w, "have"@)
    ||| eq_ignore_case(w, "i"@)
    ||| eq_ignore_case(w, "it"@)
    ||| eq_ignore_case(w, "for"@)
    ||| eq_ignore_case(w, "not"@)
    ||| eq_ignore_case(w, "on"@)
    ||| eq_ignore_case(w, "with"@)
    ||| eq_ignore_case(w, "he"@)
    ||| eq_ignore_case(w, "as"@)
    ||| eq_ignore_case(w, "you"@)
    ||| eq_ignore_case(w, "do"@)
    ||| eq_ignore_case(w, "at"@)
    ||| eq_ignore_case(w, "this"@)
    ||| eq_ignore_case(w, "but"@)
    ||| eq_ignore_case(w, "his"@)
    ||| eq_ignore_case(w, "by"@)
    ||| eq_ignore_case(w, "from"@)
    ||| eq_ignore_case(w, "they"@)
    ||| eq_ignore_case(w, "we"@)
    ||| eq_ignore_case(w, "say"@)
    ||| eq_ignore_case(w, "her"@)
    ||| eq_ignore_case(w, "she"@)
    ||| eq_ignore_case(w, "or"@)
    ||| eq_ignore_case(w, "an"@)
    ||| eq_ignore_case(w, "will"@)
    ||| eq_ignore_case(w, "my"@)
    ||| eq_ignore_case(w, "one"@)
    ||| eq_ignore_case(w, "all"@)
    ||| eq_ignore_case(w, "would"@)
    ||| eq_ignore_case(w, "there"@)
    ||| eq_ignore_case(w, "their"@)
    ||| eq_ignore_case(w, "what"@)
}

/// Whether `w` is one of the common short words, up to ASCII case.
pub fn is_common(w: &str) -> (r: bool)
    ensures
        r == is_common_word(w@),
{
    eq_ignore_case_str(w, "the") || eq_ignore_case_str(w, "be") || eq_ignore_case_str(w, "to")
        || eq_ignore_case_str(w, "of") || eq_ignore_case_str(w, "and") || eq_ignore_case_str(
        w,
        "a",
    ) || eq_ignore_case_str(w, "in") || eq_ignore_case_str(w, "that") || eq_ignore_case_str(
        w,
        "have",
    ) || eq_ignore_case_str(w, "i") || eq_ignore_case_str(w, "it") || eq_ignore_case_str(w, "for")
        || eq_ignore_case_str(w, "not") || eq_ignore_case_str(w, "on") || eq_ignore_case_str(
        w,
        "with",
    ) || eq_ignore_case_str(w, "he") || eq_ignore_case_str(w, "as") || eq_ignore_case_str(
        w,
        "you",
    ) || eq_ignore_case_str(w, "do") || eq_ignore_case_str(w, "at") || eq_ignore_case_str(
        w,
        "this",
    ) || eq_ignore_case_str(w, "but") || eq_ignore_case_str(w, "his") || eq_ignore_case_str(
        w,
        "by",
    ) || eq_ignore_case_str(w, "from") || eq_ignore_case_str(w, "they") || eq_ignore_case_str(
        w,
        "we",
    ) || eq_ignore_case_str(w, "say") || eq_ignore_case_str(w, "her") || eq_ignore_case_str(
        w,
        "she",
    ) || eq_ignore_case_str(w, "or") || eq_ignore_case_str(w, "an") || eq_ignore_case_str(
        w,
        "will",
    ) || eq_ignore_case_str(w, "my") || eq_ignore_case_str(w, "one") || eq_ignore_case_str(
        w,
        "all",
    ) || eq_ignore_case_str(w, "would") || eq_ignore_case_str(w, "there") || eq_ignore_case_str(
        w,
        "their",
    ) || eq_ignore_case_str(w, "what")
}

} // verus!
