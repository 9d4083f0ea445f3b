//! Whole-word mode: splitting a word that is known in full.

use crate::reader::BioReader;
use crate::render::word_suffix_len;
use crate::tables::scan_from;
use crate::tables::scan_suffix_len;
use crate::tables::table_valid;
use crate::words::is_ascii_letter;
use crate::words::is_common;
use vstd::prelude::*;
use vstd::string::StrSliceExecFns;

verus! {

/// First index whose threshold is at least `len`, or the table's length
/// when no threshold qualifies.
fn scan_index(table: &Vec<usize>, len: usize) -> (k: usize)
    ensures
        k == scan_suffix_len(table@, len as nat),
{
    let mut j: usize = 0;
    while j < table.len()
        invariant
            j <= table@.len(),
            scan_suffix_len(table@, len as nat) == scan_from(table@, len as nat, j as nat),
        decreases table@.len() - j,
    {
        if table[j] >= len {
            return j;
        }
        j = j + 1;
    }
    j
}

impl BioReader {
    /// Split one whole word into its emphasized prefix and de-emphasized
    /// suffix.  A common short word keeps exactly its first letter; any
    /// other word is split by the first threshold reaching its length.
    /// Prefix and suffix always recompose the word.
    pub fn split_word(word: &str, table: &Vec<usize>) -> (r: (String, String))
        requires
            word@.len() >= 1,
            forall|i: int| 0 <= i < word@.len() ==> is_ascii_letter(word@[i]),
            table_valid(table@),
        ensures
            word_suffix_len(table@, word@) <= word@.len(),
            r.0@ == word@.take(word@.len() - word_suffix_len(table@, word@)),
            r.1@ == word@.skip(word@.len() - word_suffix_len(table@, word@)),
    {
        let len = word.unicode_len();
        let k = if is_common(word) {
            len - 1
        } else {
            scan_index(table, len)
        };
        proof {
            assert(scan_suffix_len(table@, len as nat) <= len as nat);
            assert(k == word_suffix_len(table@, word@));
        }
        let split = len - k;
        let prefix = word.substring_char(0, split).to_owned();
        let suffix = word.substring_char(split, len).to_owned();
        proof {
            assert(prefix@ =~= word@.take(word@.len() - word_suffix_len(table@, word@)));
            assert(suffix@ =~= word@.skip(word@.len() - word_suffix_len(table@, word@)));
        }
        (prefix, suffix)
    }
}

} // verus!
