//! The library's stated properties, proved once and for all inputs.

use crate::render::ReaderView;
use crate::render::lemma_render_passthrough;
use crate::render::lemma_run_len_bounds;
use crate::render::lemma_stream_render_append;
use crate::render::lemma_word_render_append;
use crate::render::run_len;
use crate::render::stream_render;
use crate::render::word_render;
use crate::render::word_suffix_len;
use crate::tables::is_builtin_table;
use crate::tables::lemma_builtin_facts_of;
use crate::tables::lemma_builtin_table_facts;
use crate::tables::lemma_fixation_four_divergence;
use crate::tables::lemma_scan_suffix_mono;
use crate::tables::lemma_stream_suffix_mono;
use crate::tables::modes_agree_at;
use crate::tables::scan_suffix_len;
use crate::tables::stream_suffix_len;
use crate::tables::table_spec;
use crate::words::eq_ignore_case;
use crate::words::is_ascii_letter;
use crate::words::is_common_word;
use vstd::prelude::*;

verus! {

/// Round-trip structural invariant: for every word and every fixation
/// point, the whole-word split recomposes the word, and the emphasized
/// prefix is non-empty — except for a one-letter word outside the
/// common-word set under a table whose first threshold is 0 (fixation
/// points 1, 4 and 5), where the single letter is de-emphasized.
pub proof fn lemma_split_word_round_trip(fp: int, w: Seq<char>)
    requires
        w.len() >= 1,
        !(w.len() == 1 && table_spec(fp)[0] == 0 && !is_common_word(w)),
    ensures
        word_suffix_len(table_spec(fp), w) <= w.len(),
        w.take(w.len() - word_suffix_len(table_spec(fp), w)) + w.skip(
            w.len() - word_suffix_len(table_spec(fp), w),
        ) == w,
        w.take(w.len() - word_suffix_len(table_spec(fp), w)).len() > 0,
{
    lemma_builtin_table_facts(fp);
    let k = word_suffix_len(table_spec(fp), w);
    assert(k <= w.len());
    assert(w.take(w.len() - k) + w.skip(w.len() - k) =~= w);
    if !is_common_word(w) {
        if w.len() == 1 {
            assert(scan_suffix_len(table_spec(fp), 1) == 0);
        } else {
            assert(scan_suffix_len(table_spec(fp), w.len()) < w.len());
        }
    }
}

/// Equivalence of modes: a word outside the common-word set gets the same
/// suffix length — and so the same (prefix, suffix) boundary — from the
/// streaming rule and from the whole-word scan, at every fixation point,
/// away from the two word lengths (21 and 22) where fixation point 4's
/// out-of-order duplicate threshold makes the two rules differ.
pub proof fn lemma_equivalence_of_modes(fp: int, w: Seq<char>)
    requires
        !is_common_word(w),
        !(fp == 4 && (w.len() == 21 || w.len() == 22)),
    ensures
        stream_suffix_len(table_spec(fp), w.len()) == word_suffix_len(table_spec(fp), w),
{
    lemma_builtin_table_facts(fp);
    assert(modes_agree_at(table_spec(fp), w.len()));
}

/// Monotonicity: at a fixed fixation point, a longer word never gets a
/// shorter de-emphasized suffix, under either mode's rule.
pub proof fn lemma_suffix_monotone(fp: int, l1: nat, l2: nat)
    requires
        l1 <= l2,
    ensures
        stream_suffix_len(table_spec(fp), l1) <= stream_suffix_len(table_spec(fp), l2),
        scan_suffix_len(table_spec(fp), l1) <= scan_suffix_len(table_spec(fp), l2),
{
    lemma_builtin_table_facts(fp);
    lemma_stream_suffix_mono(table_spec(fp), l1, l2);
    lemma_scan_suffix_mono(table_spec(fp), l1, l2);
}

/// Separator passthrough: input without letters renders as itself in both
/// modes, and a run of separators in front of anything appears unchanged
/// and in its original place in the output.
pub proof fn lemma_separator_passthrough(v: ReaderView, a: Seq<char>, b: Seq<char>)
    requires
        forall|i: int| 0 <= i < a.len() ==> !is_ascii_letter(a[i]),
    ensures
        stream_render(v, a) == a,
        word_render(v, a) == a,
        stream_render(v, a + b) == a + stream_render(v, b),
        word_render(v, a + b) == a + word_render(v, b),
{
    lemma_render_passthrough(v, a);
    if a.len() == 0 {
        assert(a + b =~= b);
        assert(a + stream_render(v, b) =~= stream_render(v, b));
        assert(a + word_render(v, b) =~= word_render(v, b));
    } else {
        lemma_stream_render_append(v, a, b);
        lemma_word_render_append(v, a, b);
    }
}

/// Every word of `s` is outside the common-word set, and none has one of
/// the two lengths on which fixation point 4's table makes the two suffix
/// rules differ.
pub open spec fn words_uncommon(t: Seq<usize>, s: Seq<char>) -> bool
    decreases s.len(),
    via words_uncommon_dec
{
    if s.len() == 0 {
        true
    } else if !is_ascii_letter(s[0]) {
        words_uncommon(t, s.skip(1))
    } else {
        let n = run_len(s);
        &&& !is_common_word(s.take(n as int))
        &&& !(t == table_spec(4) && (n == 21 || n == 22))
        &&& words_uncommon(t, s.skip(n as int))
    }
}

#[via_fn]
proof fn words_uncommon_dec(t: Seq<usize>, s: Seq<char>) {
    lemma_run_len_bounds(s);
}

/// Equivalence of modes over whole inputs: when every word of the input is
/// covered by [`lemma_equivalence_of_modes`], the streaming mode and the
/// whole-word mode render the entire input identically.
pub proof fn lemma_equivalence_of_modes_rendered(v: ReaderView, s: Seq<char>)
    requires
        is_builtin_table(v.table),
        words_uncommon(v.table, s),
    ensures
        stream_render(v, s) == word_render(v, s),
    decreases s.len(),
{
    lemma_builtin_facts_of(v.table);
    if s.len() == 0 {
    } else if !is_ascii_letter(s[0]) {
        lemma_equivalence_of_modes_rendered(v, s.skip(1));
        assert(stream_render(v, s) =~= word_render(v, s));
    } else {
        let n = run_len(s);
        lemma_run_len_bounds(s);
        assert(modes_agree_at(v.table, n));
        lemma_equivalence_of_modes_rendered(v, s.skip(n as int));
        assert(stream_render(v, s) =~= word_render(v, s));
    }
}

/// The documented divergence behind the exclusions above: at fixation
/// point 4 — whose table embeds an out-of-order duplicate threshold — the
/// streaming rule and the whole-word scan give a word of 21 letters
/// different suffix lengths (13 and 14 respectively).
pub proof fn lemma_modes_divergence_example()
    ensures
        stream_suffix_len(table_spec(4), 21) != scan_suffix_len(table_spec(4), 21),
{
    lemma_fixation_four_divergence();
}

/// Common-word override, whole-word mode only: "the" is a common word, so
/// it splits as ("t", "he") under every fixation point's table.
pub proof fn lemma_common_word_override(fp: int)
    ensures
        is_common_word("the"@),
        word_suffix_len(table_spec(fp), "the"@) == "the"@.len() - 1,
        "the"@.take("the"@.len() - word_suffix_len(table_spec(fp), "the"@)) == "t"@,
        "the"@.skip("the"@.len() - word_suffix_len(table_spec(fp), "the"@)) == "he"@,
{
    reveal_strlit("the");
    reveal_strlit("t");
    reveal_strlit("he");
    assert(eq_ignore_case("the"@, "the"@));
    assert("the"@.take(1) =~= "t"@);
    assert("the"@.skip(1) =~= "he"@);
}

} // verus!
