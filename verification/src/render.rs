//! Specification of the rendered output.
//!
//! Both processing modes tokenize the input into maximal runs of ASCII
//! letters (words) and single separator characters.  A word is emitted as an
//! emphasized prefix and a de-emphasized suffix, each inside its wrapper
//! pair; a separator passes through unchanged.  The modes differ only in how
//! the suffix length of a word is chosen.

use crate::tables::scan_suffix_len;
use crate::tables::stream_suffix_len;
use crate::words::is_ascii_letter;
use crate::words::is_common_word;
use vstd::prelude::*;

verus! {

/// Ghost view of a configured reader: the two wrapper pairs and the
/// threshold table in force.
pub struct ReaderView {
    pub em_open: Seq<char>,
    pub em_close: Seq<char>,
    pub de_open: Seq<char>,
    pub de_close: Seq<char>,
    pub table: Seq<usize>,
}

/// Length of the leading run of ASCII letters of `s`.
pub open spec fn run_len(s: Seq<char>) -> nat
    decreases s.len(),
{
    if s.len() == 0 || !is_ascii_letter(s[0]) {
        0
    } else {
        1 + run_len(s.skip(1))
    }
}

/// The leading letter run is never longer than the sequence, and is
/// non-empty exactly when the sequence starts with a letter.
pub proof fn lemma_run_len_bounds(s: Seq<char>)
    ensures
        run_len(s) <= s.len(),
        s.len() > 0 && is_ascii_letter(s[0]) ==> run_len(s) >= 1,
        forall|i: int| 0 <= i < run_len(s) ==> is_ascii_letter(s[i]),
        run_len(s) < s.len() ==> !is_ascii_letter(s[run_len(s) as int]),
    decreases s.len(),
{
    if s.len() > 0 && is_ascii_letter(s[0]) {
        lemma_run_len_bounds(s.skip(1));
        assert forall|i: int| 0 <= i < run_len(s) implies is_ascii_letter(s[i]) by {
            if i > 0 {
                assert(is_ascii_letter(s.skip(1)[i - 1]));
            }
        }
    }
}

/// A word `w` wrapped for output with a de-emphasized suffix of `k`
/// characters: the prefix inside the emphasis pair, then, only when the
/// suffix is non-empty, the suffix inside the de-emphasis pair.
pub open spec fn wrap_word(v: ReaderView, w: Seq<char>, k: nat) -> Seq<char>
    recommends
        k <= w.len(),
{
    v.em_open + w.take(w.len() - k) + v.em_close + (if k == 0 {
        Seq::<char>::empty()
    } else {
        v.de_open + w.skip(w.len() - k) + v.de_close
    })
}

/// Output of the streaming mode on `s`: every word of length `n` gets a
/// suffix of `stream_suffix_len(v.table, n)` characters; separators pass
/// through unchanged.  The common-word set is not consulted.
pub open spec fn stream_render(v: ReaderView, s: Seq<char>) -> Seq<char>
    decreases s.len(),
    via stream_render_dec
{
    if s.len() == 0 {
        Seq::<char>::empty()
    } else if !is_ascii_letter(s[0]) {
        seq![s[0]] + stream_render(v, s.skip(1))
    } else {
        let n = run_len(s);
        wrap_word(v, s.take(n as int), stream_suffix_len(v.table, n)) + stream_render(
            v,
            s.skip(n as int),
        )
    }
}

#[via_fn]
proof fn stream_render_dec(v: ReaderView, s: Seq<char>) {
    lemma_run_len_bounds(s);
}

/// Suffix length chosen by whole-word mode for the word `w`: a common word
/// keeps only its first letter emphasized; any other word follows the table
/// scan on its length.
pub open spec fn word_suffix_len(t: Seq<usize>, w: Seq<char>) -> nat
    recommends
        w.len() >= 1,
{
    if is_common_word(w) {
        (w.len() - 1) as nat
    } else {
        scan_suffix_len(t, w.len())
    }
}

/// Output of the whole-word mode on `s`: like [`stream_render`], but each
/// word's suffix comes from [`word_suffix_len`].
pub open spec fn word_render(v: ReaderView, s: Seq<char>) -> Seq<char>
    decreases s.len(),
    via word_render_dec
{
    if s.len() == 0 {
        Seq::<char>::empty()
    } else if !is_ascii_letter(s[0]) {
        seq![s[0]] + word_render(v, s.skip(1))
    } else {
        let n = run_len(s);
        wrap_word(v, s.take(n as int), word_suffix_len(v.table, s.take(n as int))) + word_render(
            v,
            s.skip(n as int),
        )
    }
}

#[via_fn]
proof fn word_render_dec(v: ReaderView, s: Seq<char>) {
    lemma_run_len_bounds(s);
}

/// If some position of `a` holds a separator, the leading letter run of
/// `a + b` lies entirely inside `a`.
pub proof fn lemma_run_len_within(a: Seq<char>, b: Seq<char>, j: int)
    requires
        0 <= j < a.len(),
        !is_ascii_letter(a[j]),
    ensures
        run_len(a + b) == run_len(a) <= j,
    decreases a.len(),
{
    if is_ascii_letter(a[0]) {
        assert((a + b).skip(1) =~= a.skip(1) + b);
        lemma_run_len_within(a.skip(1), b, j - 1);
    } else {
        assert(!is_ascii_letter((a + b)[0]));
    }
}

/// The leading letter run of an all-letter word followed by anything that
/// does not start with a letter is the whole word.
pub proof fn lemma_run_len_word(w: Seq<char>, rest: Seq<char>)
    requires
        forall|i: int| 0 <= i < w.len() ==> is_ascii_letter(w[i]),
        rest.len() == 0 || !is_ascii_letter(rest[0]),
    ensures
        run_len(w + rest) == w.len(),
    decreases w.len(),
{
    if w.len() == 0 {
        assert(w + rest =~= rest);
    } else {
        assert((w + rest).skip(1) =~= w.skip(1) + rest);
        lemma_run_len_word(w.skip(1), rest);
    }
}

/// Rendering distributes over concatenation at a word boundary: when `a`
/// does not end in the middle of a word, `a` and `b` render independently.
pub proof fn lemma_stream_render_append(v: ReaderView, a: Seq<char>, b: Seq<char>)
    requires
        a.len() == 0 || !is_ascii_letter(a.last()),
    ensures
        stream_render(v, a + b) == stream_render(v, a) + stream_render(v, b),
    decreases a.len(),
{
    if a.len() == 0 {
        assert(a + b =~= b);
        assert(stream_render(v, a) + stream_render(v, b) =~= stream_render(v, b));
    } else if !is_ascii_letter(a[0]) {
        assert((a + b).skip(1) =~= a.skip(1) + b);
        lemma_stream_render_append(v, a.skip(1), b);
        assert(stream_render(v, a + b) =~= stream_render(v, a) + stream_render(v, b));
    } else {
        let n = run_len(a) as int;
        lemma_run_len_within(a, b, a.len() - 1);
        lemma_run_len_bounds(a);
        assert((a + b).take(n) =~= a.take(n));
        assert((a + b).skip(n) =~= a.skip(n) + b);
        assert(a.skip(n).last() == a.last());
        lemma_stream_render_append(v, a.skip(n), b);
        assert(stream_render(v, a + b) =~= stream_render(v, a) + stream_render(v, b));
    }
}

/// Same distribution law for the whole-word mode.
pub proof fn lemma_word_render_append(v: ReaderView, a: Seq<char>, b: Seq<char>)
    requires
        a.len() == 0 || !is_ascii_letter(a.last()),
    ensures
        word_render(v, a + b) == word_render(v, a) + word_render(v, b),
    decreases a.len(),
{
    if a.len() == 0 {
        assert(a + b =~= b);
        assert(word_render(v, a) + word_render(v, b) =~= word_render(v, b));
    } else if !is_ascii_letter(a[0]) {
        assert((a + b).skip(1) =~= a.skip(1) + b);
        lemma_word_render_append(v, a.skip(1), b);
        assert(word_render(v, a + b) =~= word_render(v, a) + word_render(v, b));
    } else {
        let n = run_len(a) as int;
        lemma_run_len_within(a, b, a.len() - 1);
        lemma_run_len_bounds(a);
        assert((a + b).take(n) =~= a.take(n));
        assert((a + b).skip(n) =~= a.skip(n) + b);
        assert(a.skip(n).last() == a.last());
        lemma_word_render_append(v, a.skip(n), b);
        assert(word_render(v, a + b) =~= word_render(v, a) + word_render(v, b));
    }
}

/// A single all-letter word renders as one wrapped word, in streaming mode.
pub proof fn lemma_stream_render_word(v: ReaderView, w: Seq<char>)
    requires
        w.len() >= 1,
        forall|i: int| 0 <= i < w.len() ==> is_ascii_letter(w[i]),
    ensures
        stream_render(v, w) == wrap_word(v, w, stream_suffix_len(v.table, w.len())),
{
    assert(w + Seq::<char>::empty() =~= w);
    lemma_run_len_word(w, Seq::<char>::empty());
    assert(w.take(w.len() as int) =~= w);
    assert(stream_render(v, w.skip(w.len() as int)) =~= Seq::<char>::empty());
    assert(stream_render(v, w) =~= wrap_word(v, w, stream_suffix_len(v.table, w.len())));
}

/// A single all-letter word renders as one wrapped word, in whole-word mode.
pub proof fn lemma_word_render_word(v: ReaderView, w: Seq<char>)
    requires
        w.len() >= 1,
        forall|i: int| 0 <= i < w.len() ==> is_ascii_letter(w[i]),
    ensures
        word_render(v, w) == wrap_word(v, w, word_suffix_len(v.table, w)),
{
    assert(w + Seq::<char>::empty() =~= w);
    lemma_run_len_word(w, Seq::<char>::empty());
    assert(w.take(w.len() as int) =~= w);
    assert(word_render(v, w.skip(w.len() as int)) =~= Seq::<char>::empty());
    assert(word_render(v, w) =~= wrap_word(v, w, word_suffix_len(v.table, w)));
}

/// Separators render as themselves: on input without any letter, both modes
/// return the input unchanged.
pub proof fn lemma_render_passthrough(v: ReaderView, s: Seq<char>)
    requires
        forall|i: int| 0 <= i < s.len() ==> !is_ascii_letter(s[i]),
    ensures
        stream_render(v, s) == s,
        word_render(v, s) == s,
    decreases s.len(),
{
    if s.len() > 0 {
        lemma_render_passthrough(v, s.skip(1));
        assert(stream_render(v, s) =~= s);
        assert(word_render(v, s) =~= s);
    }
}

} // verus!
