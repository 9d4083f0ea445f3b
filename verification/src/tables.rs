//! The fixation-boundary model.
//!
//! A fixation table is an ordered sequence of word-length thresholds.  For a
//! word of length `len`, the index of the first threshold that is at least
//! `len` (scanning left to right) is the number of trailing characters that
//! stay de-emphasized; see [`scan_suffix_len`].  The streaming mode instead
//! derives a reverse (staircase) form of the table by a single forward sweep,
//! modelled by [`fix_at`], and reads the suffix length off that staircase;
//! see [`stream_suffix_len`].

use vstd::prelude::*;

verus! {

/// The built-in threshold table for a fixation point in `[1, 5]`.
/// Any other argument silently selects fixation point 1's table.
pub open spec fn table_spec(fixation_point: int) -> Seq<usize> {
    if fixation_point == 2 {
        seq![1usize, 2, 7, 10, 13, 14, 19, 22, 25, 28, 31, 34, 37, 40, 43, 46, 49]
    } else if fixation_point == 3 {
        seq![
            1usize, 2, 5, 7, 9, 11, 13, 15, 17, 19, 21, 23, 25, 27, 29, 31, 33, 35, 37, 39, 41,
            43, 45, 47, 49,
        ]
    } else if fixation_point == 4 {
        seq![
            0usize, 2, 4, 5, 6, 8, 9, 11, 14, 15, 17, 18, 20, 0, 21, 23, 24, 26, 27, 29, 30, 32,
            33, 35, 36, 38, 39, 41, 42, 44, 45, 47, 48,
        ]
    } else if fixation_point == 5 {
        seq![
            0usize, 2, 3, 5, 6, 7, 8, 10, 11, 12, 14, 15, 17, 19, 20, 21, 23, 24, 25, 26, 28, 29,
            30, 32, 33, 34, 35, 37, 38, 39, 41, 42, 43, 44, 46, 47, 48,
        ]
    } else {
        seq![0usize, 4, 12, 17, 24, 29, 35, 42, 48]
    }
}

/// Whether `t` is one of the five built-in tables.
pub open spec fn is_builtin_table(t: Seq<usize>) -> bool {
    ||| t == table_spec(1)
    ||| t == table_spec(2)
    ||| t == table_spec(3)
    ||| t == table_spec(4)
    ||| t == table_spec(5)
}

/// The value of the sweep cursor after the first `i` positions of the forward
/// sweep that builds the reverse table: the cursor starts at 0 and advances
/// once at every position that has reached the threshold it points at.
/// `fix_at(t, i)` is the number of trailing characters left de-emphasized for
/// a word of length `i`, as the streaming mode computes it, valid for
/// `i <= t.last()`.
pub open spec fn fix_at(t: Seq<usize>, i: nat) -> nat
    decreases i,
{
    if i == 0 {
        0
    } else {
        let f = fix_at(t, (i - 1) as nat);
        if f < t.len() && i - 1 >= t[f as int] {
            f + 1
        } else {
            f
        }
    }
}

/// First index `j` at or after `from` with `t[j] >= len`, or `t.len()` if
/// there is none.
pub open spec fn scan_from(t: Seq<usize>, len: nat, from: nat) -> nat
    decreases t.len() - from,
{
    if from >= t.len() {
        t.len()
    } else if t[from as int] >= len {
        from
    } else {
        scan_from(t, len, from + 1)
    }
}

/// De-emphasized suffix length for a word of length `len` in whole-word mode:
/// the index of the first threshold that is at least `len`, or `t.len()` if
/// no threshold qualifies.
pub open spec fn scan_suffix_len(t: Seq<usize>, len: nat) -> nat {
    scan_from(t, len, 0)
}

/// De-emphasized suffix length for a word of length `len` in streaming mode:
/// read off the reverse table for lengths it covers, and one more than its
/// last entry for longer words.
pub open spec fn stream_suffix_len(t: Seq<usize>, len: nat) -> nat
    recommends
        t.len() > 0,
{
    if len <= t.last() {
        fix_at(t, len)
    } else {
        fix_at(t, t.last() as nat) + 1
    }
}

/// Number of leading characters of a word of length `r` that are already
/// certain to be emphasized after `r` letters have been read.
pub open spec fn committed_len(t: Seq<usize>, r: nat) -> nat
    recommends
        t.len() > 0,
{
    if stream_suffix_len(t, r) <= r {
        (r - stream_suffix_len(t, r)) as nat
    } else {
        0
    }
}

/// A table never asks to de-emphasize more characters than a word has.
pub open spec fn table_valid(t: Seq<usize>) -> bool {
    &&& t.len() > 0
    &&& forall|len: nat| scan_suffix_len(t, len) <= len
}

/// The sweep cursor advances by at most one per position.
pub proof fn lemma_fix_at_step(t: Seq<usize>, i: nat)
    ensures
        fix_at(t, i) <= fix_at(t, (i + 1) as nat) <= fix_at(t, i) + 1,
{
}

/// The sweep cursor never decreases, and gains at most one per position.
pub proof fn lemma_fix_at_mono(t: Seq<usize>, i: nat, j: nat)
    requires
        i <= j,
    ensures
        fix_at(t, i) <= fix_at(t, j) <= fix_at(t, i) + (j - i),
    decreases j - i,
{
    if i < j {
        lemma_fix_at_mono(t, i, (j - 1) as nat);
        lemma_fix_at_step(t, (j - 1) as nat);
    }
}

/// The sweep cursor is bounded by the number of positions swept.
pub proof fn lemma_fix_at_le(t: Seq<usize>, i: nat)
    ensures
        fix_at(t, i) <= i,
{
    lemma_fix_at_mono(t, 0, i);
}

/// The sweep cursor never passes the end of the table.
pub proof fn lemma_fix_at_le_len(t: Seq<usize>, i: nat)
    ensures
        fix_at(t, i) <= t.len(),
    decreases i,
{
    if i > 0 {
        lemma_fix_at_le_len(t, (i - 1) as nat);
    }
}

/// The scan never passes the end of the table.
pub proof fn lemma_scan_le_len(t: Seq<usize>, len: nat, from: nat)
    ensures
        scan_from(t, len, from) <= t.len(),
    decreases t.len() - from,
{
    if from < t.len() && t[from as int] < len {
        lemma_scan_le_len(t, len, from + 1);
    }
}

/// Characterization of the scan: everything before the answer is below `len`,
/// and the answer itself (when in range) is not.
pub proof fn lemma_scan_characterize(t: Seq<usize>, len: nat, from: nat)
    requires
        from <= t.len(),
    ensures
        from <= scan_from(t, len, from) <= t.len(),
        forall|j: int| from <= j < scan_from(t, len, from) ==> t[j] < len,
        scan_from(t, len, from) < t.len() ==> t[scan_from(t, len, from) as int] >= len,
    decreases t.len() - from,
{
    if from < t.len() && t[from as int] < len {
        lemma_scan_characterize(t, len, from + 1);
    }
}

/// If some threshold at or after `from` (and at index at most `j0`) reaches
/// `len`, the scan stops at or before that index.
pub proof fn lemma_scan_stops_by(t: Seq<usize>, len: nat, from: nat, j0: nat)
    requires
        from <= j0 < t.len(),
        t[j0 as int] >= len,
    ensures
        scan_from(t, len, from) <= j0,
    decreases t.len() - from,
{
    if from < t.len() && t[from as int] < len {
        lemma_scan_stops_by(t, len, from + 1, j0);
    }
}

/// If every threshold is below `len`, the scan runs off the end.
pub proof fn lemma_scan_all_below(t: Seq<usize>, len: nat, from: nat)
    requires
        forall|j: int| 0 <= j < t.len() ==> t[j] < len,
    ensures
        scan_from(t, len, from) == t.len(),
    decreases t.len() - from,
{
    if from < t.len() {
        lemma_scan_all_below(t, len, from + 1);
    }
}

/// Whole-word suffix lengths never decrease as the word grows.
pub proof fn lemma_scan_suffix_mono(t: Seq<usize>, l1: nat, l2: nat)
    requires
        l1 <= l2,
    ensures
        scan_suffix_len(t, l1) <= scan_suffix_len(t, l2),
{
    lemma_scan_characterize(t, l1, 0);
    lemma_scan_characterize(t, l2, 0);
    if scan_suffix_len(t, l2) < scan_suffix_len(t, l1) {
        assert(t[scan_suffix_len(t, l2) as int] >= l2 >= l1);
        lemma_scan_stops_by(t, l1, 0, scan_suffix_len(t, l2));
    }
}

/// Streaming suffix lengths never decrease as the word grows.
pub proof fn lemma_stream_suffix_mono(t: Seq<usize>, l1: nat, l2: nat)
    requires
        t.len() > 0,
        l1 <= l2,
    ensures
        stream_suffix_len(t, l1) <= stream_suffix_len(t, l2),
{
    if l2 <= t.last() {
        lemma_fix_at_mono(t, l1, l2);
    } else if l1 <= t.last() {
        lemma_fix_at_mono(t, l1, t.last() as nat);
    }
}

/// Streaming suffix lengths grow by at most one per extra character.
pub proof fn lemma_stream_suffix_step(t: Seq<usize>, l: nat)
    requires
        t.len() > 0,
    ensures
        stream_suffix_len(t, (l + 1) as nat) <= stream_suffix_len(t, l) + 1,
{
    if l + 1 <= t.last() {
        lemma_fix_at_step(t, l);
    } else if l <= t.last() {
        lemma_fix_at_mono(t, l, t.last() as nat);
    }
}

/// The streaming rule never de-emphasizes more characters than were read.
pub proof fn lemma_stream_suffix_le(t: Seq<usize>, l: nat)
    requires
        t.len() > 0,
        t.len() <= t.last(),
    ensures
        stream_suffix_len(t, l) <= l,
{
    if l <= t.last() {
        lemma_fix_at_le(t, l);
    } else {
        lemma_fix_at_le_len(t, t.last() as nat);
    }
}

/// The number of committed (certainly emphasized) characters never decreases
/// as more of the word is read.
pub proof fn lemma_committed_mono(t: Seq<usize>, r1: nat, r2: nat)
    requires
        t.len() > 0,
        r1 <= r2,
    ensures
        committed_len(t, r1) <= committed_len(t, r2),
    decreases r2 - r1,
{
    if r1 < r2 {
        lemma_committed_mono(t, r1, (r2 - 1) as nat);
        lemma_stream_suffix_step(t, (r2 - 1) as nat);
        lemma_stream_suffix_mono(t, (r2 - 1) as nat, r2);
    }
}

/// Shape facts shared by all built-in tables: non-empty, a first threshold of
/// at most 1, a last threshold that bounds every entry and is no smaller than
/// the table's length.
pub open spec fn table_shape(t: Seq<usize>) -> bool {
    &&& t.len() > 0
    &&& t[0] <= 1
    &&& t.len() <= t.last()
    &&& forall|j: int| 0 <= j < t.len() ==> t[j] <= t.last()
}

/// The facts about a built-in table that the rest of the library builds on.
pub open spec fn builtin_facts(t: Seq<usize>) -> bool {
    &&& table_shape(t)
    &&& table_valid(t)
    &&& 48 <= t.last() <= 49
    &&& forall|l: nat| 2 <= l ==> scan_suffix_len(t, l) < l
}

/// `rev` is the reverse form of `t`: one entry per length up to the last
/// threshold, each holding the sweep cursor's value at that length.
pub open spec fn reverse_matches(t: Seq<usize>, rev: Seq<usize>) -> bool {
    &&& rev.len() == t.last() + 1
    &&& forall|i: int| 0 <= i < rev.len() ==> rev[i] == fix_at(t, i as nat)
}

/// The two modes choose the same suffix length for words of length `l`.
pub open spec fn modes_agree_at(t: Seq<usize>, l: nat) -> bool {
    stream_suffix_len(t, l) == scan_suffix_len(t, l)
}

/// The scan equals `k` exactly when everything before `k` is below `len` and
/// `k` is the end of the table or reaches `len`.
pub proof fn lemma_scan_is(t: Seq<usize>, len: nat, k: nat)
    requires
        k <= t.len(),
        forall|j: int| 0 <= j < k ==> t[j] < len,
        k < t.len() ==> t[k as int] >= len,
    ensures
        scan_suffix_len(t, len) == k,
{
    lemma_scan_characterize(t, len, 0);
    if k < t.len() {
        lemma_scan_stops_by(t, len, 0, k);
    }
}

/// Adjacent strict increase on the index range `[from, end)`.
pub open spec fn adj_between(t: Seq<usize>, from: nat, end: nat) -> bool
    recommends
        end < t.len(),
    decreases end - from,
{
    from >= end || (t[from as int] < t[from as int + 1] && adj_between(t, from + 1, end))
}

/// Spreads [`adj_between`] into its individual adjacent comparisons.
pub proof fn lemma_adj_spread(t: Seq<usize>, from: nat, end: nat)
    requires
        adj_between(t, from, end),
    ensures
        forall|k: int| from <= k < end ==> #[trigger] t[k] < t[k + 1],
    decreases end - from,
{
    if from < end {
        lemma_adj_spread(t, from + 1, end);
    }
}

/// Along an adjacent-increasing range, values grow at least one per index.
pub proof fn lemma_adj_lower_bound(t: Seq<usize>, from: nat, end: nat, j: nat)
    requires
        forall|k: int| from <= k < end ==> #[trigger] t[k] < t[k + 1],
        from <= j <= end < t.len(),
    ensures
        t[from as int] + (j - from) <= t[j as int],
    decreases j - from,
{
    if from < j {
        lemma_adj_lower_bound(t, from, end, (j - 1) as nat);
    }
}

/// Along an adjacent-increasing range, values stay below the range's end.
pub proof fn lemma_adj_upper_bound(t: Seq<usize>, from: nat, end: nat, j: nat)
    requires
        forall|k: int| from <= k < end ==> #[trigger] t[k] < t[k + 1],
        from <= j <= end < t.len(),
    ensures
        t[j as int] + (end - j) <= t[end as int],
    decreases end - j,
{
    if j < end {
        lemma_adj_upper_bound(t, from, end, (j + 1) as nat);
    }
}

/// The heart of the mode-equivalence proof: once the sweep cursor and the
/// scan agree at some length `i0`, they keep agreeing up to `hi`, as long as
/// the thresholds the scan can land on strictly increase.
pub proof fn lemma_agree_inductive(t: Seq<usize>, i0: nat, i: nat, hi: nat)
    requires
        i0 <= i <= hi,
        fix_at(t, i0) == scan_suffix_len(t, i0),
        forall|j: int|
            scan_suffix_len(t, i0) <= j && j + 1 < t.len() && #[trigger] t[j] < hi ==> t[j] < t[j + 1],
    ensures
        fix_at(t, i) == scan_suffix_len(t, i),
    decreases i - i0,
{
    if i > i0 {
        let p = (i - 1) as nat;
        lemma_agree_inductive(t, i0, p, hi);
        let f = fix_at(t, p);
        lemma_scan_characterize(t, p, 0);
        lemma_scan_characterize(t, i0, 0);
        lemma_scan_suffix_mono(t, i0, p);
        if f < t.len() && p >= t[f as int] {
            // the cursor advances: the threshold at `f` equals `p`
            assert(t[f as int] == p);
            assert(forall|j: int| 0 <= j < f + 1 ==> t[j] < i);
            if f + 1 < t.len() {
                assert(t[f as int] < t[f as int + 1]);
                lemma_scan_is(t, i, (f + 1) as nat);
            } else {
                lemma_scan_is(t, i, (f + 1) as nat);
            }
        } else if f < t.len() {
            // the threshold at `f` is at least `i`, so the scan also stays
            assert(t[f as int] >= i);
            lemma_scan_is(t, i, f);
        } else {
            lemma_scan_is(t, i, f);
        }
    }
}

/// All facts of [`builtin_facts`], plus full mode agreement, for any table
/// whose thresholds strictly increase throughout.
proof fn lemma_sorted_table_facts(t: Seq<usize>)
    requires
        t.len() >= 2,
        t[0] <= 1,
        2 <= t[1],
        t.len() <= t.last(),
        48 <= t.last() <= 49,
        forall|k: int| 0 <= k < t.len() - 1 ==> #[trigger] t[k] < t[k + 1],
    ensures
        builtin_facts(t),
        forall|l: nat| modes_agree_at(t, l),
        scan_suffix_len(t, 1) == (if t[0] == 0 {
            1nat
        } else {
            0nat
        }),
{
    let last = t.last() as nat;
    let end = (t.len() - 1) as nat;
    assert forall|j: int| 0 <= j < t.len() implies t[j] <= t.last() by {
        lemma_adj_upper_bound(t, 0, end, j as nat);
    }
    // value of the scan at length 1
    if t[0] == 0 {
        lemma_scan_is(t, 1, 1);
    } else {
        lemma_scan_is(t, 1, 0);
    }
    // a word of two or more letters always keeps an emphasized character
    assert forall|l: nat| 2 <= l implies scan_suffix_len(t, l) < l by {
        if l - 1 < t.len() {
            lemma_adj_lower_bound(t, 1, end, (l - 1) as nat);
            assert(t[l - 1] >= l);
            lemma_scan_stops_by(t, l, 0, (l - 1) as nat);
        } else {
            lemma_scan_le_len(t, l, 0);
        }
    }
    assert forall|l: nat| #[trigger] scan_suffix_len(t, l) <= l by {
        if l == 0 {
            lemma_scan_is(t, 0, 0);
        } else if l == 1 {
        } else {
            assert(scan_suffix_len(t, l) < l);
        }
    }
    // the sweep and the scan agree on every length the table covers
    lemma_scan_is(t, 0, 0);
    assert forall|l: nat| #[trigger] modes_agree_at(t, l) by {
        if l <= last {
            lemma_agree_inductive(t, 0, l, last);
        } else {
            lemma_agree_inductive(t, 0, last, last);
            assert forall|j: int| 0 <= j < t.len() - 1 implies t[j] < last by {
                lemma_adj_upper_bound(t, 0, end, j as nat);
            }
            lemma_scan_is(t, last, end);
            assert(fix_at(t, last) == t.len() - 1);
            assert(forall|j: int| 0 <= j < t.len() ==> t[j] < l);
            lemma_scan_all_below(t, l, 0);
        }
    }
}

proof fn lemma_builtin_facts_1()
    ensures
        builtin_facts(table_spec(1)),
        forall|l: nat| modes_agree_at(table_spec(1), l),
        scan_suffix_len(table_spec(1), 1) == 1,
{
    let t = table_spec(1);
    assert(adj_between(t, 0, 8)) by {
        reveal_with_fuel(adj_between, 9);
    }
    lemma_adj_spread(t, 0, 8);
    lemma_sorted_table_facts(t);
}

proof fn lemma_builtin_facts_2()
    ensures
        builtin_facts(table_spec(2)),
        forall|l: nat| modes_agree_at(table_spec(2), l),
        scan_suffix_len(table_spec(2), 1) == 0,
{
    let t = table_spec(2);
    assert(adj_between(t, 0, 16)) by {
        reveal_with_fuel(adj_between, 17);
    }
    lemma_adj_spread(t, 0, 16);
    lemma_sorted_table_facts(t);
}

proof fn lemma_builtin_facts_3()
    ensures
        builtin_facts(table_spec(3)),
        forall|l: nat| modes_agree_at(table_spec(3), l),
        scan_suffix_len(table_spec(3), 1) == 0,
{
    let t = table_spec(3);
    assert(adj_between(t, 0, 24)) by {
        reveal_with_fuel(adj_between, 25);
    }
    lemma_adj_spread(t, 0, 24);
    lemma_sorted_table_facts(t);
}

proof fn lemma_builtin_facts_5()
    ensures
        builtin_facts(table_spec(5)),
        forall|l: nat| modes_agree_at(table_spec(5), l),
        scan_suffix_len(table_spec(5), 1) == 1,
{
    let t = table_spec(5);
    assert(adj_between(t, 0, 36)) by {
        reveal_with_fuel(adj_between, 37);
    }
    lemma_adj_spread(t, 0, 36);
    lemma_sorted_table_facts(t);
}

#[verifier::rlimit(80)]
proof fn lemma_builtin_facts_4()
    ensures
        builtin_facts(table_spec(4)),
        forall|l: nat| l != 21 && l != 22 ==> modes_agree_at(table_spec(4), l),
        scan_suffix_len(table_spec(4), 1) == 1,
        stream_suffix_len(table_spec(4), 21) == 13,
        scan_suffix_len(table_spec(4), 21) == 14,
{
    let t = table_spec(4);
    // the thresholds strictly increase below and above the embedded 0 at index 13
    assert(adj_between(t, 0, 12)) by {
        reveal_with_fuel(adj_between, 13);
    }
    assert(adj_between(t, 13, 32)) by {
        reveal_with_fuel(adj_between, 20);
    }
    lemma_adj_spread(t, 0, 12);
    lemma_adj_spread(t, 13, 32);
    assert forall|j: int| 0 <= j <= 12 implies t[j] <= 20 by {
        lemma_adj_upper_bound(t, 0, 12, j as nat);
    }
    assert forall|j: int| 13 <= j <= 32 implies t[j] <= 48 by {
        lemma_adj_upper_bound(t, 13, 32, j as nat);
    }
    assert forall|j: int| 14 <= j <= 32 implies j + 7 <= t[j] by {
        lemma_adj_lower_bound(t, 14, 32, j as nat);
    }
    // shape
    assert(forall|j: int| 0 <= j < t.len() ==> t[j] <= t.last());
    // scan at length 1
    lemma_scan_is(t, 1, 1);
    // a word of two or more letters always keeps an emphasized character
    assert forall|l: nat| 2 <= l implies scan_suffix_len(t, l) < l by {
        if l <= 13 {
            lemma_adj_lower_bound(t, 1, 12, (l - 1) as nat);
            assert(t[l - 1] >= l);
            lemma_scan_stops_by(t, l, 0, (l - 1) as nat);
        } else if l == 14 {
            assert(t[8] == 14);
            lemma_scan_stops_by(t, l, 0, 8);
        } else if l <= 33 {
            assert(t[l - 1] >= l);
            lemma_scan_stops_by(t, l, 0, (l - 1) as nat);
        } else {
            lemma_scan_le_len(t, l, 0);
        }
    }
    assert forall|l: nat| #[trigger] scan_suffix_len(t, l) <= l by {
        if l == 0 {
            lemma_scan_is(t, 0, 0);
        } else if l >= 2 {
            assert(scan_suffix_len(t, l) < l);
        }
    }
    // mode agreement below the duplicate's reach
    lemma_scan_is(t, 0, 0);
    assert forall|l: nat| l <= 20 implies modes_agree_at(t, l) by {
        assert forall|j: int|
            scan_suffix_len(t, 0) <= j && j + 1 < t.len() && #[trigger] t[j] < 20 implies t[j]
            < t[j + 1] by {
            if j >= 14 {
                assert(t[j] >= j + 7 >= 21);
            }
        }
        lemma_agree_inductive(t, 0, l, 20);
    }
    // concrete values across the divergence window
    assert forall|j: int| 0 <= j < 12 implies t[j] < 20 by {
        lemma_adj_upper_bound(t, 0, 12, j as nat);
    }
    lemma_scan_is(t, 20, 12);
    assert(modes_agree_at(t, 20));
    assert(t.last() == 48);
    assert(fix_at(t, 20) == 12);
    assert(fix_at(t, 21) == 13);
    assert(fix_at(t, 22) == 14);
    assert(fix_at(t, 23) == 15);
    lemma_scan_is(t, 21, 14);
    lemma_scan_is(t, 23, 15);
    // mode agreement resumes at length 23
    assert forall|l: nat| 23 <= l <= 48 implies modes_agree_at(t, l) by {
        assert forall|j: int|
            scan_suffix_len(t, 23) <= j && j + 1 < t.len() && #[trigger] t[j] < 48 implies t[j]
            < t[j + 1] by {}
        lemma_agree_inductive(t, 23, l, 48);
    }
    // and holds for every longer word as well
    assert forall|j: int| 0 <= j < 32 implies t[j] < 48 by {
        if 14 <= j {
            lemma_adj_upper_bound(t, 13, 32, j as nat);
        }
    }
    lemma_scan_is(t, 48, 32);
    assert(modes_agree_at(t, 48));
    assert(fix_at(t, 48) == 32);
    assert forall|l: nat| l > 48 implies modes_agree_at(t, l) by {
        lemma_scan_all_below(t, l, 0);
    }
}

/// The facts of [`builtin_facts`] for the table of any fixation point, with
/// mode agreement everywhere except at the two word lengths (21 and 22) where
/// fixation point 4's out-of-order duplicate threshold makes the sweep and
/// the scan differ.
pub proof fn lemma_builtin_table_facts(fp: int)
    ensures
        builtin_facts(table_spec(fp)),
        forall|l: nat| !(fp == 4 && (l == 21 || l == 22)) ==> modes_agree_at(table_spec(fp), l),
        scan_suffix_len(table_spec(fp), 1) == (if table_spec(fp)[0] == 0 {
            1nat
        } else {
            0nat
        }),
{
    if fp == 2 {
        lemma_builtin_facts_2();
    } else if fp == 3 {
        lemma_builtin_facts_3();
    } else if fp == 4 {
        lemma_builtin_facts_4();
    } else if fp == 5 {
        lemma_builtin_facts_5();
    } else {
        lemma_builtin_facts_1();
        assert(table_spec(fp) == table_spec(1));
    }
}

/// The one place the two suffix rules disagree: at fixation point 4, whose
/// table embeds an out-of-order duplicate 0 after the threshold 20, a word
/// of 21 letters gets a 13-character suffix from the streaming sweep but a
/// 14-character suffix from the whole-word scan (and 14 versus 15 at 22
/// letters).
pub proof fn lemma_fixation_four_divergence()
    ensures
        stream_suffix_len(table_spec(4), 21) == 13,
        scan_suffix_len(table_spec(4), 21) == 14,
{
    lemma_builtin_facts_4();
}

/// The same facts, dispatched on the table itself.
pub proof fn lemma_builtin_facts_of(t: Seq<usize>)
    requires
        is_builtin_table(t),
    ensures
        builtin_facts(t),
        forall|l: nat| !(t == table_spec(4) && (l == 21 || l == 22)) ==> modes_agree_at(t, l),
        scan_suffix_len(t, 1) == (if t[0] == 0 {
            1nat
        } else {
            0nat
        }),
{
    if t == table_spec(2) {
        lemma_builtin_table_facts(2);
    } else if t == table_spec(3) {
        lemma_builtin_table_facts(3);
    } else if t == table_spec(4) {
        lemma_builtin_table_facts(4);
    } else if t == table_spec(5) {
        lemma_builtin_table_facts(5);
    } else {
        lemma_builtin_table_facts(1);
    }
}

/// The streaming suffix rule never exceeds the table's length, whatever the
/// word's length.
pub proof fn lemma_stream_suffix_le_len(t: Seq<usize>)
    requires
        is_builtin_table(t),
    ensures
        forall|r: nat| #[trigger] stream_suffix_len(t, r) <= t.len(),
{
    lemma_builtin_facts_of(t);
    assert forall|r: nat| #[trigger] stream_suffix_len(t, r) <= t.len() by {
        if r <= t.last() {
            lemma_fix_at_le_len(t, r);
        } else {
            assert(modes_agree_at(t, r));
            lemma_scan_le_len(t, r, 0);
        }
    }
}

} // verus!
