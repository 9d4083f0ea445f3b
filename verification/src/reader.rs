//! The configured reader and its processing entry points.

use crate::render::ReaderView;
use crate::render::lemma_run_len_word;
use crate::render::lemma_stream_render_append;
use crate::render::lemma_stream_render_word;
use crate::render::lemma_word_render_append;
use crate::render::lemma_word_render_word;
use crate::render::stream_render;
use crate::render::word_render;
use crate::render::word_suffix_len;
use crate::render::wrap_word;
use crate::stream::SplitState;
use crate::stream::close_word;
use crate::stream::lemma_close_word;
use crate::stream::push_char;
use crate::styles::ansi_bold_pair;
use crate::styles::ansi_dimmed_pair;
use crate::tables::committed_len;
use crate::tables::fix_at;
use crate::tables::is_builtin_table;
use crate::tables::lemma_builtin_facts_of;
use crate::tables::lemma_committed_mono;
use crate::tables::lemma_fix_at_le_len;
use crate::tables::lemma_stream_suffix_le;
use crate::tables::lemma_stream_suffix_le_len;
use crate::tables::reverse_matches;
use crate::tables::stream_suffix_len;
use crate::tables::table_spec;
use crate::words::ascii_letter;
use crate::words::is_ascii_letter;
use vstd::prelude::*;
use vstd::string::StringExecFns;
use vstd::string::StrSliceExecFns;

verus! {

/// A configured bionic reader: the two wrapper pairs and the fixation
/// tables in force.  Immutable once built; every processing call reads it
/// only.
pub struct BioReader {
    em_open: String,
    em_close: String,
    de_open: String,
    de_close: String,
    fixation_boundaries: Vec<usize>,
    reverse_fixation_boundaries: Vec<usize>,
}

impl View for BioReader {
    type V = ReaderView;

    closed spec fn view(&self) -> ReaderView {
        ReaderView {
            em_open: self.em_open@,
            em_close: self.em_close@,
            de_open: self.de_open@,
            de_close: self.de_close@,
            table: self.fixation_boundaries@,
        }
    }
}

impl BioReader {
    /// The tables always form the matched forward/reverse pair of one of
    /// the five built-in fixation points.
    #[verifier::type_invariant]
    spec fn wf(self) -> bool {
        &&& is_builtin_table(self.fixation_boundaries@)
        &&& reverse_matches(self.fixation_boundaries@, self.reverse_fixation_boundaries@)
    }

    /// The threshold table for a fixation point.  Any value outside
    /// `[1, 5]` silently selects fixation point 1's table.
    pub fn fixation_boundaries(fixation_point: usize) -> (t: Vec<usize>)
        ensures
            t@ == table_spec(fixation_point as int),
            is_builtin_table(t@),
    {
        match fixation_point {
            2 => vec![1, 2, 7, 10, 13, 14, 19, 22, 25, 28, 31, 34, 37, 40, 43, 46, 49],
            3 => vec![
                1, 2, 5, 7, 9, 11, 13, 15, 17, 19, 21, 23, 25, 27, 29, 31, 33, 35, 37, 39, 41, 43,
                45, 47, 49,
            ],
            4 => vec![
                0, 2, 4, 5, 6, 8, 9, 11, 14, 15, 17, 18, 20, 0, 21, 23, 24, 26, 27, 29, 30, 32,
                33, 35, 36, 38, 39, 41, 42, 44, 45, 47, 48,
            ],
            5 => vec![
                0, 2, 3, 5, 6, 7, 8, 10, 11, 12, 14, 15, 17, 19, 20, 21, 23, 24, 25, 26, 28, 29,
                30, 32, 33, 34, 35, 37, 38, 39, 41, 42, 43, 44, 46, 47, 48,
            ],
            _ => vec![0, 4, 12, 17, 24, 29, 35, 42, 48],
        }
    }

    /// The reverse table for a fixation point, built by one forward sweep
    /// over the lengths the table covers: entry `i` holds the de-emphasized
    /// suffix length for a word of length `i`.
    pub fn reverse_fixation_boundaries(fixation_point: usize) -> (rev: Vec<usize>)
        ensures
            reverse_matches(table_spec(fixation_point as int), rev@),
    {
        let fixation_boundaries = Self::fixation_boundaries(fixation_point);
        let ghost t = fixation_boundaries@;
        proof {
            lemma_builtin_facts_of(t);
        }
        let last = fixation_boundaries[fixation_boundaries.len() - 1];
        let mut result: Vec<usize> = Vec::new();
        let mut fixation: usize = 0;
        let mut i: usize = 0;
        while i <= last
            invariant
                t == fixation_boundaries@,
                is_builtin_table(t),
                last == t.last(),
                last <= 49,
                i <= last + 1,
                result@.len() == i,
                fixation == fix_at(t, i as nat),
                forall|j: int| 0 <= j < i ==> result@[j] == fix_at(t, j as nat),
            decreases last + 1 - i,
        {
            proof {
                lemma_builtin_facts_of(t);
                lemma_fix_at_le_len(t, i as nat);
            }
            result.push(fixation);
            if fixation < fixation_boundaries.len() && i >= fixation_boundaries[fixation] {
                fixation = fixation + 1;
            }
            i = i + 1;
        }
        result
    }

    /// Suffix length for a word that ends after `len` letters, read off the
    /// reverse table; words longer than the table covers get one more than
    /// its last entry.
    pub fn get_fixation_length_from_last(&self, len: usize) -> (r: usize)
        ensures
            r == stream_suffix_len(self@.table, len as nat),
    {
        proof {
            use_type_invariant(self);
            lemma_builtin_facts_of(self.fixation_boundaries@);
            lemma_fix_at_le_len(
                self.fixation_boundaries@,
                self.fixation_boundaries@.last() as nat,
            );
        }
        let rev = &self.reverse_fixation_boundaries;
        if len < rev.len() {
            rev[len]
        } else {
            rev[rev.len() - 1] + 1
        }
    }

    /// A reader with ANSI bold emphasis, ANSI dim de-emphasis, and fixation
    /// point 3.
    pub fn new() -> (r: Self)
        ensures
            r@.em_open == "\u{1b}[1m"@,
            r@.em_close == "\u{1b}[0m"@,
            r@.de_open == "\u{1b}[2m"@,
            r@.de_close == "\u{1b}[0m"@,
            r@.table == table_spec(3),
    {
        let (em_open, em_close) = ansi_bold_pair();
        let (de_open, de_close) = ansi_dimmed_pair();
        BioReader {
            em_open,
            em_close,
            de_open,
            de_close,
            fixation_boundaries: Self::fixation_boundaries(3),
            reverse_fixation_boundaries: Self::reverse_fixation_boundaries(3),
        }
    }

    /// Set the wrapper pair for the emphasized part of every word.
    pub fn emphasize(self, left: String, right: String) -> (r: Self)
        ensures
            r@.em_open == left@,
            r@.em_close == right@,
            r@.de_open == self@.de_open,
            r@.de_close == self@.de_close,
            r@.table == self@.table,
    {
        proof {
            use_type_invariant(&self);
        }
        let BioReader { de_open, de_close, fixation_boundaries, reverse_fixation_boundaries, .. } =
            self;
        BioReader {
            em_open: left,
            em_close: right,
            de_open,
            de_close,
            fixation_boundaries,
            reverse_fixation_boundaries,
        }
    }

    /// Set the wrapper pair for the de-emphasized part of every word.
    pub fn de_emphasize(self, left: String, right: String) -> (r: Self)
        ensures
            r@.em_open == self@.em_open,
            r@.em_close == self@.em_close,
            r@.de_open == left@,
            r@.de_close == right@,
            r@.table == self@.table,
    {
        proof {
            use_type_invariant(&self);
        }
        let BioReader { em_open, em_close, fixation_boundaries, reverse_fixation_boundaries, .. } =
            self;
        BioReader {
            em_open,
            em_close,
            de_open: left,
            de_close: right,
            fixation_boundaries,
            reverse_fixation_boundaries,
        }
    }

    /// Select the fixation point, in `[1, 5]`.  Lower fixation points
    /// emphasize more of every word.
    pub fn fixation_point(self, fixation_point: usize) -> (r: Self)
        requires
            1 <= fixation_point <= 5,
        ensures
            r@.em_open == self@.em_open,
            r@.em_close == self@.em_close,
            r@.de_open == self@.de_open,
            r@.de_close == self@.de_close,
            r@.table == table_spec(fixation_point as int),
    {
        proof {
            use_type_invariant(&self);
        }
        let BioReader { em_open, em_close, de_open, de_close, .. } = self;
        BioReader {
            em_open,
            em_close,
            de_open,
            de_close,
            fixation_boundaries: Self::fixation_boundaries(fixation_point),
            reverse_fixation_boundaries: Self::reverse_fixation_boundaries(fixation_point),
        }
    }

    /// Flush every buffered character that is now certainly part of the
    /// emphasized prefix: with `read` letters seen, all but the current
    /// suffix estimate are certain.
    fn try_write(&self, state: &mut SplitState, out: &mut String)
        requires
            1 <= old(state).read,
            old(state).read == old(state).word@.len(),
            old(state).buffer@ == old(state).word@.skip(old(state).written as int),
            old(state).written <= committed_len(self@.table, old(state).read as nat),
        ensures
            final(state).read == old(state).read,
            final(state).word == old(state).word,
            final(state).written == committed_len(self@.table, old(state).read as nat),
            final(state).buffer@ == final(state).word@.skip(final(state).written as int),
            final(out)@ == old(out)@ + old(state).word@.subrange(
                old(state).written as int,
                final(state).written as int,
            ),
    {
        proof {
            use_type_invariant(self);
            lemma_builtin_facts_of(self.fixation_boundaries@);
            lemma_stream_suffix_le(self@.table, state.read as nat);
        }
        let fixation_length_from_last = self.get_fixation_length_from_last(state.read);
        let least_emphasize_length = state.read - fixation_length_from_last;
        if state.written < least_emphasize_length {
            let ghost w = state.word@;
            let ghost base = state.written as int;
            let ghost out0 = out@;
            let count = least_emphasize_length - state.written;
            let mut k: usize = 0;
            while k < count
                invariant
                    k <= count,
                    state.read == old(state).read,
                    state.written == old(state).written,
                    state.word@ == w,
                    w.len() == state.read,
                    base == state.written as int,
                    base + count <= w.len(),
                    state.buffer@ == w.skip(base + k),
                    out@ == out0 + w.subrange(base, base + k),
                decreases count - k,
            {
                let c = state.buffer.remove(0);
                push_char(out, c);
                proof {
                    assert(c == w[base + k]);
                    assert(state.buffer@ =~= w.skip(base + k + 1));
                    assert(out@ =~= out0 + w.subrange(base, base + k + 1));
                }
                k = k + 1;
            }
            state.written = least_emphasize_length;
        } else {
            proof {
                assert(out@ =~= old(out)@ + old(state).word@.subrange(
                    old(state).written as int,
                    old(state).written as int,
                ));
            }
        }
    }

    /// Write the whole buffer wrapped in the de-emphasis pair; an empty
    /// buffer produces nothing at all.
    fn de_emphasize_buffer(&self, state: &mut SplitState, out: &mut String)
        ensures
            final(state).read == old(state).read,
            final(state).written == old(state).written,
            final(state).word == old(state).word,
            final(state).buffer@ == Seq::<char>::empty(),
            final(out)@ == old(out)@ + (if old(state).buffer@.len() == 0 {
                Seq::<char>::empty()
            } else {
                self@.de_open + old(state).buffer@ + self@.de_close
            }),
    {
        proof {
            use_type_invariant(self);
        }
        if state.buffer.len() == 0 {
            proof {
                assert(state.buffer@ =~= Seq::<char>::empty());
                assert(out@ =~= old(out)@ + Seq::<char>::empty());
            }
            return ;
        }
        out.append(self.de_open.as_str());
        let ghost b = state.buffer@;
        let ghost out0 = out@;
        let ghost r0 = state.read;
        let ghost w0 = state.written;
        let ghost word0 = state.word@;
        let count = state.buffer.len();
        let mut k: usize = 0;
        while k < count
            invariant
                k <= count,
                count == b.len(),
                state.read == r0,
                state.written == w0,
                state.word@ == word0,
                state.buffer@ == b.skip(k as int),
                out@ == out0 + b.take(k as int),
            decreases count - k,
        {
            let c = state.buffer.remove(0);
            push_char(out, c);
            proof {
                assert(c == b[k as int]);
                assert(state.buffer@ =~= b.skip(k + 1));
                assert(out@ =~= out0 + b.take(k + 1));
            }
            k = k + 1;
        }
        out.append(self.de_close.as_str());
        proof {
            assert(b.take(count as int) =~= b);
            assert(out@ =~= old(out)@ + (self@.de_open + old(state).buffer@ + self@.de_close));
        }
    }

    /// Feed one character to the streaming splitter.  A letter extends the
    /// current word: the first letter opens the emphasis wrapper, later
    /// letters flush whatever prefix has become certain.  Any other
    /// character closes the pending word and passes through unchanged.
    /// The buffer stays no longer than the table, however long the word.
    pub fn feed(&self, state: &mut SplitState, c: char, out: &mut String)
        requires
            old(state).wf(self@.table),
            old(state).read < usize::MAX,
        ensures
            final(state).wf(self@.table),
            final(state).buffer@.len() <= self@.table.len(),
            is_ascii_letter(c) ==> final(state).word@ == old(state).word@.push(c) && final(out)@
                == old(out)@ + (if old(state).read == 0 {
                self@.em_open
            } else {
                Seq::<char>::empty()
            }) + final(state).word@.subrange(
                old(state).written as int,
                final(state).written as int,
            ),
            !is_ascii_letter(c) ==> final(state).word@ == Seq::<char>::empty() && final(out)@
                == old(out)@ + close_word(self@, old(state).word@) + seq![c],
    {
        let ghost t = self@.table;
        proof {
            use_type_invariant(self);
            lemma_builtin_facts_of(self.fixation_boundaries@);
            lemma_stream_suffix_le_len(t);
            lemma_stream_suffix_le(t, (state.read + 1) as nat);
            lemma_stream_suffix_le(t, state.read as nat);
            lemma_committed_mono(t, state.read as nat, (state.read + 1) as nat);
        }
        if ascii_letter(c) {
            state.read = state.read + 1;
            state.buffer.push(c);
            proof {
                state.word@ = state.word@.push(c);
                assert(state.buffer@ =~= state.word@.skip(state.written as int));
            }
            if state.read == 1 {
                out.append(self.em_open.as_str());
                proof {
                    assert(state.word@.subrange(0, 0) =~= Seq::<char>::empty());
                    assert(out@ =~= old(out)@ + self@.em_open + state.word@.subrange(0, 0));
                }
            } else {
                self.try_write(state, out);
                proof {
                    assert(out@ =~= old(out)@ + Seq::<char>::empty() + state.word@.subrange(
                        old(state).written as int,
                        state.written as int,
                    ));
                }
            }
        } else {
            if state.read != 0 {
                let ghost w = state.word@;
                self.try_write(state, out);
                out.append(self.em_close.as_str());
                self.de_emphasize_buffer(state, out);
                state.read = 0;
                state.written = 0;
                proof {
                    state.word@ = Seq::<char>::empty();
                }
                push_char(out, c);
                proof {
                    assert(state.buffer@ =~= state.word@.skip(0));
                    assert(out@ =~= old(out)@ + close_word(self@, w) + seq![c]);
                }
            } else {
                push_char(out, c);
                proof {
                    assert(state.word@ =~= Seq::<char>::empty());
                    assert(out@ =~= old(out)@ + close_word(self@, old(state).word@) + seq![c]);
                }
            }
        }
    }

    /// Close any pending word at the end of the input.
    pub fn finish(&self, state: &mut SplitState, out: &mut String)
        requires
            old(state).wf(self@.table),
        ensures
            final(state).wf(self@.table),
            final(state).word@ == Seq::<char>::empty(),
            final(out)@ == old(out)@ + close_word(self@, old(state).word@),
    {
        let ghost t = self@.table;
        proof {
            use_type_invariant(self);
            lemma_builtin_facts_of(self.fixation_boundaries@);
            lemma_stream_suffix_le(t, state.read as nat);
        }
        if state.read != 0 {
            let ghost w = state.word@;
            self.try_write(state, out);
            out.append(self.em_close.as_str());
            self.de_emphasize_buffer(state, out);
            state.read = 0;
            state.written = 0;
            proof {
                state.word@ = Seq::<char>::empty();
                assert(state.buffer@ =~= state.word@.skip(0));
                assert(out@ =~= old(out)@ + close_word(self@, w));
            }
        } else {
            proof {
                assert(state.word@ =~= Seq::<char>::empty());
                assert(out@ =~= old(out)@ + close_word(self@, old(state).word@));
            }
        }
    }

    /// Render `text` in streaming mode, appending to `out`: every maximal
    /// run of ASCII letters is wrapped as an emphasized prefix and a
    /// de-emphasized suffix split by the reverse table, and every other
    /// character passes through unchanged, in order.  One forward pass,
    /// with never more than a table's worth of characters buffered.
    #[verifier::rlimit(100)]
    pub fn bio_read(&self, text: &str, out: &mut String)
        ensures
            final(out)@ == old(out)@ + stream_render(self@, text@),
    {
        let ghost v = self@;
        let ghost s = text@;
        let ghost out0 = old(out)@;
        let mut state = SplitState::new();
        let n = text.unicode_len();
        let mut i: usize = 0;
        proof {
            use_type_invariant(self);
            lemma_builtin_facts_of(self.fixation_boundaries@);
            assert(state.word@ =~= s.subrange(0, 0));
            assert(state.buffer@ =~= state.word@.skip(0));
            assert(s.take(0) =~= Seq::<char>::empty());
            assert(out@ =~= out0 + stream_render(v, s.take(0)) + Seq::<char>::empty());
        }
        while i < n
            invariant
                v == self@,
                s == text@,
                n == s.len(),
                i <= n,
                state.wf(v.table),
                state.read <= i,
                state.word@ == s.subrange(i - state.read, i as int),
                i - state.read == 0 || !is_ascii_letter(s[i - state.read - 1]),
                out@ == out0 + stream_render(v, s.take(i - state.read)) + (if state.read == 0 {
                    Seq::<char>::empty()
                } else {
                    v.em_open + state.word@.take(state.written as int)
                }),
            decreases n - i,
        {
            let ghost j = i - state.read;
            let ghost w = state.word@;
            let ghost wr = state.written as int;
            let ghost r = state.read;
            let c = text.get_char(i);
            proof {
                use_type_invariant(self);
                lemma_builtin_facts_of(self.fixation_boundaries@);
                lemma_stream_suffix_le(v.table, r as nat);
                lemma_stream_suffix_le(v.table, (r + 1) as nat);
            }
            self.feed(&mut state, c, out);
            proof {
                if is_ascii_letter(c) {
                    assert(state.word@ =~= s.subrange(j, i + 1));
                    if r == 0 {
                        assert(state.word@.take(state.written as int) =~= state.word@.subrange(
                            0,
                            0,
                        ));
                        assert(out@ =~= out0 + stream_render(v, s.take(i + 1 - state.read)) + (
                        v.em_open + state.word@.take(state.written as int)));
                    } else {
                        assert(w.take(wr) =~= state.word@.take(wr));
                        assert(state.word@.take(wr) + state.word@.subrange(
                            wr,
                            state.written as int,
                        ) =~= state.word@.take(state.written as int));
                        assert(out@ =~= out0 + stream_render(v, s.take(i + 1 - state.read)) + (
                        v.em_open + state.word@.take(state.written as int)));
                    }
                } else {
                    assert(state.word@ =~= s.subrange(i + 1 - state.read, (i + 1) as int));
                    assert(stream_render(v, Seq::<char>::empty()) == Seq::<char>::empty());
                    if r == 0 {
                        assert(s.take(i + 1) =~= s.take(j) + seq![c]);
                        lemma_stream_render_append(v, s.take(j), seq![c]);
                        assert(seq![c].skip(1) =~= Seq::<char>::empty());
                        assert(stream_render(v, seq![c]) =~= seq![c]);
                        assert(out@ =~= out0 + stream_render(v, s.take(i + 1)));
                    } else {
                        lemma_close_word(v, w);
                        assert(s.take(i + 1) =~= s.take(j) + (w + seq![c]));
                        lemma_stream_render_append(v, s.take(j), w + seq![c]);
                        lemma_run_len_word(w, seq![c]);
                        assert((w + seq![c]).take(w.len() as int) =~= w);
                        assert((w + seq![c]).skip(w.len() as int) =~= seq![c]);
                        assert(seq![c].skip(1) =~= Seq::<char>::empty());
                        assert(stream_render(v, seq![c]) =~= seq![c]);
                        assert(stream_render(v, w + seq![c]) =~= wrap_word(
                            v,
                            w,
                            stream_suffix_len(v.table, w.len()),
                        ) + seq![c]);
                        assert(out@ =~= out0 + stream_render(v, s.take(i + 1)));
                    }
                }
            }
            i = i + 1;
        }
        let ghost j = i - state.read;
        let ghost w = state.word@;
        proof {
            use_type_invariant(self);
            lemma_builtin_facts_of(self.fixation_boundaries@);
            lemma_stream_suffix_le(v.table, state.read as nat);
        }
        self.finish(&mut state, out);
        proof {
            if w.len() == 0 {
                assert(s.take(j) =~= s);
                assert(out@ =~= out0 + stream_render(v, s));
            } else {
                lemma_close_word(v, w);
                assert(s =~= s.take(j) + w);
                lemma_stream_render_append(v, s.take(j), w);
                lemma_stream_render_word(v, w);
                assert(out@ =~= out0 + stream_render(v, s));
            }
        }
    }

    /// Render `text` in streaming mode and return the result.
    pub fn bio_read_text(&self, text: &str) -> (r: String)
        ensures
            r@ == stream_render(self@, text@),
    {
        let mut out = String::new();
        self.bio_read(text, &mut out);
        proof {
            assert(out@ =~= stream_render(self@, text@));
        }
        out
    }

    /// Append one whole word, `text[start..end)`, wrapped for output.
    fn emit_word(&self, text: &str, start: usize, end: usize, out: &mut String)
        requires
            start < end <= text@.len(),
            forall|j: int| start <= j < end ==> is_ascii_letter(text@[j]),
        ensures
            final(out)@ == old(out)@ + wrap_word(
                self@,
                text@.subrange(start as int, end as int),
                word_suffix_len(self@.table, text@.subrange(start as int, end as int)),
            ),
    {
        proof {
            use_type_invariant(self);
            lemma_builtin_facts_of(self.fixation_boundaries@);
        }
        let ghost w = text@.subrange(start as int, end as int);
        let word = text.substring_char(start, end);
        let (prefix, suffix) = Self::split_word(word, &self.fixation_boundaries);
        let ghost k = word_suffix_len(self@.table, w);
        out.append(self.em_open.as_str());
        out.append(prefix.as_str());
        out.append(self.em_close.as_str());
        if suffix.unicode_len() > 0 {
            out.append(self.de_open.as_str());
            out.append(suffix.as_str());
            out.append(self.de_close.as_str());
            proof {
                assert(out@ =~= old(out)@ + wrap_word(self@, w, k));
            }
        } else {
            proof {
                assert(suffix@ =~= Seq::<char>::empty());
                assert(k == 0);
                assert(prefix@ =~= w);
                assert(out@ =~= old(out)@ + wrap_word(self@, w, k));
            }
        }
    }

    /// Render `text` in whole-word mode: like [`BioReader::bio_read`], but
    /// each word is seen whole before it is split, and a common short word
    /// keeps exactly its first letter emphasized.
    #[verifier::rlimit(100)]
    pub fn render(&self, text: &str) -> (r: String)
        ensures
            r@ == word_render(self@, text@),
    {
        let ghost v = self@;
        let ghost s = text@;
        let mut out = String::new();
        let n = text.unicode_len();
        let mut start: usize = 0;
        let mut i: usize = 0;
        proof {
            assert(s.take(0) =~= Seq::<char>::empty());
            assert(out@ =~= word_render(v, s.take(0)));
        }
        while i < n
            invariant
                v == self@,
                s == text@,
                n == s.len(),
                start <= i <= n,
                forall|j: int| start <= j < i ==> is_ascii_letter(s[j]),
                start == 0 || !is_ascii_letter(s[start - 1]),
                out@ == word_render(v, s.take(start as int)),
            decreases n - i,
        {
            let c = text.get_char(i);
            if ascii_letter(c) {
                i = i + 1;
            } else {
                let ghost w = s.subrange(start as int, i as int);
                if start < i {
                    self.emit_word(text, start, i, &mut out);
                }
                push_char(&mut out, c);
                proof {
                    assert(word_render(v, Seq::<char>::empty()) == Seq::<char>::empty());
                    assert(seq![c].skip(1) =~= Seq::<char>::empty());
                    assert(word_render(v, seq![c]) =~= seq![c]);
                    if start < i {
                        assert(s.take(i + 1) =~= s.take(start as int) + (w + seq![c]));
                        lemma_word_render_append(v, s.take(start as int), w + seq![c]);
                        lemma_run_len_word(w, seq![c]);
                        assert((w + seq![c]).take(w.len() as int) =~= w);
                        assert((w + seq![c]).skip(w.len() as int) =~= seq![c]);
                        assert(word_render(v, w + seq![c]) =~= wrap_word(
                            v,
                            w,
                            word_suffix_len(v.table, w),
                        ) + seq![c]);
                        assert(out@ =~= word_render(v, s.take(i + 1)));
                    } else {
                        assert(s.take(i + 1) =~= s.take(start as int) + seq![c]);
                        lemma_word_render_append(v, s.take(start as int), seq![c]);
                        assert(out@ =~= word_render(v, s.take(i + 1)));
                    }
                }
                i = i + 1;
                start = i;
            }
        }
        if start < n {
            let ghost w = s.subrange(start as int, n as int);
            self.emit_word(text, start, n, &mut out);
            proof {
                assert(s =~= s.take(start as int) + w);
                lemma_word_render_append(v, s.take(start as int), w);
                lemma_word_render_word(v, w);
                assert(out@ =~= word_render(v, s));
            }
        } else {
            proof {
                assert(s.take(start as int) =~= s);
            }
        }
        out
    }
}

} // verus!
