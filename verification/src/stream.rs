//! Per-word state of the streaming splitter.
//!
//! While inside a run of letters the splitter holds the number of letters
//! `read`, the number already flushed to the output as emphasized `written`,
//! and the letters in between in a small `buffer`.  The buffer never grows
//! beyond the table's length, however long the word: that is the bound that
//! lets the splitter run in constant memory.

use crate::render::ReaderView;
use crate::render::wrap_word;
use crate::tables::committed_len;
use crate::tables::stream_suffix_len;
use crate::words::is_ascii_letter;
use vstd::prelude::*;

verus! {

/// What `written` holds after `r` letters of a word have been fed: nothing
/// is flushed on the first letter; afterwards, everything committed.
pub open spec fn written_at(t: Seq<usize>, r: nat) -> nat {
    if r <= 1 {
        0
    } else {
        committed_len(t, r)
    }
}

/// The output emitted when a word `w` is closed (by a separator or by the
/// end of the input): the final flush of certain characters, the closing
/// emphasis wrapper, and the buffered suffix inside the de-emphasis pair
/// when it is non-empty.
pub open spec fn close_word(v: ReaderView, w: Seq<char>) -> Seq<char> {
    if w.len() == 0 {
        Seq::<char>::empty()
    } else {
        let fin = committed_len(v.table, w.len());
        w.subrange(written_at(v.table, w.len()) as int, fin as int) + v.em_close + (if fin
            == w.len() {
            Seq::<char>::empty()
        } else {
            v.de_open + w.skip(fin as int) + v.de_close
        })
    }
}

/// Together with the part already emitted while the word was open, closing
/// a word completes exactly the wrapped form that the render specification
/// asks for.
pub proof fn lemma_close_word(v: ReaderView, w: Seq<char>)
    requires
        w.len() >= 1,
        stream_suffix_len(v.table, w.len()) <= w.len(),
    ensures
        v.em_open + w.take(written_at(v.table, w.len()) as int) + close_word(v, w) == wrap_word(
            v,
            w,
            stream_suffix_len(v.table, w.len()),
        ),
{
    let k = stream_suffix_len(v.table, w.len());
    let fin = committed_len(v.table, w.len());
    assert(fin == w.len() - k);
    assert(w.take(written_at(v.table, w.len()) as int) + w.subrange(
        written_at(v.table, w.len()) as int,
        fin as int,
    ) =~= w.take(fin as int));
    assert(v.em_open + w.take(written_at(v.table, w.len()) as int) + close_word(v, w)
        =~= wrap_word(v, w, k));
}

/// Per-word mutable state of the streaming splitter.
pub struct SplitState {
    /// Letters of the current word read so far.
    pub read: usize,
    /// Letters of the current word already flushed as emphasized output.
    pub written: usize,
    /// The letters read but not yet flushed.
    pub buffer: Vec<char>,
    /// The whole current word (all of it, flushed or not).
    pub word: Ghost<Seq<char>>,
}

impl SplitState {
    /// The state describes a (possibly empty) word consistently: `read`
    /// counts the word's letters, `written` is what the table commits at
    /// this length, and the buffer holds exactly the rest.
    pub open spec fn wf(self, t: Seq<usize>) -> bool {
        &&& self.read == self.word@.len()
        &&& forall|i: int| 0 <= i < self.word@.len() ==> is_ascii_letter(self.word@[i])
        &&& self.written == written_at(t, self.read as nat)
        &&& self.buffer@ == self.word@.skip(self.written as int)
    }

    /// Fresh state: outside any word.
    pub fn new() -> (r: Self)
        ensures
            r.read == 0,
            r.written == 0,
            r.buffer@ == Seq::<char>::empty(),
            r.word@ == Seq::<char>::empty(),
    {
        SplitState { read: 0, written: 0, buffer: Vec::new(), word: Ghost(Seq::empty()) }
    }
}

/// Relies on `String::push`: appends exactly one character to the string.
#[verifier::external_body]
pub(crate) fn push_char(s: &mut String, c: char)
    ensures
        final(s)@ == old(s)@.push(c),
{
    s.push(c);
}

} // verus!
