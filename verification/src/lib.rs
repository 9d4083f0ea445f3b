//! Bionic-reading renderer.
//!
//! For each word of the input, a leading fragment is emphasized and the rest
//! is de-emphasized, so that a reader's eye can skip ahead along the
//! emphasized fragments.  Where the split falls is decided by a fixed table
//! of length thresholds selected by a *fixation point* in `[1, 5]`; lower
//! fixation points emphasize more of every word.
//!
//! The library offers two processing modes over the same tables:
//!
//! * a whole-word mode ([`BioReader::split_word`] and [`BioReader::render`])
//!   that sees a complete word and may apply a first-letter-only override for
//!   a fixed set of common short words, and
//! * a streaming mode ([`BioReader::bio_read`] and the step-by-step
//!   [`SplitState`] machine) that consumes one character at a time, never
//!   buffers more than a bounded number of characters, and reproduces the
//!   table split without knowing a word's length in advance.  This mode does
//!   not consult the common-word set; the divergence between the two modes on
//!   common words is deliberate and is part of the stated behaviour.

pub mod laws;
pub mod reader;
pub mod render;
pub mod stream;
pub mod styles;
pub mod tables;
pub mod whole_word;
pub mod words;

pub use reader::BioReader;
pub use stream::SplitState;
