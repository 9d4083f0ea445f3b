use bio_read::BioReader;
use bio_read::SplitState;

fn marked_reader(fixation_point: usize) -> BioReader {
    BioReader::new()
        .emphasize("<em>".to_string(), "</em>".to_string())
        .de_emphasize("<de>".to_string(), "</de>".to_string())
        .fixation_point(fixation_point)
}

fn peak_buffered(fixation_point: usize, word_len: usize) -> usize {
    let reader = marked_reader(fixation_point);
    let mut state = SplitState::new();
    let mut out = String::new();
    let mut peak = 0;
    for _ in 0..word_len {
        reader.feed(&mut state, 'a', &mut out);
        peak = peak.max(state.buffer.len());
    }
    assert_eq!(state.read, word_len);
    reader.finish(&mut state, &mut out);
    assert_eq!(state.read, 0);
    assert_eq!(state.buffer.len(), 0);
    peak
}

#[test]
fn buffer_stays_bounded_for_long_words() {
    // the peak never grows with the word, only with the table
    assert!(peak_buffered(1, 1000) <= 9);
    assert!(peak_buffered(2, 1000) <= 17);
    assert!(peak_buffered(3, 1000) <= 25);
    assert!(peak_buffered(4, 1000) <= 33);
    assert!(peak_buffered(5, 1000) <= 37);
}

#[test]
fn buffer_peak_is_word_length_independent() {
    for fp in 1..=5 {
        assert_eq!(peak_buffered(fp, 100), peak_buffered(fp, 1000));
    }
}

#[test]
fn feed_and_finish_match_bio_read() {
    let reader = marked_reader(3);
    let text = "one, two... three!";
    let mut state = SplitState::new();
    let mut out = String::new();
    for c in text.chars() {
        reader.feed(&mut state, c, &mut out);
    }
    reader.finish(&mut state, &mut out);
    assert_eq!(out, reader.bio_read_text(text));
}

#[test]
fn single_letter_word_is_flushed_at_end_of_input() {
    // the final flush happens at end of input exactly as at a separator
    let reader = marked_reader(3);
    assert_eq!(reader.bio_read_text("a"), "<em>a</em>");
    assert_eq!(reader.bio_read_text("a "), "<em>a</em> ");
}
