use bio_read::BioReader;
use bio_read::styles::split_marker;

fn marked_reader(fixation_point: usize) -> BioReader {
    BioReader::new()
        .emphasize("<em>".to_string(), "</em>".to_string())
        .de_emphasize("<de>".to_string(), "</de>".to_string())
        .fixation_point(fixation_point)
}

#[test]
fn split_word_round_trip() {
    let words = ["x", "ab", "hello", "Bionic", "extraordinarily"];
    for fp in 1..=5 {
        let table = BioReader::fixation_boundaries(fp);
        for word in words {
            let (prefix, suffix) = BioReader::split_word(word, &table);
            assert_eq!(format!("{prefix}{suffix}"), word);
            if word.len() >= 2 {
                assert!(!prefix.is_empty());
            }
        }
    }
}

#[test]
fn split_word_concrete_values() {
    let table = BioReader::fixation_boundaries(3);
    assert_eq!(
        BioReader::split_word("hello", &table),
        ("hel".to_string(), "lo".to_string())
    );
    // a single uncommon letter keeps its prefix under fixation point 3...
    assert_eq!(
        BioReader::split_word("x", &table),
        ("x".to_string(), "".to_string())
    );
    // ...but loses it under fixation point 1, whose first threshold is 0
    let table = BioReader::fixation_boundaries(1);
    assert_eq!(
        BioReader::split_word("x", &table),
        ("".to_string(), "x".to_string())
    );
}

#[test]
fn modes_agree_on_uncommon_words() {
    let words = ["bionic", "reading", "extraordinarily", "q"];
    for fp in 1..=5 {
        let reader = marked_reader(fp);
        for word in words {
            assert_eq!(reader.bio_read_text(word), reader.render(word));
        }
    }
}

#[test]
fn modes_agree_on_a_very_long_word() {
    let word = "a".repeat(1000);
    for fp in 1..=5 {
        let reader = marked_reader(fp);
        assert_eq!(reader.bio_read_text(&word), reader.render(&word));
    }
}

#[test]
fn modes_diverge_at_fixation_point_four_length_21() {
    let word = "abcdefghijklmnopqrstu"; // 21 letters
    assert_eq!(word.len(), 21);
    let reader = marked_reader(4);
    // streaming keeps 13 trailing characters de-emphasized, the scan 14
    assert_eq!(
        reader.bio_read_text(word),
        "<em>abcdefgh</em><de>ijklmnopqrstu</de>"
    );
    assert_eq!(
        reader.render(word),
        "<em>abcdefg</em><de>hijklmnopqrstu</de>"
    );
}

#[test]
fn modes_diverge_on_common_words() {
    let reader = marked_reader(3);
    // whole-word mode applies the first-letter override; streaming does not
    assert_eq!(reader.render("would"), "<em>w</em><de>ould</de>");
    assert_eq!(reader.bio_read_text("would"), "<em>wou</em><de>ld</de>");
}

#[test]
fn suffix_length_is_monotone_in_word_length() {
    for fp in 1..=5 {
        let reader = BioReader::new().fixation_point(fp);
        let mut previous = 0;
        for len in 0..100 {
            let suffix = reader.get_fixation_length_from_last(len);
            assert!(suffix >= previous);
            previous = suffix;
        }
    }
}

#[test]
fn common_word_override_for_every_fixation_point() {
    for fp in 1..=5 {
        let table = BioReader::fixation_boundaries(fp);
        assert_eq!(
            BioReader::split_word("the", &table),
            ("t".to_string(), "he".to_string())
        );
        // the set is case-insensitive
        assert_eq!(
            BioReader::split_word("The", &table),
            ("T".to_string(), "he".to_string())
        );
    }
}

#[test]
fn marker_overrides_split_at_the_placeholder() {
    assert_eq!(
        split_marker("<em>{}</em>"),
        Some(("<em>".to_string(), "</em>".to_string()))
    );
    assert_eq!(split_marker("{}"), Some(("".to_string(), "".to_string())));
    // a marker without the placeholder is a configuration error
    assert_eq!(split_marker("<em></em>"), None);
    assert_eq!(split_marker(""), None);
    let reader = BioReader::new()
        .emphasize("**".to_string(), "**".to_string())
        .de_emphasize("".to_string(), "".to_string())
        .fixation_point(1);
    assert_eq!(
        reader.bio_read_text("pneumonoultramicroscopicsilicovolcanoconiosis"),
        "**pneumonoultramicroscopicsilicovolcano**coniosis"
    );
}

#[test]
fn separators_keep_their_positions_between_words() {
    let reader = marked_reader(3);
    assert_eq!(
        reader.bio_read_text("a, b"),
        "<em>a</em>, <em>b</em>"
    );
    assert_eq!(
        reader.render("up--down"),
        "<em>u</em><de>p</de>--<em>do</em><de>wn</de>"
    );
}
