use bio_read::BioReader;

fn setup_reader(fixation_point: usize) -> BioReader {
    let reader = BioReader::new()
        .emphasize("<em>".to_string(), "</em>".to_string())
        .de_emphasize("<de>".to_string(), "</de>".to_string())
        .fixation_point(fixation_point);
    reader
}

#[test]
fn test_bio_read_simple() {
    let reader = setup_reader(3);
    assert_eq!(
        reader.bio_read_text("hello world"),
        "<em>hel</em><de>lo</de> <em>wor</em><de>ld</de>"
    );
}

#[test]
fn test_bio_read_into_buffer() {
    let reader = setup_reader(3);
    let mut out = String::new();
    reader.bio_read("hello world", &mut out);
    assert_eq!(out, "<em>hel</em><de>lo</de> <em>wor</em><de>ld</de>");
}

#[test]
fn default_styles_are_ansi_bold_and_dim() {
    let reader = BioReader::new();
    // fixation point 3 splits "ab" as "a" + "b"
    assert_eq!(
        reader.bio_read_text("ab"),
        "\u{1b}[1ma\u{1b}[0m\u{1b}[2mb\u{1b}[0m"
    );
}

#[test]
fn longest_word_scenarios() {
    let word = "pneumonoultramicroscopicsilicovolcanoconiosis";
    let reader = setup_reader(1);
    assert_eq!(
        reader.bio_read_text(word),
        "<em>pneumonoultramicroscopicsilicovolcano</em><de>coniosis</de>"
    );
    let reader = setup_reader(5);
    assert_eq!(
        reader.bio_read_text(word),
        "<em>pneumonoult</em><de>ramicroscopicsilicovolcanoconiosis</de>"
    );
}

#[test]
fn empty_input_renders_empty() {
    let reader = setup_reader(3);
    assert_eq!(reader.bio_read_text(""), "");
    assert_eq!(reader.render(""), "");
}

#[test]
fn separator_only_input_is_unchanged() {
    let reader = setup_reader(3);
    assert_eq!(reader.bio_read_text("   ,,,  "), "   ,,,  ");
    assert_eq!(reader.render("   ,,,  "), "   ,,,  ");
}

#[test]
fn non_ascii_characters_pass_through_as_separators() {
    let reader = setup_reader(3);
    assert_eq!(
        reader.bio_read_text("a\u{e9}b"),
        "<em>a</em>\u{e9}<em>b</em>"
    );
}

#[test]
fn reverse_fixation_boundaries_start_of_table() {
    let rev = BioReader::reverse_fixation_boundaries(3);
    assert_eq!(rev.len(), 50);
    assert_eq!(&rev[..7], &[0, 0, 1, 2, 2, 2, 3]);
}
