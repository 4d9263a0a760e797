use std::io::Write;

use typing_trainer::{load_word_lists, load_words_from_embedded, split_lines};

fn gzip(text: &str) -> Vec<u8> {
    let mut encoder =
        flate2::write::GzEncoder::new(Vec::new(), flate2::Compression::default());
    encoder.write_all(text.as_bytes()).unwrap();
    encoder.finish().unwrap()
}

#[test]
fn words_come_out_of_a_compressed_list() {
    let data = gzip("alpha\nbeta\ngamma\n");
    let words = load_words_from_embedded(&data);
    assert_eq!(words, vec!["alpha", "beta", "gamma"]);
}

#[test]
fn carriage_returns_before_newlines_are_stripped() {
    assert_eq!(split_lines("a\r\nb\r\nc"), vec!["a", "b", "c"]);
    assert_eq!(split_lines("one\ntwo\n"), vec!["one", "two"]);
    assert_eq!(split_lines(""), Vec::<String>::new());
    assert_eq!(split_lines("\n\n"), vec!["", ""]);
    // A carriage return not before a newline is kept.
    assert_eq!(split_lines("a\rb"), vec!["a\rb"]);
}

#[test]
fn malformed_stream_degrades_to_an_empty_list() {
    let words = load_words_from_embedded(b"this is not a gzip stream");
    assert!(words.is_empty());
}

#[test]
fn named_lists_keep_their_names_and_order() {
    let sources = vec![
        ("First".to_string(), gzip("aa\nbb\n")),
        ("Second".to_string(), gzip("cc\n")),
    ];
    let lists = load_word_lists(sources);
    assert_eq!(lists.len(), 2);
    assert_eq!(lists[0].name, "First");
    assert_eq!(lists[0].words, vec!["aa", "bb"]);
    assert_eq!(lists[1].name, "Second");
    assert_eq!(lists[1].words, vec!["cc"]);
}
