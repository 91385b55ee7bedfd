use ferro_engine::words::{chunk_text, pack_words, split_words, word_bounds};

fn strings(items: &[&str]) -> Vec<String> {
    items.iter().map(|s| s.to_string()).collect()
}

#[test]
fn words_are_packed_up_to_the_size() {
    assert_eq!(
        chunk_text("the quick brown fox".to_string(), 10),
        strings(&["the quick", "brown fox"])
    );
    assert_eq!(
        chunk_text("the quick brown fox".to_string(), 100),
        strings(&["the quick brown fox"])
    );
    assert_eq!(chunk_text("  spaced \t out\n\nwords ".to_string(), 11), strings(&["spaced out", "words"]));
}

#[test]
fn text_without_words_has_no_word_chunks() {
    assert!(chunk_text(String::new(), 10).is_empty());
    assert!(chunk_text(" \t\n\u{a0} ".to_string(), 10).is_empty());
    assert!(chunk_text(String::new(), 0).is_empty());
}

#[test]
fn a_word_that_does_not_fit_closes_even_an_empty_chunk() {
    assert_eq!(chunk_text("hello".to_string(), 3), strings(&["", "hello"]));
    assert_eq!(chunk_text("a b".to_string(), 1), strings(&["", "a", "b"]));
    assert_eq!(chunk_text("a b".to_string(), 0), strings(&["", "a", "b"]));
    assert_eq!(chunk_text("a b".to_string(), 2), strings(&["a", "b"]));
    assert_eq!(chunk_text("a b".to_string(), 3), strings(&["a b"]));
    assert_eq!(chunk_text("a b".to_string(), 4), strings(&["a b"]));
}

#[test]
fn word_chunks_are_measured_in_bytes() {
    assert_eq!(chunk_text("ñu ñu".to_string(), 6), strings(&["ñu", "ñu"]));
    assert_eq!(chunk_text("ñu ñu".to_string(), 8), strings(&["ñu ñu"]));
    assert_eq!(chunk_text("nu nu".to_string(), 6), strings(&["nu nu"]));
}

#[test]
fn words_agree_with_split_whitespace() {
    let text = "  uno\tdos\u{a0}tres \u{3000} cuatro\r\ncinco\u{200b}seis  ";
    let expected: Vec<String> = text.split_whitespace().map(|w| w.to_string()).collect();
    assert_eq!(split_words(text), expected);
    assert_eq!(split_words("solo"), strings(&["solo"]));
    assert!(split_words("").is_empty());
}

#[test]
fn word_bounds_cut_out_the_words() {
    let chars: Vec<char> = " ab  cde f".chars().collect();
    assert_eq!(word_bounds(&chars), vec![(1usize, 3usize), (5, 8), (9, 10)]);
    assert!(word_bounds(&[]).is_empty());
}

#[test]
fn packing_takes_the_words_as_given() {
    assert_eq!(pack_words(&strings(&["ab", "cd", "ef"]), 5), strings(&["ab cd", "ef"]));
    assert_eq!(pack_words(&strings(&["ab", "cd", "ef"]), usize::MAX), strings(&["ab cd ef"]));
    assert!(pack_words(&Vec::new(), 5).is_empty());
}
