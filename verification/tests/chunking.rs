use ferro_engine::chunker::{chunk_text, chunk_text_internal, Chunker};
use ferro_engine::params::{
    validate_parameters, ChunkingParameters, InvalidParameter, DEFAULT_MAX_SIZE, DEFAULT_OVERLAP,
};
use ferro_engine::segment::split_segments;

fn strings(items: &[&str]) -> Vec<String> {
    items.iter().map(|s| s.to_string()).collect()
}

#[test]
fn test_chunk_text_empty() {
    let result = chunk_text_internal("", 100, 20);
    assert!(result.is_empty());
}

#[test]
fn test_chunk_text_basic() {
    let text = "First sentence. Second sentence. Third sentence.";
    let result = chunk_text_internal(text, 50, 10);
    assert!(!result.is_empty());
}

#[test]
fn three_sentences_fit_one_chunk() {
    let text = "First sentence. Second sentence. Third sentence.";
    let result = chunk_text(text, 50, 10).unwrap();
    assert_eq!(result, strings(&["First sentence. Second sentence. Third sentence"]));
    assert!(result.iter().all(|c| c.chars().count() <= 50));
}

#[test]
fn empty_text_has_no_chunks_for_any_valid_parameters() {
    for max_size in 1..40usize {
        for overlap in 0..max_size {
            assert_eq!(chunk_text("", max_size, overlap), Ok(Vec::new()));
        }
    }
}

#[test]
fn valid_parameters_never_fail() {
    let text = "Uno. Dos\nTres.   . Cuatro";
    for max_size in 1..30usize {
        for overlap in 0..max_size {
            assert!(chunk_text(text, max_size, overlap).is_ok());
        }
    }
}

#[test]
fn zero_size_is_refused() {
    assert_eq!(chunk_text("abc", 0, 0), Err(InvalidParameter::ZeroMaxSize));
    assert_eq!(chunk_text("abc", 0, 7), Err(InvalidParameter::ZeroMaxSize));
    assert_eq!(chunk_text("", 0, 0), Err(InvalidParameter::ZeroMaxSize));
}

#[test]
fn overlap_not_below_size_is_refused() {
    assert_eq!(chunk_text("abc", 5, 5), Err(InvalidParameter::OverlapTooLarge));
    assert_eq!(chunk_text("abc", 5, 6), Err(InvalidParameter::OverlapTooLarge));
    assert_eq!(chunk_text("abc", 1, usize::MAX), Err(InvalidParameter::OverlapTooLarge));
    for n in 0..12usize {
        for m in n..14usize {
            assert!(chunk_text("Some text. More text", n, m).is_err());
        }
    }
}

#[test]
fn validation_names_the_reason() {
    assert_eq!(validate_parameters(1, 0), Ok(()));
    assert_eq!(validate_parameters(1000, 200), Ok(()));
    assert_eq!(validate_parameters(0, 0), Err(InvalidParameter::ZeroMaxSize));
    assert_eq!(validate_parameters(3, 3), Err(InvalidParameter::OverlapTooLarge));
    assert_eq!(InvalidParameter::ZeroMaxSize.message(), "max_size must be greater than 0");
    assert_eq!(InvalidParameter::OverlapTooLarge.message(), "overlap must be less than max_size");
}

#[test]
fn parameters_keep_their_values() {
    let p = ChunkingParameters::new(50, 10).unwrap();
    assert_eq!(p.max_size(), 50);
    assert_eq!(p.overlap(), 10);
    assert_eq!(ChunkingParameters::new(0, 0).unwrap_err(), InvalidParameter::ZeroMaxSize);
    assert_eq!(ChunkingParameters::new(4, 9).unwrap_err(), InvalidParameter::OverlapTooLarge);
}

#[test]
fn closed_chunk_seeds_the_next_with_its_tail() {
    let result = chunk_text("One two. Three four. Five six.", 20, 5).unwrap();
    assert_eq!(result, strings(&["One two. Three four", " four. Five six"]));
}

#[test]
fn short_chunk_is_carried_over_whole() {
    let result = chunk_text("ab. cdefgh", 6, 5).unwrap();
    assert_eq!(result, strings(&["ab", "ab. cdefgh"]));
}

#[test]
fn without_overlap_chunks_share_nothing() {
    let result = chunk_text("aaaa. bbbb. cccc", 10, 0).unwrap();
    assert_eq!(result, strings(&["aaaa. bbbb", "cccc"]));
}

#[test]
fn oversized_segment_is_kept_whole() {
    assert_eq!(chunk_text("abcdefghij", 5, 0).unwrap(), strings(&["abcdefghij"]));
    assert_eq!(
        chunk_text("ab. abcdefghij. cd", 5, 0).unwrap(),
        strings(&["ab", "abcdefghij", "cd"])
    );
}

#[test]
fn seed_can_push_a_chunk_over_the_size() {
    let result = chunk_text("aaaaaaaa. bbbbbbbb", 10, 5).unwrap();
    assert_eq!(result, strings(&["aaaaaaaa", "aaaaa. bbbbbbbb"]));
    assert_eq!(result[1].chars().count(), 15);
}

#[test]
fn chunks_keep_the_size_where_segments_leave_room() {
    let text = "alpha beta. gamma. delta epsilon. zeta\neta theta. iota. kappa lambda mu";
    let (max_size, overlap) = (40usize, 6usize);
    let segments = split_segments(text);
    assert!(segments.iter().all(|s| overlap + 2 + s.chars().count() <= max_size));
    let chunks = chunk_text(text, max_size, overlap).unwrap();
    assert!(chunks.len() > 1);
    assert!(chunks.iter().all(|c| c.chars().count() <= max_size));
}

#[test]
fn neighbouring_chunks_overlap() {
    let text = "alpha beta. gamma. delta epsilon. zeta\neta theta. iota. kappa lambda mu";
    for overlap in 0..12usize {
        let chunks = chunk_text(text, 24, overlap).unwrap();
        assert!(chunks.len() > 1);
        for pair in chunks.windows(2) {
            let before: Vec<char> = pair[0].chars().collect();
            let start = before.len().saturating_sub(overlap);
            let tail: String = before[start..].iter().collect();
            assert!(pair[1].starts_with(&tail));
        }
    }
}

#[test]
fn lengths_are_counted_in_characters() {
    let result = chunk_text("áé. íó", 4, 1).unwrap();
    assert_eq!(result, strings(&["áé", "é. íó"]));
    let result = chunk_text("日本語。. 中文字", 6, 2).unwrap();
    assert_eq!(result, strings(&["日本語。", "語。. 中文字"]));
    let result = chunk_text("ñandú. güeña", 14, 3).unwrap();
    assert_eq!(result, strings(&["ñandú. güeña"]));
}

#[test]
fn text_without_content_has_no_chunks() {
    assert!(chunk_text(" . \n .. \t", 10, 2).unwrap().is_empty());
    assert!(chunk_text("....", 10, 2).unwrap().is_empty());
    assert!(chunk_text("\n\n", 1, 0).unwrap().is_empty());
    assert!(chunk_text("   ", 3, 1).unwrap().is_empty());
    assert!(chunk_text("\u{a0}\u{3000}.\u{2003}", 3, 1).unwrap().is_empty());
}

#[test]
fn text_with_content_has_chunks_that_hold_something() {
    for text in ["a", " a ", ".a.", "a. b. c. d. e. f", "x\ny\nz", "one.two.three"] {
        for max_size in 1..9usize {
            for overlap in 0..max_size {
                let chunks = chunk_text(text, max_size, overlap).unwrap();
                assert!(!chunks.is_empty());
                assert!(chunks.iter().all(|c| !c.is_empty()));
            }
        }
    }
}

#[test]
fn segments_are_trimmed_and_empty_ones_dropped() {
    assert_eq!(
        split_segments("  First one .Second\n\n  third.  .. \tlast\u{a0}"),
        strings(&["First one", "Second", "third", "last"])
    );
    assert_eq!(split_segments(""), Vec::<String>::new());
    assert_eq!(split_segments("no delimiter"), strings(&["no delimiter"]));
    assert_eq!(split_segments("a.b"), strings(&["a", "b"]));
    assert_eq!(split_segments("3.14"), strings(&["3", "14"]));
    assert_eq!(split_segments("inner  space kept."), strings(&["inner  space kept"]));
}

#[test]
fn segments_agree_with_split_and_trim() {
    let text = " Uno. Dos \n\nTres y cuatro.\u{2003}Cinco\u{85}.\r\n seis \u{200b} . ";
    let expected: Vec<String> = text
        .split(|c| c == '.' || c == '\n')
        .map(|s| s.trim())
        .filter(|s| !s.is_empty())
        .map(|s| s.to_string())
        .collect();
    assert_eq!(split_segments(text), expected);
}

#[test]
fn chunker_closes_and_reseeds() {
    let mut chunker = Chunker::new(ChunkingParameters::new(10, 5).unwrap());
    assert_eq!(chunker.pending(), "");
    assert!(chunker.closed().is_empty());
    chunker.push_segment("aaaaaaaa");
    assert_eq!(chunker.pending(), "aaaaaaaa");
    assert!(chunker.closed().is_empty());
    chunker.push_segment("bbbbbbbb");
    assert_eq!(chunker.closed(), &strings(&["aaaaaaaa"]));
    assert_eq!(chunker.pending(), "aaaaa. bbbbbbbb");
    chunker.push_segment("c");
    assert_eq!(chunker.closed(), &strings(&["aaaaaaaa", "aaaaa. bbbbbbbb"]));
    assert_eq!(chunker.pending(), "bbbbb. c");
    assert_eq!(chunker.finish(), strings(&["aaaaaaaa", "aaaaa. bbbbbbbb", "bbbbb. c"]));
}

#[test]
fn chunker_joins_while_there_is_room() {
    let mut chunker = Chunker::new(ChunkingParameters::new(12, 3).unwrap());
    chunker.push_segment("abc");
    chunker.push_segment("defgh");
    assert_eq!(chunker.pending(), "abc. defgh");
    assert!(chunker.closed().is_empty());
    chunker.push_chars(&['i']);
    assert_eq!(chunker.closed(), &strings(&["abc. defgh"]));
    assert_eq!(chunker.pending(), "fgh. i");
}

#[test]
fn chunker_without_segments_gives_nothing() {
    let chunker = Chunker::new(ChunkingParameters::new(1, 0).unwrap());
    assert!(chunker.finish().is_empty());
}

#[test]
fn chunking_is_repeatable() {
    let text = "alpha beta. gamma. delta epsilon. zeta\neta theta. iota";
    assert_eq!(chunk_text(text, 17, 4), chunk_text(text, 17, 4));
}

#[test]
fn size_limits_of_the_machine_are_handled() {
    let text = "aa. bb. cc";
    assert_eq!(chunk_text(text, usize::MAX, 0).unwrap(), strings(&["aa. bb. cc"]));
    assert_eq!(chunk_text(text, usize::MAX, usize::MAX - 1).unwrap(), strings(&["aa. bb. cc"]));
    assert_eq!(chunk_text(text, 1, 0).unwrap(), strings(&["aa", "bb", "cc"]));
    assert_eq!(chunk_text(text, 5, 0).unwrap(), strings(&["aa", "bb", "cc"]));
    assert_eq!(chunk_text(text, 6, 0).unwrap(), strings(&["aa. bb", "cc"]));
}

#[test]
fn closing_and_appending_can_be_done_apart() {
    let mut chunker = Chunker::new(ChunkingParameters::new(10, 3).unwrap());
    chunker.close();
    assert!(chunker.closed().is_empty());
    assert_eq!(chunker.pending(), "");
    chunker.append(&['a', 'b', 'c', 'd', 'e']);
    assert_eq!(chunker.pending(), "abcde");
    assert!(!chunker.closes_for(&['x', 'y', 'z']));
    assert!(chunker.closes_for(&['w', 'x', 'y', 'z']));
    chunker.close();
    assert_eq!(chunker.closed(), &strings(&["abcde"]));
    assert_eq!(chunker.pending(), "cde");
    chunker.close();
    assert_eq!(chunker.closed(), &strings(&["abcde", "cde"]));
    assert_eq!(chunker.pending(), "cde");
    chunker.append(&['f']);
    assert_eq!(chunker.pending(), "cde. f");
    assert_eq!(chunker.finish(), strings(&["abcde", "cde", "cde. f"]));
}

#[test]
fn nothing_closes_an_empty_buffer() {
    let chunker = Chunker::new(ChunkingParameters::new(2, 1).unwrap());
    assert!(!chunker.closes_for(&['a', 'b', 'c', 'd']));
    assert!(!chunker.closes_for(&[]));
}

#[test]
fn without_overlap_closing_empties_the_buffer() {
    let mut chunker = Chunker::new(ChunkingParameters::new(4, 0).unwrap());
    chunker.push_segment("abcd");
    chunker.close();
    assert_eq!(chunker.pending(), "");
    assert_eq!(chunker.closed(), &strings(&["abcd"]));
}

#[test]
fn chunks_stand_for_the_segments() {
    let text = "alpha beta. gamma. delta epsilon. zeta\neta theta. iota. kappa lambda mu";
    let wanted = split_segments(text).join(". ");
    for max_size in 1..40usize {
        for overlap in 0..max_size {
            let chunks = chunk_text(text, max_size, overlap).unwrap();
            let mut rebuilt = String::new();
            for (i, chunk) in chunks.iter().enumerate() {
                let chars: Vec<char> = chunk.chars().collect();
                let seed = if i == 0 {
                    0
                } else {
                    chunks[i - 1].chars().count().min(overlap)
                };
                let skip = if seed > 0 { seed + 2 } else { 0 };
                let fresh: String = chars[skip..].iter().collect();
                if !rebuilt.is_empty() {
                    rebuilt.push_str(". ");
                }
                rebuilt.push_str(&fresh);
            }
            assert_eq!(rebuilt, wanted);
        }
    }
}

#[test]
fn long_text_is_chunked() {
    let mut text = String::new();
    for i in 0..100_000usize {
        text.push_str("Oraci\u{f3}n n\u{fa}mero ");
        text.push_str(&i.to_string());
        text.push_str(". ");
    }
    let chunks = chunk_text(&text, 1000, 200).unwrap();
    assert!(chunks.len() > 1000);
    assert!(chunks.iter().all(|c| c.chars().count() <= 1000));
    assert!(chunks[0].starts_with("Oraci\u{f3}n n\u{fa}mero 0. Oraci\u{f3}n n\u{fa}mero 1. "));
}

#[test]
fn default_parameters_are_usable() {
    assert_eq!(DEFAULT_MAX_SIZE, 1000);
    assert_eq!(DEFAULT_OVERLAP, 200);
    assert_eq!(validate_parameters(DEFAULT_MAX_SIZE, DEFAULT_OVERLAP), Ok(()));
    let p = ChunkingParameters::default();
    assert_eq!(p.max_size(), 1000);
    assert_eq!(p.overlap(), 200);
}
