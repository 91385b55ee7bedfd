use ferro_engine::batch::parallel_chunk_texts;
use ferro_engine::chunker::chunk_text;
use ferro_engine::params::InvalidParameter;

#[test]
fn batch_results_follow_the_texts() {
    let texts = vec!["A. B".to_string(), String::new(), "C".to_string()];
    let results = parallel_chunk_texts(texts, 10, 2).unwrap();
    assert_eq!(
        results,
        vec![
            (0usize, vec!["A. B".to_string()]),
            (1usize, Vec::<String>::new()),
            (2usize, vec!["C".to_string()]),
        ]
    );
}

#[test]
fn empty_batch_is_empty() {
    assert_eq!(parallel_chunk_texts(Vec::new(), 1000, 200), Ok(Vec::new()));
}

#[test]
fn large_batch_keeps_length_positions_and_chunks() {
    let texts: Vec<String> = (0..500usize)
        .map(|i| {
            let mut text = String::new();
            for j in 0..(i % 23) {
                text.push_str(&format!("Sentence {} of text {}. ", j, i));
            }
            text
        })
        .collect();
    let results = parallel_chunk_texts(texts.clone(), 60, 12).unwrap();
    assert_eq!(results.len(), texts.len());
    for (i, (index, chunks)) in results.iter().enumerate() {
        assert_eq!(*index, i);
        assert_eq!(chunks, &chunk_text(&texts[i], 60, 12).unwrap());
    }
}

#[test]
fn batch_refuses_unusable_parameters_as_a_whole() {
    let texts = vec!["A. B".to_string(), "C".to_string()];
    assert_eq!(parallel_chunk_texts(texts.clone(), 0, 0), Err(InvalidParameter::ZeroMaxSize));
    assert_eq!(parallel_chunk_texts(texts.clone(), 0, 5), Err(InvalidParameter::ZeroMaxSize));
    assert_eq!(parallel_chunk_texts(texts.clone(), 5, 5), Err(InvalidParameter::OverlapTooLarge));
    assert_eq!(parallel_chunk_texts(texts, 5, 9), Err(InvalidParameter::OverlapTooLarge));
    assert_eq!(parallel_chunk_texts(Vec::new(), 0, 0), Err(InvalidParameter::ZeroMaxSize));
}
