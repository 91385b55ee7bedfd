use ferro_engine::clean::clean_medical_text;
use ferro_engine::entities::extract_entities;
use ferro_engine::patterns::{for_pattern, Pattern, PatternError};
use ferro_engine::text::{chars_of, is_whitespace_char, same_text, string_of, trim_bounds, trim_text};
use ferro_engine::tokens::{count_tokens, estimate_tokens, lowercase_all, tokenize};

fn strings(items: &[&str]) -> Vec<String> {
    items.iter().map(|s| s.to_string()).collect()
}

#[test]
fn test_clean_medical_text() {
    let text = "<b>Test</b>  multiple   spaces";
    let result = clean_medical_text(text).unwrap();
    assert_eq!(result, "Test multiple spaces");
}

#[test]
fn test_extract_entities() {
    let text = "Fecha: 15/01/2026 a las 14:30. Dosis: 500mg";
    let result = extract_entities(text).unwrap();
    assert_eq!(result.get("dates").unwrap().len(), 1);
    assert_eq!(result.get("times").unwrap().len(), 1);
    assert_eq!(result.get("measurements").unwrap().len(), 1);
}

#[test]
fn entities_are_the_matched_texts() {
    let text = "Fecha: 15/01/2026 a las 14:30. Dosis: 500mg";
    let result = extract_entities(text).unwrap();
    assert_eq!(result.dates, strings(&["15/01/2026"]));
    assert_eq!(result.times, strings(&["14:30"]));
    assert_eq!(result.measurements, strings(&["500mg"]));
    assert!(result.get("doses").is_none());
    assert!(result.get("").is_none());
    assert!(result.get("Dates").is_none());
}

#[test]
fn entities_come_in_the_order_of_the_text() {
    let result = extract_entities("1/2/2020, 03-04-21; 7:05 y 23:59:58; 2.5 ml, 80 kg, 10%").unwrap();
    assert_eq!(result.dates, strings(&["1/2/2020", "03-04-21"]));
    assert_eq!(result.times, strings(&["7:05", "23:59:58"]));
    assert_eq!(result.measurements, strings(&["2.5 ml", "80 kg", "10%"]));
}

#[test]
fn text_without_entities_has_none() {
    let result = extract_entities("nada que ver").unwrap();
    assert!(result.dates.is_empty());
    assert!(result.times.is_empty());
    assert!(result.measurements.is_empty());
    assert_eq!(result.get("dates"), Some(&Vec::<String>::new()));
}

#[test]
fn cleaning_removes_tags_and_control_characters() {
    assert_eq!(clean_medical_text("a\u{1}b\u{7}c").unwrap(), "abc");
    assert_eq!(clean_medical_text("\t uno \n dos \r\n").unwrap(), "uno dos");
    assert_eq!(clean_medical_text("<p>uno</p><br/>dos").unwrap(), "unodos");
    assert_eq!(clean_medical_text("a < b").unwrap(), "a < b");
    assert_eq!(clean_medical_text("<>").unwrap(), "<>");
    assert_eq!(clean_medical_text("").unwrap(), "");
    assert_eq!(clean_medical_text("  <i> </i>  ").unwrap(), "");
}

#[test]
fn patterns_are_regular_expressions() {
    assert_eq!(Pattern::HtmlTag.source(), r"<[^>]+>");
    assert_eq!(Pattern::ControlCharacter.source(), r"[\x00-\x08\x0B\x0C\x0E-\x1F]");
    assert_eq!(Pattern::Whitespace.source(), r"\s+");
    assert_eq!(Pattern::Date.source(), r"\d{1,2}[/\-]\d{1,2}[/\-]\d{2,4}");
    assert_eq!(Pattern::Time.source(), r"\d{1,2}:\d{2}(?::\d{2})?");
    assert_eq!(
        Pattern::Measurement.source(),
        "\\d+(?:\\.\\d+)?\\s*(?:mg|ml|g|kg|mm|cm|mmHg|bpm|\u{c2}\u{b0}C|%|mcg|UI)"
    );
}

#[test]
fn tokens_are_lower_case_words() {
    assert_eq!(
        tokenize("The quick (\"brown\") fox can't jump 32.3 feet, right?"),
        strings(&["the", "quick", "brown", "fox", "can't", "jump", "32.3", "feet", "right"])
    );
    assert_eq!(tokenize("Ácido ÚRICO"), strings(&["ácido", "úrico"]));
    assert!(tokenize("").is_empty());
    assert!(tokenize(" ... !!! ").is_empty());
}

#[test]
fn lowercase_all_lowers_each_word() {
    assert_eq!(lowercase_all(&strings(&["ABC", "dEf", "ÑU"])), strings(&["abc", "def", "ñu"]));
    assert!(lowercase_all(&Vec::new()).is_empty());
}

#[test]
fn token_estimate_is_the_mean_of_words_and_quarter_bytes() {
    assert_eq!(count_tokens(""), 0);
    assert_eq!(count_tokens("hello world"), 2);
    assert_eq!(count_tokens("a b c d e f"), 4);
    assert_eq!(count_tokens("a"), 0);
    assert_eq!(count_tokens("ññññ"), 1);
    assert_eq!(estimate_tokens(3, 9), 2);
    assert_eq!(estimate_tokens(5, 12), 4);
    assert_eq!(estimate_tokens(1, 4), 1);
    assert_eq!(estimate_tokens(0, 3), 0);
    assert_eq!(estimate_tokens(usize::MAX, 0), usize::MAX / 2);
    let wide = (usize::MAX as u128 + (usize::MAX / 4) as u128) / 2;
    assert_eq!(estimate_tokens(usize::MAX, usize::MAX) as u128, wide);
}

#[test]
fn whitespace_is_what_std_calls_whitespace() {
    for code in 0..=0x10FFFFu32 {
        if let Some(c) = char::from_u32(code) {
            assert_eq!(is_whitespace_char(c), c.is_whitespace(), "U+{:04X}", code);
        }
    }
}

#[test]
fn trimming_agrees_with_std() {
    for text in [
        "",
        " ",
        "a",
        "  a  ",
        "\t\n a b \r\n",
        "\u{a0}x\u{3000}",
        "\u{200b} x \u{200b}",
        "\u{2028}línea\u{2029}",
        "   \u{85}  ",
    ] {
        assert_eq!(trim_text(text), text.trim());
    }
}

#[test]
fn trim_bounds_stay_inside_the_range() {
    let chars = chars_of("ab  cd  ef");
    assert_eq!(trim_bounds(&chars, 2, 8), (4, 6));
    assert_eq!(trim_bounds(&chars, 2, 4), (4, 4));
    assert_eq!(trim_bounds(&chars, 0, 10), (0, 10));
    assert_eq!(trim_bounds(&chars, 5, 5), (5, 5));
}

#[test]
fn strings_and_characters_convert_both_ways() {
    assert_eq!(chars_of("añ日"), vec!['a', 'ñ', '日']);
    assert_eq!(string_of(&['a', 'ñ', '日']), "añ日");
    assert_eq!(string_of(&[]), "");
    assert!(chars_of("").is_empty());
}

#[test]
fn same_text_compares_characters() {
    assert!(same_text("", ""));
    assert!(same_text("dates", "dates"));
    assert!(!same_text("dates", "date"));
    assert!(!same_text("dates", "datez"));
    assert!(!same_text("a", ""));
}

#[test]
fn a_pattern_that_is_turned_down_is_named() {
    let refused = regex::Regex::new("(").unwrap_err();
    assert_eq!(
        for_pattern::<String>(Err(refused), Pattern::Date),
        Err(PatternError { pattern: Pattern::Date })
    );
    assert_eq!(for_pattern(Ok(7u8), Pattern::Time), Ok(7u8));
}

#[test]
fn units_are_tried_in_their_order() {
    let result = extract_entities("TA 120 mmHg, pulso 72 bpm, 5 mcg, 3 UI").unwrap();
    assert_eq!(result.measurements, strings(&["120 mm", "72 bpm", "5 mcg", "3 UI"]));
}

#[test]
fn the_patterns_compile() {
    for pattern in [
        Pattern::HtmlTag,
        Pattern::ControlCharacter,
        Pattern::Whitespace,
        Pattern::Date,
        Pattern::Time,
        Pattern::Measurement,
    ] {
        assert!(regex::Regex::new(pattern.source()).is_ok());
    }
    for text in ["", " ", "<a>", "12/12/2012", "\u{0}\u{1f}", "texto sin nada", "1:23 4mg"] {
        assert!(clean_medical_text(text).is_ok());
        assert!(extract_entities(text).is_ok());
    }
}

#[test]
fn cleaned_text_is_trimmed() {
    for text in ["  a  ", "<b> x </b>", "\t\n", " <i></i> uno\u{a0}\u{3000}dos \u{1}", "\u{2003}fin\u{85}"] {
        let cleaned = clean_medical_text(text).unwrap();
        assert_eq!(trim_text(&cleaned), cleaned);
        assert_eq!(cleaned.trim(), cleaned);
    }
}
