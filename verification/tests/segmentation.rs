use odt_sentences::segment::collapse_whitespace;
use odt_sentences::segment::normalize_whitespace;
use odt_sentences::OdtParser;

#[test]
fn test_sentence_splitting() {
    let parser = OdtParser::new().unwrap();
    let text = "This is sentence one. This is sentence two! And this is sentence three?";
    let sentences = parser.split_into_sentences(text);

    assert_eq!(sentences.len(), 3);
    assert_eq!(sentences[0], "This is sentence one.");
    assert_eq!(sentences[1], "This is sentence two!");
    assert_eq!(sentences[2], "And this is sentence three?");
}

#[test]
fn test_empty_text() {
    let parser = OdtParser::new().unwrap();
    let sentences = parser.split_into_sentences("");
    assert_eq!(sentences.len(), 0);
}

#[test]
fn test_complex_punctuation() {
    let parser = OdtParser::new().unwrap();
    let text = "What?! Really... Yes. No doubt about it!!! Absolutely.";
    let sentences = parser.split_into_sentences(text);

    println!("Complex punctuation sentences:");
    for (i, sentence) in sentences.iter().enumerate() {
        println!("  {}: {}", i + 1, sentence);
    }

    assert!(sentences.len() >= 3, "Should handle complex punctuation");
}

#[test]
fn complex_punctuation_exact_values() {
    let parser = OdtParser::new().unwrap();
    let text = "What?! Really... Yes. No doubt about it!!! Absolutely.";
    let sentences = parser.split_into_sentences(text);

    assert_eq!(
        sentences,
        vec![
            "What?!",
            "Really...",
            "Yes.",
            "No doubt about it!!!",
            "Absolutely.",
        ]
    );
}

#[test]
fn collapsing_twice_equals_collapsing_once() {
    let samples = [
        "  a \t\t b\n\nc  ",
        "no extra whitespace",
        " \n ",
        "",
        "one. \r\n two!   three",
    ];
    for s in samples {
        let once = collapse_whitespace(s);
        let twice = collapse_whitespace(&once);
        assert_eq!(twice, once, "collapsing {:?} twice changed the result", s);
    }
}

#[test]
fn normalizing_twice_equals_normalizing_once() {
    let samples = ["  a \t b\nc  ", "", "   ", "x"];
    for s in samples {
        let once = normalize_whitespace(s);
        let twice = normalize_whitespace(&once);
        assert_eq!(twice, once);
    }
}

#[test]
fn normalization_exact_values() {
    assert_eq!(normalize_whitespace("  Hello \n\t world  "), "Hello world");
    assert_eq!(normalize_whitespace("a\nb"), "a b");
    assert_eq!(normalize_whitespace(" \t\r\n "), "");
    assert_eq!(collapse_whitespace("a \t b"), "a b");
    assert_eq!(collapse_whitespace("  x"), " x");
}

#[test]
fn unicode_whitespace_collapses_too() {
    assert_eq!(normalize_whitespace("a\u{a0}b"), "a b");
    assert_eq!(normalize_whitespace("\u{2003}x\u{2028}y\u{3000}"), "x y");

    let parser = OdtParser::new().unwrap();
    let sentences = parser.split_into_sentences("One.\u{a0}Two.");
    assert_eq!(sentences, vec!["One.", "Two."]);
}

#[test]
fn marker_count_matches_sentence_count() {
    let parser = OdtParser::new().unwrap();

    // Two boundary markers, plus a final candidate: three sentences, the
    // first two ending in their marker's punctuation.
    let sentences = parser.split_into_sentences("One. Two!! Three");
    assert_eq!(sentences, vec!["One.", "Two!!", "Three"]);
    assert!(sentences[0].ends_with('.'));
    assert!(sentences[1].ends_with('!'));

    // A candidate that trims to nothing is dropped and its marker
    // produces no sentence.
    let sentences = parser.split_into_sentences("One. ?! Two.");
    assert_eq!(sentences, vec!["One.", "Two."]);
}

#[test]
fn punctuation_without_following_whitespace_is_no_boundary() {
    let parser = OdtParser::new().unwrap();
    let sentences = parser.split_into_sentences("version 1.2 is out");
    assert_eq!(sentences, vec!["version 1.2 is out"]);
}

#[test]
fn lone_punctuation_keeps_final_segment() {
    // Punctuation with no following text is not a boundary marker once
    // the trailing whitespace is trimmed away; it stays as the final
    // candidate segment.
    let parser = OdtParser::new().unwrap();
    let sentences = parser.split_into_sentences("?! ");
    assert_eq!(sentences, vec!["?!"]);
}

#[test]
fn whitespace_only_input_yields_nothing() {
    let parser = OdtParser::new().unwrap();
    let sentences = parser.split_into_sentences(" \n\t ");
    assert_eq!(sentences.len(), 0);
}
