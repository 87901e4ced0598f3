use odt_sentences::OdtParser;

#[test]
fn test_xml_extraction() -> Result<(), odt_sentences::OdtError> {
    let parser = OdtParser::new()?;

    // Test XML content extraction directly
    let xml_content = r#"<?xml version="1.0" encoding="UTF-8"?>
<office:document-content
    xmlns:office="urn:oasis:names:tc:opendocument:xmlns:office:1.0"
    xmlns:text="urn:oasis:names:tc:opendocument:xmlns:text:1.0">
    <office:body>
        <office:text>
            <text:p>First paragraph.</text:p>
            <text:p>Second paragraph with <text:span>inline text</text:span>.</text:p>
        </office:text>
    </office:body>
</office:document-content>"#;

    let extracted_text = parser.extract_text_from_xml(xml_content)?;

    assert!(
        extracted_text.contains("First paragraph"),
        "Should extract first paragraph"
    );
    assert!(
        extracted_text.contains("Second paragraph"),
        "Should extract second paragraph"
    );
    assert!(
        extracted_text.contains("inline text"),
        "Should extract span text"
    );

    println!("Extracted text: '{}'", extracted_text);

    Ok(())
}

#[test]
fn paragraph_boundaries_insert_one_space_and_span_boundaries_none() {
    let parser = OdtParser::new().unwrap();
    let markup = "<text:p>First paragraph.</text:p>\
<text:p>Second paragraph with <text:span>inline text</text:span>.</text:p>";
    let extracted = parser.extract_text_from_xml(markup).unwrap();

    // Exactly one separator space follows each paragraph end; the span
    // end introduces none.  The period after the span stands outside
    // every recognized start tag and is discarded by the policy table.
    assert_eq!(
        extracted,
        "First paragraph. Second paragraph with inline text "
    );
    assert!(extracted.contains("First paragraph. Second"));
    assert!(!extracted.contains("  "));
    assert!(extracted.contains("with inline text"));
}

#[test]
fn heading_end_inserts_separator_space() {
    let parser = OdtParser::new().unwrap();
    // The fixed lookup table keeps the producer's mixed separators: the
    // heading identity is the dot form on both the start and end paths.
    let markup = "<text.h>A heading</text.h><text.h>Another</text.h>";
    let extracted = parser.extract_text_from_xml(markup).unwrap();
    assert_eq!(extracted, "A heading Another ");
}

#[test]
fn dot_form_span_end_is_not_in_the_end_table() {
    let parser = OdtParser::new().unwrap();
    // Only the colon form of the inline-run identity clears the flag on
    // the end path; the dot form opens the element but its end event
    // matches no rule, so the flag stays set across it.
    let markup = "<text.span>inline</text.span><other>tail</other>";
    let extracted = parser.extract_text_from_xml(markup).unwrap();
    assert_eq!(extracted, "inlinetail");
}

#[test]
fn text_in_unrecognized_elements_is_discarded() {
    let parser = OdtParser::new().unwrap();
    let markup = "<office:meta><dc:title>Hidden title</dc:title></office:meta>\
<text:p>Visible sentence.</text:p>";
    let extracted = parser.extract_text_from_xml(markup).unwrap();

    assert!(
        !extracted.contains("Hidden"),
        "metadata text must not reach the output"
    );
    assert!(extracted.contains("Visible sentence."));
}

#[test]
fn entity_references_are_decoded() {
    let parser = OdtParser::new().unwrap();
    let markup = "<text:p>Fish &amp; chips &lt;today&gt;.</text:p>";
    let extracted = parser.extract_text_from_xml(markup).unwrap();
    assert_eq!(extracted, "Fish & chips <today>. ");
}

#[test]
fn unknown_entity_reference_is_a_markup_error() {
    let parser = OdtParser::new().unwrap();
    let markup = "<text:p>bad &nosuch; reference</text:p>";
    let result = parser.extract_text_from_xml(markup);
    match result {
        Err(odt_sentences::OdtError::MarkupError(msg)) => {
            // The message carries positional context: the byte offset
            // where the reader stood.
            assert!(msg.contains("at byte"), "no offset in: {}", msg);
        }
        other => panic!("expected a markup error, got {:?}", other),
    }
}

#[test]
fn mismatched_end_tag_is_a_markup_error() {
    let parser = OdtParser::new().unwrap();
    let markup = "<text:p>open<text:span>inner</text:p></text:span>";
    let result = parser.extract_text_from_xml(markup);
    assert!(matches!(
        result,
        Err(odt_sentences::OdtError::MarkupError(_))
    ));
}

#[test]
fn text_events_are_appended_verbatim() {
    let parser = OdtParser::new().unwrap();
    // Character data inside a recognized element is appended with no
    // trimming; only segmentation later collapses the whitespace.
    let markup = "<text:p>spaced   out</text:p>";
    let extracted = parser.extract_text_from_xml(markup).unwrap();
    assert_eq!(extracted, "spaced   out ");
}
