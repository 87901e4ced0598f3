use std::io::Write;

use odt_sentences::{DocumentArchive, OdtError, OdtParser};
use zip::write::SimpleFileOptions;
use zip::ZipWriter;

/// Builds an in-memory ODT-style container whose `content.xml` wraps the
/// given body markup in the usual document frame.
fn build_odt_bytes(content: &str) -> Vec<u8> {
    let cursor = std::io::Cursor::new(Vec::new());
    let mut zip = ZipWriter::new(cursor);

    zip.start_file(
        "mimetype",
        SimpleFileOptions::default().compression_method(zip::CompressionMethod::Stored),
    )
    .unwrap();
    zip.write_all(b"application/vnd.oasis.opendocument.text")
        .unwrap();

    zip.start_file("META-INF/manifest.xml", SimpleFileOptions::default())
        .unwrap();
    let manifest = r#"<?xml version="1.0" encoding="UTF-8"?>
<manifest:manifest xmlns:manifest="urn:oasis:names:tc:opendocument:xmlns:manifest:1.0">
    <manifest:file-entry manifest:full-path="/" manifest:media-type="application/vnd.oasis.opendocument.text"/>
    <manifest:file-entry manifest:full-path="content.xml" manifest:media-type="text/xml"/>
</manifest:manifest>"#;
    zip.write_all(manifest.as_bytes()).unwrap();

    zip.start_file("content.xml", SimpleFileOptions::default())
        .unwrap();
    let content_xml = format!(
        r#"<?xml version="1.0" encoding="UTF-8"?>
<office:document-content
    xmlns:office="urn:oasis:names:tc:opendocument:xmlns:office:1.0"
    xmlns:text="urn:oasis:names:tc:opendocument:xmlns:text:1.0">
    <office:body>
        <office:text>
            {}
        </office:text>
    </office:body>
</office:document-content>"#,
        content
    );
    zip.write_all(content_xml.as_bytes()).unwrap();

    zip.finish().unwrap().into_inner()
}

/// Builds an in-memory container whose `content.xml` holds exactly the
/// given bytes.
fn build_archive_with_member(name: &str, data: &[u8]) -> Vec<u8> {
    let cursor = std::io::Cursor::new(Vec::new());
    let mut zip = ZipWriter::new(cursor);
    zip.start_file(name, SimpleFileOptions::default()).unwrap();
    zip.write_all(data).unwrap();
    zip.finish().unwrap().into_inner()
}

#[test]
fn test_odt_file_parsing() -> Result<(), OdtError> {
    // Create test content with multiple paragraphs and sentences
    let test_content = r#"
            <text:p>This is the first paragraph with two sentences. Here is the second sentence!</text:p>
            <text:p>This is a second paragraph. It also has multiple sentences? Yes, it does.</text:p>
            <text:h>This is a heading.</text:h>
            <text:p>Final paragraph after the heading.</text:p>
        "#;

    let bytes = build_odt_bytes(test_content);

    let parser = OdtParser::new()?;
    let sentences = parser.parse_bytes(bytes)?;

    // Verify results
    assert!(!sentences.is_empty(), "Should have parsed some sentences");

    println!("Parsed sentences:");
    for (i, sentence) in sentences.iter().enumerate() {
        println!("  {}: {}", i + 1, sentence);
    }

    // Verify we have at least the expected number of sentences
    assert!(
        sentences.len() >= 6,
        "Should have at least 6 sentences, got {}",
        sentences.len()
    );

    // Check that some expected content is present
    let all_text = sentences.join(" ");
    assert!(
        all_text.contains("first paragraph"),
        "Should contain 'first paragraph'"
    );
    assert!(
        all_text.contains("second sentence"),
        "Should contain 'second sentence'"
    );
    assert!(all_text.contains("heading"), "Should contain 'heading'");

    Ok(())
}

#[test]
fn test_invalid_odt_file() -> Result<(), OdtError> {
    // A container that is not a valid ODT (missing content.xml)
    let bytes = build_archive_with_member("dummy.txt", b"This is not an ODT file");

    let parser = OdtParser::new()?;
    let result = parser.parse_bytes(bytes);

    assert!(result.is_err(), "Should return error for invalid ODT file");
    Ok(())
}

#[test]
fn missing_member_is_member_not_found() {
    // The member lookup must report the absence as such, not as a
    // generic read error.
    let bytes = build_archive_with_member("dummy.txt", b"no document here");
    let parser = OdtParser::new().unwrap();
    let result = parser.parse_bytes(bytes);
    assert!(matches!(result, Err(OdtError::MemberNotFound)));
}

#[test]
fn read_member_distinguishes_absent_from_present() {
    let bytes = build_archive_with_member("content.xml", b"<text:p>Hi.</text:p>");
    let mut archive = DocumentArchive::open(bytes).unwrap();

    let missing = archive.read_member("styles.xml");
    assert!(matches!(missing, Err(OdtError::MemberNotFound)));

    let bytes2 = build_archive_with_member("content.xml", b"<text:p>Hi.</text:p>");
    let mut archive2 = DocumentArchive::open(bytes2).unwrap();
    let data = archive2.read_member("content.xml").unwrap();
    assert_eq!(data, b"<text:p>Hi.</text:p>");
}

#[test]
fn garbage_bytes_are_a_bad_archive() {
    let parser = OdtParser::new().unwrap();
    let result = parser.parse_bytes(b"this is not a zip container at all".to_vec());
    assert!(matches!(result, Err(OdtError::BadArchive(_))));
}

#[test]
fn damaged_member_data_is_corrupt_data() {
    let mut bytes = build_archive_with_member(
        "content.xml",
        b"<text:p>A long enough paragraph so that the compressed stream has \
          some body to it. More filler text, and more still, and yet more \
          beyond that, so corruption lands inside the data.</text:p>",
    );
    // The local file header is 30 bytes plus the member name; damage a
    // stretch of the compressed data that follows it.
    for i in 50..60 {
        bytes[i] ^= 0xff;
    }
    let parser = OdtParser::new().unwrap();
    let result = parser.parse_bytes(bytes);
    assert!(matches!(result, Err(OdtError::CorruptData(_))));
}

#[test]
fn invalid_utf8_member_is_a_markup_error() {
    let bytes = build_archive_with_member("content.xml", &[0x3c, 0x61, 0x3e, 0xff, 0xfe, 0x3c]);
    let parser = OdtParser::new().unwrap();
    let result = parser.parse_bytes(bytes);
    assert!(matches!(result, Err(OdtError::MarkupError(_))));
}

#[test]
fn malformed_markup_member_is_a_markup_error() {
    let bytes = build_archive_with_member("content.xml", b"<text:p>open<text:h></text:p>");
    let parser = OdtParser::new().unwrap();
    let result = parser.parse_bytes(bytes);
    assert!(matches!(result, Err(OdtError::MarkupError(_))));
}

#[test]
fn parse_decodes_entities_through_the_whole_pipeline() {
    let bytes = build_odt_bytes("<text:p>Fish &amp; chips. Tea &lt;later&gt;!</text:p>");
    let parser = OdtParser::new().unwrap();
    let sentences = parser.parse_bytes(bytes).unwrap();
    assert_eq!(sentences, vec!["Fish & chips.", "Tea <later>!"]);
}

#[test]
fn parse_decodes_multibyte_text() {
    // Exercises the UTF-8 decoding of the member for real: the member
    // bytes are not the sentence text one for one.
    let bytes = build_odt_bytes("<text:p>Café au lait. Thé vert!</text:p>");
    let parser = OdtParser::new().unwrap();
    let sentences = parser.parse_bytes(bytes).unwrap();
    assert_eq!(sentences, vec!["Café au lait.", "Thé vert!"]);
}

#[test]
fn error_kind_labels_name_each_kind() {
    assert_eq!(OdtError::MemberNotFound.kind_name(), "archive member not found");
    assert_eq!(
        OdtError::BadArchive(String::from("x")).kind_name(),
        "bad archive"
    );
    assert_eq!(
        OdtError::CorruptData(String::from("x")).kind_name(),
        "corrupt data"
    );
    assert_eq!(
        OdtError::MarkupError(String::from("x")).kind_name(),
        "markup error"
    );
    assert_eq!(OdtError::Io(String::from("x")).kind_name(), "input error");
    assert_eq!(
        OdtError::NotFound(String::from("x")).kind_name(),
        "file not found"
    );
}
