//! Sentence extraction from word-processor documents.
//!
//! A document is a compressed container holding a markup member named
//! `content.xml`.  The library opens the container, streams the markup
//! to recover the paragraph-level text, normalizes whitespace, and
//! segments the text into sentences, each carrying its own trailing
//! punctuation.  File handling and the interactive viewer stay outside;
//! the library works on plain bytes and strings and never prints.

use vstd::prelude::*;

pub mod archive;
pub mod errors;
pub mod extract;
pub mod segment;
pub mod wrap;

pub use archive::DocumentArchive;
pub use errors::OdtError;

verus! {

/// Relies on String::from_utf8: it succeeds exactly on well-formed
/// UTF-8 and decodes it; the message is the error's display form.
#[verifier::external_body]
fn bytes_to_text(bytes: Vec<u8>) -> (r: Result<String, String>)
    ensures
        r matches Ok(s) ==> vstd::utf8::valid_utf8(bytes@) && s@ == vstd::utf8::decode_utf8(
            bytes@,
        ),
        r matches Err(m) ==> !vstd::utf8::valid_utf8(bytes@),
{
    String::from_utf8(bytes).map_err(|e| format!("{}", e))
}

/// The sentence parser.  It carries no document state: every parse
/// starts from fresh extraction state and leaves nothing behind.
pub struct OdtParser {}

impl OdtParser {
    /// A fresh parser.  Construction cannot fail; the fallible signature
    /// is kept for callers that treat construction like any other step.
    pub fn new() -> (r: Result<OdtParser, OdtError>)
        ensures
            r is Ok,
    {
        Ok(OdtParser {})
    }

    /// One forward pass over the markup text: keeps character data of
    /// the recognized text-bearing elements, one separator space per
    /// paragraph or heading end, and nothing else.  It succeeds exactly
    /// on well-formed markup; malformed markup fails with `MarkupError`
    /// and no partial text is returned.
    pub fn extract_text_from_xml(&self, xml_content: &str) -> (r: Result<String, OdtError>)
        ensures
            r matches Ok(t) ==> t@ == extract::extracted_text(
                extract::markup_events_of(xml_content@),
            ),
            r is Ok <==> extract::markup_wf(xml_content@),
            r matches Err(e) ==> e is MarkupError,
    {
        extract::extract_text(xml_content)
    }

    /// Normalizes whitespace and cuts the text at every boundary marker,
    /// re-attaching each marker's punctuation to the sentence before it.
    pub fn split_into_sentences(&self, text: &str) -> (r: Vec<String>)
        ensures
            r.deep_view() == segment::sentences_spec(text@),
    {
        segment::split_sentences(text)
    }

    /// The full pipeline over container bytes: open, read the
    /// `content.xml` member, extract the text, segment it.  The first
    /// error ends the parse; no partial sentence list is produced.
    pub fn parse_bytes(&self, bytes: Vec<u8>) -> (r: Result<Vec<String>, OdtError>)
        ensures
            r is Ok <==> document_wf(bytes@),
            r matches Ok(sentences) ==> sentences.deep_view() == document_sentences(bytes@),
            !archive::zip_wf(bytes@) ==> (r matches Err(e) && e is BadArchive),
            archive::zip_wf(bytes@) && !archive::zip_member_names(bytes@).contains(
                "content.xml"@,
            ) ==> r == Err::<Vec<String>, OdtError>(OdtError::MemberNotFound),
            archive::zip_wf(bytes@) && archive::zip_member_names(bytes@).contains("content.xml"@)
                && !archive::zip_member_readable(bytes@, "content.xml"@) ==> (
            r matches Err(e) && e is CorruptData),
            has_readable_content(bytes@) && !vstd::utf8::valid_utf8(content_bytes(bytes@)) ==> (
            r matches Err(e) && e is MarkupError),
            has_readable_content(bytes@) && vstd::utf8::valid_utf8(content_bytes(bytes@))
                && !extract::markup_wf(vstd::utf8::decode_utf8(content_bytes(bytes@))) ==> (
            r matches Err(e) && e is MarkupError),
            r matches Err(e) ==> !(e is Io) && !(e is NotFound),
    {
        let mut archive = match DocumentArchive::open(bytes) {
            Ok(a) => a,
            Err(e) => {
                return Err(e);
            },
        };
        let member = match archive.read_member("content.xml") {
            Ok(d) => d,
            Err(e) => {
                return Err(e);
            },
        };
        let content = match bytes_to_text(member) {
            Ok(s) => s,
            Err(m) => {
                return Err(OdtError::MarkupError(m));
            },
        };
        let text = match extract::extract_text(content.as_str()) {
            Ok(t) => t,
            Err(e) => {
                return Err(e);
            },
        };
        let sentences = segment::split_sentences(text.as_str());
        Ok(sentences)
    }
}

/// The container bytes hold a `content.xml` member that can be read
/// back whole.
pub open spec fn has_readable_content(bytes: Seq<u8>) -> bool {
    &&& archive::zip_wf(bytes)
    &&& archive::zip_member_names(bytes).contains("content.xml"@)
    &&& archive::zip_member_readable(bytes, "content.xml"@)
}

/// The decompressed markup member of the container bytes.
pub open spec fn content_bytes(bytes: Seq<u8>) -> Seq<u8> {
    archive::zip_member_data(bytes, "content.xml"@)
}

/// The container bytes hold a parseable document: a valid container
/// whose readable `content.xml` member decodes as UTF-8 into
/// well-formed markup.
pub open spec fn document_wf(bytes: Seq<u8>) -> bool {
    &&& has_readable_content(bytes)
    &&& vstd::utf8::valid_utf8(content_bytes(bytes))
    &&& extract::markup_wf(vstd::utf8::decode_utf8(content_bytes(bytes)))
}

/// The sentence list of a parseable document: the segmentation of the
/// text that the extraction policy draws from the member's markup
/// events.
pub open spec fn document_sentences(bytes: Seq<u8>) -> Seq<Seq<char>> {
    segment::sentences_spec(
        extract::extracted_text(
            extract::markup_events_of(vstd::utf8::decode_utf8(content_bytes(bytes))),
        ),
    )
}

} // verus!
