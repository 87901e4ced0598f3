//! Markup text extraction.
//!
//! The decompressed member is streamed as a sequence of structural
//! events.  A single boolean flag — "inside a text-bearing element" —
//! decides whether character data is kept.  Paragraph and heading ends
//! append one separator space; inline-run ends append nothing.  The
//! recognized element names form a fixed, closed lookup table taken over
//! literally from the producer, mixed separators included.

use quick_xml::events::Event;
use vstd::prelude::*;

use crate::errors::OdtError;

verus! {

/// One structural event of the markup stream, reduced to plain values:
/// element names as text, character data already decoded.
pub enum MarkupEvent {
    /// A start tag, with its element name.
    ElemStart(String),
    /// An end tag, with its element name.
    ElemEnd(String),
    /// Decoded character data.
    Chars(String),
    /// An event with no bearing on extraction (comment, declaration,
    /// empty element, processing instruction, CDATA, doctype).
    Skip,
    /// The end of the stream.
    StreamEnd,
}

/// The mathematical shape of a markup event.
pub enum MarkupEventView {
    ElemStart(Seq<char>),
    ElemEnd(Seq<char>),
    Chars(Seq<char>),
    Skip,
    StreamEnd,
}

impl View for MarkupEvent {
    type V = MarkupEventView;

    open spec fn view(&self) -> MarkupEventView {
        match self {
            MarkupEvent::ElemStart(n) => MarkupEventView::ElemStart(n@),
            MarkupEvent::ElemEnd(n) => MarkupEventView::ElemEnd(n@),
            MarkupEvent::Chars(t) => MarkupEventView::Chars(t@),
            MarkupEvent::Skip => MarkupEventView::Skip,
            MarkupEvent::StreamEnd => MarkupEventView::StreamEnd,
        }
    }
}

/// The start-tag names that open a text-bearing element.  The set is
/// fixed and closed; the mixed separator conventions are inherited from
/// the producer and kept literally.
pub open spec fn starts_text_element(name: Seq<char>) -> bool {
    name == "text:p"@ || name == "text.span"@ || name == "text.h"@
}

/// The end-tag names that close a paragraph or heading and so introduce
/// one separator space.
pub open spec fn ends_with_separator(name: Seq<char>) -> bool {
    name == "text:p"@ || name == "text.h"@
}

/// The end-tag name that closes an inline run: the flag clears, but no
/// separator is appended.
pub open spec fn ends_inline_run(name: Seq<char>) -> bool {
    name == "text:span"@
}

/// Whether an event is a recognized text-bearing start tag.
pub open spec fn is_recognized_start(ev: MarkupEventView) -> bool {
    match ev {
        MarkupEventView::ElemStart(n) => starts_text_element(n),
        _ => false,
    }
}

/// The flag after one event.
pub open spec fn flag_after(flag: bool, ev: MarkupEventView) -> bool {
    match ev {
        MarkupEventView::ElemStart(n) => if starts_text_element(n) {
            true
        } else {
            flag
        },
        MarkupEventView::ElemEnd(n) => if ends_with_separator(n) || ends_inline_run(n) {
            false
        } else {
            flag
        },
        _ => flag,
    }
}

/// What one event appends to the accumulator, given the flag.
pub open spec fn emitted(flag: bool, ev: MarkupEventView) -> Seq<char> {
    match ev {
        MarkupEventView::Chars(t) => if flag {
            t
        } else {
            Seq::empty()
        },
        MarkupEventView::ElemEnd(n) => if ends_with_separator(n) {
            seq![' ']
        } else {
            Seq::empty()
        },
        _ => Seq::empty(),
    }
}

/// The flag after a whole event sequence; it starts out cleared.
pub open spec fn flag_after_all(evs: Seq<MarkupEventView>) -> bool
    decreases evs.len(),
{
    if evs.len() == 0 {
        false
    } else {
        flag_after(flag_after_all(evs.drop_last()), evs.last())
    }
}

/// The text extracted from a whole event sequence.
pub open spec fn extracted_text(evs: Seq<MarkupEventView>) -> Seq<char>
    decreases evs.len(),
{
    if evs.len() == 0 {
        Seq::empty()
    } else {
        extracted_text(evs.drop_last()) + emitted(flag_after_all(evs.drop_last()), evs.last())
    }
}

/// Paragraph and heading boundaries introduce exactly one separator
/// space; any other end tag, the inline run included, introduces none.
pub proof fn lemma_boundary_spacing(evs: Seq<MarkupEventView>, name: Seq<char>)
    ensures
        ends_with_separator(name) ==> extracted_text(
            evs.push(MarkupEventView::ElemEnd(name)),
        ) == extracted_text(evs) + seq![' '],
        !ends_with_separator(name) ==> extracted_text(
            evs.push(MarkupEventView::ElemEnd(name)),
        ) == extracted_text(evs),
{
    let evs2 = evs.push(MarkupEventView::ElemEnd(name));
    assert(evs2.drop_last() =~= evs);
    assert(evs2.last() == MarkupEventView::ElemEnd(name));
    if !ends_with_separator(name) {
        assert(extracted_text(evs) + Seq::<char>::empty() =~= extracted_text(evs));
    }
}

/// The inline-run end tag is not a separator boundary.
pub proof fn lemma_inline_run_adds_no_separator()
    ensures
        ends_inline_run("text:span"@),
        !ends_with_separator("text:span"@),
{
    reveal_strlit("text:span");
    reveal_strlit("text:p");
    reveal_strlit("text.h");
    assert("text:span"@.len() == 9);
    assert("text:p"@.len() == 6);
    assert("text.h"@.len() == 6);
}

/// Text that stands only inside unrecognized elements is discarded: when
/// no event of the stream is a recognized text-bearing start tag, nothing
/// of any character data reaches the output — every character of the
/// output is a separator space.
pub proof fn lemma_unrecognized_content_discarded(evs: Seq<MarkupEventView>)
    requires
        forall|j: int| 0 <= j < evs.len() ==> !is_recognized_start(#[trigger] evs[j]),
    ensures
        !flag_after_all(evs),
        forall|p: int|
            0 <= p < extracted_text(evs).len() ==> #[trigger] extracted_text(evs)[p] == ' ',
    decreases evs.len(),
{
    if evs.len() > 0 {
        let prefix = evs.drop_last();
        assert(forall|j: int| 0 <= j < prefix.len() ==> prefix[j] == evs[j]);
        lemma_unrecognized_content_discarded(prefix);
        assert(!is_recognized_start(evs.last()));
        let add = emitted(flag_after_all(prefix), evs.last());
        assert(forall|p: int| 0 <= p < add.len() ==> add[p] == ' ');
        assert forall|p: int| 0 <= p < extracted_text(evs).len() implies #[trigger] extracted_text(
            evs,
        )[p] == ' ' by {
            if p < extracted_text(prefix).len() {
                assert(extracted_text(evs)[p] == extracted_text(prefix)[p]);
            } else {
                assert(extracted_text(evs)[p] == add[p - extracted_text(prefix).len()]);
            }
        }
    }
}

/// Character-by-character string equality, carrying the fact into specs.
pub fn str_eq(a: &str, b: &str) -> (r: bool)
    ensures
        r == (a@ == b@),
{
    let na = a.unicode_len();
    let nb = b.unicode_len();
    if na != nb {
        return false;
    }
    let mut i: usize = 0;
    while i < na
        invariant
            i <= na,
            na == a@.len(),
            na == b@.len(),
            forall|j: int| 0 <= j < i ==> a@[j] == b@[j],
        decreases na - i,
    {
        if a.get_char(i) != b.get_char(i) {
            return false;
        }
        i = i + 1;
    }
    proof {
        assert(a@ =~= b@);
    }
    true
}

/// The extraction state of one pass: the flag and the accumulator.  Fresh
/// state is constructed for every extraction call; nothing is kept
/// between calls.
pub struct Extractor {
    /// Whether the pass stands inside a text-bearing element.
    pub inside_text_element: bool,
    /// The text accumulated so far.
    pub text: String,
}

impl Extractor {
    /// Fresh extraction state: flag cleared, accumulator empty.
    pub fn new() -> (r: Extractor)
        ensures
            !r.inside_text_element,
            r.text@ == Seq::<char>::empty(),
    {
        Extractor { inside_text_element: false, text: String::new() }
    }

    /// Applies one structural event to the state, exactly as the policy
    /// table prescribes.
    pub fn apply(&mut self, ev: &MarkupEvent)
        ensures
            final(self).inside_text_element == flag_after(old(self).inside_text_element, ev@),
            final(self).text@ == old(self).text@ + emitted(old(self).inside_text_element, ev@),
    {
        proof {
            assert(old(self).text@ + Seq::<char>::empty() =~= old(self).text@);
        }
        match ev {
            MarkupEvent::ElemStart(name) => {
                if str_eq(name.as_str(), "text:p") || str_eq(name.as_str(), "text.span") || str_eq(
                    name.as_str(),
                    "text.h",
                ) {
                    self.inside_text_element = true;
                }
            },
            MarkupEvent::ElemEnd(name) => {
                if str_eq(name.as_str(), "text:p") || str_eq(name.as_str(), "text.h") {
                    self.text.append(" ");
                    proof {
                        reveal_strlit(" ");
                        assert(" "@ =~= seq![' ']);
                    }
                    self.inside_text_element = false;
                } else if str_eq(name.as_str(), "text:span") {
                    self.inside_text_element = false;
                }
            },
            MarkupEvent::Chars(t) => {
                if self.inside_text_element {
                    self.text.append(t.as_str());
                }
            },
            MarkupEvent::Skip => {},
            MarkupEvent::StreamEnd => {},
        }
    }
}

/// The streaming markup reader of the outside crate, opaque to
/// verification; the library only pulls events out of it.
#[verifier::external_type_specification]
#[verifier::external_body]
#[verifier::reject_recursive_types(R)]
pub struct ExXmlReader<R>(quick_xml::Reader<R>);

/// The structural events that reading the markup text yields, in
/// document order and without the final end-of-stream: element names
/// decoded from their raw bytes, character data unescaped.  The reader
/// works on the text alone, so the sequence is a function of the text.
pub uninterp spec fn markup_events_of(s: Seq<char>) -> Seq<MarkupEventView>;

/// Whether the markup text is well-formed to the reader: streaming it
/// yields its events and then a clean end-of-stream rather than an
/// error.
pub uninterp spec fn markup_wf(s: Seq<char>) -> bool;

/// The markup text that the reader walks.
pub uninterp spec fn reader_input(r: quick_xml::Reader<&[u8]>) -> Seq<char>;

/// How many structural events have been pulled from the reader.
pub uninterp spec fn reader_events_read(r: quick_xml::Reader<&[u8]>) -> nat;

/// Whether the reader has yielded no error so far; after an error its
/// further behaviour is not relied on.
pub uninterp spec fn reader_ok(r: quick_xml::Reader<&[u8]>) -> bool;

/// Relies on quick_xml::Reader::from_str: builds a streaming reader that
/// walks the markup text in document order, starting before the first
/// event.
#[verifier::external_body]
fn xml_reader_from_str<'a>(s: &'a str) -> (r: quick_xml::Reader<&'a [u8]>)
    ensures
        reader_input(r) == s@,
        reader_events_read(r) == 0,
        reader_ok(r),
{
    quick_xml::Reader::from_str(s)
}

/// Relies on quick_xml::Reader::read_event for the next structural event
/// in document order, on QName for the raw element name, and on
/// BytesText::unescape to decode entity and character references.  The
/// walk is deterministic in the text: while events are left, each call
/// yields the next one; at the end, a well-formed text yields its
/// end-of-stream and a malformed one an error, as text carrying the byte
/// offset from Reader::buffer_position.
#[verifier::external_body]
fn next_markup_event(r: &mut quick_xml::Reader<&[u8]>) -> (ev: Result<MarkupEvent, String>)
    ensures
        reader_input(*final(r)) == reader_input(*old(r)),
        reader_ok(*old(r)) && reader_events_read(*old(r)) < markup_events_of(
            reader_input(*old(r)),
        ).len() ==> (ev matches Ok(e) && e@ == markup_events_of(reader_input(*old(r)))[reader_events_read(*old(r)) as int]
            && !(e@ is StreamEnd) && reader_events_read(*final(r)) == reader_events_read(*old(r))
            + 1 && reader_ok(*final(r))),
        reader_ok(*old(r)) && reader_events_read(*old(r)) >= markup_events_of(
            reader_input(*old(r)),
        ).len() && markup_wf(reader_input(*old(r))) ==> (ev matches Ok(e) && e@ is StreamEnd),
        reader_ok(*old(r)) && reader_events_read(*old(r)) >= markup_events_of(
            reader_input(*old(r)),
        ).len() && !markup_wf(reader_input(*old(r))) ==> ev is Err,
{
    let got = match r.read_event() {
        Ok(Event::Start(e)) => Ok(
            MarkupEvent::ElemStart(String::from_utf8_lossy(e.name().0).into_owned()),
        ),
        Ok(Event::End(e)) => Ok(
            MarkupEvent::ElemEnd(String::from_utf8_lossy(e.name().0).into_owned()),
        ),
        Ok(Event::Text(e)) => e.unescape().map(|t| MarkupEvent::Chars(t.into_owned())),
        Ok(Event::Eof) => Ok(MarkupEvent::StreamEnd),
        Ok(_) => Ok(MarkupEvent::Skip),
        Err(er) => Err(er),
    };
    got.map_err(|er| format!("markup error at byte {}: {}", r.buffer_position(), er))
}

/// One forward pass over the markup: stream the structural events and
/// fold each into the extraction state.  It succeeds exactly on
/// well-formed markup and then returns the text that the policy table
/// extracts from the markup's events; malformed markup surfaces as
/// `MarkupError`, and no partial text leaves the pass.
pub fn extract_text(xml: &str) -> (r: Result<String, OdtError>)
    ensures
        r matches Ok(t) ==> t@ == extracted_text(markup_events_of(xml@)),
        r is Ok <==> markup_wf(xml@),
        r matches Err(e) ==> e is MarkupError,
{
    let mut reader = xml_reader_from_str(xml);
    let mut state = Extractor::new();
    let ghost mut evs: Seq<MarkupEventView> = Seq::empty();
    proof {
        assert(evs =~= markup_events_of(xml@).take(0));
    }
    loop
        invariant
            reader_input(reader) == xml@,
            reader_ok(reader),
            reader_events_read(reader) == evs.len(),
            evs.len() <= markup_events_of(xml@).len(),
            evs == markup_events_of(xml@).take(evs.len() as int),
            state.inside_text_element == flag_after_all(evs),
            state.text@ == extracted_text(evs),
        decreases markup_events_of(xml@).len() - evs.len(),
    {
        let ghost seen = evs.len() as int;
        let ghost all = markup_events_of(xml@);
        match next_markup_event(&mut reader) {
            Err(msg) => {
                proof {
                    assert(seen >= all.len());
                    assert(!markup_wf(xml@));
                }
                return Err(OdtError::MarkupError(msg));
            },
            Ok(ev) => {
                match ev {
                    MarkupEvent::StreamEnd => {
                        proof {
                            assert(seen >= all.len());
                            assert(markup_wf(xml@));
                            assert(evs =~= all);
                        }
                        return Ok(state.text);
                    },
                    other => {
                        proof {
                            assert(!(other@ is StreamEnd));
                            assert(seen < all.len());
                            assert(other@ == all[seen]);
                        }
                        state.apply(&other);
                        proof {
                            let prev = evs;
                            evs = evs.push(other@);
                            assert(evs.drop_last() =~= prev);
                            assert(evs.last() == other@);
                            assert(evs =~= all.take(seen + 1));
                        }
                    },
                }
            },
        }
    }
}

} // verus!
