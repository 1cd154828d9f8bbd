//! Plain-text extraction from XHTML chapter markup.
//!
//! The pull parser of the `quick_xml` crate turns the markup into a stream of
//! events behind one trusted wrapper; everything the extractor decides —
//! which tags produce paragraph breaks, which subtrees (styles, scripts) are
//! skipped, how text is accumulated — is verified against the event-stream
//! model `extract_of`.

use quick_xml::events::Event;
use vstd::prelude::*;
use vstd::string::StringExecFns;

verus! {

/// One parse event of an XHTML document, with tag names and text decoded.
pub enum XmlEvent {
    /// Start tag.
    Open(String),
    /// End tag.
    Close(String),
    /// Self-closing tag.
    SelfClose(String),
    /// Character data between tags.
    Text(String),
    /// Anything else (comments, processing instructions, declarations);
    /// carried through so the stream stays faithful, ignored by extraction.
    Other,
}

/// Ghost image of an `XmlEvent`.
pub ghost enum XmlEventView {
    Open(Seq<char>),
    Close(Seq<char>),
    SelfClose(Seq<char>),
    Text(Seq<char>),
    Other,
}

impl View for XmlEvent {
    type V = XmlEventView;

    open spec fn view(&self) -> XmlEventView {
        match self {
            XmlEvent::Open(n) => XmlEventView::Open(n@),
            XmlEvent::Close(n) => XmlEventView::Close(n@),
            XmlEvent::SelfClose(n) => XmlEventView::SelfClose(n@),
            XmlEvent::Text(t) => XmlEventView::Text(t@),
            XmlEvent::Other => XmlEventView::Other,
        }
    }
}

impl DeepView for XmlEvent {
    type V = XmlEventView;

    open spec fn deep_view(&self) -> XmlEventView {
        self@
    }
}

/// The event stream that parsing a document yields; a function of the text
/// alone.
pub uninterp spec fn xml_events_of(s: Seq<char>) -> Seq<XmlEventView>;

/// Relies on quick_xml's pull parser (`Reader::read_event`): the event
/// stream of a document held in memory is a function of its text alone.
/// Reading stops at end of input or at the first malformed construct.
#[verifier::external_body]
fn parse_xml_events(xhtml: &str) -> (events: Vec<XmlEvent>)
    ensures
        events.deep_view() == xml_events_of(xhtml@),
{
    let mut reader = quick_xml::Reader::from_str(xhtml);
    let mut events = Vec::new();
    loop {
        match reader.read_event() {
            Ok(Event::Start(e)) => events.push(XmlEvent::Open(e.name().as_ref().to_owned())),
            Ok(Event::End(e)) => events.push(XmlEvent::Close(e.name().as_ref().to_owned())),
            Ok(Event::Empty(e)) => events.push(XmlEvent::SelfClose(e.name().as_ref().to_owned())),
            Ok(Event::Text(e)) => events.push(XmlEvent::Text(e.xml10_content().into_owned())),
            Ok(Event::Eof) | Err(_) => return events,
            Ok(_) => events.push(XmlEvent::Other),
        }
    }
}

/// Block elements whose start tag produces a paragraph break.
pub open spec fn block_open_tag(n: Seq<char>) -> bool {
    ||| n == "p"@
    ||| n == "div"@
    ||| n == "br"@
    ||| n == "h1"@
    ||| n == "h2"@
    ||| n == "h3"@
    ||| n == "h4"@
    ||| n == "h5"@
    ||| n == "h6"@
    ||| n == "li"@
    ||| n == "blockquote"@
    ||| n == "tr"@
}

/// Block elements whose end tag produces a paragraph break (`br` has none).
pub open spec fn block_close_tag(n: Seq<char>) -> bool {
    ||| n == "p"@
    ||| n == "div"@
    ||| n == "h1"@
    ||| n == "h2"@
    ||| n == "h3"@
    ||| n == "h4"@
    ||| n == "h5"@
    ||| n == "h6"@
    ||| n == "li"@
    ||| n == "blockquote"@
    ||| n == "tr"@
}

/// Elements whose whole subtree is dropped.
pub open spec fn skip_tag(n: Seq<char>) -> bool {
    n == "style"@ || n == "script"@
}

/// State of the extraction pass: the text gathered so far and the depth of
/// the skipped subtree currently open (zero when not inside one).
pub ghost struct ExtractState {
    pub text: Seq<char>,
    pub skip_depth: nat,
}

/// One event of the extraction pass. Inside a skipped subtree only the depth
/// is tracked; otherwise block tags append a blank-line break and character
/// data is appended as is.
pub open spec fn extract_step(st: ExtractState, ev: XmlEventView) -> ExtractState {
    match ev {
        XmlEventView::Open(n) => {
            if st.skip_depth > 0 {
                ExtractState { text: st.text, skip_depth: st.skip_depth + 1 }
            } else if skip_tag(n) {
                ExtractState { text: st.text, skip_depth: 1 }
            } else if block_open_tag(n) {
                ExtractState { text: st.text + "\n\n"@, skip_depth: 0 }
            } else {
                st
            }
        },
        XmlEventView::Close(n) => {
            if st.skip_depth > 0 {
                ExtractState { text: st.text, skip_depth: (st.skip_depth - 1) as nat }
            } else if block_close_tag(n) {
                ExtractState { text: st.text + "\n\n"@, skip_depth: 0 }
            } else {
                st
            }
        },
        XmlEventView::SelfClose(n) => {
            if st.skip_depth > 0 {
                st
            } else if n == "br"@ {
                ExtractState { text: st.text + "\n\n"@, skip_depth: 0 }
            } else {
                st
            }
        },
        XmlEventView::Text(t) => {
            if st.skip_depth > 0 {
                st
            } else {
                ExtractState { text: st.text + t, skip_depth: 0 }
            }
        },
        XmlEventView::Other => st,
    }
}

pub open spec fn extract_fold(events: Seq<XmlEventView>) -> ExtractState
    decreases events.len(),
{
    if events.len() == 0 {
        ExtractState { text: Seq::empty(), skip_depth: 0 }
    } else {
        extract_step(extract_fold(events.drop_last()), events.last())
    }
}

/// The plain text that extraction yields from an event stream.
pub open spec fn extract_of(events: Seq<XmlEventView>) -> Seq<char> {
    extract_fold(events).text
}

/// True when `a` reads exactly the literal `b`.
fn string_eq_lit(a: &String, b: &str) -> (r: bool)
    ensures
        r == (a@ == b@),
{
    let bs = String::from_str(b);
    *a == bs
}

fn is_block_open(n: &String) -> (r: bool)
    ensures
        r == block_open_tag(n@),
{
    string_eq_lit(n, "p") || string_eq_lit(n, "div") || string_eq_lit(n, "br") || string_eq_lit(
        n,
        "h1",
    ) || string_eq_lit(n, "h2") || string_eq_lit(n, "h3") || string_eq_lit(n, "h4")
        || string_eq_lit(n, "h5") || string_eq_lit(n, "h6") || string_eq_lit(n, "li")
        || string_eq_lit(n, "blockquote") || string_eq_lit(n, "tr")
}

fn is_block_close(n: &String) -> (r: bool)
    ensures
        r == block_close_tag(n@),
{
    string_eq_lit(n, "p") || string_eq_lit(n, "div") || string_eq_lit(n, "h1") || string_eq_lit(
        n,
        "h2",
    ) || string_eq_lit(n, "h3") || string_eq_lit(n, "h4") || string_eq_lit(n, "h5")
        || string_eq_lit(n, "h6") || string_eq_lit(n, "li") || string_eq_lit(n, "blockquote")
        || string_eq_lit(n, "tr")
}

fn is_skip(n: &String) -> (r: bool)
    ensures
        r == skip_tag(n@),
{
    string_eq_lit(n, "style") || string_eq_lit(n, "script")
}

/// Runs the extraction pass over a decoded event stream.
pub fn extract_text_from_events(events: &Vec<XmlEvent>) -> (text: String)
    ensures
        text@ == extract_of(events.deep_view()),
{
    let n = events.len();
    let mut text = String::new();
    let mut skip_depth: usize = 0;
    let mut i: usize = 0;
    proof {
        assert(events.deep_view().subrange(0, 0) =~= Seq::<XmlEventView>::empty());
    }
    while i < n
        invariant
            i <= n,
            n == events@.len(),
            events.deep_view().len() == n,
            skip_depth <= i,
            extract_fold(events.deep_view().subrange(0, i as int)) == (ExtractState {
                text: text@,
                skip_depth: skip_depth as nat,
            }),
        decreases n - i,
    {
        let ghost evs = events.deep_view();
        let ghost st = extract_fold(evs.subrange(0, i as int));
        proof {
            assert(evs.subrange(0, i + 1).drop_last() =~= evs.subrange(0, i as int));
            assert(evs.subrange(0, i + 1).last() == evs[i as int]);
            assert(evs[i as int] == events@[i as int]@);
        }
        match &events[i] {
            XmlEvent::Open(tag) => {
                if skip_depth > 0 {
                    skip_depth = skip_depth + 1;
                } else if is_skip(tag) {
                    skip_depth = 1;
                } else if is_block_open(tag) {
                    text.append("\n\n");
                }
            },
            XmlEvent::Close(tag) => {
                if skip_depth > 0 {
                    skip_depth = skip_depth - 1;
                } else if is_block_close(tag) {
                    text.append("\n\n");
                }
            },
            XmlEvent::SelfClose(tag) => {
                if skip_depth == 0 && string_eq_lit(tag, "br") {
                    text.append("\n\n");
                }
            },
            XmlEvent::Text(t) => {
                if skip_depth == 0 {
                    text.append(t.as_str());
                }
            },
            XmlEvent::Other => {},
        }
        i = i + 1;
    }
    proof {
        assert(events.deep_view().subrange(0, n as int) =~= events.deep_view());
    }
    text
}

/// Extracts the readable text of an XHTML document: the character data
/// outside style and script subtrees, with paragraph breaks at block
/// elements.
pub fn extract_text_from_xhtml(xhtml: &str) -> (text: String)
    ensures
        text@ == extract_of(xml_events_of(xhtml@)),
{
    let events = parse_xml_events(xhtml);
    extract_text_from_events(&events)
}

} // verus!
