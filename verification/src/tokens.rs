//! The structured-markup event stream a document text yields.
//!
//! The market document is XML; tokenizing it is the `xml` crate's work.  The
//! price parser only ever reads four shapes of event — a start tag's local
//! name, text content, an end tag's local name, anything else — so the
//! trusted boundary is one call that turns the whole text into a list of
//! such tokens, named below by [`xml_tokens`].

use vstd::prelude::*;

verus! {

/// One markup event, reduced to what the price parser reads.
#[derive(Debug)]
pub enum XmlTok {
    /// A start tag, by its local name.
    Start(String),
    /// Character data.
    Text(String),
    /// An end tag, by its local name.
    End(String),
    /// Any other event: document bounds, whitespace, comments, processing
    /// instructions, CDATA, doctypes.
    Other,
}

/// The shape of a token over character sequences.
pub enum Tok {
    Start(Seq<char>),
    Text(Seq<char>),
    End(Seq<char>),
    Other,
}

impl View for XmlTok {
    type V = Tok;

    open spec fn view(&self) -> Tok {
        match self {
            XmlTok::Start(s) => Tok::Start(s@),
            XmlTok::Text(s) => Tok::Text(s@),
            XmlTok::End(s) => Tok::End(s@),
            XmlTok::Other => Tok::Other,
        }
    }
}

/// The text of a token list.
pub open spec fn toks_view(v: Seq<XmlTok>) -> Seq<Tok> {
    v.map_values(|t: XmlTok| t@)
}

/// The event stream of a document text: what `xml::reader::EventReader`
/// yields for it, in order, or `None` when the reader rejects the text as
/// malformed markup.
pub uninterp spec fn xml_tokens(s: Seq<char>) -> Option<Seq<Tok>>;

/// Relies on `xml::reader::EventReader`: pulls every event of the document in
/// order, a function of the input text alone.  Start and end tags keep their
/// local name and character data its text; every other event kind carries
/// nothing the price parser reads.  The reader's iterator ends after the
/// end-of-document event or a first error.
#[verifier::external_body]
pub(crate) fn tokenize(s: &str) -> (r: Option<Vec<XmlTok>>)
    ensures
        match r {
            Some(v) => xml_tokens(s@) == Some(toks_view(v@)),
            None => xml_tokens(s@) is None,
        },
{
    let mut out: Vec<XmlTok> = Vec::new();
    for ev in xml::reader::EventReader::from_str(s) {
        out.push(match ev {
            Ok(xml::reader::XmlEvent::StartElement { name, .. }) => XmlTok::Start(name.local_name),
            Ok(xml::reader::XmlEvent::Characters(t)) => XmlTok::Text(t),
            Ok(xml::reader::XmlEvent::EndElement { name }) => XmlTok::End(name.local_name),
            Ok(_) => XmlTok::Other,
            Err(_) => return None,
        });
    }
    Some(out)
}

} // verus!
