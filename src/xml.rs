//! The events of an XML document, read with quick_xml.
use vstd::prelude::*;
use quick_xml::events::attributes::Attributes;
use quick_xml::events::Event;
use quick_xml::reader::Reader;
use crate::tree::{attrs_view, tokens_view, Attr, AttrV, Token, TokenV};

verus! {

#[verifier::external_type_specification]
#[verifier::external_body]
pub struct ExXmlError(quick_xml::Error);

/// The events of a document as quick_xml reads them, up to its end; `None`
/// when the reader stops on an error.
pub uninterp spec fn xml_tokens(doc: Seq<char>) -> Option<Seq<TokenV>>;

/// The attributes that quick_xml reads from the attribute text of an opening
/// tag (all of the tag after its name); `None` when the reader stops on an
/// error.
pub uninterp spec fn xml_attributes(text: Seq<char>) -> Option<Seq<AttrV>>;

/// Relies on quick_xml's `Reader::from_str` and `Reader::read_event` (closing
/// tags checked against opening ones), with `BytesText::unescape`: every event
/// of `doc` in order, with names and text unescaped, an opening tag with its
/// attribute text (`BytesStart::attributes_raw`), or the first error. The events depend on the text of `doc`
/// alone.
#[verifier::external_body]
pub(crate) fn read_tokens(doc: &str) -> (r: Result<Vec<Token>, quick_xml::Error>)
    ensures
        match r {
            Ok(ts) => xml_tokens(doc@) == Some(tokens_view(ts@)),
            Err(_) => xml_tokens(doc@) is None,
        },
{
    let mut reader = Reader::from_str(doc);
    let mut out = Vec::new();
    let s = |b: &[u8]| String::from_utf8_lossy(b).into_owned();
    loop {
        let ev = reader.read_event()?;
        out.push(match &ev {
            Event::Start(e) | Event::Empty(e) => Token::Start(s(e.name().0), s(e.attributes_raw()), matches!(ev, Event::Empty(_))),
            Event::End(e) => Token::End(s(e.name().0)),
            Event::Text(t) => Token::Text(t.unescape()?.into_owned()),
            Event::CData(t) => Token::Text(s(t)),
            Event::Eof => return Ok(out),
            _ => Token::Other,
        });
    }
}

/// Relies on quick_xml's `Attributes::new`, from the start of the attribute
/// text (as `BytesStart::attributes` reads past the tag name), and
/// `Attribute::unescape_value`: the attributes in order, values unescaped, or
/// the first error.
#[verifier::external_body]
pub(crate) fn read_attributes(text: &str) -> (r: Result<Vec<Attr>, quick_xml::Error>)
    ensures
        match r {
            Ok(a) => xml_attributes(text@) == Some(attrs_view(a@)),
            Err(_) => xml_attributes(text@) is None,
        },
{
    let s = |b: &[u8]| String::from_utf8_lossy(b).into_owned();
    Attributes::new(text, 0)
        .map(|a| {
            let a = a?;
            Ok(Attr { key: s(a.key.as_ref()), value: a.unescape_value()?.into_owned() })
        })
        .collect()
}

/// Relies on quick_xml's `Display` for its `Error`: the reader's message.
#[verifier::external_body]
pub(crate) fn xml_error_text(e: &quick_xml::Error) -> String {
    e.to_string()
}

} // verus!
