//! Container formats read through outside crates: ZIP archives (`zip`),
//! OLE compound files (`cfb`) and the XML of Word documents (`quick-xml`).

use std::io::Read;

use quick_xml::events::Event;

use vstd::prelude::*;

verus! {

/// What `zip::ZipArchive::new` over `bytes` followed by `file_names` yields:
/// `None` when the bytes are not a readable archive, else the entry names
/// in the order of the central directory.
pub uninterp spec fn zip_names(bytes: Seq<u8>) -> Option<Seq<Seq<char>>>;

/// The entry names of the ZIP archive `bytes`.
#[verifier::external_body]
pub(crate) fn zip_entry_names(bytes: &[u8]) -> (r: Option<Vec<String>>)
    ensures
        r.deep_view() == zip_names(bytes@),
{
    let z = zip::ZipArchive::new(std::io::Cursor::new(bytes)).ok()?;
    Some(z.file_names().map(|n| n.to_owned()).collect())
}

/// What opening the ZIP archive `bytes`, finding entry `name` with
/// `by_name` and reading it with `read_to_string` yields: the entry's text,
/// or the message of the first error.
pub uninterp spec fn zip_text(bytes: Seq<u8>, name: Seq<char>) -> Result<Seq<char>, Seq<char>>;

/// The text of entry `name` of the ZIP archive `bytes`.
#[verifier::external_body]
pub(crate) fn zip_entry_text(bytes: &[u8], name: &str) -> (r: Result<String, String>)
    ensures
        zip_text(bytes@, name@) == match r {
            Ok(t) => Ok(t@),
            Err(e) => Err(e@),
        },
{
    let mut z = zip::ZipArchive::new(std::io::Cursor::new(bytes)).map_err(|e| e.to_string())?;
    let mut entry = z.by_name(name).map_err(|e| e.to_string())?;
    let mut text = String::new();
    entry.read_to_string(&mut text).map_err(|e| e.to_string())?;
    Ok(text)
}

/// What `cfb::CompoundFile::open` over `data` followed by `is_stream(name)`
/// yields: `None` when `data` is not a compound file, else whether a stream
/// (not a storage) is stored under `name`.
pub uninterp spec fn ole_has_stream(data: Seq<u8>, name: Seq<char>) -> Option<bool>;

/// Whether the compound file `data` holds a stream `name`.
#[verifier::external_body]
pub(crate) fn ole_is_stream(data: &[u8], name: &str) -> (r: Option<bool>)
    ensures
        r == ole_has_stream(data@, name@),
{
    let cf = cfb::CompoundFile::open(std::io::Cursor::new(data)).ok()?;
    Some(cf.is_stream(name))
}

/// What `cfb::CompoundFile::open` over `data`, `open_stream(name)` and
/// `read_to_end` yield: the stream's bytes, or `None` on any error.
pub uninterp spec fn ole_stream(data: Seq<u8>, name: Seq<char>) -> Option<Seq<u8>>;

/// The bytes of stream `name` of the compound file `data`.
#[verifier::external_body]
pub(crate) fn ole_read_stream(data: &[u8], name: &str) -> (r: Option<Vec<u8>>)
    ensures
        r.deep_view() == ole_stream(data@, name@),
{
    let mut cf = cfb::CompoundFile::open(std::io::Cursor::new(data)).ok()?;
    let mut stream = cf.open_stream(name).ok()?;
    let mut buf = Vec::new();
    stream.read_to_end(&mut buf).ok()?;
    Some(buf)
}


/// An XML event, as the paragraph reader needs it.
pub enum XmlEvent {
    /// An opening tag, by local name.
    Start(Vec<u8>),
    /// A closing tag, by local name.
    End(Vec<u8>),
    /// Character data, unescaped (or the unescaping error).
    Text(Result<String, String>),
    /// The raw bytes of a CDATA section.
    CData(Vec<u8>),
    /// The end of the document.
    Eof,
    /// A syntax error.
    Error(String),
    /// Anything else (empty tags, comments, declarations, ...).
    Other,
}

/// Whether an event ends the reading: the end of the document or an error.
pub open spec fn is_end(e: XmlEvent) -> bool {
    e is Eof || e is Error
}

#[verifier::external_type_specification]
#[verifier::external_body]
#[verifier::reject_recursive_types(R)]
pub struct ExXmlReader<R>(quick_xml::Reader<R>);

/// The events that `quick_xml` yields for the XML text `xml`, read with
/// text trimming on, up to the end of the document or the first error,
/// that last event included; each converted to an `XmlEvent` (tags by
/// local name, text unescaped).
pub uninterp spec fn xml_events(xml: Seq<char>) -> Seq<XmlEvent>;

/// The events that `reader` has still to yield from `read_event`, up to
/// the end of the document or the first error, that last event included.
pub uninterp spec fn xml_pending(reader: quick_xml::Reader<&[u8]>) -> Seq<XmlEvent>;

/// A `quick_xml` reader over `xml` that trims whitespace around text
/// (`Reader::from_str`, then `trim_text(true)`). The events it has to
/// yield are those of `xml`: they end with the end of the document or an
/// error, and only there.
#[verifier::external_body]
pub(crate) fn xml_reader<'a>(xml: &'a str) -> (r: quick_xml::Reader<&'a [u8]>)
    ensures
        xml_pending(r) == xml_events(xml@),
        xml_pending(r).len() > 0,
        is_end(xml_pending(r).last()),
        forall|i: int| 0 <= i < xml_pending(r).len() - 1 ==> !is_end(#[trigger] xml_pending(r)[i]),
{
    let mut r = quick_xml::Reader::from_str(xml);
    r.config_mut().trim_text(true);
    r
}

/// The next event of `reader` (`Reader::read_event`): while events remain,
/// the first of them, which the reader then has behind it.
#[verifier::external_body]
pub(crate) fn xml_next<'a>(reader: &mut quick_xml::Reader<&'a [u8]>) -> (e: XmlEvent)
    ensures
        xml_pending(*old(reader)).len() > 0 ==> e == xml_pending(*old(reader))[0]
            && xml_pending(*final(reader)) == xml_pending(*old(reader)).drop_first(),
{
    match reader.read_event() {
        Ok(Event::Start(e)) => XmlEvent::Start(e.local_name().as_ref().to_vec()),
        Ok(Event::End(e)) => XmlEvent::End(e.local_name().as_ref().to_vec()),
        Ok(Event::Text(t)) => XmlEvent::Text(t.unescape().map(|c| c.into_owned()).map_err(|e| e.to_string())),
        Ok(Event::CData(t)) => XmlEvent::CData(t.as_ref().to_vec()),
        Ok(Event::Eof) => XmlEvent::Eof,
        Err(e) => XmlEvent::Error(e.to_string()),
        Ok(_) => XmlEvent::Other,
    }
}

} // verus!
