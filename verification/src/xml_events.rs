//! XML documents as sequences of events.

use vstd::prelude::*;
use crate::text::text_of_bytes;
use quick_xml::events::Event::{CData, Empty, End, Eof, GeneralRef, Start, Text};

verus! {

/// A pull parser of XML.
#[verifier::external_type_specification]
#[verifier::external_body]
#[verifier::reject_recursive_types(R)]
pub struct ExReader<R>(quick_xml::Reader<R>);

/// A reader over bytes in memory.
#[verifier::external_type_specification]
#[verifier::external_body]
#[verifier::reject_recursive_types(T)]
pub struct ExCursor<T>(std::io::Cursor<T>);

/// The kinds of event that are told apart.
#[derive(Debug, Clone, Copy, PartialEq, Eq, Structural)]
pub enum XmlKind {
    Start,
    Empty,
    End,
    Text,
    CData,
    Reference,
    Other,
    Eof,
}

/// An event: its kind, its bytes as they stand in the document, and the attributes
/// of a start or empty tag, `None` for one that is malformed.
#[derive(Debug)]
pub struct XmlEvent {
    pub kind: XmlKind,
    pub content: Vec<u8>,
    pub attributes: Vec<Option<(Vec<u8>, Vec<u8>)>>,
}

/// What an attribute stands for.
pub struct XmlAttribute {
    pub key: Seq<u8>,
    pub value: Seq<u8>,
}

/// What an event stands for.
pub struct XmlItem {
    pub kind: XmlKind,
    pub content: Seq<u8>,
    pub attributes: Seq<Option<XmlAttribute>>,
}

pub open spec fn attribute_views(list: Seq<Option<(Vec<u8>, Vec<u8>)>>) -> Seq<
    Option<XmlAttribute>,
> {
    Seq::new(
        list.len(),
        |i: int|
            match list[i] {
                Some((key, value)) => Some(XmlAttribute { key: key@, value: value@ }),
                None => None,
            },
    )
}

impl View for XmlEvent {
    type V = XmlItem;

    open spec fn view(&self) -> XmlItem {
        XmlItem {
            kind: self.kind,
            content: self.content@,
            attributes: attribute_views(self.attributes@),
        }
    }
}

/// A parser of a document in memory.
pub type XmlSource = quick_xml::Reader<std::io::Cursor<Vec<u8>>>;

/// The outcomes up to the end of a document: events, and the texts of faults.
pub uninterp spec fn document_events(bytes: Seq<u8>) -> Seq<Result<XmlItem, Seq<char>>>;

/// The outcomes that a parser has still to give before the end of its document.
pub uninterp spec fn events_left(source: XmlSource) -> Seq<Result<XmlItem, Seq<char>>>;

/// `quick_xml::Reader::from_reader`: a parser at the start of a document, which
/// keeps white space. A document that is made of plain markup gives the events of
/// its pieces.
#[verifier::external_body]
pub(crate) fn open_xml(bytes: Vec<u8>) -> (source: XmlSource)
    ensures
        events_left(source) == document_events(bytes@),
        forall|pieces: Seq<crate::markup::Piece>|
            #![trigger crate::markup::is_document(pieces)]
            crate::markup::is_document(pieces) && bytes@ == vstd::utf8::encode_utf8(
                crate::markup::written(pieces),
            ) ==> events_left(source) == crate::markup::items(pieces),
{
    let mut source = quick_xml::Reader::from_reader(std::io::Cursor::new(bytes));
    source.config_mut().trim_text(false);
    source
}

/// `quick_xml::Reader::read_event_into`: the next outcome of a parser. The outcomes
/// are finitely many, since each but the last fault takes bytes of the document;
/// behind them the parser gives the end of the document for ever.
#[verifier::external_body]
pub(crate) fn next_event(source: &mut XmlSource) -> (r: Result<XmlEvent, String>)
    ensures
        ({
            let left = events_left(*old(source));
            if left.len() == 0 {
                &&& r matches Ok(event) && event.kind == XmlKind::Eof
                &&& events_left(*final(source)) == left
            } else {
                &&& events_left(*final(source)) == left.skip(1)
                &&& match (r, left[0]) {
                    (Ok(event), Ok(item)) => event@ == item && event.kind != XmlKind::Eof,
                    (Err(fault), Err(text)) => fault@ == text,
                    _ => false,
                }
            }
        }),
{
    let mut buf = vec![];
    let event = source.read_event_into(&mut buf).map_err(|e| e.to_string())?;
    Ok(XmlEvent {
        kind: match &event {
            Start(_) => XmlKind::Start,
            Empty(_) => XmlKind::Empty,
            End(_) => XmlKind::End,
            Text(_) => XmlKind::Text,
            CData(_) => XmlKind::CData,
            GeneralRef(_) => XmlKind::Reference,
            Eof => XmlKind::Eof,
            _ => XmlKind::Other,
        },
        content: event.to_vec(),
        attributes: match &event { Start(e) | Empty(e) => e.attributes().map(|a| a.ok().map(|a| (a.key.0.to_vec(), a.value.to_vec()))).collect(), _ => vec![] } })
}

/// The white space of XML.
pub open spec fn is_blank(b: u8) -> bool {
    b == 0x20 || b == 0x0d || b == 0x0a || b == 0x09
}

/// The offset of the first byte from `from` on that ends a name, the length of the
/// content where none does.
pub open spec fn name_end(content: Seq<u8>, from: int) -> int
    decreases content.len() - from,
{
    if from >= content.len() {
        content.len() as int
    } else if is_blank(content[from]) {
        from
    } else {
        name_end(content, from + 1)
    }
}

/// The offset behind the first colon from `from` on, zero where there is none.
pub open spec fn behind_colon(name: Seq<u8>, from: int) -> int
    decreases name.len() - from,
{
    if from >= name.len() {
        0
    } else if name[from] == 0x3a {
        from + 1
    } else {
        behind_colon(name, from + 1)
    }
}

/// A name without its prefix.
pub open spec fn local_part(name: Seq<u8>) -> Seq<u8> {
    name.skip(behind_colon(name, 0))
}

proof fn lemma_behind_colon(name: Seq<u8>, from: int)
    requires
        0 <= from,
    ensures
        0 <= behind_colon(name, from) <= name.len(),
    decreases name.len() - from,
{
    if from < name.len() && name[from] != 0x3a {
        lemma_behind_colon(name, from + 1);
    }
}

proof fn lemma_name_end(content: Seq<u8>, from: int)
    requires
        0 <= from <= content.len(),
    ensures
        from <= name_end(content, from) <= content.len(),
    decreases content.len() - from,
{
    if from < content.len() && !is_blank(content[from]) {
        lemma_name_end(content, from + 1);
    }
}

/// A name without its prefix.
pub fn without_prefix(name: &[u8]) -> (local: &[u8])
    ensures
        local@ == local_part(name@),
{
    let mut i: usize = 0;
    while i < name.len()
        invariant
            i <= name.len(),
            behind_colon(name@, 0) == behind_colon(name@, i as int),
        decreases name.len() - i,
    {
        if name[i] == 0x3a {
            let end: usize = name.len();
            assert(name@.subrange(i as int + 1, end as int) =~= name@.skip(i as int + 1));
            return vstd::slice::slice_subrange(name, i + 1, end);
        }
        i += 1;
    }
    assert(name@.skip(0) =~= name@);
    name
}

/// Whether two byte sequences are the same.
pub fn eq_bytes(a: &[u8], b: &[u8]) -> (r: bool)
    ensures
        r == (a@ == b@),
{
    if a.len() != b.len() {
        return false;
    }
    let mut i: usize = 0;
    while i < a.len()
        invariant
            i <= a.len() == b.len(),
            forall|j: int| 0 <= j < i ==> a@[j] == b@[j],
        decreases a.len() - i,
    {
        if a[i] != b[i] {
            return false;
        }
        i += 1;
    }
    assert(a@ =~= b@);
    true
}

/// Whether bytes are the UTF-8 bytes of a text.
pub fn is_text(bytes: &[u8], text: &str) -> (r: bool)
    ensures
        r == (bytes@ == vstd::utf8::encode_utf8(text@)),
{
    eq_bytes(bytes, text.as_bytes())
}

impl XmlItem {
    /// The event is a start or empty tag.
    pub open spec fn opens(self) -> bool {
        self.kind == XmlKind::Start || self.kind == XmlKind::Empty
    }

    /// The name of a tag without its prefix.
    pub open spec fn name(self) -> Seq<u8> {
        if self.opens() {
            local_part(self.content.take(name_end(self.content, 0)))
        } else {
            local_part(self.content)
        }
    }

    /// The tag has this name.
    pub open spec fn is_named(self, name: Seq<char>) -> bool {
        self.name() == vstd::utf8::encode_utf8(name)
    }

    /// The event is a tag of a kind and a name.
    pub open spec fn is_tag(self, kind: XmlKind, name: Seq<char>) -> bool {
        self.kind == kind && self.is_named(name)
    }
}

impl XmlEvent {
    /// Whether the tag has this name.
    pub fn has_name(&self, name: &str) -> (b: bool)
        ensures
            b == self@.is_named(name@),
    {
        if self.kind == XmlKind::Start || self.kind == XmlKind::Empty {
            let mut end: usize = 0;
            while end < self.content.len() && self.content[end] != 0x20 && self.content[end] != 0x0d
                && self.content[end] != 0x0a && self.content[end] != 0x09
                invariant
                    end <= self.content@.len(),
                    name_end(self.content@, 0) == name_end(self.content@, end as int),
                decreases self.content.len() - end,
            {
                end += 1;
            }
            let full = vstd::slice::slice_subrange(self.content.as_slice(), 0, end);
            assert(full@ =~= self.content@.take(end as int));
            is_text(without_prefix(full), name)
        } else {
            is_text(without_prefix(self.content.as_slice()), name)
        }
    }

    /// Whether the event is a tag of a kind and a name.
    pub fn tag_is(&self, kind: XmlKind, name: &str) -> (b: bool)
        ensures
            b == self@.is_tag(kind, name@),
    {
        self.kind == kind && self.has_name(name)
    }
}

/// What one of the five entities of XML stands for.
pub open spec fn xml_entity(raw: Seq<char>) -> Option<Seq<char>> {
    if raw == "&amp;"@ {
        Some("&"@)
    } else if raw == "&lt;"@ {
        Some("<"@)
    } else if raw == "&gt;"@ {
        Some(">"@)
    } else if raw == "&quot;"@ {
        Some("\""@)
    } else if raw == "&apos;"@ {
        Some("'"@)
    } else {
        None
    }
}

/// What `quick_xml::escape::unescape` gives for a text.
pub uninterp spec fn unescaped(raw: Seq<char>) -> Option<Seq<char>>;

/// `quick_xml::escape::unescape`: the text with its references resolved, `None`
/// where one of them cannot be. The five entities of XML stand for their
/// characters.
#[verifier::external_body]
fn unescape(raw: &str) -> (r: Option<String>)
    ensures
        crate::biff_reader::text_of(r) == unescaped(raw@),
        xml_entity(raw@) is Some ==> crate::biff_reader::text_of(r) == xml_entity(raw@),
{
    quick_xml::escape::unescape(raw).ok().map(|text| text.into_owned())
}

/// A reference as it stands in a text.
pub open spec fn reference_text(name: Seq<u8>) -> Seq<char> {
    seq!['&'] + crate::text::bytes_text(name) + seq![';']
}

/// What a reference stands for, itself where it cannot be resolved.
pub open spec fn resolved(name: Seq<u8>) -> Seq<char> {
    match xml_entity(reference_text(name)) {
        Some(text) => text,
        None => match unescaped(reference_text(name)) {
            Some(text) => text,
            None => reference_text(name),
        },
    }
}

/// What a reference stands for.
pub fn decode_xml_reference(reference: &[u8]) -> (text: String)
    ensures
        text@ == resolved(reference@),
{
    let mut raw = String::new();
    raw.push('&');
    raw.append(text_of_bytes(reference).as_str());
    raw.push(';');
    assert(raw@ =~= reference_text(reference@));
    match unescape(raw.as_str()) {
        Some(text) => text,
        None => raw,
    }
}

/// What `Attribute::decoded_and_normalized_value` gives for the raw value of an
/// attribute.
pub uninterp spec fn normalized_attribute(value: Seq<u8>) -> Option<Seq<char>>;

/// A tab or a line break.
pub open spec fn is_break(c: char) -> bool {
    c == '\t' || c == '\n' || c == '\r'
}

/// The value of an attribute is a text with entities for the characters that have
/// one, and the text holds no tabs or line breaks.
pub open spec fn spells(value: Seq<u8>, text: Seq<char>) -> bool {
    &&& value == vstd::utf8::encode_utf8(crate::xml_utils::with_entities(text))
    &&& forall|i: int| 0 <= i < text.len() ==> !is_break(#[trigger] text[i])
}

/// `quick_xml::events::attributes::Attribute::decoded_and_normalized_value` for
/// XML 1.0 in UTF-8: the value with its references resolved and its white space
/// made into spaces, `None` where that fails. A value that spells a text gives the
/// text.
#[verifier::external_body]
fn normalize_attribute(value: &[u8]) -> (r: Option<String>)
    ensures
        crate::biff_reader::text_of(r) == normalized_attribute(value@),
        forall|text: Seq<char>| #[trigger]
            spells(value@, text) ==> crate::biff_reader::text_of(r) == Some(text),
{
    let attribute = quick_xml::events::attributes::Attribute {
        key: quick_xml::name::QName(b""),
        value: std::borrow::Cow::Borrowed(value),
    };
    let decoder = quick_xml::Reader::from_str("").decoder();
    let version = quick_xml::XmlVersion::default();
    attribute.decoded_and_normalized_value(version, decoder).ok().map(|text| text.into_owned())
}

/// The text of an attribute: the one that it spells, if it spells one, and its
/// bytes as they stand where it cannot be decoded.
pub open spec fn attribute_text(value: Seq<u8>) -> Seq<char> {
    if exists|text: Seq<char>| spells(value, text) {
        choose|text: Seq<char>| spells(value, text)
    } else {
        match normalized_attribute(value) {
            Some(text) => text,
            None => crate::text::bytes_text(value),
        }
    }
}

/// What an attribute spells is its text.
pub proof fn lemma_attribute_text(value: Seq<u8>, text: Seq<char>)
    requires
        spells(value, text),
    ensures
        attribute_text(value) == text,
{
    let found = choose|text: Seq<char>| spells(value, text);
    crate::markup::lemma_same_bytes(
        crate::xml_utils::with_entities(found),
        crate::xml_utils::with_entities(text),
    );
    crate::xml_utils::lemma_entities_tell_apart(found, text);
}

/// The text of an attribute.
pub fn decode_attribute(value: &[u8]) -> (text: String)
    ensures
        text@ == attribute_text(value@),
{
    match normalize_attribute(value) {
        Some(text) => text,
        None => text_of_bytes(value),
    }
}

} // verus!
