//! What the XML parts of an XLSX workbook say.

use vstd::prelude::*;
use crate::formats::is_date_format_code;
use crate::text::{chars_of, eq_ignoring_case, eq_str, text_of_bytes, utf8_text};
use crate::xml_events::{
    decode_attribute, decode_xml_reference, is_text, next_event, open_xml, without_prefix,
    XmlAttribute, XmlEvent, XmlItem, XmlKind,
};
use crate::xml_utils::parse_radix;
use std::collections::HashSet;

verus! {

/// The outcomes that a text gives as a document.
pub open spec fn text_events(xml: Seq<char>) -> Seq<Result<XmlItem, Seq<char>>> {
    crate::xml_events::document_events(vstd::utf8::encode_utf8(xml))
}

/// The bytes of a text.
fn text_bytes(xml: &str) -> (bytes: Vec<u8>)
    ensures
        bytes@ == vstd::utf8::encode_utf8(xml@),
{
    vstd::slice::slice_to_vec(xml.as_bytes())
}

/// The value of the first attribute from `i` on whose name without its prefix is
/// the one asked for.
pub open spec fn local_attribute(
    list: Seq<Option<XmlAttribute>>,
    name: Seq<char>,
    i: int,
) -> Option<Seq<u8>>
    decreases list.len() - i,
{
    if i >= list.len() {
        None
    } else {
        match list[i] {
            Some(a) => if crate::xml_events::local_part(a.key) == vstd::utf8::encode_utf8(name) {
                Some(a.value)
            } else {
                local_attribute(list, name, i + 1)
            },
            None => local_attribute(list, name, i + 1),
        }
    }
}

/// The text says that dates count from 1904.
pub open spec fn says_1904(value: Seq<char>) -> bool {
    value == "1"@ || crate::text::same_ignoring_case(value, "true"@)
}

/// Whether the workbook properties among the events say that dates count from
/// 1904.
pub open spec fn date_system(events: Seq<Result<XmlItem, Seq<char>>>) -> bool
    decreases events.len(),
{
    if events.len() == 0 {
        false
    } else {
        match events[0] {
            Err(_) => false,
            Ok(item) => if item.opens() && item.is_named("workbookPr"@) {
                match local_attribute(item.attributes, "date1904"@, 0) {
                    Some(value) => says_1904(crate::text::bytes_text(value)),
                    None => false,
                }
            } else {
                date_system(events.skip(1))
            },
        }
    }
}

fn tells_1904(event: &XmlEvent) -> (b: bool)
    ensures
        b == match local_attribute(event@.attributes, "date1904"@, 0) {
            Some(value) => says_1904(crate::text::bytes_text(value)),
            None => false,
        },
{
    let mut i: usize = 0;
    while i < event.attributes.len()
        invariant
            i <= event.attributes@.len(),
            local_attribute(event@.attributes, "date1904"@, 0) == local_attribute(
                event@.attributes,
                "date1904"@,
                i as int,
            ),
        decreases event.attributes.len() - i,
    {
        match &event.attributes[i] {
            Some((key, value)) => {
                if is_text(without_prefix(key.as_slice()), "date1904") {
                    let text = text_of_bytes(value.as_slice());
                    let chars = chars_of(text.as_str());
                    let yes = chars_of("true");
                    return eq_str(text.as_str(), "1") || eq_ignoring_case(&chars, &yes);
                }
            },
            None => {},
        }
        i += 1;
    }
    false
}

/// Whether a workbook declares that its dates count from 1904.
pub fn uses_1904_date_system(xml: &str) -> (b: bool)
    ensures
        b == date_system(text_events(xml@)),
{
    let mut source = open_xml(text_bytes(xml));
    loop
        invariant
            date_system(text_events(xml@)) == date_system(
                crate::xml_events::events_left(source),
            ),
        decreases crate::xml_events::events_left(source).len(),
    {
        match next_event(&mut source) {
            Err(_) => return false,
            Ok(event) => {
                if event.kind == XmlKind::Eof {
                    return false;
                }
                if (event.kind == XmlKind::Start || event.kind == XmlKind::Empty)
                    && event.has_name("workbookPr") {
                    return tells_1904(&event);
                }
            },
        }
    }
}

/// How far the shared strings have been read: inside an item, inside one of its
/// texts, the text of the item so far, and the items before.
pub struct StringScan {
    pub in_item: bool,
    pub in_text: bool,
    pub value: Seq<char>,
    pub found: Seq<Seq<char>>,
}

impl StringScan {
    /// The scan behind one more event.
    pub open spec fn step(self, item: XmlItem) -> StringScan {
        if item.is_tag(XmlKind::Start, "si"@) {
            StringScan { in_item: true, in_text: false, value: Seq::empty(), ..self }
        } else if item.kind == XmlKind::Start && self.in_item && item.is_named("t"@) {
            StringScan { in_text: true, ..self }
        } else if item.is_tag(XmlKind::End, "t"@) {
            StringScan { in_text: false, ..self }
        } else if item.is_tag(XmlKind::End, "si"@) {
            if self.in_item {
                StringScan {
                    in_item: false,
                    in_text: false,
                    value: Seq::empty(),
                    found: self.found.push(self.value),
                }
            } else {
                self
            }
        } else if self.in_item && self.in_text && (item.kind == XmlKind::Text || item.kind
            == XmlKind::CData) {
            StringScan { value: self.value + crate::text::bytes_text(item.content), ..self }
        } else if self.in_item && self.in_text && item.kind == XmlKind::Reference {
            StringScan { value: self.value + crate::xml_events::resolved(item.content), ..self }
        } else {
            self
        }
    }

    /// The scan behind all events up to the first fault.
    pub open spec fn run(self, events: Seq<Result<XmlItem, Seq<char>>>) -> StringScan
        decreases events.len(),
    {
        if events.len() == 0 {
            self
        } else {
            match events[0] {
                Err(_) => self,
                Ok(item) => self.step(item).run(events.skip(1)),
            }
        }
    }
}

/// The shared strings that events tell of.
pub open spec fn shared_strings_of(events: Seq<Result<XmlItem, Seq<char>>>) -> Seq<Seq<char>> {
    (StringScan {
        in_item: false,
        in_text: false,
        value: Seq::empty(),
        found: Seq::empty(),
    }).run(events).found
}

/// The shared strings that `xl/sharedStrings.xml` holds.
pub open spec fn shared_strings_in(xml: Seq<char>) -> Seq<Seq<char>> {
    shared_strings_of(text_events(xml))
}

/// Reads the shared strings of `xl/sharedStrings.xml`: the texts of each item, be
/// it plain or made of runs, one behind the other.
pub fn parse_shared_strings_xml(xml: &str) -> (result: Vec<String>)
    ensures
        crate::biff12::texts(result@) == shared_strings_in(xml@),
        forall|pieces: Seq<crate::markup::Piece>|
            #![trigger crate::markup::is_document(pieces)]
            crate::markup::is_document(pieces) && xml@ == crate::markup::written(pieces)
                ==> crate::biff12::texts(result@) == shared_strings_of(
                crate::markup::items(pieces),
            ),
{
    let mut source = open_xml(text_bytes(xml));
    let ghost all = crate::xml_events::events_left(source);
    let mut result: Vec<String> = Vec::new();
    let mut in_item = false;
    let mut in_text = false;
    let mut value = String::new();
    assert(value@ =~= Seq::<char>::empty());
    assert(crate::biff12::texts(result@) =~= Seq::<Seq<char>>::empty());
    loop
        invariant
            all == text_events(xml@),
            forall|pieces: Seq<crate::markup::Piece>|
                #![trigger crate::markup::is_document(pieces)]
                crate::markup::is_document(pieces) && xml@ == crate::markup::written(pieces)
                    ==> all == crate::markup::items(pieces),
            shared_strings_of(all) == (StringScan {
                in_item,
                in_text,
                value: value@,
                found: crate::biff12::texts(result@),
            }).run(crate::xml_events::events_left(source)).found,
        decreases crate::xml_events::events_left(source).len(),
    {
        let event = match next_event(&mut source) {
            Err(_) => return result,
            Ok(event) => event,
        };
        if event.kind == XmlKind::Eof {
            return result;
        }
        if event.tag_is(XmlKind::Start, "si") {
            in_item = true;
            in_text = false;
            value = String::new();
            assert(value@ =~= Seq::<char>::empty());
        } else if event.kind == XmlKind::Start && in_item && event.has_name("t") {
            in_text = true;
        } else if event.tag_is(XmlKind::End, "t") {
            in_text = false;
        } else if event.tag_is(XmlKind::End, "si") {
            if in_item {
                let ghost before = crate::biff12::texts(result@);
                result.push(value);
                assert(crate::biff12::texts(result@) =~= before.push(value@));
                value = String::new();
                assert(value@ =~= Seq::<char>::empty());
                in_item = false;
                in_text = false;
            }
        } else if in_item && in_text && (event.kind == XmlKind::Text || event.kind
            == XmlKind::CData) {
            value.append(text_of_bytes(event.content.as_slice()).as_str());
        } else if in_item && in_text && event.kind == XmlKind::Reference {
            value.append(decode_xml_reference(event.content.as_slice()).as_str());
        }
    }
}

/// What the workbook part says of a sheet.
#[derive(Debug)]
pub struct XlsxSheetEntry {
    pub name: String,
    pub sheet_id: String,
    pub r_id: String,
}

/// What an entry for a sheet stands for.
pub struct NamedSheet {
    pub name: Seq<char>,
    pub sheet_id: Seq<char>,
    pub r_id: Seq<char>,
}

pub open spec fn named_sheets(list: Seq<XlsxSheetEntry>) -> Seq<NamedSheet> {
    Seq::new(
        list.len(),
        |i: int|
            NamedSheet {
                name: list[i].name@,
                sheet_id: list[i].sheet_id@,
                r_id: list[i].r_id@,
            },
    )
}

/// The text of the last of the first `n` attributes whose name without its prefix
/// is the one asked for.
pub open spec fn last_local_attribute(
    list: Seq<Option<XmlAttribute>>,
    name: Seq<char>,
    n: nat,
) -> Option<Seq<char>>
    decreases n,
{
    if n == 0 {
        None
    } else {
        match list[n - 1] {
            Some(a) => if crate::xml_events::local_part(a.key) == vstd::utf8::encode_utf8(name) {
                Some(crate::xml_events::attribute_text(a.value))
            } else {
                last_local_attribute(list, name, (n - 1) as nat)
            },
            None => last_local_attribute(list, name, (n - 1) as nat),
        }
    }
}

/// The sheet that a tag declares, if it has a name, an id and a relationship id.
pub open spec fn declared_sheet(item: XmlItem) -> Option<NamedSheet> {
    let n = item.attributes.len();
    match (
        last_local_attribute(item.attributes, "name"@, n),
        last_local_attribute(item.attributes, "sheetId"@, n),
        last_local_attribute(item.attributes, "id"@, n),
    ) {
        (Some(name), Some(sheet_id), Some(r_id)) => Some(NamedSheet { name, sheet_id, r_id }),
        _ => None,
    }
}

/// The sheets that events declare up to the first fault, added to those found
/// before.
pub open spec fn sheets_declared(
    events: Seq<Result<XmlItem, Seq<char>>>,
    found: Seq<NamedSheet>,
) -> Seq<NamedSheet>
    decreases events.len(),
{
    if events.len() == 0 {
        found
    } else {
        match events[0] {
            Err(_) => found,
            Ok(item) => sheets_declared(
                events.skip(1),
                if item.opens() && item.is_named("sheet"@) {
                    match declared_sheet(item) {
                        Some(sheet) => found.push(sheet),
                        None => found,
                    }
                } else {
                    found
                },
            ),
        }
    }
}

/// The text of the last attribute whose name without its prefix is the one asked
/// for.
fn find_last_attribute(event: &XmlEvent, name: &str) -> (r: Option<String>)
    ensures
        crate::biff_reader::text_of(r) == last_local_attribute(
            event@.attributes,
            name@,
            event@.attributes.len(),
        ),
{
    let mut i: usize = event.attributes.len();
    while i > 0
        invariant
            i <= event.attributes@.len(),
            last_local_attribute(event@.attributes, name@, event@.attributes.len())
                == last_local_attribute(event@.attributes, name@, i as nat),
        decreases i,
    {
        i -= 1;
        match &event.attributes[i] {
            Some((key, value)) => {
                if is_text(without_prefix(key.as_slice()), name) {
                    return Some(decode_attribute(value.as_slice()));
                }
            },
            None => {},
        }
    }
    None
}

/// Reads the sheets that `xl/workbook.xml` declares.
pub fn parse_sheet_entries(xml: &str) -> (out: Vec<XlsxSheetEntry>)
    ensures
        named_sheets(out@) == sheets_declared(text_events(xml@), Seq::empty()),
        forall|pieces: Seq<crate::markup::Piece>|
            #![trigger crate::markup::is_document(pieces)]
            crate::markup::is_document(pieces) && xml@ == crate::markup::written(pieces)
                ==> named_sheets(out@) == sheets_declared(
                crate::markup::items(pieces),
                Seq::empty(),
            ),
{
    let mut source = open_xml(text_bytes(xml));
    let ghost all = crate::xml_events::events_left(source);
    let mut out: Vec<XlsxSheetEntry> = Vec::new();
    assert(named_sheets(out@) =~= Seq::<NamedSheet>::empty());
    loop
        invariant
            all == text_events(xml@),
            forall|pieces: Seq<crate::markup::Piece>|
                #![trigger crate::markup::is_document(pieces)]
                crate::markup::is_document(pieces) && xml@ == crate::markup::written(pieces)
                    ==> all == crate::markup::items(pieces),
            sheets_declared(all, Seq::empty()) == sheets_declared(
                crate::xml_events::events_left(source),
                named_sheets(out@),
            ),
        decreases crate::xml_events::events_left(source).len(),
    {
        let event = match next_event(&mut source) {
            Err(_) => return out,
            Ok(event) => event,
        };
        if event.kind == XmlKind::Eof {
            return out;
        }
        if (event.kind == XmlKind::Start || event.kind == XmlKind::Empty) && event.has_name("sheet") {
            if let (Some(name), Some(sheet_id), Some(r_id)) = (
                find_last_attribute(&event, "name"),
                find_last_attribute(&event, "sheetId"),
                find_last_attribute(&event, "id"),
            ) {
                let ghost before = named_sheets(out@);
                out.push(XlsxSheetEntry { name, sheet_id, r_id });
                assert(named_sheets(out@) =~= before.push(
                    NamedSheet { name: name@, sheet_id: sheet_id@, r_id: r_id@ },
                ));
            }
        }
    }
}

/// The number of a number format that a text stands for.
pub open spec fn format_number(text: Seq<char>) -> Option<u16> {
    match crate::xml_utils::radix_u32(crate::xml_utils::without_plus(text), 10) {
        Some(n) => if n <= 0xffff {
            Some(n as u16)
        } else {
            None
        },
        None => None,
    }
}

/// Reads the number of a number format.
fn parse_format_number(text: &str) -> (r: Option<u16>)
    ensures
        r == format_number(text@),
{
    let chars = chars_of(text);
    let end: usize = chars.len();
    let start: usize = if end > 1 && chars[0] == '+' {
        1
    } else {
        0
    };
    let digits = vstd::slice::slice_subrange(chars.as_slice(), start, end);
    assert(digits@ =~= crate::xml_utils::without_plus(text@));
    match parse_radix(digits, 10) {
        Some(n) => if n <= 0xffff {
            Some(n as u16)
        } else {
            None
        },
        None => None,
    }
}

/// How far the styles have been read: among the cell styles, the number formats of
/// the cell styles, and the number formats that show dates.
pub struct StyleScan {
    pub in_cell_xfs: bool,
    pub formats: Seq<u16>,
    pub date_formats: Set<u16>,
}

/// The number that the last of the first `n` attributes called `numFmtId` stands
/// for, if it does for one.
pub open spec fn declared_format(list: Seq<Option<XmlAttribute>>, n: nat) -> Option<u16>
    decreases n,
{
    if n == 0 {
        None
    } else {
        match list[n - 1] {
            Some(a) => if a.key == vstd::utf8::encode_utf8("numFmtId"@) {
                format_number(crate::xml_events::attribute_text(a.value))
            } else {
                declared_format(list, (n - 1) as nat)
            },
            None => declared_format(list, (n - 1) as nat),
        }
    }
}

/// The text of the last of the first `n` attributes called `formatCode`.
pub open spec fn declared_code(list: Seq<Option<XmlAttribute>>, n: nat) -> Option<Seq<char>>
    decreases n,
{
    if n == 0 {
        None
    } else {
        match list[n - 1] {
            Some(a) => if a.key == vstd::utf8::encode_utf8("formatCode"@) {
                Some(crate::xml_events::attribute_text(a.value))
            } else {
                declared_code(list, (n - 1) as nat)
            },
            None => declared_code(list, (n - 1) as nat),
        }
    }
}

/// The number that the bytes of an attribute stand for.
pub open spec fn raw_format_number(value: Seq<u8>) -> Option<u16> {
    if vstd::utf8::valid_utf8(value) {
        format_number(vstd::utf8::decode_utf8(value))
    } else {
        None
    }
}

/// The number formats that the first `n` attributes of a cell style give.
pub open spec fn style_formats(list: Seq<Option<XmlAttribute>>, n: nat) -> Seq<u16>
    decreases n,
{
    if n == 0 {
        Seq::empty()
    } else {
        let before = style_formats(list, (n - 1) as nat);
        match list[n - 1] {
            Some(a) => if a.key == vstd::utf8::encode_utf8("numFmtId"@) {
                match raw_format_number(a.value) {
                    Some(id) => before.push(id),
                    None => before,
                }
            } else {
                before
            },
            None => before,
        }
    }
}

impl StyleScan {
    /// The scan behind one more event.
    pub open spec fn step(self, item: XmlItem) -> StyleScan {
        let n = item.attributes.len();
        if item.opens() {
            if item.is_named("numFmt"@) {
                match (declared_format(item.attributes, n), declared_code(item.attributes, n)) {
                    (Some(id), Some(code)) => if crate::formats::is_date_code(code) {
                        StyleScan { date_formats: self.date_formats.insert(id), ..self }
                    } else {
                        self
                    },
                    _ => self,
                }
            } else if item.is_named("cellXfs"@) {
                StyleScan { in_cell_xfs: true, ..self }
            } else if item.is_named("xf"@) && self.in_cell_xfs {
                StyleScan { formats: self.formats + style_formats(item.attributes, n), ..self }
            } else {
                self
            }
        } else if item.is_tag(XmlKind::End, "cellXfs"@) {
            StyleScan { in_cell_xfs: false, ..self }
        } else {
            self
        }
    }

    /// The scan behind all events up to the first fault.
    pub open spec fn run(self, events: Seq<Result<XmlItem, Seq<char>>>) -> StyleScan
        decreases events.len(),
    {
        if events.len() == 0 {
            self
        } else {
            match events[0] {
                Err(_) => self,
                Ok(item) => self.step(item).run(events.skip(1)),
            }
        }
    }
}

/// What is known before any styles have been read.
pub open spec fn no_styles() -> StyleScan {
    StyleScan { in_cell_xfs: false, formats: Seq::empty(), date_formats: Set::empty() }
}

/// What `xl/styles.xml` says of number formats.
pub open spec fn styles_in(xml: Seq<char>) -> StyleScan {
    no_styles().run(text_events(xml))
}

/// The number format and the code that a tag declares.
fn read_declared_format(event: &XmlEvent) -> (r: (Option<u16>, Option<String>))
    ensures
        r.0 == declared_format(event@.attributes, event@.attributes.len()),
        crate::biff_reader::text_of(r.1) == declared_code(
            event@.attributes,
            event@.attributes.len(),
        ),
{
    let mut id: Option<u16> = None;
    let mut code: Option<String> = None;
    let mut i: usize = 0;
    while i < event.attributes.len()
        invariant
            i <= event.attributes@.len(),
            id == declared_format(event@.attributes, i as nat),
            crate::biff_reader::text_of(code) == declared_code(event@.attributes, i as nat),
        decreases event.attributes.len() - i,
    {
        match &event.attributes[i] {
            Some((key, value)) => {
                if is_text(key.as_slice(), "numFmtId") {
                    proof {
                        lemma_names_differ();
                    }
                    let text = decode_attribute(value.as_slice());
                    id = parse_format_number(text.as_str());
                } else if is_text(key.as_slice(), "formatCode") {
                    code = Some(decode_attribute(value.as_slice()));
                }
            },
            None => {},
        }
        i += 1;
    }
    (id, code)
}

/// The two attribute names are not the same.
proof fn lemma_names_differ()
    ensures
        vstd::utf8::encode_utf8("numFmtId"@) != vstd::utf8::encode_utf8("formatCode"@),
{
    reveal_strlit("numFmtId");
    reveal_strlit("formatCode");
    vstd::utf8::encode_utf8_decode_utf8("numFmtId"@);
    vstd::utf8::encode_utf8_decode_utf8("formatCode"@);
    assert("numFmtId"@.len() != "formatCode"@.len());
}

/// Adds the number formats that the attributes of a cell style give.
fn read_style_formats(formats: &mut Vec<u16>, event: &XmlEvent)
    ensures
        final(formats)@ == old(formats)@ + style_formats(
            event@.attributes,
            event@.attributes.len(),
        ),
{
    let ghost before = formats@;
    let mut i: usize = 0;
    assert(before + Seq::<u16>::empty() =~= before);
    while i < event.attributes.len()
        invariant
            i <= event.attributes@.len(),
            formats@ == before + style_formats(event@.attributes, i as nat),
        decreases event.attributes.len() - i,
    {
        match &event.attributes[i] {
            Some((key, value)) => {
                if is_text(key.as_slice(), "numFmtId") {
                    match parse_raw_format_number(value.as_slice()) {
                        Some(id) => formats.push(id),
                        None => {},
                    }
                }
            },
            None => {},
        }
        assert(formats@ =~= before + style_formats(event@.attributes, i as nat + 1));
        i += 1;
    }
}

fn parse_raw_format_number(value: &[u8]) -> (r: Option<u16>)
    ensures
        r == raw_format_number(value@),
{
    match utf8_text(value) {
        Ok(text) => parse_format_number(text.as_str()),
        Err(_) => None,
    }
}

/// Reads the number formats of the cell styles, and which number formats show
/// dates, from `xl/styles.xml`.
pub fn parse_styles(xml: &str) -> (r: (Vec<u16>, HashSet<u16>))
    ensures
        r.0@ == styles_in(xml@).formats,
        r.1@ == styles_in(xml@).date_formats,
        forall|pieces: Seq<crate::markup::Piece>|
            #![trigger crate::markup::is_document(pieces)]
            crate::markup::is_document(pieces) && xml@ == crate::markup::written(pieces) ==> {
                let styles = no_styles().run(crate::markup::items(pieces));
                r.0@ == styles.formats && r.1@ == styles.date_formats
            },
{
    broadcast use vstd::std_specs::hash::group_hash_axioms;

    let mut source = open_xml(text_bytes(xml));
    let ghost all = crate::xml_events::events_left(source);
    let mut customs: HashSet<u16> = HashSet::new();
    let mut xfs: Vec<u16> = Vec::new();
    let mut in_cell_xfs = false;
    loop
        invariant
            all == text_events(xml@),
            forall|pieces: Seq<crate::markup::Piece>|
                #![trigger crate::markup::is_document(pieces)]
                crate::markup::is_document(pieces) && xml@ == crate::markup::written(pieces)
                    ==> all == crate::markup::items(pieces),
            no_styles().run(all) == (StyleScan {
                in_cell_xfs,
                formats: xfs@,
                date_formats: customs@,
            }).run(crate::xml_events::events_left(source)),
        decreases crate::xml_events::events_left(source).len(),
    {
        let event = match next_event(&mut source) {
            Err(_) => return (xfs, customs),
            Ok(event) => event,
        };
        if event.kind == XmlKind::Eof {
            return (xfs, customs);
        }
        if event.kind == XmlKind::Start || event.kind == XmlKind::Empty {
            if event.has_name("numFmt") {
                if let (Some(id), Some(code)) = read_declared_format(&event) {
                    if is_date_format_code(code.as_str()) {
                        customs.insert(id);
                    }
                }
            } else if event.has_name("cellXfs") {
                in_cell_xfs = true;
            } else if event.has_name("xf") && in_cell_xfs {
                read_style_formats(&mut xfs, &event);
            }
        } else if event.tag_is(XmlKind::End, "cellXfs") {
            in_cell_xfs = false;
        }
    }
}

} // verus!
