//! The parts of an XLSX archive beside the worksheets.

use vstd::prelude::*;
use crate::markup::{Attr, Piece};
use crate::string_table::StringTable;
use crate::text::{chars_of, decimal_text, push_decimal};
use crate::xlsx_cells::{DECLARATION, MAIN_NAMESPACE, RELATIONSHIP_NAMESPACE};
use crate::xlsx_writer::SheetInfo;
use crate::xml_utils::push_entities;

verus! {

/// A text without control characters.
pub open spec fn without_controls(s: Seq<char>) -> Seq<char> {
    s.filter(|c: char| !crate::xml_utils::is_control(c))
}

/// A cell text as it stands in XML: with entities, and without control characters.
pub open spec fn cell_escaped(s: Seq<char>) -> Seq<char> {
    crate::xml_utils::with_entities(without_controls(s))
}

/// Appends a cell text as it stands in XML.
pub fn push_cell_escaped(out: &mut String, s: &str)
    ensures
        final(out)@ == old(out)@ + cell_escaped(s@),
{
    let chars = chars_of(s);
    let mut clean: Vec<char> = Vec::new();
    let mut i: usize = 0;
    let ghost keep = |c: char| !crate::xml_utils::is_control(c);
    assert(chars@.take(0).filter(keep) =~= Seq::<char>::empty()) by {
        reveal(Seq::filter);
    }
    while i < chars.len()
        invariant
            i <= chars.len(),
            keep == (|c: char| !crate::xml_utils::is_control(c)),
            clean@ == chars@.take(i as int).filter(keep),
        decreases chars.len() - i,
    {
        proof {
            reveal(Seq::filter);
            assert(chars@.take(i as int + 1).drop_last() =~= chars@.take(i as int));
        }
        let code: u32 = crate::text::char_code(chars[i]);
        if !(code < 0x20 && code != 9 && code != 10 && code != 13) {
            clean.push(chars[i]);
        }
        i += 1;
    }
    assert(chars@.take(chars@.len() as int) =~= chars@);
    push_entities(out, &clean);
}

/// White space at the edges of the text, or line breaks or tabs in it, would be
/// lost without notice.
pub open spec fn must_preserve(s: Seq<char>) -> bool {
    s.len() > 0 && (s[0] == ' ' || s.last() == ' ' || exists|i: int|
        0 <= i < s.len() && is_break(#[trigger] s[i]))
}

pub open spec fn is_break(c: char) -> bool {
    c == '\t' || c == '\n' || c == '\r'
}

/// Whether white space of the text has to be marked for keeping.
pub fn preserves_space(s: &str) -> (b: bool)
    ensures
        b == must_preserve(s@),
{
    let chars = chars_of(s);
    if chars.len() == 0 {
        return false;
    }
    if chars[0] == ' ' || chars[chars.len() - 1] == ' ' {
        return true;
    }
    let mut i: usize = 0;
    while i < chars.len()
        invariant
            i <= chars.len(),
            chars@ == s@,
            forall|j: int| 0 <= j < i ==> !is_break(#[trigger] s@[j]),
        decreases chars.len() - i,
    {
        if chars[i] == '\t' || chars[i] == '\n' || chars[i] == '\r' {
            assert(is_break(s@[i as int]));
            return true;
        }
        i += 1;
    }
    false
}

/// One item of the shared-string table.
pub open spec fn shared_string_item(text: Seq<char>) -> Seq<char> {
    (if must_preserve(cell_escaped(text)) {
        "<si><t xml:space=\"preserve\">"@
    } else {
        "<si><t>"@
    }) + cell_escaped(text) + "</t></si>"@
}

/// The first `n` items of the shared-string table.
pub open spec fn shared_string_items(strings: Seq<Seq<char>>, n: nat) -> Seq<char>
    decreases n,
{
    if n == 0 {
        Seq::empty()
    } else {
        shared_string_items(strings, (n - 1) as nat) + shared_string_item(strings[n - 1])
    }
}

/// The shared-string table: how often its texts are used, how many there are, and
/// the texts.
pub open spec fn shared_strings_xml(strings: Seq<Seq<char>>, uses: int) -> Seq<char> {
    "<?"@ + DECLARATION@ + "?>"@ + "<sst xmlns=\""@ + MAIN_NAMESPACE@ + "\" count=\""@
        + crate::text::decimal(uses) + "\" uniqueCount=\""@ + crate::text::decimal(
        strings.len() as int,
    ) + "\">"@ + shared_string_items(strings, strings.len()) + "</sst>"@
}

/// Renders the shared-string table.
pub fn render_shared_strings(strings: &StringTable, uses: u64) -> (xml: String)
    ensures
        xml@ == shared_strings_xml(strings@, uses as int),
{
    let mut xml = "<?".to_owned();
    xml.append(DECLARATION);
    xml.append("?>");
    xml.append("<sst xmlns=\"");
    xml.append(MAIN_NAMESPACE);
    xml.append("\" count=\"");
    push_decimal(&mut xml, uses as i128);
    xml.append("\" uniqueCount=\"");
    push_decimal(&mut xml, strings.len() as i128);
    xml.append("\">");
    let ghost open = xml@;
    assert(open + Seq::<char>::empty() =~= open);
    let mut i: usize = 0;
    while i < strings.len()
        invariant
            i <= strings@.len(),
            xml@ == open + shared_string_items(strings@, i as nat),
        decreases strings@.len() - i,
    {
        let ghost before = xml@;
        let mut clean = String::new();
        push_cell_escaped(&mut clean, strings.get(i));
        assert(clean@ =~= cell_escaped(strings@[i as int]));
        if preserves_space(clean.as_str()) {
            xml.append("<si><t xml:space=\"preserve\">");
        } else {
            xml.append("<si><t>");
        }
        xml.append(clean.as_str());
        xml.append("</t></si>");
        assert(xml@ =~= before + shared_string_item(strings@[i as int]));
        assert(xml@ =~= open + shared_string_items(strings@, i as nat + 1));
        i += 1;
    }
    xml.append("</sst>");
    xml
}

/// Appends an attribute to a tag.
fn push_attribute(out: &mut String, key: &str, value: &str)
    ensures
        final(out)@ == old(out)@ + crate::markup::attribute_text(
            Attr { key: key@, value: value@ },
        ),
{
    let ghost before = out@;
    out.append(" ");
    out.append(key);
    out.append("=\"");
    out.append(value);
    out.append("\"");
    assert(out@ =~= before + crate::markup::attribute_text(Attr { key: key@, value: value@ }));
}

/// A list of attributes with one more.
pub open spec fn with_attribute(list: Seq<Attr>, key: Seq<char>, value: Seq<char>) -> Seq<Attr> {
    list.push(Attr { key, value })
}

/// The text of a list of attributes grows by the attribute that is added.
pub proof fn lemma_with_attribute(list: Seq<Attr>, key: Seq<char>, value: Seq<char>)
    ensures
        crate::markup::attributes_text(with_attribute(list, key, value))
            == crate::markup::attributes_text(list) + crate::markup::attribute_text(
            Attr { key, value },
        ),
{
    assert(list.push(Attr { key, value }).drop_last() =~= list);
}

/// The attributes of `fileVersion`.
pub open spec fn version_attributes() -> Seq<Attr> {
    with_attribute(
        with_attribute(
            with_attribute(
                with_attribute(Seq::empty(), "appName"@, "xl"@),
                "lastEdited"@,
                "4"@,
            ),
            "lowestEdited"@,
            "4"@,
        ),
        "rupBuild"@,
        "4505"@,
    )
}

/// The attributes of `workbookPr`.
pub open spec fn properties_attributes() -> Seq<Attr> {
    with_attribute(Seq::empty(), "defaultThemeVersion"@, "124226"@)
}

/// The attributes of `workbookView`.
pub open spec fn window_attributes() -> Seq<Attr> {
    with_attribute(
        with_attribute(
            with_attribute(
                with_attribute(Seq::empty(), "xWindow"@, "240"@),
                "yWindow"@,
                "15"@,
            ),
            "windowWidth"@,
            "16095"@,
        ),
        "windowHeight"@,
        "9660"@,
    )
}

/// The attributes of `calcPr`.
pub open spec fn calculation_attributes() -> Seq<Attr> {
    with_attribute(
        with_attribute(Seq::empty(), "calcId"@, "124519"@),
        "fullCalcOnLoad"@,
        "1"@,
    )
}

/// An empty tag.
pub open spec fn empty_tag(name: Seq<char>, attributes: Seq<Attr>) -> Piece {
    Piece::Empty { name, attributes, spaced: false }
}

/// The namespaces of a workbook.
pub open spec fn namespace_attributes() -> Seq<Attr> {
    with_attribute(
        with_attribute(Seq::empty(), "xmlns"@, MAIN_NAMESPACE@),
        "xmlns:r"@,
        RELATIONSHIP_NAMESPACE@,
    )
}

/// The attributes of a sheet, by its number.
pub open spec fn sheet_attributes(n: int, name: Seq<char>, hidden: bool) -> Seq<Attr> {
    let start = with_attribute(
        with_attribute(Seq::empty(), "name"@, crate::xml_utils::with_entities(name)),
        "sheetId"@,
        crate::text::decimal(n),
    );
    with_attribute(
        if hidden {
            with_attribute(start, "state"@, "hidden"@)
        } else {
            start
        },
        "r:id"@,
        "rId"@ + crate::text::decimal(n),
    )
}

/// The first `n` sheets.
pub open spec fn sheet_pieces(sheets: Seq<crate::xlsx_writer::Sheet>, n: nat) -> Seq<Piece>
    decreases n,
{
    if n == 0 {
        Seq::empty()
    } else {
        sheet_pieces(sheets, (n - 1) as nat).push(
            empty_tag(
                "sheet"@,
                sheet_attributes(n as int, sheets[n - 1].name, sheets[n - 1].hidden),
            ),
        )
    }
}

/// The attributes of the filter name of a sheet, by its place.
pub open spec fn name_attributes(place: int) -> Seq<Attr> {
    with_attribute(
        with_attribute(
            with_attribute(Seq::empty(), "name"@, "_xlnm._FilterDatabase"@),
            "localSheetId"@,
            crate::text::decimal(place),
        ),
        "hidden"@,
        "1"@,
    )
}

/// The filter names of the first `n` sheets.
pub open spec fn name_pieces(sheets: Seq<crate::xlsx_writer::Sheet>, n: nat) -> Seq<Piece>
    decreases n,
{
    if n == 0 {
        Seq::empty()
    } else {
        name_pieces(sheets, (n - 1) as nat) + match sheets[n - 1].filter {
            Some(range) => crate::markup::element(
                "definedName"@,
                name_attributes(n - 1),
                crate::xlsx_string_laws::text_pieces(without_controls(range)),
            ),
            None => Seq::empty(),
        }
    }
}

/// A line break between tags.
pub open spec fn line_break() -> Piece {
    Piece::Text("\n"@)
}

/// What stands in front of the sheets of a workbook.
pub open spec fn book_head() -> Seq<Piece> {
    seq![line_break()] + seq![empty_tag("fileVersion"@, version_attributes())] + seq![line_break()]
        + seq![empty_tag("workbookPr"@, properties_attributes())] + seq![line_break()]
        + crate::markup::element(
        "bookViews"@,
        Seq::empty(),
        seq![empty_tag("workbookView"@, window_attributes())],
    ) + seq![line_break()]
}

/// What stands behind the sheets of a workbook.
pub open spec fn book_tail(
    sheets: Seq<crate::xlsx_writer::Sheet>,
    autofilter_is_on: bool,
) -> Seq<Piece> {
    (if autofilter_is_on {
        crate::markup::element("definedNames"@, Seq::empty(), name_pieces(sheets, sheets.len()))
    } else {
        Seq::empty()
    }) + seq![empty_tag("calcPr"@, calculation_attributes())]
}

/// The workbook part as pieces.
pub open spec fn workbook_pieces(
    sheets: Seq<crate::xlsx_writer::Sheet>,
    autofilter_is_on: bool,
) -> Seq<Piece> {
    seq![Piece::Declaration(DECLARATION@)] + seq![line_break()] + crate::markup::element(
        "workbook"@,
        namespace_attributes(),
        book_head() + crate::markup::element(
            "sheets"@,
            Seq::empty(),
            sheet_pieces(sheets, sheets.len()),
        ) + book_tail(sheets, autofilter_is_on),
    )
}

/// The workbook part.
pub open spec fn workbook_xml(
    sheets: Seq<crate::xlsx_writer::Sheet>,
    autofilter_is_on: bool,
) -> Seq<char> {
    crate::markup::written(workbook_pieces(sheets, autofilter_is_on))
}

/// Appends an opening tag without attributes.
fn push_open(out: &mut String, name: &str)
    ensures
        final(out)@ == old(out)@ + (Piece::Open { name: name@, attributes: Seq::empty() }).text(),
{
    let ghost before = out@;
    out.append("<");
    out.append(name);
    out.append(">");
    assert(out@ =~= before + (Piece::Open { name: name@, attributes: Seq::empty() }).text());
}

/// Appends a closing tag.
fn push_close(out: &mut String, name: &str)
    ensures
        final(out)@ == old(out)@ + Piece::Close(name@).text(),
{
    let ghost before = out@;
    out.append("</");
    out.append(name);
    out.append(">");
    assert(out@ =~= before + Piece::Close(name@).text());
}

fn push_version(out: &mut String)
    ensures
        final(out)@ == old(out)@ + empty_tag("fileVersion"@, version_attributes()).text(),
{
    let ghost before = out@;
    out.append("<");
    out.append("fileVersion");
    push_attribute(out, "appName", "xl");
    push_attribute(out, "lastEdited", "4");
    push_attribute(out, "lowestEdited", "4");
    push_attribute(out, "rupBuild", "4505");
    out.append("/>");
    proof {
        let one = with_attribute(Seq::empty(), "appName"@, "xl"@);
        let two = with_attribute(one, "lastEdited"@, "4"@);
        let three = with_attribute(two, "lowestEdited"@, "4"@);
        lemma_with_attribute(Seq::empty(), "appName"@, "xl"@);
        lemma_with_attribute(one, "lastEdited"@, "4"@);
        lemma_with_attribute(two, "lowestEdited"@, "4"@);
        lemma_with_attribute(three, "rupBuild"@, "4505"@);
    }
    assert(out@ =~= before + empty_tag("fileVersion"@, version_attributes()).text());
}

fn push_properties(out: &mut String)
    ensures
        final(out)@ == old(out)@ + empty_tag("workbookPr"@, properties_attributes()).text(),
{
    let ghost before = out@;
    out.append("<");
    out.append("workbookPr");
    push_attribute(out, "defaultThemeVersion", "124226");
    out.append("/>");
    proof {
        lemma_with_attribute(Seq::empty(), "defaultThemeVersion"@, "124226"@);
    }
    assert(out@ =~= before + empty_tag("workbookPr"@, properties_attributes()).text());
}

fn push_window(out: &mut String)
    ensures
        final(out)@ == old(out)@ + empty_tag("workbookView"@, window_attributes()).text(),
{
    let ghost before = out@;
    out.append("<");
    out.append("workbookView");
    push_attribute(out, "xWindow", "240");
    push_attribute(out, "yWindow", "15");
    push_attribute(out, "windowWidth", "16095");
    push_attribute(out, "windowHeight", "9660");
    out.append("/>");
    proof {
        let one = with_attribute(Seq::empty(), "xWindow"@, "240"@);
        let two = with_attribute(one, "yWindow"@, "15"@);
        let three = with_attribute(two, "windowWidth"@, "16095"@);
        lemma_with_attribute(Seq::empty(), "xWindow"@, "240"@);
        lemma_with_attribute(one, "yWindow"@, "15"@);
        lemma_with_attribute(two, "windowWidth"@, "16095"@);
        lemma_with_attribute(three, "windowHeight"@, "9660"@);
    }
    assert(out@ =~= before + empty_tag("workbookView"@, window_attributes()).text());
}

fn push_calculation(out: &mut String)
    ensures
        final(out)@ == old(out)@ + empty_tag("calcPr"@, calculation_attributes()).text(),
{
    let ghost before = out@;
    out.append("<");
    out.append("calcPr");
    push_attribute(out, "calcId", "124519");
    push_attribute(out, "fullCalcOnLoad", "1");
    out.append("/>");
    proof {
        let one = with_attribute(Seq::empty(), "calcId"@, "124519"@);
        lemma_with_attribute(Seq::empty(), "calcId"@, "124519"@);
        lemma_with_attribute(one, "fullCalcOnLoad"@, "1"@);
    }
    assert(out@ =~= before + empty_tag("calcPr"@, calculation_attributes()).text());
}

/// Appends the opening tag of a workbook.
fn push_namespaced(out: &mut String)
    ensures
        final(out)@ == old(out)@ + (Piece::Open {
            name: "workbook"@,
            attributes: namespace_attributes(),
        }).text(),
{
    let ghost before = out@;
    out.append("<");
    out.append("workbook");
    push_attribute(out, "xmlns", MAIN_NAMESPACE);
    push_attribute(out, "xmlns:r", RELATIONSHIP_NAMESPACE);
    out.append(">");
    proof {
        let one = with_attribute(Seq::empty(), "xmlns"@, MAIN_NAMESPACE@);
        lemma_with_attribute(Seq::empty(), "xmlns"@, MAIN_NAMESPACE@);
        lemma_with_attribute(one, "xmlns:r"@, RELATIONSHIP_NAMESPACE@);
    }
    assert(out@ =~= before + (Piece::Open {
        name: "workbook"@,
        attributes: namespace_attributes(),
    }).text());
}

/// The declaration and what stands in front of the sheets of a workbook.
pub open spec fn opening_text() -> Seq<char> {
    Piece::Declaration(DECLARATION@).text() + "\n"@ + (Piece::Open {
        name: "workbook"@,
        attributes: namespace_attributes(),
    }).text() + crate::markup::written(book_head())
}

proof fn lemma_book_head()
    ensures
        crate::markup::written(book_head()) == "\n"@ + empty_tag(
            "fileVersion"@,
            version_attributes(),
        ).text() + "\n"@ + empty_tag("workbookPr"@, properties_attributes()).text() + "\n"@ + (
        Piece::Open { name: "bookViews"@, attributes: Seq::empty() }).text() + empty_tag(
            "workbookView"@,
            window_attributes(),
        ).text() + Piece::Close("bookViews"@).text() + "\n"@,
{
    let nl = seq![line_break()];
    let version = empty_tag("fileVersion"@, version_attributes());
    let properties = empty_tag("workbookPr"@, properties_attributes());
    let window = empty_tag("workbookView"@, window_attributes());
    let views = crate::markup::element("bookViews"@, Seq::empty(), seq![window]);
    crate::markup::lemma_written_one(line_break());
    crate::markup::lemma_written_one(version);
    crate::markup::lemma_written_one(properties);
    crate::markup::lemma_written_one(window);
    crate::markup::lemma_element_text("bookViews"@, Seq::empty(), seq![window]);
    let a = nl + seq![version];
    let b = a + nl;
    let c = b + seq![properties];
    let d = c + nl;
    let e = d + views;
    crate::markup::lemma_written_concat(nl, seq![version]);
    crate::markup::lemma_written_concat(a, nl);
    crate::markup::lemma_written_concat(b, seq![properties]);
    crate::markup::lemma_written_concat(c, nl);
    crate::markup::lemma_written_concat(d, views);
    crate::markup::lemma_written_concat(e, nl);
    let open = (Piece::Open { name: "bookViews"@, attributes: Seq::empty() }).text();
    let close = Piece::Close("bookViews"@).text();
    assert(crate::markup::written(d) + (open + window.text() + close) =~= crate::markup::written(d)
        + open + window.text() + close);
}

/// Renders what stands in front of the sheets of a workbook.
fn render_opening() -> (xml: String)
    ensures
        xml@ == opening_text(),
{
    let mut xml = "<?".to_owned();
    xml.append(DECLARATION);
    xml.append("?>");
    xml.append("\n");
    push_namespaced(&mut xml);
    let ghost start = xml@;
    xml.append("\n");
    push_version(&mut xml);
    xml.append("\n");
    push_properties(&mut xml);
    xml.append("\n");
    push_open(&mut xml, "bookViews");
    push_window(&mut xml);
    push_close(&mut xml, "bookViews");
    xml.append("\n");
    proof {
        lemma_book_head();
        lemma_head_joined(
            start,
            "\n"@,
            empty_tag("fileVersion"@, version_attributes()).text(),
            empty_tag("workbookPr"@, properties_attributes()).text(),
            (Piece::Open { name: "bookViews"@, attributes: Seq::empty() }).text(),
            empty_tag("workbookView"@, window_attributes()).text(),
            Piece::Close("bookViews"@).text(),
        );
    }
    xml
}

proof fn lemma_head_joined(
    a: Seq<char>,
    nl: Seq<char>,
    b: Seq<char>,
    c: Seq<char>,
    d: Seq<char>,
    e: Seq<char>,
    f: Seq<char>,
)
    ensures
        a + nl + b + nl + c + nl + d + e + f + nl == a + (nl + b + nl + c + nl + d + e + f + nl),
{
    assert(a + nl + b + nl + c + nl + d + e + f + nl =~= a + (nl + b + nl + c + nl + d + e + f
        + nl));
}

/// Appends a sheet of a workbook, by its number.
fn push_sheet(out: &mut String, n: usize, plain_name: &str, hidden: bool)
    ensures
        final(out)@ == old(out)@ + empty_tag(
            "sheet"@,
            sheet_attributes(n as int, plain_name@, hidden),
        ).text(),
{
    let ghost before = out@;
    let mut name = String::new();
    let chars = chars_of(plain_name);
    push_entities(&mut name, &chars);
    assert(name@ =~= crate::xml_utils::with_entities(plain_name@));
    let number = decimal_text(n as i128);
    let mut id = "rId".to_owned();
    id.append(number.as_str());
    out.append("<");
    out.append("sheet");
    push_attribute(out, "name", name.as_str());
    push_attribute(out, "sheetId", number.as_str());
    if hidden {
        push_attribute(out, "state", "hidden");
    }
    push_attribute(out, "r:id", id.as_str());
    out.append("/>");
    proof {
        let one = with_attribute(Seq::empty(), "name"@, name@);
        let two = with_attribute(one, "sheetId"@, number@);
        lemma_with_attribute(Seq::empty(), "name"@, name@);
        lemma_with_attribute(one, "sheetId"@, number@);
        lemma_with_attribute(two, "state"@, "hidden"@);
        let start = if hidden {
            with_attribute(two, "state"@, "hidden"@)
        } else {
            two
        };
        lemma_with_attribute(start, "r:id"@, id@);
    }
    assert(out@ =~= before + empty_tag(
        "sheet"@,
        sheet_attributes(n as int, plain_name@, hidden),
    ).text());
}

/// Appends the filter name of a sheet, by its place.
fn push_filter_name(out: &mut String, place: usize, range: &str)
    ensures
        final(out)@ == old(out)@ + crate::markup::written(
            crate::markup::element(
                "definedName"@,
                name_attributes(place as int),
                crate::xlsx_string_laws::text_pieces(without_controls(range@)),
            ),
        ),
{
    let ghost before = out@;
    let ghost attributes = name_attributes(place as int);
    let ghost pieces = crate::xlsx_string_laws::text_pieces(without_controls(range@));
    let number = decimal_text(place as i128);
    out.append("<");
    out.append("definedName");
    push_attribute(out, "name", "_xlnm._FilterDatabase");
    push_attribute(out, "localSheetId", number.as_str());
    push_attribute(out, "hidden", "1");
    out.append(">");
    proof {
        let one = with_attribute(Seq::empty(), "name"@, "_xlnm._FilterDatabase"@);
        let two = with_attribute(one, "localSheetId"@, number@);
        lemma_with_attribute(Seq::empty(), "name"@, "_xlnm._FilterDatabase"@);
        lemma_with_attribute(one, "localSheetId"@, number@);
        lemma_with_attribute(two, "hidden"@, "1"@);
    }
    let ghost open = (Piece::Open { name: "definedName"@, attributes }).text();
    assert(out@ =~= before + open);
    push_cell_escaped(out, range);
    push_close(out, "definedName");
    proof {
        crate::xlsx_string_laws::lemma_text_pieces(without_controls(range@));
        crate::markup::lemma_element_text("definedName"@, attributes, pieces);
    }
    assert(out@ =~= before + (open + cell_escaped(range@) + Piece::Close("definedName"@).text()));
}

/// The parts of a workbook add up to the workbook.
proof fn lemma_workbook_text(sheets: Seq<crate::xlsx_writer::Sheet>, autofilter_is_on: bool)
    ensures
        workbook_xml(sheets, autofilter_is_on) == opening_text() + (Piece::Open {
            name: "sheets"@,
            attributes: Seq::empty(),
        }).text() + crate::markup::written(sheet_pieces(sheets, sheets.len())) + Piece::Close(
            "sheets"@,
        ).text() + crate::markup::written(book_tail(sheets, autofilter_is_on)) + Piece::Close(
            "workbook"@,
        ).text(),
{
    let declaration = Piece::Declaration(DECLARATION@);
    let first = seq![declaration] + seq![line_break()];
    let inner = sheet_pieces(sheets, sheets.len());
    let list = crate::markup::element("sheets"@, Seq::empty(), inner);
    let tail = book_tail(sheets, autofilter_is_on);
    let body = book_head() + list + tail;
    let book = crate::markup::element("workbook"@, namespace_attributes(), body);
    crate::markup::lemma_written_one(declaration);
    crate::markup::lemma_written_one(line_break());
    crate::markup::lemma_written_concat(seq![declaration], seq![line_break()]);
    crate::markup::lemma_written_concat(first, book);
    crate::markup::lemma_element_text("workbook"@, namespace_attributes(), body);
    crate::markup::lemma_written_concat(book_head(), list);
    crate::markup::lemma_written_concat(book_head() + list, tail);
    crate::markup::lemma_element_text("sheets"@, Seq::empty(), inner);
    lemma_book_joined(
        declaration.text() + "\n"@,
        (Piece::Open { name: "workbook"@, attributes: namespace_attributes() }).text(),
        crate::markup::written(book_head()),
        (Piece::Open { name: "sheets"@, attributes: Seq::empty() }).text(),
        crate::markup::written(inner),
        Piece::Close("sheets"@).text(),
        crate::markup::written(tail),
        Piece::Close("workbook"@).text(),
    );
}

proof fn lemma_book_joined(
    a: Seq<char>,
    b: Seq<char>,
    c: Seq<char>,
    d: Seq<char>,
    e: Seq<char>,
    f: Seq<char>,
    g: Seq<char>,
    h: Seq<char>,
)
    ensures
        a + (b + (c + (d + e + f) + g) + h) == a + b + c + d + e + f + g + h,
{
    assert(a + (b + (c + (d + e + f) + g) + h) =~= a + b + c + d + e + f + g + h);
}

proof fn lemma_tail_text(sheets: Seq<crate::xlsx_writer::Sheet>, autofilter_is_on: bool)
    ensures
        crate::markup::written(book_tail(sheets, autofilter_is_on)) == (if autofilter_is_on {
            (Piece::Open { name: "definedNames"@, attributes: Seq::empty() }).text()
                + crate::markup::written(name_pieces(sheets, sheets.len())) + Piece::Close(
                "definedNames"@,
            ).text()
        } else {
            Seq::empty()
        }) + empty_tag("calcPr"@, calculation_attributes()).text(),
{
    let names = name_pieces(sheets, sheets.len());
    let calc = empty_tag("calcPr"@, calculation_attributes());
    crate::markup::lemma_written_one(calc);
    if autofilter_is_on {
        let first = crate::markup::element("definedNames"@, Seq::empty(), names);
        crate::markup::lemma_element_text("definedNames"@, Seq::empty(), names);
        crate::markup::lemma_written_concat(first, seq![calc]);
    } else {
        crate::markup::lemma_written_concat(Seq::empty(), seq![calc]);
    }
}

/// Renders the workbook part.
pub fn render_workbook(list: &Vec<SheetInfo>, autofilter_is_on: bool) -> (xml: String)
    ensures
        xml@ == workbook_xml(crate::xlsx_writer::sheet_views(list@), autofilter_is_on),
{
    let ghost sheets = crate::xlsx_writer::sheet_views(list@);
    let mut xml = render_opening();
    push_open(&mut xml, "sheets");
    let ghost open = xml@;
    assert(open + Seq::<char>::empty() =~= open);
    let mut i: usize = 0;
    while i < list.len()
        invariant
            i <= list.len(),
            sheets == crate::xlsx_writer::sheet_views(list@),
            xml@ == open + crate::markup::written(sheet_pieces(sheets, i as nat)),
        decreases list.len() - i,
    {
        let ghost before = crate::markup::written(sheet_pieces(sheets, i as nat));
        push_sheet(&mut xml, i + 1, list[i].name.as_str(), list[i].hidden);
        proof {
            let sheet = sheets[i as int];
            let piece = empty_tag("sheet"@, sheet_attributes(i + 1, sheet.name, sheet.hidden));
            let some = sheet_pieces(sheets, i as nat);
            assert(some.push(piece).drop_last() =~= some);
            assert(open + before + piece.text() =~= open + (before + piece.text()));
        }
        i += 1;
    }
    push_close(&mut xml, "sheets");
    let ghost start = xml@;
    if autofilter_is_on {
        push_open(&mut xml, "definedNames");
        let ghost open = xml@;
        assert(open + Seq::<char>::empty() =~= open);
        let mut i: usize = 0;
        while i < list.len()
            invariant
                i <= list.len(),
                sheets == crate::xlsx_writer::sheet_views(list@),
                xml@ == open + crate::markup::written(name_pieces(sheets, i as nat)),
            decreases list.len() - i,
        {
            let ghost before = name_pieces(sheets, i as nat);
            match &list[i].filter_header_range {
                Some(range) => {
                    push_filter_name(&mut xml, i, range.as_str());
                    proof {
                        let piece = crate::markup::element(
                            "definedName"@,
                            name_attributes(i as int),
                            crate::xlsx_string_laws::text_pieces(without_controls(range@)),
                        );
                        crate::markup::lemma_written_concat(before, piece);
                        assert(open + crate::markup::written(before) + crate::markup::written(
                            piece,
                        ) =~= open + (crate::markup::written(before) + crate::markup::written(
                            piece,
                        )));
                    }
                },
                None => {
                    proof {
                        crate::markup::lemma_written_concat(before, Seq::empty());
                        assert(before + Seq::<Piece>::empty() =~= before);
                    }
                },
            }
            i += 1;
        }
        push_close(&mut xml, "definedNames");
    }
    push_calculation(&mut xml);
    proof {
        lemma_tail_text(sheets, autofilter_is_on);
        assert(xml@ =~= start + crate::markup::written(book_tail(sheets, autofilter_is_on)));
    }
    push_close(&mut xml, "workbook");
    proof {
        lemma_workbook_text(sheets, autofilter_is_on);
    }
    xml
}

pub const CONTENT_TYPES_OPEN: &'static str = r#"<?xml version="1.0" encoding="UTF-8" standalone="yes"?>
<Types xmlns="http://schemas.openxmlformats.org/package/2006/content-types">
<Default Extension="rels" ContentType="application/vnd.openxmlformats-package.relationships+xml"/>
<Default Extension="xml" ContentType="application/xml"/>
<Override PartName="/xl/workbook.xml" ContentType="application/vnd.openxmlformats-officedocument.spreadsheetml.sheet.main+xml"/>
<Override PartName="/xl/styles.xml" ContentType="application/vnd.openxmlformats-officedocument.spreadsheetml.styles+xml"/>
<Override PartName="/xl/sharedStrings.xml" ContentType="application/vnd.openxmlformats-officedocument.spreadsheetml.sharedStrings+xml"/>"#;

/// The content types of the first `n` sheets.
pub open spec fn sheet_types(n: nat) -> Seq<char>
    decreases n,
{
    if n == 0 {
        Seq::empty()
    } else {
        sheet_types((n - 1) as nat) + "<Override PartName=\"/xl/worksheets/sheet"@
            + crate::text::decimal(n as int)
            + ".xml\" ContentType=\"application/vnd.openxmlformats-officedocument.spreadsheetml.worksheet+xml\"/>"@
    }
}

/// The content types part.
pub open spec fn content_types_xml(sheet_count: nat) -> Seq<char> {
    CONTENT_TYPES_OPEN@ + sheet_types(sheet_count) + "</Types>"@
}

/// Renders the content types part.
pub fn render_content_types(sheet_count: usize) -> (xml: String)
    ensures
        xml@ == content_types_xml(sheet_count as nat),
{
    let mut xml = CONTENT_TYPES_OPEN.to_owned();
    let ghost open = xml@;
    assert(open + Seq::<char>::empty() =~= open);
    let mut i: usize = 0;
    while i < sheet_count
        invariant
            i <= sheet_count,
            xml@ == open + sheet_types(i as nat),
        decreases sheet_count - i,
    {
        xml.append("<Override PartName=\"/xl/worksheets/sheet");
        push_decimal(&mut xml, i as i128 + 1);
        xml.append(
            ".xml\" ContentType=\"application/vnd.openxmlformats-officedocument.spreadsheetml.worksheet+xml\"/>",
        );
        assert(xml@ =~= open + sheet_types(i as nat + 1));
        i += 1;
    }
    xml.append("</Types>");
    xml
}

/// The relationships of the archive.
pub const GLOBAL_RELS: &'static str = r#"<?xml version="1.0" encoding="UTF-8" standalone="yes"?>
<Relationships xmlns="http://schemas.openxmlformats.org/package/2006/relationships">
<Relationship Id="rId1" Type="http://schemas.openxmlformats.org/officeDocument/2006/relationships/officeDocument" Target="xl/workbook.xml"/>
</Relationships>"#;

pub const RELS_OPEN: &'static str = r#"<?xml version="1.0" encoding="UTF-8" standalone="yes"?>
<Relationships xmlns="http://schemas.openxmlformats.org/package/2006/relationships">"#;

/// The relationships of the first `n` sheets.
pub open spec fn sheet_rels(n: nat) -> Seq<char>
    decreases n,
{
    if n == 0 {
        Seq::empty()
    } else {
        sheet_rels((n - 1) as nat) + "<Relationship Id=\"rId"@ + crate::text::decimal(n as int)
            + "\" Type=\"http://schemas.openxmlformats.org/officeDocument/2006/relationships/worksheet\" Target=\"worksheets/sheet"@
            + crate::text::decimal(n as int) + ".xml\"/>"@
    }
}

/// The relationships of the workbook: its sheets, then its styles and its
/// shared strings.
pub open spec fn workbook_rels(sheet_count: nat) -> Seq<char> {
    RELS_OPEN@ + sheet_rels(sheet_count) + "<Relationship Id=\"rId"@ + crate::text::decimal(
        sheet_count as int + 1,
    )
        + "\" Type=\"http://schemas.openxmlformats.org/officeDocument/2006/relationships/styles\" Target=\"styles.xml\"/><Relationship Id=\"rId"@
        + crate::text::decimal(sheet_count as int + 2)
        + "\" Type=\"http://schemas.openxmlformats.org/officeDocument/2006/relationships/sharedStrings\" Target=\"sharedStrings.xml\"/></Relationships>"@
}

/// Renders the relationships of the workbook.
pub fn render_workbook_rels(sheet_count: usize) -> (xml: String)
    ensures
        xml@ == workbook_rels(sheet_count as nat),
{
    let mut xml = RELS_OPEN.to_owned();
    let ghost open = xml@;
    assert(open + Seq::<char>::empty() =~= open);
    let mut i: usize = 0;
    while i < sheet_count
        invariant
            i <= sheet_count,
            xml@ == open + sheet_rels(i as nat),
        decreases sheet_count - i,
    {
        xml.append("<Relationship Id=\"rId");
        push_decimal(&mut xml, i as i128 + 1);
        xml.append(
            "\" Type=\"http://schemas.openxmlformats.org/officeDocument/2006/relationships/worksheet\" Target=\"worksheets/sheet",
        );
        push_decimal(&mut xml, i as i128 + 1);
        xml.append(".xml\"/>");
        assert(xml@ =~= open + sheet_rels(i as nat + 1));
        i += 1;
    }
    xml.append("<Relationship Id=\"rId");
    push_decimal(&mut xml, sheet_count as i128 + 1);
    xml.append(
        "\" Type=\"http://schemas.openxmlformats.org/officeDocument/2006/relationships/styles\" Target=\"styles.xml\"/><Relationship Id=\"rId",
    );
    push_decimal(&mut xml, sheet_count as i128 + 2);
    xml.append(
        "\" Type=\"http://schemas.openxmlformats.org/officeDocument/2006/relationships/sharedStrings\" Target=\"sharedStrings.xml\"/></Relationships>",
    );
    xml
}

} // verus!
