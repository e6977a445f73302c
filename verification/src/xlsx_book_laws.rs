//! The sheets of a workbook that the XLSX writer makes read back.

use vstd::prelude::*;
use crate::markup::{Attr, Piece};
use crate::xlsx_writer::Sheet;
use crate::xml_documents::NamedSheet;
use crate::xml_events::{XmlAttribute, XmlItem, XmlKind};

verus! {

/// Pieces that can stand in an element: they close every tag that they open.
pub open spec fn is_content(pieces: Seq<Piece>) -> bool {
    &&& forall|i: int| 0 <= i < pieces.len() ==> (#[trigger] pieces[i]).is_sound()
    &&& crate::markup::are_apart(pieces)
    &&& forall|open: Seq<Seq<char>>| #[trigger] crate::markup::nested(open, pieces) == Some(open)
}

pub proof fn lemma_content_concat(a: Seq<Piece>, b: Seq<Piece>)
    requires
        is_content(a),
        is_content(b),
        a.len() > 0 && b.len() > 0 ==> !(a.last() is Text && b[0] is Text),
    ensures
        is_content(a + b),
{
    let all = a + b;
    assert forall|i: int| 0 <= i < all.len() implies (#[trigger] all[i]).is_sound() by {
        if i < a.len() {
            assert(all[i] == a[i]);
        } else {
            assert(all[i] == b[i - a.len()]);
        }
    }
    assert forall|i: int, j: int|
        0 <= i < all.len() && j == i + 1 && j < all.len() implies !(#[trigger] all[i] is Text
        && #[trigger] all[j] is Text) by {
        if j < a.len() {
            assert(all[i] == a[i] && all[j] == a[j]);
        } else if i >= a.len() {
            assert(all[i] == b[i - a.len()] && all[j] == b[j - a.len()]);
        } else {
            assert(all[i] == a.last() && all[j] == b[0]);
        }
    }
    assert forall|open: Seq<Seq<char>>| #[trigger]
        crate::markup::nested(open, all) == Some(open) by {
        crate::markup::lemma_nested_concat(open, a, b);
        assert(crate::markup::nested(open, a) == Some(open));
        assert(crate::markup::nested(open, b) == Some(open));
    }
}

/// A sound piece that opens and closes nothing.
proof fn lemma_content_one(piece: Piece)
    requires
        piece.is_sound(),
        !(piece is Open) && !(piece is Close),
    ensures
        is_content(seq![piece]),
{
    assert forall|open: Seq<Seq<char>>| #[trigger]
        crate::markup::nested(open, seq![piece]) == Some(open) by {
        crate::markup::lemma_nested_one(open, piece);
    }
}

pub proof fn lemma_block_is_content(pieces: Seq<Piece>)
    requires
        crate::markup::is_block(pieces),
    ensures
        is_content(pieces),
{
}

/// The piece is no tag of a sheet.
pub open spec fn is_no_sheet(piece: Piece) -> bool {
    match piece {
        Piece::Open { name, .. } => name != "sheet"@,
        Piece::Empty { name, .. } => name != "sheet"@,
        _ => true,
    }
}

/// No piece is a tag of a sheet.
pub open spec fn hold_no_sheet(pieces: Seq<Piece>) -> bool {
    forall|i: int|
        0 <= i < pieces.len() ==> (#[trigger] pieces[i]).is_sound() && is_no_sheet(pieces[i])
}

proof fn lemma_no_sheet_concat(a: Seq<Piece>, b: Seq<Piece>)
    requires
        hold_no_sheet(a),
        hold_no_sheet(b),
    ensures
        hold_no_sheet(a + b),
{
    let all = a + b;
    assert forall|i: int| 0 <= i < all.len() implies (#[trigger] all[i]).is_sound()
        && is_no_sheet(all[i]) by {
        if i < a.len() {
            assert(all[i] == a[i]);
        } else {
            assert(all[i] == b[i - a.len()]);
        }
    }
}

/// Events one behind the other declare sheets one behind the other.
proof fn lemma_declared_concat(a: Seq<Piece>, b: Seq<Piece>, found: Seq<NamedSheet>)
    ensures
        crate::xml_documents::sheets_declared(crate::markup::items(a + b), found)
            == crate::xml_documents::sheets_declared(
            crate::markup::items(b),
            crate::xml_documents::sheets_declared(crate::markup::items(a), found),
        ),
    decreases a.len(),
{
    if a.len() == 0 {
        assert(a + b =~= b);
    } else {
        let rest = a.skip(1);
        assert(crate::markup::items(a + b).skip(1) =~= crate::markup::items(rest + b));
        assert(crate::markup::items(a).skip(1) =~= crate::markup::items(rest));
        let item = a[0].item();
        assert(crate::markup::items(a)[0] == Ok::<XmlItem, Seq<char>>(item));
        let next = if item.opens() && item.is_named("sheet"@) {
            match crate::xml_documents::declared_sheet(item) {
                Some(sheet) => found.push(sheet),
                None => found,
            }
        } else {
            found
        };
        lemma_declared_concat(rest, b, next);
    }
}

/// What one piece declares.
proof fn lemma_declared_one(piece: Piece, found: Seq<NamedSheet>)
    ensures
        crate::xml_documents::sheets_declared(crate::markup::items(seq![piece]), found) == if
        piece.item().opens() && piece.item().is_named("sheet"@) {
            match crate::xml_documents::declared_sheet(piece.item()) {
                Some(sheet) => found.push(sheet),
                None => found,
            }
        } else {
            found
        },
{
    let events = crate::markup::items(seq![piece]);
    assert(events[0] == Ok::<XmlItem, Seq<char>>(piece.item()));
    assert(events.skip(1) =~= Seq::<Result<XmlItem, Seq<char>>>::empty());
    reveal_with_fuel(crate::xml_documents::sheets_declared, 2);
}

/// Pieces that hold no sheet declare none.
proof fn lemma_none_declared(pieces: Seq<Piece>, found: Seq<NamedSheet>)
    requires
        hold_no_sheet(pieces),
    ensures
        crate::xml_documents::sheets_declared(crate::markup::items(pieces), found) == found,
    decreases pieces.len(),
{
    if pieces.len() == 0 {
        assert(crate::markup::items(pieces) =~= Seq::<Result<XmlItem, Seq<char>>>::empty());
    } else {
        let some = pieces.drop_last();
        let last = pieces.last();
        assert forall|i: int| 0 <= i < some.len() implies (#[trigger] some[i]).is_sound()
            && is_no_sheet(some[i]) by {
            assert(some[i] == pieces[i]);
        }
        lemma_none_declared(some, found);
        assert(some + seq![last] =~= pieces);
        lemma_declared_concat(some, seq![last], found);
        assert(pieces[pieces.len() - 1] == last);
        crate::markup::lemma_piece_tag(last, XmlKind::Start, "sheet"@);
        crate::markup::lemma_piece_tag(last, XmlKind::Empty, "sheet"@);
        lemma_declared_one(last, found);
    }
}

/// One more attribute.
proof fn lemma_more(list: Seq<Attr>, key: Seq<char>, value: Seq<char>)
    requires
        crate::markup::are_attributes(list),
        crate::markup::is_key(key),
        crate::markup::is_value(value),
        forall|i: int| 0 <= i < list.len() ==> (#[trigger] list[i]).key != key,
    ensures
        crate::markup::are_attributes(crate::xlsx_parts::with_attribute(list, key, value)),
{
    crate::xlsx_markup::lemma_attribute_more(list, Attr { key, value });
}

proof fn lemma_version_attributes()
    ensures
        crate::markup::are_attributes(crate::xlsx_parts::version_attributes()),
{
    crate::xlsx_markup::lemma_no_attributes();
    reveal_strlit("appName");
    reveal_strlit("lastEdited");
    reveal_strlit("lowestEdited");
    reveal_strlit("rupBuild");
    reveal_strlit("xl");
    reveal_strlit("4");
    reveal_strlit("4505");
    assert("appName"@.len() == 7 && "lastEdited"@.len() == 10 && "lowestEdited"@.len() == 12
        && "rupBuild"@.len() == 8);
    let one = crate::xlsx_parts::with_attribute(Seq::empty(), "appName"@, "xl"@);
    let two = crate::xlsx_parts::with_attribute(one, "lastEdited"@, "4"@);
    let three = crate::xlsx_parts::with_attribute(two, "lowestEdited"@, "4"@);
    lemma_more(Seq::empty(), "appName"@, "xl"@);
    lemma_more(one, "lastEdited"@, "4"@);
    lemma_more(two, "lowestEdited"@, "4"@);
    lemma_more(three, "rupBuild"@, "4505"@);
}

proof fn lemma_properties_attributes()
    ensures
        crate::markup::are_attributes(crate::xlsx_parts::properties_attributes()),
        crate::markup::are_attributes(crate::xlsx_parts::calculation_attributes()),
{
    crate::xlsx_markup::lemma_no_attributes();
    reveal_strlit("defaultThemeVersion");
    reveal_strlit("124226");
    reveal_strlit("calcId");
    reveal_strlit("124519");
    reveal_strlit("fullCalcOnLoad");
    reveal_strlit("1");
    assert("calcId"@.len() != "fullCalcOnLoad"@.len());
    let one = crate::xlsx_parts::with_attribute(Seq::empty(), "calcId"@, "124519"@);
    lemma_more(Seq::empty(), "defaultThemeVersion"@, "124226"@);
    lemma_more(Seq::empty(), "calcId"@, "124519"@);
    lemma_more(one, "fullCalcOnLoad"@, "1"@);
}

proof fn lemma_window_attributes()
    ensures
        crate::markup::are_attributes(crate::xlsx_parts::window_attributes()),
{
    crate::xlsx_markup::lemma_no_attributes();
    reveal_strlit("xWindow");
    reveal_strlit("yWindow");
    reveal_strlit("windowWidth");
    reveal_strlit("windowHeight");
    reveal_strlit("240");
    reveal_strlit("15");
    reveal_strlit("16095");
    reveal_strlit("9660");
    assert("xWindow"@[0] != "yWindow"@[0]);
    assert("xWindow"@.len() == 7 && "yWindow"@.len() == 7 && "windowWidth"@.len() == 11
        && "windowHeight"@.len() == 12);
    let one = crate::xlsx_parts::with_attribute(Seq::empty(), "xWindow"@, "240"@);
    let two = crate::xlsx_parts::with_attribute(one, "yWindow"@, "15"@);
    let three = crate::xlsx_parts::with_attribute(two, "windowWidth"@, "16095"@);
    lemma_more(Seq::empty(), "xWindow"@, "240"@);
    lemma_more(one, "yWindow"@, "15"@);
    lemma_more(two, "windowWidth"@, "16095"@);
    lemma_more(three, "windowHeight"@, "9660"@);
}

proof fn lemma_namespace_attributes()
    ensures
        crate::markup::are_attributes(crate::xlsx_parts::namespace_attributes()),
{
    crate::xlsx_markup::lemma_no_attributes();
    crate::xlsx_frame::lemma_namespaces();
    let main = crate::xlsx_cells::MAIN_NAMESPACE@;
    let one = crate::xlsx_parts::with_attribute(Seq::empty(), "xmlns"@, main);
    lemma_more(Seq::empty(), "xmlns"@, main);
    lemma_more(one, "xmlns:r"@, crate::xlsx_cells::RELATIONSHIP_NAMESPACE@);
}

proof fn lemma_name_attributes(place: int)
    ensures
        crate::markup::are_attributes(crate::xlsx_parts::name_attributes(place)),
{
    crate::xlsx_markup::lemma_no_attributes();
    reveal_strlit("name");
    reveal_strlit("_xlnm._FilterDatabase");
    reveal_strlit("localSheetId");
    reveal_strlit("hidden");
    reveal_strlit("1");
    assert("name"@.len() == 4 && "localSheetId"@.len() == 12 && "hidden"@.len() == 6);
    crate::xlsx_markup::lemma_decimal_is_plain(place);
    let one = crate::xlsx_parts::with_attribute(Seq::empty(), "name"@, "_xlnm._FilterDatabase"@);
    let two = crate::xlsx_parts::with_attribute(
        one,
        "localSheetId"@,
        crate::text::decimal(place),
    );
    lemma_more(Seq::empty(), "name"@, "_xlnm._FilterDatabase"@);
    lemma_more(one, "localSheetId"@, crate::text::decimal(place));
    lemma_more(two, "hidden"@, "1"@);
}

/// A text with entities can be the value of an attribute.
pub proof fn lemma_entities_are_value(s: Seq<char>)
    ensures
        crate::markup::is_value(crate::xml_utils::with_entities(s)),
    decreases s.len(),
{
    if s.len() > 0 {
        let some = crate::xml_utils::with_entities(s.drop_last());
        let last = crate::xml_utils::entity(s.last());
        lemma_entities_are_value(s.drop_last());
        let all = some + last;
        assert forall|i: int| 0 <= i < all.len() implies #[trigger] all[i] != '"' by {
            if i < some.len() {
                assert(all[i] == some[i]);
            } else {
                assert(all[i] == last[i - some.len()]);
            }
        }
    }
}

proof fn lemma_sheet_keys()
    ensures
        crate::markup::is_key("name"@),
        crate::markup::is_key("sheetId"@),
        crate::markup::is_key("state"@),
        crate::markup::is_key("r:id"@),
        crate::markup::is_name("name"@),
        crate::markup::is_name("sheetId"@),
        crate::markup::is_name("state"@),
        crate::markup::is_name("id"@),
        "name"@.len() == 4,
        "sheetId"@.len() == 7,
        "state"@.len() == 5,
        "r:id"@.len() == 4,
        "id"@.len() == 2,
        "name"@ != "r:id"@,
        crate::markup::is_value("hidden"@),
{
    reveal_strlit("name");
    reveal_strlit("sheetId");
    reveal_strlit("state");
    reveal_strlit("r:id");
    reveal_strlit("id");
    reveal_strlit("hidden");
    assert("name"@[0] != "r:id"@[0]);
}

proof fn lemma_id_is_value(n: int)
    ensures
        crate::markup::is_value("rId"@ + crate::text::decimal(n)),
{
    crate::xlsx_markup::lemma_decimal_is_plain(n);
    reveal_strlit("rId");
    let all = "rId"@ + crate::text::decimal(n);
    assert forall|i: int| 0 <= i < all.len() implies #[trigger] all[i] != '"' by {
        if i < 3 {
            assert(all[i] == "rId"@[i]);
        } else {
            assert(all[i] == crate::text::decimal(n)[i - 3]);
        }
    }
}

proof fn lemma_sheet_attributes(n: int, name: Seq<char>, hidden: bool)
    ensures
        crate::markup::are_attributes(crate::xlsx_parts::sheet_attributes(n, name, hidden)),
{
    let value = crate::xml_utils::with_entities(name);
    let number = crate::text::decimal(n);
    lemma_sheet_keys();
    lemma_entities_are_value(name);
    lemma_id_is_value(n);
    crate::xlsx_markup::lemma_decimal_is_plain(n);
    crate::xlsx_markup::lemma_no_attributes();
    let one = crate::xlsx_parts::with_attribute(Seq::empty(), "name"@, value);
    let two = crate::xlsx_parts::with_attribute(one, "sheetId"@, number);
    let three = crate::xlsx_parts::with_attribute(two, "state"@, "hidden"@);
    lemma_more(Seq::empty(), "name"@, value);
    lemma_more(one, "sheetId"@, number);
    if hidden {
        lemma_more(two, "state"@, "hidden"@);
        lemma_more(three, "r:id"@, "rId"@ + number);
    } else {
        lemma_more(two, "r:id"@, "rId"@ + number);
    }
}

/// The key of a relationship id without its prefix.
proof fn lemma_local_id()
    ensures
        crate::xml_events::local_part(vstd::utf8::encode_utf8("r:id"@))
            == vstd::utf8::encode_utf8("id"@),
{
    reveal_strlit("r:id");
    reveal_strlit("id");
    vstd::utf8::is_ascii_chars_encode_utf8("r:id"@);
    vstd::utf8::is_ascii_chars_encode_utf8("id"@);
    let bytes = vstd::utf8::encode_utf8("r:id"@);
    let short = vstd::utf8::encode_utf8("id"@);
    assert("r:id"@[0] as u8 == bytes[0] && "r:id"@[1] as u8 == bytes[1] && "r:id"@[2] as u8
        == bytes[2] && "r:id"@[3] as u8 == bytes[3]);
    assert("id"@[0] as u8 == short[0] && "id"@[1] as u8 == short[1]);
    reveal_with_fuel(crate::xml_events::behind_colon, 3);
    assert(crate::xml_events::behind_colon(bytes, 0) == 2);
    assert(bytes.skip(2) =~= short);
}

/// The text holds no tabs or line breaks.
pub open spec fn is_one_line(text: Seq<char>) -> bool {
    forall|i: int| 0 <= i < text.len() ==> !crate::xml_events::is_break(#[trigger] text[i])
}

/// The text of an attribute that holds a text with entities.
pub proof fn lemma_text_of_value(text: Seq<char>)
    requires
        is_one_line(text),
    ensures
        crate::xml_events::attribute_text(
            vstd::utf8::encode_utf8(crate::xml_utils::with_entities(text)),
        ) == text,
{
    crate::xml_events::lemma_attribute_text(
        vstd::utf8::encode_utf8(crate::xml_utils::with_entities(text)),
        text,
    );
}

/// The text of an attribute that holds a number behind a plain text.
pub proof fn lemma_text_of_number(front: Seq<char>, n: int)
    requires
        n >= 0,
        forall|i: int|
            0 <= i < front.len() ==> crate::markup::is_letter(#[trigger] front[i]),
    ensures
        crate::xml_events::attribute_text(
            vstd::utf8::encode_utf8(front + crate::text::decimal(n)),
        ) == front + crate::text::decimal(n),
{
    let digits = crate::text::decimal(n);
    let all = front + digits;
    crate::text::lemma_digits(n as nat);
    assert forall|i: int| 0 <= i < all.len() implies crate::xml_utils::entity(#[trigger] all[i])
        == seq![all[i]] && !crate::xml_events::is_break(all[i]) by {
        if i < front.len() {
            assert(all[i] == front[i]);
            assert(crate::markup::is_letter(front[i]));
        } else {
            assert(all[i] == digits[i - front.len()]);
            assert(crate::text::is_digit(digits[i - front.len()]));
        }
    }
    crate::xml_utils::lemma_plain_with_entities(all);
    lemma_text_of_value(all);
}

/// What a sheet of a workbook stands for, by its number.
pub open spec fn sheet_back(n: int, name: Seq<char>) -> NamedSheet {
    NamedSheet {
        name,
        sheet_id: crate::text::decimal(n),
        r_id: "rId"@ + crate::text::decimal(n),
    }
}

/// A sheet of a workbook is declared.
proof fn lemma_sheet_declared(n: int, name: Seq<char>, hidden: bool)
    requires
        n >= 0,
        is_one_line(name),
    ensures
        ({
            let attributes = crate::xlsx_parts::sheet_attributes(n, name, hidden);
            crate::xml_documents::declared_sheet(
                crate::xlsx_parts::empty_tag("sheet"@, attributes).item(),
            ) == Some(sheet_back(n, name))
        }),
{
    let attributes = crate::xlsx_parts::sheet_attributes(n, name, hidden);
    let list = crate::markup::attribute_items(attributes);
    let value = crate::xml_utils::with_entities(name);
    let number = crate::text::decimal(n);
    let id = "rId"@ + number;
    lemma_sheet_keys();
    lemma_local_id();
    crate::markup::lemma_local_name("name"@);
    crate::markup::lemma_local_name("sheetId"@);
    crate::markup::lemma_local_name("state"@);
    crate::markup::lemma_same_bytes("id"@, "name"@);
    crate::markup::lemma_same_bytes("id"@, "sheetId"@);
    crate::markup::lemma_same_bytes("state"@, "name"@);
    crate::markup::lemma_same_bytes("state"@, "sheetId"@);
    crate::markup::lemma_same_bytes("sheetId"@, "name"@);
    crate::markup::lemma_same_bytes("sheetId"@, "id"@);
    crate::markup::lemma_same_bytes("name"@, "id"@);
    crate::markup::lemma_same_bytes("name"@, "sheetId"@);
    lemma_text_of_value(name);
    assert(Seq::<char>::empty() + number =~= number);
    lemma_text_of_number(Seq::empty(), n);
    reveal_strlit("rId");
    lemma_text_of_number("rId"@, n);
    let last = list.len() - 1;
    assert(list[last] == Some(
        XmlAttribute {
            key: vstd::utf8::encode_utf8("r:id"@),
            value: vstd::utf8::encode_utf8(id),
        },
    ));
    assert(list[0] == Some(
        XmlAttribute {
            key: vstd::utf8::encode_utf8("name"@),
            value: vstd::utf8::encode_utf8(value),
        },
    ));
    assert(list[1] == Some(
        XmlAttribute {
            key: vstd::utf8::encode_utf8("sheetId"@),
            value: vstd::utf8::encode_utf8(number),
        },
    ));
    if hidden {
        assert(list[2] == Some(
            XmlAttribute {
                key: vstd::utf8::encode_utf8("state"@),
                value: vstd::utf8::encode_utf8("hidden"@),
            },
        ));
    }
    reveal_with_fuel(crate::xml_documents::last_local_attribute, 5);
}

proof fn lemma_tag_names()
    ensures
        crate::markup::is_name("workbook"@),
        crate::markup::is_name("fileVersion"@),
        crate::markup::is_name("workbookPr"@),
        crate::markup::is_name("bookViews"@),
        crate::markup::is_name("workbookView"@),
        crate::markup::is_name("sheets"@),
        crate::markup::is_name("sheet"@),
        crate::markup::is_name("definedNames"@),
        crate::markup::is_name("definedName"@),
        crate::markup::is_name("calcPr"@),
        "workbook"@ != "sheet"@,
        "fileVersion"@ != "sheet"@,
        "workbookPr"@ != "sheet"@,
        "bookViews"@ != "sheet"@,
        "workbookView"@ != "sheet"@,
        "sheets"@ != "sheet"@,
        "definedNames"@ != "sheet"@,
        "definedName"@ != "sheet"@,
        "calcPr"@ != "sheet"@,
{
    reveal_strlit("workbook");
    reveal_strlit("fileVersion");
    reveal_strlit("workbookPr");
    reveal_strlit("bookViews");
    reveal_strlit("workbookView");
    reveal_strlit("sheets");
    reveal_strlit("sheet");
    reveal_strlit("definedNames");
    reveal_strlit("definedName");
    reveal_strlit("calcPr");
    assert("sheet"@.len() == 5 && "workbook"@.len() == 8 && "fileVersion"@.len() == 11
        && "workbookPr"@.len() == 10 && "bookViews"@.len() == 9 && "workbookView"@.len() == 12
        && "sheets"@.len() == 6 && "definedNames"@.len() == 12 && "definedName"@.len() == 11
        && "calcPr"@.len() == 6);
}

/// An element holds no sheet where its content holds none.
proof fn lemma_no_sheet_element(name: Seq<char>, attributes: Seq<Attr>, inner: Seq<Piece>)
    requires
        crate::markup::is_name(name),
        crate::markup::are_attributes(attributes),
        name != "sheet"@,
        hold_no_sheet(inner),
    ensures
        hold_no_sheet(crate::markup::element(name, attributes, inner)),
{
    let open = seq![Piece::Open { name, attributes }];
    let close = seq![Piece::Close(name)];
    lemma_no_sheet_concat(open, inner);
    lemma_no_sheet_concat(open + inner, close);
}

proof fn lemma_line_break()
    ensures
        is_content(seq![crate::xlsx_parts::line_break()]),
        hold_no_sheet(seq![crate::xlsx_parts::line_break()]),
        crate::xlsx_parts::line_break() is Text,
{
    reveal_strlit("\n");
    assert(crate::xlsx_parts::line_break().is_sound());
    lemma_content_one(crate::xlsx_parts::line_break());
}

/// An empty tag as content.
proof fn lemma_empty_tag(name: Seq<char>, attributes: Seq<Attr>)
    requires
        crate::markup::is_name(name),
        crate::markup::are_attributes(attributes),
        name != "sheet"@,
    ensures
        is_content(seq![crate::xlsx_parts::empty_tag(name, attributes)]),
        crate::markup::is_block(seq![crate::xlsx_parts::empty_tag(name, attributes)]),
        hold_no_sheet(seq![crate::xlsx_parts::empty_tag(name, attributes)]),
{
    let piece = crate::xlsx_parts::empty_tag(name, attributes);
    lemma_content_one(piece);
    crate::markup::lemma_block_one(piece);
}

proof fn lemma_head()
    ensures
        is_content(crate::xlsx_parts::book_head()),
        hold_no_sheet(crate::xlsx_parts::book_head()),
{
    let nl = seq![crate::xlsx_parts::line_break()];
    let version = seq![
        crate::xlsx_parts::empty_tag(
            "fileVersion"@,
            crate::xlsx_parts::version_attributes(),
        ),
    ];
    let properties = seq![
        crate::xlsx_parts::empty_tag(
            "workbookPr"@,
            crate::xlsx_parts::properties_attributes(),
        ),
    ];
    let window = seq![
        crate::xlsx_parts::empty_tag("workbookView"@, crate::xlsx_parts::window_attributes()),
    ];
    let views = crate::markup::element("bookViews"@, Seq::empty(), window);
    lemma_tag_names();
    lemma_version_attributes();
    lemma_properties_attributes();
    lemma_window_attributes();
    crate::xlsx_markup::lemma_no_attributes();
    lemma_line_break();
    lemma_empty_tag("fileVersion"@, crate::xlsx_parts::version_attributes());
    lemma_empty_tag("workbookPr"@, crate::xlsx_parts::properties_attributes());
    lemma_empty_tag("workbookView"@, crate::xlsx_parts::window_attributes());
    crate::markup::lemma_block_element("bookViews"@, Seq::empty(), window);
    lemma_block_is_content(views);
    lemma_no_sheet_element("bookViews"@, Seq::empty(), window);
    lemma_content_concat(nl, version);
    lemma_content_concat(nl + version, nl);
    lemma_content_concat(nl + version + nl, properties);
    lemma_content_concat(nl + version + nl + properties, nl);
    lemma_content_concat(nl + version + nl + properties + nl, views);
    lemma_content_concat(nl + version + nl + properties + nl + views, nl);
    lemma_no_sheet_concat(nl, version);
    lemma_no_sheet_concat(nl + version, nl);
    lemma_no_sheet_concat(nl + version + nl, properties);
    lemma_no_sheet_concat(nl + version + nl + properties, nl);
    lemma_no_sheet_concat(nl + version + nl + properties + nl, views);
    lemma_no_sheet_concat(nl + version + nl + properties + nl + views, nl);
}

proof fn lemma_names(sheets: Seq<Sheet>, n: nat)
    requires
        n <= sheets.len(),
    ensures
        crate::markup::is_block(crate::xlsx_parts::name_pieces(sheets, n)),
        hold_no_sheet(crate::xlsx_parts::name_pieces(sheets, n)),
    decreases n,
{
    crate::markup::lemma_block_none();
    if n > 0 {
        let m = (n - 1) as nat;
        let some = crate::xlsx_parts::name_pieces(sheets, m);
        lemma_names(sheets, m);
        match sheets[n - 1].filter {
            Some(range) => {
                let clean = crate::xlsx_parts::without_controls(range);
                let pieces = crate::xlsx_string_laws::text_pieces(clean);
                let attributes = crate::xlsx_parts::name_attributes(n - 1);
                let here = crate::markup::element("definedName"@, attributes, pieces);
                lemma_tag_names();
                lemma_name_attributes(n - 1);
                crate::xlsx_string_laws::lemma_text_pieces(clean);
                crate::xlsx_string_laws::lemma_text_element("definedName"@, attributes, pieces);
                assert(hold_no_sheet(pieces));
                lemma_no_sheet_element("definedName"@, attributes, pieces);
                crate::markup::lemma_block_concat(some, here);
                lemma_no_sheet_concat(some, here);
            },
            None => {
                assert(some + Seq::<Piece>::empty() =~= some);
            },
        }
    }
}

proof fn lemma_tail(sheets: Seq<Sheet>, autofilter_is_on: bool)
    ensures
        crate::markup::is_block(crate::xlsx_parts::book_tail(sheets, autofilter_is_on)),
        hold_no_sheet(crate::xlsx_parts::book_tail(sheets, autofilter_is_on)),
{
    let attributes = crate::xlsx_parts::calculation_attributes();
    let calc = seq![crate::xlsx_parts::empty_tag("calcPr"@, attributes)];
    lemma_tag_names();
    lemma_properties_attributes();
    crate::xlsx_markup::lemma_no_attributes();
    lemma_empty_tag("calcPr"@, attributes);
    if autofilter_is_on {
        let inner = crate::xlsx_parts::name_pieces(sheets, sheets.len());
        let names = crate::markup::element("definedNames"@, Seq::empty(), inner);
        lemma_names(sheets, sheets.len());
        crate::markup::lemma_block_element("definedNames"@, Seq::empty(), inner);
        lemma_no_sheet_element("definedNames"@, Seq::empty(), inner);
        crate::markup::lemma_block_concat(names, calc);
        lemma_no_sheet_concat(names, calc);
    } else {
        assert(Seq::<Piece>::empty() + calc =~= calc);
    }
}

/// The names of the sheets hold no tabs or line breaks.
pub open spec fn are_one_line(sheets: Seq<Sheet>) -> bool {
    forall|i: int| 0 <= i < sheets.len() ==> is_one_line((#[trigger] sheets[i]).name)
}

/// The first `n` sheets as they read back.
pub open spec fn sheets_back(sheets: Seq<Sheet>, n: nat) -> Seq<NamedSheet> {
    Seq::new(n, |i: int| sheet_back(i + 1, sheets[i].name))
}

proof fn lemma_sheets(sheets: Seq<Sheet>, n: nat, found: Seq<NamedSheet>)
    requires
        n <= sheets.len(),
        are_one_line(sheets),
    ensures
        crate::markup::is_block(crate::xlsx_parts::sheet_pieces(sheets, n)),
        crate::xml_documents::sheets_declared(
            crate::markup::items(crate::xlsx_parts::sheet_pieces(sheets, n)),
            found,
        ) == found + sheets_back(sheets, n),
    decreases n,
{
    if n == 0 {
        crate::markup::lemma_block_none();
        assert(crate::markup::items(Seq::<Piece>::empty()) =~= Seq::<
            Result<XmlItem, Seq<char>>,
        >::empty());
        assert(found + sheets_back(sheets, 0) =~= found);
    } else {
        let m = (n - 1) as nat;
        let sheet = sheets[n - 1];
        let attributes = crate::xlsx_parts::sheet_attributes(n as int, sheet.name, sheet.hidden);
        let piece = crate::xlsx_parts::empty_tag("sheet"@, attributes);
        let some = crate::xlsx_parts::sheet_pieces(sheets, m);
        lemma_sheets(sheets, m, found);
        lemma_tag_names();
        lemma_sheet_attributes(n as int, sheet.name, sheet.hidden);
        assert(piece.is_sound());
        crate::markup::lemma_block_one(piece);
        crate::markup::lemma_block_concat(some, seq![piece]);
        assert(some.push(piece) =~= some + seq![piece]);
        lemma_declared_concat(some, seq![piece], found);
        crate::markup::lemma_piece_tag(piece, XmlKind::Empty, "sheet"@);
        lemma_sheet_declared(n as int, sheet.name, sheet.hidden);
        lemma_declared_one(piece, found + sheets_back(sheets, m));
        assert((found + sheets_back(sheets, m)).push(sheet_back(n as int, sheet.name)) =~= found
            + sheets_back(sheets, n));
    }
}

/// The workbook part that the writer makes is plain markup, which declares the
/// sheets of the workbook in their order, each under its name and with its number
/// as its id. With this
/// [`load_workbook`](crate::xlsx_reader::XlsxReader::load_workbook) finds the sheets
/// that were written. A tab or a line break in a name would read back as a space.
pub proof fn law_sheets_read_back(sheets: Seq<Sheet>, autofilter_is_on: bool)
    requires
        are_one_line(sheets),
    ensures
        ({
            let pieces = crate::xlsx_parts::workbook_pieces(sheets, autofilter_is_on);
            &&& crate::markup::is_document(pieces)
            &&& crate::markup::written(pieces) == crate::xlsx_parts::workbook_xml(
                sheets,
                autofilter_is_on,
            )
            &&& crate::xml_documents::sheets_declared(crate::markup::items(pieces), Seq::empty())
                == sheets_back(sheets, sheets.len())
        }),
{
    let none = Seq::<NamedSheet>::empty();
    let declaration = crate::xlsx_frame::declaration_piece();
    let nl = seq![crate::xlsx_parts::line_break()];
    let first = seq![declaration] + nl;
    let head = crate::xlsx_parts::book_head();
    let list = crate::xlsx_parts::sheet_pieces(sheets, sheets.len());
    let inner = crate::markup::element("sheets"@, Seq::empty(), list);
    let tail = crate::xlsx_parts::book_tail(sheets, autofilter_is_on);
    let attributes = crate::xlsx_parts::namespace_attributes();
    let body = head + inner + tail;
    let book = crate::markup::element("workbook"@, attributes, body);
    lemma_tag_names();
    lemma_namespace_attributes();
    crate::xlsx_markup::lemma_no_attributes();
    lemma_line_break();
    crate::xlsx_frame::lemma_declaration();
    lemma_content_one(declaration);
    lemma_content_concat(seq![declaration], nl);
    lemma_head();
    lemma_sheets(sheets, sheets.len(), none);
    crate::markup::lemma_block_element("sheets"@, Seq::empty(), list);
    lemma_block_is_content(inner);
    lemma_tail(sheets, autofilter_is_on);
    lemma_block_is_content(tail);
    lemma_content_concat(head, inner);
    lemma_content_concat(head + inner, tail);
    crate::markup::lemma_block_element("workbook"@, attributes, body);
    lemma_block_is_content(book);
    lemma_content_concat(first, book);
    let pieces = first + book;
    assert(pieces[0] == declaration);
    assert(crate::markup::nested(Seq::empty(), pieces) == Some(Seq::<Seq<char>>::empty()));
    lemma_book_declared(sheets, first, attributes, head, list, tail);
}

/// What stands around the sheets declares none.
proof fn lemma_book_declared(
    sheets: Seq<Sheet>,
    first: Seq<Piece>,
    attributes: Seq<Attr>,
    head: Seq<Piece>,
    list: Seq<Piece>,
    tail: Seq<Piece>,
)
    requires
        are_one_line(sheets),
        crate::markup::are_attributes(attributes),
        hold_no_sheet(first),
        hold_no_sheet(head),
        hold_no_sheet(tail),
        list == crate::xlsx_parts::sheet_pieces(sheets, sheets.len()),
    ensures
        ({
            let inner = crate::markup::element("sheets"@, Seq::empty(), list);
            let book = crate::markup::element("workbook"@, attributes, head + inner + tail);
            crate::xml_documents::sheets_declared(
                crate::markup::items(first + book),
                Seq::empty(),
            ) == sheets_back(sheets, sheets.len())
        }),
{
    let none = Seq::<NamedSheet>::empty();
    let all = sheets_back(sheets, sheets.len());
    let open_book = seq![Piece::Open { name: "workbook"@, attributes }];
    let close_book = seq![Piece::Close("workbook"@)];
    let open_list = seq![Piece::Open { name: "sheets"@, attributes: Seq::empty() }];
    let close_list = seq![Piece::Close("sheets"@)];
    let inner = open_list + list + close_list;
    lemma_tag_names();
    crate::xlsx_markup::lemma_no_attributes();
    lemma_no_sheet_concat(first, open_book);
    lemma_no_sheet_concat(first + open_book, head);
    lemma_no_sheet_concat(first + open_book + head, open_list);
    lemma_no_sheet_concat(close_list, tail);
    lemma_no_sheet_concat(close_list + tail, close_book);
    let before = first + open_book + head + open_list;
    let after = close_list + tail + close_book;
    lemma_none_declared(before, none);
    lemma_sheets(sheets, sheets.len(), none);
    assert(none + all =~= all);
    lemma_none_declared(after, all);
    lemma_declared_concat(before, list, none);
    lemma_declared_concat(before + list, after, none);
    lemma_book_pieces(first, open_book, head, open_list, list, close_list, tail, close_book);
}

proof fn lemma_book_pieces(
    a: Seq<Piece>,
    b: Seq<Piece>,
    c: Seq<Piece>,
    d: Seq<Piece>,
    e: Seq<Piece>,
    f: Seq<Piece>,
    g: Seq<Piece>,
    h: Seq<Piece>,
)
    ensures
        a + (b + (c + (d + e + f) + g) + h) == (a + b + c + d) + e + (f + g + h),
{
    assert(a + (b + (c + (d + e + f) + g) + h) =~= (a + b + c + d) + e + (f + g + h));
}

} // verus!
