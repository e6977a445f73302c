//! What stands around the rows of a worksheet that the XLSX writer makes, as plain
//! markup.

use vstd::prelude::*;
use crate::formats::Cell;
use crate::markup::{Attr, Piece};
use crate::number::NumberTable;
use crate::xlsx_read_laws::XlsxPage;
use crate::xlsx_writer::{SheetOptions, XlsxBook};

verus! {

/// The piece is no row tag.
pub open spec fn is_no_row(piece: Piece) -> bool {
    match piece {
        Piece::Open { name, .. } => name != "row"@,
        Piece::Empty { name, .. } => name != "row"@,
        Piece::Close(name) => name != "row"@,
        _ => true,
    }
}

pub proof fn lemma_quiet_concat(a: Seq<Piece>, b: Seq<Piece>)
    requires
        crate::xlsx_read_laws::is_quiet(a),
        crate::xlsx_read_laws::is_quiet(b),
    ensures
        crate::xlsx_read_laws::is_quiet(a + b),
{
    let all = a + b;
    assert forall|i: int| 0 <= i < all.len() implies (#[trigger] all[i]).is_sound() && is_no_row(
        all[i],
    ) by {
        if i < a.len() {
            assert(all[i] == a[i]);
            assert(a[i].is_sound() && is_no_row(a[i]));
        } else {
            assert(all[i] == b[i - a.len()]);
            assert(b[i - a.len()].is_sound() && is_no_row(b[i - a.len()]));
        }
    }
}

pub proof fn lemma_quiet_one(piece: Piece)
    requires
        piece.is_sound(),
        is_no_row(piece),
    ensures
        crate::xlsx_read_laws::is_quiet(seq![piece]),
{
}

proof fn lemma_quiet_element(name: Seq<char>, attributes: Seq<Attr>, inner: Seq<Piece>)
    requires
        crate::markup::is_name(name),
        crate::markup::are_attributes(attributes),
        name != "row"@,
        crate::xlsx_read_laws::is_quiet(inner),
    ensures
        crate::xlsx_read_laws::is_quiet(crate::markup::element(name, attributes, inner)),
{
    lemma_quiet_one(Piece::Open { name, attributes });
    lemma_quiet_one(Piece::Close(name));
    lemma_quiet_concat(seq![Piece::Open { name, attributes }], inner);
    lemma_quiet_concat(
        seq![Piece::Open { name, attributes }] + inner,
        seq![Piece::Close(name)],
    );
}

/// A frame: pieces that close what they open and hold no row tags.
pub open spec fn is_frame(pieces: Seq<Piece>) -> bool {
    crate::markup::is_block(pieces) && crate::xlsx_read_laws::is_quiet(pieces)
}

proof fn lemma_frame_concat(a: Seq<Piece>, b: Seq<Piece>)
    requires
        is_frame(a),
        is_frame(b),
    ensures
        is_frame(a + b),
        crate::markup::written(a + b) == crate::markup::written(a) + crate::markup::written(b),
{
    crate::markup::lemma_block_concat(a, b);
    lemma_quiet_concat(a, b);
    crate::markup::lemma_written_concat(a, b);
}

proof fn lemma_frame_one(piece: Piece)
    requires
        piece.is_sound(),
        piece is Declaration || piece is Empty,
        is_no_row(piece),
    ensures
        is_frame(seq![piece]),
        crate::markup::written(seq![piece]) == piece.text(),
{
    crate::markup::lemma_block_one(piece);
    lemma_quiet_one(piece);
    crate::markup::lemma_written_one(piece);
}

proof fn lemma_frame_element(name: Seq<char>, attributes: Seq<Attr>, inner: Seq<Piece>)
    requires
        crate::markup::is_name(name),
        crate::markup::are_attributes(attributes),
        name != "row"@,
        is_frame(inner),
    ensures
        is_frame(crate::markup::element(name, attributes, inner)),
        crate::markup::written(crate::markup::element(name, attributes, inner)) == (
        Piece::Open { name, attributes }).text() + crate::markup::written(inner) + Piece::Close(
            name,
        ).text(),
{
    crate::markup::lemma_block_element(name, attributes, inner);
    lemma_quiet_element(name, attributes, inner);
    crate::markup::lemma_element_text(name, attributes, inner);
}

proof fn lemma_range_is_value(total_rows: int, column_count: int)
    requires
        column_count > 0,
    ensures
        crate::markup::is_value(crate::xlsx_cells::used_range(total_rows, column_count)),
{
    crate::xml_utils::law_column_round_trip(column_count as nat);
    crate::xlsx_markup::lemma_decimal_is_plain(total_rows);
    reveal_strlit("A1:");
    let letters = crate::xml_utils::column_letters(column_count as nat);
    let rows = crate::text::decimal(total_rows);
    let all = crate::xlsx_cells::used_range(total_rows, column_count);
    assert forall|i: int| 0 <= i < all.len() implies #[trigger] all[i] != '"' by {
        if i < 3 {
            assert(all[i] == "A1:"@[i]);
        } else if i < 3 + letters.len() {
            assert(all[i] == letters[i - 3]);
            assert(crate::xml_utils::is_capital(letters[i - 3]));
        } else {
            assert(all[i] == rows[i - 3 - letters.len()]);
        }
    }
}

proof fn lemma_width_is_value(n: nat)
    ensures
        crate::markup::is_value(crate::writer_helpers::hundredths_text(n)),
{
    crate::text::lemma_digits(n / 100);
    let s = crate::writer_helpers::hundredths_text(n);
    let whole = crate::text::digits(n / 100);
    assert forall|i: int| 0 <= i < s.len() implies #[trigger] s[i] != '"' by {
        if i < whole.len() {
            assert(s[i] == whole[i]);
            assert(crate::text::is_digit(whole[i]));
        }
    }
}

/// The declaration of a part.
pub open spec fn declaration_piece() -> Piece {
    Piece::Declaration(crate::xlsx_cells::DECLARATION@)
}

/// The attributes of a worksheet.
pub open spec fn worksheet_attributes() -> Seq<Attr> {
    Seq::empty().push(
        Attr { key: "xmlns"@, value: crate::xlsx_cells::MAIN_NAMESPACE@ },
    ).push(Attr { key: "xmlns:r"@, value: crate::xlsx_cells::RELATIONSHIP_NAMESPACE@ })
}

pub proof fn lemma_declaration()
    ensures
        declaration_piece().is_sound(),
        declaration_piece().text() == "<?"@ + crate::xlsx_cells::DECLARATION@ + "?>"@,
{
    reveal_strlit("xml version=\"1.0\" encoding=\"UTF-8\" standalone=\"yes\"");
    reveal_strlit("xml ");
    let s = crate::xlsx_cells::DECLARATION@;
    assert(s.take(4) =~= "xml "@);
}

/// The opening tag of a worksheet.
proof fn lemma_worksheet_tag()
    ensures
        ({
            let open = Piece::Open { name: "worksheet"@, attributes: worksheet_attributes() };
            &&& open.is_sound()
            &&& open.text() == "<worksheet xmlns=\""@ + crate::xlsx_cells::MAIN_NAMESPACE@
                + "\" xmlns:r=\""@ + crate::xlsx_cells::RELATIONSHIP_NAMESPACE@ + "\">"@
        }),
        "worksheet"@ != "row"@,
{
    let a = Attr { key: "xmlns"@, value: crate::xlsx_cells::MAIN_NAMESPACE@ };
    let b = Attr { key: "xmlns:r"@, value: crate::xlsx_cells::RELATIONSHIP_NAMESPACE@ };
    reveal_strlit("worksheet");
    reveal_strlit("row");
    assert("worksheet"@.len() != "row"@.len());
    lemma_namespaces();
    crate::xlsx_markup::lemma_one_attribute(a);
    crate::xlsx_markup::lemma_attribute_more(Seq::empty().push(a), b);
    assert("<worksheet xmlns=\""@ =~= "<"@ + "worksheet"@ + " "@ + "xmlns"@ + "=\""@) by {
        reveal_strlit("<worksheet xmlns=\"");
        reveal_strlit("<");
        reveal_strlit(" ");
        reveal_strlit("xmlns");
        reveal_strlit("=\"");
    }
    assert("\" xmlns:r=\""@ =~= "\""@ + " "@ + "xmlns:r"@ + "=\""@) by {
        reveal_strlit("\" xmlns:r=\"");
        reveal_strlit("\"");
        reveal_strlit(" ");
        reveal_strlit("xmlns:r");
        reveal_strlit("=\"");
    }
    assert("\">"@ =~= "\""@ + ">"@) by {
        reveal_strlit("\">");
        reveal_strlit("\"");
        reveal_strlit(">");
    }
    let open = Piece::Open { name: "worksheet"@, attributes: worksheet_attributes() };
    lemma_two_attribute_text(
        "<"@,
        "worksheet"@,
        " "@,
        "xmlns"@,
        "=\""@,
        a.value,
        "\""@,
        "xmlns:r"@,
        b.value,
        ">"@,
    );
}

/// A tag with two attributes, joined one way or the other.
proof fn lemma_two_attribute_text(
    lt: Seq<char>,
    name: Seq<char>,
    space: Seq<char>,
    key1: Seq<char>,
    is: Seq<char>,
    value1: Seq<char>,
    quote: Seq<char>,
    key2: Seq<char>,
    value2: Seq<char>,
    gt: Seq<char>,
)
    ensures
        lt + (name + ((space + key1 + is + value1 + quote) + (space + key2 + is + value2 + quote)))
            + gt == (lt + name + space + key1 + is) + value1 + (quote + space + key2 + is) + value2
            + (quote + gt),
{
    assert(lt + (name + ((space + key1 + is + value1 + quote) + (space + key2 + is + value2
        + quote))) + gt =~= (lt + name + space + key1 + is) + value1 + (quote + space + key2 + is)
        + value2 + (quote + gt));
}

pub proof fn lemma_namespaces()
    ensures
        crate::markup::is_key("xmlns"@),
        crate::markup::is_key("xmlns:r"@),
        "xmlns"@ != "xmlns:r"@,
        crate::markup::is_value(crate::xlsx_cells::MAIN_NAMESPACE@),
        crate::markup::is_value(crate::xlsx_cells::RELATIONSHIP_NAMESPACE@),
{
    reveal_strlit("xmlns");
    reveal_strlit("xmlns:r");
    assert("xmlns"@.len() != "xmlns:r"@.len());
    reveal_strlit("http://schemas.openxmlformats.org/spreadsheetml/2006/main");
    reveal_strlit("http://schemas.openxmlformats.org/officeDocument/2006/relationships");
}

/// The piece with the range of a sheet: its dimension or its filter.
pub open spec fn range_piece(name: Seq<char>, range: Seq<char>) -> Piece {
    Piece::Empty {
        name,
        attributes: Seq::empty().push(Attr { key: "ref"@, value: range }),
        spaced: false,
    }
}

/// The range of a sheet.
pub open spec fn dimension_range(total_rows: int, columns: int) -> Seq<char> {
    if total_rows > 0 && columns > 0 {
        crate::xlsx_cells::used_range(total_rows, columns)
    } else {
        "A1"@
    }
}

pub proof fn lemma_range_piece(name: Seq<char>, range: Seq<char>)
    requires
        crate::markup::is_name(name),
        crate::markup::is_value(range),
    ensures
        range_piece(name, range).is_sound(),
        range_piece(name, range).text() == "<"@ + name + " ref=\""@ + range + "\"/>"@,
{
    let a = Attr { key: "ref"@, value: range };
    reveal_strlit("ref");
    crate::xlsx_markup::lemma_one_attribute(a);
    assert(" ref=\""@ =~= " "@ + "ref"@ + "=\""@) by {
        reveal_strlit(" ref=\"");
        reveal_strlit(" ");
        reveal_strlit("=\"");
    }
    assert("\"/>"@ =~= "\""@ + "/>"@) by {
        reveal_strlit("\"/>");
        reveal_strlit("\"");
        reveal_strlit("/>");
    }
    assert("<"@ + (name + (" "@ + "ref"@ + "=\""@ + range + "\""@) + Seq::<char>::empty()) + "/>"@
        =~= "<"@ + name + (" "@ + "ref"@ + "=\""@) + range + ("\""@ + "/>"@));
}

proof fn lemma_dimension(total_rows: int, columns: int)
    ensures
        is_frame(seq![range_piece("dimension"@, dimension_range(total_rows, columns))]),
        crate::markup::written(
            seq![range_piece("dimension"@, dimension_range(total_rows, columns))],
        ) == crate::xlsx_cells::dimension(total_rows, columns),
{
    let range = dimension_range(total_rows, columns);
    reveal_strlit("dimension");
    reveal_strlit("row");
    reveal_strlit("A1");
    assert("dimension"@.len() != "row"@.len());
    if total_rows > 0 && columns > 0 {
        lemma_range_is_value(total_rows, columns);
    }
    lemma_range_piece("dimension"@, range);
    lemma_frame_one(range_piece("dimension"@, range));
    assert("<dimension ref=\""@ =~= "<"@ + "dimension"@ + " ref=\""@) by {
        reveal_strlit("<dimension ref=\"");
        reveal_strlit("<");
        reveal_strlit(" ref=\"");
    }
    assert("<dimension ref=\"A1\"/>"@ =~= "<"@ + "dimension"@ + " ref=\""@ + "A1"@ + "\"/>"@) by {
        reveal_strlit("<dimension ref=\"A1\"/>");
        reveal_strlit("<");
        reveal_strlit(" ref=\"");
        reveal_strlit("\"/>");
    }
}

/// The filter of a sheet, nothing where it has none.
pub open spec fn filter_pieces(filtered: bool, total_rows: int, columns: int) -> Seq<Piece> {
    if filtered {
        seq![range_piece("autoFilter"@, crate::xlsx_cells::used_range(total_rows, columns))]
    } else {
        Seq::empty()
    }
}

proof fn lemma_filter(filtered: bool, total_rows: int, columns: int)
    requires
        filtered ==> columns > 0,
    ensures
        is_frame(filter_pieces(filtered, total_rows, columns)),
        crate::markup::written(filter_pieces(filtered, total_rows, columns)) == if filtered {
            crate::xlsx_cells::auto_filter(total_rows, columns)
        } else {
            Seq::empty()
        },
{
    crate::markup::lemma_block_none();
    if filtered {
        let range = crate::xlsx_cells::used_range(total_rows, columns);
        reveal_strlit("autoFilter");
        reveal_strlit("row");
        assert("autoFilter"@.len() != "row"@.len());
        lemma_range_is_value(total_rows, columns);
        lemma_range_piece("autoFilter"@, range);
        lemma_frame_one(range_piece("autoFilter"@, range));
        assert("<autoFilter ref=\""@ =~= "<"@ + "autoFilter"@ + " ref=\""@) by {
            reveal_strlit("<autoFilter ref=\"");
            reveal_strlit("<");
            reveal_strlit(" ref=\"");
        }
    }
}

/// The attributes of the view of a sheet.
pub open spec fn view_attributes(is_first: bool) -> Seq<Attr> {
    (if is_first {
        Seq::<Attr>::empty().push(Attr { key: "tabSelected"@, value: "1"@ })
    } else {
        Seq::empty()
    }).push(Attr { key: "workbookViewId"@, value: "0"@ })
}

proof fn lemma_view_attributes(is_first: bool)
    ensures
        crate::markup::are_attributes(view_attributes(is_first)),
        crate::markup::attributes_text(view_attributes(is_first)) == (if is_first {
            " tabSelected=\"1\""@
        } else {
            Seq::empty()
        }) + " workbookViewId=\"0\""@,
{
    let a = Attr { key: "tabSelected"@, value: "1"@ };
    let b = Attr { key: "workbookViewId"@, value: "0"@ };
    reveal_strlit("tabSelected");
    reveal_strlit("workbookViewId");
    reveal_strlit("1");
    reveal_strlit("0");
    assert("tabSelected"@.len() != "workbookViewId"@.len());
    crate::xlsx_markup::lemma_no_attributes();
    crate::xlsx_markup::lemma_one_attribute(a);
    if is_first {
        crate::xlsx_markup::lemma_attribute_more(Seq::empty().push(a), b);
    } else {
        crate::xlsx_markup::lemma_attribute_more(Seq::empty(), b);
    }
    assert(" tabSelected=\"1\""@ =~= " "@ + "tabSelected"@ + "=\""@ + "1"@ + "\""@) by {
        reveal_strlit(" tabSelected=\"1\"");
        reveal_strlit(" ");
        reveal_strlit("=\"");
        reveal_strlit("\"");
    }
    assert(" workbookViewId=\"0\""@ =~= " "@ + "workbookViewId"@ + "=\""@ + "0"@ + "\""@) by {
        reveal_strlit(" workbookViewId=\"0\"");
        reveal_strlit(" ");
        reveal_strlit("=\"");
        reveal_strlit("\"");
    }
}

/// The pane that keeps the header row in view.
pub open spec fn pane_piece() -> Piece {
    Piece::Empty {
        name: "pane"@,
        attributes: Seq::empty().push(Attr { key: "ySplit"@, value: "1"@ }).push(
            Attr { key: "topLeftCell"@, value: "A2"@ },
        ).push(Attr { key: "activePane"@, value: "bottomLeft"@ }).push(
            Attr { key: "state"@, value: "frozen"@ },
        ),
        spaced: true,
    }
}

proof fn lemma_pane_words()
    ensures
        crate::markup::is_name("pane"@),
        "pane"@ != "row"@,
        crate::markup::is_key("ySplit"@),
        crate::markup::is_key("topLeftCell"@),
        crate::markup::is_key("activePane"@),
        crate::markup::is_key("state"@),
        "ySplit"@ != "topLeftCell"@,
        "ySplit"@ != "activePane"@,
        "ySplit"@ != "state"@,
        "topLeftCell"@ != "activePane"@,
        "topLeftCell"@ != "state"@,
        "activePane"@ != "state"@,
        crate::markup::is_value("1"@),
        crate::markup::is_value("A2"@),
        crate::markup::is_value("bottomLeft"@),
        crate::markup::is_value("frozen"@),
{
    reveal_strlit("pane");
    reveal_strlit("row");
    reveal_strlit("ySplit");
    reveal_strlit("topLeftCell");
    reveal_strlit("activePane");
    reveal_strlit("state");
    reveal_strlit("1");
    reveal_strlit("A2");
    reveal_strlit("bottomLeft");
    reveal_strlit("frozen");
    assert("pane"@.len() == 4 && "row"@.len() == 3);
    assert("ySplit"@.len() == 6 && "topLeftCell"@.len() == 11 && "activePane"@.len() == 10
        && "state"@.len() == 5);
}

proof fn lemma_pane()
    ensures
        is_frame(seq![pane_piece()]),
        crate::markup::written(seq![pane_piece()]) == "<"@ + "pane"@
            + " ySplit=\"1\" topLeftCell=\"A2\""@
            + " activePane=\"bottomLeft\" state=\"frozen\" />"@,
{
    lemma_pane_words();
    lemma_pane_attributes();
    lemma_frame_one(pane_piece());
    lemma_pane_front();
    lemma_pane_end();
    lemma_pane_text(
        "<"@,
        "pane"@,
        crate::markup::attribute_text(Attr { key: "ySplit"@, value: "1"@ }),
        crate::markup::attribute_text(Attr { key: "topLeftCell"@, value: "A2"@ }),
        crate::markup::attribute_text(Attr { key: "activePane"@, value: "bottomLeft"@ }),
        crate::markup::attribute_text(Attr { key: "state"@, value: "frozen"@ }),
        " "@,
        "/>"@,
    );
}

proof fn lemma_pane_text(
    lt: Seq<char>,
    name: Seq<char>,
    a: Seq<char>,
    b: Seq<char>,
    c: Seq<char>,
    d: Seq<char>,
    space: Seq<char>,
    end: Seq<char>,
)
    ensures
        lt + (name + (a + b + c + d) + space) + end == lt + name + (a + b) + (c + d + space + end),
{
    assert(lt + (name + (a + b + c + d) + space) + end =~= lt + name + (a + b) + (c + d + space
        + end));
}

proof fn lemma_pane_attributes()
    ensures
        pane_piece().is_sound(),
        crate::markup::attributes_text(pane_piece()->Empty_attributes)
            == crate::markup::attribute_text(Attr { key: "ySplit"@, value: "1"@ })
            + crate::markup::attribute_text(Attr { key: "topLeftCell"@, value: "A2"@ })
            + crate::markup::attribute_text(Attr { key: "activePane"@, value: "bottomLeft"@ })
            + crate::markup::attribute_text(Attr { key: "state"@, value: "frozen"@ }),
{
    lemma_pane_words();
    let a = Attr { key: "ySplit"@, value: "1"@ };
    let b = Attr { key: "topLeftCell"@, value: "A2"@ };
    let c = Attr { key: "activePane"@, value: "bottomLeft"@ };
    let d = Attr { key: "state"@, value: "frozen"@ };
    let l1 = Seq::empty().push(a);
    let l2 = l1.push(b);
    let l3 = l2.push(c);
    crate::xlsx_markup::lemma_one_attribute(a);
    crate::xlsx_markup::lemma_attribute_more(l1, b);
    crate::xlsx_markup::lemma_attribute_more(l2, c);
    crate::xlsx_markup::lemma_attribute_more(l3, d);
}

proof fn lemma_pane_front()
    ensures
        crate::markup::attribute_text(Attr { key: "ySplit"@, value: "1"@ })
            + crate::markup::attribute_text(Attr { key: "topLeftCell"@, value: "A2"@ })
            == " ySplit=\"1\" topLeftCell=\"A2\""@,
{
    reveal_strlit(" ySplit=\"1\" topLeftCell=\"A2\"");
    reveal_strlit("ySplit");
    reveal_strlit("topLeftCell");
    reveal_strlit("1");
    reveal_strlit("A2");
    reveal_strlit(" ");
    reveal_strlit("=\"");
    reveal_strlit("\"");
    assert(crate::markup::attribute_text(Attr { key: "ySplit"@, value: "1"@ })
        + crate::markup::attribute_text(Attr { key: "topLeftCell"@, value: "A2"@ })
        =~= " ySplit=\"1\" topLeftCell=\"A2\""@);
}

proof fn lemma_pane_end()
    ensures
        crate::markup::attribute_text(Attr { key: "activePane"@, value: "bottomLeft"@ })
            + crate::markup::attribute_text(Attr { key: "state"@, value: "frozen"@ }) + " "@
            + "/>"@ == " activePane=\"bottomLeft\" state=\"frozen\" />"@,
{
    reveal_strlit(" activePane=\"bottomLeft\" state=\"frozen\" />");
    reveal_strlit("activePane");
    reveal_strlit("bottomLeft");
    reveal_strlit("state");
    reveal_strlit("frozen");
    reveal_strlit(" ");
    reveal_strlit("=\"");
    reveal_strlit("\"");
    reveal_strlit("/>");
    assert(crate::markup::attribute_text(Attr { key: "activePane"@, value: "bottomLeft"@ })
        + crate::markup::attribute_text(Attr { key: "state"@, value: "frozen"@ }) + " "@ + "/>"@
        =~= " activePane=\"bottomLeft\" state=\"frozen\" />"@);
}

/// The selection below the header row.
pub open spec fn selection_piece() -> Piece {
    Piece::Empty {
        name: "selection"@,
        attributes: Seq::empty().push(Attr { key: "pane"@, value: "bottomLeft"@ }),
        spaced: true,
    }
}

proof fn lemma_selection()
    ensures
        is_frame(seq![selection_piece()]),
        crate::markup::written(seq![selection_piece()]) == "<selection pane=\"bottomLeft\" />"@,
{
    let a = Attr { key: "pane"@, value: "bottomLeft"@ };
    reveal_strlit("selection");
    reveal_strlit("row");
    reveal_strlit("pane");
    reveal_strlit("bottomLeft");
    assert("selection"@.len() != "row"@.len());
    crate::xlsx_markup::lemma_one_attribute(a);
    lemma_frame_one(selection_piece());
    reveal_strlit("<selection pane=\"bottomLeft\" />");
    reveal_strlit("<");
    reveal_strlit(" ");
    reveal_strlit("=\"");
    reveal_strlit("\"");
    reveal_strlit("/>");
    assert(selection_piece().text() =~= "<selection pane=\"bottomLeft\" />"@);
}

/// The row height that is the default.
pub open spec fn format_piece() -> Piece {
    Piece::Empty {
        name: "sheetFormatPr"@,
        attributes: Seq::empty().push(Attr { key: "defaultRowHeight"@, value: "15"@ }),
        spaced: false,
    }
}

proof fn lemma_format()
    ensures
        is_frame(seq![format_piece()]),
        crate::markup::written(seq![format_piece()]) == "<sheetFormatPr defaultRowHeight=\"15\"/>"@,
{
    let a = Attr { key: "defaultRowHeight"@, value: "15"@ };
    reveal_strlit("sheetFormatPr");
    reveal_strlit("row");
    reveal_strlit("defaultRowHeight");
    reveal_strlit("15");
    assert("sheetFormatPr"@.len() != "row"@.len());
    crate::xlsx_markup::lemma_one_attribute(a);
    lemma_frame_one(format_piece());
    reveal_strlit("<sheetFormatPr defaultRowHeight=\"15\"/>");
    reveal_strlit("<");
    reveal_strlit(" ");
    reveal_strlit("=\"");
    reveal_strlit("\"");
    reveal_strlit("/>");
    assert(format_piece().text() =~= "<sheetFormatPr defaultRowHeight=\"15\"/>"@);
}

/// The view of a sheet.
pub open spec fn view_piece(has_headers: bool, is_first: bool) -> Seq<Piece> {
    if has_headers {
        crate::markup::element(
            "sheetView"@,
            view_attributes(is_first),
            seq![pane_piece()] + seq![selection_piece()],
        )
    } else {
        seq![
            Piece::Empty {
                name: "sheetView"@,
                attributes: view_attributes(is_first),
                spaced: false,
            },
        ]
    }
}

proof fn lemma_view(has_headers: bool, is_first: bool)
    ensures
        is_frame(view_piece(has_headers, is_first)),
        crate::markup::written(view_piece(has_headers, is_first)) == "<"@ + "sheetView"@
            + crate::markup::attributes_text(view_attributes(is_first)) + (if has_headers {
            "><pane ySplit=\"1\" topLeftCell=\"A2\""@
                + " activePane=\"bottomLeft\" state=\"frozen\" />"@
                + "<selection pane=\"bottomLeft\" />"@ + "</sheetView>"@
        } else {
            "/>"@
        }),
{
    let attributes = view_attributes(is_first);
    let text = crate::markup::attributes_text(attributes);
    lemma_view_attributes(is_first);
    reveal_strlit("sheetView");
    reveal_strlit("row");
    assert("sheetView"@.len() != "row"@.len());
    if has_headers {
        lemma_pane();
        lemma_selection();
        let inner = seq![pane_piece()] + seq![selection_piece()];
        lemma_frame_concat(seq![pane_piece()], seq![selection_piece()]);
        lemma_frame_element("sheetView"@, attributes, inner);
        assert("><pane ySplit=\"1\" topLeftCell=\"A2\""@ =~= ">"@ + "<"@ + "pane"@
            + " ySplit=\"1\" topLeftCell=\"A2\""@) by {
            reveal_strlit("><pane ySplit=\"1\" topLeftCell=\"A2\"");
            reveal_strlit(">");
            reveal_strlit("<");
            reveal_strlit("pane");
            reveal_strlit(" ySplit=\"1\" topLeftCell=\"A2\"");
        }
        assert("</sheetView>"@ =~= "</"@ + "sheetView"@ + ">"@) by {
            reveal_strlit("</sheetView>");
            reveal_strlit("</");
            reveal_strlit(">");
        }
        lemma_view_text(
            "<"@,
            "sheetView"@,
            text,
            ">"@,
            "pane"@,
            " ySplit=\"1\" topLeftCell=\"A2\""@,
            " activePane=\"bottomLeft\" state=\"frozen\" />"@,
            "<selection pane=\"bottomLeft\" />"@,
            "</sheetView>"@,
        );
    } else {
        let piece = Piece::Empty { name: "sheetView"@, attributes, spaced: false };
        lemma_frame_one(piece);
        assert(piece.text() =~= "<"@ + "sheetView"@ + text + "/>"@);
    }
}

proof fn lemma_view_text(
    lt: Seq<char>,
    view: Seq<char>,
    text: Seq<char>,
    gt: Seq<char>,
    pane: Seq<char>,
    a: Seq<char>,
    b: Seq<char>,
    c: Seq<char>,
    d: Seq<char>,
)
    ensures
        lt + (view + text) + gt + ((lt + pane + a + b) + c) + d == lt + view + text + ((gt + lt
            + pane + a) + b + c + d),
{
    assert(lt + (view + text) + gt + ((lt + pane + a + b) + c) + d =~= lt + view + text + ((gt + lt
        + pane + a) + b + c + d));
}

/// The views of a sheet and its default row height.
pub open spec fn view_pieces(has_headers: bool, is_first: bool) -> Seq<Piece> {
    crate::markup::element("sheetViews"@, Seq::empty(), view_piece(has_headers, is_first)) + seq![
        format_piece(),
    ]
}

proof fn lemma_views(has_headers: bool, is_first: bool)
    ensures
        is_frame(view_pieces(has_headers, is_first)),
        crate::markup::written(view_pieces(has_headers, is_first))
            == crate::xlsx_cells::sheet_views(has_headers, is_first),
{
    let inner = view_piece(has_headers, is_first);
    crate::xlsx_markup::lemma_no_attributes();
    reveal_strlit("sheetViews");
    reveal_strlit("row");
    assert("sheetViews"@.len() != "row"@.len());
    lemma_view(has_headers, is_first);
    lemma_view_attributes(is_first);
    lemma_format();
    lemma_frame_element("sheetViews"@, Seq::empty(), inner);
    lemma_frame_concat(
        crate::markup::element("sheetViews"@, Seq::empty(), inner),
        seq![format_piece()],
    );
    assert("<sheetViews><sheetView"@ =~= "<"@ + "sheetViews"@ + ">"@ + ("<"@ + "sheetView"@)) by {
        reveal_strlit("<sheetViews><sheetView");
        reveal_strlit("<");
        reveal_strlit("sheetView");
        reveal_strlit(">");
    }
    assert("</sheetViews>"@ =~= "</"@ + "sheetViews"@ + ">"@) by {
        reveal_strlit("</sheetViews>");
        reveal_strlit("</");
        reveal_strlit(">");
    }
    let selected = if is_first {
        " tabSelected=\"1\""@
    } else {
        Seq::empty()
    };
    let rest = if has_headers {
        "><pane ySplit=\"1\" topLeftCell=\"A2\""@
            + " activePane=\"bottomLeft\" state=\"frozen\" />"@
            + "<selection pane=\"bottomLeft\" />"@ + "</sheetView>"@
    } else {
        "/>"@
    };
    lemma_views_text(
        "<"@,
        "sheetViews"@,
        ">"@,
        "sheetView"@,
        selected,
        " workbookViewId=\"0\""@,
        rest,
        "</sheetViews>"@,
        "<sheetFormatPr defaultRowHeight=\"15\"/>"@,
    );
}

proof fn lemma_views_text(
    lt: Seq<char>,
    views: Seq<char>,
    gt: Seq<char>,
    view: Seq<char>,
    a: Seq<char>,
    b: Seq<char>,
    rest: Seq<char>,
    close: Seq<char>,
    format: Seq<char>,
)
    ensures
        lt + (views + Seq::<char>::empty()) + gt + (lt + view + (a + b) + rest) + close + format == (
        lt + views + gt + (lt + view)) + a + b + rest + close + format,
{
    assert(lt + (views + Seq::<char>::empty()) + gt + (lt + view + (a + b) + rest) + close + format
        =~= (lt + views + gt + (lt + view)) + a + b + rest + close + format);
}

/// A column.
pub open spec fn column_piece(n: int, width: int) -> Piece {
    Piece::Empty {
        name: "col"@,
        attributes: Seq::empty().push(Attr { key: "min"@, value: crate::text::decimal(n) }).push(
            Attr { key: "max"@, value: crate::text::decimal(n) },
        ).push(
            Attr {
                key: "width"@,
                value: crate::writer_helpers::hundredths_text(
                    crate::writer_helpers::written_width(width, false) as nat,
                ),
            },
        ).push(Attr { key: "bestFit"@, value: "1"@ }).push(
            Attr { key: "customWidth"@, value: "1"@ },
        ),
        spaced: true,
    }
}

proof fn lemma_column_words()
    ensures
        crate::markup::is_name("col"@),
        "col"@ != "row"@,
        crate::markup::is_key("min"@),
        crate::markup::is_key("max"@),
        crate::markup::is_key("width"@),
        crate::markup::is_key("bestFit"@),
        crate::markup::is_key("customWidth"@),
        "min"@ != "max"@,
        "min"@ != "width"@,
        "min"@ != "bestFit"@,
        "min"@ != "customWidth"@,
        "max"@ != "width"@,
        "max"@ != "bestFit"@,
        "max"@ != "customWidth"@,
        "width"@ != "bestFit"@,
        "width"@ != "customWidth"@,
        "bestFit"@ != "customWidth"@,
        crate::markup::is_value("1"@),
{
    reveal_strlit("col");
    reveal_strlit("row");
    reveal_strlit("min");
    reveal_strlit("max");
    reveal_strlit("width");
    reveal_strlit("bestFit");
    reveal_strlit("customWidth");
    reveal_strlit("1");
    assert("col"@[0] != "row"@[0]);
    assert("min"@[1] != "max"@[1]);
    assert("min"@.len() == 3 && "max"@.len() == 3 && "width"@.len() == 5 && "bestFit"@.len() == 7
        && "customWidth"@.len() == 11);
}

proof fn lemma_column_literals()
    ensures
        "<col min=\""@ == "<"@ + "col"@ + " "@ + "min"@ + "=\""@,
        "\" max=\""@ == "\""@ + " "@ + "max"@ + "=\""@,
        "\" width=\""@ == "\""@ + " "@ + "width"@ + "=\""@,
        "\" bestFit=\"1\" customWidth=\"1\" />"@ == "\""@ + (" "@ + "bestFit"@ + "=\""@ + "1"@
            + "\""@) + (" "@ + "customWidth"@ + "=\""@ + "1"@ + "\""@) + " "@ + "/>"@,
{
    reveal_strlit("<col min=\"");
    reveal_strlit("\" max=\"");
    reveal_strlit("\" width=\"");
    reveal_strlit("\" bestFit=\"1\" customWidth=\"1\" />");
    reveal_strlit("<");
    reveal_strlit("col");
    reveal_strlit(" ");
    reveal_strlit("min");
    reveal_strlit("max");
    reveal_strlit("width");
    reveal_strlit("bestFit");
    reveal_strlit("customWidth");
    reveal_strlit("1");
    reveal_strlit("=\"");
    reveal_strlit("\"");
    reveal_strlit("/>");
    assert("<col min=\""@ =~= "<"@ + "col"@ + " "@ + "min"@ + "=\""@);
    assert("\" max=\""@ =~= "\""@ + " "@ + "max"@ + "=\""@);
    assert("\" width=\""@ =~= "\""@ + " "@ + "width"@ + "=\""@);
    assert("\" bestFit=\"1\" customWidth=\"1\" />"@ =~= "\""@ + (" "@ + "bestFit"@ + "=\""@ + "1"@
        + "\""@) + (" "@ + "customWidth"@ + "=\""@ + "1"@ + "\""@) + " "@ + "/>"@);
}

proof fn lemma_column_attributes(n: int, width: int)
    ensures
        column_piece(n, width).is_sound(),
        ({
            let w = crate::writer_helpers::hundredths_text(
                crate::writer_helpers::written_width(width, false) as nat,
            );
            crate::markup::attributes_text(column_piece(n, width)->Empty_attributes)
                == crate::markup::attribute_text(
                Attr { key: "min"@, value: crate::text::decimal(n) },
            ) + crate::markup::attribute_text(
                Attr { key: "max"@, value: crate::text::decimal(n) },
            ) + crate::markup::attribute_text(Attr { key: "width"@, value: w })
                + crate::markup::attribute_text(Attr { key: "bestFit"@, value: "1"@ })
                + crate::markup::attribute_text(Attr { key: "customWidth"@, value: "1"@ })
        }),
{
    let w = crate::writer_helpers::hundredths_text(
        crate::writer_helpers::written_width(width, false) as nat,
    );
    lemma_column_words();
    crate::xlsx_markup::lemma_decimal_is_plain(n);
    lemma_width_is_value(crate::writer_helpers::written_width(width, false) as nat);
    let a = Attr { key: "min"@, value: crate::text::decimal(n) };
    let b = Attr { key: "max"@, value: crate::text::decimal(n) };
    let c = Attr { key: "width"@, value: w };
    let d = Attr { key: "bestFit"@, value: "1"@ };
    let e = Attr { key: "customWidth"@, value: "1"@ };
    let l1 = Seq::empty().push(a);
    let l2 = l1.push(b);
    let l3 = l2.push(c);
    let l4 = l3.push(d);
    crate::xlsx_markup::lemma_one_attribute(a);
    crate::xlsx_markup::lemma_attribute_more(l1, b);
    crate::xlsx_markup::lemma_attribute_more(l2, c);
    crate::xlsx_markup::lemma_attribute_more(l3, d);
    crate::xlsx_markup::lemma_attribute_more(l4, e);
}

proof fn lemma_column(n: int, width: int)
    ensures
        is_frame(seq![column_piece(n, width)]),
        crate::markup::written(seq![column_piece(n, width)]) == crate::xlsx_cells::column_element(
            n,
            width,
        ),
{
    let w = crate::writer_helpers::hundredths_text(
        crate::writer_helpers::written_width(width, false) as nat,
    );
    lemma_column_words();
    lemma_column_attributes(n, width);
    lemma_frame_one(column_piece(n, width));
    lemma_column_literals();
    lemma_column_text(
        "<"@,
        "col"@,
        " "@,
        "min"@,
        "=\""@,
        crate::text::decimal(n),
        "\""@,
        "max"@,
        "width"@,
        w,
        " "@ + "bestFit"@ + "=\""@ + "1"@ + "\""@,
        " "@ + "customWidth"@ + "=\""@ + "1"@ + "\""@,
        "/>"@,
    );
}

proof fn lemma_column_text(
    lt: Seq<char>,
    col: Seq<char>,
    space: Seq<char>,
    k1: Seq<char>,
    is: Seq<char>,
    n: Seq<char>,
    quote: Seq<char>,
    k2: Seq<char>,
    k3: Seq<char>,
    w: Seq<char>,
    fit: Seq<char>,
    custom: Seq<char>,
    end: Seq<char>,
)
    ensures
        lt + (col + ((space + k1 + is + n + quote) + (space + k2 + is + n + quote) + (space + k3
            + is + w + quote) + fit + custom) + space) + end == (lt + col + space + k1 + is) + n + (
        quote + space + k2 + is) + n + (quote + space + k3 + is) + w + (quote + fit + custom + space
            + end),
{
    assert(lt + (col + ((space + k1 + is + n + quote) + (space + k2 + is + n + quote) + (space + k3
        + is + w + quote) + fit + custom) + space) + end =~= (lt + col + space + k1 + is) + n + (
    quote + space + k2 + is) + n + (quote + space + k3 + is) + w + (quote + fit + custom + space
        + end));
}

/// The first `n` columns.
pub open spec fn column_pieces(widths: Seq<int>, n: nat) -> Seq<Piece>
    decreases n,
{
    if n == 0 {
        Seq::empty()
    } else {
        column_pieces(widths, (n - 1) as nat) + seq![column_piece(n as int, widths[n - 1])]
    }
}

proof fn lemma_columns(widths: Seq<int>, n: nat)
    ensures
        is_frame(column_pieces(widths, n)),
        crate::markup::written(column_pieces(widths, n)) == crate::xlsx_cells::column_elements(
            widths,
            n,
        ),
    decreases n,
{
    if n == 0 {
        crate::markup::lemma_block_none();
    } else {
        let m = (n - 1) as nat;
        lemma_columns(widths, m);
        lemma_column(n as int, widths[n - 1]);
        lemma_frame_concat(
            column_pieces(widths, m),
            seq![column_piece(n as int, widths[n - 1])],
        );
    }
}

/// What stands between the opening tag of a worksheet and that of its rows.
pub open spec fn head_pieces(
    total_rows: int,
    columns: int,
    widths: Seq<int>,
    has_headers: bool,
    is_first: bool,
) -> Seq<Piece> {
    seq![range_piece("dimension"@, dimension_range(total_rows, columns))] + view_pieces(
        has_headers,
        is_first,
    ) + crate::markup::element("cols"@, Seq::empty(), column_pieces(widths, widths.len()))
}

/// What stands in front of the rows of a worksheet.
pub open spec fn front_pieces(
    total_rows: int,
    columns: int,
    widths: Seq<int>,
    has_headers: bool,
    is_first: bool,
) -> Seq<Piece> {
    seq![declaration_piece()] + seq![
        Piece::Open { name: "worksheet"@, attributes: worksheet_attributes() },
    ] + head_pieces(total_rows, columns, widths, has_headers, is_first) + seq![
        Piece::Open { name: "sheetData"@, attributes: Seq::empty() },
    ]
}

/// What stands behind the rows of a worksheet.
pub open spec fn back_pieces(filtered: bool, total_rows: int, columns: int) -> Seq<Piece> {
    seq![Piece::Close("sheetData"@)] + filter_pieces(filtered, total_rows, columns) + seq![
        Piece::Close("worksheet"@),
    ]
}

proof fn lemma_head(
    total_rows: int,
    columns: int,
    widths: Seq<int>,
    has_headers: bool,
    is_first: bool,
)
    ensures
        is_frame(head_pieces(total_rows, columns, widths, has_headers, is_first)),
        crate::markup::written(head_pieces(total_rows, columns, widths, has_headers, is_first))
            == crate::xlsx_cells::dimension(total_rows, columns) + crate::xlsx_cells::sheet_views(
            has_headers,
            is_first,
        ) + ("<cols>"@ + crate::xlsx_cells::column_elements(widths, widths.len()) + "</cols>"@),
{
    let dimension = seq![range_piece("dimension"@, dimension_range(total_rows, columns))];
    let views = view_pieces(has_headers, is_first);
    let inner = column_pieces(widths, widths.len());
    lemma_dimension(total_rows, columns);
    lemma_views(has_headers, is_first);
    lemma_columns(widths, widths.len());
    crate::xlsx_markup::lemma_no_attributes();
    reveal_strlit("cols");
    reveal_strlit("row");
    assert("cols"@.len() != "row"@.len());
    lemma_frame_element("cols"@, Seq::empty(), inner);
    assert("<cols>"@ =~= "<"@ + ("cols"@ + Seq::<char>::empty()) + ">"@) by {
        reveal_strlit("<cols>");
        reveal_strlit("<");
        reveal_strlit(">");
    }
    assert("</cols>"@ =~= "</"@ + "cols"@ + ">"@) by {
        reveal_strlit("</cols>");
        reveal_strlit("</");
        reveal_strlit(">");
    }
    lemma_frame_concat(dimension, views);
    lemma_frame_concat(
        dimension + views,
        crate::markup::element("cols"@, Seq::empty(), inner),
    );
}

pub proof fn lemma_rows_tag()
    ensures
        crate::markup::is_name("sheetData"@),
        "sheetData"@ != "row"@,
        (Piece::Open { name: "sheetData"@, attributes: Seq::empty() }).text() == "<sheetData>"@,
        Piece::Close("sheetData"@).text() == "</sheetData>"@,
        crate::markup::is_name("worksheet"@),
        "worksheet"@ != "row"@,
        Piece::Close("worksheet"@).text() == "</worksheet>"@,
        "</cols><sheetData>"@ == "</cols>"@ + "<sheetData>"@,
{
    crate::xlsx_markup::lemma_no_attributes();
    reveal_strlit("sheetData");
    reveal_strlit("worksheet");
    reveal_strlit("row");
    reveal_strlit("<sheetData>");
    reveal_strlit("</sheetData>");
    reveal_strlit("</worksheet>");
    reveal_strlit("</cols>");
    reveal_strlit("</cols><sheetData>");
    reveal_strlit("<");
    reveal_strlit("</");
    reveal_strlit(">");
    assert("sheetData"@.len() != "row"@.len());
    assert("worksheet"@.len() != "row"@.len());
    assert("<"@ + ("sheetData"@ + Seq::<char>::empty()) + ">"@ =~= "<sheetData>"@);
    assert("</"@ + "sheetData"@ + ">"@ =~= "</sheetData>"@);
    assert("</"@ + "worksheet"@ + ">"@ =~= "</worksheet>"@);
    assert("</cols><sheetData>"@ =~= "</cols>"@ + "<sheetData>"@);
}

proof fn lemma_front(
    total_rows: int,
    columns: int,
    widths: Seq<int>,
    has_headers: bool,
    is_first: bool,
)
    ensures
        crate::xlsx_read_laws::is_quiet(
            front_pieces(total_rows, columns, widths, has_headers, is_first),
        ),
        crate::markup::written(front_pieces(total_rows, columns, widths, has_headers, is_first))
            == crate::xlsx_writer::sheet_start(total_rows, columns)
            + crate::xlsx_cells::sheet_head(widths, has_headers, is_first),
{
    let declaration = seq![declaration_piece()];
    let open = Piece::Open { name: "worksheet"@, attributes: worksheet_attributes() };
    let head = head_pieces(total_rows, columns, widths, has_headers, is_first);
    let rows = Piece::Open { name: "sheetData"@, attributes: Seq::empty() };
    lemma_declaration();
    lemma_frame_one(declaration_piece());
    lemma_worksheet_tag();
    lemma_head(total_rows, columns, widths, has_headers, is_first);
    lemma_rows_tag();
    crate::xlsx_markup::lemma_no_attributes();
    lemma_quiet_one(open);
    lemma_quiet_one(rows);
    lemma_quiet_concat(declaration, seq![open]);
    lemma_quiet_concat(declaration + seq![open], head);
    lemma_quiet_concat(declaration + seq![open] + head, seq![rows]);
    crate::markup::lemma_written_concat(declaration, seq![open]);
    crate::markup::lemma_written_concat(declaration + seq![open], head);
    crate::markup::lemma_written_concat(declaration + seq![open] + head, seq![rows]);
    crate::markup::lemma_written_one(open);
    crate::markup::lemma_written_one(rows);
    lemma_front_text(
        "<?"@ + crate::xlsx_cells::DECLARATION@ + "?>"@,
        "<worksheet xmlns=\""@,
        crate::xlsx_cells::MAIN_NAMESPACE@,
        "\" xmlns:r=\""@,
        crate::xlsx_cells::RELATIONSHIP_NAMESPACE@,
        "\">"@,
        crate::xlsx_cells::dimension(total_rows, columns),
        crate::xlsx_cells::sheet_views(has_headers, is_first),
        "<cols>"@,
        crate::xlsx_cells::column_elements(widths, widths.len()),
        "</cols>"@,
        "<sheetData>"@,
    );
}

proof fn lemma_front_text(
    a: Seq<char>,
    b: Seq<char>,
    c: Seq<char>,
    d: Seq<char>,
    e: Seq<char>,
    f: Seq<char>,
    g: Seq<char>,
    h: Seq<char>,
    i: Seq<char>,
    j: Seq<char>,
    k: Seq<char>,
    l: Seq<char>,
)
    ensures
        a + (b + c + d + e + f) + (g + h + (i + j + k)) + l == (a + b + c + d + e + f) + g + (h + i
            + j + (k + l)),
{
    assert(a + (b + c + d + e + f) + (g + h + (i + j + k)) + l =~= (a + b + c + d + e + f) + g + (h
        + i + j + (k + l)));
}

proof fn lemma_back(filtered: bool, total_rows: int, columns: int)
    requires
        filtered ==> columns > 0,
    ensures
        crate::xlsx_read_laws::is_quiet(back_pieces(filtered, total_rows, columns)),
        crate::markup::written(back_pieces(filtered, total_rows, columns))
            == crate::xlsx_writer::sheet_end(filtered, total_rows, columns),
{
    let first = Piece::Close("sheetData"@);
    let filter = filter_pieces(filtered, total_rows, columns);
    let last = Piece::Close("worksheet"@);
    lemma_rows_tag();
    lemma_filter(filtered, total_rows, columns);
    lemma_quiet_one(first);
    lemma_quiet_one(last);
    lemma_quiet_concat(seq![first], filter);
    lemma_quiet_concat(seq![first] + filter, seq![last]);
    crate::markup::lemma_written_concat(seq![first], filter);
    crate::markup::lemma_written_concat(seq![first] + filter, seq![last]);
    crate::markup::lemma_written_one(first);
    crate::markup::lemma_written_one(last);
}

/// What stands around rows makes a document of them.
proof fn lemma_document(
    total_rows: int,
    columns: int,
    widths: Seq<int>,
    has_headers: bool,
    is_first: bool,
    filtered: bool,
    lines: Seq<Piece>,
)
    requires
        filtered ==> columns > 0,
        crate::markup::is_block(lines),
    ensures
        crate::markup::is_document(
            front_pieces(total_rows, columns, widths, has_headers, is_first) + lines + back_pieces(
                filtered,
                total_rows,
                columns,
            ),
        ),
{
    let declaration = seq![declaration_piece()];
    let head = head_pieces(total_rows, columns, widths, has_headers, is_first);
    let filter = filter_pieces(filtered, total_rows, columns);
    let rows = crate::markup::element("sheetData"@, Seq::empty(), lines);
    let inner = head + rows + filter;
    let sheet = crate::markup::element("worksheet"@, worksheet_attributes(), inner);
    lemma_declaration();
    lemma_frame_one(declaration_piece());
    lemma_worksheet_tag();
    lemma_rows_tag();
    lemma_head(total_rows, columns, widths, has_headers, is_first);
    lemma_filter(filtered, total_rows, columns);
    crate::xlsx_markup::lemma_no_attributes();
    crate::markup::lemma_block_element("sheetData"@, Seq::empty(), lines);
    crate::markup::lemma_block_concat(head, rows);
    crate::markup::lemma_block_concat(head + rows, filter);
    crate::markup::lemma_block_element("worksheet"@, worksheet_attributes(), inner);
    crate::markup::lemma_block_concat(declaration, sheet);
    crate::markup::lemma_block_document(declaration + sheet);
    lemma_document_pieces(
        declaration,
        seq![Piece::Open { name: "worksheet"@, attributes: worksheet_attributes() }],
        head,
        seq![Piece::Open { name: "sheetData"@, attributes: Seq::empty() }],
        lines,
        seq![Piece::Close("sheetData"@)],
        filter,
        seq![Piece::Close("worksheet"@)],
    );
}

proof fn lemma_document_pieces(
    a: Seq<Piece>,
    b: Seq<Piece>,
    c: Seq<Piece>,
    d: Seq<Piece>,
    e: Seq<Piece>,
    f: Seq<Piece>,
    g: Seq<Piece>,
    h: Seq<Piece>,
)
    ensures
        (a + b + c + d) + e + (f + g + h) == a + (b + (c + (d + e + f) + g) + h),
{
    assert((a + b + c + d) + e + (f + g + h) =~= a + (b + (c + (d + e + f) + g) + h));
}

/// What stands around lines of the given text, as pieces and as text.
proof fn lemma_part(
    total_rows: int,
    columns: int,
    widths: Seq<int>,
    has_headers: bool,
    is_first: bool,
    filtered: bool,
    lines: Seq<Piece>,
    header: Seq<char>,
    body: Seq<char>,
)
    requires
        filtered ==> columns > 0,
        crate::markup::is_block(lines),
        crate::markup::written(lines) == header + body,
    ensures
        ({
            let front = front_pieces(total_rows, columns, widths, has_headers, is_first);
            let back = back_pieces(filtered, total_rows, columns);
            &&& crate::markup::is_document(front + lines + back)
            &&& crate::xlsx_read_laws::is_quiet(front)
            &&& crate::xlsx_read_laws::is_quiet(back)
            &&& crate::markup::written(front + lines + back) == crate::xlsx_writer::sheet_start(
                total_rows,
                columns,
            ) + crate::xlsx_cells::sheet_head(widths, has_headers, is_first) + header + body
                + crate::xlsx_writer::sheet_end(filtered, total_rows, columns)
        }),
{
    let front = front_pieces(total_rows, columns, widths, has_headers, is_first);
    let back = back_pieces(filtered, total_rows, columns);
    let start = crate::xlsx_writer::sheet_start(total_rows, columns);
    let head = crate::xlsx_cells::sheet_head(widths, has_headers, is_first);
    let end = crate::xlsx_writer::sheet_end(filtered, total_rows, columns);
    lemma_front(total_rows, columns, widths, has_headers, is_first);
    lemma_back(filtered, total_rows, columns);
    lemma_document(total_rows, columns, widths, has_headers, is_first, filtered, lines);
    crate::markup::lemma_written_concat(front, lines);
    crate::markup::lemma_written_concat(front + lines, back);
    lemma_part_text(start + head, header, body, end);
}

proof fn lemma_part_text(a: Seq<char>, b: Seq<char>, c: Seq<char>, d: Seq<char>)
    ensures
        a + (b + c) + d == a + b + c + d,
{
    assert(a + (b + c) + d =~= a + b + c + d);
}

/// The part that the writer makes of a sheet written at once is plain markup: the
/// lines of the sheet between pieces that say nothing of rows. With this
/// [`law_written_sheet_reads_back`](crate::xlsx_read_laws::law_written_sheet_reads_back)
/// speaks of the writer's own output, and
/// [`begin_sheet`](crate::xlsx_reader::XlsxReader::begin_sheet) of the reader that
/// is given the part.
pub proof fn law_written_part(
    book: XlsxBook,
    columns: int,
    sheet: Seq<Seq<Cell>>,
    headers: Option<Seq<Seq<char>>>,
    do_autofilter: bool,
    numbers: NumberTable,
)
    requires
        crate::xlsx_markup::prints_plainly(numbers),
    ensures
        ({
            let page = XlsxPage {
                tables: book.tables,
                headers,
                sheet,
                numbers,
                streaming: false,
            };
            let after = book.with_written_sheet(columns, sheet, headers, do_autofilter, numbers);
            let total_rows = page.lines();
            let filtered = do_autofilter && headers is Some && columns > 0 && total_rows > 0;
            let front = front_pieces(
                total_rows,
                columns,
                crate::xlsx_writer::fitted_widths(columns, headers, Some(sheet), numbers),
                headers is Some,
                book.sheets.len() == 1,
            );
            let back = back_pieces(filtered, total_rows, columns);
            let pieces = front + page.pieces() + back;
            &&& after.entries.last().bytes == vstd::utf8::encode_utf8(
                crate::markup::written(pieces),
            )
            &&& crate::markup::is_document(pieces)
            &&& crate::xlsx_read_laws::is_quiet(front)
            &&& crate::xlsx_read_laws::is_quiet(back)
            &&& after.tables == page.rows(sheet.len() as int).tables
        }),
{
    let page = XlsxPage { tables: book.tables, headers, sheet, numbers, streaming: false };
    let header = crate::xlsx_cells::header_row(book.tables, headers);
    let top = crate::xlsx_markup::pieces_of_header_row(book.tables, headers);
    let rows = crate::xlsx_markup::pieces_of_rows(
        header.tables,
        sheet,
        sheet.len(),
        numbers,
        false,
    );
    let body = crate::xlsx_cells::rows(header.tables, sheet, sheet.len(), numbers, false);
    crate::xlsx_markup::lemma_pieces_of_header_row(book.tables, headers);
    crate::xlsx_markup::lemma_pieces_of_rows(header.tables, sheet, sheet.len(), numbers, false);
    crate::markup::lemma_block_concat(top, rows);
    crate::markup::lemma_written_concat(top, rows);
    lemma_part(
        page.lines(),
        columns,
        crate::xlsx_writer::fitted_widths(columns, headers, Some(sheet), numbers),
        headers is Some,
        book.sheets.len() == 1,
        do_autofilter && headers is Some && columns > 0 && page.lines() > 0,
        page.pieces(),
        header.xml,
        body.xml,
    );
}

/// The part that the writer makes of a sheet written row by row is plain markup
/// too, with the rows in the form that streaming gives them.
pub proof fn law_streamed_part(
    book: XlsxBook,
    name: Seq<char>,
    columns: int,
    sheet: Seq<Seq<Cell>>,
    headers: Option<Seq<Seq<char>>>,
    options: SheetOptions,
    numbers: NumberTable,
)
    requires
        crate::xlsx_markup::prints_plainly(numbers),
    ensures
        ({
            let page = XlsxPage {
                tables: book.tables,
                headers,
                sheet,
                numbers,
                streaming: true,
            };
            let after = crate::xlsx_laws::with_rows(
                book.with_started_sheet(name, columns, headers, options, numbers),
                sheet,
                sheet.len(),
                numbers,
            ).with_ended_sheet();
            let total_rows = page.lines();
            let filtered = options.do_autofilter && headers is Some && columns > 0 && total_rows
                > 0;
            let front = front_pieces(
                total_rows,
                columns,
                crate::xlsx_writer::fitted_widths(
                    columns,
                    headers,
                    crate::xlsx_writer::sample_cells(options.sample_rows),
                    numbers,
                ),
                headers is Some,
                book.sheets.len() == 0,
            );
            let back = back_pieces(filtered, total_rows, columns);
            let pieces = front + page.pieces() + back;
            &&& after.entries.last().bytes == vstd::utf8::encode_utf8(
                crate::markup::written(pieces),
            )
            &&& crate::markup::is_document(pieces)
            &&& crate::xlsx_read_laws::is_quiet(front)
            &&& crate::xlsx_read_laws::is_quiet(back)
            &&& after.tables == page.rows(sheet.len() as int).tables
        }),
{
    let page = XlsxPage { tables: book.tables, headers, sheet, numbers, streaming: true };
    let header = crate::xlsx_cells::header_row(book.tables, headers);
    let top = crate::xlsx_markup::pieces_of_header_row(book.tables, headers);
    let rows = crate::xlsx_markup::pieces_of_rows(header.tables, sheet, sheet.len(), numbers, true);
    let body = crate::xlsx_cells::rows(header.tables, sheet, sheet.len(), numbers, true);
    crate::xlsx_markup::lemma_pieces_of_header_row(book.tables, headers);
    crate::xlsx_markup::lemma_pieces_of_rows(header.tables, sheet, sheet.len(), numbers, true);
    crate::markup::lemma_block_concat(top, rows);
    crate::markup::lemma_written_concat(top, rows);
    let total_rows = page.lines();
    let filtered = options.do_autofilter && headers is Some && columns > 0 && total_rows > 0;
    let widths = crate::xlsx_writer::fitted_widths(
        columns,
        headers,
        crate::xlsx_writer::sample_cells(options.sample_rows),
        numbers,
    );
    lemma_part(
        total_rows,
        columns,
        widths,
        headers is Some,
        book.sheets.len() == 0,
        filtered,
        page.pieces(),
        header.xml,
        body.xml,
    );
    let started = book.with_started_sheet(name, columns, headers, options, numbers);
    crate::xlsx_laws::lemma_rows_streamed(started, sheet, sheet.len(), numbers);
    lemma_streamed_bytes(
        crate::xlsx_writer::sheet_start(total_rows, columns),
        crate::xlsx_cells::sheet_head(widths, headers is Some, book.sheets.len() == 0),
        header.xml,
        body.xml,
        crate::xlsx_writer::sheet_end(filtered, total_rows, columns),
    );
}

proof fn lemma_streamed_bytes(
    start: Seq<char>,
    head: Seq<char>,
    header: Seq<char>,
    body: Seq<char>,
    end: Seq<char>,
)
    ensures
        vstd::utf8::encode_utf8(start + (head + header)) + (Seq::empty() + vstd::utf8::encode_utf8(
            body,
        ) + vstd::utf8::encode_utf8(end)) == vstd::utf8::encode_utf8(
            start + head + header + body + end,
        ),
{
    let first = start + (head + header);
    crate::xlsx_laws::lemma_encode_concat(first, body);
    crate::xlsx_laws::lemma_encode_concat(first + body, end);
    assert(first =~= start + head + header);
    let a = vstd::utf8::encode_utf8(first);
    let b = vstd::utf8::encode_utf8(body);
    let c = vstd::utf8::encode_utf8(end);
    assert(a + (Seq::empty() + b + c) =~= a + b + c);
}

} // verus!
