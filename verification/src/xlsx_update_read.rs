//! The rows that an update puts into an XLSX worksheet read back.

use vstd::prelude::*;
use crate::formats::{Cell, Plain};
use crate::markup::{Attr, Piece};
use crate::number::NumberTable;
use crate::xlsb_reader::BookInfo;
use crate::xlsx_read_laws::Doubles;
use crate::xlsx_reader::{Progress, XlsxBookState};
use crate::xlsx_rows::{CellState, RowState, Signal};
use crate::xlsx_scan::{Parsed, XlsxCellType};
use crate::xlsx_update_rows::{Looks, Strings};
use crate::xml_events::{XmlItem, XmlKind};

verus! {

/// The text that XML can hold of a text.
pub open spec fn kept_text(s: Seq<char>) -> Seq<char> {
    if crate::xml_utils::has_control(s) {
        s.filter(|c: char| crate::xml_utils::is_kept(c))
    } else {
        s
    }
}

/// A cell with a text of its own.
pub open spec fn inline_pieces(style: Option<int>, text: Seq<char>) -> Seq<Piece> {
    crate::markup::element(
        "c"@,
        crate::xlsx_markup::cell_attributes(Some("inlineStr"@), style),
        crate::markup::element(
            "is"@,
            Seq::empty(),
            crate::markup::element(
                "t"@,
                crate::xlsx_string_laws::space_attributes(
                    crate::xlsx_patch::keeps_space(crate::xml_utils::escaped_text(text)),
                ),
                crate::xlsx_string_laws::text_pieces(kept_text(text)),
            ),
        ),
    )
}

proof fn lemma_inline_names()
    ensures
        crate::markup::is_name("is"@),
        crate::markup::is_name("t"@),
        crate::markup::is_name("c"@),
        crate::markup::is_value("inlineStr"@),
        "is"@ != "c"@,
        "is"@ != "t"@,
        "is"@ != "v"@,
        "t"@ != "c"@,
        "t"@ != "v"@,
        crate::xlsx_markup::kind_text(Some("inlineStr"@)) == " t=\"inlineStr\""@,
        (Piece::Open { name: "is"@, attributes: Seq::empty() }).text() == "<is>"@,
        Piece::Close("t"@).text() == "</"@ + Seq::<char>::empty() + "t>"@,
        Piece::Close("is"@).text() + Piece::Close("c"@).text() == "</is></c>"@,
        "><is>"@ == ">"@ + "<is>"@,
        "<c t=\"inlineStr\""@ == "<"@ + "c"@ + " t=\"inlineStr\""@,
{
    crate::xlsx_markup::lemma_no_attributes();
    reveal_strlit("is");
    reveal_strlit("t");
    reveal_strlit("c");
    reveal_strlit("v");
    reveal_strlit("inlineStr");
    reveal_strlit(" t=\"inlineStr\"");
    reveal_strlit("<c t=\"inlineStr\"");
    reveal_strlit(" ");
    reveal_strlit("=\"");
    reveal_strlit("\"");
    reveal_strlit("<");
    reveal_strlit("</");
    reveal_strlit(">");
    reveal_strlit("<is>");
    reveal_strlit("t>");
    reveal_strlit("</is></c>");
    reveal_strlit("><is>");
    assert("is"@.len() != "c"@.len());
    assert("t"@[0] != "c"@[0] && "t"@[0] != "v"@[0]);
    assert(" "@ + "t"@ + "=\""@ + "inlineStr"@ + "\""@ =~= " t=\"inlineStr\""@);
    assert("<"@ + ("is"@ + Seq::<char>::empty()) + ">"@ =~= "<is>"@);
    assert("</"@ + "t"@ + ">"@ =~= "</"@ + Seq::<char>::empty() + "t>"@);
    assert("</"@ + "is"@ + ">"@ + ("</"@ + "c"@ + ">"@) =~= "</is></c>"@);
    assert("><is>"@ =~= ">"@ + "<is>"@);
    assert("<c t=\"inlineStr\""@ =~= "<"@ + "c"@ + " t=\"inlineStr\""@);
}

/// The opening tag of a text.
pub proof fn lemma_text_tag(clean: Seq<char>)
    ensures
        (Piece::Open {
            name: "t"@,
            attributes: crate::xlsx_string_laws::space_attributes(
                crate::xlsx_patch::keeps_space(clean),
            ),
        }).text() == "<"@ + Seq::<char>::empty() + "t"@ + crate::xlsx_patch::space_attr(clean)
            + ">"@,
{
    let preserved = crate::xlsx_patch::keeps_space(clean);
    crate::xlsx_string_laws::lemma_space_attributes(preserved);
    reveal_strlit("<");
    reveal_strlit("t");
    reveal_strlit(">");
    if preserved {
        reveal_strlit(" xml:space=\"preserve\"");
        reveal_strlit("<t xml:space=\"preserve\">");
        assert("<t xml:space=\"preserve\">"@ =~= "<"@ + Seq::<char>::empty() + "t"@
            + " xml:space=\"preserve\""@ + ">"@);
    } else {
        reveal_strlit("<t>");
        assert("<t>"@ =~= "<"@ + Seq::<char>::empty() + "t"@ + Seq::<char>::empty() + ">"@);
    }
}

/// A cell with a text of its own, as pieces and as text.
proof fn lemma_inline_pieces(style: Option<int>, text: Seq<char>)
    ensures
        crate::markup::is_block(inline_pieces(style, text)),
        crate::markup::written(inline_pieces(style, text)) == "<c t=\"inlineStr\""@
            + crate::xlsx_cells::style_attr(style) + "><is>"@ + crate::xlsx_patch::text_element(
            Seq::empty(),
            text,
        ) + "</is></c>"@,
{
    let clean = crate::xml_utils::escaped_text(text);
    let kept = kept_text(text);
    let outer = crate::xlsx_markup::cell_attributes(Some("inlineStr"@), style);
    let space = crate::xlsx_string_laws::space_attributes(crate::xlsx_patch::keeps_space(clean));
    let pieces = crate::xlsx_string_laws::text_pieces(kept);
    let t = crate::markup::element("t"@, space, pieces);
    let is = crate::markup::element("is"@, Seq::empty(), t);
    lemma_inline_names();
    crate::xlsx_markup::lemma_no_attributes();
    crate::xlsx_markup::lemma_cell_attributes(Some("inlineStr"@), style);
    crate::xlsx_string_laws::lemma_space_attributes(crate::xlsx_patch::keeps_space(clean));
    crate::xlsx_string_laws::lemma_text_pieces(kept);
    assert(crate::xml_utils::with_entities(kept) == clean);
    crate::xlsx_string_laws::lemma_text_element("t"@, space, pieces);
    crate::markup::lemma_block_element("is"@, Seq::empty(), t);
    crate::markup::lemma_block_element("c"@, outer, is);
    crate::markup::lemma_element_text("t"@, space, pieces);
    crate::markup::lemma_element_text("is"@, Seq::empty(), t);
    crate::markup::lemma_element_text("c"@, outer, is);
    lemma_text_tag(clean);
    lemma_inline_text(
        "<"@ + "c"@,
        " t=\"inlineStr\""@,
        crate::xlsx_cells::style_attr(style),
        ">"@,
        "<is>"@,
        "<"@ + Seq::<char>::empty() + "t"@ + crate::xlsx_patch::space_attr(clean) + ">"@,
        clean,
        "</"@,
        "t>"@,
        Piece::Close("is"@).text(),
        Piece::Close("c"@).text(),
    );
    assert("<"@ + ("c"@ + (" t=\"inlineStr\""@ + crate::xlsx_cells::style_attr(style))) + ">"@
        =~= ("<"@ + "c"@) + " t=\"inlineStr\""@ + crate::xlsx_cells::style_attr(style) + ">"@);
}

proof fn lemma_inline_text(
    a: Seq<char>,
    b: Seq<char>,
    c: Seq<char>,
    d: Seq<char>,
    e: Seq<char>,
    f: Seq<char>,
    g: Seq<char>,
    h: Seq<char>,
    i: Seq<char>,
    j: Seq<char>,
    k: Seq<char>,
)
    ensures
        (a + b + c + d) + (e + (f + g + (h + Seq::empty() + i)) + j) + k == (a + b) + c + (d + e)
            + (f + g + h + Seq::empty() + i) + (j + k),
{
    assert((a + b + c + d) + (e + (f + g + (h + Seq::empty() + i)) + j) + k =~= (a + b) + c + (d
        + e) + (f + g + h + Seq::empty() + i) + (j + k));
}

/// The value that pieces of text add up to.
spec fn with_pieces(parsed: Parsed, pieces: Seq<Piece>) -> Parsed {
    if pieces.len() == 0 {
        parsed
    } else {
        Parsed::Text(
            crate::xlsx_rows::text_so_far(parsed) + crate::xlsx_string_laws::spelled(pieces),
        )
    }
}

/// The pieces of a text are added to the text of the cell.
#[verifier::rlimit(40)]
#[verifier::spinoff_prover]
proof fn lemma_text_read(
    scan: RowState,
    pieces: Seq<Piece>,
    rest: Seq<Result<XmlItem, Seq<char>>>,
    info: BookInfo,
    doubles: Doubles,
)
    requires
        crate::xlsx_string_laws::are_text(pieces),
        scan.cell matches Some(cell) && cell.inline && cell.in_text && !cell.in_value,
    ensures
        crate::xlsx_read_laws::run_with(
            scan,
            crate::markup::items(pieces) + rest,
            info,
            doubles,
        ) == crate::xlsx_read_laws::run_with(
            RowState {
                cell: Some(
                    CellState {
                        parsed: with_pieces((scan.cell->0).parsed, pieces),
                        ..scan.cell->0
                    },
                ),
                ..scan
            },
            rest,
            info,
            doubles,
        ),
    decreases pieces.len(),
{
    let cell = scan.cell->0;
    if pieces.len() == 0 {
        assert(crate::markup::items(pieces) + rest =~= rest);
        assert(scan == (RowState { cell: Some(cell), ..scan }));
    } else {
        let some = pieces.drop_last();
        let last = pieces.last();
        crate::xlsx_string_laws::lemma_text_shortened(pieces);
        assert(some + seq![last] =~= pieces);
        crate::markup::lemma_items_concat(some, seq![last]);
        let left = crate::markup::items(seq![last]) + rest;
        assert(crate::markup::items(pieces) + rest =~= crate::markup::items(some) + left);
        lemma_text_read(scan, some, left, info, doubles);
        assert(pieces[pieces.len() - 1] == last);
        match last {
            Piece::Text(t) => {
                crate::text::lemma_bytes_text(t);
            },
            _ => {},
        }
        let before = CellState { parsed: with_pieces(cell.parsed, some), ..cell };
        let after = CellState { parsed: with_pieces(cell.parsed, pieces), ..cell };
        assert(crate::xlsx_rows::text_so_far(before.parsed) + crate::xlsx_string_laws::spelled_by(
            last,
        ) =~= crate::xlsx_rows::text_so_far(cell.parsed) + crate::xlsx_string_laws::spelled(
            pieces,
        ));
        crate::xlsx_read_laws::lemma_advance(
            RowState { cell: Some(before), ..scan },
            last,
            RowState { cell: Some(after), ..scan },
            rest,
            info,
            doubles,
        );
    }
}

/// The cell that a cell tag begins.
spec fn begun_cell(style: Option<int>) -> CellState {
    let attributes = crate::xlsx_markup::cell_attributes(Some("inlineStr"@), style);
    let head = crate::xlsx_scan::head_of((Piece::Open { name: "c"@, attributes }).item());
    CellState {
        column: None,
        cell_type: head.cell_type,
        style: head.style,
        parsed: Parsed::Empty,
        inline: false,
        in_value: false,
        in_text: false,
        text: Seq::empty(),
    }
}

proof fn lemma_open_inline(scan: RowState, style: Option<int>, shared: Seq<Seq<char>>)
    requires
        scan.in_row,
        scan.cell is None,
    ensures
        ({
            let attributes = crate::xlsx_markup::cell_attributes(Some("inlineStr"@), style);
            scan.step((Piece::Open { name: "c"@, attributes }).item(), shared) == (
                RowState { cell: Some(begun_cell(style)), ..scan },
                Signal::More,
            )
        }),
{
    let attributes = crate::xlsx_markup::cell_attributes(Some("inlineStr"@), style);
    let piece = Piece::Open { name: "c"@, attributes };
    lemma_inline_names();
    crate::xlsx_markup::lemma_cell_names();
    crate::xlsx_markup::lemma_cell_attributes(Some("inlineStr"@), style);
    crate::markup::lemma_piece_tag(piece, XmlKind::Start, "row"@);
    crate::markup::lemma_piece_tag(piece, XmlKind::End, "row"@);
    crate::markup::lemma_piece_tag(piece, XmlKind::Empty, "row"@);
    crate::markup::lemma_piece_tag(piece, XmlKind::Start, "c"@);
    reveal_strlit("r");
    reveal_strlit("s");
    reveal_strlit("t");
    assert("t"@[0] != "r"@[0] && "s"@[0] != "r"@[0]);
    crate::markup::lemma_same_bytes("t"@, "r"@);
    crate::markup::lemma_same_bytes("s"@, "r"@);
    reveal_with_fuel(crate::xlsx_scan::cell_head, 3);
}

/// The tags inside a cell with a text of its own.
proof fn lemma_inline_tags(
    scan: RowState,
    cell: CellState,
    space: Seq<Attr>,
    shared: Seq<Seq<char>>,
)
    requires
        scan.cell == Some(cell),
        !cell.in_value,
        crate::markup::are_attributes(space),
    ensures
        scan.step((Piece::Open { name: "is"@, attributes: Seq::empty() }).item(), shared) == (
            RowState {
                cell: Some(CellState { inline: true, in_text: false, ..cell }),
                ..scan
            },
            Signal::More,
        ),
        cell.inline ==> scan.step((Piece::Open { name: "t"@, attributes: space }).item(), shared)
            == (RowState { cell: Some(CellState { in_text: true, ..cell }), ..scan }, Signal::More),
        scan.step(Piece::Close("t"@).item(), shared) == (
            RowState { cell: Some(CellState { in_text: false, ..cell }), ..scan },
            Signal::More,
        ),
        scan.step(Piece::Close("is"@).item(), shared) == (
            RowState {
                cell: Some(CellState { inline: false, in_text: false, ..cell }),
                ..scan
            },
            Signal::More,
        ),
{
    lemma_inline_names();
    crate::xlsx_markup::lemma_no_attributes();
    let is = Piece::Open { name: "is"@, attributes: Seq::empty() };
    let t = Piece::Open { name: "t"@, attributes: space };
    let end_t = Piece::Close("t"@);
    let end_is = Piece::Close("is"@);
    crate::markup::lemma_piece_tag(is, XmlKind::End, "c"@);
    crate::markup::lemma_piece_tag(is, XmlKind::Start, "v"@);
    crate::markup::lemma_piece_tag(is, XmlKind::Start, "is"@);
    crate::markup::lemma_piece_tag(t, XmlKind::End, "c"@);
    crate::markup::lemma_piece_tag(t, XmlKind::Start, "v"@);
    crate::markup::lemma_piece_tag(t, XmlKind::Start, "is"@);
    crate::markup::lemma_piece_tag(t, XmlKind::Start, "t"@);
    crate::markup::lemma_piece_tag(end_t, XmlKind::End, "c"@);
    crate::markup::lemma_piece_tag(end_t, XmlKind::End, "t"@);
    crate::markup::lemma_piece_tag(end_is, XmlKind::End, "c"@);
    crate::markup::lemma_piece_tag(end_is, XmlKind::End, "t"@);
    crate::markup::lemma_piece_tag(end_is, XmlKind::End, "is"@);
}

/// What a text of its own reads back as: an empty one leaves the cell empty.
pub open spec fn inline_back(text: Seq<char>) -> Plain {
    if kept_text(text).len() == 0 {
        Plain::Empty
    } else {
        Plain::Text(kept_text(text))
    }
}

proof fn lemma_inline_value(text: Seq<char>, shared: Seq<Seq<char>>)
    ensures
        with_pieces(
            Parsed::Empty,
            crate::xlsx_string_laws::text_pieces(kept_text(text)),
        ).value(shared) == inline_back(text),
{
    let kept = kept_text(text);
    crate::xlsx_string_laws::lemma_text_pieces(kept);
    assert(Seq::<char>::empty() + kept =~= kept);
}

/// Seven runs of events, one behind the other.
proof fn lemma_seven<T>(
    a: Seq<T>,
    b: Seq<T>,
    c: Seq<T>,
    d: Seq<T>,
    e: Seq<T>,
    f: Seq<T>,
    g: Seq<T>,
    rest: Seq<T>,
)
    ensures
        a + (b + (c + d + e) + f) + g + rest == a + (b + (c + (d + (e + (f + (g + rest)))))),
{
    assert(a + (b + (c + d + e) + f) + g + rest =~= a + (b + (c + (d + (e + (f + (g + rest)))))));
}

proof fn lemma_inline_items(
    style: Option<int>,
    text: Seq<char>,
    rest: Seq<Result<XmlItem, Seq<char>>>,
)
    ensures
        ({
            let outer = crate::xlsx_markup::cell_attributes(Some("inlineStr"@), style);
            let space = crate::xlsx_string_laws::space_attributes(
                crate::xlsx_patch::keeps_space(crate::xml_utils::escaped_text(text)),
            );
            let pieces = crate::xlsx_string_laws::text_pieces(kept_text(text));
            crate::markup::items(inline_pieces(style, text)) + rest == crate::markup::items(
                seq![Piece::Open { name: "c"@, attributes: outer }],
            ) + (crate::markup::items(
                seq![Piece::Open { name: "is"@, attributes: Seq::empty() }],
            ) + (crate::markup::items(seq![Piece::Open { name: "t"@, attributes: space }]) + (
            crate::markup::items(pieces) + (crate::markup::items(seq![Piece::Close("t"@)]) + (
            crate::markup::items(seq![Piece::Close("is"@)]) + (crate::markup::items(
                seq![Piece::Close("c"@)],
            ) + rest))))))
        }),
{
    let outer = crate::xlsx_markup::cell_attributes(Some("inlineStr"@), style);
    let space = crate::xlsx_string_laws::space_attributes(
        crate::xlsx_patch::keeps_space(crate::xml_utils::escaped_text(text)),
    );
    let a = seq![Piece::Open { name: "c"@, attributes: outer }];
    let b = seq![Piece::Open { name: "is"@, attributes: Seq::empty() }];
    let c = seq![Piece::Open { name: "t"@, attributes: space }];
    let d = crate::xlsx_string_laws::text_pieces(kept_text(text));
    let e = seq![Piece::Close("t"@)];
    let f = seq![Piece::Close("is"@)];
    let g = seq![Piece::Close("c"@)];
    crate::markup::lemma_items_concat(c, d);
    crate::markup::lemma_items_concat(c + d, e);
    crate::markup::lemma_items_concat(b, c + d + e);
    crate::markup::lemma_items_concat(b + (c + d + e), f);
    crate::markup::lemma_items_concat(a, b + (c + d + e) + f);
    crate::markup::lemma_items_concat(a + (b + (c + d + e) + f), g);
    lemma_seven(
        crate::markup::items(a),
        crate::markup::items(b),
        crate::markup::items(c),
        crate::markup::items(d),
        crate::markup::items(e),
        crate::markup::items(f),
        crate::markup::items(g),
        rest,
    );
}

/// A cell with a text of its own is read.
#[verifier::rlimit(40)]
#[verifier::spinoff_prover]
proof fn lemma_inline_read(
    scan: RowState,
    style: Option<int>,
    text: Seq<char>,
    rest: Seq<Result<XmlItem, Seq<char>>>,
    info: BookInfo,
    doubles: Doubles,
)
    requires
        scan.in_row,
        scan.cell is None,
        0 <= scan.next_col < 16_384,
        scan.row.len() == scan.next_col,
    ensures
        crate::xlsx_read_laws::run_with(
            scan,
            crate::markup::items(inline_pieces(style, text)) + rest,
            info,
            doubles,
        ) == crate::xlsx_read_laws::run_with(
            crate::xlsx_read_laws::with_read(scan, inline_back(text)),
            rest,
            info,
            doubles,
        ),
{
    let outer = crate::xlsx_markup::cell_attributes(Some("inlineStr"@), style);
    let preserved = crate::xlsx_patch::keeps_space(crate::xml_utils::escaped_text(text));
    let space = crate::xlsx_string_laws::space_attributes(preserved);
    let pieces = crate::xlsx_string_laws::text_pieces(kept_text(text));
    let p1 = Piece::Open { name: "c"@, attributes: outer };
    let p2 = Piece::Open { name: "is"@, attributes: Seq::empty() };
    let p3 = Piece::Open { name: "t"@, attributes: space };
    let p5 = Piece::Close("t"@);
    let p6 = Piece::Close("is"@);
    let p7 = Piece::Close("c"@);
    let r6 = crate::markup::items(seq![p7]) + rest;
    let r5 = crate::markup::items(seq![p6]) + r6;
    let r4 = crate::markup::items(seq![p5]) + r5;
    let r3 = crate::markup::items(pieces) + r4;
    let r2 = crate::markup::items(seq![p3]) + r3;
    let r1 = crate::markup::items(seq![p2]) + r2;
    let c1 = begun_cell(style);
    let c2 = CellState { inline: true, in_text: false, ..c1 };
    let c3 = CellState { in_text: true, ..c2 };
    let c4 = CellState { parsed: with_pieces(c3.parsed, pieces), ..c3 };
    let c5 = CellState { in_text: false, ..c4 };
    let c6 = CellState { inline: false, in_text: false, ..c5 };
    let s1 = RowState { cell: Some(c1), ..scan };
    let s2 = RowState { cell: Some(c2), ..scan };
    let s3 = RowState { cell: Some(c3), ..scan };
    let s4 = RowState { cell: Some(c4), ..scan };
    let s5 = RowState { cell: Some(c5), ..scan };
    let s6 = RowState { cell: Some(c6), ..scan };
    let last = crate::xlsx_read_laws::with_read(scan, inline_back(text));
    lemma_inline_items(style, text, rest);
    crate::xlsx_string_laws::lemma_space_attributes(preserved);
    crate::xlsx_string_laws::lemma_text_pieces(kept_text(text));
    lemma_open_inline(scan, style, info.shared);
    crate::xlsx_read_laws::lemma_advance(scan, p1, s1, r1, info, doubles);
    lemma_inline_tags(s1, c1, space, info.shared);
    crate::xlsx_read_laws::lemma_advance(s1, p2, s2, r2, info, doubles);
    lemma_inline_tags(s2, c2, space, info.shared);
    crate::xlsx_read_laws::lemma_advance(s2, p3, s3, r3, info, doubles);
    lemma_text_read(s3, pieces, r4, info, doubles);
    lemma_inline_tags(s4, c4, space, info.shared);
    crate::xlsx_read_laws::lemma_advance(s4, p5, s5, r5, info, doubles);
    lemma_inline_tags(s5, c5, space, info.shared);
    crate::xlsx_read_laws::lemma_advance(s5, p6, s6, r6, info, doubles);
    lemma_inline_value(text, info.shared);
    crate::xlsx_read_laws::lemma_close_cell(s6, info.shared);
    assert(crate::xlsb_reader::with_cell(scan.row, scan.next_col, inline_back(text))
        =~= scan.row.push(crate::xlsb_reader::bare(inline_back(text))));
    crate::xlsx_read_laws::lemma_advance(s6, p7, last, rest, info, doubles);
}

/// The pieces of a cell with a text.
pub open spec fn text_cell_pieces(strings: Strings, style: int, text: Seq<char>) -> Seq<Piece> {
    if strings.xml is None {
        inline_pieces(crate::xlsx_update_rows::said_style(style), text)
    } else {
        crate::xlsx_markup::cell_pieces(
            Some("s"@),
            crate::xlsx_update_rows::said_style(style),
            crate::text::decimal(crate::string_table::index_for(strings.values, text)),
        )
    }
}

/// The style of a date in a column.
pub open spec fn date_style(looks: Looks, col: int) -> int {
    let style = crate::xlsx_styles::data_style(looks.cells, col);
    if style > 0 {
        style
    } else {
        match looks.date {
            Some(date) => date,
            None => 0,
        }
    }
}

/// The pieces of a cell of a column.
pub open spec fn value_pieces(
    strings: Strings,
    value: Plain,
    col: int,
    looks: Looks,
    numbers: NumberTable,
) -> Seq<Piece> {
    let style = crate::xlsx_styles::data_style(looks.cells, col);
    let said = crate::xlsx_update_rows::said_style(style);
    match value {
        Plain::Empty => Seq::empty(),
        Plain::Number(n) => if crate::number::is_finite(numbers.bits(n)) {
            crate::xlsx_markup::cell_pieces(None, said, numbers.display(n))
        } else {
            text_cell_pieces(strings, style, numbers.display(n))
        },
        Plain::Integer(n) => crate::xlsx_markup::cell_pieces(
            None,
            said,
            crate::text::decimal(n as int),
        ),
        Plain::Boolean(b) => crate::xlsx_markup::cell_pieces(
            Some("b"@),
            said,
            if b {
                "1"@
            } else {
                "0"@
            },
        ),
        Plain::DateTime(d) => crate::xlsx_markup::cell_pieces(
            None,
            crate::xlsx_update_rows::said_style(date_style(looks, col)),
            numbers.display(d),
        ),
        Plain::Text(s) => text_cell_pieces(strings, style, s),
    }
}

/// What a text reads back as, whether it is shared or stands in the cell.
pub open spec fn text_back(shared: bool, text: Seq<char>) -> Plain {
    if shared {
        Plain::Text(kept_text(text))
    } else {
        inline_back(text)
    }
}

/// What a value of a column reads back as.
pub open spec fn value_back(
    shared: bool,
    value: Plain,
    col: int,
    looks: Looks,
    numbers: NumberTable,
    info: BookInfo,
    doubles: Doubles,
) -> Plain {
    let said = crate::xlsx_update_rows::said_style(
        crate::xlsx_styles::data_style(looks.cells, col),
    );
    match value {
        Plain::Number(n) => if crate::number::is_finite(numbers.bits(n)) {
            crate::xlsx_read_laws::number_back(numbers.display(n), said, info, doubles)
        } else {
            text_back(shared, numbers.display(n))
        },
        Plain::Integer(n) => crate::xlsx_read_laws::number_back(
            crate::text::decimal(n as int),
            said,
            info,
            doubles,
        ),
        Plain::DateTime(d) => crate::xlsx_read_laws::number_back(
            numbers.display(d),
            crate::xlsx_update_rows::said_style(date_style(looks, col)),
            info,
            doubles,
        ),
        Plain::Text(s) => text_back(shared, s),
        _ => value,
    }
}

/// The styles of new cells are numbers that the reader takes.
pub open spec fn are_styles(looks: Looks) -> bool {
    &&& forall|col: int|
        #[trigger] crate::xlsx_styles::data_style(looks.cells, col) <= usize::MAX
    &&& forall|col: int|
        #[trigger] crate::xlsx_styles::header_style(looks.cells, col) <= usize::MAX
    &&& looks.date matches Some(date) ==> date <= usize::MAX
}

/// The reader finds the texts that the cells point at, as far as XML can hold
/// them.
pub open spec fn are_found(strings: Strings, info: BookInfo) -> bool {
    strings.xml is Some ==> {
        &&& strings.values.len() <= info.shared.len() <= usize::MAX
        &&& forall|i: int|
            0 <= i < strings.values.len() ==> #[trigger] info.shared[i] == kept_text(
                strings.values[i],
            )
    }
}

/// The shared strings have only grown.
pub open spec fn grows(later: Strings, earlier: Strings) -> bool {
    &&& later.xml == earlier.xml
    &&& earlier.values.is_prefix_of(later.values)
}

proof fn lemma_grows_trans(a: Strings, b: Strings, c: Strings)
    requires
        grows(b, a),
        grows(c, b),
    ensures
        grows(c, a),
{
    crate::xlsb_laws::lemma_prefix_trans(a.values, b.values, c.values);
}

proof fn lemma_found_before(later: Strings, earlier: Strings, info: BookInfo)
    requires
        grows(later, earlier),
        are_found(later, info),
    ensures
        are_found(earlier, info),
{
    assert forall|i: int| 0 <= i < earlier.values.len() implies earlier.values[i]
        == later.values[i] by {
        assert(earlier.values[i] == later.values.take(earlier.values.len() as int)[i]);
    }
}

proof fn lemma_text_grows(strings: Strings, style: int, text: Seq<char>)
    ensures
        grows(crate::xlsx_update_rows::text_cell(strings, style, text).strings, strings),
{
    crate::string_table::law_index_finds_text(strings.values, text, text);
    assert(strings.values.is_prefix_of(strings.values));
}

proof fn lemma_value_grows(
    strings: Strings,
    value: Plain,
    col: int,
    looks: Looks,
    numbers: NumberTable,
)
    ensures
        grows(
            crate::xlsx_update_rows::value_cell(strings, value, col, looks, numbers).strings,
            strings,
        ),
{
    let style = crate::xlsx_styles::data_style(looks.cells, col);
    assert(grows(strings, strings));
    match value {
        Plain::Number(n) => {
            lemma_text_grows(strings, style, numbers.display(n));
        },
        Plain::Text(s) => {
            lemma_text_grows(strings, style, s);
        },
        _ => {},
    }
}

/// A cell with a text, as pieces and as text.
proof fn lemma_text_cell_pieces(strings: Strings, style: int, text: Seq<char>)
    ensures
        crate::markup::is_block(text_cell_pieces(strings, style, text)),
        crate::markup::written(text_cell_pieces(strings, style, text))
            == crate::xlsx_update_rows::text_cell(strings, style, text).xml,
{
    let said = crate::xlsx_update_rows::said_style(style);
    if strings.xml is None {
        lemma_inline_pieces(said, text);
    } else {
        let index = crate::string_table::index_for(strings.values, text);
        crate::xlsx_markup::lemma_decimal_is_plain(index);
        crate::xlsx_markup::lemma_kinds();
        crate::xlsx_markup::lemma_cell_pieces(Some("s"@), said, crate::text::decimal(index));
    }
}

/// A cell of a column, as pieces and as text.
proof fn lemma_value_pieces(
    strings: Strings,
    value: Plain,
    col: int,
    looks: Looks,
    numbers: NumberTable,
)
    requires
        crate::xlsx_markup::prints_plainly(numbers),
    ensures
        crate::markup::is_block(value_pieces(strings, value, col, looks, numbers)),
        crate::markup::written(value_pieces(strings, value, col, looks, numbers))
            == crate::xlsx_update_rows::value_cell(strings, value, col, looks, numbers).xml,
{
    let style = crate::xlsx_styles::data_style(looks.cells, col);
    let said = crate::xlsx_update_rows::said_style(style);
    crate::xlsx_markup::lemma_kinds();
    match value {
        Plain::Empty => {
            crate::markup::lemma_block_none();
        },
        Plain::Number(n) => {
            assert(crate::markup::is_plain(numbers.display(n)));
            if crate::number::is_finite(numbers.bits(n)) {
                crate::xlsx_markup::lemma_cell_pieces(None, said, numbers.display(n));
            } else {
                lemma_text_cell_pieces(strings, style, numbers.display(n));
            }
        },
        Plain::Integer(n) => {
            crate::xlsx_markup::lemma_decimal_is_plain(n as int);
            crate::xlsx_markup::lemma_cell_pieces(None, said, crate::text::decimal(n as int));
        },
        Plain::Boolean(b) => {
            crate::xlsx_markup::lemma_cell_pieces(
                Some("b"@),
                said,
                if b {
                    "1"@
                } else {
                    "0"@
                },
            );
        },
        Plain::DateTime(d) => {
            assert(crate::markup::is_plain(numbers.display(d)));
            crate::xlsx_markup::lemma_cell_pieces(
                None,
                crate::xlsx_update_rows::said_style(date_style(looks, col)),
                numbers.display(d),
            );
        },
        Plain::Text(s) => {
            lemma_text_cell_pieces(strings, style, s);
        },
    }
}

/// A cell with a text is read.
proof fn lemma_text_cell_read(
    scan: RowState,
    strings: Strings,
    style: int,
    text: Seq<char>,
    rest: Seq<Result<XmlItem, Seq<char>>>,
    info: BookInfo,
    doubles: Doubles,
)
    requires
        scan.in_row,
        scan.cell is None,
        0 <= scan.next_col < 16_384,
        scan.row.len() == scan.next_col,
        style <= usize::MAX,
        are_found(crate::xlsx_update_rows::text_cell(strings, style, text).strings, info),
    ensures
        crate::xlsx_read_laws::run_with(
            scan,
            crate::markup::items(text_cell_pieces(strings, style, text)) + rest,
            info,
            doubles,
        ) == crate::xlsx_read_laws::run_with(
            crate::xlsx_read_laws::with_read(scan, text_back(strings.xml is Some, text)),
            rest,
            info,
            doubles,
        ),
{
    let said = crate::xlsx_update_rows::said_style(style);
    if strings.xml is None {
        lemma_inline_read(scan, said, text, rest, info, doubles);
    } else {
        let index = crate::string_table::index_for(strings.values, text);
        let value = crate::text::decimal(index);
        crate::string_table::law_index_finds_text(strings.values, text, text);
        let stored = strings.with_use(text).values;
        assert(info.shared[index] == kept_text(stored[index]));
        crate::xlsx_read_laws::lemma_index_bytes(index, usize::MAX);
        crate::xlsx_markup::lemma_decimal_is_plain(index);
        crate::xlsx_markup::lemma_kinds();
        assert(crate::xlsx_scan::stored_value(value, XlsxCellType::SharedString) == Some(
            Parsed::SharedString(index as usize),
        ));
        crate::xlsx_read_laws::lemma_cell_read(
            scan,
            Some("s"@),
            said,
            value,
            rest,
            info,
            doubles,
        );
    }
}

/// A cell with the text of a number is read.
proof fn lemma_number_read(
    scan: RowState,
    style: Option<int>,
    text: Seq<char>,
    rest: Seq<Result<XmlItem, Seq<char>>>,
    info: BookInfo,
    doubles: Doubles,
)
    requires
        scan.in_row,
        scan.cell is None,
        0 <= scan.next_col < 16_384,
        scan.row.len() == scan.next_col,
        style matches Some(s) ==> 0 <= s <= usize::MAX,
        crate::markup::is_plain(text),
        doubles(text) is Some,
    ensures
        crate::xlsx_read_laws::run_with(
            scan,
            crate::markup::items(crate::xlsx_markup::cell_pieces(None, style, text)) + rest,
            info,
            doubles,
        ) == crate::xlsx_read_laws::run_with(
            crate::xlsx_read_laws::with_read(
                scan,
                crate::xlsx_read_laws::number_back(text, style, info, doubles),
            ),
            rest,
            info,
            doubles,
        ),
{
    crate::xlsx_read_laws::lemma_cell_read(scan, None, style, text, rest, info, doubles);
}

/// A cell with a truth value is read.
proof fn lemma_bool_read(
    scan: RowState,
    style: Option<int>,
    b: bool,
    rest: Seq<Result<XmlItem, Seq<char>>>,
    info: BookInfo,
    doubles: Doubles,
)
    requires
        scan.in_row,
        scan.cell is None,
        0 <= scan.next_col < 16_384,
        scan.row.len() == scan.next_col,
        style matches Some(s) ==> 0 <= s <= usize::MAX,
    ensures
        ({
            let text = if b {
                "1"@
            } else {
                "0"@
            };
            crate::xlsx_read_laws::run_with(
                scan,
                crate::markup::items(crate::xlsx_markup::cell_pieces(Some("b"@), style, text))
                    + rest,
                info,
                doubles,
            ) == crate::xlsx_read_laws::run_with(
                crate::xlsx_read_laws::with_read(scan, Plain::Boolean(b)),
                rest,
                info,
                doubles,
            )
        }),
{
    let text = if b {
        "1"@
    } else {
        "0"@
    };
    crate::xlsx_markup::lemma_kinds();
    reveal_strlit("s");
    reveal_strlit("b");
    reveal_strlit("1");
    reveal_strlit("0");
    reveal_strlit("true");
    assert("s"@[0] != "b"@[0]);
    assert("0"@[0] != "1"@[0]);
    assert("0"@.len() != "true"@.len());
    crate::xlsx_read_laws::lemma_cell_read(scan, Some("b"@), style, text, rest, info, doubles);
}

/// A cell of a column that is not empty is read.
proof fn lemma_value_read(
    scan: RowState,
    strings: Strings,
    value: Plain,
    col: int,
    looks: Looks,
    numbers: NumberTable,
    rest: Seq<Result<XmlItem, Seq<char>>>,
    info: BookInfo,
    doubles: Doubles,
)
    requires
        !(value is Empty),
        crate::xlsx_markup::prints_plainly(numbers),
        crate::xlsx_read_laws::reads_numbers(doubles, numbers, true),
        scan.in_row,
        scan.cell is None,
        0 <= scan.next_col < 16_384,
        scan.row.len() == scan.next_col,
        are_styles(looks),
        are_found(
            crate::xlsx_update_rows::value_cell(strings, value, col, looks, numbers).strings,
            info,
        ),
    ensures
        crate::xlsx_read_laws::run_with(
            scan,
            crate::markup::items(value_pieces(strings, value, col, looks, numbers)) + rest,
            info,
            doubles,
        ) == crate::xlsx_read_laws::run_with(
            crate::xlsx_read_laws::with_read(
                scan,
                value_back(strings.xml is Some, value, col, looks, numbers, info, doubles),
            ),
            rest,
            info,
            doubles,
        ),
{
    let style = crate::xlsx_styles::data_style(looks.cells, col);
    let said = crate::xlsx_update_rows::said_style(style);
    assert(style <= usize::MAX);
    match value {
        Plain::Empty => {},
        Plain::Number(n) => {
            let text = numbers.display(n);
            assert(crate::markup::is_plain(text));
            assert(doubles(crate::xlsx_cells::number_text(n, numbers, true)) is Some);
            if crate::number::is_finite(numbers.bits(n)) {
                lemma_number_read(scan, said, text, rest, info, doubles);
            } else {
                lemma_text_cell_read(scan, strings, style, text, rest, info, doubles);
            }
        },
        Plain::Integer(n) => {
            let text = crate::text::decimal(n as int);
            crate::xlsx_markup::lemma_decimal_is_plain(n as int);
            lemma_number_read(scan, said, text, rest, info, doubles);
        },
        Plain::Boolean(b) => {
            lemma_bool_read(scan, said, b, rest, info, doubles);
        },
        Plain::DateTime(d) => {
            let text = numbers.display(d);
            assert(crate::markup::is_plain(text));
            assert(doubles(crate::xlsx_cells::number_text(d, numbers, true)) is Some);
            let dated = crate::xlsx_update_rows::said_style(date_style(looks, col));
            lemma_number_read(scan, dated, text, rest, info, doubles);
        },
        Plain::Text(s) => {
            lemma_text_cell_read(scan, strings, style, s, rest, info, doubles);
        },
    }
}

/// The pieces of the first `n` cells of a row.
pub open spec fn cells_pieces(
    strings: Strings,
    row: Seq<Cell>,
    n: nat,
    looks: Looks,
    numbers: NumberTable,
) -> Seq<Piece>
    decreases n,
{
    if n == 0 {
        Seq::empty()
    } else {
        let m = (n - 1) as nat;
        cells_pieces(strings, row, m, looks, numbers) + value_pieces(
            crate::xlsx_update_rows::value_cells(strings, row, m, looks, numbers).strings,
            row[n - 1].value,
            n - 1,
            looks,
            numbers,
        )
    }
}

/// The pieces of the first `n` cells of a header row.
pub open spec fn header_pieces(
    strings: Strings,
    headers: Seq<Seq<char>>,
    n: nat,
    looks: Looks,
) -> Seq<Piece>
    decreases n,
{
    if n == 0 {
        Seq::empty()
    } else {
        let m = (n - 1) as nat;
        header_pieces(strings, headers, m, looks) + text_cell_pieces(
            crate::xlsx_update_rows::header_cells(strings, headers, m, looks).strings,
            crate::xlsx_styles::header_style(looks.cells, n - 1),
            headers[n - 1],
        )
    }
}

/// The values of the first `n` cells of a row that are not empty, as they read
/// back.
pub open spec fn cells_back(
    shared: bool,
    row: Seq<Cell>,
    n: nat,
    looks: Looks,
    numbers: NumberTable,
    info: BookInfo,
    doubles: Doubles,
) -> Seq<Cell>
    decreases n,
{
    if n == 0 {
        Seq::empty()
    } else {
        let before = cells_back(shared, row, (n - 1) as nat, looks, numbers, info, doubles);
        let value = row[n - 1].value;
        if value is Empty {
            before
        } else {
            before.push(
                crate::xlsb_reader::bare(
                    value_back(shared, value, n - 1, looks, numbers, info, doubles),
                ),
            )
        }
    }
}

/// The headers as they read back.
pub open spec fn headers_back(shared: bool, headers: Seq<Seq<char>>, n: nat) -> Seq<Cell> {
    Seq::new(n, |i: int| crate::xlsb_reader::bare(text_back(shared, headers[i])))
}

proof fn lemma_cells_pieces(
    strings: Strings,
    row: Seq<Cell>,
    n: nat,
    looks: Looks,
    numbers: NumberTable,
)
    requires
        crate::xlsx_markup::prints_plainly(numbers),
    ensures
        crate::markup::is_block(cells_pieces(strings, row, n, looks, numbers)),
        crate::markup::written(cells_pieces(strings, row, n, looks, numbers))
            == crate::xlsx_update_rows::value_cells(strings, row, n, looks, numbers).xml,
        grows(
            crate::xlsx_update_rows::value_cells(strings, row, n, looks, numbers).strings,
            strings,
        ),
    decreases n,
{
    if n == 0 {
        crate::markup::lemma_block_none();
        assert(grows(strings, strings));
    } else {
        let m = (n - 1) as nat;
        let before = crate::xlsx_update_rows::value_cells(strings, row, m, looks, numbers).strings;
        let value = row[n - 1].value;
        let here = value_pieces(before, value, n - 1, looks, numbers);
        lemma_cells_pieces(strings, row, m, looks, numbers);
        lemma_value_pieces(before, value, n - 1, looks, numbers);
        lemma_value_grows(before, value, n - 1, looks, numbers);
        lemma_grows_trans(
            strings,
            before,
            crate::xlsx_update_rows::value_cells(strings, row, n, looks, numbers).strings,
        );
        let some = cells_pieces(strings, row, m, looks, numbers);
        crate::markup::lemma_block_concat(some, here);
        crate::markup::lemma_written_concat(some, here);
    }
}

proof fn lemma_header_pieces(strings: Strings, headers: Seq<Seq<char>>, n: nat, looks: Looks)
    ensures
        crate::markup::is_block(header_pieces(strings, headers, n, looks)),
        crate::markup::written(header_pieces(strings, headers, n, looks))
            == crate::xlsx_update_rows::header_cells(strings, headers, n, looks).xml,
        grows(
            crate::xlsx_update_rows::header_cells(strings, headers, n, looks).strings,
            strings,
        ),
    decreases n,
{
    if n == 0 {
        crate::markup::lemma_block_none();
        assert(grows(strings, strings));
    } else {
        let m = (n - 1) as nat;
        let before = crate::xlsx_update_rows::header_cells(strings, headers, m, looks).strings;
        let style = crate::xlsx_styles::header_style(looks.cells, n - 1);
        let here = text_cell_pieces(before, style, headers[n - 1]);
        lemma_header_pieces(strings, headers, m, looks);
        lemma_text_cell_pieces(before, style, headers[n - 1]);
        lemma_text_grows(before, style, headers[n - 1]);
        lemma_grows_trans(
            strings,
            before,
            crate::xlsx_update_rows::header_cells(strings, headers, n, looks).strings,
        );
        let some = header_pieces(strings, headers, m, looks);
        crate::markup::lemma_block_concat(some, here);
        crate::markup::lemma_written_concat(some, here);
    }
}

/// The cells of a row are read.
#[verifier::rlimit(40)]
#[verifier::spinoff_prover]
proof fn lemma_cells_read(
    scan: RowState,
    strings: Strings,
    row: Seq<Cell>,
    n: nat,
    looks: Looks,
    numbers: NumberTable,
    rest: Seq<Result<XmlItem, Seq<char>>>,
    info: BookInfo,
    doubles: Doubles,
)
    requires
        n <= row.len() <= 16_384,
        crate::xlsx_markup::prints_plainly(numbers),
        crate::xlsx_read_laws::reads_numbers(doubles, numbers, true),
        scan.in_row,
        scan.cell is None,
        scan.next_col == 0,
        scan.row.len() == 0,
        scan.fields >= 0,
        are_styles(looks),
        are_found(
            crate::xlsx_update_rows::value_cells(strings, row, n, looks, numbers).strings,
            info,
        ),
    ensures
        ({
            let values = cells_back(
                strings.xml is Some,
                row,
                n,
                looks,
                numbers,
                info,
                doubles,
            );
            &&& values.len() <= n
            &&& crate::xlsx_read_laws::run_with(
                scan,
                crate::markup::items(cells_pieces(strings, row, n, looks, numbers)) + rest,
                info,
                doubles,
            ) == crate::xlsx_read_laws::run_with(
                crate::xlsx_read_laws::with_reads(scan, values),
                rest,
                info,
                doubles,
            )
        }),
    decreases n,
{
    let shared = strings.xml is Some;
    if n == 0 {
        assert(crate::markup::items(Seq::empty()) + rest =~= rest);
        assert(scan.row + Seq::<Cell>::empty() =~= scan.row);
        assert(crate::xlsx_read_laws::with_reads(scan, Seq::empty()) == scan);
    } else {
        let m = (n - 1) as nat;
        let before = crate::xlsx_update_rows::value_cells(strings, row, m, looks, numbers).strings;
        let after = crate::xlsx_update_rows::value_cells(strings, row, n, looks, numbers).strings;
        let value = row[n - 1].value;
        let a = cells_pieces(strings, row, m, looks, numbers);
        let b = value_pieces(before, value, n - 1, looks, numbers);
        lemma_value_grows(before, value, n - 1, looks, numbers);
        lemma_found_before(after, before, info);
        lemma_cells_pieces(strings, row, m, looks, numbers);
        crate::markup::lemma_items_concat(a, b);
        let left = crate::markup::items(b) + rest;
        assert(crate::markup::items(a + b) + rest =~= crate::markup::items(a) + left);
        lemma_cells_read(scan, strings, row, m, looks, numbers, left, info, doubles);
        let some = cells_back(shared, row, m, looks, numbers, info, doubles);
        let mid = crate::xlsx_read_laws::with_reads(scan, some);
        if value is Empty {
            assert(left =~= rest);
        } else {
            let found = value_back(shared, value, n - 1, looks, numbers, info, doubles);
            let all = some.push(crate::xlsb_reader::bare(found));
            lemma_value_read(mid, before, value, n - 1, looks, numbers, rest, info, doubles);
            assert(mid.row.push(crate::xlsb_reader::bare(found)) =~= scan.row + all);
            assert(crate::xlsx_read_laws::with_read(mid, found)
                == crate::xlsx_read_laws::with_reads(scan, all));
        }
    }
}

/// The cells of a header row are read.
#[verifier::rlimit(40)]
#[verifier::spinoff_prover]
proof fn lemma_headers_read(
    scan: RowState,
    strings: Strings,
    headers: Seq<Seq<char>>,
    n: nat,
    looks: Looks,
    rest: Seq<Result<XmlItem, Seq<char>>>,
    info: BookInfo,
    doubles: Doubles,
)
    requires
        n <= headers.len() <= 16_384,
        scan.in_row,
        scan.cell is None,
        scan.next_col == 0,
        scan.row.len() == 0,
        scan.fields >= 0,
        are_styles(looks),
        are_found(
            crate::xlsx_update_rows::header_cells(strings, headers, n, looks).strings,
            info,
        ),
    ensures
        crate::xlsx_read_laws::run_with(
            scan,
            crate::markup::items(header_pieces(strings, headers, n, looks)) + rest,
            info,
            doubles,
        ) == crate::xlsx_read_laws::run_with(
            crate::xlsx_read_laws::with_reads(
                scan,
                headers_back(strings.xml is Some, headers, n),
            ),
            rest,
            info,
            doubles,
        ),
    decreases n,
{
    let shared = strings.xml is Some;
    if n == 0 {
        assert(crate::markup::items(Seq::empty()) + rest =~= rest);
        assert(scan.row + headers_back(shared, headers, 0) =~= scan.row);
        assert(crate::xlsx_read_laws::with_reads(scan, headers_back(shared, headers, 0)) == scan);
    } else {
        let m = (n - 1) as nat;
        let before = crate::xlsx_update_rows::header_cells(strings, headers, m, looks).strings;
        let after = crate::xlsx_update_rows::header_cells(strings, headers, n, looks).strings;
        let style = crate::xlsx_styles::header_style(looks.cells, n - 1);
        let text = headers[n - 1];
        let a = header_pieces(strings, headers, m, looks);
        let b = text_cell_pieces(before, style, text);
        lemma_text_grows(before, style, text);
        lemma_found_before(after, before, info);
        lemma_header_pieces(strings, headers, m, looks);
        crate::markup::lemma_items_concat(a, b);
        let left = crate::markup::items(b) + rest;
        assert(crate::markup::items(a + b) + rest =~= crate::markup::items(a) + left);
        lemma_headers_read(scan, strings, headers, m, looks, left, info, doubles);
        let some = headers_back(shared, headers, m);
        let all = headers_back(shared, headers, n);
        let mid = crate::xlsx_read_laws::with_reads(scan, some);
        let found = text_back(shared, text);
        assert(style <= usize::MAX);
        lemma_text_cell_read(mid, before, style, text, rest, info, doubles);
        assert(all =~= some.push(crate::xlsb_reader::bare(found)));
        assert(mid.row.push(crate::xlsb_reader::bare(found)) =~= scan.row + all);
        assert(crate::xlsx_read_laws::with_read(mid, found)
            == crate::xlsx_read_laws::with_reads(scan, all));
    }
}

/// New rows for a worksheet: the shared strings before them, their headers, if
/// there are any, the rows, how cells look, and whether the rows say their numbers,
/// as those do that come one by one.
pub struct NewSheet {
    pub strings: Strings,
    pub headers: Option<Seq<Seq<char>>>,
    pub rows: Seq<Seq<Cell>>,
    pub looks: Looks,
    pub numbers: NumberTable,
    pub numbered: bool,
}

impl NewSheet {
    /// The number of lines before the rows.
    pub open spec fn first(self) -> int {
        if self.headers is Some {
            1
        } else {
            0
        }
    }

    /// The number of lines.
    pub open spec fn lines(self) -> int {
        self.first() + self.rows.len()
    }

    /// No line has more cells than a sheet has columns.
    pub open spec fn fits(self) -> bool {
        &&& self.headers matches Some(h) ==> h.len() <= 16_384
        &&& forall|i: int|
            0 <= i < self.rows.len() ==> (#[trigger] self.rows[i]).len() <= 16_384
    }

    /// The shared strings behind the header row.
    pub open spec fn header_strings(self) -> Strings {
        crate::xlsx_update_rows::header_row(self.strings, self.headers, self.looks).strings
    }

    /// The shared strings behind the first `n` rows.
    pub open spec fn strings_after(self, n: int) -> Strings {
        crate::xlsx_update_rows::value_rows(
            self.header_strings(),
            self.rows,
            n as nat,
            self.looks,
            self.numbers,
        ).strings
    }

    /// The pieces of the cells of a line.
    pub open spec fn inner_pieces(self, i: int) -> Seq<Piece> {
        if i < self.first() {
            header_pieces(self.strings, self.headers->0, (self.headers->0).len(), self.looks)
        } else {
            let r = i - self.first();
            cells_pieces(
                self.strings_after(r),
                self.rows[r],
                self.rows[r].len(),
                self.looks,
                self.numbers,
            )
        }
    }

    /// The cells of a line as text.
    pub open spec fn inner_text(self, i: int) -> Seq<char> {
        if i < self.first() {
            crate::xlsx_update_rows::header_cells(
                self.strings,
                self.headers->0,
                (self.headers->0).len(),
                self.looks,
            ).xml
        } else {
            let r = i - self.first();
            crate::xlsx_update_rows::value_cells(
                self.strings_after(r),
                self.rows[r],
                self.rows[r].len(),
                self.looks,
                self.numbers,
            ).xml
        }
    }

    /// The attributes of a line.
    pub open spec fn line_attributes(self, i: int) -> Seq<Attr> {
        if self.numbered {
            Seq::empty().push(Attr { key: "r"@, value: crate::text::decimal(i + 1) })
        } else {
            Seq::empty()
        }
    }

    /// The pieces of a line.
    pub open spec fn line_pieces(self, i: int) -> Seq<Piece> {
        crate::markup::element("row"@, self.line_attributes(i), self.inner_pieces(i))
    }

    /// A line as text.
    pub open spec fn line_text(self, i: int) -> Seq<char> {
        if self.numbered {
            crate::xlsx_update_rows::numbered_row(Seq::empty(), i + 1, self.inner_text(i))
        } else {
            crate::xlsx_update_rows::row_element(self.inner_text(i))
        }
    }

    /// The first `n` lines as text.
    pub open spec fn text(self, n: nat) -> Seq<char>
        decreases n,
    {
        if n == 0 {
            Seq::empty()
        } else {
            self.text((n - 1) as nat) + self.line_text(n - 1)
        }
    }

    /// The lines, each as its pieces.
    pub open spec fn line_list(self) -> Seq<Seq<Piece>> {
        Seq::new(self.lines() as nat, |i: int| self.line_pieces(i))
    }

    /// The pieces of all lines.
    pub open spec fn pieces(self) -> Seq<Piece> {
        crate::xlsx_read_laws::joined(self.line_list(), 0)
    }

    /// The row that a line reads back as: its cells that are not empty, in their
    /// order.
    pub open spec fn line_back(self, info: BookInfo, doubles: Doubles, i: int) -> Seq<Cell> {
        let shared = self.strings.xml is Some;
        if i < self.first() {
            headers_back(shared, self.headers->0, (self.headers->0).len())
        } else {
            let r = i - self.first();
            cells_back(
                shared,
                self.rows[r],
                self.rows[r].len(),
                self.looks,
                self.numbers,
                info,
                doubles,
            )
        }
    }

    /// The rows that the lines read back as.
    pub open spec fn rows_back(self, info: BookInfo, doubles: Doubles) -> Seq<Seq<Cell>> {
        Seq::new(self.lines() as nat, |i: int| self.line_back(info, doubles, i))
    }

    /// What the numbers are written as can be read, and the reader finds every
    /// text.
    pub open spec fn is_readable(self, info: BookInfo, doubles: Doubles) -> bool {
        &&& crate::xlsx_markup::prints_plainly(self.numbers)
        &&& crate::xlsx_read_laws::reads_numbers(doubles, self.numbers, true)
        &&& are_styles(self.looks)
        &&& are_found(self.strings_after(self.rows.len() as int), info)
    }
}

proof fn lemma_rows_grow(new: NewSheet, k: int, n: int)
    requires
        crate::xlsx_markup::prints_plainly(new.numbers),
        0 <= k <= n <= new.rows.len(),
    ensures
        grows(new.strings_after(n), new.strings_after(k)),
    decreases n - k,
{
    assert(grows(new.strings_after(k), new.strings_after(k)));
    if k < n {
        let before = new.strings_after(n - 1);
        let row = new.rows[n - 1];
        lemma_rows_grow(new, k, n - 1);
        lemma_cells_pieces(before, row, row.len(), new.looks, new.numbers);
        lemma_grows_trans(new.strings_after(k), before, new.strings_after(n));
    }
}

/// All texts are shared or none is.
proof fn lemma_shared_alike(new: NewSheet, k: int)
    requires
        crate::xlsx_markup::prints_plainly(new.numbers),
        0 <= k <= new.rows.len(),
    ensures
        new.strings_after(k).xml == new.strings.xml,
{
    lemma_rows_grow(new, 0, k);
    match new.headers {
        Some(h) => {
            lemma_header_pieces(new.strings, h, h.len(), new.looks);
        },
        None => {},
    }
}

proof fn lemma_line_attributes(new: NewSheet, i: int)
    ensures
        crate::markup::are_attributes(new.line_attributes(i)),
        (Piece::Open { name: "row"@, attributes: new.line_attributes(i) }).text() == (
        if new.numbered {
            "<"@ + Seq::<char>::empty() + "row r=\""@ + crate::text::decimal(i + 1) + "\">"@
        } else {
            "<row>"@
        }),
        Piece::Close("row"@).text() == "</row>"@,
        "</row>"@ == "</"@ + Seq::<char>::empty() + "row>"@,
{
    reveal_strlit("row");
    reveal_strlit("<");
    reveal_strlit("</");
    reveal_strlit(">");
    reveal_strlit("<row>");
    reveal_strlit("</row>");
    reveal_strlit("row>");
    assert("</"@ + "row"@ + ">"@ =~= "</row>"@);
    assert("</row>"@ =~= "</"@ + Seq::<char>::empty() + "row>"@);
    crate::xlsx_markup::lemma_no_attributes();
    if new.numbered {
        let a = Attr { key: "r"@, value: crate::text::decimal(i + 1) };
        reveal_strlit("r");
        reveal_strlit(" ");
        reveal_strlit("=\"");
        reveal_strlit("\"");
        reveal_strlit("row r=\"");
        reveal_strlit("\">");
        crate::xlsx_markup::lemma_decimal_is_plain(i + 1);
        crate::xlsx_markup::lemma_one_attribute(a);
        assert("<"@ + ("row"@ + crate::markup::attribute_text(a)) + ">"@ =~= "<"@ + Seq::<
            char,
        >::empty() + "row r=\""@ + a.value + "\">"@);
    } else {
        assert("<"@ + ("row"@ + Seq::<char>::empty()) + ">"@ =~= "<row>"@);
    }
}

/// A line, as pieces and as text.
proof fn lemma_line_pieces(new: NewSheet, i: int)
    requires
        crate::xlsx_markup::prints_plainly(new.numbers),
        0 <= i < new.lines(),
    ensures
        crate::markup::is_block(new.line_pieces(i)),
        crate::markup::written(new.line_pieces(i)) == new.line_text(i),
{
    let inner = new.inner_pieces(i);
    if i < new.first() {
        let h = new.headers->0;
        lemma_header_pieces(new.strings, h, h.len(), new.looks);
    } else {
        let r = i - new.first();
        let row = new.rows[r];
        lemma_cells_pieces(new.strings_after(r), row, row.len(), new.looks, new.numbers);
    }
    crate::xlsx_markup::lemma_cell_names();
    lemma_line_attributes(new, i);
    crate::markup::lemma_block_element("row"@, new.line_attributes(i), inner);
    crate::markup::lemma_element_text("row"@, new.line_attributes(i), inner);
    lemma_line_text(
        (Piece::Open { name: "row"@, attributes: new.line_attributes(i) }).text(),
        new.inner_text(i),
        "</"@,
        "row>"@,
    );
}

proof fn lemma_line_text(a: Seq<char>, b: Seq<char>, c: Seq<char>, d: Seq<char>)
    ensures
        a + b + (c + Seq::empty() + d) == a + b + c + Seq::empty() + d,
{
    assert(a + b + (c + Seq::empty() + d) =~= a + b + c + Seq::empty() + d);
}

/// A line is read.
proof fn lemma_line_read(
    new: NewSheet,
    i: int,
    fields: int,
    rest: Seq<Result<XmlItem, Seq<char>>>,
    info: BookInfo,
    doubles: Doubles,
)
    requires
        new.fits(),
        new.is_readable(info, doubles),
        0 <= i < new.lines(),
        fields >= 0,
    ensures
        crate::xlsx_read_laws::is_line(
            new.line_pieces(i),
            new.line_back(info, doubles, i),
            fields,
            rest,
            info,
            doubles,
        ),
{
    let n = new.rows.len() as int;
    let end = new.strings_after(n);
    let scan = RowState { in_row: true, ..RowState::fresh(fields) };
    let left = crate::markup::items(seq![Piece::Close("row"@)]) + rest;
    lemma_line_attributes(new, i);
    if i < new.first() {
        let h = new.headers->0;
        lemma_rows_grow(new, 0, n);
        lemma_found_before(end, new.header_strings(), info);
        lemma_headers_read(scan, new.strings, h, h.len(), new.looks, left, info, doubles);
    } else {
        let r = i - new.first();
        let before = new.strings_after(r);
        let row = new.rows[r];
        lemma_rows_grow(new, r + 1, n);
        lemma_found_before(end, new.strings_after(r + 1), info);
        lemma_shared_alike(new, r);
        lemma_cells_read(
            scan,
            before,
            row,
            row.len(),
            new.looks,
            new.numbers,
            left,
            info,
            doubles,
        );
    }
    crate::xlsx_read_laws::lemma_row_read(
        fields,
        new.line_attributes(i),
        new.inner_pieces(i),
        new.line_back(info, doubles, i),
        rest,
        info,
        doubles,
    );
}

/// The lines from `i` on, as pieces and as text.
#[verifier::spinoff_prover]
proof fn lemma_lines_text(new: NewSheet, i: nat)
    requires
        crate::xlsx_markup::prints_plainly(new.numbers),
        i <= new.lines(),
    ensures
        ({
            let pieces = crate::xlsx_read_laws::joined(new.line_list(), i as int);
            &&& crate::markup::is_block(pieces)
            &&& new.text(i) + crate::markup::written(pieces) == new.text(new.lines() as nat)
        }),
    decreases new.lines() - i,
{
    let pieces = crate::xlsx_read_laws::joined(new.line_list(), i as int);
    if i == new.lines() {
        crate::markup::lemma_block_none();
        assert(new.text(i) + Seq::<char>::empty() =~= new.text(i));
    } else {
        let here = new.line_pieces(i as int);
        let more = crate::xlsx_read_laws::joined(new.line_list(), i as int + 1);
        assert(new.line_list()[i as int] == here);
        lemma_line_pieces(new, i as int);
        lemma_lines_text(new, i + 1);
        crate::markup::lemma_block_concat(here, more);
        crate::markup::lemma_written_concat(here, more);
        assert(new.text(i + 1) == new.text(i) + new.line_text(i as int));
        lemma_regrouped(new.text(i), new.line_text(i as int), crate::markup::written(more));
    }
}

proof fn lemma_regrouped(a: Seq<char>, b: Seq<char>, c: Seq<char>)
    ensures
        a + (b + c) == a + b + c,
{
    assert(a + (b + c) =~= a + b + c);
}

/// The lines of rows that come at once are the text that they are rendered to.
proof fn lemma_rows_text(new: NewSheet, n: nat)
    requires
        !new.numbered,
        n <= new.rows.len(),
    ensures
        ({
            let header = crate::xlsx_update_rows::header_row(
                new.strings,
                new.headers,
                new.looks,
            );
            let body = crate::xlsx_update_rows::value_rows(
                header.strings,
                new.rows,
                n,
                new.looks,
                new.numbers,
            );
            new.text((new.first() + n) as nat) == header.xml + body.xml
        }),
    decreases n,
{
    let header = crate::xlsx_update_rows::header_row(new.strings, new.headers, new.looks);
    if n == 0 {
        assert(new.text(0) == Seq::<char>::empty());
        assert(new.headers is Some ==> new.text(1) == new.text(0) + new.line_text(0));
        assert(new.text(new.first() as nat) =~= header.xml + Seq::<char>::empty());
    } else {
        let m = (n - 1) as nat;
        lemma_rows_text(new, m);
        let before = crate::xlsx_update_rows::value_rows(
            header.strings,
            new.rows,
            m,
            new.looks,
            new.numbers,
        );
        let i = new.first() + m;
        assert(new.text((new.first() + n) as nat) == new.text(i as nat) + new.line_text(i));
        assert(header.xml + before.xml + new.line_text(i) =~= header.xml + (before.xml
            + new.line_text(i)));
    }
}

/// The rows that an update renders are plain markup. Rows that come at once are
/// the text that is put between the tags of the sheet data.
pub proof fn law_new_rows_are_markup(new: NewSheet)
    requires
        crate::xlsx_markup::prints_plainly(new.numbers),
    ensures
        crate::markup::is_block(new.pieces()),
        crate::markup::written(new.pieces()) == new.text(new.lines() as nat),
        !new.numbered ==> new.text(new.lines() as nat) == crate::xlsx_update_rows::sheet_data(
            new.strings,
            new.headers,
            new.rows,
            new.looks,
            new.numbers,
        ).xml,
{
    lemma_lines_text(new, 0);
    assert(new.text(0) + crate::markup::written(new.pieces()) =~= crate::markup::written(
        new.pieces(),
    ));
    if !new.numbered {
        lemma_rows_text(new, new.rows.len());
    }
}

/// Rows that an update has put into a worksheet read back: every read gives the
/// next line, first the headers, then the rows, each as its cells that are not
/// empty with the values that [`value_back`] says, and behind the last line the
/// sheet ends. What stands around the rows has to be plain markup without row tags;
/// the texts of the numbers have to hold no markup and to stand for doubles, which
/// are supplied where the reader asks for them; the shared strings have to be those
/// that the update has given out, as far as XML can hold them.
pub proof fn law_replaced_rows_read_back(
    book: XlsxBookState,
    index: int,
    new: NewSheet,
    front: Seq<Piece>,
    back: Seq<Piece>,
    doubles: Doubles,
    n: nat,
)
    requires
        0 <= index,
        new.fits(),
        new.is_readable(book.info(), doubles),
        crate::xlsx_read_laws::is_quiet(front),
        crate::xlsx_read_laws::is_quiet(back),
        n <= new.lines(),
    ensures
        ({
            let start = book.begun(index, crate::markup::items(front + new.pieces() + back));
            let before = start.after_reads(doubles, n);
            let (after, read) = before.row_read(doubles);
            if n < new.lines() {
                &&& read == Ok::<Progress, Seq<char>>(Progress::Row)
                &&& after.scan.row == new.line_back(book.info(), doubles, n as int)
            } else {
                &&& read == Ok::<Progress, Seq<char>>(Progress::End)
                &&& after.scan.row == Seq::<Cell>::empty()
            }
        }),
{
    let info = book.info();
    let list = new.line_list();
    let rows = new.rows_back(info, doubles);
    assert forall|i: int, fields: int, rest: Seq<Result<XmlItem, Seq<char>>>|
        0 <= i < list.len() && fields >= 0 implies #[trigger] crate::xlsx_read_laws::is_line(
        list[i],
        rows[i],
        fields,
        rest,
        info,
        doubles,
    ) by {
        lemma_line_read(new, i, fields, rest, info, doubles);
    }
    crate::xlsx_read_laws::lemma_lines_read(book, index, list, rows, front, back, doubles, n);
}

} // verus!
