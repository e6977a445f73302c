//! The worksheets that the XLSX writer makes, as plain markup.

use vstd::prelude::*;
use crate::formats::{Cell, Plain};
use crate::markup::{Attr, Piece};
use crate::number::NumberTable;
use crate::sheet_tables::Tables;

verus! {

/// An attribute more in a list.
pub proof fn lemma_attribute_more(list: Seq<Attr>, a: Attr)
    requires
        crate::markup::are_attributes(list),
        crate::markup::is_key(a.key),
        crate::markup::is_value(a.value),
        forall|i: int| 0 <= i < list.len() ==> (#[trigger] list[i]).key != a.key,
    ensures
        crate::markup::are_attributes(list.push(a)),
        crate::markup::attributes_text(list.push(a)) == crate::markup::attributes_text(list)
            + crate::markup::attribute_text(a),
{
    assert(list.push(a).drop_last() =~= list);
    let more = list.push(a);
    assert forall|i: int| 0 <= i < more.len() implies crate::markup::is_key(
        (#[trigger] more[i]).key,
    ) && crate::markup::is_value(more[i].value) by {
        if i < list.len() {
            assert(more[i] == list[i]);
        }
    }
    assert forall|i: int, j: int| 0 <= i < j < more.len() implies (#[trigger] more[i]).key != (
    #[trigger] more[j]).key by {
        assert(more[i] == list[i]);
        if j < list.len() {
            assert(more[j] == list[j]);
        }
    }
}

pub proof fn lemma_no_attributes()
    ensures
        crate::markup::are_attributes(Seq::empty()),
        crate::markup::attributes_text(Seq::empty()) == Seq::<char>::empty(),
{
}

/// A tag with one attribute.
pub proof fn lemma_one_attribute(a: Attr)
    requires
        crate::markup::is_key(a.key),
        crate::markup::is_value(a.value),
    ensures
        crate::markup::are_attributes(Seq::empty().push(a)),
        crate::markup::attributes_text(Seq::empty().push(a)) == crate::markup::attribute_text(a),
{
    lemma_no_attributes();
    lemma_attribute_more(Seq::empty(), a);
    assert(Seq::<char>::empty() + crate::markup::attribute_text(a)
        =~= crate::markup::attribute_text(a));
}

/// The decimal text of a number that is not negative can stand as text and as a
/// value.
pub proof fn lemma_decimal_is_plain(n: int)
    ensures
        crate::markup::is_plain(crate::text::decimal(n)),
        crate::markup::is_value(crate::text::decimal(n)),
{
    let m = if n < 0 {
        (-n) as nat
    } else {
        n as nat
    };
    crate::text::lemma_digits(m);
    let s = crate::text::decimal(n);
    assert forall|i: int| 0 <= i < s.len() implies #[trigger] s[i] != '<' && s[i] != '&' && s[i]
        != '"' by {
        if n < 0 {
            if i > 0 {
                assert(s[i] == crate::text::digits(m)[i - 1]);
            }
        } else {
            assert(s[i] == crate::text::digits(m)[i]);
        }
    }
}

/// The attributes of a cell: how its value is stored, and its style.
pub open spec fn cell_attributes(kind: Option<Seq<char>>, style: Option<int>) -> Seq<Attr> {
    let stored = match kind {
        Some(kind) => Seq::<Attr>::empty().push(Attr { key: "t"@, value: kind }),
        None => Seq::empty(),
    };
    match style {
        Some(style) => stored.push(Attr { key: "s"@, value: crate::text::decimal(style) }),
        None => stored,
    }
}

/// The pieces of a cell.
pub open spec fn cell_pieces(
    kind: Option<Seq<char>>,
    style: Option<int>,
    value: Seq<char>,
) -> Seq<Piece> {
    crate::markup::element(
        "c"@,
        cell_attributes(kind, style),
        crate::markup::element("v"@, Seq::empty(), seq![Piece::Text(value)]),
    )
}

/// The text of the attribute that says how a value is stored.
pub open spec fn kind_text(kind: Option<Seq<char>>) -> Seq<char> {
    match kind {
        Some(kind) => crate::markup::attribute_text(Attr { key: "t"@, value: kind }),
        None => Seq::empty(),
    }
}

pub proof fn lemma_cell_names()
    ensures
        crate::markup::is_name("c"@),
        crate::markup::is_name("v"@),
        crate::markup::is_name("row"@),
        crate::markup::is_key("t"@),
        crate::markup::is_key("s"@),
        "t"@ != "s"@,
        "c"@ != "v"@,
        "row"@ != "c"@,
        "row"@ != "v"@,
{
    reveal_strlit("c");
    reveal_strlit("v");
    reveal_strlit("row");
    reveal_strlit("t");
    reveal_strlit("s");
    assert("t"@[0] != "s"@[0]);
    assert("c"@[0] != "v"@[0]);
}

pub proof fn lemma_cell_attributes(kind: Option<Seq<char>>, style: Option<int>)
    requires
        kind matches Some(k) ==> crate::markup::is_value(k),
    ensures
        crate::markup::are_attributes(cell_attributes(kind, style)),
        crate::markup::attributes_text(cell_attributes(kind, style)) == kind_text(kind)
            + crate::xlsx_cells::style_attr(style),
{
    lemma_cell_names();
    lemma_no_attributes();
    let stored = cell_attributes(kind, None);
    match kind {
        Some(k) => {
            lemma_one_attribute(Attr { key: "t"@, value: k });
        },
        None => {},
    }
    assert(crate::markup::attributes_text(stored) == kind_text(kind));
    match style {
        Some(s) => {
            lemma_decimal_is_plain(s);
            let a = Attr { key: "s"@, value: crate::text::decimal(s) };
            lemma_attribute_more(stored, a);
            assert(" s=\""@ =~= " "@ + "s"@ + "=\""@) by {
                reveal_strlit(" s=\"");
                reveal_strlit(" ");
                reveal_strlit("s");
                reveal_strlit("=\"");
            }
            assert(crate::markup::attribute_text(a) =~= crate::xlsx_cells::style_attr(style));
        },
        None => {
            assert(kind_text(kind) + crate::xlsx_cells::style_attr(style) =~= kind_text(kind));
        },
    }
}

/// The text of a cell is that of its pieces, and they are a block.
pub proof fn lemma_cell_pieces(kind: Option<Seq<char>>, style: Option<int>, value: Seq<char>)
    requires
        kind matches Some(k) ==> crate::markup::is_value(k),
        crate::markup::is_plain(value),
    ensures
        crate::markup::written(cell_pieces(kind, style, value)) == crate::xlsx_cells::cell_element(
            kind_text(kind),
            style,
            value,
        ),
        crate::markup::is_block(cell_pieces(kind, style, value)),
{
    lemma_cell_names();
    lemma_no_attributes();
    lemma_cell_attributes(kind, style);
    let text = seq![Piece::Text(value)];
    let inner = crate::markup::element("v"@, Seq::empty(), text);
    crate::markup::lemma_text_alone(value);
    crate::markup::lemma_written_one(Piece::Text(value));
    crate::markup::lemma_block_element("v"@, Seq::empty(), text);
    crate::markup::lemma_element_text("v"@, Seq::empty(), text);
    crate::markup::lemma_block_element("c"@, cell_attributes(kind, style), inner);
    crate::markup::lemma_element_text("c"@, cell_attributes(kind, style), inner);
    lemma_cell_text(crate::markup::attributes_text(cell_attributes(kind, style)), value);
    assert("<c"@ + (kind_text(kind) + crate::xlsx_cells::style_attr(style)) + "><v>"@ + value
        + "</v></c>"@ =~= crate::xlsx_cells::cell_element(kind_text(kind), style, value));
}

/// The text of a cell's tags around its value.
proof fn lemma_cell_text(attributes: Seq<char>, value: Seq<char>)
    ensures
        "<"@ + ("c"@ + attributes) + ">"@ + ("<"@ + ("v"@ + Seq::<char>::empty()) + ">"@ + value + (
        "</"@ + "v"@ + ">"@)) + ("</"@ + "c"@ + ">"@) == "<c"@ + attributes + "><v>"@ + value
            + "</v></c>"@,
{
    assert("<c"@ =~= "<"@ + "c"@) by {
        reveal_strlit("<c");
        reveal_strlit("<");
        reveal_strlit("c");
    }
    assert("><v>"@ =~= ">"@ + ("<"@ + ("v"@ + Seq::<char>::empty()) + ">"@)) by {
        reveal_strlit("><v>");
        reveal_strlit("<");
        reveal_strlit("v");
        reveal_strlit(">");
    }
    assert("</v></c>"@ =~= ("</"@ + "v"@ + ">"@) + ("</"@ + "c"@ + ">"@)) by {
        reveal_strlit("</v></c>");
        reveal_strlit("</");
        reveal_strlit("v");
        reveal_strlit("c");
        reveal_strlit(">");
    }
    lemma_join(
        "<"@,
        "c"@,
        attributes,
        ">"@,
        "<"@ + ("v"@ + Seq::<char>::empty()) + ">"@,
        value,
        "</"@ + "v"@ + ">"@,
        "</"@ + "c"@ + ">"@,
    );
}

/// Joining texts one way or the other.
proof fn lemma_join(
    a: Seq<char>,
    b: Seq<char>,
    c: Seq<char>,
    d: Seq<char>,
    e: Seq<char>,
    f: Seq<char>,
    g: Seq<char>,
    h: Seq<char>,
)
    ensures
        a + (b + c) + d + (e + f + g) + h == (a + b) + c + (d + e) + f + (g + h),
{
    assert(a + (b + c) + d + (e + f + g) + h =~= (a + b) + c + (d + e) + f + (g + h));
}

/// The ways in which a value is stored.
pub proof fn lemma_kinds()
    ensures
        kind_text(Some("s"@)) == " t=\"s\""@,
        kind_text(Some("b"@)) == " t=\"b\""@,
        crate::markup::is_value("s"@),
        crate::markup::is_value("b"@),
        crate::markup::is_plain("1"@),
        crate::markup::is_plain("0"@),
{
    reveal_strlit(" t=\"s\"");
    reveal_strlit(" t=\"b\"");
    reveal_strlit(" ");
    reveal_strlit("t");
    reveal_strlit("=\"");
    reveal_strlit("s");
    reveal_strlit("b");
    reveal_strlit("\"");
    reveal_strlit("1");
    reveal_strlit("0");
    assert(kind_text(Some("s"@)) =~= " t=\"s\""@);
    assert(kind_text(Some("b"@)) =~= " t=\"b\""@);
}

/// The texts of the numbers hold no markup.
pub open spec fn prints_plainly(numbers: NumberTable) -> bool {
    &&& forall|n: crate::number::Number| crate::markup::is_plain(#[trigger] numbers.shortest(n))
    &&& forall|n: crate::number::Number| crate::markup::is_plain(#[trigger] numbers.display(n))
}

/// How the value of a cell is stored, and the text of the value; `None` for a cell
/// that leaves no trace.
pub open spec fn stored_as(
    tables: Tables,
    value: Plain,
    numbers: NumberTable,
    streaming: bool,
) -> Option<(Option<Seq<char>>, Seq<char>)> {
    match value {
        Plain::Empty => None,
        Plain::Number(n) => if crate::number::is_finite(numbers.bits(n)) {
            Some((None, crate::xlsx_cells::number_text(n, numbers, streaming)))
        } else {
            Some((Some("s"@), crate::text::decimal(tables.string_index(numbers.display(n)))))
        },
        Plain::Integer(n) => Some((None, crate::text::decimal(n as int))),
        Plain::Boolean(b) => Some(
            (
                Some("b"@),
                if b {
                    "1"@
                } else {
                    "0"@
                },
            ),
        ),
        Plain::DateTime(d) => Some((None, crate::xlsx_cells::number_text(d, numbers, streaming))),
        Plain::Text(s) => Some((Some("s"@), crate::text::decimal(tables.string_index(s)))),
    }
}

/// The style that a cell is written with.
pub open spec fn written_style(tables: Tables, cell: Cell) -> Option<int> {
    match (tables.style_for(cell.format), cell.value) {
        (None, Plain::DateTime(_)) => Some(1),
        (style, _) => style,
    }
}

/// The pieces of a cell.
pub open spec fn pieces_of_cell(
    tables: Tables,
    cell: Cell,
    numbers: NumberTable,
    streaming: bool,
) -> Seq<Piece> {
    match stored_as(tables.with_format(cell.format), cell.value, numbers, streaming) {
        Some((kind, value)) => cell_pieces(kind, written_style(tables, cell), value),
        None => Seq::empty(),
    }
}

pub proof fn lemma_pieces_of_cell(
    tables: Tables,
    cell: Cell,
    numbers: NumberTable,
    streaming: bool,
)
    requires
        prints_plainly(numbers),
    ensures
        crate::markup::written(pieces_of_cell(tables, cell, numbers, streaming))
            == crate::xlsx_cells::cell(tables, cell, numbers, streaming).xml,
        crate::markup::is_block(pieces_of_cell(tables, cell, numbers, streaming)),
{
    let t = tables.with_format(cell.format);
    let style = written_style(tables, cell);
    lemma_kinds();
    crate::markup::lemma_block_none();
    match stored_as(t, cell.value, numbers, streaming) {
        None => {},
        Some((kind, value)) => {
            match cell.value {
                Plain::Number(n) => {
                    assert(crate::markup::is_plain(numbers.shortest(n)));
                    assert(crate::markup::is_plain(numbers.display(n)));
                    lemma_decimal_is_plain(t.string_index(numbers.display(n)));
                },
                Plain::DateTime(n) => {
                    assert(crate::markup::is_plain(numbers.shortest(n)));
                    assert(crate::markup::is_plain(numbers.display(n)));
                },
                Plain::Integer(n) => {
                    lemma_decimal_is_plain(n as int);
                },
                Plain::Text(s) => {
                    lemma_decimal_is_plain(t.string_index(s));
                },
                _ => {},
            }
            lemma_cell_pieces(kind, style, value);
        },
    }
}

/// The pieces of the first `n` cells of a row.
pub open spec fn pieces_of_cells(
    tables: Tables,
    row: Seq<Cell>,
    n: nat,
    numbers: NumberTable,
    streaming: bool,
) -> Seq<Piece>
    decreases n,
{
    if n == 0 {
        Seq::empty()
    } else {
        pieces_of_cells(tables, row, (n - 1) as nat, numbers, streaming) + pieces_of_cell(
            crate::xlsx_cells::cells(tables, row, (n - 1) as nat, numbers, streaming).tables,
            row[n - 1],
            numbers,
            streaming,
        )
    }
}

proof fn lemma_pieces_of_cells(
    tables: Tables,
    row: Seq<Cell>,
    n: nat,
    numbers: NumberTable,
    streaming: bool,
)
    requires
        prints_plainly(numbers),
        n <= row.len(),
    ensures
        crate::markup::written(pieces_of_cells(tables, row, n, numbers, streaming))
            == crate::xlsx_cells::cells(tables, row, n, numbers, streaming).xml,
        crate::markup::is_block(pieces_of_cells(tables, row, n, numbers, streaming)),
    decreases n,
{
    if n == 0 {
        crate::markup::lemma_block_none();
    } else {
        let m = (n - 1) as nat;
        lemma_pieces_of_cells(tables, row, m, numbers, streaming);
        let before = crate::xlsx_cells::cells(tables, row, m, numbers, streaming).tables;
        lemma_pieces_of_cell(before, row[n - 1], numbers, streaming);
        let a = pieces_of_cells(tables, row, m, numbers, streaming);
        let b = pieces_of_cell(before, row[n - 1], numbers, streaming);
        crate::markup::lemma_written_concat(a, b);
        crate::markup::lemma_block_concat(a, b);
    }
}

/// The text of a row around its cells.
pub proof fn lemma_row_text(inner: Seq<Piece>)
    requires
        crate::markup::is_block(inner),
    ensures
        crate::markup::written(crate::markup::element("row"@, Seq::empty(), inner)) == "<row>"@
            + crate::markup::written(inner) + "</row>"@,
        crate::markup::is_block(crate::markup::element("row"@, Seq::empty(), inner)),
{
    lemma_cell_names();
    lemma_no_attributes();
    crate::markup::lemma_block_element("row"@, Seq::empty(), inner);
    crate::markup::lemma_element_text("row"@, Seq::empty(), inner);
    reveal_strlit("<row>");
    reveal_strlit("</row>");
    reveal_strlit("<");
    reveal_strlit("</");
    reveal_strlit(">");
    reveal_strlit("row");
    assert("<row>"@ =~= "<"@ + ("row"@ + Seq::<char>::empty()) + ">"@);
    assert("</row>"@ =~= "</"@ + "row"@ + ">"@);
}

/// The pieces of a row.
pub open spec fn pieces_of_row(
    tables: Tables,
    row: Seq<Cell>,
    numbers: NumberTable,
    streaming: bool,
) -> Seq<Piece> {
    crate::markup::element(
        "row"@,
        Seq::empty(),
        pieces_of_cells(tables, row, row.len(), numbers, streaming),
    )
}

/// The pieces of the first `n` rows of a sheet.
pub open spec fn pieces_of_rows(
    tables: Tables,
    sheet: Seq<Seq<Cell>>,
    n: nat,
    numbers: NumberTable,
    streaming: bool,
) -> Seq<Piece>
    decreases n,
{
    if n == 0 {
        Seq::empty()
    } else {
        pieces_of_rows(tables, sheet, (n - 1) as nat, numbers, streaming) + pieces_of_row(
            crate::xlsx_cells::rows(tables, sheet, (n - 1) as nat, numbers, streaming).tables,
            sheet[n - 1],
            numbers,
            streaming,
        )
    }
}

pub proof fn lemma_pieces_of_rows(
    tables: Tables,
    sheet: Seq<Seq<Cell>>,
    n: nat,
    numbers: NumberTable,
    streaming: bool,
)
    requires
        prints_plainly(numbers),
        n <= sheet.len(),
    ensures
        crate::markup::written(pieces_of_rows(tables, sheet, n, numbers, streaming))
            == crate::xlsx_cells::rows(tables, sheet, n, numbers, streaming).xml,
        crate::markup::is_block(pieces_of_rows(tables, sheet, n, numbers, streaming)),
    decreases n,
{
    if n == 0 {
        crate::markup::lemma_block_none();
    } else {
        let m = (n - 1) as nat;
        let row = sheet[n - 1];
        lemma_pieces_of_rows(tables, sheet, m, numbers, streaming);
        let before = crate::xlsx_cells::rows(tables, sheet, m, numbers, streaming).tables;
        lemma_pieces_of_cells(before, row, row.len(), numbers, streaming);
        lemma_row_text(pieces_of_cells(before, row, row.len(), numbers, streaming));
        let a = pieces_of_rows(tables, sheet, m, numbers, streaming);
        let b = pieces_of_row(before, row, numbers, streaming);
        crate::markup::lemma_written_concat(a, b);
        crate::markup::lemma_block_concat(a, b);
    }
}

/// The pieces of the first `n` cells of a header row.
pub open spec fn pieces_of_headers(tables: Tables, headers: Seq<Seq<char>>, n: nat) -> Seq<Piece>
    decreases n,
{
    if n == 0 {
        Seq::empty()
    } else {
        pieces_of_headers(tables, headers, (n - 1) as nat) + cell_pieces(
            Some("s"@),
            Some(3),
            crate::text::decimal(
                crate::xlsx_cells::header_cells(
                    tables,
                    headers,
                    (n - 1) as nat,
                ).tables.string_index(headers[n - 1]),
            ),
        )
    }
}

/// The pieces of the header row, none where there are no headers.
pub open spec fn pieces_of_header_row(
    tables: Tables,
    headers: Option<Seq<Seq<char>>>,
) -> Seq<Piece> {
    match headers {
        Some(h) => crate::markup::element(
            "row"@,
            Seq::empty(),
            pieces_of_headers(tables, h, h.len()),
        ),
        None => Seq::empty(),
    }
}

proof fn lemma_pieces_of_headers(tables: Tables, headers: Seq<Seq<char>>, n: nat)
    requires
        n <= headers.len(),
    ensures
        crate::markup::written(pieces_of_headers(tables, headers, n))
            == crate::xlsx_cells::header_cells(tables, headers, n).xml,
        crate::markup::is_block(pieces_of_headers(tables, headers, n)),
    decreases n,
{
    if n == 0 {
        crate::markup::lemma_block_none();
    } else {
        let m = (n - 1) as nat;
        lemma_pieces_of_headers(tables, headers, m);
        let before = crate::xlsx_cells::header_cells(tables, headers, m).tables;
        let value = crate::text::decimal(before.string_index(headers[n - 1]));
        lemma_kinds();
        lemma_decimal_is_plain(before.string_index(headers[n - 1]));
        lemma_cell_pieces(Some("s"@), Some(3), value);
        let a = pieces_of_headers(tables, headers, m);
        let b = cell_pieces(Some("s"@), Some(3), value);
        crate::markup::lemma_written_concat(a, b);
        crate::markup::lemma_block_concat(a, b);
    }
}

pub proof fn lemma_pieces_of_header_row(tables: Tables, headers: Option<Seq<Seq<char>>>)
    ensures
        crate::markup::written(pieces_of_header_row(tables, headers))
            == crate::xlsx_cells::header_row(tables, headers).xml,
        crate::markup::is_block(pieces_of_header_row(tables, headers)),
{
    match headers {
        Some(h) => {
            lemma_pieces_of_headers(tables, h, h.len());
            lemma_row_text(pieces_of_headers(tables, h, h.len()));
        },
        None => {
            crate::markup::lemma_block_none();
        },
    }
}

} // verus!
