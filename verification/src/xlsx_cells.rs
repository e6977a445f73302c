//! Cells, rows and the head of an XLSX worksheet as XML text.

use vstd::prelude::*;
use crate::formats::{borrow_cell, get_format, CellValue, CellValueRef};
use crate::number::{finite, NumberTable};
use crate::sheet_tables::SheetTables;
use crate::text::push_decimal;
use crate::writer_helpers::{default_col_width, push_hundredths};
use crate::xml_utils::column_index_to_letter;

verus! {

/// What rendering leads to: the shared tables behind it, and its text.
pub struct Rendered {
    pub tables: crate::sheet_tables::Tables,
    pub xml: Seq<char>,
}

/// The style attribute of a cell.
pub open spec fn style_attr(style: Option<int>) -> Seq<char> {
    match style {
        Some(s) => " s=\""@ + crate::text::decimal(s) + "\""@,
        None => Seq::empty(),
    }
}

/// A cell element with its type attribute, its style and its value.
pub open spec fn cell_element(kind: Seq<char>, style: Option<int>, value: Seq<char>) -> Seq<char> {
    "<c"@ + kind + style_attr(style) + "><v>"@ + value + "</v></c>"@
}

/// The number text of a cell: a sheet written row by row shows what a number
/// displays as, a sheet written at once its shortest text.
pub open spec fn number_text(
    n: crate::number::Number,
    numbers: NumberTable,
    streaming: bool,
) -> Seq<char> {
    if streaming {
        numbers.display(n)
    } else {
        numbers.shortest(n)
    }
}

/// A cell that points at a shared string.
pub open spec fn string_cell(
    tables: crate::sheet_tables::Tables,
    style: Option<int>,
    text: Seq<char>,
) -> Rendered {
    Rendered {
        tables: tables.with_string(text),
        xml: cell_element(
            " t=\"s\""@,
            style,
            crate::text::decimal(tables.string_index(text)),
        ),
    }
}

/// A cell. One with neither value nor format leaves no trace, one with a format
/// alone registers the format. A number that is not finite is written as text, a
/// date without a format has style 1.
pub open spec fn cell(
    tables: crate::sheet_tables::Tables,
    cell: crate::formats::Cell,
    numbers: NumberTable,
    streaming: bool,
) -> Rendered {
    let style = tables.style_for(cell.format);
    let t = tables.with_format(cell.format);
    match cell.value {
        crate::formats::Plain::Empty => Rendered { tables: t, xml: Seq::empty() },
        crate::formats::Plain::Number(n) => if crate::number::is_finite(numbers.bits(n)) {
            Rendered {
                tables: t,
                xml: cell_element(Seq::empty(), style, number_text(n, numbers, streaming)),
            }
        } else {
            string_cell(t, style, numbers.display(n))
        },
        crate::formats::Plain::Integer(n) => Rendered {
            tables: t,
            xml: cell_element(Seq::empty(), style, crate::text::decimal(n as int)),
        },
        crate::formats::Plain::Boolean(b) => Rendered {
            tables: t,
            xml: cell_element(
                " t=\"b\""@,
                style,
                if b {
                    "1"@
                } else {
                    "0"@
                },
            ),
        },
        crate::formats::Plain::DateTime(d) => Rendered {
            tables: t,
            xml: cell_element(
                Seq::empty(),
                Some(
                    match style {
                        Some(s) => s,
                        None => 1,
                    },
                ),
                number_text(d, numbers, streaming),
            ),
        },
        crate::formats::Plain::Text(s) => string_cell(t, style, s),
    }
}

/// The first `n` cells of a row.
pub open spec fn cells(
    tables: crate::sheet_tables::Tables,
    row: Seq<crate::formats::Cell>,
    n: nat,
    numbers: NumberTable,
    streaming: bool,
) -> Rendered
    decreases n,
{
    if n == 0 {
        Rendered { tables, xml: Seq::empty() }
    } else {
        let before = cells(tables, row, (n - 1) as nat, numbers, streaming);
        let last = cell(before.tables, row[n - 1], numbers, streaming);
        Rendered { tables: last.tables, xml: before.xml + last.xml }
    }
}

/// A row.
pub open spec fn row(
    tables: crate::sheet_tables::Tables,
    row: Seq<crate::formats::Cell>,
    numbers: NumberTable,
    streaming: bool,
) -> Rendered {
    let inner = cells(tables, row, row.len(), numbers, streaming);
    Rendered { tables: inner.tables, xml: "<row>"@ + inner.xml + "</row>"@ }
}

/// The first `n` rows of a sheet.
pub open spec fn rows(
    tables: crate::sheet_tables::Tables,
    sheet: Seq<Seq<crate::formats::Cell>>,
    n: nat,
    numbers: NumberTable,
    streaming: bool,
) -> Rendered
    decreases n,
{
    if n == 0 {
        Rendered { tables, xml: Seq::empty() }
    } else {
        let before = rows(tables, sheet, (n - 1) as nat, numbers, streaming);
        let last = row(before.tables, sheet[n - 1], numbers, streaming);
        Rendered { tables: last.tables, xml: before.xml + last.xml }
    }
}

/// The first `n` cells of a header row, all in style 3.
pub open spec fn header_cells(
    tables: crate::sheet_tables::Tables,
    headers: Seq<Seq<char>>,
    n: nat,
) -> Rendered
    decreases n,
{
    if n == 0 {
        Rendered { tables, xml: Seq::empty() }
    } else {
        let before = header_cells(tables, headers, (n - 1) as nat);
        let last = string_cell(before.tables, Some(3), headers[n - 1]);
        Rendered { tables: last.tables, xml: before.xml + last.xml }
    }
}

/// The header row, nothing where there are no headers.
pub open spec fn header_row(
    tables: crate::sheet_tables::Tables,
    headers: Option<Seq<Seq<char>>>,
) -> Rendered {
    match headers {
        Some(h) => {
            let inner = header_cells(tables, h, h.len());
            Rendered { tables: inner.tables, xml: "<row>"@ + inner.xml + "</row>"@ }
        },
        None => Rendered { tables, xml: Seq::empty() },
    }
}

/// The texts of optional headers.
pub open spec fn header_texts(headers: Option<&[String]>) -> Option<Seq<Seq<char>>> {
    match headers {
        Some(h) => Some(crate::biff12::texts(h@)),
        None => None,
    }
}

/// Appends a cell element.
fn push_element(out: &mut String, kind: &str, style: Option<usize>, value: &str)
    ensures
        final(out)@ == old(out)@ + cell_element(
            kind@,
            match style {
                Some(s) => Some(s as int),
                None => None,
            },
            value@,
        ),
{
    let ghost before = out@;
    out.append("<c");
    out.append(kind);
    match style {
        Some(s) => {
            out.append(" s=\"");
            push_decimal(out, s as i128);
            out.append("\"");
        },
        None => {},
    }
    out.append("><v>");
    out.append(value);
    out.append("</v></c>");
    assert(out@ =~= before + cell_element(
        kind@,
        match style {
            Some(s) => Some(s as int),
            None => None,
        },
        value@,
    ));
}

/// Appends a cell that points at a shared string.
fn push_string_cell(tables: &mut SheetTables, out: &mut String, style: Option<usize>, text: &str)
    requires
        old(tables).wf(),
        old(tables)@.uses < u64::MAX,
    ensures
        final(tables).wf(),
        ({
            let r = string_cell(
                old(tables)@,
                match style {
                    Some(s) => Some(s as int),
                    None => None,
                },
                text@,
            );
            final(tables)@ == r.tables && final(out)@ == old(out)@ + r.xml
        }),
        final(tables)@.grown(old(tables)@, 1),
{
    let index: usize = tables.intern_string(text);
    let value = crate::text::decimal_text(index as i128);
    push_element(out, " t=\"s\"", style, value.as_str());
}

/// Appends a cell.
pub fn push_cell(
    tables: &mut SheetTables,
    out: &mut String,
    raw: &CellValue,
    numbers: &NumberTable,
    streaming: bool,
)
    requires
        old(tables).wf(),
        old(tables)@.has_room(1),
    ensures
        final(tables).wf(),
        ({
            let r = cell(old(tables)@, raw@, *numbers, streaming);
            final(tables)@ == r.tables && final(out)@ == old(out)@ + r.xml
        }),
        final(tables)@.grown(old(tables)@, 1),
{
    let ghost start = tables@;
    let style: Option<usize> = match get_format(raw) {
        Some(format) => Some(tables.register_format(format)),
        None => None,
    };
    assert("".view() =~= Seq::<char>::empty()) by {
        reveal_strlit("");
    }
    match borrow_cell(raw) {
        CellValueRef::Empty => {
            assert(out@ + Seq::<char>::empty() =~= out@);
        },
        CellValueRef::Number(n) => {
            if finite(numbers.bits_of(n)) {
                let text = if streaming {
                    numbers.display_text(n)
                } else {
                    numbers.shortest_text(n)
                };
                push_element(out, "", style, text);
            } else {
                push_string_cell(tables, out, style, numbers.display_text(n));
            }
        },
        CellValueRef::Integer(n) => {
            let text = crate::text::decimal_text(n as i128);
            push_element(out, "", style, text.as_str());
        },
        CellValueRef::Boolean(b) => {
            push_element(
                out,
                " t=\"b\"",
                style,
                if b {
                    "1"
                } else {
                    "0"
                },
            );
        },
        CellValueRef::DateTime(d) => {
            let text = if streaming {
                numbers.display_text(d)
            } else {
                numbers.shortest_text(d)
            };
            let style: usize = match style {
                Some(s) => s,
                None => 1,
            };
            push_element(out, "", Some(style), text);
        },
        CellValueRef::Text(s) => {
            push_string_cell(tables, out, style, s);
        },
    }
}

/// Appends a row.
pub fn push_row(
    tables: &mut SheetTables,
    out: &mut String,
    line: &[CellValue],
    numbers: &NumberTable,
    streaming: bool,
)
    requires
        old(tables).wf(),
        old(tables)@.has_room(line@.len() as int),
    ensures
        final(tables).wf(),
        ({
            let r = row(
                old(tables)@,
                crate::formats::row_cells(line@),
                *numbers,
                streaming,
            );
            final(tables)@ == r.tables && final(out)@ == old(out)@ + r.xml
        }),
        final(tables)@.grown(old(tables)@, line@.len() as int),
{
    let ghost start = tables@;
    let ghost before = out@;
    let ghost content = crate::formats::row_cells(line@);
    out.append("<row>");
    let ghost open = out@;
    let mut i: usize = 0;
    assert(open + Seq::<char>::empty() =~= open);
    while i < line.len()
        invariant
            i <= line.len(),
            tables.wf(),
            start.has_room(line@.len() as int),
            content == crate::formats::row_cells(line@),
            tables@ == cells(start, content, i as nat, *numbers, streaming).tables,
            out@ == open + cells(start, content, i as nat, *numbers, streaming).xml,
            tables@.grown(start, i as int),
        decreases line.len() - i,
    {
        let ghost mid = tables@;
        push_cell(tables, out, &line[i], numbers, streaming);
        proof {
            assert(content[i as int] == line@[i as int]@);
            crate::sheet_tables::lemma_grown_trans(start, mid, tables@, i as int, 1);
            assert(out@ =~= open + cells(start, content, i as nat + 1, *numbers, streaming).xml);
        }
        i += 1;
    }
    out.append("</row>");
    assert(out@ =~= before + row(start, content, *numbers, streaming).xml);
}

/// Appends the rows of a sheet.
pub fn push_rows(
    tables: &mut SheetTables,
    out: &mut String,
    sheet: &Vec<Vec<CellValue>>,
    column_count: usize,
    numbers: &NumberTable,
)
    requires
        old(tables).wf(),
        forall|i: int| 0 <= i < sheet@.len() ==> (#[trigger] sheet@[i])@.len() == column_count,
        old(tables)@.has_room(sheet@.len() * column_count),
    ensures
        final(tables).wf(),
        ({
            let r = rows(
                old(tables)@,
                crate::formats::sheet_cells(sheet@),
                sheet@.len(),
                *numbers,
                false,
            );
            final(tables)@ == r.tables && final(out)@ == old(out)@ + r.xml
        }),
        final(tables)@.grown(old(tables)@, sheet@.len() * column_count),
{
    let ghost start = tables@;
    let ghost before = out@;
    let ghost content = crate::formats::sheet_cells(sheet@);
    let mut i: usize = 0;
    assert(before + Seq::<char>::empty() =~= before);
    while i < sheet.len()
        invariant
            i <= sheet.len(),
            tables.wf(),
            forall|i: int| 0 <= i < sheet@.len() ==> (#[trigger] sheet@[i])@.len() == column_count,
            start.has_room(sheet@.len() * column_count),
            content == crate::formats::sheet_cells(sheet@),
            tables@ == rows(start, content, i as nat, *numbers, false).tables,
            out@ == before + rows(start, content, i as nat, *numbers, false).xml,
            tables@.grown(start, i * column_count),
        decreases sheet.len() - i,
    {
        let ghost mid = tables@;
        proof {
            assert(i * column_count + column_count == (i + 1) * column_count) by (nonlinear_arith);
            assert((i + 1) * column_count <= sheet@.len() * column_count) by (nonlinear_arith)
                requires
                    i + 1 <= sheet@.len(),
            ;
            assert(content[i as int] == crate::formats::row_cells(sheet@[i as int]@));
        }
        push_row(tables, out, sheet[i].as_slice(), numbers, false);
        proof {
            crate::sheet_tables::lemma_grown_trans(
                start,
                mid,
                tables@,
                i * column_count,
                column_count as int,
            );
            assert(out@ =~= before + rows(start, content, i as nat + 1, *numbers, false).xml);
        }
        i += 1;
    }
}

/// Appends the header row, nothing where there are no headers.
pub fn push_header_row(tables: &mut SheetTables, out: &mut String, headers: Option<&[String]>)
    requires
        old(tables).wf(),
        headers matches Some(h) ==> old(tables)@.has_room(h@.len() as int),
    ensures
        final(tables).wf(),
        ({
            let r = header_row(old(tables)@, header_texts(headers));
            final(tables)@ == r.tables && final(out)@ == old(out)@ + r.xml
        }),
        headers matches Some(h) ==> final(tables)@.grown(old(tables)@, h@.len() as int),
        headers is None ==> final(tables)@ == old(tables)@,
{
    let ghost start = tables@;
    let ghost before = out@;
    match headers {
        None => {
            assert(out@ + Seq::<char>::empty() =~= out@);
        },
        Some(h) => {
            let ghost texts = crate::biff12::texts(h@);
            out.append("<row>");
            let ghost open = out@;
            let mut i: usize = 0;
            assert(open + Seq::<char>::empty() =~= open);
            while i < h.len()
                invariant
                    i <= h.len(),
                    tables.wf(),
                    start.has_room(h@.len() as int),
                    texts == crate::biff12::texts(h@),
                    tables@ == header_cells(start, texts, i as nat).tables,
                    out@ == open + header_cells(start, texts, i as nat).xml,
                    tables@.grown(start, i as int),
                decreases h.len() - i,
            {
                let ghost mid = tables@;
                push_string_cell(tables, out, Some(3), h[i].as_str());
                proof {
                    crate::sheet_tables::lemma_grown_trans(start, mid, tables@, i as int, 1);
                    assert(out@ =~= open + header_cells(start, texts, i as nat + 1).xml);
                }
                i += 1;
            }
            out.append("</row>");
            assert(out@ =~= before + header_row(start, Some(texts)).xml);
        },
    }
}

/// The declaration of a document.
pub const DECLARATION: &'static str = r#"xml version="1.0" encoding="UTF-8" standalone="yes""#;

pub const MAIN_NAMESPACE: &'static str = "http://schemas.openxmlformats.org/spreadsheetml/2006/main";

pub const RELATIONSHIP_NAMESPACE: &'static str = "http://schemas.openxmlformats.org/officeDocument/2006/relationships";

/// The declaration and the opening tag of a worksheet.
pub open spec fn worksheet_open() -> Seq<char> {
    "<?"@ + DECLARATION@ + "?>"@ + "<worksheet xmlns=\""@ + MAIN_NAMESPACE@ + "\" xmlns:r=\""@
        + RELATIONSHIP_NAMESPACE@ + "\">"@
}

/// The start of a worksheet's part: the declaration and the opening tag.
pub fn worksheet_start() -> (out: String)
    ensures
        out@ == worksheet_open(),
{
    let mut out = "<?".to_owned();
    out.append(DECLARATION);
    out.append("?>");
    out.append("<worksheet xmlns=\"");
    out.append(MAIN_NAMESPACE);
    out.append("\" xmlns:r=\"");
    out.append(RELATIONSHIP_NAMESPACE);
    out.append("\">");
    out
}

/// The view of a sheet: the first one is selected, and a header row is frozen.
pub open spec fn sheet_views(has_headers: bool, is_first: bool) -> Seq<char> {
    "<sheetViews><sheetView"@ + (if is_first {
        " tabSelected=\"1\""@
    } else {
        Seq::empty()
    }) + " workbookViewId=\"0\""@ + (if has_headers {
        "><pane ySplit=\"1\" topLeftCell=\"A2\""@ + " activePane=\"bottomLeft\" state=\"frozen\" />"@
            + "<selection pane=\"bottomLeft\" />"@ + "</sheetView>"@
    } else {
        "/>"@
    }) + "</sheetViews>"@ + "<sheetFormatPr defaultRowHeight=\"15\"/>"@
}

/// Appends the view of a sheet.
fn push_sheet_views(out: &mut String, has_headers: bool, is_first: bool)
    ensures
        final(out)@ == old(out)@ + sheet_views(has_headers, is_first),
{
    let ghost before = out@;
    out.append("<sheetViews><sheetView");
    if is_first {
        out.append(" tabSelected=\"1\"");
    }
    out.append(" workbookViewId=\"0\"");
    if has_headers {
        out.append("><pane ySplit=\"1\" topLeftCell=\"A2\"");
        out.append(" activePane=\"bottomLeft\" state=\"frozen\" />");
        out.append("<selection pane=\"bottomLeft\" />");
        out.append("</sheetView>");
    } else {
        out.append("/>");
    }
    out.append("</sheetViews>");
    out.append("<sheetFormatPr defaultRowHeight=\"15\"/>");
    assert(out@ =~= before + sheet_views(has_headers, is_first));
}

/// The element of one column, counted from one, and its width.
pub open spec fn column_element(n: int, width: int) -> Seq<char> {
    "<col min=\""@ + crate::text::decimal(n) + "\" max=\""@ + crate::text::decimal(n)
        + "\" width=\""@ + crate::writer_helpers::hundredths_text(
        crate::writer_helpers::written_width(width, false) as nat,
    ) + "\" bestFit=\"1\" customWidth=\"1\" />"@
}

/// The elements of the first `n` columns.
pub open spec fn column_elements(widths: Seq<int>, n: nat) -> Seq<char>
    decreases n,
{
    if n == 0 {
        Seq::empty()
    } else {
        column_elements(widths, (n - 1) as nat) + column_element(n as int, widths[n - 1])
    }
}

/// Everything from the view of a sheet to the start of its rows.
pub open spec fn sheet_head(widths: Seq<int>, has_headers: bool, is_first: bool) -> Seq<char> {
    sheet_views(has_headers, is_first) + "<cols>"@ + column_elements(widths, widths.len())
        + "</cols><sheetData>"@
}

/// The range from the first cell to the last one of a sheet with rows and columns.
pub open spec fn used_range(total_rows: int, column_count: int) -> Seq<char> {
    "A1:"@ + crate::xml_utils::column_letters(column_count as nat) + crate::text::decimal(
        total_rows,
    )
}

/// The dimension element of a sheet.
pub open spec fn dimension(total_rows: int, column_count: int) -> Seq<char> {
    if total_rows > 0 && column_count > 0 {
        "<dimension ref=\""@ + used_range(total_rows, column_count) + "\"/>"@
    } else {
        "<dimension ref=\"A1\"/>"@
    }
}

/// The filter element of a sheet with rows and columns.
pub open spec fn auto_filter(total_rows: int, column_count: int) -> Seq<char> {
    "<autoFilter ref=\""@ + used_range(total_rows, column_count) + "\"/>"@
}

/// Appends everything from the view of a sheet to the start of its rows.
pub fn push_sheet_head(out: &mut String, widths: &Vec<i64>, has_headers: bool, is_first: bool)
    requires
        widths.len() < usize::MAX,
    ensures
        final(out)@ == old(out)@ + sheet_head(
            crate::writer_helpers::width_values(widths@),
            has_headers,
            is_first,
        ),
{
    let ghost before = out@;
    let ghost values = crate::writer_helpers::width_values(widths@);
    push_sheet_views(out, has_headers, is_first);
    out.append("<cols>");
    let ghost open = out@;
    assert(open + Seq::<char>::empty() =~= open);
    let mut i: usize = 0;
    while i < widths.len()
        invariant
            i <= widths.len() < usize::MAX,
            values == crate::writer_helpers::width_values(widths@),
            out@ == open + column_elements(values, i as nat),
        decreases widths.len() - i,
    {
        let ghost mid = out@;
        let width: i64 = default_col_width(widths[i], false);
        out.append("<col min=\"");
        push_decimal(out, i as i128 + 1);
        out.append("\" max=\"");
        push_decimal(out, i as i128 + 1);
        out.append("\" width=\"");
        push_hundredths(out, width as u64);
        out.append("\" bestFit=\"1\" customWidth=\"1\" />");
        proof {
            assert(values[i as int] == widths@[i as int]);
            assert(out@ =~= mid + column_element(i as int + 1, values[i as int]));
            assert(out@ =~= open + column_elements(values, i as nat + 1));
        }
        i += 1;
    }
    out.append("</cols><sheetData>");
    assert(out@ =~= before + sheet_head(values, has_headers, is_first));
}

/// Appends the range from the first cell to the last one.
pub fn push_used_range(out: &mut String, total_rows: u64, column_count: usize)
    requires
        0 < column_count,
    ensures
        final(out)@ == old(out)@ + used_range(total_rows as int, column_count as int),
{
    let ghost before = out@;
    out.append("A1:");
    let letters = column_index_to_letter(column_count - 1);
    out.append(letters.as_str());
    push_decimal(out, total_rows as i128);
    assert(out@ =~= before + used_range(total_rows as int, column_count as int));
}

/// Appends the dimension element of a sheet.
pub fn push_dimension(out: &mut String, total_rows: u64, column_count: usize)
    ensures
        final(out)@ == old(out)@ + dimension(total_rows as int, column_count as int),
{
    let ghost before = out@;
    if total_rows > 0 && column_count > 0 {
        out.append("<dimension ref=\"");
        push_used_range(out, total_rows, column_count);
        out.append("\"/>");
    } else {
        out.append("<dimension ref=\"A1\"/>");
    }
    assert(out@ =~= before + dimension(total_rows as int, column_count as int));
}

/// Appends the filter element of a sheet.
pub fn push_auto_filter(out: &mut String, total_rows: u64, column_count: usize)
    requires
        0 < column_count,
    ensures
        final(out)@ == old(out)@ + auto_filter(total_rows as int, column_count as int),
{
    let ghost before = out@;
    out.append("<autoFilter ref=\"");
    push_used_range(out, total_rows, column_count);
    out.append("\"/>");
    assert(out@ =~= before + auto_filter(total_rows as int, column_count as int));
}

} // verus!
