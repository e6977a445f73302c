//! What holds of the XLSX writer as a whole.

use vstd::prelude::*;
use crate::number::NumberTable;
use crate::xlsx_writer::{SheetOptions, XlsxBook};

verus! {

/// The UTF-8 bytes of two texts in a row are the bytes of the one, then the other.
pub proof fn lemma_encode_concat(a: Seq<char>, b: Seq<char>)
    ensures
        vstd::utf8::encode_utf8(a + b) == vstd::utf8::encode_utf8(a) + vstd::utf8::encode_utf8(b),
    decreases a.len(),
{
    if a.len() == 0 {
        assert(a + b =~= b);
        assert(vstd::utf8::encode_utf8(a) + vstd::utf8::encode_utf8(b)
            =~= vstd::utf8::encode_utf8(b));
    } else {
        lemma_encode_concat(a.drop_first(), b);
        assert((a + b).drop_first() =~= a.drop_first() + b);
        assert(vstd::utf8::encode_utf8(a + b) =~= vstd::utf8::encode_utf8(a)
            + vstd::utf8::encode_utf8(b));
    }
}

/// The number displays as its shortest text.
pub open spec fn prints_alike(value: crate::formats::Plain, numbers: NumberTable) -> bool {
    match value {
        crate::formats::Plain::Number(n) => numbers.display(n) == numbers.shortest(n),
        crate::formats::Plain::DateTime(n) => numbers.display(n) == numbers.shortest(n),
        _ => true,
    }
}

/// All numbers of a sheet display as their shortest texts.
pub open spec fn sheet_prints_alike(
    sheet: Seq<Seq<crate::formats::Cell>>,
    numbers: NumberTable,
) -> bool {
    forall|i: int, j: int|
        0 <= i < sheet.len() && 0 <= j < sheet[i].len() ==> prints_alike(
            (#[trigger] sheet[i][j]).value,
            numbers,
        )
}

/// The workbook after the first `n` rows of a sheet, written one by one.
pub open spec fn with_rows(
    book: XlsxBook,
    sheet: Seq<Seq<crate::formats::Cell>>,
    n: nat,
    numbers: NumberTable,
) -> XlsxBook
    decreases n,
{
    if n == 0 {
        book
    } else {
        with_rows(book, sheet, (n - 1) as nat, numbers).with_row(sheet[n - 1], numbers)
    }
}

proof fn lemma_cells_alike(
    tables: crate::sheet_tables::Tables,
    line: Seq<crate::formats::Cell>,
    n: nat,
    numbers: NumberTable,
)
    requires
        n <= line.len(),
        forall|j: int| 0 <= j < line.len() ==> prints_alike((#[trigger] line[j]).value, numbers),
    ensures
        crate::xlsx_cells::cells(tables, line, n, numbers, true) == crate::xlsx_cells::cells(
            tables,
            line,
            n,
            numbers,
            false,
        ),
    decreases n,
{
    if n > 0 {
        lemma_cells_alike(tables, line, (n - 1) as nat, numbers);
        assert(prints_alike(line[n - 1].value, numbers));
    }
}

/// Rows written one by one leave what the rows render to behind what is open.
pub proof fn lemma_rows_streamed(
    book: XlsxBook,
    sheet: Seq<Seq<crate::formats::Cell>>,
    n: nat,
    numbers: NumberTable,
)
    requires
        n <= sheet.len(),
        book.open is Some,
    ensures
        ({
            let after = with_rows(book, sheet, n, numbers);
            let written = crate::xlsx_cells::rows(book.tables, sheet, n, numbers, true);
            after == (XlsxBook {
                tables: written.tables,
                open: Some(
                    crate::xlsx_writer::OpenSheet {
                        rows: book.open->0.rows + n,
                        body: book.open->0.body + vstd::utf8::encode_utf8(written.xml),
                        ..book.open->0
                    },
                ),
                ..book
            })
        }),
    decreases n,
{
    if n == 0 {
        assert(book.open->0.body + vstd::utf8::encode_utf8(Seq::<char>::empty())
            =~= book.open->0.body);
    } else {
        let m = (n - 1) as nat;
        lemma_rows_streamed(book, sheet, m, numbers);
        let before = crate::xlsx_cells::rows(book.tables, sheet, m, numbers, true);
        let last = crate::xlsx_cells::row(before.tables, sheet[n - 1], numbers, true);
        lemma_encode_concat(before.xml, last.xml);
        assert(book.open->0.body + (vstd::utf8::encode_utf8(before.xml) + vstd::utf8::encode_utf8(
            last.xml,
        )) =~= book.open->0.body + vstd::utf8::encode_utf8(before.xml) + vstd::utf8::encode_utf8(
            last.xml,
        ));
    }
}

proof fn lemma_rows_alike(
    tables: crate::sheet_tables::Tables,
    sheet: Seq<Seq<crate::formats::Cell>>,
    n: nat,
    numbers: NumberTable,
)
    requires
        n <= sheet.len(),
        sheet_prints_alike(sheet, numbers),
    ensures
        crate::xlsx_cells::rows(tables, sheet, n, numbers, true) == crate::xlsx_cells::rows(
            tables,
            sheet,
            n,
            numbers,
            false,
        ),
    decreases n,
{
    if n > 0 {
        let m = (n - 1) as nat;
        lemma_rows_alike(tables, sheet, m, numbers);
        let before = crate::xlsx_cells::rows(tables, sheet, m, numbers, false);
        let line = sheet[n - 1];
        assert forall|j: int| 0 <= j < line.len() implies prints_alike(
            (#[trigger] line[j]).value,
            numbers,
        ) by {
            assert(prints_alike(sheet[n - 1][j].value, numbers));
        }
        lemma_cells_alike(before.tables, line, line.len(), numbers);
    }
}

/// A sheet that is started with its own rows as the sample, written row by row and
/// ended leaves the workbook exactly as one that is added and written at once,
/// where all its numbers display as their shortest texts.
pub proof fn law_streaming_matches_batch(
    book: XlsxBook,
    name: Seq<char>,
    columns: int,
    sheet: Seq<Seq<crate::formats::Cell>>,
    headers: Option<Seq<Seq<char>>>,
    options: SheetOptions,
    numbers: NumberTable,
)
    requires
        book.open is None,
        columns >= 0,
        crate::xlsx_writer::sample_cells(options.sample_rows) == Some(sheet),
        sheet_prints_alike(sheet, numbers),
    ensures
        with_rows(
            book.with_started_sheet(name, columns, headers, options, numbers),
            sheet,
            sheet.len(),
            numbers,
        ).with_ended_sheet() == book.with_sheet(name, options.hidden).with_written_sheet(
            columns,
            sheet,
            headers,
            options.do_autofilter,
            numbers,
        ),
{
    let started = book.with_started_sheet(name, columns, headers, options, numbers);
    let added = book.with_sheet(name, options.hidden);
    lemma_rows_streamed(started, sheet, sheet.len(), numbers);
    lemma_rows_alike(started.tables, sheet, sheet.len(), numbers);
    let streamed = with_rows(started, sheet, sheet.len(), numbers);
    let total_rows = streamed.open->0.rows;
    let header = crate::xlsx_cells::header_row(book.tables, headers);
    let body = crate::xlsx_cells::rows(header.tables, sheet, sheet.len(), numbers, false);
    let filtered = options.do_autofilter && headers is Some && columns > 0 && total_rows > 0;
    let start = crate::xlsx_writer::sheet_start(total_rows, columns);
    let widths = crate::xlsx_writer::fitted_widths(columns, headers, Some(sheet), numbers);
    let head = crate::xlsx_cells::sheet_head(widths, headers is Some, added.sheets.len() == 1);
    let end = crate::xlsx_writer::sheet_end(filtered, total_rows, columns);
    assert(streamed.open->0.body =~= vstd::utf8::encode_utf8(body.xml));
    lemma_encode_concat(start + (head + header.xml), body.xml);
    lemma_encode_concat(start + (head + header.xml) + body.xml, end);
    assert(start + (head + header.xml) + body.xml + end =~= start + head + header.xml + body.xml
        + end);
    assert(vstd::utf8::encode_utf8(start + (head + header.xml)) + (vstd::utf8::encode_utf8(body.xml)
        + vstd::utf8::encode_utf8(end)) =~= vstd::utf8::encode_utf8(start + (head + header.xml))
        + vstd::utf8::encode_utf8(body.xml) + vstd::utf8::encode_utf8(end));
}

} // verus!
