//! What the XLSX reader makes of rows that have been handed to a worksheet one by
//! one.

use vstd::prelude::*;
use crate::formats::Cell;
use crate::number::NumberTable;
use crate::xlsx_package::{StreamState, StyleFallback, XlsxPackage};
use crate::xlsx_read_laws::Doubles;
use crate::xlsx_reader::{Progress, XlsxBookState};
use crate::xlsx_replaced_markup::SheetMarkup;
use crate::xlsx_update_read::NewSheet;
use crate::xlsx_update_rows::{Looks, Strings};

verus! {

/// What taking rows one by one has led to: the shared strings, how far the rows have
/// come, and the text of each of them.
pub struct Streamed {
    pub strings: Strings,
    pub stream: StreamState,
    pub rows: Seq<Seq<char>>,
}

/// What taking the first `n` rows leads to.
pub open spec fn streamed(
    strings: Strings,
    stream: StreamState,
    rows: Seq<Seq<Cell>>,
    n: nat,
    numbers: NumberTable,
) -> Streamed
    decreases n,
{
    if n == 0 {
        Streamed { strings, stream, rows: Seq::empty() }
    } else {
        let before = streamed(strings, stream, rows, (n - 1) as nat, numbers);
        let row = rows[n - 1];
        let cells = crate::xlsx_update_rows::value_cells(
            before.strings,
            row,
            row.len(),
            before.stream.looks,
            numbers,
        );
        Streamed {
            strings: cells.strings,
            stream: before.stream.with_row(row),
            rows: before.rows.push(before.stream.row_text(cells.xml)),
        }
    }
}

/// The first `n` texts, one behind the other.
pub open spec fn chained(texts: Seq<Seq<char>>, n: nat) -> Seq<char>
    decreases n,
{
    if n == 0 {
        Seq::empty()
    } else {
        chained(texts, (n - 1) as nat) + texts[n - 1]
    }
}

/// The rows that a file holds once all rows have come: the header row and those up to
/// the last that stays.
pub open spec fn rows_in_file(header: Seq<char>, taken: Streamed) -> Seq<char> {
    header + chained(taken.rows, taken.stream.kept as nat)
}

/// The new lines of an update whose rows came one by one.
pub open spec fn streamed_sheet(
    book: XlsxPackage,
    rows: Seq<Seq<Cell>>,
    headers: Option<Seq<Seq<char>>>,
    xml: Seq<char>,
    looks: Looks,
    numbers: NumberTable,
) -> NewSheet {
    NewSheet {
        strings: (book.released(xml)->Ok_0).strings,
        headers,
        rows: crate::xlsx_package::kept_rows(rows),
        looks,
        numbers,
        numbered: true,
    }
}

/// How far the rows have come, and the text of each.
proof fn lemma_taken(
    strings: Strings,
    stream: StreamState,
    rows: Seq<Seq<Cell>>,
    n: nat,
    numbers: NumberTable,
)
    requires
        n <= rows.len(),
        stream.seen == 0,
        stream.kept == 0,
    ensures
        ({
            let after = streamed(strings, stream, rows, n, numbers);
            &&& after.stream.seen == n
            &&& 0 <= after.stream.kept <= n
            &&& after.stream.has_headers == stream.has_headers
            &&& after.stream.looks == stream.looks
            &&& after.stream.prefix == stream.prefix
            &&& after.stream.xml == stream.xml
            &&& after.stream.path == stream.path
            &&& crate::xlsx_package::kept_rows(rows.take(n as int)) == rows.take(
                after.stream.kept,
            )
            &&& after.strings == crate::xlsx_update_rows::value_rows(
                strings,
                rows,
                n,
                stream.looks,
                numbers,
            ).strings
            &&& after.rows.len() == n
            &&& forall|i: int|
                0 <= i < n ==> #[trigger] after.rows[i] == row_taken(
                    strings,
                    stream,
                    rows,
                    i,
                    numbers,
                )
        }),
    decreases n,
{
    if n == 0 {
        assert(rows.take(0).len() == 0);
    } else {
        lemma_taken(strings, stream, rows, (n - 1) as nat, numbers);
        assert(rows.take(n as int).drop_last() =~= rows.take(n - 1));
        assert(rows.take(n as int).last() == rows[n - 1]);
        let before = streamed(strings, stream, rows, (n - 1) as nat, numbers);
        let after = streamed(strings, stream, rows, n, numbers);
        assert forall|i: int| 0 <= i < n implies #[trigger] after.rows[i] == row_taken(
            strings,
            stream,
            rows,
            i,
            numbers,
        ) by {
            if i < n - 1 {
                assert(after.rows[i] == before.rows[i]);
            }
        }
    }
}

/// The text of a row that has been taken.
spec fn row_taken(
    strings: Strings,
    stream: StreamState,
    rows: Seq<Seq<Cell>>,
    i: int,
    numbers: NumberTable,
) -> Seq<char> {
    crate::xlsx_update_rows::numbered_row(
        stream.prefix,
        i + stream.header_rows() + 1,
        crate::xlsx_update_rows::value_cells(
            crate::xlsx_update_rows::value_rows(
                strings,
                rows,
                i as nat,
                stream.looks,
                numbers,
            ).strings,
            rows[i],
            rows[i].len(),
            stream.looks,
            numbers,
        ).xml,
    )
}

/// Rows lead to the same strings whatever stands behind them.
proof fn lemma_rows_front(
    strings: Strings,
    a: Seq<Seq<Cell>>,
    b: Seq<Seq<Cell>>,
    n: nat,
    looks: Looks,
    numbers: NumberTable,
)
    requires
        forall|k: int| 0 <= k < n ==> a[k] == b[k],
    ensures
        crate::xlsx_update_rows::value_rows(strings, a, n, looks, numbers)
            == crate::xlsx_update_rows::value_rows(strings, b, n, looks, numbers),
    decreases n,
{
    if n > 0 {
        lemma_rows_front(strings, a, b, (n - 1) as nat, looks, numbers);
    }
}

/// The lines of a sheet are the header row and the texts of the rows that were taken.
proof fn lemma_lines(
    strings: Strings,
    stream: StreamState,
    rows: Seq<Seq<Cell>>,
    numbers: NumberTable,
    header: Seq<char>,
    new: NewSheet,
    k: nat,
)
    requires
        stream.seen == 0,
        stream.kept == 0,
        stream.prefix == Seq::<char>::empty(),
        stream.has_headers == new.headers is Some,
        stream.looks == new.looks,
        new.numbered,
        new.numbers == numbers,
        strings == new.header_strings(),
        header == new.text(new.first() as nat),
        k <= new.rows.len() <= rows.len(),
        forall|i: int| 0 <= i < new.rows.len() ==> new.rows[i] == rows[i],
    ensures
        header + chained(streamed(strings, stream, rows, rows.len(), numbers).rows, k)
            == new.text((new.first() + k) as nat),
    decreases k,
{
    let after = streamed(strings, stream, rows, rows.len(), numbers);
    if k == 0 {
        assert(header + Seq::<char>::empty() =~= header);
    } else {
        let m = (k - 1) as nat;
        lemma_lines(strings, stream, rows, numbers, header, new, m);
        lemma_taken(strings, stream, rows, rows.len(), numbers);
        lemma_rows_front(strings, new.rows, rows, m, new.looks, numbers);
        let i = new.first() + m;
        assert(after.rows[m as int] == row_taken(strings, stream, rows, m as int, numbers));
        assert(new.rows[m as int] == rows[m as int]);
        assert(new.line_text(i) == after.rows[m as int]);
        assert(new.text((i + 1) as nat) == new.text(i as nat) + new.line_text(i));
        assert(header + (chained(after.rows, m) + after.rows[m as int]) =~= (header + chained(
            after.rows,
            m,
        )) + after.rows[m as int]);
    }
}

/// The rows that a file holds once all rows have come are the new lines, with their
/// numbers; the empty rows at the end are left out.
pub proof fn law_streamed_rows_are_new_lines(
    book: XlsxPackage,
    sheet: Seq<char>,
    rows: Seq<Seq<Cell>>,
    headers: Option<Seq<Seq<char>>>,
    fallback: StyleFallback,
    numbers: NumberTable,
)
    requires
        book.begun(sheet, headers, fallback) matches Ok(begun)
            && crate::xlsx_package::rows_prefix(begun.stream.xml) == Seq::<char>::empty(),
    ensures
        ({
            let begun = book.begun(sheet, headers, fallback)->Ok_0;
            let taken = streamed(begun.book.strings, begun.stream, rows, rows.len(), numbers);
            let new = streamed_sheet(
                book,
                rows,
                headers,
                begun.stream.xml,
                begun.stream.looks,
                numbers,
            );
            &&& rows_in_file(begun.header, taken) == new.text(new.lines() as nat)
            &&& taken.stream.total_rows() == new.lines()
            &&& taken.stream.xml == begun.stream.xml
            &&& taken.strings == crate::xlsx_update_rows::value_rows(
                new.header_strings(),
                rows,
                rows.len(),
                new.looks,
                numbers,
            ).strings
        }),
{
    let begun = book.begun(sheet, headers, fallback)->Ok_0;
    let strings = begun.book.strings;
    let stream = begun.stream;
    let new = streamed_sheet(book, rows, headers, stream.xml, stream.looks, numbers);
    lemma_taken(strings, stream, rows, rows.len(), numbers);
    assert(rows.take(rows.len() as int) =~= rows);
    reveal_with_fuel(NewSheet::text, 2);
    assert(new.text(0) == Seq::<char>::empty());
    if headers is Some {
        assert(new.text(1) =~= begun.header);
    }
    lemma_lines(strings, stream, rows, numbers, begun.header, new, new.rows.len());
}

/// Rows that came one by one leave the worksheet staged in the file that they went
/// into.
pub proof fn law_streamed_sheet_is_staged(
    book: XlsxPackage,
    stream: StreamState,
    output: Seq<char>,
)
    requires
        book.completed(stream, output).fault is None,
        stream.path != "xl/sharedStrings.xml"@,
        forall|i: int|
            0 <= i < book.caches.len() ==> (#[trigger] book.caches[i]).path != stream.path,
        forall|i: int| 0 <= i < book.tables.len() ==> #[trigger] book.tables[i] != stream.path,
    ensures
        ({
            let done = book.completed(stream, output).book;
            &&& done.parts.staged.contains_key(stream.path)
            &&& done.parts.staged[stream.path].path == output
        }),
{
    let staged = XlsxPackage { parts: book.parts.with_staged(stream.path, output), ..book };
    let other = stream.path.push('x');
    assert(other.len() != stream.path.len());
    crate::xlsx_update_laws::lemma_settled_keeps(
        staged,
        stream.sheet,
        stream.dim(),
        stream.kept,
        other,
        stream.path,
    );
}

/// A worksheet whose rows have been replaced one by one reads back: it is staged in the
/// file that the rows went into; what goes in front of the rows, the rows that the
/// file holds and what goes behind them are a document of plain markup; of its events,
/// every read gives the next of the new lines, first the headers and then the rows
/// without the empty ones at their end, each as its cells that are not empty with the
/// values that [`value_back`](crate::xlsx_update_read::value_back) says, and behind the
/// last line the sheet ends. The worksheet is plain markup around its rows, and it is
/// neither the part of the shared strings nor of a pivot cache or table.
pub proof fn law_streamed_sheet_reads_back(
    book: XlsxPackage,
    sheet: Seq<char>,
    rows: Seq<Seq<Cell>>,
    headers: Option<Seq<Seq<char>>>,
    fallback: StyleFallback,
    numbers: NumberTable,
    m: SheetMarkup,
    output: Seq<char>,
    reader: XlsxBookState,
    index: int,
    doubles: Doubles,
    n: nat,
)
    requires
        m.is_tidy(),
        book.begun(sheet, headers, fallback) matches Ok(begun) && {
            let taken = streamed(begun.book.strings, begun.stream, rows, rows.len(), numbers);
            let filled = XlsxPackage { strings: taken.strings, ..begun.book };
            let path = begun.stream.path;
            let new = streamed_sheet(
                book,
                rows,
                headers,
                begun.stream.xml,
                begun.stream.looks,
                numbers,
            );
            &&& filled.completed(taken.stream, output).fault is None
            &&& path != "xl/sharedStrings.xml"@
            &&& forall|i: int|
                0 <= i < book.caches.len() ==> (#[trigger] book.caches[i]).path != path
            &&& forall|i: int| 0 <= i < book.tables.len() ==> #[trigger] book.tables[i] != path
            &&& begun.stream.xml == crate::markup::written(m.pieces())
            &&& new.fits()
            &&& new.is_readable(reader.info(), doubles)
            &&& n <= new.lines()
        },
        0 <= index,
    ensures
        ({
            let begun = book.begun(sheet, headers, fallback)->Ok_0;
            let taken = streamed(begun.book.strings, begun.stream, rows, rows.len(), numbers);
            let new = streamed_sheet(
                book,
                rows,
                headers,
                begun.stream.xml,
                begun.stream.looks,
                numbers,
            );
            let filled = XlsxPackage { strings: taken.strings, ..begun.book };
            let done = filled.completed(taken.stream, output).book;
            let dim = taken.stream.dim();
            let pieces = m.front(dim) + new.pieces() + m.back(dim, true);
            let start = reader.begun(index, crate::markup::items(pieces));
            let before = start.after_reads(doubles, n);
            let (after, read) = before.row_read(doubles);
            &&& done.parts.staged.contains_key(book.sheets.paths[sheet])
            &&& done.parts.staged[book.sheets.paths[sheet]].path == output
            &&& crate::xlsx_patch::around_rows(taken.stream.xml, dim) matches Ok((head, tail))
                && crate::markup::written(pieces) == head + rows_in_file(begun.header, taken)
                + tail
            &&& crate::markup::is_document(pieces)
            &&& if n < new.lines() {
                &&& read == Ok::<Progress, Seq<char>>(Progress::Row)
                &&& after.scan.row == new.line_back(reader.info(), doubles, n as int)
            } else {
                &&& read == Ok::<Progress, Seq<char>>(Progress::End)
                &&& after.scan.row == Seq::<Cell>::empty()
            }
        }),
{
    let begun = book.begun(sheet, headers, fallback)->Ok_0;
    let taken = streamed(begun.book.strings, begun.stream, rows, rows.len(), numbers);
    let new = streamed_sheet(
        book,
        rows,
        headers,
        begun.stream.xml,
        begun.stream.looks,
        numbers,
    );
    let filled = XlsxPackage { strings: taken.strings, ..begun.book };
    lemma_taken(begun.book.strings, begun.stream, rows, rows.len(), numbers);
    law_streamed_sheet_is_staged(filled, taken.stream, output);
    let dim = taken.stream.dim();
    crate::xlsx_update_read::law_new_rows_are_markup(new);
    crate::xlsx_updated_laws::law_frame_is_markup(
        m,
        new.pieces(),
        taken.stream.total_rows(),
        crate::xlsx_package::larger(taken.stream.width, 1),
    );
    law_streamed_rows_are_new_lines(book, sheet, rows, headers, fallback, numbers);
    crate::xlsx_update_read::law_replaced_rows_read_back(
        reader,
        index,
        new,
        m.front(dim),
        m.back(dim, true),
        doubles,
        n,
    );
}

} // verus!
