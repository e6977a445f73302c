//! What the XLSB reader makes of a sheet whose rows have been replaced.

use vstd::prelude::*;
use crate::formats::Cell;
use crate::number::NumberTable;
use crate::xlsb_package::XlsbPackage;
use crate::xlsb_reader::XlsbBookState;
use crate::xlsb_update_read::NewRows;
use crate::xlsx_package::StyleFallback;

verus! {

/// The worksheet has rows and cells nowhere but in its block of rows.
pub open spec fn is_quiet_around(bytes: Seq<u8>) -> bool {
    let region = crate::xlsb_patch::rows_region(bytes)->Ok_0;
    &&& crate::xlsb_laws::is_quiet(bytes.take(region.start))
    &&& crate::xlsb_laws::is_quiet(bytes.skip(region.end))
}

/// The worksheet says how far its rows reach in front of them or behind them, if at
/// all, and has its filter ranges behind them; where it does not say so in front of
/// them, the new rows have fewer than 2^32 bytes.
pub open spec fn takes(bytes: Seq<u8>, rows: Seq<u8>) -> bool {
    &&& bytes.len() + rows.len() <= usize::MAX
    &&& crate::xlsb_stream_laws::is_in_order(bytes) || crate::xlsb_stream_laws::is_apart(bytes)
        && rows.len() <= u32::MAX
}

/// What differs in front of the rows differs in a payload.
proof fn lemma_front_payloads(bytes: Seq<u8>, rows: Seq<u8>, last_row: u32, last_col: u32)
    requires
        bytes.len() + rows.len() <= usize::MAX,
        crate::xlsb_stream_laws::is_in_order(bytes) || crate::xlsb_stream_laws::is_apart(bytes)
            && crate::xlsb_stream_laws::are_records(rows),
        crate::xlsb_patch::patched_sheet(bytes, rows, last_row, last_col) is Ok,
    ensures
        ({
            let region = crate::xlsb_patch::rows_region(bytes)->Ok_0;
            let new = crate::xlsb_patch::patched_sheet(bytes, rows, last_row, last_col)->Ok_0;
            &&& new.len() == bytes.len() + rows.len() - (region.end - region.start)
            &&& crate::xlsb_walk_laws::differ_in_payloads(
                bytes.take(region.start),
                new.take(region.start),
            )
        }),
{
    let region = crate::xlsb_patch::rows_region(bytes)->Ok_0;
    crate::xlsb_stream_laws::lemma_region_led_to(bytes);
    crate::xlsb_stream_laws::lemma_dimension_found(bytes, rows, last_row, last_col);
    lemma_length(bytes, rows, last_row, last_col);
    let new = crate::xlsb_patch::patched_sheet(bytes, rows, last_row, last_col)->Ok_0;
    let front = bytes.take(region.start);
    let after = new.take(region.start);
    assert forall|j: int| 0 <= j < front.len() implies #[trigger] bytes[j] == front[j + 0] by {}
    crate::xlsb_walk_laws::lemma_stretch(bytes, front, 0, region.start, 0);
    assert forall|j: int| 0 <= j < front.len() && #[trigger] front[j] != after[j] implies
        crate::xlsb_walk_laws::in_payload(front, j) by {
        lemma_changed(bytes, rows, last_row, last_col, j);
        let at = crate::xlsb_patch::dimension_at(bytes, 0)->Ok_0->Some_0;
        assert(crate::xlsb_walk_laws::found_before(bytes, 0, region.start));
        crate::xlsb_walk_laws::lemma_dimension_in_payload(front, 0, j);
    }
}

/// The length of the worksheet once its rows have been replaced.
proof fn lemma_length(bytes: Seq<u8>, rows: Seq<u8>, last_row: u32, last_col: u32)
    requires
        bytes.len() + rows.len() <= usize::MAX,
        crate::xlsb_stream_laws::is_in_order(bytes) || crate::xlsb_stream_laws::is_apart(bytes)
            && crate::xlsb_stream_laws::are_records(rows),
        crate::xlsb_patch::patched_sheet(bytes, rows, last_row, last_col) is Ok,
    ensures
        ({
            let region = crate::xlsb_patch::rows_region(bytes)->Ok_0;
            let new = crate::xlsb_patch::patched_sheet(bytes, rows, last_row, last_col)->Ok_0;
            &&& new.len() == bytes.len() + rows.len() - (region.end - region.start)
            &&& new == new.take(region.start) + rows + new.skip(region.start + rows.len())
        }),
{
    let region = crate::xlsb_patch::rows_region(bytes)->Ok_0;
    crate::xlsb_patch::lemma_region_inside(bytes);
    crate::xlsb_stream_laws::lemma_region_led_to(bytes);
    crate::xlsb_stream_laws::lemma_dimension_found(bytes, rows, last_row, last_col);
    lemma_dimension_apart(bytes);
    crate::xlsb_patch::law_new_rows_stand_in_place(bytes, rows, last_row, last_col);
}

/// A dimension in front of the rows ends in front of them.
proof fn lemma_dimension_apart(bytes: Seq<u8>)
    requires
        bytes.len() <= usize::MAX,
        crate::xlsb_patch::rows_region(bytes) is Ok,
    ensures
        ({
            let region = crate::xlsb_patch::rows_region(bytes)->Ok_0;
            crate::xlsb_patch::dimension_at(bytes, 0) matches Ok(Some(at)) ==> at < region.start
                ==> at + 36 <= region.start
        }),
{
    let region = crate::xlsb_patch::rows_region(bytes)->Ok_0;
    crate::xlsb_stream_laws::lemma_region_led_to(bytes);
    crate::xlsb_walk_laws::lemma_stretch(bytes, bytes, 0, region.start, 0);
}

/// A byte that differs is one of the end of a filter range or of the dimension.
proof fn lemma_changed(bytes: Seq<u8>, rows: Seq<u8>, last_row: u32, last_col: u32, i: int)
    requires
        bytes.len() + rows.len() <= usize::MAX,
        crate::xlsb_stream_laws::is_in_order(bytes) || crate::xlsb_stream_laws::is_apart(bytes)
            && crate::xlsb_stream_laws::are_records(rows),
        crate::xlsb_patch::patched_sheet(bytes, rows, last_row, last_col) is Ok,
        ({
            let region = crate::xlsb_patch::rows_region(bytes)->Ok_0;
            let spliced = crate::xlsb_patch::spliced_bytes(bytes, region.start, region.end, rows);
            let new = crate::xlsb_patch::patched_sheet(bytes, rows, last_row, last_col)->Ok_0;
            0 <= i < spliced.len() && new[i] != spliced[i]
        }),
    ensures
        ({
            let region = crate::xlsb_patch::rows_region(bytes)->Ok_0;
            let n = rows.len() as int;
            ||| exists|k: int|
                0 <= k < region.filters.len() && crate::xlsb_patch::ends_filter(
                    #[trigger] region.filters[k] + crate::xlsb_patch::distance(region, n),
                    i,
                ) && i >= region.start + n
            ||| crate::xlsb_patch::dimension_at(bytes, 0) matches Ok(Some(at))
                && crate::xlsb_patch::ends_dimension(
                crate::xlsb_patch::moved_offset(at, region, n),
                i,
            ) && (at < region.start ==> i < region.start) && (at >= region.end ==> i
                >= region.start + n)
        }),
{
    let region = crate::xlsb_patch::rows_region(bytes)->Ok_0;
    let n = rows.len() as int;
    crate::xlsb_patch::lemma_region_inside(bytes);
    crate::xlsb_stream_laws::lemma_dimension_found(bytes, rows, last_row, last_col);
    lemma_dimension_apart(bytes);
    let by_filter = exists|k: int|
        0 <= k < region.filters.len() && crate::xlsb_patch::ends_filter(
            #[trigger] region.filters[k] + crate::xlsb_patch::distance(region, n),
            i,
        );
    if by_filter {
        let k = choose|k: int|
            0 <= k < region.filters.len() && crate::xlsb_patch::ends_filter(
                #[trigger] region.filters[k] + crate::xlsb_patch::distance(region, n),
                i,
            );
        assert(region.filters[k] >= region.end);
    } else {
        let by_dimension = crate::xlsb_patch::dimension_at(bytes, 0) matches Ok(Some(at))
            && crate::xlsb_patch::ends_dimension(
            crate::xlsb_patch::moved_offset(at, region, n),
            i,
        );
        if !by_dimension {
            crate::xlsb_patch::law_rows_are_replaced_in_place(bytes, rows, last_row, last_col, i);
        }
    }
}

/// What differs behind the rows differs in a payload.
proof fn lemma_back_payloads(bytes: Seq<u8>, rows: Seq<u8>, last_row: u32, last_col: u32)
    requires
        bytes.len() + rows.len() <= usize::MAX,
        crate::xlsb_stream_laws::is_in_order(bytes) || crate::xlsb_stream_laws::is_apart(bytes)
            && crate::xlsb_stream_laws::are_records(rows),
        crate::xlsb_patch::patched_sheet(bytes, rows, last_row, last_col) is Ok,
    ensures
        ({
            let region = crate::xlsb_patch::rows_region(bytes)->Ok_0;
            let new = crate::xlsb_patch::patched_sheet(bytes, rows, last_row, last_col)->Ok_0;
            crate::xlsb_walk_laws::differ_in_payloads(
                bytes.skip(region.end),
                new.skip(region.start + rows.len()),
            )
        }),
{
    let region = crate::xlsb_patch::rows_region(bytes)->Ok_0;
    let n = rows.len() as int;
    let len = bytes.len() as int;
    crate::xlsb_stream_laws::lemma_region_led_to(bytes);
    lemma_length(bytes, rows, last_row, last_col);
    let new = crate::xlsb_patch::patched_sheet(bytes, rows, last_row, last_col)->Ok_0;
    let behind = region.start + n;
    let back = bytes.skip(region.end);
    let after = new.skip(behind);
    crate::xlsb_walk_laws::lemma_leads_between(bytes, 0, region.end, len);
    assert forall|j: int| region.end <= j < len implies #[trigger] bytes[j] == back[j
        + -region.end] by {}
    crate::xlsb_walk_laws::lemma_stretch(bytes, back, region.end, len, -region.end);
    assert forall|j: int| 0 <= j < back.len() && #[trigger] back[j] != after[j] implies
        crate::xlsb_walk_laws::in_payload(back, j) by {
        lemma_changed(bytes, rows, last_row, last_col, j + behind);
        lemma_back_byte(bytes, n, j);
    }
}

/// The end of a filter range or of a dimension behind the rows lies in a payload.
proof fn lemma_back_byte(bytes: Seq<u8>, n: int, j: int)
    requires
        bytes.len() <= usize::MAX,
        crate::xlsb_patch::rows_region(bytes) is Ok,
        ({
            let region = crate::xlsb_patch::rows_region(bytes)->Ok_0;
            let i = j + region.start + n;
            &&& forall|k: int|
                0 <= k < region.filters.len() ==> #[trigger] region.filters[k] >= region.end
            &&& crate::xlsb_patch::dimension_at(bytes, 0) matches Ok(Some(at)) ==> at < region.start
                || at >= region.end
            &&& 0 <= j < bytes.len() - region.end
            &&& {
                ||| exists|k: int|
                    0 <= k < region.filters.len() && crate::xlsb_patch::ends_filter(
                        #[trigger] region.filters[k] + crate::xlsb_patch::distance(region, n),
                        i,
                    ) && i >= region.start + n
                ||| crate::xlsb_patch::dimension_at(bytes, 0) matches Ok(Some(at))
                    && crate::xlsb_patch::ends_dimension(
                    crate::xlsb_patch::moved_offset(at, region, n),
                    i,
                ) && (at < region.start ==> i < region.start) && (at >= region.end ==> i
                    >= region.start + n)
            }
        }),
        n >= 0,
    ensures
        crate::xlsb_walk_laws::in_payload(
            bytes.skip(crate::xlsb_patch::rows_region(bytes)->Ok_0.end),
            j,
        ),
{
    let region = crate::xlsb_patch::rows_region(bytes)->Ok_0;
    let end = region.end;
    let len = bytes.len() as int;
    let i = j + region.start + n;
    let back = bytes.skip(end);
    crate::xlsb_stream_laws::lemma_region_led_to(bytes);
    crate::xlsb_walk_laws::lemma_leads_between(bytes, 0, end, len);
    crate::xlsb_walk_laws::lemma_leads_between(bytes, 0, region.start, end);
    assert forall|k: int| end <= k < len implies #[trigger] bytes[k] == back[k + -end] by {}
    crate::xlsb_walk_laws::lemma_stretch(bytes, back, end, len, -end);
    if exists|k: int|
        0 <= k < region.filters.len() && crate::xlsb_patch::ends_filter(
            #[trigger] region.filters[k] + crate::xlsb_patch::distance(region, n),
            i,
        ) && i >= region.start + n {
        let k = choose|k: int|
            0 <= k < region.filters.len() && crate::xlsb_patch::ends_filter(
                #[trigger] region.filters[k] + crate::xlsb_patch::distance(region, n),
                i,
            ) && i >= region.start + n;
        let q = region.filters[k];
        assert(crate::xlsb_walk_laws::has_filter(bytes, 0, q));
        crate::xlsb_walk_laws::lemma_filter_behind(bytes, end, q);
        crate::xlsb_walk_laws::lemma_filter_inside(bytes, q);
        crate::xlsb_walk_laws::lemma_filter_moves(bytes, back, end, len, -end, q);
        crate::xlsb_walk_laws::lemma_filter_in_payload(back, q - end, j);
    } else {
        let at = crate::xlsb_patch::dimension_at(bytes, 0)->Ok_0->Some_0;
        crate::xlsb_walk_laws::lemma_stretch(bytes, bytes, 0, region.start, 0);
        crate::xlsb_walk_laws::lemma_stretch(bytes, bytes, region.start, end, 0);
        crate::xlsb_walk_laws::lemma_dimension_follows(bytes, 0);
        assert(crate::xlsb_walk_laws::found_before(bytes, end, len));
        crate::xlsb_walk_laws::lemma_dimension_in_payload(back, 0, j);
    }
}

/// A worksheet whose rows have been replaced is the new rows between records that
/// are neither rows nor cells.
pub proof fn law_patched_sheet_stays_quiet_around(
    bytes: Seq<u8>,
    rows: Seq<u8>,
    last_row: u32,
    last_col: u32,
)
    requires
        bytes.len() + rows.len() <= usize::MAX,
        crate::xlsb_stream_laws::is_in_order(bytes) || crate::xlsb_stream_laws::is_apart(bytes)
            && crate::xlsb_stream_laws::are_records(rows),
        is_quiet_around(bytes),
    ensures
        ({
            let region = crate::xlsb_patch::rows_region(bytes)->Ok_0;
            &&& crate::xlsb_patch::patched_sheet(bytes, rows, last_row, last_col) matches Ok(new)
            &&& new.len() <= usize::MAX
            &&& new == new.take(region.start) + rows + new.skip(region.start + rows.len())
            &&& crate::xlsb_laws::is_quiet(new.take(region.start))
            &&& crate::xlsb_laws::is_quiet(new.skip(region.start + rows.len()))
        }),
{
    let region = crate::xlsb_patch::rows_region(bytes)->Ok_0;
    crate::xlsb_stream_laws::law_assembled_sheet_is_the_patched_one(
        bytes,
        rows,
        last_row,
        last_col,
    );
    let new = crate::xlsb_patch::patched_sheet(bytes, rows, last_row, last_col)->Ok_0;
    crate::xlsb_patch::lemma_region_inside(bytes);
    lemma_length(bytes, rows, last_row, last_col);
    lemma_front_payloads(bytes, rows, last_row, last_col);
    lemma_back_payloads(bytes, rows, last_row, last_col);
    let kind = crate::xlsb_laws::no_cell();
    let front = bytes.take(region.start);
    let back = bytes.skip(region.end);
    assert(crate::xlsb_walk_laws::leads(front, 0, 0));
    assert(crate::xlsb_walk_laws::leads(back, 0, 0));
    crate::xlsb_walk_laws::lemma_records_kept(front, new.take(region.start), 0, kind);
    crate::xlsb_walk_laws::lemma_records_kept(
        back,
        new.skip(region.start + rows.len()),
        0,
        kind,
    );
}

/// The new rows of an update.
pub open spec fn new_rows(
    book: XlsbPackage,
    sheet: Seq<char>,
    rows: Seq<Seq<Cell>>,
    headers: Option<Seq<Seq<char>>>,
    fallback: StyleFallback,
    numbers: NumberTable,
) -> NewRows {
    let bytes = book.sheet_bytes(sheet)->Ok_0;
    let ready = book.released(bytes)->Ok_0;
    let kept = crate::xlsx_package::kept_rows(rows);
    let columns = crate::xlsx_package::larger(
        crate::xlsx_package::widest(kept),
        crate::xlsx_package::header_width(headers),
    );
    NewRows {
        strings: ready.strings,
        headers,
        rows: kept,
        last_col: if columns > 0 {
            columns - 1
        } else {
            0
        },
        looks: ready.looks(bytes, fallback)->Ok_0,
        numbers,
    }
}

/// A sheet whose rows have been replaced reads back: the part that the update leaves
/// in the workbook is entered, every read gives the next of the new lines, first the
/// headers and then the rows without the empty ones at their end, each cell as
/// [`value_back`](crate::xlsb_update_read::value_back) says, and behind the last line
/// the sheet ends. The worksheet has rows and cells nowhere but in its block of
/// rows, and it is neither the part of the shared strings nor a pivot cache; the
/// reader has the shared strings that the update has given out, which
/// [`law_shared_strings_are_kept`](crate::xlsb_string_laws::law_shared_strings_are_kept)
/// finds in their part.
pub proof fn law_updated_sheet_reads_back(
    book: XlsbPackage,
    sheet: Seq<char>,
    rows: Seq<Seq<Cell>>,
    headers: Option<Seq<Seq<char>>>,
    fallback: StyleFallback,
    numbers: NumberTable,
    reader: XlsbBookState,
    index: int,
    n: nat,
)
    requires
        book.replaced(sheet, rows, headers, fallback, numbers).fault is None,
        ({
            let bytes = book.sheet_bytes(sheet)->Ok_0;
            let new = new_rows(book, sheet, rows, headers, fallback, numbers);
            let path = book.sheets.paths[sheet];
            &&& takes(bytes, new.bytes(new.lines()))
            &&& is_quiet_around(bytes)
            &&& path != "xl/sharedStrings.bin"@
            &&& forall|i: int| 0 <= i < book.caches.len() ==> #[trigger] book.caches[i] != path
            &&& new.fits()
            &&& n <= new.lines()
            &&& crate::xlsb_update_read::are_found(
                book.replaced(sheet, rows, headers, fallback, numbers).book.strings,
                reader.info(),
            )
        }),
        0 <= index < reader.sheets.len(),
    ensures
        ({
            let done = book.replaced(sheet, rows, headers, fallback, numbers).book;
            let new = new_rows(book, sheet, rows, headers, fallback, numbers);
            &&& done.sheet_bytes(sheet) matches Ok(part)
            &&& {
                let (start, entered) = reader.begun(index, part);
                let before = crate::xlsb_laws::after_reads(start, n);
                let (after, read) = before.advanced();
                &&& entered == Ok::<bool, Seq<char>>(new.lines() > 0)
                &&& if n < new.lines() {
                    read == Ok::<bool, Seq<char>>(true) && after.row == new.line_back(
                        reader.info(),
                        n as int,
                    )
                } else {
                    read == Ok::<bool, Seq<char>>(false) && after == before
                }
            }
        }),
{
    let bytes = book.sheet_bytes(sheet)->Ok_0;
    let new = new_rows(book, sheet, rows, headers, fallback, numbers);
    let data = crate::xlsb_update_rows::sheet_rows(
        new.strings,
        new.headers,
        new.rows,
        new.last_col,
        new.looks,
        new.numbers,
    );
    let total = new.rows.len() + crate::xlsx_package::header_rows(headers);
    let columns = crate::xlsx_package::larger(
        crate::xlsx_package::widest(new.rows),
        crate::xlsx_package::header_width(headers),
    );
    let last_row = crate::xlsb_package::last_of(total);
    let last_col = crate::xlsb_package::last_of(columns);
    let region = crate::xlsb_patch::rows_region(bytes)->Ok_0;
    assert(new.bytes(new.lines()) == data.bytes);
    if data.bytes.len() <= u32::MAX {
        crate::xlsb_stream_laws::lemma_sheet_records(
            new.strings,
            new.headers,
            new.rows,
            new.last_col,
            new.looks,
            new.numbers,
        );
    }
    law_patched_sheet_stays_quiet_around(bytes, data.bytes, last_row, last_col);
    let part = crate::xlsb_patch::patched_sheet(bytes, data.bytes, last_row, last_col)->Ok_0;
    lemma_part_placed(book, sheet, rows, headers, fallback, numbers);
    crate::xlsb_update_read::law_replaced_rows_read_back(
        reader,
        index,
        new,
        part.take(region.start),
        part.skip(region.start + data.bytes.len()),
        n,
    );
}

/// An update that succeeds leaves the new worksheet in the workbook, with the shared
/// strings that its rows have given out.
proof fn lemma_part_placed(
    book: XlsbPackage,
    sheet: Seq<char>,
    rows: Seq<Seq<Cell>>,
    headers: Option<Seq<Seq<char>>>,
    fallback: StyleFallback,
    numbers: NumberTable,
)
    requires
        book.replaced(sheet, rows, headers, fallback, numbers).fault is None,
        ({
            let path = book.sheets.paths[sheet];
            &&& path != "xl/sharedStrings.bin"@
            &&& forall|i: int| 0 <= i < book.caches.len() ==> #[trigger] book.caches[i] != path
        }),
    ensures
        ({
            let done = book.replaced(sheet, rows, headers, fallback, numbers).book;
            let bytes = book.sheet_bytes(sheet)->Ok_0;
            let new = new_rows(book, sheet, rows, headers, fallback, numbers);
            let data = crate::xlsb_update_rows::sheet_rows(
                new.strings,
                new.headers,
                new.rows,
                new.last_col,
                new.looks,
                new.numbers,
            );
            let total = new.rows.len() + crate::xlsx_package::header_rows(headers);
            let columns = crate::xlsx_package::larger(
                crate::xlsx_package::widest(new.rows),
                crate::xlsx_package::header_width(headers),
            );
            &&& crate::xlsb_patch::patched_sheet(
                bytes,
                data.bytes,
                crate::xlsb_package::last_of(total),
                crate::xlsb_package::last_of(columns),
            ) matches Ok(part) && done.sheet_bytes(sheet) == Ok::<
                Seq<u8>,
                crate::xlsx_package::Fault,
            >(part)
            &&& done.strings.values == data.strings.values
            &&& done.strings.part is Some == data.strings.part is Some
        }),
{
    let bytes = book.sheet_bytes(sheet)->Ok_0;
    let new = new_rows(book, sheet, rows, headers, fallback, numbers);
    let ready = book.released(bytes)->Ok_0;
    let data = crate::xlsb_update_rows::sheet_rows(
        new.strings,
        new.headers,
        new.rows,
        new.last_col,
        new.looks,
        new.numbers,
    );
    let total = new.rows.len() + crate::xlsx_package::header_rows(headers);
    let columns = crate::xlsx_package::larger(
        crate::xlsx_package::widest(new.rows),
        crate::xlsx_package::header_width(headers),
    );
    let row = crate::xlsb_package::last_of(total);
    let col = crate::xlsb_package::last_of(columns);
    let outcome = ready.refilled(sheet, bytes, new.rows, headers, new.looks, numbers);
    assert(outcome == book.replaced(sheet, rows, headers, fallback, numbers));
    let filled = XlsbPackage { strings: data.strings, ..ready };
    assert(crate::xlsb_patch::patched_sheet(bytes, data.bytes, row, col) is Ok);
    let part = crate::xlsb_patch::patched_sheet(bytes, data.bytes, row, col)->Ok_0;
    lemma_stored(filled, sheet, row, col, part);
}

/// A worksheet that has been put into a workbook stays there while the rest is
/// brought in step.
proof fn lemma_stored(book: XlsbPackage, sheet: Seq<char>, row: u32, col: u32, part: Seq<u8>)
    requires
        book.sheets.paths.contains_key(sheet),
        ({
            let path = book.sheets.paths[sheet];
            &&& path != "xl/sharedStrings.bin"@
            &&& forall|i: int| 0 <= i < book.caches.len() ==> #[trigger] book.caches[i] != path
        }),
    ensures
        ({
            let path = book.sheets.paths[sheet];
            let done = book.put(path, part).settled(sheet, row, col).book;
            &&& done.sheet_bytes(sheet) == Ok::<Seq<u8>, crate::xlsx_package::Fault>(part)
            &&& done.strings.values == book.strings.values
            &&& done.strings.part is Some == book.strings.part is Some
        }),
{
    let path = book.sheets.paths[sheet];
    let stored = book.put(path, part);
    let other = path.push('x');
    assert(other.len() != path.len());
    crate::xlsb_update_laws::lemma_settled_keeps(stored, sheet, row, col, other, path);
}

/// A sheet whose rows have been replaced one by one reads back: of the worksheet that
/// the file holds once all rows have come, every read gives the next of the new lines,
/// as after [replacing them at once](law_updated_sheet_reads_back).
pub proof fn law_streamed_sheet_reads_back(
    book: XlsbPackage,
    sheet: Seq<char>,
    rows: Seq<Seq<Cell>>,
    headers: Option<Seq<Seq<char>>>,
    fallback: StyleFallback,
    numbers: NumberTable,
    reader: XlsbBookState,
    index: int,
    n: nat,
)
    requires
        book.begun(sheet, headers, fallback) is Ok,
        book.replaced(sheet, rows, headers, fallback, numbers).fault is None,
        ({
            let bytes = book.sheet_bytes(sheet)->Ok_0;
            let new = new_rows(book, sheet, rows, headers, fallback, numbers);
            let path = book.sheets.paths[sheet];
            &&& takes(bytes, new.bytes(new.lines()))
            &&& is_quiet_around(bytes)
            &&& path != "xl/sharedStrings.bin"@
            &&& forall|i: int| 0 <= i < book.caches.len() ==> #[trigger] book.caches[i] != path
            &&& new.fits()
            &&& n <= new.lines()
            &&& crate::xlsb_update_read::are_found(
                book.replaced(sheet, rows, headers, fallback, numbers).book.strings,
                reader.info(),
            )
        }),
        0 <= index < reader.sheets.len(),
    ensures
        ({
            let begun = book.begun(sheet, headers, fallback)->Ok_0;
            let taken = crate::xlsb_stream_laws::streamed(
                begun.book.strings,
                begun.stream,
                rows,
                rows.len(),
                numbers,
            );
            let part = crate::xlsb_stream_laws::assembled(
                begun.stream.bytes,
                crate::xlsb_stream_laws::rows_in_file(begun.header, taken),
                taken.stream.last_row(),
                taken.stream.last_col(),
            );
            let new = new_rows(book, sheet, rows, headers, fallback, numbers);
            let (start, entered) = reader.begun(index, part);
            let before = crate::xlsb_laws::after_reads(start, n);
            let (after, read) = before.advanced();
            &&& entered == Ok::<bool, Seq<char>>(new.lines() > 0)
            &&& if n < new.lines() {
                read == Ok::<bool, Seq<char>>(true) && after.row == new.line_back(
                    reader.info(),
                    n as int,
                )
            } else {
                read == Ok::<bool, Seq<char>>(false) && after == before
            }
        }),
{
    let begun = book.begun(sheet, headers, fallback)->Ok_0;
    let taken = crate::xlsb_stream_laws::streamed(
        begun.book.strings,
        begun.stream,
        rows,
        rows.len(),
        numbers,
    );
    let part = crate::xlsb_stream_laws::assembled(
        begun.stream.bytes,
        crate::xlsb_stream_laws::rows_in_file(begun.header, taken),
        taken.stream.last_row(),
        taken.stream.last_col(),
    );
    let new = new_rows(book, sheet, rows, headers, fallback, numbers);
    crate::xlsb_stream_laws::lemma_same_rows(
        book,
        sheet,
        rows,
        headers,
        begun.stream.bytes,
        book.released(begun.stream.bytes)->Ok_0,
        begun.stream.looks,
        numbers,
    );
    crate::xlsb_stream_laws::law_rows_one_by_one_are_rows_at_once(
        book,
        sheet,
        rows,
        headers,
        fallback,
        numbers,
    );
    lemma_stored(
        XlsbPackage { strings: taken.strings, ..begun.book },
        sheet,
        taken.stream.last_row(),
        taken.stream.last_col(),
        part,
    );
    law_updated_sheet_reads_back(
        book,
        sheet,
        rows,
        headers,
        fallback,
        numbers,
        reader,
        index,
        n,
    );
}

} // verus!
