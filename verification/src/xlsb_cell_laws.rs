//! What the XLSB cell reader makes of the sheets that the XLSB writer makes.

use vstd::prelude::*;
use crate::formats::{Cell, Plain};
use crate::number::NumberTable;
use crate::sheet_tables::Tables;
use crate::xlsb_laws::Page;
use crate::xlsb_reader::{BookInfo, CellCursor, PlacedCell};

verus! {

/// A cursor moves forward to each of its cells.
pub proof fn lemma_next_advances(c: CellCursor)
    requires
        c.decoder.wf(),
    ensures
        c.next().0.decoder.wf(),
        c.next().0.decoder.buffer == c.decoder.buffer,
        c.next().1 matches Ok(Some(_)) ==> c.next().0.decoder.pos > c.decoder.pos,
    decreases c.decoder.buffer.len() - c.decoder.pos,
{
    crate::xlsb_reader::lemma_step_advances(c.decoder);
    let step = c.decoder.worksheet_step();
    let moved = CellCursor { decoder: step.after, ..c };
    if step.result == Ok::<bool, Seq<char>>(true) {
        lemma_next_advances(moved);
        lemma_next_advances(
            CellCursor {
                active_row: Some(step.after.row_index as i32),
                row: step.after.row_index as u32,
                ..moved
            },
        );
    }
}

/// The cells that a cursor still gives, added to those already found, and whether
/// they could be read to their end.
pub open spec fn cells_left(c: CellCursor, found: Seq<PlacedCell>) -> (
    Seq<PlacedCell>,
    Result<(), Seq<char>>,
)
    decreases c.decoder.buffer.len() - c.decoder.pos,
    when c.decoder.wf()
{
    proof {
        lemma_next_advances(c);
    }
    match c.next() {
        (after, Ok(Some(cell))) => cells_left(after, found.push(cell)),
        (_, Ok(None)) => (found, Ok(())),
        (_, Err(message)) => (found, Err(message)),
    }
}

/// A record that is no cell and opens no row is passed over.
proof fn lemma_passed(c: CellCursor, found: Seq<PlacedCell>)
    requires
        c.decoder.wf(),
        c.decoder.worksheet_step().result == Ok::<bool, Seq<char>>(true),
        c.decoder.worksheet_step().after.wf(),
        !c.decoder.worksheet_step().after.read_cell,
        ({
            let row = c.decoder.worksheet_step().after.row_index;
            row < 0 || c.active_row == Some(row as i32)
        }),
    ensures
        cells_left(c, found) == cells_left(
            CellCursor { decoder: c.decoder.worksheet_step().after, ..c },
            found,
        ),
{
    let moved = CellCursor { decoder: c.decoder.worksheet_step().after, ..c };
    assert(c.next() == moved.next());
}

/// A row is entered.
proof fn lemma_row_entered(c: CellCursor, row: int, found: Seq<PlacedCell>)
    requires
        c.decoder.wf(),
        c.decoder.worksheet_step().result == Ok::<bool, Seq<char>>(true),
        c.decoder.worksheet_step().after.wf(),
        c.decoder.worksheet_step().after.row_index == row,
        0 <= row < 1_048_576,
        c.active_row != Some(row as i32),
    ensures
        cells_left(c, found) == cells_left(
            CellCursor {
                decoder: c.decoder.worksheet_step().after,
                active_row: Some(row as i32),
                row: row as u32,
                ..c
            },
            found,
        ),
{
    let moved = CellCursor {
        decoder: c.decoder.worksheet_step().after,
        active_row: Some(row as i32),
        row: row as u32,
        ..c
    };
    assert(c.next() == moved.next());
}

/// A cell is given.
proof fn lemma_given(
    c: CellCursor,
    len: int,
    col: int,
    value: Plain,
    found: Seq<PlacedCell>,
)
    requires
        c.decoder.wf(),
        0 <= col < 16_384,
        c.decoder.row_index >= 0,
        c.active_row == Some(c.decoder.row_index as i32),
        crate::xlsb_laws::reads_value(c.decoder, c.info, len, col, value),
    ensures
        cells_left(c, found) == cells_left(
            CellCursor { decoder: c.decoder.worksheet_step().after, ..c },
            found.push(PlacedCell { row: c.row, column: col as u32, value }),
        ),
{
}

/// The cells that the first `n` cells of a line read back as.
pub open spec fn cells_placed(
    info: BookInfo,
    tables: Tables,
    line: Seq<Cell>,
    n: nat,
    numbers: NumberTable,
    row: u32,
) -> Seq<PlacedCell>
    decreases n,
{
    if n == 0 {
        Seq::empty()
    } else {
        let before = crate::xlsb_cells::cells(tables, line, (n - 1) as nat, numbers);
        let some = cells_placed(info, tables, line, (n - 1) as nat, numbers, row);
        match crate::xlsb_laws::value_back(
            info,
            line[n - 1].value,
            before.tables.style_for(line[n - 1].format),
            numbers,
        ) {
            Some(value) => some.push(PlacedCell { row, column: (n - 1) as u32, value }),
            None => some,
        }
    }
}

/// The cells that the first `n` headers read back as.
pub open spec fn headers_placed(headers: Seq<Seq<char>>, n: nat) -> Seq<PlacedCell> {
    Seq::new(
        n,
        |i: int| PlacedCell { row: 0, column: i as u32, value: Plain::Text(headers[i]) },
    )
}

/// The cursor stands in a row.
spec fn stands_in(c: CellCursor, row: u32) -> bool {
    &&& c.decoder.wf()
    &&& c.decoder.row_index == row
    &&& c.active_row == Some(row as i32)
    &&& c.row == row
    &&& row < 1_048_576
}

/// The cells of a line are given one after the other.
proof fn lemma_cells_given(
    c: CellCursor,
    tables: Tables,
    line: Seq<Cell>,
    k: nat,
    numbers: NumberTable,
    row: u32,
    found: Seq<PlacedCell>,
) -> (after: CellCursor)
    requires
        stands_in(c, row),
        k <= line.len() <= 16_384,
        crate::xlsb_cells::cells(tables, line, line.len(), numbers).complete,
        crate::xlsb_cells::cells(tables, line, line.len(), numbers).tables.strings.is_prefix_of(
            c.info.shared,
        ),
        c.info.shared.len() <= 0x1_0000_0000,
        crate::xlsb_laws::holds(
            c.decoder.buffer,
            c.decoder.pos,
            crate::xlsb_cells::cells(tables, line, line.len(), numbers).bytes,
        ),
    ensures
        stands_in(after, row),
        after.info == c.info,
        after.decoder.buffer == c.decoder.buffer,
        after.decoder.pos == c.decoder.pos + crate::xlsb_cells::cells(
            tables,
            line,
            k,
            numbers,
        ).bytes.len(),
        cells_left(c, found) == cells_left(
            after,
            found + cells_placed(c.info, tables, line, k, numbers, row),
        ),
    decreases k,
{
    if k == 0 {
        assert(found + cells_placed(c.info, tables, line, 0, numbers, row) =~= found);
        c
    } else {
        let info = c.info;
        let m = (k - 1) as nat;
        let d = c.decoder;
        let all = crate::xlsb_cells::cells(tables, line, line.len(), numbers);
        let some = crate::xlsb_cells::cells(tables, line, k, numbers);
        let fewer = crate::xlsb_cells::cells(tables, line, m, numbers);
        let here = crate::xlsb_cells::cell(fewer.tables, line[k - 1], k - 1, numbers);
        crate::xlsb_laws::lemma_cells_prefix(tables, line, k, line.len(), numbers);
        crate::xlsb_laws::lemma_cells_prefix(tables, line, m, k, numbers);
        let mid = lemma_cells_given(c, tables, line, m, numbers, row, found);
        crate::xlsb_laws::lemma_holds_prefix(d.buffer, d.pos, some.bytes, all.bytes);
        crate::xlsb_laws::lemma_holds_parts(d.buffer, d.pos, fewer.bytes, here.bytes);
        crate::xlsb_laws::lemma_prefix_trans(
            here.tables.strings,
            all.tables.strings,
            info.shared,
        );
        crate::xlsb_laws::lemma_cell_stepped(
            info,
            fewer.tables,
            line[k - 1],
            k - 1,
            numbers,
            mid.decoder,
        );
        let given = cells_placed(info, tables, line, m, numbers, row);
        match crate::xlsb_laws::value_back(
            info,
            line[k - 1].value,
            fewer.tables.style_for(line[k - 1].format),
            numbers,
        ) {
            Some(value) => {
                lemma_given(mid, here.bytes.len() as int, k - 1, value, found + given);
                let cell = PlacedCell { row, column: (k - 1) as u32, value };
                assert((found + given).push(cell) =~= found + given.push(cell));
                CellCursor { decoder: mid.decoder.worksheet_step().after, ..mid }
            },
            None => mid,
        }
    }
}

/// The headers are given one after the other.
proof fn lemma_headers_given(
    c: CellCursor,
    tables: Tables,
    headers: Seq<Seq<char>>,
    k: nat,
    found: Seq<PlacedCell>,
) -> (after: CellCursor)
    requires
        stands_in(c, 0),
        k <= headers.len() <= 16_384,
        crate::xlsb_cells::header_cells(tables, headers, headers.len()).tables.strings.is_prefix_of(
            c.info.shared,
        ),
        c.info.shared.len() <= 0x1_0000_0000,
        crate::xlsb_laws::holds(
            c.decoder.buffer,
            c.decoder.pos,
            crate::xlsb_cells::header_cells(tables, headers, headers.len()).bytes,
        ),
    ensures
        stands_in(after, 0),
        after.info == c.info,
        after.decoder.buffer == c.decoder.buffer,
        after.decoder.pos == c.decoder.pos + crate::xlsb_cells::header_cells(
            tables,
            headers,
            k,
        ).bytes.len(),
        cells_left(c, found) == cells_left(after, found + headers_placed(headers, k)),
    decreases k,
{
    if k == 0 {
        assert(found + headers_placed(headers, 0) =~= found);
        c
    } else {
        let m = (k - 1) as nat;
        let d = c.decoder;
        let all = crate::xlsb_cells::header_cells(tables, headers, headers.len());
        let some = crate::xlsb_cells::header_cells(tables, headers, k);
        let fewer = crate::xlsb_cells::header_cells(tables, headers, m);
        let text = headers[k - 1];
        let index = fewer.tables.string_index(text);
        let here = crate::xlsb_cells::sst_cell(index, k - 1, 3);
        crate::xlsb_laws::lemma_headers_prefix(tables, headers, k, headers.len());
        let mid = lemma_headers_given(c, tables, headers, m, found);
        crate::xlsb_laws::lemma_holds_prefix(d.buffer, d.pos, some.bytes, all.bytes);
        crate::xlsb_laws::lemma_holds_parts(d.buffer, d.pos, fewer.bytes, here);
        crate::xlsb_laws::lemma_prefix_trans(
            some.tables.strings,
            all.tables.strings,
            c.info.shared,
        );
        crate::xlsb_laws::lemma_text_found(c.info, fewer.tables, text);
        crate::xlsb_laws::lemma_sst_step(mid.decoder, index, k - 1, 3);
        lemma_given(mid, 14, k - 1, Plain::Text(text), found + headers_placed(headers, m));
        assert((found + headers_placed(headers, m)).push(
            PlacedCell { row: 0, column: (k - 1) as u32, value: Plain::Text(text) },
        ) =~= found + headers_placed(headers, k));
        CellCursor { decoder: mid.decoder.worksheet_step().after, ..mid }
    }
}

/// The cells that a line reads back as.
pub open spec fn line_placed(page: Page, info: BookInfo, i: int) -> Seq<PlacedCell> {
    if i < page.first() {
        headers_placed(page.headers->0, (page.headers->0).len())
    } else {
        let r = i - page.first();
        cells_placed(
            info,
            page.rows(r).tables,
            page.sheet[r],
            page.sheet[r].len(),
            page.numbers,
            i as u32,
        )
    }
}

/// The cells that the first `n` lines read back as.
pub open spec fn lines_placed(page: Page, info: BookInfo, n: nat) -> Seq<PlacedCell>
    decreases n,
{
    if n == 0 {
        Seq::empty()
    } else {
        lines_placed(page, info, (n - 1) as nat) + line_placed(page, info, n - 1)
    }
}

/// The cells of a line are given.
proof fn lemma_line_given(page: Page, c: CellCursor, i: int, found: Seq<PlacedCell>) -> (after:
    CellCursor)
    requires
        page.fits(),
        page.is_shared(c.info),
        0 <= i < page.lines(),
        stands_in(c, i as u32),
        crate::xlsb_laws::holds(c.decoder.buffer, c.decoder.pos, page.cell_bytes(i)),
    ensures
        stands_in(after, i as u32),
        after.info == c.info,
        after.decoder.buffer == c.decoder.buffer,
        after.decoder.pos == c.decoder.pos + page.cell_bytes(i).len(),
        cells_left(c, found) == cells_left(after, found + line_placed(page, c.info, i)),
{
    let n = page.sheet.len() as int;
    if i < page.first() {
        let h = page.headers->0;
        crate::xlsb_laws::lemma_rows_prefix(page, 0, n);
        crate::xlsb_laws::lemma_prefix_trans(
            page.header().tables.strings,
            page.rows(n).tables.strings,
            c.info.shared,
        );
        lemma_headers_given(c, page.tables, h, h.len(), found)
    } else {
        let r = i - page.first();
        let line = page.sheet[r];
        crate::xlsb_laws::lemma_rows_prefix(page, r + 1, n);
        crate::xlsb_laws::lemma_rows_prefix(page, r, n);
        reveal(crate::xlsb_cells::row);
        crate::xlsb_laws::lemma_prefix_trans(
            page.rows(r + 1).tables.strings,
            page.rows(n).tables.strings,
            c.info.shared,
        );
        lemma_cells_given(
            c,
            page.rows(r).tables,
            line,
            line.len(),
            page.numbers,
            i as u32,
            found,
        )
    }
}

/// The records in front of the first row are passed over.
proof fn lemma_head_passed(c: CellCursor, head: Seq<u8>, rest: Seq<u8>, found: Seq<PlacedCell>) -> (
    after: CellCursor)
    requires
        c.decoder.wf(),
        c.decoder.buffer == head + rest,
        head.len() <= usize::MAX,
        c.decoder.pos <= head.len(),
        crate::xlsb_laws::records_from(head, c.decoder.pos, crate::xlsb_laws::no_cell()),
        c.decoder.row_index == -1,
    ensures
        after.decoder.wf(),
        after.decoder.buffer == c.decoder.buffer,
        after.decoder.pos == head.len(),
        after.decoder.row_index == -1,
        after.info == c.info,
        after.row == c.row,
        after.active_row == c.active_row,
        cells_left(c, found) == cells_left(after, found),
    decreases head.len() - c.decoder.pos,
{
    let d = c.decoder;
    if d.pos == head.len() {
        c
    } else {
        assert(d.buffer =~= Seq::<u8>::empty() + head + rest);
        crate::xlsb_laws::lemma_quiet_step(d, Seq::empty(), head, rest, d.pos);
        lemma_passed(c, found);
        lemma_head_passed(CellCursor { decoder: d.worksheet_step().after, ..c }, head, rest, found)
    }
}

/// Behind the records at the end there is no more cell.
proof fn lemma_tail_passed(c: CellCursor, before: Seq<u8>, tail: Seq<u8>, found: Seq<PlacedCell>)
    requires
        c.decoder.wf(),
        c.decoder.buffer == before + tail,
        tail.len() <= usize::MAX,
        before.len() <= c.decoder.pos,
        crate::xlsb_laws::records_from(
            tail,
            c.decoder.pos - before.len(),
            crate::xlsb_laws::no_cell(),
        ),
        c.decoder.row_index < 0 || c.active_row == Some(c.decoder.row_index as i32),
    ensures
        cells_left(c, found) == (found, Ok::<(), Seq<char>>(())),
    decreases c.decoder.buffer.len() - c.decoder.pos,
{
    let d = c.decoder;
    let p = d.pos - before.len();
    if p < tail.len() {
        assert(d.buffer =~= before + tail + Seq::<u8>::empty());
        crate::xlsb_laws::lemma_quiet_step(d, before, tail, Seq::empty(), p);
        lemma_passed(c, found);
        lemma_tail_passed(
            CellCursor { decoder: d.worksheet_step().after, ..c },
            before,
            tail,
            found,
        );
    }
}

/// The lines are given one after the other.
proof fn lemma_lines_given(
    page: Page,
    c: CellCursor,
    head: Seq<u8>,
    tail: Seq<u8>,
    n: nat,
) -> (after: CellCursor)
    requires
        page.fits(),
        page.is_shared(c.info),
        c.decoder.wf(),
        c.decoder.buffer == head + page.bytes(page.lines()) + tail,
        c.decoder.pos == head.len(),
        c.decoder.row_index == -1,
        c.active_row is None,
        0 < n <= page.lines(),
    ensures
        stands_in(after, (n - 1) as u32),
        after.info == c.info,
        after.decoder.buffer == c.decoder.buffer,
        after.decoder.pos == head.len() + page.bytes(n as int).len(),
        cells_left(c, Seq::empty()) == cells_left(after, lines_placed(page, c.info, n)),
    decreases n,
{
    let i = n - 1;
    let found = lines_placed(page, c.info, i as nat);
    let before = if n == 1 {
        assert(page.rows(0).bytes =~= Seq::<u8>::empty());
        assert(page.bytes(0) =~= Seq::<u8>::empty());
        assert(found =~= Seq::<PlacedCell>::empty());
        c
    } else {
        lemma_lines_given(page, c, head, tail, i as nat)
    };
    crate::xlsb_laws::lemma_line_place(page, head, tail, i);
    crate::xlsb_laws::lemma_row_header_step(before.decoder, i as u32, page.columns);
    lemma_row_entered(before, i, found);
    let entered = CellCursor {
        decoder: before.decoder.worksheet_step().after,
        active_row: Some(i as i32),
        row: i as u32,
        ..before
    };
    lemma_line_given(page, entered, i, found)
}

/// The cells of a sheet that the writer has made read back: the cell reader gives,
/// in the order of the lines, first the headers and then the cells of the rows that
/// are not empty, each at its row and its column and with the value that
/// [`value_back`](crate::xlsb_laws::value_back) says, and then the sheet ends. The
/// bytes around the rows have to be records that are neither rows nor cells, and the
/// shared strings those that the writer has given out.
pub proof fn law_written_cells_read_back(
    info: BookInfo,
    page: Page,
    head: Seq<u8>,
    tail: Seq<u8>,
)
    requires
        page.fits(),
        page.is_shared(info),
        crate::xlsb_laws::is_quiet(head),
        crate::xlsb_laws::is_quiet(tail),
        head.len() + page.bytes(page.lines()).len() + tail.len() <= usize::MAX,
    ensures
        cells_left(
            CellCursor {
                decoder: crate::biff_reader::decoder_at_start(
                    head + page.bytes(page.lines()) + tail,
                ),
                info,
                row: 0,
                active_row: None,
            },
            Seq::empty(),
        ) == (lines_placed(page, info, page.lines() as nat), Ok::<(), Seq<char>>(())),
{
    let all = page.bytes(page.lines());
    let bytes = head + all + tail;
    let c = CellCursor {
        decoder: crate::biff_reader::decoder_at_start(bytes),
        info,
        row: 0,
        active_row: None,
    };
    assert(bytes =~= head + (all + tail));
    let c1 = lemma_head_passed(c, head, all + tail, Seq::empty());
    let c2 = if page.lines() == 0 {
        assert(page.rows(0).bytes =~= Seq::<u8>::empty());
        assert(page.bytes(0) =~= Seq::<u8>::empty());
        c1
    } else {
        lemma_lines_given(page, c1, head, tail, page.lines() as nat)
    };
    assert(bytes =~= (head + all) + tail);
    lemma_tail_passed(c2, head + all, tail, lines_placed(page, info, page.lines() as nat));
}

} // verus!
