//! What the XLSX cell reader makes of the sheets that the XLSX writer writes.

use vstd::prelude::*;
use crate::formats::{Cell, Plain};
use crate::markup::Piece;
use crate::number::NumberTable;
use crate::sheet_tables::Tables;
use crate::xlsb_reader::PlacedCell;
use crate::xlsx_cell_reader::{CellOutcome, CellPhase, CellSignal, CellsLeft, ScanState};
use crate::xlsx_read_laws::{Doubles, XlsxPage};
use crate::xlsx_scan::{Parsed, XlsxCellType};
use crate::xml_events::{XmlItem, XmlKind};

verus! {

/// Reading on never goes back, and takes an event where it comes to a cell or to a
/// number.
proof fn lemma_run_advances(scan: ScanState, events: Seq<Result<XmlItem, Seq<char>>>)
    ensures
        ({
            let (_, left, signal) = scan.run(events);
            &&& left.len() <= events.len()
            &&& signal is Cell || signal is EmptyCell || signal is Number ==> left.len()
                < events.len()
        }),
    decreases
            events.len(),
            if scan.phase == CellPhase::BareText {
                1int
            } else {
                0
            },
{
    let (next, signal) = scan.outcome_step(events);
    if signal is More {
        lemma_run_advances(
            next,
            if events.len() == 0 {
                events
            } else {
                events.skip(1)
            },
        );
    }
}

pub proof fn lemma_next_advances(c: CellsLeft)
    ensures
        c.next().0.events.len() <= c.events.len(),
        c.next().1 is Cell ==> c.next().0.events.len() < c.events.len(),
{
    lemma_run_advances(ScanState { phase: CellPhase::Outside, ..c.scan }, c.events);
}

pub proof fn lemma_resumed_advances(c: CellsLeft, number: Option<u64>)
    ensures
        c.resumed(number).0.events.len() <= c.events.len(),
        c.resumed(number).1 is Number ==> c.resumed(number).0.events.len() < c.events.len(),
{
    lemma_run_advances(c.scan.with_number(number, c.info).0, c.events);
}

/// What reading comes to when it has come to some outcome and the doubles of the
/// numbers that it stops at are supplied.
pub open spec fn supplied(c: CellsLeft, outcome: CellOutcome, doubles: Doubles) -> (
    CellsLeft,
    CellOutcome,
)
    decreases c.events.len(),
{
    match outcome {
        CellOutcome::Number(text) => {
            proof {
                lemma_resumed_advances(c, doubles(text));
            }
            let (next, r) = c.resumed(doubles(text));
            if r is Number {
                supplied(next, r, doubles)
            } else {
                (next, r)
            }
        },
        _ => (c, outcome),
    }
}

/// What reading the next cell comes to when the doubles of the numbers are
/// supplied.
pub open spec fn cell_read(c: CellsLeft, doubles: Doubles) -> (CellsLeft, CellOutcome) {
    let (next, outcome) = c.next();
    supplied(next, outcome, doubles)
}

proof fn lemma_supplied_advances(c: CellsLeft, outcome: CellOutcome, doubles: Doubles)
    ensures
        supplied(c, outcome, doubles).0.events.len() <= c.events.len(),
        !(supplied(c, outcome, doubles).1 is Number),
    decreases c.events.len(),
{
    if let CellOutcome::Number(text) = outcome {
        lemma_resumed_advances(c, doubles(text));
        let (next, r) = c.resumed(doubles(text));
        if r is Number {
            lemma_supplied_advances(next, r, doubles);
        }
    }
}

pub proof fn lemma_read_advances(c: CellsLeft, doubles: Doubles)
    ensures
        cell_read(c, doubles).1 is Cell ==> cell_read(c, doubles).0.events.len() < c.events.len(),
{
    lemma_run_advances(ScanState { phase: CellPhase::Outside, ..c.scan }, c.events);
    let (next, outcome) = c.next();
    lemma_supplied_advances(next, outcome, doubles);
}

/// The cells that a reader still gives, added to those already found, and whether
/// they could be read to their end.
#[verifier::opaque]
pub open spec fn cells_left(c: CellsLeft, doubles: Doubles, found: Seq<PlacedCell>) -> (
    Seq<PlacedCell>,
    Result<(), Seq<char>>,
)
    decreases c.events.len(),
{
    proof {
        lemma_read_advances(c, doubles);
    }
    match cell_read(c, doubles) {
        (after, CellOutcome::Cell(cell)) => cells_left(after, doubles, found.push(cell)),
        (_, CellOutcome::Fault(message)) => (found, Err(message)),
        _ => (found, Ok(())),
    }
}

/// One event is taken.
pub proof fn lemma_take(scan: ScanState, piece: Piece, rest: Seq<Result<XmlItem, Seq<char>>>)
    ensures
        ({
            let events = crate::markup::items(seq![piece]) + rest;
            let (next, signal) = scan.step(piece.item());
            scan.run(events) == if signal is More {
                next.run(rest)
            } else {
                (next, rest, signal)
            }
        }),
{
    let events = crate::markup::items(seq![piece]) + rest;
    assert(events[0] == Ok::<XmlItem, Seq<char>>(piece.item()));
    assert(events.skip(1) =~= rest);
}

/// An event between cells that leads to none is passed over.
proof fn lemma_passed(
    c: CellsLeft,
    piece: Piece,
    next: ScanState,
    rest: Seq<Result<XmlItem, Seq<char>>>,
    doubles: Doubles,
    found: Seq<PlacedCell>,
)
    requires
        c.events == crate::markup::items(seq![piece]) + rest,
        c.scan.phase == CellPhase::Outside,
        next.phase == CellPhase::Outside,
        c.scan.step(piece.item()) == (next, CellSignal::More),
    ensures
        cells_left(c, doubles, found) == cells_left(
            CellsLeft { events: rest, scan: next, ..c },
            doubles,
            found,
        ),
{
    reveal(cells_left);
    lemma_take(c.scan, piece, rest);
    assert(ScanState { phase: CellPhase::Outside, ..c.scan } == c.scan);
    assert(ScanState { phase: CellPhase::Outside, ..next } == next);
    assert(c.next() == (CellsLeft { events: rest, scan: next, ..c }).next());
}

/// The piece opens no cell and does not end the rows.
pub open spec fn is_no_cell(piece: Piece) -> bool {
    match piece {
        Piece::Open { name, .. } => name != "c"@,
        Piece::Empty { name, .. } => name != "c"@,
        Piece::Close(name) => name != "sheetData"@,
        _ => true,
    }
}

/// The pieces open no cell and do not end the rows.
pub open spec fn hold_no_cells(pieces: Seq<Piece>) -> bool {
    forall|i: int| 0 <= i < pieces.len() ==> is_no_cell(#[trigger] pieces[i])
}

/// Pieces that say nothing of rows and cells are passed over.
proof fn lemma_front_passed(
    c: CellsLeft,
    pieces: Seq<Piece>,
    rest: Seq<Result<XmlItem, Seq<char>>>,
    doubles: Doubles,
    found: Seq<PlacedCell>,
)
    requires
        crate::xlsx_read_laws::is_quiet(pieces),
        hold_no_cells(pieces),
        c.events == crate::markup::items(pieces) + rest,
        c.scan.phase == CellPhase::Outside,
    ensures
        cells_left(c, doubles, found) == cells_left(
            CellsLeft { events: rest, ..c },
            doubles,
            found,
        ),
    decreases pieces.len(),
{
    if pieces.len() == 0 {
        assert(crate::markup::items(pieces) + rest =~= rest);
    } else {
        let first = pieces[0];
        let more = pieces.drop_first();
        assert(pieces =~= seq![first] + more);
        crate::markup::lemma_items_concat(seq![first], more);
        let left = crate::markup::items(more) + rest;
        assert(crate::markup::items(pieces) + rest =~= crate::markup::items(seq![first]) + left);
        assert(first.is_sound() && is_no_cell(first));
        crate::markup::lemma_piece_tag(first, XmlKind::Start, "row"@);
        crate::markup::lemma_piece_tag(first, XmlKind::End, "row"@);
        crate::markup::lemma_piece_tag(first, XmlKind::Start, "c"@);
        crate::markup::lemma_piece_tag(first, XmlKind::Empty, "c"@);
        crate::markup::lemma_piece_tag(first, XmlKind::End, "sheetData"@);
        lemma_passed(c, first, c.scan, left, doubles, found);
        assert forall|i: int| 0 <= i < more.len() implies is_no_cell(#[trigger] more[i]) by {
            assert(more[i] == pieces[i + 1]);
        }
        assert(crate::xlsx_read_laws::is_quiet(more)) by {
            assert forall|i: int| 0 <= i < more.len() implies (#[trigger] more[i]).is_sound()
                && crate::xlsx_frame::is_no_row(more[i]) by {
                assert(more[i] == pieces[i + 1]);
            }
        }
        lemma_front_passed(
            CellsLeft { events: left, ..c },
            more,
            rest,
            doubles,
            found,
        );
    }
}

/// The scan in a cell of the writer.
spec fn scan_in(
    scan: ScanState,
    kind: Option<Seq<char>>,
    style: Option<int>,
    phase: CellPhase,
    parsed: Parsed,
    gathered: bool,
    scratch: Seq<char>,
) -> ScanState {
    ScanState {
        row: scan.row,
        column: crate::xlsx_cell_reader::following(scan.column),
        phase,
        cell_column: scan.column,
        cell_type: crate::xlsx_read_laws::storage_of(kind),
        style: crate::xlsx_read_laws::style_of(style),
        parsed,
        gathered,
        scratch,
    }
}

proof fn lemma_cell_opened(scan: ScanState, kind: Option<Seq<char>>, style: Option<int>)
    requires
        scan.phase == CellPhase::Outside,
        kind matches Some(k) ==> k == "s"@ || k == "b"@,
        style matches Some(s) ==> 0 <= s <= usize::MAX,
    ensures
        ({
            let attributes = crate::xlsx_markup::cell_attributes(kind, style);
            scan.step((Piece::Open { name: "c"@, attributes }).item()) == (
                scan_in(scan, kind, style, CellPhase::Cell, Parsed::Empty, false, Seq::empty()),
                CellSignal::More,
            )
        }),
{
    let attributes = crate::xlsx_markup::cell_attributes(kind, style);
    let piece = Piece::Open { name: "c"@, attributes };
    crate::xlsx_markup::lemma_kinds();
    crate::xlsx_markup::lemma_cell_names();
    crate::xlsx_markup::lemma_cell_attributes(kind, style);
    assert(piece.is_sound());
    crate::markup::lemma_piece_tag(piece, XmlKind::Start, "row"@);
    crate::markup::lemma_piece_tag(piece, XmlKind::End, "row"@);
    crate::markup::lemma_piece_tag(piece, XmlKind::Start, "c"@);
    crate::xlsx_read_laws::lemma_head_back(kind, style);
}

pub proof fn lemma_value_opened(scan: ScanState)
    requires
        scan.phase == CellPhase::Cell,
        scan.scratch == Seq::<char>::empty(),
    ensures
        scan.step((Piece::Open { name: "v"@, attributes: Seq::empty() }).item()) == (
            ScanState { phase: CellPhase::Value, ..scan },
            CellSignal::More,
        ),
{
    let piece = Piece::Open { name: "v"@, attributes: Seq::empty() };
    crate::xlsx_markup::lemma_cell_names();
    assert(crate::markup::are_attributes(Seq::empty()));
    assert(piece.is_sound());
    crate::markup::lemma_piece_tag(piece, XmlKind::Start, "v"@);
}

pub proof fn lemma_value_text(scan: ScanState, value: Seq<char>)
    requires
        scan.phase == CellPhase::Value,
        scan.scratch == Seq::<char>::empty(),
        crate::markup::is_plain(value),
    ensures
        scan.step(Piece::Text(value).item()) == (
            ScanState { scratch: value, ..scan },
            CellSignal::More,
        ),
{
    vstd::utf8::encode_utf8_valid_utf8(value);
    vstd::utf8::encode_utf8_decode_utf8(value);
    assert(Seq::<char>::empty() + value =~= value);
}

pub proof fn lemma_value_closed(scan: ScanState)
    requires
        scan.phase == CellPhase::Value,
    ensures
        scan.step(Piece::Close("v"@).item()) == match crate::xlsx_scan::stored_value(
            scan.scratch,
            scan.cell_type,
        ) {
            Some(parsed) => (
                ScanState { phase: CellPhase::Cell, parsed, gathered: false, ..scan },
                CellSignal::More,
            ),
            None => (scan, CellSignal::Number),
        },
{
    crate::xlsx_markup::lemma_cell_names();
    crate::markup::lemma_piece_tag(Piece::Close("v"@), XmlKind::End, "v"@);
}

pub proof fn lemma_cell_closed(scan: ScanState)
    requires
        scan.phase == CellPhase::Cell,
    ensures
        scan.step(Piece::Close("c"@).item()) == (
            ScanState { phase: CellPhase::Outside, ..scan },
            CellSignal::Cell,
        ),
{
    let piece = Piece::Close("c"@);
    crate::xlsx_markup::lemma_cell_names();
    crate::markup::lemma_piece_tag(piece, XmlKind::Start, "v"@);
    crate::markup::lemma_piece_tag(piece, XmlKind::Start, "is"@);
    crate::markup::lemma_piece_tag(piece, XmlKind::Start, "t"@);
    crate::markup::lemma_piece_tag(piece, XmlKind::End, "c"@);
}

/// A cell of the writer is given.
proof fn lemma_given(
    c: CellsLeft,
    kind: Option<Seq<char>>,
    style: Option<int>,
    value: Seq<char>,
    rest: Seq<Result<XmlItem, Seq<char>>>,
    doubles: Doubles,
    found: Seq<PlacedCell>,
) -> (after: CellsLeft)
    requires
        c.scan.phase == CellPhase::Outside,
        kind matches Some(k) ==> k == "s"@ || k == "b"@,
        style matches Some(s) ==> 0 <= s <= usize::MAX,
        crate::markup::is_plain(value),
        crate::xlsx_read_laws::read_value(kind, style, value, c.info, doubles) is Some,
        c.events == crate::markup::items(crate::xlsx_markup::cell_pieces(kind, style, value))
            + rest,
    ensures
        cells_left(c, doubles, found) == cells_left(
            after,
            doubles,
            found.push(
                PlacedCell {
                    row: c.scan.row,
                    column: c.scan.column,
                    value: crate::xlsx_read_laws::read_value(
                        kind,
                        style,
                        value,
                        c.info,
                        doubles,
                    )->0,
                },
            ),
        ),
        after.events == rest,
        after.info == c.info,
        after.scan.phase == CellPhase::Outside,
        after.scan.row == c.scan.row,
        after.scan.column == crate::xlsx_cell_reader::following(c.scan.column),
{
    reveal(cells_left);
    let attributes = crate::xlsx_markup::cell_attributes(kind, style);
    let p1 = Piece::Open { name: "c"@, attributes };
    let p2 = Piece::Open { name: "v"@, attributes: Seq::empty() };
    let p3 = Piece::Text(value);
    let p4 = Piece::Close("v"@);
    let p5 = Piece::Close("c"@);
    let r4 = crate::markup::items(seq![p5]) + rest;
    let r3 = crate::markup::items(seq![p4]) + r4;
    let r2 = crate::markup::items(seq![p3]) + r3;
    let r1 = crate::markup::items(seq![p2]) + r2;
    crate::xlsx_read_laws::lemma_cell_items(kind, style, value, rest);
    let s1 = scan_in(c.scan, kind, style, CellPhase::Cell, Parsed::Empty, false, Seq::empty());
    let s2 = ScanState { phase: CellPhase::Value, ..s1 };
    let s3 = ScanState { scratch: value, ..s2 };
    lemma_cell_opened(c.scan, kind, style);
    lemma_take(c.scan, p1, r1);
    lemma_value_opened(s1);
    lemma_take(s1, p2, r2);
    lemma_value_text(s2, value);
    lemma_take(s2, p3, r3);
    lemma_value_closed(s3);
    lemma_take(s3, p4, r4);
    assert(ScanState { phase: CellPhase::Outside, ..c.scan } == c.scan);
    assert(c.scan.run(c.events) == s3.run(r3));
    let s4 = match crate::xlsx_scan::stored_value(value, s3.cell_type) {
        Some(parsed) => ScanState { phase: CellPhase::Cell, parsed, gathered: false, ..s3 },
        None => s3.with_number(doubles(value), c.info).0,
    };
    if crate::xlsx_scan::stored_value(value, s3.cell_type) is None {
        assert(s3.cell_type == XlsxCellType::Number);
    }
    lemma_cell_closed(s4);
    lemma_take(s4, p5, rest);
    let after = CellsLeft {
        events: rest,
        scan: ScanState { phase: CellPhase::Outside, ..s4 },
        ..c
    };
    after
}

/// Cells of a row, one behind the other from the first column on.
pub open spec fn cells_placed(cells: Seq<Cell>, row: u32) -> Seq<PlacedCell> {
    Seq::new(
        cells.len(),
        |i: int| PlacedCell { row, column: i as u32, value: cells[i].value },
    )
}

/// A cell that is not empty is given.
proof fn lemma_next_given(
    c: CellsLeft,
    tables: Tables,
    cell: Cell,
    numbers: NumberTable,
    streaming: bool,
    rest: Seq<Result<XmlItem, Seq<char>>>,
    doubles: Doubles,
    found: Seq<PlacedCell>,
) -> (after: CellsLeft)
    requires
        !(cell.value is Empty),
        c.scan.phase == CellPhase::Outside,
        crate::xlsx_markup::prints_plainly(numbers),
        crate::xlsx_read_laws::reads_numbers(doubles, numbers, streaming),
        crate::xlsx_read_laws::are_shared(
            crate::xlsx_cells::cell(tables, cell, numbers, streaming).tables,
            c.info,
        ),
        c.events == crate::markup::items(
            crate::xlsx_markup::pieces_of_cell(tables, cell, numbers, streaming),
        ) + rest,
    ensures
        cells_left(c, doubles, found) == cells_left(
            after,
            doubles,
            found.push(
                PlacedCell {
                    row: c.scan.row,
                    column: c.scan.column,
                    value: crate::xlsx_read_laws::value_back(
                        cell.value,
                        crate::xlsx_markup::written_style(tables, cell),
                        numbers,
                        streaming,
                        c.info,
                        doubles,
                    ),
                },
            ),
        ),
        after.events == rest,
        after.info == c.info,
        after.scan.phase == CellPhase::Outside,
        after.scan.row == c.scan.row,
        after.scan.column == crate::xlsx_cell_reader::following(c.scan.column),
{
    crate::xlsx_read_laws::lemma_value_read(tables, cell, numbers, streaming, c.info, doubles);
    let (kind, value) = crate::xlsx_markup::stored_as(
        tables.with_format(cell.format),
        cell.value,
        numbers,
        streaming,
    )->0;
    let style = crate::xlsx_markup::written_style(tables, cell);
    lemma_given(c, kind, style, value, rest, doubles, found)
}

/// The cells of a row are given.
#[verifier::spinoff_prover]
#[verifier::rlimit(40)]
proof fn lemma_cells_given(
    c: CellsLeft,
    tables: Tables,
    row: Seq<Cell>,
    n: nat,
    numbers: NumberTable,
    streaming: bool,
    rest: Seq<Result<XmlItem, Seq<char>>>,
    doubles: Doubles,
    found: Seq<PlacedCell>,
) -> (after: CellsLeft)
    requires
        n <= row.len() <= 16_384,
        c.scan.phase == CellPhase::Outside,
        c.scan.column == 0,
        crate::xlsx_markup::prints_plainly(numbers),
        crate::xlsx_read_laws::reads_numbers(doubles, numbers, streaming),
        crate::xlsx_read_laws::are_shared(
            crate::xlsx_cells::cells(tables, row, n, numbers, streaming).tables,
            c.info,
        ),
        c.events == crate::markup::items(
            crate::xlsx_markup::pieces_of_cells(tables, row, n, numbers, streaming),
        ) + rest,
    ensures
        ({
            let cells = crate::xlsx_read_laws::cells_back(
                tables,
                row,
                n,
                numbers,
                streaming,
                c.info,
                doubles,
            );
            &&& cells_left(c, doubles, found) == cells_left(
                after,
                doubles,
                found + cells_placed(cells, c.scan.row),
            )
            &&& cells.len() <= n
            &&& after.scan.column == cells.len()
        }),
        after.events == rest,
        after.info == c.info,
        after.scan.phase == CellPhase::Outside,
        after.scan.row == c.scan.row,
    decreases n,
{
    if n == 0 {
        assert(crate::markup::items(Seq::empty()) + rest =~= rest);
        assert(found + cells_placed(Seq::empty(), c.scan.row) =~= found);
        c
    } else {
        let m = (n - 1) as nat;
        let before = crate::xlsx_cells::cells(tables, row, m, numbers, streaming).tables;
        let cell = row[n - 1];
        crate::xlsx_read_laws::lemma_cell_extends(before, cell, numbers, streaming);
        let later = crate::xlsx_cells::cell(before, cell, numbers, streaming).tables;
        assert(later == crate::xlsx_cells::cells(tables, row, n, numbers, streaming).tables);
        crate::xlsx_read_laws::lemma_shared_before(later, before, c.info);
        let a = crate::xlsx_markup::pieces_of_cells(tables, row, m, numbers, streaming);
        let b = crate::xlsx_markup::pieces_of_cell(before, cell, numbers, streaming);
        crate::markup::lemma_items_concat(a, b);
        let left = crate::markup::items(b) + rest;
        assert(crate::markup::items(a + b) + rest =~= crate::markup::items(a) + left);
        let mid = lemma_cells_given(
            c,
            tables,
            row,
            m,
            numbers,
            streaming,
            left,
            doubles,
            found,
        );
        let some = crate::xlsx_read_laws::cells_back(
            tables,
            row,
            m,
            numbers,
            streaming,
            c.info,
            doubles,
        );
        if cell.value is Empty {
            assert(left =~= rest);
            mid
        } else {
            let sofar = found + cells_placed(some, c.scan.row);
            let after = lemma_next_given(
                mid,
                before,
                cell,
                numbers,
                streaming,
                rest,
                doubles,
                sofar,
            );
            let read = crate::xlsx_read_laws::value_back(
                cell.value,
                crate::xlsx_markup::written_style(before, cell),
                numbers,
                streaming,
                c.info,
                doubles,
            );
            let all = some.push(crate::xlsb_reader::bare(read));
            assert(sofar.push(
                PlacedCell { row: c.scan.row, column: mid.scan.column, value: read },
            ) =~= found + cells_placed(all, c.scan.row));
            after
        }
    }
}

/// The cells of a header row are given.
proof fn lemma_headers_given(
    c: CellsLeft,
    tables: Tables,
    headers: Seq<Seq<char>>,
    n: nat,
    rest: Seq<Result<XmlItem, Seq<char>>>,
    doubles: Doubles,
    found: Seq<PlacedCell>,
) -> (after: CellsLeft)
    requires
        n <= headers.len() <= 16_384,
        c.scan.phase == CellPhase::Outside,
        c.scan.column == 0,
        crate::xlsx_read_laws::are_shared(
            crate::xlsx_cells::header_cells(tables, headers, n).tables,
            c.info,
        ),
        c.events == crate::markup::items(
            crate::xlsx_markup::pieces_of_headers(tables, headers, n),
        ) + rest,
    ensures
        cells_left(c, doubles, found) == cells_left(
            after,
            doubles,
            found + cells_placed(crate::xlsx_read_laws::headers_back(headers, n), c.scan.row),
        ),
        after.scan.column == n,
        after.events == rest,
        after.info == c.info,
        after.scan.phase == CellPhase::Outside,
        after.scan.row == c.scan.row,
    decreases n,
{
    if n == 0 {
        assert(crate::markup::items(Seq::empty()) + rest =~= rest);
        assert(found + cells_placed(
            crate::xlsx_read_laws::headers_back(headers, 0),
            c.scan.row,
        ) =~= found);
        c
    } else {
        let m = (n - 1) as nat;
        let before = crate::xlsx_cells::header_cells(tables, headers, m).tables;
        let text = headers[n - 1];
        let later = before.with_string(text);
        crate::string_table::law_index_finds_text(before.strings, text, text);
        assert(crate::xlsx_read_laws::extends(later, before));
        crate::xlsx_read_laws::lemma_shared_before(later, before, c.info);
        let value = crate::text::decimal(before.string_index(text));
        let a = crate::xlsx_markup::pieces_of_headers(tables, headers, m);
        let b = crate::xlsx_markup::cell_pieces(Some("s"@), Some(3), value);
        crate::markup::lemma_items_concat(a, b);
        let left = crate::markup::items(b) + rest;
        assert(crate::markup::items(a + b) + rest =~= crate::markup::items(a) + left);
        let mid = lemma_headers_given(c, tables, headers, m, left, doubles, found);
        crate::xlsx_markup::lemma_decimal_is_plain(before.string_index(text));
        crate::xlsx_read_laws::lemma_text_back(before, text, c.info);
        let read = Plain::Text(crate::xlsx_parts::without_controls(text));
        assert(crate::xlsx_read_laws::read_value(Some("s"@), Some(3), value, c.info, doubles)
            == Some(read));
        let some = crate::xlsx_read_laws::headers_back(headers, m);
        let sofar = found + cells_placed(some, c.scan.row);
        let after = lemma_given(mid, Some("s"@), Some(3), value, rest, doubles, sofar);
        assert(sofar.push(PlacedCell { row: c.scan.row, column: mid.scan.column, value: read })
            =~= found + cells_placed(
            crate::xlsx_read_laws::headers_back(headers, n),
            c.scan.row,
        ));
        after
    }
}

/// A row is entered.
proof fn lemma_row_opened(
    c: CellsLeft,
    rest: Seq<Result<XmlItem, Seq<char>>>,
    doubles: Doubles,
    found: Seq<PlacedCell>,
)
    requires
        c.scan.phase == CellPhase::Outside,
        c.events == crate::markup::items(
            seq![Piece::Open { name: "row"@, attributes: Seq::empty() }],
        ) + rest,
    ensures
        cells_left(c, doubles, found) == cells_left(
            CellsLeft { events: rest, ..c },
            doubles,
            found,
        ),
{
    let piece = Piece::Open { name: "row"@, attributes: Seq::empty() };
    crate::xlsx_markup::lemma_cell_names();
    crate::xlsx_markup::lemma_no_attributes();
    assert(piece.is_sound());
    crate::markup::lemma_piece_tag(piece, XmlKind::Start, "row"@);
    assert(crate::xlsx_scan::row_number(piece.item().attributes, 0) is None);
    lemma_passed(c, piece, c.scan, rest, doubles, found);
}

/// A row is left.
proof fn lemma_row_closed(
    c: CellsLeft,
    rest: Seq<Result<XmlItem, Seq<char>>>,
    doubles: Doubles,
    found: Seq<PlacedCell>,
) -> (after: CellsLeft)
    requires
        c.scan.phase == CellPhase::Outside,
        c.events == crate::markup::items(seq![Piece::Close("row"@)]) + rest,
    ensures
        cells_left(c, doubles, found) == cells_left(after, doubles, found),
        after.events == rest,
        after.info == c.info,
        after.scan.phase == CellPhase::Outside,
        after.scan.row == crate::xlsx_cell_reader::following(c.scan.row),
        after.scan.column == 0,
{
    let piece = Piece::Close("row"@);
    let next = ScanState {
        row: crate::xlsx_cell_reader::following(c.scan.row),
        column: 0,
        ..c.scan
    };
    crate::xlsx_markup::lemma_cell_names();
    crate::markup::lemma_piece_tag(piece, XmlKind::Start, "row"@);
    crate::markup::lemma_piece_tag(piece, XmlKind::End, "row"@);
    lemma_passed(c, piece, next, rest, doubles, found);
    CellsLeft { events: rest, scan: next, ..c }
}

/// The events of a row, with what follows it.
proof fn lemma_row_items(inner: Seq<Piece>, rest: Seq<Result<XmlItem, Seq<char>>>)
    ensures
        crate::markup::items(crate::markup::element("row"@, Seq::empty(), inner)) + rest
            == crate::markup::items(
            seq![Piece::Open { name: "row"@, attributes: Seq::empty() }],
        ) + (crate::markup::items(inner) + (crate::markup::items(seq![Piece::Close("row"@)])
            + rest)),
{
    let open = Piece::Open { name: "row"@, attributes: Seq::empty() };
    let close = Piece::Close("row"@);
    crate::markup::lemma_items_concat(seq![open], inner);
    crate::markup::lemma_items_concat(seq![open] + inner, seq![close]);
    assert(crate::markup::items(crate::markup::element("row"@, Seq::empty(), inner)) + rest
        =~= crate::markup::items(seq![open]) + (crate::markup::items(inner) + (
    crate::markup::items(seq![close]) + rest)));
}

/// A line is given.
proof fn lemma_line_given(
    c: CellsLeft,
    page: XlsxPage,
    i: int,
    rest: Seq<Result<XmlItem, Seq<char>>>,
    doubles: Doubles,
    found: Seq<PlacedCell>,
) -> (after: CellsLeft)
    requires
        page.fits(),
        page.is_readable(c.info, doubles),
        0 <= i < page.lines() <= u32::MAX,
        c.scan.phase == CellPhase::Outside,
        c.scan.row == i,
        c.scan.column == 0,
        c.events == crate::markup::items(page.line_pieces(i)) + rest,
    ensures
        cells_left(c, doubles, found) == cells_left(
            after,
            doubles,
            found + cells_placed(page.line_back(c.info, doubles, i), i as u32),
        ),
        after.events == rest,
        after.info == c.info,
        after.scan.phase == CellPhase::Outside,
        after.scan.row == i + 1,
        after.scan.column == 0,
{
    let n = page.sheet.len() as int;
    let last = page.rows(n).tables;
    let left = crate::markup::items(seq![Piece::Close("row"@)]) + rest;
    let all = found + cells_placed(page.line_back(c.info, doubles, i), i as u32);
    if i < page.first() {
        let h = page.headers->0;
        crate::xlsx_read_laws::lemma_rows_extend(page, 0, n);
        let later = crate::xlsx_cells::header_cells(page.tables, h, h.len()).tables;
        assert(page.rows(0).tables == later);
        crate::xlsx_read_laws::lemma_shared_before(last, later, c.info);
        let inner = crate::xlsx_markup::pieces_of_headers(page.tables, h, h.len());
        lemma_row_items(inner, rest);
        lemma_row_opened(c, crate::markup::items(inner) + left, doubles, found);
        let entered = CellsLeft { events: crate::markup::items(inner) + left, ..c };
        let read = lemma_headers_given(
            entered,
            page.tables,
            h,
            h.len(),
            left,
            doubles,
            found,
        );
        lemma_row_closed(read, rest, doubles, all)
    } else {
        let r = i - page.first();
        let before = page.rows(r).tables;
        let row = page.sheet[r];
        crate::xlsx_read_laws::lemma_rows_extend(page, r + 1, n);
        crate::xlsx_read_laws::lemma_shared_before(last, page.rows(r + 1).tables, c.info);
        let inner = crate::xlsx_markup::pieces_of_cells(
            before,
            row,
            row.len(),
            page.numbers,
            page.streaming,
        );
        lemma_row_items(inner, rest);
        lemma_row_opened(c, crate::markup::items(inner) + left, doubles, found);
        let entered = CellsLeft { events: crate::markup::items(inner) + left, ..c };
        let read = lemma_cells_given(
            entered,
            before,
            row,
            row.len(),
            page.numbers,
            page.streaming,
            left,
            doubles,
            found,
        );
        lemma_row_closed(read, rest, doubles, all)
    }
}

/// The cells that the first `n` lines of a sheet read back as, line by line.
pub open spec fn lines_placed(
    page: XlsxPage,
    info: crate::xlsb_reader::BookInfo,
    doubles: Doubles,
    n: nat,
) -> Seq<PlacedCell>
    decreases n,
{
    if n == 0 {
        Seq::empty()
    } else {
        lines_placed(page, info, doubles, (n - 1) as nat) + cells_placed(
            page.line_back(info, doubles, n - 1),
            (n - 1) as u32,
        )
    }
}

/// The first `n` lines are given.
proof fn lemma_lines_given(
    c: CellsLeft,
    page: XlsxPage,
    n: nat,
    back: Seq<Result<XmlItem, Seq<char>>>,
    doubles: Doubles,
) -> (after: CellsLeft)
    requires
        page.fits(),
        page.is_readable(c.info, doubles),
        n <= page.lines() <= u32::MAX,
        c.scan.phase == CellPhase::Outside,
        c.scan.row == 0,
        c.scan.column == 0,
        c.events == crate::markup::items(
            crate::xlsx_read_laws::joined(page.line_list(), 0),
        ) + back,
    ensures
        cells_left(c, doubles, Seq::empty()) == cells_left(
            after,
            doubles,
            lines_placed(page, c.info, doubles, n),
        ),
        after.events == crate::markup::items(
            crate::xlsx_read_laws::joined(page.line_list(), n as int),
        ) + back,
        after.info == c.info,
        after.scan.phase == CellPhase::Outside,
        after.scan.row == n,
        after.scan.column == 0,
    decreases n,
{
    if n == 0 {
        c
    } else {
        let m = (n - 1) as nat;
        let mid = lemma_lines_given(c, page, m, back, doubles);
        let list = page.line_list();
        let more = crate::xlsx_read_laws::joined(list, n as int);
        assert(list[m as int] == page.line_pieces(m as int));
        assert(crate::xlsx_read_laws::joined(list, m as int) == list[m as int] + more);
        crate::markup::lemma_items_concat(list[m as int], more);
        let rest = crate::markup::items(more) + back;
        assert(mid.events =~= crate::markup::items(list[m as int]) + rest);
        lemma_line_given(
            mid,
            page,
            m as int,
            rest,
            doubles,
            lines_placed(page, c.info, doubles, m),
        )
    }
}

/// Where the rows end, there are no more cells.
proof fn lemma_rows_end(
    c: CellsLeft,
    rest: Seq<Result<XmlItem, Seq<char>>>,
    doubles: Doubles,
    found: Seq<PlacedCell>,
)
    requires
        c.scan.phase == CellPhase::Outside,
        c.events == crate::markup::items(seq![Piece::Close("sheetData"@)]) + rest,
    ensures
        cells_left(c, doubles, found) == (found, Ok::<(), Seq<char>>(())),
{
    let piece = Piece::Close("sheetData"@);
    reveal(cells_left);
    reveal_strlit("sheetData");
    reveal_strlit("row");
    assert("sheetData"@.len() != "row"@.len());
    assert(piece.is_sound());
    crate::markup::lemma_piece_tag(piece, XmlKind::Start, "row"@);
    crate::markup::lemma_piece_tag(piece, XmlKind::End, "row"@);
    crate::markup::lemma_piece_tag(piece, XmlKind::Start, "c"@);
    crate::markup::lemma_piece_tag(piece, XmlKind::Empty, "c"@);
    crate::markup::lemma_piece_tag(piece, XmlKind::End, "sheetData"@);
    lemma_take(c.scan, piece, rest);
    assert(ScanState { phase: CellPhase::Outside, ..c.scan } == c.scan);
}

/// The cells of a sheet that the writer has written read back: the cell reader
/// gives, in the order of the lines, first the headers and then the cells of the
/// rows that are not empty, one behind the other in the row of their line, each
/// with the value that [`value_back`](crate::xlsx_read_laws::value_back) says, and
/// then the sheet ends. The texts of the numbers have to hold no markup and to
/// stand for doubles, which are supplied where the reader asks for them; the shared
/// strings have to be those of the writer's table, and no line may have more cells
/// than a sheet has columns.
pub proof fn law_written_cells_read_back(
    c: CellsLeft,
    page: XlsxPage,
    front: Seq<Piece>,
    back: Seq<Piece>,
    doubles: Doubles,
)
    requires
        page.fits(),
        page.lines() <= u32::MAX,
        page.is_readable(c.info, doubles),
        crate::xlsx_read_laws::is_quiet(front),
        hold_no_cells(front),
        back.len() > 0,
        back[0] == Piece::Close("sheetData"@),
        c.events == crate::markup::items(front + page.pieces() + back),
        c.scan.phase == CellPhase::Outside,
        c.scan.row == 0,
        c.scan.column == 0,
    ensures
        cells_left(c, doubles, Seq::empty()) == (
            lines_placed(page, c.info, doubles, page.lines() as nat),
            Ok::<(), Seq<char>>(()),
        ),
{
    let lines = crate::markup::items(page.pieces()) + crate::markup::items(back);
    lemma_sheet_items(front, page.pieces(), back);
    lemma_front_passed(c, front, lines, doubles, Seq::empty());
    crate::xlsx_read_laws::lemma_all_lines(page);
    let first = CellsLeft { events: lines, ..c };
    let last = lemma_lines_given(
        first,
        page,
        page.lines() as nat,
        crate::markup::items(back),
        doubles,
    );
    assert(last.events =~= crate::markup::items(back));
    lemma_rows_end(
        last,
        crate::markup::items(back.drop_first()),
        doubles,
        lines_placed(page, c.info, doubles, page.lines() as nat),
    );
}

/// The events of a sheet: what stands in front of the lines, the lines, and what
/// stands behind them, of which the end of the rows is the first.
proof fn lemma_sheet_items(front: Seq<Piece>, lines: Seq<Piece>, back: Seq<Piece>)
    requires
        back.len() > 0,
        back[0] == Piece::Close("sheetData"@),
    ensures
        crate::markup::items(front + lines + back) == crate::markup::items(front) + (
        crate::markup::items(lines) + crate::markup::items(back)),
        crate::markup::items(back) == crate::markup::items(seq![Piece::Close("sheetData"@)])
            + crate::markup::items(back.drop_first()),
{
    let end = seq![Piece::Close("sheetData"@)];
    crate::markup::lemma_items_concat(front, lines);
    crate::markup::lemma_items_concat(front + lines, back);
    assert(crate::markup::items(front + lines + back) =~= crate::markup::items(front) + (
    crate::markup::items(lines) + crate::markup::items(back)));
    assert(back =~= end + back.drop_first());
    crate::markup::lemma_items_concat(end, back.drop_first());
}

proof fn lemma_no_cells_concat(a: Seq<Piece>, b: Seq<Piece>)
    requires
        hold_no_cells(a),
        hold_no_cells(b),
    ensures
        hold_no_cells(a + b),
{
    let all = a + b;
    assert forall|i: int| 0 <= i < all.len() implies is_no_cell(#[trigger] all[i]) by {
        if i < a.len() {
            assert(all[i] == a[i]);
        } else {
            assert(all[i] == b[i - a.len()]);
        }
    }
}

proof fn lemma_no_cells_in_columns(widths: Seq<int>, n: nat)
    ensures
        hold_no_cells(crate::xlsx_frame::column_pieces(widths, n)),
    decreases n,
{
    if n > 0 {
        lemma_no_cells_in_columns(widths, (n - 1) as nat);
        reveal_strlit("col");
        reveal_strlit("c");
        assert("col"@.len() != "c"@.len());
        lemma_no_cells_concat(
            crate::xlsx_frame::column_pieces(widths, (n - 1) as nat),
            seq![crate::xlsx_frame::column_piece(n as int, widths[n - 1])],
        );
    }
}

proof fn lemma_frame_names()
    ensures
        "sheetData"@ != "c"@,
        "worksheet"@ != "c"@,
        "dimension"@ != "c"@,
        "sheetViews"@ != "c"@,
        "sheetView"@ != "c"@,
        "sheetFormatPr"@ != "c"@,
        "pane"@ != "c"@,
        "selection"@ != "c"@,
        "cols"@ != "c"@,
        "cols"@ != "sheetData"@,
        "sheetViews"@ != "sheetData"@,
        "sheetView"@ != "sheetData"@,
{
    reveal_strlit("c");
    reveal_strlit("sheetData");
    reveal_strlit("worksheet");
    reveal_strlit("dimension");
    reveal_strlit("sheetViews");
    reveal_strlit("sheetView");
    reveal_strlit("sheetFormatPr");
    reveal_strlit("pane");
    reveal_strlit("selection");
    reveal_strlit("cols");
    assert("c"@.len() == 1);
    assert("cols"@.len() == 4);
    assert("sheetData"@.len() == 9);
    assert("worksheet"@.len() == 9);
    assert("dimension"@.len() == 9);
    assert("selection"@.len() == 9);
    assert("pane"@.len() == 4);
    assert("sheetViews"@.len() == 10);
    assert("sheetFormatPr"@.len() == 13);
    assert("sheetView"@.len() == 9);
    assert("sheetView"@[5] != "sheetData"@[5]);
}

proof fn lemma_no_cells_in_views(has_headers: bool, is_first: bool)
    ensures
        hold_no_cells(crate::xlsx_frame::view_pieces(has_headers, is_first)),
{
    lemma_frame_names();
}

/// What the writer writes around the rows of a worksheet is what
/// [`law_written_cells_read_back`] asks of it: there are no cells in front of the
/// rows, and they end where the lines end. With
/// [`law_written_part`](crate::xlsx_frame::law_written_part) and
/// [`law_streamed_part`](crate::xlsx_frame::law_streamed_part) the law speaks of
/// the writer's own output.
pub proof fn law_frame_holds_no_cells(
    total_rows: int,
    columns: int,
    widths: Seq<int>,
    has_headers: bool,
    is_first: bool,
    filtered: bool,
)
    ensures
        hold_no_cells(
            crate::xlsx_frame::front_pieces(total_rows, columns, widths, has_headers, is_first),
        ),
        crate::xlsx_frame::back_pieces(filtered, total_rows, columns).len() > 0,
        crate::xlsx_frame::back_pieces(filtered, total_rows, columns)[0] == Piece::Close(
            "sheetData"@,
        ),
{
    lemma_frame_names();
    let n = widths.len();
    let columns_in = crate::xlsx_frame::column_pieces(widths, n);
    lemma_no_cells_in_columns(widths, n);
    let open = Piece::Open { name: "cols"@, attributes: Seq::empty() };
    let close = Piece::Close("cols"@);
    assert(hold_no_cells(seq![open]));
    assert(hold_no_cells(seq![close]));
    lemma_no_cells_concat(seq![open], columns_in);
    lemma_no_cells_concat(seq![open] + columns_in, seq![close]);
    let range = seq![
        crate::xlsx_frame::range_piece(
            "dimension"@,
            crate::xlsx_frame::dimension_range(total_rows, columns),
        ),
    ];
    assert(hold_no_cells(range));
    let views = crate::xlsx_frame::view_pieces(has_headers, is_first);
    lemma_no_cells_in_views(has_headers, is_first);
    lemma_no_cells_concat(range, views);
    let cols = crate::markup::element("cols"@, Seq::empty(), columns_in);
    lemma_no_cells_concat(range + views, cols);
    let head = crate::xlsx_frame::head_pieces(
        total_rows,
        columns,
        widths,
        has_headers,
        is_first,
    );
    let start = seq![
        crate::xlsx_frame::declaration_piece(),
        Piece::Open {
            name: "worksheet"@,
            attributes: crate::xlsx_frame::worksheet_attributes(),
        },
    ];
    let rows = seq![Piece::Open { name: "sheetData"@, attributes: Seq::empty() }];
    assert(hold_no_cells(start));
    assert(hold_no_cells(rows));
    lemma_no_cells_concat(start, head);
    lemma_no_cells_concat(start + head, rows);
    assert(crate::xlsx_frame::front_pieces(total_rows, columns, widths, has_headers, is_first)
        =~= start + head + rows);
}

} // verus!
