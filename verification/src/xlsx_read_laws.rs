//! What the XLSX reader makes of the sheets that the XLSX writer writes.

use vstd::prelude::*;
use crate::formats::{Cell, Plain};
use crate::markup::{Attr, Piece};
use crate::number::{Number, NumberTable};
use crate::sheet_tables::Tables;
use crate::xlsb_reader::BookInfo;
use crate::xlsx_reader::{Progress, XlsxBookState};
use crate::xlsx_rows::{RowState, Signal};
use crate::xlsx_scan::{Parsed, XlsxCellType};
use crate::xml_events::{XmlItem, XmlKind};

verus! {

/// The doubles that the texts of numbers stand for, by their bits.
pub type Doubles = spec_fn(Seq<char>) -> Option<u64>;

/// What reading on leads to when the double of every number is supplied.
pub open spec fn run_with(
    scan: RowState,
    events: Seq<Result<XmlItem, Seq<char>>>,
    info: BookInfo,
    doubles: Doubles,
) -> (RowState, Seq<Result<XmlItem, Seq<char>>>, Signal)
    decreases events.len(),
{
    let (next, signal) = scan.outcome_step(events, info.shared);
    if events.len() == 0 {
        (next, events, signal)
    } else {
        let left = events.skip(1);
        match signal {
            Signal::More => run_with(next, left, info, doubles),
            Signal::Number => {
                let (resumed, outcome) = next.with_number(doubles((next.cell->0).text), info);
                match outcome {
                    Signal::Fault(_) => (resumed, left, outcome),
                    _ => run_with(resumed, left, info, doubles),
                }
            },
            _ => (next, left, signal),
        }
    }
}

/// Reading with the doubles supplied is reading up to a number and going on with
/// its double.
proof fn lemma_run_split(
    scan: RowState,
    events: Seq<Result<XmlItem, Seq<char>>>,
    info: BookInfo,
    doubles: Doubles,
)
    ensures
        ({
            let (next, left, signal) = scan.run(events, info.shared);
            let (resumed, outcome) = next.with_number(doubles((next.cell->0).text), info);
            run_with(scan, events, info, doubles) == if signal is Number {
                match outcome {
                    Signal::Fault(_) => (resumed, left, outcome),
                    _ => run_with(resumed, left, info, doubles),
                }
            } else {
                (next, left, signal)
            }
        }),
        scan.run(events, info.shared).2 is Number ==> scan.run(events, info.shared).1.len()
            < events.len(),
        scan.run(events, info.shared).1.len() <= events.len(),
        !(scan.run(events, info.shared).2 is More),
    decreases events.len(),
{
    let (next, signal) = scan.outcome_step(events, info.shared);
    if events.len() > 0 && signal is More {
        lemma_run_split(next, events.skip(1), info, doubles);
    }
}

impl XlsxBookState {
    /// What reading comes to when it has come to some result and the doubles of the
    /// numbers that it stops at are supplied.
    pub open spec fn supplied(
        self,
        result: Result<Progress, Seq<char>>,
        doubles: Doubles,
    ) -> (XlsxBookState, Result<Progress, Seq<char>>)
        decreases (self.events->0).len(),
    {
        match result {
            Ok(Progress::Number(text)) => {
                let (next, r) = self.resumed(doubles(text));
                if (next.events->0).len() < (self.events->0).len() {
                    next.supplied(r, doubles)
                } else {
                    (next, r)
                }
            },
            _ => (self, result),
        }
    }

    /// What reading the next row comes to when the doubles of its numbers are
    /// supplied.
    pub open spec fn row_read(self, doubles: Doubles) -> (
        XlsxBookState,
        Result<Progress, Seq<char>>,
    ) {
        let (next, r) = self.advanced();
        next.supplied(r, doubles)
    }

    /// The reader after `n` more rows have been read.
    pub open spec fn after_reads(self, doubles: Doubles, n: nat) -> XlsxBookState
        decreases n,
    {
        if n == 0 {
            self
        } else {
            self.after_reads(doubles, (n - 1) as nat).row_read(doubles).0
        }
    }
}

/// Where a row has been read to the end, the reader has moved on to the row.
proof fn lemma_read_on(state: XlsxBookState, scan: RowState, doubles: Doubles)
    requires
        state.events is Some,
    ensures
        ({
            let (next, left, signal) = run_with(scan, state.events->0, state.info(), doubles);
            let (first, r) = state.read_on(scan);
            let (last, result) = first.supplied(r, doubles);
            let moved = XlsxBookState { events: Some(left), scan: next, ..state };
            &&& signal is Row ==> (last, result) == (
                XlsxBookState { rows: state.rows + 1, ..moved },
                Ok::<Progress, Seq<char>>(Progress::Row),
            )
            &&& signal is End ==> (last, result) == (
                moved,
                Ok::<Progress, Seq<char>>(Progress::End),
            )
        }),
    decreases (state.events->0).len(),
{
    let events = state.events->0;
    lemma_run_split(scan, events, state.info(), doubles);
    let (next, left, signal) = scan.run(events, state.shared);
    let (first, r) = state.read_on(scan);
    if signal is Number {
        let text = (next.cell->0).text;
        let (resumed, outcome) = next.with_number(doubles(text), state.info());
        assert(first.info() == state.info());
        if !(outcome is Fault) {
            lemma_read_on(first, resumed, doubles);
            lemma_run_split(resumed, left, state.info(), doubles);
            let (second, r2) = first.resumed(doubles(text));
            assert(second.events->0.len() <= left.len());
            if second.events->0.len() == left.len() {
                assert(!(r2 matches Ok(Progress::Number(_))));
            }
        }
    }
}

/// One event is taken.
pub proof fn lemma_take(
    scan: RowState,
    piece: Piece,
    rest: Seq<Result<XmlItem, Seq<char>>>,
    info: BookInfo,
    doubles: Doubles,
)
    ensures
        ({
            let events = crate::markup::items(seq![piece]) + rest;
            &&& events.len() > 0
            &&& events.skip(1) == rest
            &&& scan.outcome_step(events, info.shared) == scan.step(piece.item(), info.shared)
        }),
{
    let events = crate::markup::items(seq![piece]) + rest;
    assert(events[0] == Ok::<XmlItem, Seq<char>>(piece.item()));
    assert(events.skip(1) =~= rest);
}

/// Pieces that are no row tags.
pub open spec fn is_quiet(pieces: Seq<Piece>) -> bool {
    forall|i: int|
        0 <= i < pieces.len() ==> (#[trigger] pieces[i]).is_sound() && match pieces[i] {
            Piece::Open { name, .. } => name != "row"@,
            Piece::Empty { name, .. } => name != "row"@,
            Piece::Close(name) => name != "row"@,
            _ => true,
        }
}

/// Outside of rows, pieces that are no row tags change nothing.
proof fn lemma_quiet(
    scan: RowState,
    pieces: Seq<Piece>,
    rest: Seq<Result<XmlItem, Seq<char>>>,
    info: BookInfo,
    doubles: Doubles,
)
    requires
        is_quiet(pieces),
        scan.cell is None,
        !scan.in_row,
    ensures
        run_with(scan, crate::markup::items(pieces) + rest, info, doubles) == run_with(
            scan,
            rest,
            info,
            doubles,
        ),
    decreases pieces.len(),
{
    if pieces.len() == 0 {
        assert(crate::markup::items(pieces) + rest =~= rest);
    } else {
        let first = pieces[0];
        let more = pieces.drop_first();
        assert(pieces =~= seq![first] + more);
        crate::markup::lemma_items_concat(seq![first], more);
        let left = crate::markup::items(more) + rest;
        assert(crate::markup::items(pieces) + rest =~= crate::markup::items(seq![first]) + left);
        lemma_take(scan, first, left, info, doubles);
        crate::markup::lemma_piece_tag(first, XmlKind::Start, "row"@);
        crate::markup::lemma_piece_tag(first, XmlKind::Empty, "row"@);
        crate::markup::lemma_piece_tag(first, XmlKind::End, "row"@);
        assert(scan.step(first.item(), info.shared) == (scan, Signal::More));
        assert forall|i: int| 0 <= i < more.len() implies (#[trigger] more[i]).is_sound()
            && match more[i] {
            Piece::Open { name, .. } => name != "row"@,
            Piece::Empty { name, .. } => name != "row"@,
            Piece::Close(name) => name != "row"@,
            _ => true,
        } by {
            assert(more[i] == pieces[i + 1]);
        }
        lemma_quiet(scan, more, rest, info, doubles);
    }
}

/// The bytes of decimal digits stand for the number.
pub proof fn lemma_digit_bytes(n: nat)
    ensures
        ({
            let bytes = vstd::utf8::encode_utf8(crate::text::digits(n));
            &&& bytes.len() > 0
            &&& crate::xlsx_scan::all_digits(bytes)
            &&& crate::xlsx_scan::digits_number(bytes) == n
        }),
    decreases n,
{
    let d = crate::text::digit(n % 10);
    let one = seq![d];
    assert(vstd::utf8::is_ascii_chars(one));
    vstd::utf8::is_ascii_chars_encode_utf8(one);
    let last = vstd::utf8::encode_utf8(one);
    assert(one[0] as u8 == last[0]);
    assert(last[0] == 48 + n % 10);
    if n < 10 {
        assert(crate::text::digits(n) =~= one);
        assert(last.drop_last() =~= Seq::<u8>::empty());
        assert(crate::xlsx_scan::digits_number(last.drop_last()) == 0);
    } else {
        lemma_digit_bytes(n / 10);
        let front = crate::text::digits(n / 10);
        assert(crate::text::digits(n) =~= front + one);
        crate::xlsx_laws::lemma_encode_concat(front, one);
        let bytes = vstd::utf8::encode_utf8(crate::text::digits(n));
        assert(bytes =~= vstd::utf8::encode_utf8(front).push(last[0]));
        assert(bytes.drop_last() =~= vstd::utf8::encode_utf8(front));
    }
}

/// An index that was written reads back.
pub proof fn lemma_index_bytes(n: int, other: usize)
    requires
        0 <= n <= usize::MAX,
    ensures
        crate::xlsx_scan::index_or(vstd::utf8::encode_utf8(crate::text::decimal(n)), other) == n,
{
    lemma_digit_bytes(n as nat);
}

/// How a value is stored.
pub open spec fn storage_of(kind: Option<Seq<char>>) -> XlsxCellType {
    match kind {
        None => XlsxCellType::Number,
        Some(k) => if k == "s"@ {
            XlsxCellType::SharedString
        } else {
            XlsxCellType::Boolean
        },
    }
}

/// The style that a missing attribute stands for is zero.
pub open spec fn style_of(style: Option<int>) -> int {
    match style {
        Some(s) => s,
        None => 0,
    }
}

/// The attributes of a cell read back.
pub proof fn lemma_head_back(kind: Option<Seq<char>>, style: Option<int>)
    requires
        kind matches Some(k) ==> k == "s"@ || k == "b"@,
        style matches Some(s) ==> 0 <= s <= usize::MAX,
    ensures
        ({
            let attributes = crate::xlsx_markup::cell_attributes(kind, style);
            crate::xlsx_scan::head_of((Piece::Open { name: "c"@, attributes }).item()) == (
            crate::xlsx_scan::CellHead {
                column: None,
                cell_type: storage_of(kind),
                style: style_of(style),
            })
        }),
{
    let attributes = crate::xlsx_markup::cell_attributes(kind, style);
    let list = crate::markup::attribute_items(attributes);
    reveal_strlit("r");
    reveal_strlit("s");
    reveal_strlit("t");
    reveal_strlit("b");
    assert("t"@[0] != "r"@[0] && "s"@[0] != "r"@[0] && "t"@[0] != "s"@[0] && "b"@[0] != "s"@[0]);
    crate::markup::lemma_same_bytes("t"@, "r"@);
    crate::markup::lemma_same_bytes("s"@, "r"@);
    crate::markup::lemma_same_bytes("t"@, "s"@);
    crate::markup::lemma_same_bytes("b"@, "s"@);
    reveal_with_fuel(crate::xlsx_scan::cell_head, 3);
    match style {
        Some(s) => {
            lemma_index_bytes(s, 0);
        },
        None => {},
    }
}

/// The value that is read from a cell.
pub open spec fn read_value(
    kind: Option<Seq<char>>,
    style: Option<int>,
    value: Seq<char>,
    info: BookInfo,
    doubles: Doubles,
) -> Option<Plain> {
    let parsed = match crate::xlsx_scan::stored_value(value, storage_of(kind)) {
        Some(parsed) => Ok(parsed),
        None => crate::xlsx_scan::numeric_value(
            value,
            doubles(value),
            XlsxCellType::Number,
            style_of(style),
            info,
        ),
    };
    match parsed {
        Ok(parsed) => Some(parsed.value(info.shared)),
        Err(_) => None,
    }
}

/// A row with one more value at its end.
pub open spec fn with_read(scan: RowState, value: Plain) -> RowState {
    RowState {
        row: scan.row.push(crate::xlsb_reader::bare(value)),
        fields: if scan.next_col + 1 > scan.fields {
            scan.next_col + 1
        } else {
            scan.fields
        },
        next_col: scan.next_col + 1,
        cell: None,
        ..scan
    }
}

/// A cell of the writer is read.
#[verifier::spinoff_prover]
pub proof fn lemma_cell_read(
    scan: RowState,
    kind: Option<Seq<char>>,
    style: Option<int>,
    value: Seq<char>,
    rest: Seq<Result<XmlItem, Seq<char>>>,
    info: BookInfo,
    doubles: Doubles,
)
    requires
        scan.in_row,
        scan.cell is None,
        0 <= scan.next_col < 16_384,
        scan.row.len() == scan.next_col,
        kind matches Some(k) ==> k == "s"@ || k == "b"@,
        style matches Some(s) ==> 0 <= s <= usize::MAX,
        crate::markup::is_plain(value),
        read_value(kind, style, value, info, doubles) is Some,
    ensures
        run_with(
            scan,
            crate::markup::items(crate::xlsx_markup::cell_pieces(kind, style, value)) + rest,
            info,
            doubles,
        ) == run_with(
            with_read(scan, read_value(kind, style, value, info, doubles)->0),
            rest,
            info,
            doubles,
        ),
{
    let attributes = crate::xlsx_markup::cell_attributes(kind, style);
    let p1 = Piece::Open { name: "c"@, attributes };
    let p2 = Piece::Open { name: "v"@, attributes: Seq::empty() };
    let p3 = Piece::Text(value);
    let p4 = Piece::Close("v"@);
    let p5 = Piece::Close("c"@);
    let r4 = crate::markup::items(seq![p5]) + rest;
    let r3 = crate::markup::items(seq![p4]) + r4;
    let r2 = crate::markup::items(seq![p3]) + r3;
    let r1 = crate::markup::items(seq![p2]) + r2;
    lemma_cell_items(kind, style, value, rest);
    let s1 = cell_in(scan, kind, style, false, Seq::empty());
    let s2 = cell_in(scan, kind, style, true, Seq::empty());
    let s3 = cell_in(scan, kind, style, true, value);
    lemma_open_cell(scan, kind, style);
    lemma_advance(scan, p1, s1, r1, info, doubles);
    lemma_open_value(s1, info.shared);
    lemma_advance(s1, p2, s2, r2, info, doubles);
    lemma_value_text(s2, value, info.shared);
    lemma_advance(s2, p3, s3, r3, info, doubles);
    lemma_end_of_cell(scan, kind, style, value, rest, info, doubles);
}

/// The events of a cell, one by one.
pub proof fn lemma_cell_items(
    kind: Option<Seq<char>>,
    style: Option<int>,
    value: Seq<char>,
    rest: Seq<Result<XmlItem, Seq<char>>>,
)
    ensures
        ({
            let attributes = crate::xlsx_markup::cell_attributes(kind, style);
            let p1 = Piece::Open { name: "c"@, attributes };
            let p2 = Piece::Open { name: "v"@, attributes: Seq::empty() };
            let p3 = Piece::Text(value);
            let p4 = Piece::Close("v"@);
            let p5 = Piece::Close("c"@);
            crate::markup::items(crate::xlsx_markup::cell_pieces(kind, style, value)) + rest
                == crate::markup::items(seq![p1]) + (crate::markup::items(seq![p2]) + (
            crate::markup::items(seq![p3]) + (crate::markup::items(seq![p4]) + (
            crate::markup::items(seq![p5]) + rest))))
        }),
{
    let attributes = crate::xlsx_markup::cell_attributes(kind, style);
    let p1 = Piece::Open { name: "c"@, attributes };
    let p2 = Piece::Open { name: "v"@, attributes: Seq::empty() };
    let p3 = Piece::Text(value);
    let p4 = Piece::Close("v"@);
    let p5 = Piece::Close("c"@);
    lemma_five_pieces(p1, p2, p3, p4, p5);
    lemma_five_items(p1, p2, p3, p4, p5, rest);
}

proof fn lemma_five_pieces(a: Piece, b: Piece, c: Piece, d: Piece, e: Piece)
    ensures
        seq![a] + (seq![b] + seq![c] + seq![d]) + seq![e] == seq![a, b, c, d, e],
{
    assert(seq![a] + (seq![b] + seq![c] + seq![d]) + seq![e] =~= seq![a, b, c, d, e]);
}

proof fn lemma_five_items(
    a: Piece,
    b: Piece,
    c: Piece,
    d: Piece,
    e: Piece,
    rest: Seq<Result<XmlItem, Seq<char>>>,
)
    ensures
        crate::markup::items(seq![a, b, c, d, e]) + rest == crate::markup::items(seq![a]) + (
        crate::markup::items(seq![b]) + (crate::markup::items(seq![c]) + (crate::markup::items(
            seq![d],
        ) + (crate::markup::items(seq![e]) + rest)))),
{
    assert(seq![a, b, c, d, e] =~= seq![a] + seq![b, c, d, e]);
    assert(seq![b, c, d, e] =~= seq![b] + seq![c, d, e]);
    assert(seq![c, d, e] =~= seq![c] + seq![d, e]);
    assert(seq![d, e] =~= seq![d] + seq![e]);
    crate::markup::lemma_items_concat(seq![a], seq![b, c, d, e]);
    crate::markup::lemma_items_concat(seq![b], seq![c, d, e]);
    crate::markup::lemma_items_concat(seq![c], seq![d, e]);
    crate::markup::lemma_items_concat(seq![d], seq![e]);
    lemma_five_in_a_row(
        crate::markup::items(seq![a]),
        crate::markup::items(seq![b]),
        crate::markup::items(seq![c]),
        crate::markup::items(seq![d]),
        crate::markup::items(seq![e]),
        rest,
    );
}

proof fn lemma_five_in_a_row<T>(
    a: Seq<T>,
    b: Seq<T>,
    c: Seq<T>,
    d: Seq<T>,
    e: Seq<T>,
    rest: Seq<T>,
)
    ensures
        a + (b + (c + (d + e))) + rest == a + (b + (c + (d + (e + rest)))),
{
    assert(a + (b + (c + (d + e))) + rest =~= a + (b + (c + (d + (e + rest)))));
}

/// The tags behind a cell's value are read.
proof fn lemma_end_of_cell(
    scan: RowState,
    kind: Option<Seq<char>>,
    style: Option<int>,
    value: Seq<char>,
    rest: Seq<Result<XmlItem, Seq<char>>>,
    info: BookInfo,
    doubles: Doubles,
)
    requires
        scan.in_row,
        scan.cell is None,
        0 <= scan.next_col < 16_384,
        scan.row.len() == scan.next_col,
        read_value(kind, style, value, info, doubles) is Some,
    ensures
        ({
            let left = crate::markup::items(seq![Piece::Close("v"@)]) + (crate::markup::items(
                seq![Piece::Close("c"@)],
            ) + rest);
            run_with(cell_in(scan, kind, style, true, value), left, info, doubles) == run_with(
                with_read(scan, read_value(kind, style, value, info, doubles)->0),
                rest,
                info,
                doubles,
            )
        }),
{
    let p4 = Piece::Close("v"@);
    let p5 = Piece::Close("c"@);
    let r4 = crate::markup::items(seq![p5]) + rest;
    let s3 = cell_in(scan, kind, style, true, value);
    lemma_close_value(s3, info.shared);
    lemma_take(s3, p4, r4, info, doubles);
    let parsed = match crate::xlsx_scan::stored_value(value, storage_of(kind)) {
        Some(parsed) => parsed,
        None => crate::xlsx_scan::numeric_value(
            value,
            doubles(value),
            XlsxCellType::Number,
            style_of(style),
            info,
        )->Ok_0,
    };
    let s4 = RowState {
        cell: Some(
            crate::xlsx_rows::CellState { parsed, in_value: false, ..s3.cell->0 },
        ),
        ..scan
    };
    assert(run_with(s3, crate::markup::items(seq![p4]) + r4, info, doubles) == run_with(
        s4,
        r4,
        info,
        doubles,
    )) by {
        if crate::xlsx_scan::stored_value(value, storage_of(kind)) is None {
            assert(storage_of(kind) == XlsxCellType::Number);
        }
    }
    let found = read_value(kind, style, value, info, doubles)->0;
    lemma_close_cell(s4, info.shared);
    assert(crate::xlsb_reader::with_cell(scan.row, scan.next_col, found) =~= scan.row.push(
        crate::xlsb_reader::bare(found),
    ));
    lemma_advance(s4, p5, with_read(scan, found), rest, info, doubles);
}

pub proof fn lemma_close_cell(scan: RowState, shared: Seq<Seq<char>>)
    requires
        scan.cell is Some,
    ensures
        scan.step(Piece::Close("c"@).item(), shared) == (RowState { cell: None, ..scan }).with_value(
            (scan.cell->0).column,
            Some((scan.cell->0).parsed.value(shared)),
        ),
{
    crate::xlsx_markup::lemma_cell_names();
    crate::markup::lemma_piece_tag(Piece::Close("c"@), XmlKind::End, "c"@);
}

/// One event is taken, and reading goes on.
pub proof fn lemma_advance(
    scan: RowState,
    piece: Piece,
    next: RowState,
    rest: Seq<Result<XmlItem, Seq<char>>>,
    info: BookInfo,
    doubles: Doubles,
)
    requires
        scan.step(piece.item(), info.shared) == (next, Signal::More),
    ensures
        run_with(scan, crate::markup::items(seq![piece]) + rest, info, doubles) == run_with(
            next,
            rest,
            info,
            doubles,
        ),
{
    lemma_take(scan, piece, rest, info, doubles);
}

/// The cell that is being read.
spec fn cell_in(
    scan: RowState,
    kind: Option<Seq<char>>,
    style: Option<int>,
    in_value: bool,
    text: Seq<char>,
) -> RowState {
    RowState {
        cell: Some(
            crate::xlsx_rows::CellState {
                column: None,
                cell_type: storage_of(kind),
                style: style_of(style),
                parsed: Parsed::Empty,
                inline: false,
                in_value,
                in_text: false,
                text,
            },
        ),
        ..scan
    }
}

proof fn lemma_open_cell(scan: RowState, kind: Option<Seq<char>>, style: Option<int>)
    requires
        scan.in_row,
        scan.cell is None,
        kind matches Some(k) ==> k == "s"@ || k == "b"@,
        style matches Some(s) ==> 0 <= s <= usize::MAX,
    ensures
        ({
            let attributes = crate::xlsx_markup::cell_attributes(kind, style);
            let item = (Piece::Open { name: "c"@, attributes }).item();
            scan.outer_step(item) == (
                cell_in(scan, kind, style, false, Seq::empty()),
                Signal::More,
            )
        }),
{
    let attributes = crate::xlsx_markup::cell_attributes(kind, style);
    let piece = Piece::Open { name: "c"@, attributes };
    crate::xlsx_markup::lemma_kinds();
    crate::xlsx_markup::lemma_cell_names();
    crate::xlsx_markup::lemma_cell_attributes(kind, style);
    assert(piece.is_sound());
    crate::markup::lemma_piece_tag(piece, XmlKind::Start, "row"@);
    crate::markup::lemma_piece_tag(piece, XmlKind::End, "row"@);
    crate::markup::lemma_piece_tag(piece, XmlKind::Empty, "row"@);
    crate::markup::lemma_piece_tag(piece, XmlKind::Start, "c"@);
    lemma_head_back(kind, style);
}

pub proof fn lemma_open_value(scan: RowState, shared: Seq<Seq<char>>)
    requires
        scan.cell matches Some(cell) && !cell.in_value,
    ensures
        scan.step((Piece::Open { name: "v"@, attributes: Seq::empty() }).item(), shared) == (
            RowState {
                cell: Some(
                    crate::xlsx_rows::CellState {
                        in_value: true,
                        text: Seq::empty(),
                        ..scan.cell->0
                    },
                ),
                ..scan
            },
            Signal::More,
        ),
{
    let piece = Piece::Open { name: "v"@, attributes: Seq::empty() };
    crate::xlsx_markup::lemma_cell_names();
    assert(crate::markup::are_attributes(Seq::empty()));
    assert(piece.is_sound());
    crate::markup::lemma_piece_tag(piece, XmlKind::End, "c"@);
    crate::markup::lemma_piece_tag(piece, XmlKind::Start, "v"@);
}

pub proof fn lemma_value_text(scan: RowState, value: Seq<char>, shared: Seq<Seq<char>>)
    requires
        scan.cell matches Some(cell) && cell.in_value && cell.text == Seq::<char>::empty(),
        crate::markup::is_plain(value),
    ensures
        scan.step(Piece::Text(value).item(), shared) == (
            RowState {
                cell: Some(crate::xlsx_rows::CellState { text: value, ..scan.cell->0 }),
                ..scan
            },
            Signal::More,
        ),
{
    vstd::utf8::encode_utf8_valid_utf8(value);
    vstd::utf8::encode_utf8_decode_utf8(value);
    assert(Seq::<char>::empty() + value =~= value);
}

pub proof fn lemma_close_value(scan: RowState, shared: Seq<Seq<char>>)
    requires
        scan.cell matches Some(cell) && cell.in_value && !cell.inline,
    ensures
        ({
            let cell = scan.cell->0;
            scan.step(Piece::Close("v"@).item(), shared)
                == match crate::xlsx_scan::stored_value(cell.text, cell.cell_type) {
                Some(parsed) => (
                    RowState {
                        cell: Some(
                            crate::xlsx_rows::CellState { parsed, in_value: false, ..cell },
                        ),
                        ..scan
                    },
                    Signal::More,
                ),
                None => (scan, Signal::Number),
            }
        }),
{
    let piece = Piece::Close("v"@);
    crate::xlsx_markup::lemma_cell_names();
    reveal_strlit("t");
    reveal_strlit("v");
    assert("t"@[0] != "v"@[0]);
    crate::markup::lemma_piece_tag(piece, XmlKind::End, "c"@);
    crate::markup::lemma_piece_tag(piece, XmlKind::End, "t"@);
    crate::markup::lemma_piece_tag(piece, XmlKind::End, "v"@);
    let cell = scan.cell->0;
    assert(RowState { cell: Some(cell), ..scan } == scan);
}

/// What the text of a number reads back as: a date where the style says so.
pub open spec fn number_back(
    text: Seq<char>,
    style: Option<int>,
    info: BookInfo,
    doubles: Doubles,
) -> Plain {
    match doubles(text) {
        Some(bits) => if style_of(style) > 0 && crate::xlsb_reader::shows_date(
            info.format_of(style_of(style)),
            info.date_formats,
        ) {
            Plain::DateTime(Number::Double(bits))
        } else {
            Plain::Number(Number::Double(bits))
        },
        None => Plain::Empty,
    }
}

/// What the value of a cell reads back as. A number that is not finite reads back
/// as text.
pub open spec fn value_back(
    value: Plain,
    style: Option<int>,
    numbers: NumberTable,
    streaming: bool,
    info: BookInfo,
    doubles: Doubles,
) -> Plain {
    match value {
        Plain::Number(n) => if crate::number::is_finite(numbers.bits(n)) {
            number_back(
                crate::xlsx_cells::number_text(n, numbers, streaming),
                style,
                info,
                doubles,
            )
        } else {
            Plain::Text(crate::xlsx_parts::without_controls(numbers.display(n)))
        },
        Plain::Text(s) => Plain::Text(crate::xlsx_parts::without_controls(s)),
        Plain::Integer(n) => number_back(crate::text::decimal(n as int), style, info, doubles),
        Plain::DateTime(n) => number_back(
            crate::xlsx_cells::number_text(n, numbers, streaming),
            style,
            info,
            doubles,
        ),
        _ => value,
    }
}

/// The texts that numbers are written as stand for doubles.
pub open spec fn reads_numbers(doubles: Doubles, numbers: NumberTable, streaming: bool) -> bool {
    &&& forall|n: Number|
        doubles(#[trigger] crate::xlsx_cells::number_text(n, numbers, streaming)) is Some
    &&& forall|n: i64| doubles(#[trigger] crate::text::decimal(n as int)) is Some
}

/// The tables have room for what is written, and the reader has the texts of the
/// table, without their control characters.
pub open spec fn are_shared(tables: Tables, info: BookInfo) -> bool {
    &&& crate::xlsx_string_laws::cleaned(
        tables.strings,
        tables.strings.len(),
    ).is_prefix_of(info.shared)
    &&& info.shared.len() <= usize::MAX
    &&& tables.formats.len() + 4 <= usize::MAX
}

/// The tables have only grown.
pub open spec fn extends(later: Tables, earlier: Tables) -> bool {
    &&& earlier.strings.is_prefix_of(later.strings)
    &&& earlier.formats.is_prefix_of(later.formats)
}

pub proof fn lemma_extends_trans(a: Tables, b: Tables, c: Tables)
    requires
        extends(b, a),
        extends(c, b),
    ensures
        extends(c, a),
{
    crate::xlsb_laws::lemma_prefix_trans(a.strings, b.strings, c.strings);
    crate::xlsb_laws::lemma_prefix_trans(a.formats, b.formats, c.formats);
}

pub proof fn lemma_shared_before(later: Tables, earlier: Tables, info: BookInfo)
    requires
        extends(later, earlier),
        are_shared(later, info),
    ensures
        are_shared(earlier, info),
{
    let some = crate::xlsx_string_laws::cleaned(earlier.strings, earlier.strings.len());
    let all = crate::xlsx_string_laws::cleaned(later.strings, later.strings.len());
    assert(some.is_prefix_of(all)) by {
        assert forall|i: int| 0 <= i < some.len() implies #[trigger] some[i] == all[i] by {
            assert(earlier.strings[i] == later.strings.take(earlier.strings.len() as int)[i]);
        }
        assert(some =~= all.take(some.len() as int));
    }
    crate::xlsb_laws::lemma_prefix_trans(some, all, info.shared);
}

pub proof fn lemma_cell_extends(tables: Tables, cell: Cell, numbers: NumberTable, streaming: bool)
    ensures
        extends(crate::xlsx_cells::cell(tables, cell, numbers, streaming).tables, tables),
{
    assert(extends(tables, tables));
    let t = tables.with_format(cell.format);
    match cell.format {
        Some(format) => {
            crate::string_table::law_index_finds_text(tables.formats, format, format);
        },
        None => {},
    }
    assert(extends(t, tables));
    match cell.value {
        Plain::Text(text) => {
            crate::string_table::law_index_finds_text(t.strings, text, text);
        },
        Plain::Number(n) => {
            crate::string_table::law_index_finds_text(
                t.strings,
                numbers.display(n),
                numbers.display(n),
            );
        },
        _ => {},
    }
}

/// The values of the cells of a row that are not empty, as they read back.
pub open spec fn cells_back(
    tables: Tables,
    row: Seq<Cell>,
    n: nat,
    numbers: NumberTable,
    streaming: bool,
    info: BookInfo,
    doubles: Doubles,
) -> Seq<Cell>
    decreases n,
{
    if n == 0 {
        Seq::empty()
    } else {
        let before = cells_back(tables, row, (n - 1) as nat, numbers, streaming, info, doubles);
        let cell = row[n - 1];
        if cell.value is Empty {
            before
        } else {
            before.push(
                crate::xlsb_reader::bare(
                    value_back(
                        cell.value,
                        crate::xlsx_markup::written_style(
                            crate::xlsx_cells::cells(
                                tables,
                                row,
                                (n - 1) as nat,
                                numbers,
                                streaming,
                            ).tables,
                            cell,
                        ),
                        numbers,
                        streaming,
                        info,
                        doubles,
                    ),
                ),
            )
        }
    }
}

/// A row with more values at its end.
pub open spec fn with_reads(scan: RowState, values: Seq<Cell>) -> RowState {
    RowState {
        row: scan.row + values,
        fields: if scan.next_col + values.len() > scan.fields {
            scan.next_col + values.len()
        } else {
            scan.fields
        },
        next_col: scan.next_col + values.len(),
        ..scan
    }
}

/// What is read of a stored text is the text without control characters.
pub proof fn lemma_text_back(tables: Tables, text: Seq<char>, info: BookInfo)
    requires
        are_shared(tables.with_string(text), info),
    ensures
        ({
            let index = crate::text::decimal(tables.string_index(text));
            crate::xlsx_scan::stored_value(index, XlsxCellType::SharedString) == Some(
                Parsed::SharedString(tables.string_index(text) as usize),
            ) && Parsed::SharedString(tables.string_index(text) as usize).value(info.shared)
                == Plain::Text(crate::xlsx_parts::without_controls(text))
        }),
{
    crate::string_table::law_index_finds_text(tables.strings, text, text);
    lemma_index_bytes(tables.string_index(text), usize::MAX);
    let stored = tables.with_string(text).strings;
    let clean = crate::xlsx_string_laws::cleaned(stored, stored.len());
    let index = tables.string_index(text);
    assert(clean[index] == crate::xlsx_parts::without_controls(text));
    assert(info.shared.take(clean.len() as int)[index] == info.shared[index]);
}

/// A cell that is not empty reads back.
pub proof fn lemma_value_read(
    tables: Tables,
    cell: Cell,
    numbers: NumberTable,
    streaming: bool,
    info: BookInfo,
    doubles: Doubles,
)
    requires
        !(cell.value is Empty),
        crate::xlsx_markup::prints_plainly(numbers),
        reads_numbers(doubles, numbers, streaming),
        are_shared(crate::xlsx_cells::cell(tables, cell, numbers, streaming).tables, info),
    ensures
        ({
            let t = tables.with_format(cell.format);
            let style = crate::xlsx_markup::written_style(tables, cell);
            &&& crate::xlsx_markup::stored_as(t, cell.value, numbers, streaming) matches Some(
                (kind, value),
            ) && {
                &&& kind matches Some(k) ==> k == "s"@ || k == "b"@
                &&& crate::markup::is_plain(value)
                &&& read_value(kind, style, value, info, doubles) == Some(
                    value_back(cell.value, style, numbers, streaming, info, doubles),
                )
            }
            &&& style matches Some(s) ==> 0 <= s <= usize::MAX
        }),
{
    let t = tables.with_format(cell.format);
    let style = crate::xlsx_markup::written_style(tables, cell);
    crate::xlsx_markup::lemma_kinds();
    reveal_strlit("s");
    reveal_strlit("b");
    assert("s"@[0] != "b"@[0]);
    match cell.format {
        Some(format) => {
            crate::string_table::law_index_finds_text(tables.formats, format, format);
        },
        None => {},
    }
    match cell.value {
        Plain::Number(n) => {
            let text = crate::xlsx_cells::number_text(n, numbers, streaming);
            assert(doubles(text) is Some);
            assert(crate::markup::is_plain(numbers.shortest(n)));
            assert(crate::markup::is_plain(numbers.display(n)));
            if !crate::number::is_finite(numbers.bits(n)) {
                crate::xlsx_markup::lemma_decimal_is_plain(t.string_index(numbers.display(n)));
                lemma_text_back(t, numbers.display(n), info);
            }
        },
        Plain::DateTime(n) => {
            let text = crate::xlsx_cells::number_text(n, numbers, streaming);
            assert(doubles(text) is Some);
            assert(crate::markup::is_plain(numbers.shortest(n)));
            assert(crate::markup::is_plain(numbers.display(n)));
        },
        Plain::Integer(n) => {
            assert(doubles(crate::text::decimal(n as int)) is Some);
            crate::xlsx_markup::lemma_decimal_is_plain(n as int);
        },
        Plain::Boolean(b) => {
            reveal_strlit("1");
            reveal_strlit("0");
            reveal_strlit("true");
            assert("0"@[0] != "1"@[0]);
            assert("0"@.len() != "true"@.len());
        },
        Plain::Text(s) => {
            crate::xlsx_markup::lemma_decimal_is_plain(t.string_index(s));
            lemma_text_back(t, s, info);
        },
        Plain::Empty => {},
    }
}

/// The cells of a row are read.
proof fn lemma_cells_read(
    scan: RowState,
    tables: Tables,
    row: Seq<Cell>,
    n: nat,
    numbers: NumberTable,
    streaming: bool,
    rest: Seq<Result<XmlItem, Seq<char>>>,
    info: BookInfo,
    doubles: Doubles,
)
    requires
        n <= row.len() <= 16_384,
        scan.in_row,
        scan.cell is None,
        scan.next_col == 0,
        scan.row.len() == 0,
        scan.fields >= 0,
        crate::xlsx_markup::prints_plainly(numbers),
        reads_numbers(doubles, numbers, streaming),
        are_shared(crate::xlsx_cells::cells(tables, row, n, numbers, streaming).tables, info),
    ensures
        run_with(
            scan,
            crate::markup::items(
                crate::xlsx_markup::pieces_of_cells(tables, row, n, numbers, streaming),
            ) + rest,
            info,
            doubles,
        ) == run_with(
            with_reads(scan, cells_back(tables, row, n, numbers, streaming, info, doubles)),
            rest,
            info,
            doubles,
        ),
        cells_back(tables, row, n, numbers, streaming, info, doubles).len() <= n,
    decreases n,
{
    if n == 0 {
        assert(crate::markup::items(Seq::empty()) + rest =~= rest);
        assert(scan.row + Seq::<Cell>::empty() =~= scan.row);
        assert(with_reads(scan, Seq::empty()) == scan);
    } else {
        let m = (n - 1) as nat;
        let before = crate::xlsx_cells::cells(tables, row, m, numbers, streaming).tables;
        let cell = row[n - 1];
        lemma_cell_extends(before, cell, numbers, streaming);
        let after = crate::xlsx_cells::cell(before, cell, numbers, streaming).tables;
        assert(after == crate::xlsx_cells::cells(tables, row, n, numbers, streaming).tables);
        lemma_shared_before(after, before, info);
        let a = crate::xlsx_markup::pieces_of_cells(tables, row, m, numbers, streaming);
        let b = crate::xlsx_markup::pieces_of_cell(before, cell, numbers, streaming);
        crate::markup::lemma_items_concat(a, b);
        let left = crate::markup::items(b) + rest;
        assert(crate::markup::items(a + b) + rest =~= crate::markup::items(a) + left);
        lemma_cells_read(
            scan,
            tables,
            row,
            m,
            numbers,
            streaming,
            left,
            info,
            doubles,
        );
        let some = cells_back(tables, row, m, numbers, streaming, info, doubles);
        let mid = with_reads(scan, some);
        if cell.value is Empty {
            assert(left =~= rest);
        } else {
            lemma_value_read(before, cell, numbers, streaming, info, doubles);
            let t = before.with_format(cell.format);
            let (kind, value) = crate::xlsx_markup::stored_as(
                t,
                cell.value,
                numbers,
                streaming,
            )->0;
            let style = crate::xlsx_markup::written_style(before, cell);
            lemma_cell_read(mid, kind, style, value, rest, info, doubles);
            let found = value_back(cell.value, style, numbers, streaming, info, doubles);
            let all = cells_back(tables, row, n, numbers, streaming, info, doubles);
            assert(all == some.push(crate::xlsb_reader::bare(found)));
            assert(mid.row.push(crate::xlsb_reader::bare(found)) =~= scan.row + all);
            assert(with_read(mid, found) == with_reads(scan, all));
        }
    }
}

/// The headers as they read back.
pub open spec fn headers_back(headers: Seq<Seq<char>>, n: nat) -> Seq<Cell> {
    Seq::new(
        n,
        |i: int|
            crate::xlsb_reader::bare(
                Plain::Text(crate::xlsx_parts::without_controls(headers[i])),
            ),
    )
}

/// The cells of a header row are read.
proof fn lemma_headers_read(
    scan: RowState,
    tables: Tables,
    headers: Seq<Seq<char>>,
    n: nat,
    rest: Seq<Result<XmlItem, Seq<char>>>,
    info: BookInfo,
    doubles: Doubles,
)
    requires
        n <= headers.len() <= 16_384,
        scan.in_row,
        scan.cell is None,
        scan.next_col == 0,
        scan.row.len() == 0,
        scan.fields >= 0,
        are_shared(crate::xlsx_cells::header_cells(tables, headers, n).tables, info),
    ensures
        run_with(
            scan,
            crate::markup::items(crate::xlsx_markup::pieces_of_headers(tables, headers, n)) + rest,
            info,
            doubles,
        ) == run_with(with_reads(scan, headers_back(headers, n)), rest, info, doubles),
    decreases n,
{
    if n == 0 {
        assert(crate::markup::items(Seq::empty()) + rest =~= rest);
        assert(scan.row + headers_back(headers, 0) =~= scan.row);
        assert(with_reads(scan, headers_back(headers, 0)) == scan);
    } else {
        let m = (n - 1) as nat;
        let before = crate::xlsx_cells::header_cells(tables, headers, m).tables;
        let text = headers[n - 1];
        let after = before.with_string(text);
        crate::string_table::law_index_finds_text(before.strings, text, text);
        assert(extends(after, before));
        lemma_shared_before(after, before, info);
        let value = crate::text::decimal(before.string_index(text));
        let a = crate::xlsx_markup::pieces_of_headers(tables, headers, m);
        let b = crate::xlsx_markup::cell_pieces(Some("s"@), Some(3), value);
        crate::markup::lemma_items_concat(a, b);
        let left = crate::markup::items(b) + rest;
        assert(crate::markup::items(a + b) + rest =~= crate::markup::items(a) + left);
        lemma_headers_read(scan, tables, headers, m, left, info, doubles);
        let some = headers_back(headers, m);
        let all = headers_back(headers, n);
        let mid = with_reads(scan, some);
        crate::xlsx_markup::lemma_decimal_is_plain(before.string_index(text));
        lemma_text_back(before, text, info);
        let read = Plain::Text(crate::xlsx_parts::without_controls(text));
        assert(read_value(Some("s"@), Some(3), value, info, doubles) == Some(read));
        lemma_cell_read(mid, Some("s"@), Some(3), value, rest, info, doubles);
        assert(all =~= some.push(crate::xlsb_reader::bare(read)));
        assert(mid.row.push(crate::xlsb_reader::bare(read)) =~= scan.row + all);
        assert(with_read(mid, read) == with_reads(scan, all));
    }
}

/// A row whose cells are read is read to its end.
pub proof fn lemma_row_read(
    fields: int,
    attributes: Seq<Attr>,
    inner: Seq<Piece>,
    values: Seq<Cell>,
    rest: Seq<Result<XmlItem, Seq<char>>>,
    info: BookInfo,
    doubles: Doubles,
)
    requires
        fields >= 0,
        crate::markup::are_attributes(attributes),
        ({
            let scan = RowState { in_row: true, ..RowState::fresh(fields) };
            let left = crate::markup::items(seq![Piece::Close("row"@)]) + rest;
            run_with(scan, crate::markup::items(inner) + left, info, doubles) == run_with(
                with_reads(scan, values),
                left,
                info,
                doubles,
            )
        }),
    ensures
        ({
            let pieces = crate::markup::element("row"@, attributes, inner);
            let (scan, left, signal) = run_with(
                RowState::fresh(fields),
                crate::markup::items(pieces) + rest,
                info,
                doubles,
            );
            &&& scan.row == values
            &&& scan.fields >= 0
            &&& left == rest
            &&& signal is Row
        }),
{
    let open = Piece::Open { name: "row"@, attributes };
    let close = Piece::Close("row"@);
    let pieces = crate::markup::element("row"@, attributes, inner);
    let fresh = RowState::fresh(fields);
    let scan = RowState { in_row: true, ..fresh };
    let left = crate::markup::items(seq![close]) + rest;
    crate::markup::lemma_items_concat(seq![open], inner);
    crate::markup::lemma_items_concat(seq![open] + inner, seq![close]);
    assert(crate::markup::items(pieces) + rest =~= crate::markup::items(seq![open]) + (
    crate::markup::items(inner) + left));
    crate::xlsx_markup::lemma_cell_names();
    assert(open.is_sound() && close.is_sound());
    crate::markup::lemma_piece_tag(open, XmlKind::Start, "row"@);
    lemma_advance(fresh, open, scan, crate::markup::items(inner) + left, info, doubles);
    let last = with_reads(scan, values);
    crate::markup::lemma_piece_tag(close, XmlKind::Start, "row"@);
    crate::markup::lemma_piece_tag(close, XmlKind::End, "row"@);
    lemma_take(last, close, rest, info, doubles);
    assert(last.step(close.item(), info.shared) == (last, Signal::Row));
    assert(Seq::<Cell>::empty() + values =~= values);
}

/// A sheet of the XLSX writer: the tables before it, its headers and rows, the
/// images of its numbers, and whether it was written row by row.
pub struct XlsxPage {
    pub tables: Tables,
    pub headers: Option<Seq<Seq<char>>>,
    pub sheet: Seq<Seq<Cell>>,
    pub numbers: NumberTable,
    pub streaming: bool,
}

impl XlsxPage {
    /// The number of lines before the rows.
    pub open spec fn first(self) -> int {
        if self.headers is Some {
            1
        } else {
            0
        }
    }

    /// The number of lines.
    pub open spec fn lines(self) -> int {
        self.first() + self.sheet.len()
    }

    /// No line has more cells than a sheet has columns.
    pub open spec fn fits(self) -> bool {
        &&& self.headers matches Some(h) ==> h.len() <= 16_384
        &&& forall|i: int|
            0 <= i < self.sheet.len() ==> (#[trigger] self.sheet[i]).len() <= 16_384
    }

    /// What the first `n` rows are written as.
    pub open spec fn rows(self, n: int) -> crate::xlsx_cells::Rendered {
        crate::xlsx_cells::rows(
            crate::xlsx_cells::header_row(self.tables, self.headers).tables,
            self.sheet,
            n as nat,
            self.numbers,
            self.streaming,
        )
    }

    /// The pieces of the lines.
    pub open spec fn pieces(self) -> Seq<Piece> {
        crate::xlsx_markup::pieces_of_header_row(self.tables, self.headers)
            + crate::xlsx_markup::pieces_of_rows(
            crate::xlsx_cells::header_row(self.tables, self.headers).tables,
            self.sheet,
            self.sheet.len(),
            self.numbers,
            self.streaming,
        )
    }

    /// The pieces of a line.
    pub open spec fn line_pieces(self, i: int) -> Seq<Piece> {
        if i < self.first() {
            crate::xlsx_markup::pieces_of_header_row(self.tables, self.headers)
        } else {
            let r = i - self.first();
            crate::xlsx_markup::pieces_of_row(
                self.rows(r).tables,
                self.sheet[r],
                self.numbers,
                self.streaming,
            )
        }
    }

    /// The lines, each as its pieces.
    pub open spec fn line_list(self) -> Seq<Seq<Piece>> {
        Seq::new(self.lines() as nat, |i: int| self.line_pieces(i))
    }

    /// The row that a line reads back as: its cells that are not empty, in their
    /// order.
    pub open spec fn line_back(self, info: BookInfo, doubles: Doubles, i: int) -> Seq<Cell> {
        if i < self.first() {
            headers_back(self.headers->0, (self.headers->0).len())
        } else {
            let r = i - self.first();
            cells_back(
                self.rows(r).tables,
                self.sheet[r],
                self.sheet[r].len(),
                self.numbers,
                self.streaming,
                info,
                doubles,
            )
        }
    }

    /// The rows that the lines read back as.
    pub open spec fn rows_back(self, info: BookInfo, doubles: Doubles) -> Seq<Seq<Cell>> {
        Seq::new(self.lines() as nat, |i: int| self.line_back(info, doubles, i))
    }

    /// What the numbers are written as can be read, and the reader finds every
    /// text.
    pub open spec fn is_readable(self, info: BookInfo, doubles: Doubles) -> bool {
        &&& crate::xlsx_markup::prints_plainly(self.numbers)
        &&& reads_numbers(doubles, self.numbers, self.streaming)
        &&& are_shared(self.rows(self.sheet.len() as int).tables, info)
    }
}

proof fn lemma_cells_extend(
    tables: Tables,
    row: Seq<Cell>,
    n: nat,
    numbers: NumberTable,
    streaming: bool,
)
    requires
        n <= row.len(),
    ensures
        extends(crate::xlsx_cells::cells(tables, row, n, numbers, streaming).tables, tables),
    decreases n,
{
    assert(extends(tables, tables));
    if n > 0 {
        let m = (n - 1) as nat;
        lemma_cells_extend(tables, row, m, numbers, streaming);
        let before = crate::xlsx_cells::cells(tables, row, m, numbers, streaming).tables;
        lemma_cell_extends(before, row[n - 1], numbers, streaming);
        lemma_extends_trans(
            tables,
            before,
            crate::xlsx_cells::cell(before, row[n - 1], numbers, streaming).tables,
        );
    }
}

pub proof fn lemma_rows_extend(page: XlsxPage, k: int, n: int)
    requires
        0 <= k <= n <= page.sheet.len(),
    ensures
        extends(page.rows(n).tables, page.rows(k).tables),
    decreases n - k,
{
    assert(extends(page.rows(k).tables, page.rows(k).tables));
    if k < n {
        lemma_rows_extend(page, k, n - 1);
        let before = page.rows(n - 1).tables;
        let row = page.sheet[n - 1];
        lemma_cells_extend(before, row, row.len(), page.numbers, page.streaming);
        lemma_extends_trans(page.rows(k).tables, before, page.rows(n).tables);
    }
}

/// Reading the pieces of a line gives a row, and nothing behind them is read.
pub open spec fn is_line(
    pieces: Seq<Piece>,
    row: Seq<Cell>,
    fields: int,
    rest: Seq<Result<XmlItem, Seq<char>>>,
    info: BookInfo,
    doubles: Doubles,
) -> bool {
    let (scan, left, signal) = run_with(
        RowState::fresh(fields),
        crate::markup::items(pieces) + rest,
        info,
        doubles,
    );
    &&& scan.row == row
    &&& scan.fields >= 0
    &&& left == rest
    &&& signal is Row
}

/// Reading the pieces of lines gives rows.
pub open spec fn are_lines(
    list: Seq<Seq<Piece>>,
    rows: Seq<Seq<Cell>>,
    info: BookInfo,
    doubles: Doubles,
) -> bool {
    &&& list.len() == rows.len()
    &&& forall|i: int, fields: int, rest: Seq<Result<XmlItem, Seq<char>>>|
        0 <= i < list.len() && fields >= 0 ==> #[trigger] is_line(
            list[i],
            rows[i],
            fields,
            rest,
            info,
            doubles,
        )
}

/// The pieces of the lines from `i` on.
pub open spec fn joined(list: Seq<Seq<Piece>>, i: int) -> Seq<Piece>
    decreases list.len() - i,
{
    if i >= list.len() {
        Seq::empty()
    } else {
        list[i] + joined(list, i + 1)
    }
}

/// A line is read.
proof fn lemma_line_read(
    page: XlsxPage,
    i: int,
    fields: int,
    rest: Seq<Result<XmlItem, Seq<char>>>,
    info: BookInfo,
    doubles: Doubles,
)
    requires
        page.fits(),
        page.is_readable(info, doubles),
        0 <= i < page.lines(),
        fields >= 0,
    ensures
        is_line(
            page.line_pieces(i),
            page.line_back(info, doubles, i),
            fields,
            rest,
            info,
            doubles,
        ),
{
    let n = page.sheet.len() as int;
    let scan = RowState { in_row: true, ..RowState::fresh(fields) };
    let left = crate::markup::items(seq![Piece::Close("row"@)]) + rest;
    let end = page.rows(n).tables;
    if i < page.first() {
        let h = page.headers->0;
        lemma_rows_extend(page, 0, n);
        let after = crate::xlsx_cells::header_cells(page.tables, h, h.len()).tables;
        assert(page.rows(0).tables == after);
        lemma_shared_before(end, after, info);
        lemma_headers_read(scan, page.tables, h, h.len(), left, info, doubles);
        lemma_row_read(
            fields,
            Seq::empty(),
            crate::xlsx_markup::pieces_of_headers(page.tables, h, h.len()),
            headers_back(h, h.len()),
            rest,
            info,
            doubles,
        );
    } else {
        let r = i - page.first();
        let before = page.rows(r).tables;
        let row = page.sheet[r];
        lemma_rows_extend(page, r + 1, n);
        lemma_shared_before(end, page.rows(r + 1).tables, info);
        lemma_cells_read(
            scan,
            before,
            row,
            row.len(),
            page.numbers,
            page.streaming,
            left,
            info,
            doubles,
        );
        lemma_row_read(
            fields,
            Seq::empty(),
            crate::xlsx_markup::pieces_of_cells(
                before,
                row,
                row.len(),
                page.numbers,
                page.streaming,
            ),
            page.line_back(info, doubles, i),
            rest,
            info,
            doubles,
        );
    }
}

/// The pieces of all lines are those of the lines one after the other.
proof fn lemma_lines(page: XlsxPage, k: nat)
    requires
        k <= page.sheet.len(),
    ensures
        ({
            let tables = crate::xlsx_cells::header_row(page.tables, page.headers).tables;
            crate::xlsx_markup::pieces_of_rows(
                tables,
                page.sheet,
                k,
                page.numbers,
                page.streaming,
            ) + joined(page.line_list(), page.first() + k) == joined(page.line_list(), page.first())
        }),
    decreases k,
{
    let tables = crate::xlsx_cells::header_row(page.tables, page.headers).tables;
    let some = crate::xlsx_markup::pieces_of_rows(
        tables,
        page.sheet,
        k,
        page.numbers,
        page.streaming,
    );
    if k == 0 {
        assert(some + joined(page.line_list(), page.first()) =~= joined(page.line_list(), page.first()));
    } else {
        let m = (k - 1) as nat;
        lemma_lines(page, m);
        let fewer = crate::xlsx_markup::pieces_of_rows(
            tables,
            page.sheet,
            m,
            page.numbers,
            page.streaming,
        );
        let i = page.first() + m;
        assert(page.line_list()[i] == page.line_pieces(i));
        assert(some == fewer + page.line_pieces(i));
        assert(some + joined(page.line_list(), i + 1) =~= fewer + joined(page.line_list(), i));
    }
}

pub proof fn lemma_all_lines(page: XlsxPage)
    ensures
        page.pieces() == joined(page.line_list(), 0),
{
    lemma_lines(page, page.sheet.len());
    assert(joined(page.line_list(), page.lines()) =~= Seq::<Piece>::empty());
    let rows = crate::xlsx_markup::pieces_of_rows(
        crate::xlsx_cells::header_row(page.tables, page.headers).tables,
        page.sheet,
        page.sheet.len(),
        page.numbers,
        page.streaming,
    );
    assert(rows + Seq::<Piece>::empty() =~= rows);
    if page.headers is Some {
        assert(page.line_list()[0] == page.line_pieces(0));
    } else {
        assert(Seq::<Piece>::empty() + rows =~= rows);
    }
}

/// A reader of a sheet stands before line `i`, with pieces that say nothing of rows
/// in front of it.
spec fn stands_before(
    state: XlsxBookState,
    list: Seq<Seq<Piece>>,
    info: BookInfo,
    front: Seq<Piece>,
    back: Seq<Piece>,
    i: int,
) -> bool {
    &&& state.info() == info
    &&& state.current != -1
    &&& state.scan.fields >= 0
    &&& is_quiet(front)
    &&& state.events == Some(
        crate::markup::items(front) + (crate::markup::items(joined(list, i))
            + crate::markup::items(back)),
    )
}

/// One more line is read.
proof fn lemma_next_line(
    state: XlsxBookState,
    list: Seq<Seq<Piece>>,
    rows: Seq<Seq<Cell>>,
    info: BookInfo,
    front: Seq<Piece>,
    back: Seq<Piece>,
    doubles: Doubles,
    i: int,
)
    requires
        are_lines(list, rows, info, doubles),
        0 <= i < list.len(),
        stands_before(state, list, info, front, back, i),
    ensures
        state.row_read(doubles).1 == Ok::<Progress, Seq<char>>(Progress::Row),
        state.row_read(doubles).0.scan.row == rows[i],
        stands_before(state.row_read(doubles).0, list, info, Seq::empty(), back, i + 1),
{
    let fresh = RowState::fresh(state.scan.fields);
    let here = crate::markup::items(list[i]);
    let rest = crate::markup::items(joined(list, i + 1)) + crate::markup::items(back);
    assert(joined(list, i) == list[i] + joined(list, i + 1));
    crate::markup::lemma_items_concat(list[i], joined(list, i + 1));
    assert(crate::markup::items(joined(list, i)) + crate::markup::items(back) =~= here + rest);
    lemma_quiet(fresh, front, here + rest, info, doubles);
    assert(is_line(list[i], rows[i], state.scan.fields, rest, info, doubles));
    lemma_read_on(state, fresh, doubles);
    assert(crate::markup::items(Seq::<Piece>::empty()) + rest =~= rest);
}

/// Behind the last line the sheet ends.
proof fn lemma_sheet_ends(
    state: XlsxBookState,
    list: Seq<Seq<Piece>>,
    info: BookInfo,
    front: Seq<Piece>,
    back: Seq<Piece>,
    doubles: Doubles,
)
    requires
        is_quiet(back),
        stands_before(state, list, info, front, back, list.len() as int),
    ensures
        state.row_read(doubles).1 == Ok::<Progress, Seq<char>>(Progress::End),
        state.row_read(doubles).0.scan.row == Seq::<Cell>::empty(),
{
    let fresh = RowState::fresh(state.scan.fields);
    let none = Seq::<Result<XmlItem, Seq<char>>>::empty();
    let last = crate::markup::items(back);
    assert(crate::markup::items(joined(list, list.len() as int)) + last =~= last);
    assert(last =~= last + none);
    lemma_quiet(fresh, front, last, info, doubles);
    lemma_quiet(fresh, back, none, info, doubles);
    assert(run_with(fresh, none, info, doubles) == (fresh, none, Signal::End));
    lemma_read_on(state, fresh, doubles);
}

/// After some lines the reader stands before the next one.
proof fn lemma_reads(
    start: XlsxBookState,
    list: Seq<Seq<Piece>>,
    rows: Seq<Seq<Cell>>,
    info: BookInfo,
    front: Seq<Piece>,
    back: Seq<Piece>,
    doubles: Doubles,
    n: nat,
)
    requires
        are_lines(list, rows, info, doubles),
        stands_before(start, list, info, front, back, 0),
        n <= list.len(),
    ensures
        stands_before(
            start.after_reads(doubles, n),
            list,
            info,
            if n == 0 {
                front
            } else {
                Seq::empty()
            },
            back,
            n as int,
        ),
    decreases n,
{
    if n > 0 {
        let m = (n - 1) as nat;
        lemma_reads(start, list, rows, info, front, back, doubles, m);
        lemma_next_line(
            start.after_reads(doubles, m),
            list,
            rows,
            info,
            if m == 0 {
                front
            } else {
                Seq::empty()
            },
            back,
            doubles,
            m as int,
        );
    }
}

/// Lines that read as rows, between pieces that say nothing of rows, are read one
/// by one, and behind them the sheet ends.
pub proof fn lemma_lines_read(
    book: XlsxBookState,
    index: int,
    list: Seq<Seq<Piece>>,
    rows: Seq<Seq<Cell>>,
    front: Seq<Piece>,
    back: Seq<Piece>,
    doubles: Doubles,
    n: nat,
)
    requires
        0 <= index,
        are_lines(list, rows, book.info(), doubles),
        is_quiet(front),
        is_quiet(back),
        n <= list.len(),
    ensures
        ({
            let start = book.begun(index, crate::markup::items(front + joined(list, 0) + back));
            let before = start.after_reads(doubles, n);
            let (after, read) = before.row_read(doubles);
            if n < list.len() {
                &&& read == Ok::<Progress, Seq<char>>(Progress::Row)
                &&& after.scan.row == rows[n as int]
            } else {
                &&& read == Ok::<Progress, Seq<char>>(Progress::End)
                &&& after.scan.row == Seq::<Cell>::empty()
            }
        }),
{
    let info = book.info();
    let all = joined(list, 0);
    let start = book.begun(index, crate::markup::items(front + all + back));
    crate::markup::lemma_items_concat(front, all);
    crate::markup::lemma_items_concat(front + all, back);
    assert(crate::markup::items(front + all + back) =~= crate::markup::items(front) + (
    crate::markup::items(all) + crate::markup::items(back)));
    assert(stands_before(start, list, info, front, back, 0));
    lemma_reads(start, list, rows, info, front, back, doubles, n);
    let lead = if n == 0 {
        front
    } else {
        Seq::empty()
    };
    let before = start.after_reads(doubles, n);
    if n < list.len() {
        lemma_next_line(before, list, rows, info, lead, back, doubles, n as int);
    } else {
        lemma_sheet_ends(before, list, info, lead, back, doubles);
    }
}

/// A sheet written and read back: every read gives the next line, first the
/// headers, then the rows, each as its cells that are not empty with the values
/// that [`value_back`] says, and behind the last line the sheet ends. The texts of
/// the numbers have to hold no markup and to stand for doubles, which are supplied
/// where the reader asks for them; the shared strings have to be those that
/// [`law_shared_strings_read_back`](crate::xlsx_string_laws::law_shared_strings_read_back)
/// gives of the writer's table, and no line may have more cells than a sheet has
/// columns.
pub proof fn law_written_sheet_reads_back(
    book: XlsxBookState,
    index: int,
    page: XlsxPage,
    front: Seq<Piece>,
    back: Seq<Piece>,
    doubles: Doubles,
    n: nat,
)
    requires
        0 <= index,
        page.fits(),
        page.is_readable(book.info(), doubles),
        is_quiet(front),
        is_quiet(back),
        n <= page.lines(),
    ensures
        ({
            let start = book.begun(index, crate::markup::items(front + page.pieces() + back));
            let before = start.after_reads(doubles, n);
            let (after, read) = before.row_read(doubles);
            if n < page.lines() {
                &&& read == Ok::<Progress, Seq<char>>(Progress::Row)
                &&& after.scan.row == page.line_back(book.info(), doubles, n as int)
            } else {
                &&& read == Ok::<Progress, Seq<char>>(Progress::End)
                &&& after.scan.row == Seq::<Cell>::empty()
            }
        }),
{
    let info = book.info();
    let list = page.line_list();
    let rows = page.rows_back(info, doubles);
    assert forall|i: int, fields: int, rest: Seq<Result<XmlItem, Seq<char>>>|
        0 <= i < list.len() && fields >= 0 implies #[trigger] is_line(
        list[i],
        rows[i],
        fields,
        rest,
        info,
        doubles,
    ) by {
        lemma_line_read(page, i, fields, rest, info, doubles);
    }
    lemma_all_lines(page);
    lemma_lines_read(book, index, list, rows, front, back, doubles, n);
}

} // verus!
